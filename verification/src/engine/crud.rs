//! The decisions of a find: which index probe a filter allows, and which
//! stored entries a find returns.

use vstd::prelude::*;

use crate::format::obe::access::copy_value;
use crate::format::obe::value::{bytes_equal, value_model, ObeValue, ValueModel};
use crate::query::filter::{filter_model, Filter, FilterModel, FilterOp};

verus! {

/// How a find may use an index on the filtered field.
#[derive(Debug)]
pub enum IndexProbe {
    /// Look up the documents whose key equals the value.
    Point(ObeValue),
    /// Scan the keys between two bounds (`Null` leaves a side open).
    Range(ObeValue, ObeValue),
    /// The filter gives no probe: scan the collection.
    NoProbe,
}

/// What a probe denotes.
pub enum ProbeModel {
    Point(ValueModel),
    Range(ValueModel, ValueModel),
    NoProbe,
}

/// The model of a probe.
pub open spec fn probe_model(p: IndexProbe) -> ProbeModel {
    match p {
        IndexProbe::Point(v) => ProbeModel::Point(value_model(v)),
        IndexProbe::Range(a, b) => ProbeModel::Range(value_model(a), value_model(b)),
        IndexProbe::NoProbe => ProbeModel::NoProbe,
    }
}

/// The probe a filter allows: a single equality is a point lookup, a single
/// `$gt`/`$gte` a scan up from the value, a single `$lt`/`$lte` a scan up to
/// it; anything else none.
pub open spec fn probe_spec(f: FilterModel) -> ProbeModel {
    match f {
        FilterModel::Comparison(_, op, v) => match op {
            FilterOp::Eq => ProbeModel::Point(v),
            FilterOp::Gt | FilterOp::Gte => ProbeModel::Range(v, ValueModel::Null),
            FilterOp::Lt | FilterOp::Lte => ProbeModel::Range(ValueModel::Null, v),
            _ => ProbeModel::NoProbe,
        },
        _ => ProbeModel::NoProbe,
    }
}

/// Which way each comparison bounds an index probe: an equality looks up
/// its value; `$gt`/`$gte` scan up from the value with no upper bound;
/// `$lt`/`$lte` scan from the open low end up to the value; every other
/// filter gives no probe.
pub proof fn lemma_probe_bounds(f: FilterModel)
    ensures
        match f {
            FilterModel::Comparison(_, op, v) => {
                &&& op is Eq ==> probe_spec(f) == ProbeModel::Point(v)
                &&& (op is Gt || op is Gte) ==> (probe_spec(f) matches ProbeModel::Range(lo, hi) && lo == v
                    && hi is Null)
                &&& (op is Lt || op is Lte) ==> (probe_spec(f) matches ProbeModel::Range(lo, hi) && lo is Null
                    && hi == v)
                &&& !(op is Eq || op is Gt || op is Gte || op is Lt || op is Lte) ==> probe_spec(f) is NoProbe
            },
            _ => probe_spec(f) is NoProbe,
        },
{
}

/// The index probe a find's filter allows.
pub fn index_probe(filter: &Filter) -> (p: IndexProbe)
    ensures
        probe_model(p) == probe_spec(filter_model(*filter)),
        match *filter {
            Filter::Comparison(_, op, v) => {
                &&& op is Eq ==> (p matches IndexProbe::Point(x) && value_model(x) == value_model(v))
                &&& (op is Gt || op is Gte) ==> (p matches IndexProbe::Range(lo, hi) && value_model(lo)
                    == value_model(v) && hi is Null)
                &&& (op is Lt || op is Lte) ==> (p matches IndexProbe::Range(lo, hi) && lo is Null
                    && value_model(hi) == value_model(v))
                &&& !(op is Eq || op is Gt || op is Gte || op is Lt || op is Lte) ==> p is NoProbe
            },
            _ => p is NoProbe,
        },
{
    match filter {
        Filter::Comparison(_, op, v) => match op {
            FilterOp::Eq => IndexProbe::Point(copy_value(v)),
            FilterOp::Gt | FilterOp::Gte => IndexProbe::Range(copy_value(v), ObeValue::Null),
            FilterOp::Lt | FilterOp::Lte => IndexProbe::Range(ObeValue::Null, copy_value(v)),
            _ => IndexProbe::NoProbe,
        },
        _ => IndexProbe::NoProbe,
    }
}

/// Whether the candidate ids admit `key`: no candidates, or an empty list
/// of them (an index lookup that found nothing), admits every key.
pub open spec fn candidate_ok(cands: Option<Seq<Seq<u8>>>, key: Seq<u8>) -> bool {
    match cands {
        Some(c) => c.len() == 0 || c.contains(key),
        None => true,
    }
}

/// The entries of `entries` (the stored scan, then the `n_scan`.. recent
/// writes) that the first `t` positions select, by position: an entry is
/// selected when it is no tombstone, the candidates admit it, it matched the
/// filter, and, for a recent write, no entry selected before has its key.
pub open spec fn selected(
    entries: Seq<(Seq<u8>, bool)>,
    cands: Option<Seq<Seq<u8>>>,
    matched: Seq<bool>,
    n_scan: nat,
    t: nat,
) -> Seq<nat>
    decreases t,
{
    if t == 0 {
        Seq::empty()
    } else {
        let prev = selected(entries, cands, matched, n_scan, (t - 1) as nat);
        let i = (t - 1) as nat;
        let keep = !entries[i as int].1 && candidate_ok(cands, entries[i as int].0) && matched[i as int] && (i
            >= n_scan ==> !(exists|k: int| 0 <= k < prev.len() && #[trigger] entries[prev[k] as int].0 == entries[i as int].0));
        if keep {
            prev.push(i)
        } else {
            prev
        }
    }
}

/// What a find returns is live, admitted by the candidates and matched,
/// in increasing position, and a recent write never repeats the key of an
/// entry returned before it.
pub proof fn lemma_selected_live(
    entries: Seq<(Seq<u8>, bool)>,
    cands: Option<Seq<Seq<u8>>>,
    matched: Seq<bool>,
    n_scan: nat,
    t: nat,
)
    requires
        t <= entries.len(),
        t <= matched.len(),
    ensures
        ({
            let r = selected(entries, cands, matched, n_scan, t);
            &&& forall|k: int| 0 <= k < r.len() ==> {
                let i = #[trigger] r[k];
                &&& i < t
                &&& !entries[i as int].1
                &&& candidate_ok(cands, entries[i as int].0)
                &&& matched[i as int]
            }
            &&& forall|a: int, b: int| 0 <= a < b < r.len() ==> #[trigger] r[a] < #[trigger] r[b]
            &&& forall|a: int, b: int|
                0 <= a < b < r.len() && r[b] >= n_scan ==> entries[#[trigger] r[a] as int].0 != entries[#[trigger] r[b] as int].0
        }),
    decreases t,
{
    if t > 0 {
        lemma_selected_live(entries, cands, matched, n_scan, (t - 1) as nat);
        let prev = selected(entries, cands, matched, n_scan, (t - 1) as nat);
        let r = selected(entries, cands, matched, n_scan, t);
        let i = (t - 1) as nat;
        if r != prev {
            assert(r == prev.push(i));
            assert forall|a: int, b: int|
                0 <= a < b < r.len() && r[b] >= n_scan implies entries[#[trigger] r[a] as int].0
                != entries[#[trigger] r[b] as int].0 by {
                if b < prev.len() {
                    assert(r[a] == prev[a] && r[b] == prev[b]);
                } else {
                    assert(r[a] == prev[a]);
                    if entries[prev[a] as int].0 == entries[i as int].0 {
                        assert(exists|k: int| 0 <= k < prev.len() && #[trigger] entries[prev[k] as int].0 == entries[i as int].0);
                    }
                }
            }
            assert forall|a: int, b: int| 0 <= a < b < r.len() implies #[trigger] r[a] < #[trigger] r[b] by {
                if b < prev.len() {
                    assert(r[a] == prev[a] && r[b] == prev[b]);
                } else {
                    assert(r[a] == prev[a]);
                }
            }
            assert forall|k: int| 0 <= k < r.len() implies ({
                let x = #[trigger] r[k];
                &&& x < t
                &&& !entries[x as int].1
                &&& candidate_ok(cands, entries[x as int].0)
                &&& matched[x as int]
            }) by {
                if k < prev.len() {
                    assert(r[k] == prev[k]);
                }
            }
        }
    }
}

/// The keys and tombstone flags of a list of entries.
pub open spec fn entries_view(s: Seq<(Vec<u8>, bool)>) -> Seq<(Seq<u8>, bool)> {
    s.map_values(|e: (Vec<u8>, bool)| (e.0@, e.1))
}

/// Whether `key` is among the candidate ids.
fn contains_key(c: &Vec<Vec<u8>>, key: &[u8]) -> (b: bool)
    ensures
        b == c@.map_values(|x: Vec<u8>| x@).contains(key@),
{
    let ghost cv = c@.map_values(|x: Vec<u8>| x@);
    let mut i: usize = 0;
    while i < c.len()
        invariant
            i <= c@.len(),
            cv == c@.map_values(|x: Vec<u8>| x@),
            forall|j: int| 0 <= j < i ==> cv[j] != key@,
        decreases c@.len() - i,
    {
        if bytes_equal(c[i].as_slice(), key) {
            assert(cv[i as int] == key@);
            return true;
        }
        i = i + 1;
    }
    false
}

/// The entries a find returns, as positions in the stored scan followed by
/// the recent (memtable) writes: live entries that the index candidates
/// admit (when a probe found some) and that matched the filter, in order,
/// where a recent write whose key was already selected is left out.
/// `matched[i]` tells whether entry `i` decoded and matched the filter.
pub fn select_documents(
    scan: &Vec<(Vec<u8>, bool)>,
    recent: &Vec<(Vec<u8>, bool)>,
    candidates: Option<&Vec<Vec<u8>>>,
    matched: &Vec<bool>,
) -> (r: Vec<usize>)
    requires
        matched@.len() == scan@.len() + recent@.len(),
    ensures
        r@.map_values(|x: usize| x as nat) == selected(
            entries_view(scan@) + entries_view(recent@),
            match candidates {
                Some(c) => Some(c@.map_values(|x: Vec<u8>| x@)),
                None => None,
            },
            matched@,
            scan@.len(),
            (scan@.len() + recent@.len()) as nat,
        ),
{
    let ghost entries = entries_view(scan@) + entries_view(recent@);
    let ghost cands = match candidates {
        Some(c) => Some(c@.map_values(|x: Vec<u8>| x@)),
        None => None,
    };
    let n = scan.len();
    let total = matched.len();
    let mut out: Vec<usize> = Vec::new();
    let mut t: usize = 0;
    while t < total
        invariant
            t <= total,
            n == scan@.len(),
            total == scan@.len() + recent@.len(),
            matched@.len() == total,
            entries == entries_view(scan@) + entries_view(recent@),
            cands == match candidates {
                Some(c) => Some(c@.map_values(|x: Vec<u8>| x@)),
                None => None,
            },
            out@.map_values(|x: usize| x as nat) == selected(entries, cands, matched@, n as nat, t as nat),
            forall|k: int| 0 <= k < out@.len() ==> out@[k] < t,
        decreases total - t,
    {
        let ghost prev = out@.map_values(|x: usize| x as nat);
        let (key, tomb) = if t < n {
            (scan[t].0.as_slice(), scan[t].1)
        } else {
            (recent[t - n].0.as_slice(), recent[t - n].1)
        };
        assert(entries[t as int] == (key@, tomb));
        let admitted = match candidates {
            Some(c) => c.len() == 0 || contains_key(c, key),
            None => true,
        };
        let mut fresh = true;
        if t >= n {
            let mut k: usize = 0;
            while k < out.len()
                invariant
                    k <= out@.len(),
                    n <= t < total,
                    n == scan@.len(),
                    total == scan@.len() + recent@.len(),
                    entries == entries_view(scan@) + entries_view(recent@),
                    entries[t as int].0 == key@,
                    forall|x: int| 0 <= x < out@.len() ==> out@[x] < t,
                    fresh == (forall|x: int| 0 <= x < k ==> entries[out@[x] as int].0 != key@),
                decreases out@.len() - k,
            {
                let p = out[k];
                let other = if p < n {
                    scan[p].0.as_slice()
                } else {
                    recent[p - n].0.as_slice()
                };
                assert(entries[p as int].0 == other@);
                if bytes_equal(other, key) {
                    fresh = false;
                }
                k = k + 1;
            }
        }
        proof {
            assert forall|k: int| 0 <= k < prev.len() implies #[trigger] prev[k] == out@[k] as nat by {}
            if t >= n {
                if !fresh {
                    let x = choose|x: int| 0 <= x < out@.len() && entries[out@[x] as int].0 == key@;
                    assert(entries[prev[x] as int].0 == entries[t as int].0);
                }
                if fresh {
                    assert forall|x: int| 0 <= x < prev.len() implies #[trigger] entries[prev[x] as int].0 != entries[t as int].0 by {
                        assert(prev[x] == out@[x] as nat);
                    }
                }
            }
        }
        if !tomb && admitted && matched[t] && fresh {
            out.push(t);
            assert(out@.map_values(|x: usize| x as nat) =~= prev.push(t as nat));
        }
        t = t + 1;
    }
    out
}

/// The part of a (sorted) result list that a find returns: the first `skip`
/// are passed over, then at most `limit` are kept.
pub open spec fn window<T>(s: Seq<T>, skip: nat, limit: Option<nat>) -> Seq<T> {
    let rest = if skip < s.len() { s.skip(skip as int) } else { Seq::empty() };
    match limit {
        Some(n) => if n < rest.len() { rest.take(n as int) } else { rest },
        None => rest,
    }
}

/// Apply a find's `skip` and `limit` to its (sorted) results.
pub fn page_results<T>(results: Vec<T>, skip: usize, limit: Option<usize>) -> (r: Vec<T>)
    ensures
        r@ == window(results@, skip as nat, match limit {
            Some(n) => Some(n as nat),
            None => None,
        }),
{
    let mut rest = if skip >= results.len() {
        Vec::new()
    } else {
        let mut d = results;
        let tail = d.split_off(skip);
        tail
    };
    match limit {
        Some(n) => {
            rest.truncate(n);
        },
        None => {},
    }
    rest
}

} // verus!
