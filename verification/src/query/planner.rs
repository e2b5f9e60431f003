//! Query plan kinds.

use vstd::prelude::*;
use vstd::string::StrSliceExecFns;

verus! {

/// How a query is executed.
#[derive(Debug, Clone)]
pub enum PlanType {
    /// Use an index for a point lookup.
    IndexPointLookup { index_name: String },
    /// Use an index for a range scan.
    IndexRangeScan { index_name: String },
    /// Covered index scan (no document fetch needed).
    CoveredIndexScan { index_name: String },
    /// Full collection scan.
    CollectionScan,
}

/// `needle` occurs in `hay` as a run of consecutive chars (`str::contains`).
pub open spec fn occurs_in(needle: Seq<char>, hay: Seq<char>) -> bool {
    exists|i: int| 0 <= i && i + needle.len() <= hay.len() && #[trigger] hay.subrange(i, i + needle.len()) == needle
}

/// The index a plan uses: the first of `indexes` whose name contains one
/// of the filter's fields.
pub open spec fn chosen_index(fields: Seq<Seq<char>>, indexes: Seq<Seq<char>>) -> Option<nat>
    decreases indexes.len(),
{
    if indexes.len() == 0 {
        None
    } else {
        match chosen_index(fields, indexes.drop_last()) {
            Some(i) => Some(i),
            None => if exists|j: int| 0 <= j < fields.len() && occurs_in(#[trigger] fields[j], indexes.last()) {
                Some((indexes.len() - 1) as nat)
            } else {
                None
            },
        }
    }
}

/// A choice made on a prefix of the indexes stands for all of them.
proof fn lemma_chosen_prefix(fs: Seq<Seq<char>>, xs: Seq<Seq<char>>, k: int)
    requires
        0 <= k <= xs.len(),
        chosen_index(fs, xs.take(k)) is Some,
    ensures
        chosen_index(fs, xs) == chosen_index(fs, xs.take(k)),
    decreases xs.len() - k,
{
    if k == xs.len() {
        assert(xs.take(k) =~= xs);
    } else {
        assert(xs.take(k + 1).drop_last() =~= xs.take(k));
        lemma_chosen_prefix(fs, xs, k + 1);
    }
}

fn str_contains(hay: &str, needle: &str) -> (b: bool)
    ensures
        b == occurs_in(needle@, hay@),
{
    let n = hay.unicode_len();
    let m = needle.unicode_len();
    if m > n {
        return false;
    }
    if m == 0 {
        assert(hay@.subrange(0int, 0int + needle@.len()) =~= needle@);
        return true;
    }
    let mut i: usize = 0;
    while i <= n - m
        invariant
            n == hay@.len(),
            m == needle@.len(),
            1 <= m <= n,
            i <= n - m + 1,
            forall|k: int| 0 <= k < i ==> #[trigger] hay@.subrange(k, k + m) != needle@,
        decreases n + 1 - i,
    {
        let mut j: usize = 0;
        let mut same = true;
        assert(hay@.subrange(i as int, i as int) =~= needle@.take(0));
        while j < m
            invariant
                n == hay@.len(),
                m == needle@.len(),
                i + m <= n,
                j <= m,
                same == (hay@.subrange(i as int, i + j) == needle@.take(j as int)),
            decreases m - j,
        {
            if same && hay.get_char(i + j) != needle.get_char(j) {
                same = false;
                assert(hay@.subrange(i as int, i + j + 1)[j as int] != needle@.take(j + 1)[j as int]);
            } else if same {
                assert(hay@.subrange(i as int, i + j + 1) =~= hay@.subrange(i as int, i + j).push(hay@[i + j]));
                assert(needle@.take(j + 1) =~= needle@.take(j as int).push(needle@[j as int]));
            } else {
                proof {
                    if hay@.subrange(i as int, i + j + 1) == needle@.take(j + 1) {
                        assert(hay@.subrange(i as int, i + j) =~= hay@.subrange(i as int, i + j + 1).take(j as int));
                        assert(needle@.take(j as int) =~= needle@.take(j + 1).take(j as int));
                    }
                }
            }
            j = j + 1;
        }
        assert(needle@.take(m as int) =~= needle@);
        if same {
            return true;
        }
        i = i + 1;
    }
    false
}

/// Pick the index for a query: the first of `indexes` whose name contains
/// one of `fields`.
pub fn select_index(fields: &Vec<String>, indexes: &Vec<String>) -> (r: Option<usize>)
    ensures
        match chosen_index(fields@.map_values(|f: String| f@), indexes@.map_values(|x: String| x@)) {
            Some(i) => r == Some(i as usize),
            None => r is None,
        },
{
    let ghost fs = fields@.map_values(|f: String| f@);
    let ghost xs = indexes@.map_values(|x: String| x@);
    let mut i: usize = 0;
    assert(xs.take(0) =~= Seq::<Seq<char>>::empty());
    while i < indexes.len()
        invariant
            i <= indexes@.len(),
            fs == fields@.map_values(|f: String| f@),
            xs == indexes@.map_values(|x: String| x@),
            chosen_index(fs, xs.take(i as int)) is None,
        decreases indexes@.len() - i,
    {
        let mut k: usize = 0;
        let mut hit = false;
        while k < fields.len()
            invariant
                k <= fields@.len(),
                i < indexes@.len(),
                fs == fields@.map_values(|f: String| f@),
                xs == indexes@.map_values(|x: String| x@),
                hit == exists|j: int| 0 <= j < k && occurs_in(#[trigger] fs[j], xs[i as int]),
            decreases fields@.len() - k,
        {
            let found = str_contains(indexes[i].as_str(), fields[k].as_str());
            proof {
                assert(fs[k as int] == fields@[k as int]@);
                assert(xs[i as int] == indexes@[i as int]@);
            }
            if found {
                hit = true;
            }
            proof {
                if hit {
                    if found {
                        assert(occurs_in(fs[k as int], xs[i as int]));
                    } else {
                        let j = choose|j: int| 0 <= j < k && occurs_in(#[trigger] fs[j], xs[i as int]);
                        assert(occurs_in(fs[j], xs[i as int]));
                    }
                }
            }
            k = k + 1;
        }
        proof {
            assert(xs.take(i + 1).drop_last() =~= xs.take(i as int));
            assert(xs.take(i + 1).last() == xs[i as int]);
        }
        if hit {
            proof {
                lemma_chosen_prefix(fs, xs, i + 1);
            }
            return Some(i);
        }
        i = i + 1;
    }
    assert(xs.take(indexes@.len() as int) =~= xs);
    None
}

} // verus!
