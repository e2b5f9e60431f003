//! The decisions of an explain: how much to report, which indexes the
//! planner may see, how large the collection is, and how the chosen plan is
//! described stage by stage.

use vstd::prelude::*;

use crate::codec::str_eq;
use crate::index::secondary::IndexSpec;
use crate::query::filter::copy_string;
use crate::query::planner::PlanType;

verus! {

/// How much an explain reports.
#[derive(Debug, Clone, Copy, PartialEq, Eq)]
pub enum Verbosity {
    /// The chosen plan only.
    QueryPlanner,
    /// The plan, and the statistics of running the query.
    ExecutionStats,
    /// As `ExecutionStats`, with every candidate plan and its cost.
    AllPlansExecution,
}

/// The verbosity an explain's options ask for: `"executionStats"` and
/// `"allPlansExecution"` by name, anything else (or none) `QueryPlanner`.
pub open spec fn verbosity_spec(v: Option<Seq<char>>) -> Verbosity {
    match v {
        Some(s) => if s == "executionStats"@ {
            Verbosity::ExecutionStats
        } else if s == "allPlansExecution"@ {
            Verbosity::AllPlansExecution
        } else {
            Verbosity::QueryPlanner
        },
        None => Verbosity::QueryPlanner,
    }
}

/// The verbosity named by an explain's `verbosity` option.
pub fn verbosity_of(v: Option<&str>) -> (r: Verbosity)
    ensures
        r == verbosity_spec(match v {
            Some(s) => Some(s@),
            None => None,
        }),
{
    match v {
        Some(s) => if str_eq(s, "executionStats") {
            Verbosity::ExecutionStats
        } else if str_eq(s, "allPlansExecution") {
            Verbosity::AllPlansExecution
        } else {
            Verbosity::QueryPlanner
        },
        None => Verbosity::QueryPlanner,
    }
}

/// Whether an explain runs the query to report its statistics.
pub open spec fn runs_query(v: Verbosity) -> bool {
    v != Verbosity::QueryPlanner
}

/// The names of the indexes that are not hidden, in order.
pub open spec fn visible_names(specs: Seq<IndexSpec>) -> Seq<Seq<char>>
    decreases specs.len(),
{
    if specs.len() == 0 {
        Seq::empty()
    } else {
        let rest = visible_names(specs.drop_last());
        if specs.last().hidden {
            rest
        } else {
            rest.push(specs.last().name@)
        }
    }
}

/// The names of the indexes the planner may use: those not hidden.
pub fn visible_index_names(specs: &Vec<IndexSpec>) -> (r: Vec<String>)
    ensures
        r@.map_values(|s: String| s@) == visible_names(specs@),
{
    let mut out: Vec<String> = Vec::new();
    let mut i: usize = 0;
    while i < specs.len()
        invariant
            i <= specs@.len(),
            out@.map_values(|s: String| s@) == visible_names(specs@.take(i as int)),
        decreases specs@.len() - i,
    {
        assert(specs@.take(i as int + 1).drop_last() =~= specs@.take(i as int));
        if !specs[i].hidden {
            let name = copy_string(specs[i].name.as_str());
            out.push(name);
        }
        assert(out@.map_values(|s: String| s@) =~= visible_names(specs@.take(i as int + 1)));
        i = i + 1;
    }
    assert(specs@.take(specs@.len() as int) =~= specs@);
    out
}

/// How many of the scanned entries are live (no tombstone).
pub open spec fn live_entries(tombs: Seq<bool>) -> nat
    decreases tombs.len(),
{
    if tombs.len() == 0 {
        0
    } else {
        live_entries(tombs.drop_last()) + if tombs.last() { 0nat } else { 1nat }
    }
}

/// The size of a collection: its live entries. `tombstones[i]` tells
/// whether the `i`-th scanned entry is a tombstone.
pub fn collection_size(tombstones: &Vec<bool>) -> (n: u64)
    ensures
        n == live_entries(tombstones@),
{
    let mut n: u64 = 0;
    let mut i: usize = 0;
    while i < tombstones.len()
        invariant
            i <= tombstones@.len(),
            n == live_entries(tombstones@.take(i as int)),
            n <= i,
        decreases tombstones@.len() - i,
    {
        assert(tombstones@.take(i as int + 1).drop_last() =~= tombstones@.take(i as int));
        if !tombstones[i] {
            n = n + 1;
        }
        i = i + 1;
    }
    assert(tombstones@.take(tombstones@.len() as int) =~= tombstones@);
    n
}

/// How an explain describes a plan: the scan type, the index used, the
/// stages in order, and why no index was used.
pub struct PlanOutline {
    pub scan_type: String,
    pub index_used: Option<String>,
    pub stages: Vec<String>,
    pub fallback_reason: Option<String>,
}

/// What an outline says, as text.
pub struct OutlineModel {
    pub scan_type: Seq<char>,
    pub index_used: Option<Seq<char>>,
    pub stages: Seq<Seq<char>>,
    pub fallback_reason: Option<Seq<char>>,
}

/// The text of an outline.
pub open spec fn outline_model(o: PlanOutline) -> OutlineModel {
    OutlineModel {
        scan_type: o.scan_type@,
        index_used: match o.index_used {
            Some(s) => Some(s@),
            None => None,
        },
        stages: o.stages@.map_values(|s: String| s@),
        fallback_reason: match o.fallback_reason {
            Some(s) => Some(s@),
            None => None,
        },
    }
}

/// The outline of each plan: an index lookup or range scan reads the index
/// then fetches the documents; a covered scan reads the index only; a
/// collection scan reads every document and says why.
pub open spec fn outline_spec(p: PlanType) -> OutlineModel {
    match p {
        PlanType::IndexPointLookup { index_name } => OutlineModel {
            scan_type: "indexPointLookup"@,
            index_used: Some(index_name@),
            stages: seq!["IXSCAN"@, "FETCH"@],
            fallback_reason: None,
        },
        PlanType::IndexRangeScan { index_name } => OutlineModel {
            scan_type: "indexRangeScan"@,
            index_used: Some(index_name@),
            stages: seq!["IXSCAN"@, "FETCH"@],
            fallback_reason: None,
        },
        PlanType::CoveredIndexScan { index_name } => OutlineModel {
            scan_type: "coveredIndexScan"@,
            index_used: Some(index_name@),
            stages: seq!["IXSCAN"@],
            fallback_reason: None,
        },
        PlanType::CollectionScan => OutlineModel {
            scan_type: "collectionScan"@,
            index_used: None,
            stages: seq!["COLLSCAN"@],
            fallback_reason: Some("No suitable index found for the query filter"@),
        },
    }
}

/// Describe a plan for an explain.
pub fn plan_outline(plan: &PlanType) -> (r: PlanOutline)
    ensures
        outline_model(r) == outline_spec(*plan),
{
    let r = match plan {
        PlanType::IndexPointLookup { index_name } => PlanOutline {
            scan_type: copy_string("indexPointLookup"),
            index_used: Some(copy_string(index_name.as_str())),
            stages: vec![copy_string("IXSCAN"), copy_string("FETCH")],
            fallback_reason: None,
        },
        PlanType::IndexRangeScan { index_name } => PlanOutline {
            scan_type: copy_string("indexRangeScan"),
            index_used: Some(copy_string(index_name.as_str())),
            stages: vec![copy_string("IXSCAN"), copy_string("FETCH")],
            fallback_reason: None,
        },
        PlanType::CoveredIndexScan { index_name } => PlanOutline {
            scan_type: copy_string("coveredIndexScan"),
            index_used: Some(copy_string(index_name.as_str())),
            stages: vec![copy_string("IXSCAN")],
            fallback_reason: None,
        },
        PlanType::CollectionScan => PlanOutline {
            scan_type: copy_string("collectionScan"),
            index_used: None,
            stages: vec![copy_string("COLLSCAN")],
            fallback_reason: Some(copy_string("No suitable index found for the query filter")),
        },
    };
    proof {
        assert(outline_model(r).stages =~= outline_spec(*plan).stages);
    }
    r
}

/// The index keys an executed plan examined: none for a collection scan,
/// one per returned document otherwise.
pub fn keys_examined(plan: &PlanType, returned: u64) -> (n: u64)
    ensures
        n == if *plan is CollectionScan { 0 } else { returned },
{
    match plan {
        PlanType::CollectionScan => 0,
        _ => returned,
    }
}

} // verus!
