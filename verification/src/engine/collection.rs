//! Collection options.

use vstd::prelude::*;

verus! {

/// Options of a time-series collection.
#[derive(Debug, Clone)]
pub struct TimeSeriesOptions {
    pub time_field: String,
    pub meta_field: Option<String>,
    pub granularity: Option<String>,
}

} // verus!
