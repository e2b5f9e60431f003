//! Query language pieces: filter operators, plan kinds, aggregation and SQL
//! join descriptors.

pub mod aggregation;
pub mod filter;
pub mod planner;
pub mod sql_parser;
pub mod update;
