//! Index structures: secondary-index key encoding and full-text postings.

pub mod ahit;
pub mod art;
pub mod fulltext;
pub mod secondary;
