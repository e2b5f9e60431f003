//! Change-stream events: the committed mutations emitted to subscribers.

use vstd::prelude::*;

use crate::format::obe::document::ObeDocument;

verus! {

/// Type of a change-stream event.
#[derive(Debug, Clone, Copy, PartialEq, Eq, Structural)]
pub enum OperationType {
    Insert,
    Update,
    Replace,
    Delete,
    Invalidate,
}

/// A captured change of a collection.
#[derive(Debug)]
pub struct ChangeStreamEvent {
    pub op_type: OperationType,
    pub cluster_time: u64,
    pub document_key: [u8; 16],
    pub full_document: Option<ObeDocument>,
    pub namespace: String,
    pub resume_token: Vec<u8>,
}

impl ChangeStreamEvent {
    /// The event that tells a subscriber its stream has ended: type
    /// `Invalidate`, time 0, a zero key, no document, empty namespace and
    /// resume token.
    pub fn invalidate() -> (e: Self)
        ensures
            e.op_type == OperationType::Invalidate,
            e.cluster_time == 0,
            e.document_key@ == Seq::new(16, |i: int| 0u8),
            e.full_document is None,
            e.namespace@.len() == 0,
            e.resume_token@.len() == 0,
    {
        let e = ChangeStreamEvent {
            op_type: OperationType::Invalidate,
            cluster_time: 0,
            document_key: [0u8; 16],
            full_document: None,
            namespace: String::new(),
            resume_token: Vec::new(),
        };
        assert(e.document_key@ =~= Seq::new(16, |i: int| 0u8));
        e
    }
}

} // verus!
