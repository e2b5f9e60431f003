//! Relations between collections.

use vstd::prelude::*;

verus! {

/// Relation type between collections.
#[derive(Debug, Clone, Copy, PartialEq, Eq, Structural)]
pub enum RelationType {
    OneToOne,
    OneToMany,
    ManyToOne,
    ManyToMany,
}

/// Action taken on delete (or update) of a referenced document.
#[derive(Debug, Clone, Copy, PartialEq, Eq, Structural)]
pub enum OnDeleteAction {
    Restrict,
    Cascade,
    SetNull,
    NoAction,
}

/// A relation stored in metadata: `from_collection.from_field` refers to
/// `to_collection.to_field`.
#[derive(Debug, Clone)]
pub struct RelationDefinition {
    pub from_collection: String,
    pub from_field: String,
    pub to_collection: String,
    pub to_field: String,
    pub relation_type: RelationType,
    pub on_delete: OnDeleteAction,
    pub on_update: OnDeleteAction,
    /// Whether to create an index on the from field.
    pub indexed: bool,
}

} // verus!
