//! Trigger events and definitions: before/after write hooks.

use vstd::prelude::*;

use crate::codec::{concat_str, str_eq};
use crate::error::{OvnError, OvnResult};

verus! {

/// Trigger event types.
#[derive(Debug, Clone, Copy, PartialEq, Eq, Hash, Structural)]
pub enum TriggerEvent {
    BeforeInsert,
    BeforeUpdate,
    BeforeDelete,
    AfterInsert,
    AfterUpdate,
    AfterDelete,
}

impl TriggerEvent {
    /// The event's name: `beforeInsert`, `beforeUpdate`, `beforeDelete`,
    /// `afterInsert`, `afterUpdate` or `afterDelete`.
    pub open spec fn spec_name(self) -> Seq<char> {
        match self {
            TriggerEvent::BeforeInsert => "beforeInsert"@,
            TriggerEvent::BeforeUpdate => "beforeUpdate"@,
            TriggerEvent::BeforeDelete => "beforeDelete"@,
            TriggerEvent::AfterInsert => "afterInsert"@,
            TriggerEvent::AfterUpdate => "afterUpdate"@,
            TriggerEvent::AfterDelete => "afterDelete"@,
        }
    }

    /// Whether the trigger runs before the write (synchronously).
    pub open spec fn spec_is_before(self) -> bool {
        self is BeforeInsert || self is BeforeUpdate || self is BeforeDelete
    }

    /// The event's name as text.
    pub fn to_display_string(&self) -> (s: String)
        ensures
            s@ == self.spec_name(),
    {
        match self {
            TriggerEvent::BeforeInsert => "beforeInsert".to_string(),
            TriggerEvent::BeforeUpdate => "beforeUpdate".to_string(),
            TriggerEvent::BeforeDelete => "beforeDelete".to_string(),
            TriggerEvent::AfterInsert => "afterInsert".to_string(),
            TriggerEvent::AfterUpdate => "afterUpdate".to_string(),
            TriggerEvent::AfterDelete => "afterDelete".to_string(),
        }
    }

    /// The event named `s`; any other text is an error that names it.
    pub fn parse_event(s: &str) -> (r: Result<TriggerEvent, String>)
        ensures
            r matches Ok(e) ==> e.spec_name() == s@,
            (exists|e: TriggerEvent| e.spec_name() == s@) ==> r is Ok,
            r matches Err(msg) ==> msg@ == "Unknown trigger event: "@ + s@,
    {
        proof {
            reveal_strlit("beforeInsert");
            reveal_strlit("beforeUpdate");
            reveal_strlit("beforeDelete");
            reveal_strlit("afterInsert");
            reveal_strlit("afterUpdate");
            reveal_strlit("afterDelete");
        }
        if str_eq(s, "beforeInsert") {
            Ok(TriggerEvent::BeforeInsert)
        } else if str_eq(s, "beforeUpdate") {
            Ok(TriggerEvent::BeforeUpdate)
        } else if str_eq(s, "beforeDelete") {
            Ok(TriggerEvent::BeforeDelete)
        } else if str_eq(s, "afterInsert") {
            Ok(TriggerEvent::AfterInsert)
        } else if str_eq(s, "afterUpdate") {
            Ok(TriggerEvent::AfterUpdate)
        } else if str_eq(s, "afterDelete") {
            Ok(TriggerEvent::AfterDelete)
        } else {
            proof {
                assert forall|e: TriggerEvent| e.spec_name() != s@ by {
                    match e {
                        TriggerEvent::BeforeInsert => {},
                        TriggerEvent::BeforeUpdate => {},
                        TriggerEvent::BeforeDelete => {},
                        TriggerEvent::AfterInsert => {},
                        TriggerEvent::AfterUpdate => {},
                        TriggerEvent::AfterDelete => {},
                    }
                }
            }
            Err(concat_str("Unknown trigger event: ".to_string(), s))
        }
    }
}

/// Trigger definition.
#[derive(Debug, Clone)]
pub struct TriggerDefinition {
    /// Collection name.
    pub collection: String,
    /// Event type.
    pub event: TriggerEvent,
    /// Trigger name: `<collection>_<event>`.
    pub name: String,
    /// Timeout in milliseconds: 500 for before triggers, 5000 for after.
    pub timeout_ms: u64,
}

impl TriggerDefinition {
    /// The definition registered for `event` on `collection`: named
    /// `<collection>_<event>`, with a 500 ms timeout for before triggers and
    /// 5000 ms for after triggers. An unknown event is a `ValidationError`.
    pub fn for_event(collection: &str, event: &str) -> (r: OvnResult<TriggerDefinition>)
        ensures
            (exists|e: TriggerEvent| e.spec_name() == event@) <==> r is Ok,
            r matches Ok(t) ==> {
                &&& t.collection@ == collection@
                &&& t.event.spec_name() == event@
                &&& t.name@ == collection@ + "_"@ + event@
                &&& t.timeout_ms == if t.event.spec_is_before() { 500u64 } else { 5000u64 }
            },
            r matches Err(e) ==> e is ValidationError,
    {
        match TriggerEvent::parse_event(event) {
            Ok(e) => {
                let name = concat_str(collection.to_string(), "_");
                let name = concat_str(name, event);
                let timeout_ms: u64 = match e {
                    TriggerEvent::BeforeInsert | TriggerEvent::BeforeUpdate | TriggerEvent::BeforeDelete => 500,
                    _ => 5000,
                };
                Ok(TriggerDefinition { collection: collection.to_string(), event: e, name, timeout_ms })
            },
            Err(msg) => Err(OvnError::ValidationError(msg)),
        }
    }
}

} // verus!
