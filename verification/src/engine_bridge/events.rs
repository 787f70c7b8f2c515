//! Event messages and their bridge form.
use vstd::prelude::*;
use crate::engine_bridge::BridgeEvent;

verus! {

#[derive(Debug)]
pub struct NavigatedEvent {
    pub url: String,
    pub success: bool,
}

#[derive(Debug)]
pub struct ScriptResultEvent {
    pub result: String,
    pub error: Option<String>,
}

#[derive(Debug)]
pub struct DocumentContentEvent {
    pub content: String,
}

impl From<NavigatedEvent> for BridgeEvent {
    fn from(e: NavigatedEvent) -> (r: Self) {
        BridgeEvent::Navigated { url: e.url, success: e.success }
    }
}

impl vstd::std_specs::convert::FromSpecImpl<NavigatedEvent> for BridgeEvent {
    open spec fn obeys_from_spec() -> bool {
        true
    }

    open spec fn from_spec(e: NavigatedEvent) -> Self {
        BridgeEvent::Navigated { url: e.url, success: e.success }
    }
}

impl From<DocumentContentEvent> for BridgeEvent {
    fn from(e: DocumentContentEvent) -> (r: Self) {
        BridgeEvent::DocumentContent { content: e.content }
    }
}

impl vstd::std_specs::convert::FromSpecImpl<DocumentContentEvent> for BridgeEvent {
    open spec fn obeys_from_spec() -> bool {
        true
    }

    open spec fn from_spec(e: DocumentContentEvent) -> Self {
        BridgeEvent::DocumentContent { content: e.content }
    }
}

} // verus!
