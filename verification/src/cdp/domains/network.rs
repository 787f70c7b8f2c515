//! The Network domain: accepted, with nothing to report.
use vstd::prelude::*;
use crate::browser::json::{JsonValue, JsonView};
use crate::error::BrowserResult;
use super::empty_object;

verus! {

pub struct NetworkDomain;

impl NetworkDomain {
    pub fn enable() -> (r: BrowserResult<JsonValue>)
        ensures
            r matches Ok(v) && v@ == JsonView::Object(Seq::empty()),
    {
        empty_object()
    }

    pub fn disable() -> (r: BrowserResult<JsonValue>)
        ensures
            r matches Ok(v) && v@ == JsonView::Object(Seq::empty()),
    {
        empty_object()
    }

    pub fn set_user_agent(user_agent: &str) -> (r: BrowserResult<JsonValue>)
        ensures
            r matches Ok(v) && v@ == JsonView::Object(Seq::empty()),
    {
        empty_object()
    }
}

} // verus!
