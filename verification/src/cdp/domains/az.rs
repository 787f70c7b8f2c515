//! The engine's own domain.
use vstd::prelude::*;
use crate::browser::json::{JsonValue, JsonView};
use crate::error::BrowserResult;
use super::empty_object;

verus! {

pub struct AzDomain;

impl AzDomain {
    pub fn enable() -> (r: BrowserResult<JsonValue>)
        ensures
            r matches Ok(v) && v@ == JsonView::Object(Seq::empty()),
    {
        empty_object()
    }

    /// `{"state": "ready", "version": "0.1.0"}`.
    pub fn get_state() -> (r: BrowserResult<JsonValue>)
        ensures
            r matches Ok(v) && v@ == JsonView::Object(
                seq![("state"@, JsonView::Str("ready"@)), ("version"@, JsonView::Str("0.1.0"@))],
            ),
    {
        let mut m: Vec<(String, JsonValue)> = Vec::new();
        m.push(("state".to_owned(), JsonValue::Str("ready".to_owned())));
        m.push(("version".to_owned(), JsonValue::Str("0.1.0".to_owned())));
        proof {
            crate::browser::json::lemma_json_members(m@);
        }
        let v = JsonValue::Object(m);
        assert(crate::browser::json::json_members(m@) =~= seq![("state"@, JsonView::Str("ready"@)), ("version"@, JsonView::Str("0.1.0"@))]);
        assert(v@ =~= JsonView::Object(
            seq![("state"@, JsonView::Str("ready"@)), ("version"@, JsonView::Str("0.1.0"@))],
        ));
        Ok(v)
    }
}

} // verus!
