//! The Page domain.
use vstd::prelude::*;
use crate::browser::json::{JsonValue, JsonView};
use super::empty_object;
use crate::error::BrowserResult;

verus! {

pub struct PageDomain;

impl PageDomain {
    pub fn enable() -> (r: BrowserResult<JsonValue>)
        ensures
            r matches Ok(v) && v@ == JsonView::Object(Seq::empty()),
    {
        empty_object()
    }

    pub fn disable() -> (r: BrowserResult<JsonValue>)
        ensures
            r matches Ok(v) && v@ == JsonView::Object(Seq::empty()),
    {
        empty_object()
    }

    /// `{"frameId": "main", "loaderId": "loader1"}`.
    pub fn navigate(url: &str) -> (r: BrowserResult<JsonValue>)
        ensures
            r matches Ok(v) && v@ == JsonView::Object(
                seq![("frameId"@, JsonView::Str("main"@)), ("loaderId"@, JsonView::Str("loader1"@))],
            ),
    {
        let mut m: Vec<(String, JsonValue)> = Vec::new();
        m.push(("frameId".to_owned(), JsonValue::Str("main".to_owned())));
        m.push(("loaderId".to_owned(), JsonValue::Str("loader1".to_owned())));
        proof {
            crate::browser::json::lemma_json_members(m@);
        }
        let v = JsonValue::Object(m);
        assert(crate::browser::json::json_members(m@) =~= seq![("frameId"@, JsonView::Str("main"@)), ("loaderId"@, JsonView::Str("loader1"@))]);
        assert(v@ == JsonView::Object(
            seq![("frameId"@, JsonView::Str("main"@)), ("loaderId"@, JsonView::Str("loader1"@))],
        ));
        Ok(v)
    }
}

} // verus!
