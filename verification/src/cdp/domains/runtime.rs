//! The Runtime domain.
use vstd::prelude::*;
use crate::browser::json::{JsonValue, JsonView};
use super::empty_object;
use crate::error::BrowserResult;

verus! {

pub struct RuntimeDomain;

impl RuntimeDomain {
    pub fn enable() -> (r: BrowserResult<JsonValue>)
        ensures
            r matches Ok(v) && v@ == JsonView::Object(Seq::empty()),
    {
        empty_object()
    }

    pub fn disable() -> (r: BrowserResult<JsonValue>)
        ensures
            r matches Ok(v) && v@ == JsonView::Object(Seq::empty()),
    {
        empty_object()
    }

    /// `{"result": {"type": "string", "value": "evaluation result"}}`.
    pub fn evaluate(expression: &str) -> (r: BrowserResult<JsonValue>)
        ensures
            r matches Ok(v) && v@ == JsonView::Object(
                seq![
                    (
                        "result"@,
                        JsonView::Object(
                            seq![("type"@, JsonView::Str("string"@)), ("value"@, JsonView::Str("evaluation result"@))],
                        ),
                    ),
                ],
            ),
    {
        let mut inner: Vec<(String, JsonValue)> = Vec::new();
        inner.push(("type".to_owned(), JsonValue::Str("string".to_owned())));
        inner.push(("value".to_owned(), JsonValue::Str("evaluation result".to_owned())));
        proof {
            crate::browser::json::lemma_json_members(inner@);
        }
        let iv = JsonValue::Object(inner);
        assert(crate::browser::json::json_members(inner@) =~= seq![("type"@, JsonView::Str("string"@)), ("value"@, JsonView::Str("evaluation result"@))]);
        assert(iv@ == JsonView::Object(
            seq![("type"@, JsonView::Str("string"@)), ("value"@, JsonView::Str("evaluation result"@))],
        ));
        let mut m: Vec<(String, JsonValue)> = Vec::new();
        m.push(("result".to_owned(), iv));
        proof {
            crate::browser::json::lemma_json_members(m@);
        }
        let v = JsonValue::Object(m);
        assert(crate::browser::json::json_members(m@) =~= seq![("result"@, iv@)]);
        assert(v@ == JsonView::Object(
            seq![
                (
                    "result"@,
                    JsonView::Object(
                        seq![("type"@, JsonView::Str("string"@)), ("value"@, JsonView::Str("evaluation result"@))],
                    ),
                ),
            ],
        ));
        Ok(v)
    }
}

} // verus!
