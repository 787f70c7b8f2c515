//! One module per protocol domain.
use vstd::prelude::*;
use crate::browser::json::{JsonValue, JsonView};
use crate::error::BrowserResult;

pub mod az;
pub mod dom;
pub mod network;
pub mod page;
pub mod runtime;

verus! {

/// The empty answer `{}` that most commands give.
pub(crate) fn empty_object() -> (r: BrowserResult<JsonValue>)
    ensures
        r matches Ok(v) && v@ == JsonView::Object(Seq::empty()),
{
    let v = JsonValue::Object(Vec::new());
    assert(v@ =~= JsonView::Object(Seq::empty()));
    Ok(v)
}

} // verus!
