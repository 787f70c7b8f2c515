//! Script runtime handles and the widgets page plugins may queue.
use vstd::prelude::*;
use crate::error::BrowserResult;

verus! {

/// A widget queued by a page plugin.
#[derive(Debug, Clone)]
pub enum UiWidget {
    Label { text: String },
    Button { text: String },
    Separator,
}

/// A runtime handle that runs nothing; pages run their scripts in the
/// page runtime.
pub struct JsRuntime;

impl JsRuntime {
    pub fn new() -> (r: Self) {
        JsRuntime
    }

    /// Gives an empty result for any script.
    pub fn execute(&self, script: &str) -> (r: BrowserResult<String>)
        ensures
            r matches Ok(s) && s@ == Seq::<char>::empty(),
    {
        Ok(String::new())
    }
}

/// A script context that runs nothing; pages run their scripts in the
/// page runtime.
pub struct JsContext;

impl JsContext {
    pub fn new() -> (r: BrowserResult<Self>)
        ensures
            r is Ok,
    {
        Ok(JsContext)
    }

    /// Gives an empty result for any script.
    pub fn execute_script(&self, script: &str) -> (r: BrowserResult<String>)
        ensures
            r matches Ok(s) && s@ == Seq::<char>::empty(),
    {
        Ok(String::new())
    }
}

} // verus!
