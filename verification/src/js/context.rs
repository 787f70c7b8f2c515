//! A script context shared between executors.
use vstd::prelude::*;
use std::sync::Arc;
use crate::error::BrowserResult;
use crate::js::runtime::JsContext;

verus! {

pub struct ScriptContext {
    js_context: Arc<JsContext>,
}

impl ScriptContext {
    pub fn new(js_context: Arc<JsContext>) -> (r: Self) {
        ScriptContext { js_context }
    }

    /// Runs `script` in the shared context.
    pub fn execute(&self, script: &str) -> (r: BrowserResult<String>)
        ensures
            r matches Ok(s) && s@ == Seq::<char>::empty(),
    {
        self.js_context.execute_script(script)
    }
}

} // verus!
