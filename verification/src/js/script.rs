//! Runs scripts in a context.
use vstd::prelude::*;
use crate::error::BrowserResult;
use crate::js::context::ScriptContext;

verus! {

pub struct ScriptExecutor {
    context: ScriptContext,
}

impl ScriptExecutor {
    pub fn new(context: ScriptContext) -> (r: Self) {
        ScriptExecutor { context }
    }

    pub fn execute(&self, script: &str) -> (r: BrowserResult<String>)
        ensures
            r matches Ok(s) && s@ == Seq::<char>::empty(),
    {
        self.context.execute(script)
    }
}

} // verus!
