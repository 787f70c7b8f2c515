//! Command messages and their bridge form.
use vstd::prelude::*;
use crate::engine_bridge::BridgeCommand;

verus! {

#[derive(Debug)]
pub struct NavigateCommand {
    pub url: String,
}

#[derive(Debug)]
pub struct ExecuteScriptCommand {
    pub script: String,
}

#[derive(Debug)]
pub struct GetDocumentCommand;

impl From<NavigateCommand> for BridgeCommand {
    fn from(cmd: NavigateCommand) -> (r: Self) {
        BridgeCommand::Navigate { url: cmd.url }
    }
}

impl vstd::std_specs::convert::FromSpecImpl<NavigateCommand> for BridgeCommand {
    open spec fn obeys_from_spec() -> bool {
        true
    }

    open spec fn from_spec(cmd: NavigateCommand) -> Self {
        BridgeCommand::Navigate { url: cmd.url }
    }
}

impl From<ExecuteScriptCommand> for BridgeCommand {
    fn from(cmd: ExecuteScriptCommand) -> (r: Self) {
        BridgeCommand::ExecuteScript { script: cmd.script }
    }
}

impl vstd::std_specs::convert::FromSpecImpl<ExecuteScriptCommand> for BridgeCommand {
    open spec fn obeys_from_spec() -> bool {
        true
    }

    open spec fn from_spec(cmd: ExecuteScriptCommand) -> Self {
        BridgeCommand::ExecuteScript { script: cmd.script }
    }
}

} // verus!
