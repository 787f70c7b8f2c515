//! Messages between the engine and an embedding front end.
use vstd::prelude::*;

pub mod commands;
pub mod events;

verus! {

/// What a front end asks the engine to do.
#[derive(Debug)]
pub enum BridgeCommand {
    Navigate { url: String },
    ExecuteScript { script: String },
    GetDocument,
    GoBack,
    GoForward,
    Reload,
}

/// What the engine tells a front end.
#[derive(Debug)]
pub enum BridgeEvent {
    Navigated { url: String, success: bool },
    ScriptResult { result: String, error: Option<String> },
    DocumentContent { content: String },
    TitleChanged { title: String },
    LoadStart { url: String },
    LoadComplete { url: String },
}

pub struct EngineBridge;

impl EngineBridge {
    pub fn new() -> (r: Self) {
        EngineBridge
    }
}

} // verus!
