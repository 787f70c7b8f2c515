//! What a URL hook script decided.
use vstd::prelude::*;

verus! {

/// The verdict of the hook scripts on a URL.
#[derive(Debug)]
pub enum HookVerdict {
    Allow,
    Block { reason: String },
    Rewrite(String),
}

impl HookVerdict {
    /// Whether the next hook script still runs: only while every script so
    /// far allowed the URL, so the first block or rewrite wins.
    pub fn lets_next_run(&self) -> (r: bool)
        ensures
            r == (*self is Allow),
    {
        match self {
            HookVerdict::Allow => true,
            _ => false,
        }
    }
}

} // verus!
