//! The input event source's handle. Polling the terminal for events is
//! input/output and lives with the caller; the handle itself carries no
//! state.

use vstd::prelude::*;

verus! {

/// Handle to the terminal event source.
#[derive(Debug, Clone, Copy)]
pub struct EventHandler;

impl EventHandler {
    /// A fresh handle.
    pub fn new() -> (r: EventHandler)
        ensures
            r == EventHandler,
    {
        EventHandler
    }
}

} // verus!
