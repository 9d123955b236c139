//! What the user asks of the interpreter.

use vstd::prelude::*;

verus! {

/// The choices that a user makes when starting the interpreter.
#[derive(Debug, PartialEq, Eq)]
pub struct Args {
    /// Use a virtually infinite memory band; comes at a performance loss.
    pub infinite_memory: bool,
    /// Enter the interactive environment.
    pub interactive: bool,
    /// Path to the source code file.
    pub input_path: String,
}

} // verus!
