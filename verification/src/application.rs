//! What can go wrong in the program around the simulation.

use vstd::prelude::*;

verus! {

/// A failure of the window that shows the simulation.
#[derive(Clone, Copy, PartialEq, Eq, Debug, Structural)]
pub enum AppError {
    /// The window was used before it was made.
    WindowUninitialized,
}

impl AppError {
    /// The message of this error, for a person to read.
    pub fn message(&self) -> (text: String)
        ensures
            text@ == "Window not initialized while in use"@,
    {
        match self {
            AppError::WindowUninitialized => String::from_str(
                "Window not initialized while in use",
            ),
        }
    }
}

} // verus!
