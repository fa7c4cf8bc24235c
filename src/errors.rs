//! Errors of the navigation engine.
use vstd::prelude::*;

verus! {

/// What went wrong in an operation of the engine.
#[derive(Debug)]
pub enum NavigatorError {
    /// The solver failed.
    Solver,
    /// A value that was needed is absent.
    Missing,
    /// An input that the engine cannot take.
    InvalidInput(String),
}

} // verus!
