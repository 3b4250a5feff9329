//! Why a trace fails.

use vstd::prelude::*;

verus! {

/// Why a trace fails: the trace itself cannot go on, or the engine rejected a
/// program.
#[derive(Clone, Debug, PartialEq, Eq)]
pub enum Error {
    /// The trace cannot go on, with the reason.
    BackendError(String),
    /// The engine failed to parse or to run a program, with its message.
    EngineError(String),
}

/// What an [`Error`] says.
pub enum Failure {
    Backend(Seq<char>),
    Engine(Seq<char>),
}

impl DeepView for Error {
    type V = Failure;

    open spec fn deep_view(&self) -> Failure {
        match self {
            Error::BackendError(message) => Failure::Backend(message@),
            Error::EngineError(message) => Failure::Engine(message@),
        }
    }
}

} // verus!
