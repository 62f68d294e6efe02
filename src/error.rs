//! The errors of the interpreter.
use vstd::prelude::*;

verus! {

/// Why a submission, an instruction or a reply was rejected. Any of them
/// aborts the whole submission: nothing that it did is kept.
#[derive(Clone, PartialEq, Eq, Debug)]
pub enum ContractError {
    /// The submitted program is malformed.
    InvalidProgram,
    /// The caller may not submit this message.
    NotAuthorized,
    /// A binding is out of place, or its value cannot be resolved.
    InvalidBindings,
    /// A patched call payload is not a structured call.
    InvalidCallPayload,
    /// A structured call cannot become a chain message, or a value cannot be
    /// encoded.
    DataSerializationError,
    /// The program's tag is not UTF-8.
    InvalidProgramTag,
    /// A transfer's destination account is not UTF-8.
    InvalidAddress,
    /// A query to the asset registry or to a token contract failed.
    QueryFailed,
    /// A dispatched call failed although it was sent to report success only;
    /// the failure's message is kept.
    CallFailed(String),
    /// A continuation reported success although it was sent to report
    /// failure only.
    UnexpectedSuccess,
    /// A reply came with an id that the interpreter never used.
    UnknownReplyId(u64),
}

} // verus!
