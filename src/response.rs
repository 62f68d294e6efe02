//! What the interpreter hands back to the chain: messages to dispatch and
//! events to emit.
use crate::program::{Program, Spawn};
use crate::state::RawEvent;
use vstd::prelude::*;

verus! {

/// Reply id of a dispatched `Call` instruction.
pub const CALL_ID: u64 = 1;

/// Reply id of the interpreter's own continuation.
pub const SELF_CALL_ID: u64 = 2;

/// When the chain reports a sub-message's outcome back to the interpreter.
#[derive(Clone, Copy, PartialEq, Eq, Structural, Debug)]
pub enum ReplyOn {
    Never,
    Success,
    Error,
}

/// A message for the chain to dispatch.
#[derive(Debug, PartialEq, Eq)]
pub enum CosmosMsg {
    /// The patched payload of a `Call` instruction: a JSON-encoded chain
    /// message.
    Call { payload: Vec<u8> },
    /// Runs the interpreter at `contract` on a program in its encoded form.
    SelfExecute { contract: Vec<u8>, program: Vec<u8> },
    /// Runs the interpreter at `contract` on the instructions that remain.
    Continue { contract: Vec<u8>, program: Program },
    /// Moves `amount` of the token `token` from the interpreter to
    /// `recipient`.
    Transfer { token: Vec<u8>, recipient: Vec<u8>, amount: u128 },
    /// Burns `amount` of the interpreter's `token`.
    Burn { token: Vec<u8>, amount: u128 },
}

/// A message together with its reply policy.
#[derive(Debug, PartialEq, Eq)]
pub struct SubMsg {
    pub id: u64,
    pub msg: CosmosMsg,
    pub reply_on: ReplyOn,
}

/// An event of the interpreter.
#[derive(Debug, PartialEq, Eq)]
pub enum Event {
    /// The interpreter was instantiated.
    Instantiated { network_id: u32, user_id: Vec<u8> },
    /// Owners were added.
    AddOwners { owners: Vec<Vec<u8>> },
    /// Owners were removed.
    RemoveOwners { owners: Vec<Vec<u8>> },
    /// A program is to be run on another network, with the assets set aside
    /// for it.
    Spawn { origin_network_id: u32, origin_user_id: Vec<u8>, spawn: Spawn },
    /// A program ran to its end; `tag` is its UTF-8 tag.
    Executed { tag: Vec<u8> },
    /// An event of a dispatched call, passed on.
    Forwarded(RawEvent),
}

/// Messages and events, in the order in which they were added.
#[derive(Debug, PartialEq, Eq)]
pub struct Response {
    pub messages: Vec<SubMsg>,
    pub events: Vec<Event>,
}

impl Response {
    /// A response with nothing in it.
    pub fn new() -> (r: Response)
        ensures
            r.messages@.len() == 0,
            r.events@.len() == 0,
    {
        Response { messages: Vec::new(), events: Vec::new() }
    }
}

/// The token, recipient and amount of a plain transfer message.
pub open spec fn transfer_of(m: SubMsg) -> Option<(Seq<u8>, Seq<u8>, u128)> {
    if m.id == 0 && m.reply_on == ReplyOn::Never {
        match m.msg {
            CosmosMsg::Transfer { token, recipient, amount } => Some((token@, recipient@, amount)),
            _ => None,
        }
    } else {
        None
    }
}

/// The token and amount of a plain burn message.
pub open spec fn burn_of(m: SubMsg) -> Option<(Seq<u8>, u128)> {
    if m.id == 0 && m.reply_on == ReplyOn::Never {
        match m.msg {
            CosmosMsg::Burn { token, amount } => Some((token@, amount)),
            _ => None,
        }
    } else {
        None
    }
}

/// The payload of a call message sent to report success only.
pub open spec fn call_of(m: SubMsg) -> Option<Seq<u8>> {
    if m.id == CALL_ID && m.reply_on == ReplyOn::Success {
        match m.msg {
            CosmosMsg::Call { payload } => Some(payload@),
            _ => None,
        }
    } else {
        None
    }
}

} // verus!
