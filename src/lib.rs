//! An interpreter for cross-chain programs: ordered lists of `Call`, `Spawn`
//! and `Transfer` instructions, run one hop at a time with a persistent
//! instruction pointer and a register holding the last sub-call's outcome.
mod fixed_point;

pub mod asset;
pub mod contract;
pub mod encoding;
pub mod error;
pub mod host;
pub mod interpreter;
pub mod patch;
pub mod program;
pub mod response;
pub mod state;
