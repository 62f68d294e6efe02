//! What the interpreter asks of the chain it runs on.
use crate::asset::AssetId;
use crate::state::SubCallOutcome;
use vstd::prelude::*;

verus! {

/// The chain's services, as the interpreter sees them. Answers depend on the
/// chain's current state, so nothing is assumed of them: the interpreter's
/// contracts hold whatever they are.
pub trait Host {
    /// The token contract that the asset registry at `registry` lists for
    /// `asset`; `None` where the query fails.
    fn asset_contract(&self, registry: &Vec<u8>, asset: AssetId) -> Option<Vec<u8>>;

    /// The balance of `account` in the token contract `token`; `None` where
    /// the query fails.
    fn balance(&self, token: &Vec<u8>, account: &Vec<u8>) -> Option<u128>;

    /// The JSON encoding of the result register's content; `None` where it
    /// cannot be encoded.
    fn encode_result(&self, result: &Result<SubCallOutcome, String>) -> Option<Vec<u8>>;
}

} // verus!
