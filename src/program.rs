//! Programs and their instructions.
use crate::asset::{Amount, AssetId};
use vstd::prelude::*;

verus! {

/// Assets with their amounts, in the order in which instructions handle them.
#[derive(Clone, Debug, PartialEq, Eq)]
pub struct Funds(pub Vec<(AssetId, Amount)>);

impl Funds {
    /// The asset ids ascend strictly, so that each asset is listed once.
    pub open spec fn wf(&self) -> bool {
        forall|i: int, j: int|
            0 <= i < j < self.0@.len() ==> (#[trigger] self.0@[i]).0.0 < (#[trigger] self.0@[j]).0.0
    }

    /// No assets.
    pub fn empty() -> (r: Funds)
        ensures
            r.0@.len() == 0,
            r.wf(),
    {
        Funds(Vec::new())
    }

    /// Sets the amount of `asset`, in place of any amount it had.
    pub fn insert(&mut self, asset: AssetId, amount: Amount)
        requires
            old(self).wf(),
        ensures
            final(self).wf(),
            final(self).0@.contains((asset, amount)),
            forall|e: (AssetId, Amount)|
                old(self).0@.contains(e) && e.0 != asset ==> final(self).0@.contains(e),
            forall|e: (AssetId, Amount)|
                final(self).0@.contains(e) ==> e == (asset, amount) || old(self).0@.contains(e),
    {
        let n = self.0.len();
        let mut i: usize = 0;
        while i < n && self.0[i].0.0 < asset.0
            invariant
                n == self.0@.len(),
                i <= n,
                self.wf(),
                self == old(self),
                forall|k: int| 0 <= k < i ==> (#[trigger] self.0@[k]).0.0 < asset.0,
            decreases n - i,
        {
            i += 1;
        }
        let ghost before = self.0@;
        if i < n && self.0[i].0.0 == asset.0 {
            self.0.remove(i);
            assert(self.0@ == before.remove(i as int));
        }
        let ghost middle = self.0@;
        self.0.insert(i, (asset, amount));
        proof {
            let s = self.0@;
            assert(s == middle.insert(i as int, (asset, amount)));
            assert(s[i as int] == (asset, amount));
            assert forall|a: int, b: int| 0 <= a < b < s.len() implies (#[trigger] s[a]).0.0 < (
            #[trigger] s[b]).0.0 by {
                if a < i && b > i {
                    assert(s[a] == before[a]);
                }
            }
            assert forall|e: (AssetId, Amount)| before.contains(e) && e.0 != asset implies s.contains(
                e,
            ) by {
                let k = choose|k: int| 0 <= k < before.len() && before[k] == e;
                if k < i {
                    assert(s[k] == e);
                } else if middle.len() == before.len() {
                    assert(s[k + 1] == e);
                } else {
                    assert(k != i);
                    assert(s[k] == e);
                }
            }
            assert forall|e: (AssetId, Amount)| s.contains(e) implies e == (asset, amount)
                || before.contains(e) by {
                let k = choose|k: int| 0 <= k < s.len() && s[k] == e;
                if k < i {
                    assert(before[k] == e);
                } else if k > i {
                    if middle.len() == before.len() {
                        assert(before[k - 1] == e);
                    } else {
                        assert(before[k] == e);
                    }
                }
            }
        }
    }
}

/// What a binding puts into a payload.
#[derive(Clone, Debug, PartialEq, Eq)]
pub enum BindingValue {
    /// The relayer's address.
    Relayer,
    /// The interpreter's own address.
    This,
    /// The token contract that the asset registry lists for an asset.
    AssetId(AssetId),
    /// The encoded content of the result register.
    Result,
    /// The instruction pointer, in decimal.
    Ip,
}

/// A value to be put into a call payload: it takes the place of the payload
/// byte at `position`.
#[derive(Clone, Debug, PartialEq, Eq)]
pub struct Binding {
    pub position: usize,
    pub value: BindingValue,
}

/// Where a transfer sends its assets.
#[derive(Clone, Debug, PartialEq, Eq)]
pub enum Destination {
    /// An account, by its address bytes.
    Account(Vec<u8>),
    /// The relayer.
    Relayer,
}

/// A request to run a program on another network.
#[derive(Debug, PartialEq, Eq)]
pub struct Spawn {
    pub network: u32,
    pub salt: Vec<u8>,
    pub security: i32,
    pub assets: Funds,
    pub program: Program,
}

/// One step of a program.
#[derive(Debug, PartialEq, Eq)]
pub enum Instruction {
    /// Dispatches `payload`, a JSON-encoded chain message, after the bindings
    /// have been put into it.
    Call { payload: Vec<u8>, bindings: Vec<Binding> },
    /// Sends a program with assets to another network.
    Spawn(Spawn),
    /// Transfers assets from the interpreter.
    Transfer { to: Destination, assets: Funds },
}

/// A tagged list of instructions, the unit that is submitted.
#[derive(Debug, PartialEq, Eq)]
pub struct Program {
    pub tag: Vec<u8>,
    pub instructions: Vec<Instruction>,
}

/// Whether an instruction is a `Call`.
pub open spec fn is_call(instruction: Instruction) -> bool {
    instruction is Call
}

/// The positions of a list of bindings.
pub open spec fn binding_positions(bindings: Seq<Binding>) -> Seq<usize> {
    bindings.map_values(|b: Binding| b.position)
}

} // verus!
