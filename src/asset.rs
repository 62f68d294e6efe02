//! Assets, amounts and the funds that instructions move.
use crate::fixed_point::{
    two_pow_128,    fx_div_spec, fx_from_int, fx_from_int_spec, fx_mul_spec, fx_saturating_div,
    fx_saturating_mul, fx_saturating_sub, fx_sub_spec, fx_to_int, fx_to_int_spec,
};
use vstd::prelude::*;

verus! {

/// Identifier of an asset in the protocol: unique for each asset, never
/// changed, and opaque (nothing may be inferred from how it was chosen).
#[derive(Clone, Copy, PartialEq, Eq, Structural, PartialOrd, Ord, Debug)]
pub struct AssetId(pub u128);

impl From<u128> for AssetId {
    fn from(asset: u128) -> (r: AssetId)
        ensures
            r.0 == asset,
    {
        AssetId(asset)
    }
}

impl vstd::std_specs::convert::FromSpecImpl<u128> for AssetId {
    open spec fn obeys_from_spec() -> bool {
        true
    }

    open spec fn from_spec(asset: u128) -> AssetId {
        AssetId(asset)
    }
}

/// The placeholder asset at the head of the asset list; it has no valid id.
pub struct InvalidAsset;

/// The PICA token.
pub struct PICA;

/// Ether.
pub struct ETH;

/// Tether's dollar.
pub struct USDT;

/// Circle's dollar.
pub struct USDC;

/// An asset known to the protocol. Its id is its place in the asset list
/// `InvalidAsset, PICA, ETH, USDT, USDC`, which only grows at its end.
pub trait Asset {
    /// The asset's place in the asset list.
    spec fn index() -> u128;

    /// The asset's id: its place in the asset list.
    fn id() -> (r: AssetId)
        ensures
            r.0 == Self::index(),
    ;
}

impl Asset for PICA {
    open spec fn index() -> u128 {
        1
    }

    fn id() -> (r: AssetId) {
        AssetId(1)
    }
}

impl Asset for ETH {
    open spec fn index() -> u128 {
        2
    }

    fn id() -> (r: AssetId) {
        AssetId(2)
    }
}

impl Asset for USDT {
    open spec fn index() -> u128 {
        3
    }

    fn id() -> (r: AssetId) {
        AssetId(3)
    }
}

impl Asset for USDC {
    open spec fn index() -> u128 {
        4
    }

    fn id() -> (r: AssetId) {
        AssetId(4)
    }
}

/// A value that the protocol shows as a decimal string.
#[derive(Clone, Copy, PartialEq, Eq, Structural, Debug)]
pub struct Displayed<T>(pub T);

/// The number of parts in a whole, for ratio amounts.
pub const MAX_PARTS: u128 = 1000000000000000000;

/// An amount of an asset as a linear function of the balance it is drawn from:
/// `intercept` units, plus `slope` parts (out of `MAX_PARTS`) of what the
/// balance holds beyond the intercept.
#[derive(Clone, Copy, PartialEq, Eq, Structural, Debug)]
pub struct Amount {
    pub intercept: Displayed<u128>,
    pub slope: Displayed<u128>,
}

/// The amount drawn from a balance of `value`: an absolute amount is its
/// intercept; otherwise the slope's share of `value - intercept` in 16-bit
/// fixed point, plus the intercept, all saturating. Never more than `value`.
pub open spec fn apply_spec(a: Amount, value: u128) -> u128 {
    let amount: int = if a.slope.0 == 0 {
        a.intercept.0 as int
    } else {
        let share = fx_div_spec(
            fx_from_int_spec(a.slope.0 as int),
            fx_from_int_spec(MAX_PARTS as int),
        );
        let part = fx_to_int_spec(
            fx_mul_spec(
                fx_sub_spec(fx_from_int_spec(value as int), fx_from_int_spec(a.intercept.0 as int)),
                share,
            ),
        );
        if part + a.intercept.0 > u128::MAX { u128::MAX as int } else { part + a.intercept.0 }
    };
    if (value as int) < amount { value } else { amount as u128 }
}

impl Amount {
    /// An absolute amount.
    pub fn absolute(value: u128) -> (r: Amount)
        ensures
            r.intercept.0 == value,
            r.slope.0 == 0,
    {
        Amount { intercept: Displayed(value), slope: Displayed(0) }
    }

    /// A ratio amount, in parts of `MAX_PARTS`.
    pub fn ratio(parts: u128) -> (r: Amount)
        ensures
            r.intercept.0 == 0,
            r.slope.0 == parts,
    {
        Amount { intercept: Displayed(0), slope: Displayed(parts) }
    }

    /// The zero amount.
    pub fn zero() -> (r: Amount)
        ensures
            r.intercept.0 == 0,
            r.slope.0 == 0,
    {
        Amount { intercept: Displayed(0), slope: Displayed(0) }
    }

    /// Whether this is the zero amount.
    pub fn is_zero(&self) -> (r: bool)
        ensures
            r == (self.intercept.0 == 0 && self.slope.0 == 0),
    {
        self.intercept.0 == 0 && self.slope.0 == 0
    }

    /// The sum of two amounts, term by term, saturating.
    pub fn saturating_add(self, other: Amount) -> (r: Amount)
        ensures
            r.intercept.0 == sat_add_spec(self.intercept.0, other.intercept.0),
            r.slope.0 == sat_add_spec(self.slope.0, other.slope.0),
    {
        Amount {
            intercept: Displayed(self.intercept.0.saturating_add(other.intercept.0)),
            slope: Displayed(self.slope.0.saturating_add(other.slope.0)),
        }
    }

    /// The amount drawn from a balance of `value`.
    pub fn apply(&self, value: u128) -> (r: u128)
        ensures
            r == apply_spec(*self, value),
            r <= value,
            self.slope.0 == 0 ==> r == if value < self.intercept.0 {
                value
            } else {
                self.intercept.0
            },
    {
        let amount: u128 = if self.slope.0 == 0 {
            self.intercept.0
        } else {
            let parts = fx_from_int(MAX_PARTS);
            assert(parts == MAX_PARTS * 65536) by {
                assert(MAX_PARTS * 65536 < two_pow_128());
                vstd::arithmetic::div_mod::lemma_small_mod(
                    (MAX_PARTS * 65536) as nat,
                    two_pow_128() as nat,
                );
            }
            let share = fx_saturating_div(fx_from_int(self.slope.0), parts);
            let rest = fx_saturating_sub(fx_from_int(value), fx_from_int(self.intercept.0));
            fx_to_int(fx_saturating_mul(rest, share)).saturating_add(self.intercept.0)
        };
        if value < amount {
            value
        } else {
            amount
        }
    }
}

impl core::ops::Add for Amount {
    type Output = Amount;

    fn add(self, other: Amount) -> Amount {
        self.saturating_add(other)
    }
}

impl vstd::std_specs::ops::AddSpecImpl for Amount {
    open spec fn obeys_add_spec() -> bool {
        true
    }

    open spec fn add_req(self, other: Amount) -> bool {
        true
    }

    open spec fn add_spec(self, other: Amount) -> Amount {
        Amount {
            intercept: Displayed(sat_add_spec(self.intercept.0, other.intercept.0)),
            slope: Displayed(sat_add_spec(self.slope.0, other.slope.0)),
        }
    }
}

/// Addition of two `u128`s, saturating at the maximum.
pub open spec fn sat_add_spec(a: u128, b: u128) -> u128 {
    if a + b > u128::MAX { u128::MAX } else { (a + b) as u128 }
}

impl From<u128> for Amount {
    fn from(x: u128) -> (r: Amount)
        ensures
            r == Amount::absolute_spec(x),
    {
        Amount::absolute(x)
    }
}

impl vstd::std_specs::convert::FromSpecImpl<u128> for Amount {
    open spec fn obeys_from_spec() -> bool {
        true
    }

    open spec fn from_spec(x: u128) -> Amount {
        Amount::absolute_spec(x)
    }
}

impl Amount {
    /// The absolute amount of `value` units.
    pub open spec fn absolute_spec(value: u128) -> Amount {
        Amount { intercept: Displayed(value), slope: Displayed(0) }
    }
}

} // verus!
