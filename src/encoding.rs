//! Byte encodings that the interpreter produces or checks.
use vstd::prelude::*;

verus! {

/// The ASCII decimal digits of `n`, without leading zeros.
pub open spec fn decimal(n: nat) -> Seq<u8>
    decreases n,
{
    if n < 10 {
        seq![(48 + n) as u8]
    } else {
        decimal(n / 10).push((48 + n % 10) as u8)
    }
}

/// The ASCII decimal digits of `n`.
pub fn decimal_bytes(n: u64) -> (r: Vec<u8>)
    ensures
        r@ == decimal(n as nat),
    decreases n,
{
    if n < 10 {
        let mut v: Vec<u8> = Vec::new();
        v.push(48 + n as u8);
        v
    } else {
        let mut v = decimal_bytes(n / 10);
        v.push(48 + (n % 10) as u8);
        v
    }
}

/// Whether the bytes are well-formed UTF-8.
pub uninterp spec fn is_utf8(bytes: Seq<u8>) -> bool;

/// Every byte is ASCII.
pub open spec fn is_ascii(bytes: Seq<u8>) -> bool {
    forall|i: int| 0 <= i < bytes.len() ==> bytes[i] < 128
}

/// The bytes are known to be UTF-8: they are ASCII, or well-formed UTF-8
/// otherwise.
pub open spec fn utf8_text(bytes: Seq<u8>) -> bool {
    is_ascii(bytes) || is_utf8(bytes)
}

/// Relies on `std::str::from_utf8`: it succeeds exactly on well-formed UTF-8,
/// of which ASCII (every byte below 128, the empty string included) is part.
#[verifier::external_body]
pub(crate) fn check_utf8(bytes: &Vec<u8>) -> (r: bool)
    ensures
        r == is_utf8(bytes@),
        is_ascii(bytes@) ==> r,
{
    std::str::from_utf8(bytes.as_slice()).is_ok()
}

} // verus!
