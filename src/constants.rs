//! Currency units and the storage deposit formula.
use vstd::prelude::*;

verus! {

/// One unit of the settlement currency, in its smallest parts.
pub const DOLLARS: u128 = 1_000_000_000_000_000_000;

/// A hundredth of a unit.
pub const CENTS: u128 = 10_000_000_000_000_000;

/// A thousandth of a cent.
pub const MILLICENTS: u128 = 10_000_000_000_000;

pub open spec fn deposit_of(items: int, bytes: int) -> int {
    items * 15 * CENTS as int + bytes * 6 * CENTS as int
}

/// The deposit asked for storing `items` entries of `bytes` bytes in all:
/// fifteen cents an item and six cents a byte.
pub fn deposit(items: u32, bytes: u32) -> (r: u128)
    ensures
        r as int == deposit_of(items as int, bytes as int),
{
    assert(items as int * 15 * CENTS as int <= 0xffff_ffff * 15 * 10_000_000_000_000_000)
        by (nonlinear_arith)
        requires items <= 0xffff_ffff;
    assert(bytes as int * 6 * CENTS as int <= 0xffff_ffff * 6 * 10_000_000_000_000_000)
        by (nonlinear_arith)
        requires bytes <= 0xffff_ffff;
    items as u128 * 15 * CENTS + (bytes as u128) * 6 * CENTS
}

} // verus!
