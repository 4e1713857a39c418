use vstd::prelude::*;

verus! {

/// The smallest unit of the native currency.
pub const PLANCK: u128 = 1;

pub const MICROUNIT: u128 = 1_000_000;

pub const MILLIUNIT: u128 = 1_000_000_000;

pub const UNIT: u128 = 1_000_000_000_000;

/// The storage deposit for `items` storage items taking `bytes` bytes: twenty
/// units per item and a tenth of a unit per byte.
pub fn deposit(items: u32, bytes: u32) -> (r: u128)
    ensures
        r == items * 20 * UNIT + bytes * 100 * MILLIUNIT,
{
    assert(items * 20 * UNIT <= 0xffff_ffff * 20 * UNIT) by (nonlinear_arith)
        requires
            items <= 0xffff_ffff,
    ;
    assert(bytes * 100 * MILLIUNIT <= 0xffff_ffff * 100 * MILLIUNIT) by (nonlinear_arith)
        requires
            bytes <= 0xffff_ffff,
    ;
    items as u128 * 20 * UNIT + (bytes as u128) * 100 * MILLIUNIT
}

} // verus!
