//! The integer hash behind the lattice noise that scatters creation
//! particles: a grid cell and a salt are mixed into a 32-bit value, which the
//! renderer scales to `0.0..=1.0`.

use vstd::prelude::*;

verus! {

/// Product of two words modulo 2^32.
pub open spec fn product_32(x: u32, y: u32) -> u32 {
    vstd::wrapping::u32_specs::wrapping_mul(x, y)
}

/// Sum of two words modulo 2^32.
pub open spec fn sum_32(x: u32, y: u32) -> u32 {
    vstd::wrapping::u32_specs::wrapping_add(x, y)
}

/// The hash of lattice cell `(x, y)` with `salt`: the coordinates and salt
/// are combined with odd multipliers, then avalanched by three
/// xor-shift-multiply rounds.
pub open spec fn lattice_hash_spec(x: i32, y: i32, salt: u32) -> u32 {
    let combined = sum_32(
        sum_32(product_32(x as u32, 0x9e37_79b9), product_32(y as u32, 0x85eb_ca6b)),
        product_32(salt, 0xc2b2_ae35),
    );
    let a = product_32(combined ^ (combined >> 16u32), 0x7feb_352d);
    let b = product_32(a ^ (a >> 15u32), 0x846c_a68b);
    b ^ (b >> 16u32)
}

/// Hashes lattice cell `(x, y)` with `salt`.
pub fn lattice_hash(x: i32, y: i32, salt: u32) -> (value: u32)
    ensures
        value == lattice_hash_spec(x, y, salt),
{
    let mut value = (x as u32).wrapping_mul(0x9e37_79b9).wrapping_add(
        (y as u32).wrapping_mul(0x85eb_ca6b),
    ).wrapping_add(salt.wrapping_mul(0xc2b2_ae35));
    value = value ^ (value >> 16);
    value = value.wrapping_mul(0x7feb_352d);
    value = value ^ (value >> 15);
    value = value.wrapping_mul(0x846c_a68b);
    value = value ^ (value >> 16);
    value
}

} // verus!
