//! Arithmetic in GF(2^128), the field GF(2)[x] / (x^128 + x^7 + x^2 + x + 1).
//!
//! A scalar is a `u128` whose bit `i` is the coefficient of `x^i`; the integer
//! `i` therefore maps to the field element with the same bit pattern.

use vstd::prelude::*;

verus! {

/// The low part of the reduction polynomial: x^7 + x^2 + x + 1.
pub const REDUCTION_LOW: u128 = 0x87;

/// The additive identity.
pub const ZERO: u128 = 0;

/// The multiplicative identity.
pub const ONE: u128 = 1;

/// Field addition (and subtraction): coefficient-wise addition modulo 2.
pub open spec fn add_spec(a: u128, b: u128) -> u128 {
    a ^ b
}

/// Multiplication by `x`, reduced modulo the field polynomial.
pub open spec fn mul_x_spec(a: u128) -> u128 {
    if a >> 127u128 == 1 {
        (a << 1u128) ^ REDUCTION_LOW
    } else {
        a << 1u128
    }
}

/// `a * x^m`.
pub open spec fn mul_x_pow(a: u128, m: nat) -> u128
    decreases m,
{
    if m == 0 {
        a
    } else {
        mul_x_spec(mul_x_pow(a, (m - 1) as nat))
    }
}

/// The product of `a` with the part of `b` made of its bits below `m`.
pub open spec fn mul_upto(a: u128, b: u128, m: nat) -> u128
    decreases m,
{
    if m == 0 {
        0
    } else {
        let prev = mul_upto(a, b, (m - 1) as nat);
        if (b >> ((m - 1) as u128)) & 1 == 1 {
            prev ^ mul_x_pow(a, (m - 1) as nat)
        } else {
            prev
        }
    }
}

/// Field multiplication: `a * b = sum over the set bits i of b of a * x^i`.
pub open spec fn mul_spec(a: u128, b: u128) -> u128 {
    mul_upto(a, b, 128)
}

/// `a^(2^i)`, by repeated squaring.
pub open spec fn pow_two_pow(a: u128, i: nat) -> u128
    decreases i,
{
    if i == 0 {
        a
    } else {
        let p = pow_two_pow(a, (i - 1) as nat);
        mul_spec(p, p)
    }
}

/// `a^(2^1 + 2^2 + ... + 2^i)`.
pub open spec fn pow_chain(a: u128, i: nat) -> u128
    decreases i,
{
    if i <= 1 {
        pow_two_pow(a, 1)
    } else {
        mul_spec(pow_chain(a, (i - 1) as nat), pow_two_pow(a, i))
    }
}

/// The multiplicative inverse: `a^(2^128 - 2)`, which by Fermat's little
/// theorem inverts every nonzero `a` (and maps zero to zero).
pub open spec fn inv_spec(a: u128) -> u128 {
    pow_chain(a, 127)
}

/// Field addition.
pub fn gf_add(a: u128, b: u128) -> (r: u128)
    ensures
        r == add_spec(a, b),
{
    a ^ b
}

/// Multiplication by `x`.
pub fn gf_mul_x(a: u128) -> (r: u128)
    ensures
        r == mul_x_spec(a),
{
    if a >> 127u128 == 1 {
        (a << 1u128) ^ REDUCTION_LOW
    } else {
        a << 1u128
    }
}

/// Field multiplication.
pub fn gf_mul(a: u128, b: u128) -> (r: u128)
    ensures
        r == mul_spec(a, b),
{
    let mut acc: u128 = 0;
    let mut cur: u128 = a;
    let mut m: u32 = 0;
    while m < 128
        invariant
            m <= 128,
            cur == mul_x_pow(a, m as nat),
            acc == mul_upto(a, b, m as nat),
        decreases 128 - m,
    {
        if (b >> (m as u128)) & 1 == 1 {
            acc = acc ^ cur;
        }
        cur = gf_mul_x(cur);
        m = m + 1;
    }
    acc
}

/// The multiplicative inverse of a nonzero scalar (zero maps to zero).
pub fn gf_inv(a: u128) -> (r: u128)
    ensures
        r == inv_spec(a),
{
    let mut sq: u128 = gf_mul(a, a);
    let mut acc: u128 = sq;
    let mut i: u32 = 1;
    assert(pow_two_pow(a, 0) == a);
    assert(pow_two_pow(a, 1) == mul_spec(a, a));
    assert(pow_chain(a, 1) == pow_two_pow(a, 1));
    while i < 127
        invariant
            1 <= i <= 127,
            sq == pow_two_pow(a, i as nat),
            acc == pow_chain(a, i as nat),
        decreases 127 - i,
    {
        sq = gf_mul(sq, sq);
        acc = gf_mul(acc, sq);
        i = i + 1;
    }
    acc
}

} // verus!
