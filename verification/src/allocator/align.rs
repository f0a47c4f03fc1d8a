//! Powers of two and rounding an address up to an alignment.

use vstd::prelude::*;
use vstd::arithmetic::div_mod::lemma_fundamental_div_mod;
use vstd::arithmetic::div_mod::lemma_fundamental_div_mod_converse;
use vstd::arithmetic::div_mod::lemma_mod_pos_bound;

verus! {

/// `n` is one of 1, 2, 4, 8, ...
pub open spec fn is_power_of_two(n: int) -> bool
    decreases n,
{
    if n <= 0 {
        false
    } else if n == 1 {
        true
    } else {
        n % 2 == 0 && is_power_of_two(n / 2)
    }
}

/// The least multiple of `align` that is not below `addr`.
pub open spec fn align_up_spec(addr: int, align: int) -> int
    recommends
        0 <= addr,
        0 < align,
{
    if addr % align == 0 {
        addr
    } else {
        addr - addr % align + align
    }
}

/// `align_up_spec(addr, align)` is a multiple of `align`, is not below `addr`,
/// and no multiple of `align` lies between the two.
pub proof fn lemma_align_up_is_least_multiple(addr: int, align: int)
    requires
        0 <= addr,
        0 < align,
    ensures
        align_up_spec(addr, align) % align == 0,
        addr <= align_up_spec(addr, align) < addr + align,
        forall|m: int| addr <= m && #[trigger] (m % align) == 0 ==> align_up_spec(addr, align) <= m,
{
    let r = align_up_spec(addr, align);
    let q = addr / align;
    let rem = addr % align;
    lemma_fundamental_div_mod(addr, align);
    lemma_mod_pos_bound(addr, align);
    if rem != 0 {
        assert(r == (q + 1) * align + 0) by (nonlinear_arith)
            requires
                r == addr - rem + align,
                addr == align * q + rem,
        ;
        lemma_fundamental_div_mod_converse(r, align, q + 1, 0);
    }
    assert forall|m: int| addr <= m && #[trigger] (m % align) == 0 implies r <= m by {
        lemma_fundamental_div_mod(m, align);
        let k = m / align;
        if rem != 0 && m < r {
            // addr = q * align + rem is above q * align and m = k * align is
            // below (q + 1) * align, so k is both above q and at most q
            assert(k <= q) by (nonlinear_arith)
                requires
                    align * k < (q + 1) * align,
                    0 < align,
            ;
            assert(align * k <= align * q) by (nonlinear_arith)
                requires
                    k <= q,
                    0 < align,
            ;
        }
    }
}

/// Of two powers of two the smaller divides the larger.
pub proof fn lemma_power_of_two_divides(a: int, b: int)
    requires
        is_power_of_two(a),
        is_power_of_two(b),
        a <= b,
    ensures
        b % a == 0,
    decreases a,
{
    if a > 1 {
        lemma_power_of_two_divides(a / 2, b / 2);
        lemma_fundamental_div_mod(b / 2, a / 2);
        assert(b == (b / 2 / (a / 2)) * a + 0) by (nonlinear_arith)
            requires
                b / 2 == (a / 2) * (b / 2 / (a / 2)),
                a == 2 * (a / 2),
                b == 2 * (b / 2),
        ;
        lemma_fundamental_div_mod_converse(b, a, b / 2 / (a / 2), 0);
    }
}

/// A multiple of a multiple of `b` is a multiple of `b`.
pub proof fn lemma_multiple_of_multiple(x: int, a: int, b: int)
    requires
        0 < a,
        0 < b,
        x % a == 0,
        a % b == 0,
    ensures
        x % b == 0,
{
    lemma_fundamental_div_mod(x, a);
    lemma_fundamental_div_mod(a, b);
    assert(x == ((a / b) * (x / a)) * b + 0) by (nonlinear_arith)
        requires
            x == a * (x / a),
            a == b * (a / b),
    ;
    lemma_fundamental_div_mod_converse(x, b, (a / b) * (x / a), 0);
}

/// Splitting off the lowest bit: `x` masked by `2 * m + 1` is twice the upper
/// part of `x` masked by `m`, plus the lowest bit of `x`.
proof fn lemma_mask_step(x: usize, m: usize, mm: usize)
    by (bit_vector)
    requires
        m <= mm,
        mm - m == m + 1,
    ensures
        x & mm == 2 * ((x / 2) & m) + x % 2,
{
}

/// Masking with `p - 1` is the remainder of the division by `p`, for a power
/// of two `p`.
pub proof fn lemma_mask_is_mod(x: usize, p: usize)
    requires
        is_power_of_two(p as int),
    ensures
        x & ((p - 1) as usize) == x % p,
    decreases p,
{
    if p == 1 {
        assert(x & 0 == 0) by (bit_vector);
    } else {
        let q: usize = p / 2;
        let h: usize = x / 2;
        lemma_mask_is_mod(h, q);
        lemma_mask_step(x, (q - 1) as usize, (p - 1) as usize);
        // x = 2 * h + x % 2 and h = q * (h / q) + h % q
        lemma_fundamental_div_mod(h as int, q as int);
        lemma_mod_pos_bound(h as int, q as int);
        let r = 2 * (h % q) + x % 2;
        assert(x == (h / q) * p + r) by (nonlinear_arith)
            requires
                x == 2 * h + x % 2,
                h == q * (h / q) + h % q,
                p == 2 * q,
                r == 2 * (h % q) + x % 2,
        ;
        lemma_fundamental_div_mod_converse(x as int, p as int, (h / q) as int, r as int);
    }
}

/// Halving an even number keeps or loses the property `n & (n - 1) == 0`.
proof fn lemma_single_bit_step(n: usize, h: usize)
    by (bit_vector)
    requires
        n >= 2,
        h == n / 2,
    ensures
        n % 2 == 0 ==> ((n & ((n - 1) as usize) == 0) <==> (h & ((h - 1) as usize) == 0)),
        n % 2 == 1 ==> n & ((n - 1) as usize) != 0,
{
}

/// A number is a power of two exactly when it is not zero and shares no bit
/// with its predecessor.
pub proof fn lemma_power_of_two_single_bit(n: usize)
    ensures
        is_power_of_two(n as int) <==> (n != 0 && n & ((n - 1) as usize) == 0),
    decreases n,
{
    if n == 0 {
    } else if n == 1 {
        assert(1usize & 0usize == 0) by (bit_vector);
    } else {
        let h: usize = n / 2;
        lemma_single_bit_step(n, h);
        lemma_power_of_two_single_bit(h);
    }
}

/// Whether `n` is a power of two.
pub fn is_pow2(n: usize) -> (b: bool)
    ensures
        b == is_power_of_two(n as int),
{
    proof {
        lemma_power_of_two_single_bit(n);
    }
    n != 0 && n & (n - 1) == 0
}

/// Rounds `addr` up to the next multiple of the power of two `align`.
pub fn align_up(addr: usize, align: usize) -> (aligned: usize)
    requires
        is_power_of_two(align as int),
        addr + align - 1 <= usize::MAX,
    ensures
        aligned == align_up_spec(addr as int, align as int),
{
    let mask: usize = align - 1;
    let sum: usize = addr + mask;
    proof {
        lemma_mask_is_mod(sum, align);
        assert(sum & !mask == sum - (sum & mask)) by (bit_vector);
        let q = addr as int / align as int;
        let rem = addr as int % align as int;
        lemma_fundamental_div_mod(addr as int, align as int);
        lemma_mod_pos_bound(addr as int, align as int);
        if rem == 0 {
            assert(sum == q * align + (align - 1)) by (nonlinear_arith)
                requires
                    sum == addr + align - 1,
                    addr == align * q + rem,
                    rem == 0,
            ;
            lemma_fundamental_div_mod_converse(sum as int, align as int, q, align - 1);
        } else {
            assert(sum == (q + 1) * align + (rem - 1)) by (nonlinear_arith)
                requires
                    sum == addr + align - 1,
                    addr == align * q + rem,
            ;
            lemma_fundamental_div_mod_converse(sum as int, align as int, q + 1, rem - 1);
        }
    }
    sum & !mask
}

/// Rounds `addr` up to the next multiple of the power of two `align`, or
/// `None` where that multiple does not fit in a `usize`.
pub fn checked_align_up(addr: usize, align: usize) -> (aligned: Option<usize>)
    requires
        is_power_of_two(align as int),
    ensures
        aligned == if align_up_spec(addr as int, align as int) <= usize::MAX {
            Some(align_up_spec(addr as int, align as int) as usize)
        } else {
            None
        },
{
    let rem: usize = addr & (align - 1);
    proof {
        lemma_mask_is_mod(addr, align);
        lemma_mod_pos_bound(addr as int, align as int);
        lemma_fundamental_div_mod(addr as int, align as int);
        assert(0 <= align * (addr as int / align as int)) by (nonlinear_arith)
            requires
                0 <= addr,
                0 < align,
        ;
    }
    if rem == 0 {
        Some(addr)
    } else {
        (addr - rem).checked_add(align)
    }
}

} // verus!
