//! Integer arithmetic shared by the drawing code: quotients with a stated
//! rounding, and bounds on products.

use vstd::prelude::*;

verus! {

/// The quotient of `n` by `d` rounded toward zero (`d` is not zero).
pub open spec fn trunc_div(n: int, d: int) -> int {
    if n >= 0 && d > 0 {
        n / d
    } else if n >= 0 {
        -(n / (-d))
    } else if d > 0 {
        -((-n) / d)
    } else {
        (-n) / (-d)
    }
}

/// The bound on a product from bounds on its factors.
pub proof fn lemma_mul_bound(p: int, q: int, pm: int, qm: int)
    requires
        -pm <= p <= pm,
        -qm <= q <= qm,
    ensures
        -(pm * qm) <= p * q <= pm * qm,
{
    assert(-(pm * qm) <= p * q <= pm * qm) by (nonlinear_arith)
        requires
            -pm <= p <= pm,
            -qm <= q <= qm,
    ;
}

/// Rounding a quotient down keeps it between bounds that the dividend keeps
/// after scaling by the divisor.
pub proof fn lemma_div_between(n: int, d: int, lo: int, hi: int)
    requires
        d > 0,
        lo * d <= n <= hi * d,
    ensures
        lo <= n / d <= hi,
{
    vstd::arithmetic::div_mod::lemma_fundamental_div_mod(n, d);
    vstd::arithmetic::div_mod::lemma_mod_bound(n, d);
    let q = n / d;
    assert(lo <= q) by (nonlinear_arith)
        requires
            d > 0,
            lo * d <= n,
            n == d * q + n % d,
            n % d < d,
    ;
    assert(q <= hi) by (nonlinear_arith)
        requires
            d > 0,
            n <= hi * d,
            n == d * q + n % d,
            0 <= n % d,
    ;
}

/// The quotient rounded down, for a positive divisor.
pub fn floor_div(n: i128, d: i128) -> (q: i128)
    requires
        d > 0,
        -0x4000_0000_0000_0000_0000_0000_0000_0000 <= n <= 0x4000_0000_0000_0000_0000_0000_0000_0000,
        d < 0x4000_0000_0000_0000_0000_0000_0000_0000,
    ensures
        q == n / d,
{
    if n >= 0 {
        n / d
    } else {
        let m: i128 = -n;
        let q: i128 = (m + (d - 1)) / d;
        proof {
            // n = -m with m > 0: the floor of n / d is minus the ceiling of m / d.
            let c = (m + (d - 1)) / (d as int);
            vstd::arithmetic::div_mod::lemma_fundamental_div_mod(m + (d - 1), d as int);
            vstd::arithmetic::div_mod::lemma_mod_bound(m + (d - 1), d as int);
            let r = (m + (d - 1)) % (d as int);
            assert(n == d * (-c) + (d - 1 - r)) by (nonlinear_arith)
                requires
                    m + (d - 1) == d * c + r,
                    n == -m,
            ;
            vstd::arithmetic::div_mod::lemma_fundamental_div_mod_converse(
                n as int,
                d as int,
                -c,
                d - 1 - r,
            );
        }
        -q
    }
}

/// The quotient of `n * size` by `d`, rounded toward zero, where it is an
/// index below `size`; nothing where it is not. Numerator and divisor may
/// be as large as 97 bits hold: the product is taken without its sign, in
/// 128 bits, where it fits.
pub fn scaled_index(n: i128, size: u32, d: i128) -> (r: Option<u32>)
    requires
        d != 0,
        -0x1_0000_0000_0000_0000_0000_0000 <= n <= 0x1_0000_0000_0000_0000_0000_0000,
        -0x1_0000_0000_0000_0000_0000_0000 <= d <= 0x1_0000_0000_0000_0000_0000_0000,
    ensures
        match r {
            Some(i) => i == trunc_div(n * size, d as int) && i < size,
            None => !(0 <= trunc_div(n * size, d as int) < size),
        },
{
    let (m, e): (i128, i128) = if d < 0 {
        (-n, -d)
    } else {
        (n, d)
    };
    let t: u128 = if m >= 0 {
        m as u128
    } else {
        (-m) as u128
    };
    proof {
        lemma_mul_bound(t as int, size as int, 0x1_0000_0000_0000_0000_0000_0000, 0xffff_ffff);
        assert(0 <= t * size) by (nonlinear_arith)
            requires
                t >= 0,
                size >= 0,
        ;
        assert(size > 0 && t > 0 ==> t * size > 0) by (nonlinear_arith);
        assert(size == 0 || t == 0 ==> t * size == 0) by (nonlinear_arith);
        assert((-n) * size == -(n * size)) by (nonlinear_arith);
        assert((-m) * size == -(m * size)) by (nonlinear_arith);
        vstd::arithmetic::div_mod::lemma_div_basics(e as int);
        vstd::arithmetic::div_mod::lemma_div_pos_is_pos(t * size, e as int);
    }
    let p: u128 = t * (size as u128);
    let q: u128 = p / (e as u128);
    if m >= 0 {
        if q < size as u128 {
            Some(q as u32)
        } else {
            None
        }
    } else if q == 0 && size > 0 {
        Some(0)
    } else {
        None
    }
}

} // verus!
