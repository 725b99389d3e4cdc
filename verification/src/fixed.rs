//! Fixed-point numbers: the scalar of the vector and matrix code.
//!
//! A [`Fixed`] holds a number as a 64-bit integer counting units of
//! `2^-32`. Arithmetic saturates: a result beyond the range is the nearest
//! end of the range, and a quotient by zero is the end on the dividend's
//! side. So every operation is total and none panics.

use vstd::prelude::*;
use crate::arith::floor_div;
use crate::arith::lemma_mul_bound;
use crate::arith::trunc_div;

verus! {

/// A number with 32 binary places: it stands for `raw / 2^32`.
#[derive(Debug, Clone, Copy, PartialEq, Eq, Structural)]
pub struct Fixed {
    pub raw: i64,
}

/// `2^32`: the raw value of one.
pub open spec fn unit() -> int {
    0x1_0000_0000
}

/// `v` held in the range of a 64-bit integer.
pub open spec fn saturated(v: int) -> i64 {
    if v > i64::MAX {
        i64::MAX
    } else if v < i64::MIN {
        i64::MIN
    } else {
        v as i64
    }
}

/// Whether `r` is the integer square root of `n`: the greatest number whose
/// square is at most `n`.
pub open spec fn is_root(n: int, r: int) -> bool {
    r >= 0 && r * r <= n < (r + 1) * (r + 1)
}

/// The integer square root of `n`, which is not negative.
pub open spec fn root(n: int) -> int {
    choose|r: int| is_root(n, r)
}

/// There is one integer square root.
pub proof fn lemma_root(n: int, r: int)
    requires
        is_root(n, r),
    ensures
        root(n) == r,
{
    let s = root(n);
    assert(is_root(n, s));
    if s < r {
        assert((s + 1) * (s + 1) <= r * r) by (nonlinear_arith)
            requires
                0 <= s + 1 <= r,
        ;
    }
    if r < s {
        assert((r + 1) * (r + 1) <= s * s) by (nonlinear_arith)
            requires
                0 <= r + 1 <= s,
        ;
    }
}

/// Computes [`saturated`].
fn saturate(v: i128) -> (r: i64)
    ensures
        r == saturated(v as int),
{
    if v > i64::MAX as i128 {
        i64::MAX
    } else if v < i64::MIN as i128 {
        i64::MIN
    } else {
        v as i64
    }
}

/// Every number that is not negative has an integer square root.
pub proof fn lemma_root_exists(n: int)
    requires
        n >= 0,
    ensures
        is_root(n, root(n)),
    decreases n,
{
    if n == 0 {
        assert(is_root(0, 0));
    } else {
        lemma_root_exists(n - 1);
        let r = root(n - 1);
        assert((r + 2) * (r + 2) > (r + 1) * (r + 1)) by (nonlinear_arith)
            requires
                r >= 0,
        ;
        if (r + 1) * (r + 1) <= n {
            assert(is_root(n, r + 1));
        } else {
            assert(is_root(n, r));
        }
    }
}

/// Computes [`root`] by bisection.
pub fn integer_root(n: u128) -> (r: u128)
    ensures
        r == root(n as int),
        is_root(n as int, r as int),
        r < 0x1_0000_0000_0000_0000,
{
    let mut lo: u128 = 0;
    let mut hi: u128 = 0x1_0000_0000_0000_0000;
    assert(lo * lo == 0 && hi * hi == 0x1_0000_0000_0000_0000_0000_0000_0000_0000) by (nonlinear_arith)
        requires
            lo == 0,
            hi == 0x1_0000_0000_0000_0000,
    ;
    while hi - lo > 1
        invariant
            0 <= lo < hi <= 0x1_0000_0000_0000_0000,
            lo * lo <= n < hi * hi,
        decreases hi - lo,
    {
        let mid: u128 = lo + (hi - lo) / 2;
        proof {
            lemma_mul_bound(mid as int, mid as int, 0xffff_ffff_ffff_ffff, 0xffff_ffff_ffff_ffff);
            assert(0xffff_ffff_ffff_ffffint * 0xffff_ffff_ffff_ffffint
                == 0xffff_ffff_ffff_fffe_0000_0000_0000_0001int) by (nonlinear_arith);
        }
        if mid * mid <= n {
            lo = mid;
        } else {
            hi = mid;
        }
    }
    proof {
        lemma_root(n as int, lo as int);
    }
    lo
}

impl Fixed {
    /// The sum, saturated.
    #[verifier::opaque]
    pub open spec fn add_spec(self, rhs: Fixed) -> Fixed {
        Fixed { raw: saturated(self.raw + rhs.raw) }
    }

    /// The difference, saturated.
    #[verifier::opaque]
    pub open spec fn sub_spec(self, rhs: Fixed) -> Fixed {
        Fixed { raw: saturated(self.raw - rhs.raw) }
    }

    /// The negative, saturated.
    #[verifier::opaque]
    pub open spec fn neg_spec(self) -> Fixed {
        Fixed { raw: saturated(-self.raw) }
    }

    /// The product rounded down, saturated.
    #[verifier::opaque]
    pub open spec fn mul_spec(self, rhs: Fixed) -> Fixed {
        Fixed { raw: saturated((self.raw * rhs.raw) / unit()) }
    }

    /// The quotient rounded toward zero, saturated. A quotient by zero is the
    /// end of the range on the dividend's side, and zero for zero by zero.
    #[verifier::opaque]
    pub open spec fn div_spec(self, rhs: Fixed) -> Fixed {
        if rhs.raw == 0 {
            Fixed {
                raw: if self.raw > 0 {
                    i64::MAX
                } else if self.raw < 0 {
                    i64::MIN
                } else {
                    0
                },
            }
        } else {
            Fixed { raw: saturated(trunc_div(self.raw * unit(), rhs.raw as int)) }
        }
    }

    /// The square root rounded down; zero for a negative number.
    #[verifier::opaque]
    pub open spec fn sqrt_spec(self) -> Fixed {
        if self.raw < 0 {
            Fixed { raw: 0 }
        } else {
            Fixed { raw: root(self.raw * unit()) as i64 }
        }
    }

    /// The whole number `i`.
    #[verifier::opaque]
    pub open spec fn from_int_spec(i: i32) -> Fixed {
        Fixed { raw: (i * unit()) as i64 }
    }

    /// The whole number `n`, or the top of the range where that is less.
    #[verifier::opaque]
    pub open spec fn from_u32_spec(n: u32) -> Fixed {
        Fixed { raw: saturated(n * unit()) }
    }

    /// The number rounded down to a whole number, held in the range of a
    /// 32-bit integer.
    #[verifier::opaque]
    pub open spec fn floor_spec(self) -> i32 {
        let t = self.raw as int / unit();
        if t > i32::MAX {
            i32::MAX
        } else if t < i32::MIN {
            i32::MIN
        } else {
            t as i32
        }
    }

    /// The number rounded toward zero to a whole number, held in the range
    /// of a 32-bit integer.
    #[verifier::opaque]
    pub open spec fn to_int_spec(self) -> i32 {
        let t = trunc_div(self.raw as int, unit());
        if t > i32::MAX {
            i32::MAX
        } else if t < i32::MIN {
            i32::MIN
        } else {
            t as i32
        }
    }

    /// Zero.
    #[verifier::when_used_as_spec(zero_spec)]
    pub fn zero() -> (r: Fixed)
        ensures
            r == Fixed::zero_spec(),
    {
        Fixed { raw: 0 }
    }

    /// Zero.
    pub open spec fn zero_spec() -> Fixed {
        Fixed { raw: 0 }
    }

    /// One.
    #[verifier::when_used_as_spec(one_spec)]
    pub fn one() -> (r: Fixed)
        ensures
            r == Fixed::one_spec(),
    {
        Fixed { raw: 0x1_0000_0000 }
    }

    /// One.
    pub open spec fn one_spec() -> Fixed {
        Fixed { raw: 0x1_0000_0000 }
    }

    /// One half.
    #[verifier::when_used_as_spec(half_spec)]
    pub fn half() -> (r: Fixed)
        ensures
            r == Fixed::half_spec(),
    {
        Fixed { raw: 0x8000_0000 }
    }

    /// One half.
    pub open spec fn half_spec() -> Fixed {
        Fixed { raw: 0x8000_0000 }
    }

    /// The whole number `i`.
    #[verifier::when_used_as_spec(from_int_spec)]
    pub fn from_int(i: i32) -> (r: Fixed)
        ensures
            r == Fixed::from_int_spec(i),
    {
        reveal(Fixed::from_int_spec);
        proof {
            lemma_mul_bound(i as int, unit(), 0x8000_0000, 0x1_0000_0000);
        }
        Fixed { raw: (i as i64) * 0x1_0000_0000 }
    }

    /// The whole number `n`.
    #[verifier::when_used_as_spec(from_u32_spec)]
    pub fn from_u32(n: u32) -> (r: Fixed)
        ensures
            r == Fixed::from_u32_spec(n),
    {
        reveal(Fixed::from_u32_spec);
        proof {
            lemma_mul_bound(n as int, unit(), 0x1_0000_0000, 0x1_0000_0000);
        }
        Fixed { raw: saturate((n as i128) * 0x1_0000_0000) }
    }

    /// The number rounded down to a whole number.
    #[verifier::when_used_as_spec(floor_spec)]
    pub fn floor(self) -> (i: i32)
        ensures
            i == self.floor_spec(),
    {
        reveal(Fixed::floor_spec);
        let t: i128 = floor_div(self.raw as i128, 0x1_0000_0000);
        if t > i32::MAX as i128 {
            i32::MAX
        } else if t < i32::MIN as i128 {
            i32::MIN
        } else {
            t as i32
        }
    }

    /// The number rounded toward zero to a whole number.
    #[verifier::when_used_as_spec(to_int_spec)]
    pub fn to_int(self) -> (i: i32)
        ensures
            i == self.to_int_spec(),
    {
        reveal(Fixed::to_int_spec);
        let t: i64 = self.raw / 0x1_0000_0000;
        if t > i32::MAX as i64 {
            i32::MAX
        } else if t < i32::MIN as i64 {
            i32::MIN
        } else {
            t as i32
        }
    }

    /// The sum.
    #[verifier::when_used_as_spec(add_spec)]
    pub fn add(self, rhs: Fixed) -> (r: Fixed)
        ensures
            r == self.add_spec(rhs),
    {
        reveal(Fixed::add_spec);
        Fixed { raw: saturate((self.raw as i128) + (rhs.raw as i128)) }
    }

    /// The difference.
    #[verifier::when_used_as_spec(sub_spec)]
    pub fn sub(self, rhs: Fixed) -> (r: Fixed)
        ensures
            r == self.sub_spec(rhs),
    {
        reveal(Fixed::sub_spec);
        Fixed { raw: saturate((self.raw as i128) - (rhs.raw as i128)) }
    }

    /// The negative.
    #[verifier::when_used_as_spec(neg_spec)]
    pub fn neg(self) -> (r: Fixed)
        ensures
            r == self.neg_spec(),
    {
        reveal(Fixed::neg_spec);
        Fixed { raw: saturate(-(self.raw as i128)) }
    }

    /// The product.
    #[verifier::when_used_as_spec(mul_spec)]
    pub fn mul(self, rhs: Fixed) -> (r: Fixed)
        ensures
            r == self.mul_spec(rhs),
    {
        reveal(Fixed::mul_spec);
        proof {
            lemma_mul_bound(
                self.raw as int,
                rhs.raw as int,
                0x8000_0000_0000_0000,
                0x8000_0000_0000_0000,
            );
        }
        let product: i128 = (self.raw as i128) * (rhs.raw as i128);
        Fixed { raw: saturate(floor_div(product, 0x1_0000_0000)) }
    }

    /// The quotient.
    #[verifier::when_used_as_spec(div_spec)]
    pub fn div(self, rhs: Fixed) -> (r: Fixed)
        ensures
            r == self.div_spec(rhs),
    {
        reveal(Fixed::div_spec);
        if rhs.raw == 0 {
            return Fixed {
                raw: if self.raw > 0 {
                    i64::MAX
                } else if self.raw < 0 {
                    i64::MIN
                } else {
                    0
                },
            };
        }
        proof {
            lemma_mul_bound(self.raw as int, unit(), 0x8000_0000_0000_0000, 0x1_0000_0000);
        }
        let n: i128 = (self.raw as i128) * 0x1_0000_0000;
        let d: i128 = rhs.raw as i128;
        let q: i128 = if d > 0 {
            n / d
        } else {
            (-n) / (-d)
        };
        Fixed { raw: saturate(q) }
    }

    /// The square root.
    #[verifier::when_used_as_spec(sqrt_spec)]
    pub fn sqrt(self) -> (r: Fixed)
        ensures
            r == self.sqrt_spec(),
    {
        reveal(Fixed::sqrt_spec);
        if self.raw < 0 {
            return Fixed { raw: 0 };
        }
        proof {
            lemma_mul_bound(self.raw as int, unit(), 0x8000_0000_0000_0000, 0x1_0000_0000);
        }
        let n: u128 = (self.raw as u128) * 0x1_0000_0000;
        let r = integer_root(n);
        proof {
            // the root of a number below 2^95 is below 2^48
            if r >= 0x1_0000_0000_0000 {
                assert(r * r >= 0x1_0000_0000_0000_0000_0000_0000) by (nonlinear_arith)
                    requires
                        r >= 0x1_0000_0000_0000,
                ;
            }
        }
        Fixed { raw: r as i64 }
    }

    /// The product of whole number and unit fraction that the power series
    /// of the sine are built from: `1 - self * inner / n`.
    pub open spec fn series_step(self, inner: Fixed, n: i32) -> Fixed {
        Fixed::one().sub(self.mul(inner).div(Fixed::from_int(n)))
    }

    /// The angle brought into the range from minus a quarter turn to a
    /// quarter turn, such that the sine stays what it is: first whole turns
    /// are taken off, then the angle is mirrored at the quarter turns.
    #[verifier::opaque]
    pub open spec fn folded_spec(self) -> Fixed {
        let turn = 0x6_487E_D511int;
        let half = 0x3_243F_6A89int;
        let quarter = 0x1_921F_B544int;
        let r = self.raw as int % turn;
        let s = if r > half {
            r - turn
        } else {
            r
        };
        Fixed {
            raw: (if s > quarter {
                half - s
            } else if s < -quarter {
                -half - s
            } else {
                s
            }) as i64,
        }
    }

    /// The sine of an angle in radians, by the power series of the sine up
    /// to the thirteenth power, on the angle folded into a quarter turn
    /// about zero.
    pub open spec fn sin_spec(self) -> Fixed {
        let r = self.folded_spec();
        let q = r.mul(r);
        r.mul(
            q.series_step(
                q.series_step(
                    q.series_step(
                        q.series_step(q.series_step(q.series_step(Fixed::one(), 156), 110), 72),
                        42,
                    ),
                    20,
                ),
                6,
            ),
        )
    }

    /// The cosine of an angle in radians: the sine a quarter turn on.
    pub open spec fn cos_spec(self) -> Fixed {
        self.add(Fixed { raw: 0x1_921F_B544 }).sin_spec()
    }

    /// The tangent of an angle in radians: sine over cosine.
    pub open spec fn tan_spec(self) -> Fixed {
        self.sin_spec().div(self.cos_spec())
    }

    /// Computes [`Fixed::folded_spec`].
    fn folded(self) -> (r: Fixed)
        ensures
            r == self.folded_spec(),
    {
        reveal(Fixed::folded_spec);
        let turn: i128 = 0x6_487E_D511;
        let half: i128 = 0x3_243F_6A89;
        let quarter: i128 = 0x1_921F_B544;
        let m: i128 = self.raw as i128;
        let r: i128 = if m >= 0 {
            m % turn
        } else {
            let k: i128 = (-m) % turn;
            proof {
                let a = -m as int;
                vstd::arithmetic::div_mod::lemma_fundamental_div_mod(a, turn as int);
                let q = a / (turn as int);
                if k == 0 {
                    assert(m == turn * (-q) + 0) by (nonlinear_arith)
                        requires
                            a == turn * q + k,
                            k == 0,
                            m == -a,
                    ;
                    vstd::arithmetic::div_mod::lemma_fundamental_div_mod_converse(
                        m as int,
                        turn as int,
                        -q,
                        0,
                    );
                } else {
                    assert(m == turn * (-q - 1) + (turn - k)) by (nonlinear_arith)
                        requires
                            a == turn * q + k,
                            m == -a,
                    ;
                    vstd::arithmetic::div_mod::lemma_fundamental_div_mod_converse(
                        m as int,
                        turn as int,
                        -q - 1,
                        turn - k,
                    );
                }
            }
            if k == 0 {
                0
            } else {
                turn - k
            }
        };
        let s: i128 = if r > half {
            r - turn
        } else {
            r
        };
        let f: i128 = if s > quarter {
            half - s
        } else if s < -quarter {
            -half - s
        } else {
            s
        };
        Fixed { raw: f as i64 }
    }

    /// Computes [`Fixed::series_step`].
    fn step(self, inner: Fixed, n: i32) -> (r: Fixed)
        ensures
            r == self.series_step(inner, n),
    {
        Fixed::one().sub(self.mul(inner).div(Fixed::from_int(n)))
    }

    /// The sine of an angle in radians.
    #[verifier::when_used_as_spec(sin_spec)]
    pub fn sin(self) -> (r: Fixed)
        ensures
            r == self.sin_spec(),
    {
        let r = self.folded();
        let q = r.mul(r);
        let s13 = q.step(Fixed::one(), 156);
        let s11 = q.step(s13, 110);
        let s9 = q.step(s11, 72);
        let s7 = q.step(s9, 42);
        let s5 = q.step(s7, 20);
        let s3 = q.step(s5, 6);
        r.mul(s3)
    }

    /// The cosine of an angle in radians.
    #[verifier::when_used_as_spec(cos_spec)]
    pub fn cos(self) -> (r: Fixed)
        ensures
            r == self.cos_spec(),
    {
        self.add(Fixed { raw: 0x1_921F_B544 }).sin()
    }

    /// The tangent of an angle in radians.
    #[verifier::when_used_as_spec(tan_spec)]
    pub fn tan(self) -> (r: Fixed)
        ensures
            r == self.tan_spec(),
    {
        self.sin().div(self.cos())
    }
}

/// Zero and one behave as zero and one: no rounding and no saturation
/// touches a product with either, a sum with zero, the root of one, or one
/// over one.
pub proof fn lemma_units(a: Fixed)
    ensures
        Fixed::zero().mul(a) == Fixed::zero(),
        a.mul(Fixed::zero()) == Fixed::zero(),
        Fixed::one().mul(a) == a,
        a.mul(Fixed::one()) == a,
        Fixed::zero().add(a) == a,
        a.add(Fixed::zero()) == a,
        a.sub(Fixed::zero()) == a,
        Fixed::one().sqrt() == Fixed::one(),
        Fixed::one().div(Fixed::one()) == Fixed::one(),
{
    reveal(Fixed::add_spec);
    reveal(Fixed::sub_spec);
    reveal(Fixed::mul_spec);
    reveal(Fixed::div_spec);
    reveal(Fixed::sqrt_spec);
    assert(0 * a.raw == 0 && a.raw * 0 == 0) by (nonlinear_arith);
    assert(0x1_0000_0000 * a.raw == a.raw * 0x1_0000_0000) by (nonlinear_arith);
    vstd::arithmetic::div_mod::lemma_fundamental_div_mod_converse(
        a.raw * 0x1_0000_0000,
        0x1_0000_0000,
        a.raw as int,
        0,
    );
    assert(0x1_0000_0000int * 0x1_0000_0000int == 0x1_0000_0000_0000_0000int) by (nonlinear_arith);
    assert(is_root(0x1_0000_0000_0000_0000int, 0x1_0000_0000int)) by (nonlinear_arith);
    lemma_root(0x1_0000_0000_0000_0000int, 0x1_0000_0000int);
    vstd::arithmetic::div_mod::lemma_fundamental_div_mod_converse(
        0x1_0000_0000_0000_0000int,
        0x1_0000_0000,
        0x1_0000_0000,
        0,
    );
}

/// The angle that the sine's power series is taken of lies within a quarter
/// turn of zero, and the sine of zero is zero.
pub proof fn lemma_folded(a: Fixed)
    ensures
        -0x1_921F_B544 <= a.folded_spec().raw <= 0x1_921F_B544,
        Fixed::zero().sin() == Fixed::zero(),
{
    reveal(Fixed::folded_spec);
    lemma_units(Fixed::zero());
    let step = Fixed::zero().series_step(
        Fixed::zero().series_step(
            Fixed::zero().series_step(
                Fixed::zero().series_step(
                    Fixed::zero().series_step(Fixed::zero().series_step(Fixed::one(), 156), 110),
                    72,
                ),
                42,
            ),
            20,
        ),
        6,
    );
    lemma_units(step);
    assert(Fixed::zero().folded_spec() == Fixed::zero());
}

/// A product does not depend on the order of its factors.
pub proof fn lemma_mul_commutes(a: Fixed, b: Fixed)
    ensures
        a.mul(b) == b.mul(a),
{
    reveal(Fixed::mul_spec);
    assert(a.raw * b.raw == b.raw * a.raw) by (nonlinear_arith);
}

/// A quotient of two numbers that are not positive, the dividend no further
/// from zero than the divisor, lies from zero to one, and is rounded down.
/// This is how far along an edge a plane cuts it.
pub proof fn lemma_share(n: Fixed, d: Fixed)
    requires
        d.raw <= n.raw <= 0,
        d.raw < 0,
    ensures
        0 <= n.div(d).raw <= unit(),
        n.raw > d.raw ==> n.div(d).raw < unit(),
        n.div(d).raw * (-d.raw) <= (-n.raw) * unit(),
{
    reveal(Fixed::div_spec);
    let u = unit();
    let a = -n.raw;
    let b = -d.raw;
    assert(n.raw * u == -(a * u)) by (nonlinear_arith)
        requires
            a == -n.raw,
    ;
    assert(0 <= a * u <= b * u) by (nonlinear_arith)
        requires
            0 <= a <= b,
            u == 0x1_0000_0000,
    ;
    assert(a < b ==> a * u < b * u) by (nonlinear_arith)
        requires
            0 <= a <= b,
            u == 0x1_0000_0000,
    ;
    let q = (a * u) / b;
    vstd::arithmetic::div_mod::lemma_fundamental_div_mod(a * u, b);
    vstd::arithmetic::div_mod::lemma_mod_bound(a * u, b);
    assert(0 <= q <= u) by (nonlinear_arith)
        requires
            0 <= a * u <= b * u,
            b > 0,
            a * u == b * q + (a * u) % b,
            0 <= (a * u) % b < b,
    ;
    assert(a * u < b * u ==> q < u) by (nonlinear_arith)
        requires
            b > 0,
            a * u == b * q + (a * u) % b,
            0 <= (a * u) % b < b,
    ;
    assert(trunc_div(-(a * u), -b) == q);
    assert(q * b <= a * u) by (nonlinear_arith)
        requires
            a * u == b * q + (a * u) % b,
            0 <= (a * u) % b,
    ;
}

/// Where a way from `a` down to `b` is cut at `c`, with `c` on the way
/// short of `b`, the cut as it is computed is not below `c`, and not above
/// `a`: rounding and saturation never take it across. The cut is `a + (b -
/// a) * t` with the share `t = (c - a) / (b - a)`.
pub proof fn lemma_cut_not_below(a: Fixed, b: Fixed, c: Fixed)
    requires
        a.raw >= c.raw > b.raw,
    ensures
        c.raw <= a.add(b.sub(a).mul(c.sub(a).div(b.sub(a)))).raw <= a.raw,
{
    reveal(Fixed::add_spec);
    reveal(Fixed::sub_spec);
    reveal(Fixed::mul_spec);
    reveal(Fixed::div_spec);
    let u = unit();
    let n = c.sub(a);
    let d = b.sub(a);
    assert(d.raw <= n.raw <= 0 && d.raw < 0);
    assert(n.raw >= c.raw - a.raw);
    // what is left of the way, and the whole way, both counted downward
    let x = -n.raw;
    let y = -d.raw;
    assert(n.raw * u == -(x * u)) by (nonlinear_arith)
        requires
            x == -n.raw,
    ;
    assert(0 <= x * u <= y * u) by (nonlinear_arith)
        requires
            0 <= x <= y,
            u == 0x1_0000_0000,
    ;
    let q = (x * u) / y;
    vstd::arithmetic::div_mod::lemma_fundamental_div_mod(x * u, y);
    vstd::arithmetic::div_mod::lemma_mod_bound(x * u, y);
    assert(0 <= q <= u && q * y <= x * u) by (nonlinear_arith)
        requires
            0 <= x * u <= y * u,
            y > 0,
            x * u == y * q + (x * u) % y,
            0 <= (x * u) % y < y,
    ;
    assert(trunc_div(-(x * u), -y) == q);
    let t = n.div(d);
    assert(t.raw == q);
    assert(n.raw * u <= d.raw * q <= 0) by (nonlinear_arith)
        requires
            q * y <= x * u,
            0 <= q,
            y > 0,
            n.raw * u == -(x * u),
            d.raw == -y,
    ;
    assert(0 * u == 0);
    crate::arith::lemma_div_between(d.raw * q, u, n.raw as int, 0);
}

/// A product with minus one is the negative, saturated at the top of the
/// range like it.
pub proof fn lemma_minus_one(a: Fixed)
    ensures
        (Fixed { raw: -0x1_0000_0000i64 }).mul(a) == a.neg(),
        a.mul((Fixed { raw: -0x1_0000_0000i64 })) == a.neg(),
{
    reveal(Fixed::mul_spec);
    reveal(Fixed::neg_spec);
    let u = unit();
    let n = -(a.raw as int);
    assert((-u) * a.raw == n * u && a.raw * (-u) == n * u) by (nonlinear_arith)
        requires
            n == -(a.raw as int),
    ;
    vstd::arithmetic::div_mod::lemma_fundamental_div_mod_converse(n * u, u, n, 0);
}

/// Where a way from `a` up to `b` is cut at `c`, with `c` on the way short
/// of `b`, and the share is taken of the negatives, as a plane that faces
/// downward takes it, the cut as it is computed is not above `c`, and not
/// below `a`: rounding and saturation never take it across. The cut is `a +
/// (b - a) * t` with the share `t = (-c - -a) / (-b - -a)`.
pub proof fn lemma_cut_not_above(a: Fixed, b: Fixed, c: Fixed)
    requires
        a.raw <= c.raw < b.raw,
        c.raw > i64::MIN,
    ensures
        a.raw <= a.add(b.sub(a).mul(c.neg().sub(a.neg()).div(b.neg().sub(a.neg())))).raw <= c.raw,
{
    reveal(Fixed::add_spec);
    reveal(Fixed::sub_spec);
    reveal(Fixed::neg_spec);
    reveal(Fixed::mul_spec);
    reveal(Fixed::div_spec);
    let u = unit();
    let an = a.neg();
    // what saturation takes from the negative of `a`
    let e = -a.raw - an.raw;
    assert(0 <= e <= 1);
    let n = c.neg().sub(an);
    let d = b.neg().sub(an);
    assert(d.raw <= n.raw <= 0 && d.raw < 0);
    // what is left of the way, and the whole way, both counted upward
    let x = -n.raw;
    let y = -d.raw;
    assert(x <= c.raw - a.raw - e);
    let w = b.sub(a).raw as int;
    assert(0 < w <= y + e);
    assert(n.raw * u == -(x * u)) by (nonlinear_arith)
        requires
            x == -n.raw,
    ;
    assert(0 <= x * u <= y * u) by (nonlinear_arith)
        requires
            0 <= x <= y,
            u == 0x1_0000_0000,
    ;
    let q = (x * u) / y;
    vstd::arithmetic::div_mod::lemma_fundamental_div_mod(x * u, y);
    vstd::arithmetic::div_mod::lemma_mod_bound(x * u, y);
    assert(0 <= q <= u && q * y <= x * u) by (nonlinear_arith)
        requires
            0 <= x * u <= y * u,
            y > 0,
            x * u == y * q + (x * u) % y,
            0 <= (x * u) % y < y,
    ;
    assert(trunc_div(-(x * u), -y) == q);
    let t = n.div(d);
    assert(t.raw == q);
    assert(0 <= w * q <= (x + e) * u) by (nonlinear_arith)
        requires
            q * y <= x * u,
            0 <= q <= u,
            0 < w <= y + e,
            0 <= e <= 1,
    ;
    assert(0 * u == 0);
    crate::arith::lemma_div_between(w * q, u, 0, x + e);
}

/// One over a positive number does not grow with the number, and is not
/// negative.
pub proof fn lemma_inverse_order(a: Fixed, b: Fixed)
    requires
        0 < a.raw <= b.raw,
    ensures
        0 <= Fixed::one().div(b).raw <= Fixed::one().div(a).raw,
{
    reveal(Fixed::div_spec);
    let n = 0x1_0000_0000int * unit();
    assert(n == 0x1_0000_0000_0000_0000int) by (nonlinear_arith)
        requires
            n == 0x1_0000_0000int * 0x1_0000_0000int,
    ;
    vstd::arithmetic::div_mod::lemma_div_is_ordered_by_denominator(n, a.raw as int, b.raw as int);
    vstd::arithmetic::div_mod::lemma_div_pos_is_pos(n, b.raw as int);
}

/// A depth is recovered from its inverse: one over one over a positive
/// number `a` is `a` or more, and exceeds it by no more than itself times
/// `(a - 1) * 2^-64`, with `a` counted in steps of the grid. The number is
/// to be at least three steps of the grid, so that its inverse is within
/// the range of numbers.
pub proof fn lemma_inverse_twice(a: Fixed)
    requires
        a.raw >= 3,
    ensures
        a.raw <= Fixed::one().div(Fixed::one().div(a)).raw,
        (Fixed::one().div(Fixed::one().div(a)).raw - a.raw) * 0x1_0000_0000_0000_0000
            <= Fixed::one().div(Fixed::one().div(a)).raw * (a.raw - 1),
{
    reveal(Fixed::div_spec);
    let n = 0x1_0000_0000int * unit();
    let z = a.raw as int;
    assert(n == 0x1_0000_0000_0000_0000int) by (nonlinear_arith)
        requires
            n == 0x1_0000_0000int * 0x1_0000_0000int,
    ;
    let q = n / z;
    vstd::arithmetic::div_mod::lemma_fundamental_div_mod(n, z);
    vstd::arithmetic::div_mod::lemma_mod_bound(n, z);
    assert(z * q <= n && n - z + 1 <= z * q);
    assert(0 < q <= i64::MAX) by (nonlinear_arith)
        requires
            3 <= z <= 0x7fff_ffff_ffff_ffff,
            z * q <= n,
            n - z + 1 <= z * q,
            n == 0x1_0000_0000_0000_0000int,
    ;
    assert(Fixed::one().div(a).raw == q);
    let r = n / q;
    vstd::arithmetic::div_mod::lemma_fundamental_div_mod(n, q);
    vstd::arithmetic::div_mod::lemma_mod_bound(n, q);
    assert(q * r <= n && n - q + 1 <= q * r);
    assert(z <= r) by (nonlinear_arith)
        requires
            z * q <= n,
            n - q + 1 <= q * r,
            q > 0,
    ;
    let back = Fixed::one().div(Fixed::one().div(a)).raw as int;
    assert(back == saturated(r));
    assert(z <= back <= r);
    assert(r * (n - z + 1) <= z * n) by (nonlinear_arith)
        requires
            q * r <= n,
            n - z + 1 <= z * q,
            r >= 0,
            z >= 3,
    ;
    assert(back * (n - z + 1) <= r * (n - z + 1)) by (nonlinear_arith)
        requires
            back <= r,
            n - z + 1 > 0,
    ;
    assert((back - z) * n <= back * (z - 1)) by (nonlinear_arith)
        requires
            back * (n - z + 1) <= z * n,
    ;
}

/// A number mixed with another by a share from zero to one lies between the
/// two: with `a` and `b` from `lo` to `hi`, no further apart than the range
/// of numbers is wide, so does `a + (b - a) * share`.
pub proof fn lemma_mix_between(a: Fixed, b: Fixed, share: Fixed, lo: int, hi: int)
    requires
        lo <= a.raw <= hi,
        lo <= b.raw <= hi,
        hi - lo <= i64::MAX,
        0 <= share.raw <= unit(),
    ensures
        lo <= a.add(b.sub(a).mul(share)).raw <= hi,
{
    reveal(Fixed::add_spec);
    reveal(Fixed::sub_spec);
    reveal(Fixed::mul_spec);
    let u = unit();
    let d = b.raw - a.raw;
    let s = share.raw as int;
    if d >= 0 {
        assert(0 <= d * s <= d * u) by (nonlinear_arith)
            requires
                d >= 0,
                0 <= s <= u,
        ;
        assert(0 * u == 0);
        crate::arith::lemma_div_between(d * s, u, 0, d);
    } else {
        assert(d * u <= d * s <= 0) by (nonlinear_arith)
            requires
                d < 0,
                0 <= s <= u,
        ;
        assert(0 * u == 0);
        crate::arith::lemma_div_between(d * s, u, d, 0);
    }
}

} // verus!
