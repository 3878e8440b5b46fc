//! Exact rational scalars.
//!
//! Every coordinate, velocity, angle and opacity in this crate is a
//! rational number `num / den` with a positive denominator, held in
//! [`Rat`].  The mathematical value is modelled by the ghost pair
//! [`GRat`] of unbounded integers; equality and order of values are the
//! cross-multiplied relations [`rat_eq`] and [`rat_lt`].  Arithmetic is
//! exact: each operation's contract gives the result as the ghost-level
//! operation on the operands, so the isometric transform downstream has
//! an exact inverse.

use vstd::prelude::*;
use vstd::arithmetic::div_mod::{lemma_fundamental_div_mod, lemma_fundamental_div_mod_converse};
use vstd::arithmetic::mul::lemma_mul_is_distributive_add_other_way;

verus! {

/// The mathematical value of a rational: an unbounded numerator and
/// denominator.  Meaningful when `gwf` holds (denominator positive).
pub ghost struct GRat {
    pub num: int,
    pub den: int,
}

/// Well-formed ghost rational: positive denominator.
pub open spec fn gwf(a: GRat) -> bool {
    a.den > 0
}

/// The integer `n` as a rational.
pub open spec fn gint(n: int) -> GRat {
    GRat { num: n, den: 1 }
}

/// Value equality: `a.num / a.den == b.num / b.den`, cross-multiplied.
pub open spec fn rat_eq(a: GRat, b: GRat) -> bool {
    a.num * b.den == b.num * a.den
}

/// Value order: `a.num / a.den < b.num / b.den`, cross-multiplied
/// (denominators positive).
pub open spec fn rat_lt(a: GRat, b: GRat) -> bool {
    a.num * b.den < b.num * a.den
}

/// Value order, non-strict.
pub open spec fn rat_le(a: GRat, b: GRat) -> bool {
    a.num * b.den <= b.num * a.den
}

/// Exact sum.
pub open spec fn gadd(a: GRat, b: GRat) -> GRat {
    GRat { num: a.num * b.den + b.num * a.den, den: a.den * b.den }
}

/// Exact difference.
pub open spec fn gsub(a: GRat, b: GRat) -> GRat {
    GRat { num: a.num * b.den - b.num * a.den, den: a.den * b.den }
}

/// Exact product.
pub open spec fn gmul(a: GRat, b: GRat) -> GRat {
    GRat { num: a.num * b.num, den: a.den * b.den }
}

/// Exact negation.
pub open spec fn gneg(a: GRat) -> GRat {
    GRat { num: -a.num, den: a.den }
}

/// Exact absolute value.
pub open spec fn gabs(a: GRat) -> GRat {
    if a.num >= 0 {
        a
    } else {
        gneg(a)
    }
}

/// Exact quotient, keeping the denominator positive.  Meaningful when
/// `b.num != 0`.
pub open spec fn gdiv(a: GRat, b: GRat) -> GRat {
    if b.num >= 0 {
        GRat { num: a.num * b.den, den: a.den * b.num }
    } else {
        GRat { num: -(a.num * b.den), den: -(a.den * b.num) }
    }
}

/// Floor of the value (`/` on `int` rounds toward negative infinity for
/// a positive divisor).
pub open spec fn gfloor(a: GRat) -> int {
    a.num / a.den
}

/// `x` fits in an `i64`.
pub open spec fn fits_i64(x: int) -> bool {
    i64::MIN <= x <= i64::MAX
}

/// Both fields of `a` fit in an `i64`.
pub open spec fn gfits(a: GRat) -> bool {
    fits_i64(a.num) && fits_i64(a.den)
}

/// A product of two `i64`-range factors stays within `i128` range.
pub proof fn lemma_mul_i64_range(a: int, b: int)
    by (nonlinear_arith)
    requires
        i64::MIN <= a <= i64::MAX,
        i64::MIN <= b <= i64::MAX,
    ensures
        -0x40000000000000000000000000000000 <= a * b <= 0x40000000000000000000000000000000,
{
}

/// A product of an `i64`-range factor with a positive `i64`-range factor
/// is small enough that the sum of two such products stays within `i128`
/// range.
pub proof fn lemma_mul_i64_pos_range(a: int, b: int)
    by (nonlinear_arith)
    requires
        i64::MIN <= a <= i64::MAX,
        1 <= b <= i64::MAX,
    ensures
        -0x3fffffffffffffff8000000000000000 <= a * b <= 0x3fffffffffffffff8000000000000000,
{
}

/// A product of two positive `i64`-range factors is positive and within
/// `i128` range.
pub proof fn lemma_mul_pos_pos(a: int, b: int)
    by (nonlinear_arith)
    requires
        1 <= a <= i64::MAX,
        1 <= b <= i64::MAX,
    ensures
        1 <= a * b <= 0x3fffffffffffffff8000000000000000,
{
}

/// A product of a positive and a negative `i64`-range factor is negative
/// and within `i128` range.
pub proof fn lemma_mul_pos_neg(a: int, b: int)
    by (nonlinear_arith)
    requires
        1 <= a <= i64::MAX,
        i64::MIN <= b <= -1,
    ensures
        -0x40000000000000000000000000000000 <= a * b <= -1,
{
}

/// The operations keep rationals well-formed.
pub proof fn lemma_gwf_ops(a: GRat, b: GRat)
    by (nonlinear_arith)
    requires
        gwf(a),
        gwf(b),
    ensures
        gwf(gadd(a, b)),
        gwf(gsub(a, b)),
        gwf(gmul(a, b)),
        b.num != 0 ==> gwf(gdiv(a, b)),
{
}

/// Value equality is transitive over well-formed rationals.
pub proof fn lemma_rat_eq_trans(a: GRat, b: GRat, c: GRat)
    by (nonlinear_arith)
    requires
        gwf(a),
        gwf(b),
        gwf(c),
        rat_eq(a, b),
        rat_eq(b, c),
    ensures
        rat_eq(a, c),
{
}

/// Value order is transitive over well-formed rationals.
pub proof fn lemma_rat_lt_trans(a: GRat, b: GRat, c: GRat)
    by (nonlinear_arith)
    requires
        gwf(a),
        gwf(b),
        gwf(c),
        rat_lt(a, b),
        rat_lt(b, c),
    ensures
        rat_lt(a, c),
{
}

/// Non-strict value order is transitive over well-formed rationals.
pub proof fn lemma_rat_le_trans(a: GRat, b: GRat, c: GRat)
    by (nonlinear_arith)
    requires
        gwf(a),
        gwf(b),
        gwf(c),
        rat_le(a, b),
        rat_le(b, c),
    ensures
        rat_le(a, c),
{
}

/// A non-strict bound followed by a strict one is strict.
pub proof fn lemma_rat_le_lt_trans(a: GRat, b: GRat, c: GRat)
    by (nonlinear_arith)
    requires
        gwf(a),
        gwf(b),
        gwf(c),
        rat_le(a, b),
        rat_lt(b, c),
    ensures
        rat_lt(a, c),
{
}

/// A strict bound followed by a non-strict one is strict.
pub proof fn lemma_rat_lt_le_trans(a: GRat, b: GRat, c: GRat)
    by (nonlinear_arith)
    requires
        gwf(a),
        gwf(b),
        gwf(c),
        rat_lt(a, b),
        rat_le(b, c),
    ensures
        rat_lt(a, c),
{
}

/// The reciprocal reverses order on positive rationals.
pub proof fn lemma_inv_antimono(a: GRat, b: GRat)
    requires
        gwf(a),
        gwf(b),
        rat_lt(gint(0), a),
        rat_le(a, b),
    ensures
        rat_le(gdiv(gint(1), b), gdiv(gint(1), a)),
{
    lemma_rat_lt_le_trans(gint(0), a, b);
    assert(a.num > 0);
    assert(b.num > 0);
    assert((1 * b.den) * (1 * a.num) <= (1 * a.den) * (1 * b.num)) by (nonlinear_arith)
        requires
            a.num * b.den <= b.num * a.den,
    ;
}

/// Addition respects value equality.
pub proof fn lemma_add_eq_compat(a: GRat, b: GRat, c: GRat, d: GRat)
    requires
        gwf(a),
        gwf(b),
        gwf(c),
        gwf(d),
        rat_eq(a, c),
        rat_eq(b, d),
    ensures
        rat_eq(gadd(a, b), gadd(c, d)),
{
    let an = a.num;
    let ad = a.den;
    let bn = b.num;
    let bd = b.den;
    let cn = c.num;
    let cd = c.den;
    let dn = d.num;
    let dd = d.den;
    lemma_mul_is_distributive_add_other_way(cd * dd, an * bd, bn * ad);
    assert((an * bd) * (cd * dd) == (an * cd) * (bd * dd)) by (nonlinear_arith);
    assert((bn * ad) * (cd * dd) == (bn * dd) * (ad * cd)) by (nonlinear_arith);
    assert((cn * ad) * (bd * dd) == (cn * dd) * (ad * bd)) by (nonlinear_arith);
    assert((dn * bd) * (ad * cd) == (dn * cd) * (ad * bd)) by (nonlinear_arith);
    lemma_mul_is_distributive_add_other_way(ad * bd, cn * dd, dn * cd);
}

/// Multiplication respects value equality.
pub proof fn lemma_mul_eq_compat(a: GRat, b: GRat, c: GRat, d: GRat)
    requires
        gwf(a),
        gwf(b),
        gwf(c),
        gwf(d),
        rat_eq(a, c),
        rat_eq(b, d),
    ensures
        rat_eq(gmul(a, b), gmul(c, d)),
{
    assert((a.num * b.num) * (c.den * d.den) == (a.num * c.den) * (b.num * d.den))
        by (nonlinear_arith);
    assert((c.num * a.den) * (d.num * b.den) == (c.num * d.num) * (a.den * b.den))
        by (nonlinear_arith);
}

/// An exact rational scalar with a positive denominator (`wf`).
#[derive(Clone, Copy, Debug)]
pub struct Rat {
    pub num: i64,
    pub den: i64,
}

impl View for Rat {
    type V = GRat;

    open spec fn view(&self) -> GRat {
        GRat { num: self.num as int, den: self.den as int }
    }
}

impl Rat {
    /// Well-formed: positive denominator.
    pub open spec fn wf(self) -> bool {
        self.den > 0
    }

    /// `num / den`, from any non-zero denominator.
    pub fn new(num: i64, den: i64) -> (r: Rat)
        requires
            den != 0,
            num > i64::MIN,
            den > i64::MIN,
        ensures
            r.wf(),
            rat_eq(r@, (GRat { num: num as int, den: den as int })),
    {
        if den < 0 {
            let r = Rat { num: -num, den: -den };
            proof {
                assert(rat_eq(r@, (GRat { num: num as int, den: den as int })))
                    by (nonlinear_arith)
                    requires
                        r@.num == -(num as int),
                        r@.den == -(den as int),
                ;
            }
            r
        } else {
            Rat { num, den }
        }
    }

    /// The integer `n` as a rational.
    pub fn from_int(n: i64) -> (r: Rat)
        ensures
            r.wf(),
            r@ == gint(n as int),
    {
        Rat { num: n, den: 1 }
    }

    /// Exact sum.
    pub fn add(self, other: Rat) -> (r: Rat)
        requires
            self.wf(),
            other.wf(),
            gfits(gadd(self@, other@)),
        ensures
            r.wf(),
            r@ == gadd(self@, other@),
    {
        proof {
            lemma_mul_i64_pos_range(self.num as int, other.den as int);
            lemma_mul_i64_pos_range(other.num as int, self.den as int);
            lemma_mul_pos_pos(self.den as int, other.den as int);
        }
        let n: i128 = (self.num as i128) * (other.den as i128) + (other.num as i128) * (self.den
            as i128);
        let d: i128 = (self.den as i128) * (other.den as i128);
        Rat { num: n as i64, den: d as i64 }
    }

    /// Exact difference.
    pub fn sub(self, other: Rat) -> (r: Rat)
        requires
            self.wf(),
            other.wf(),
            gfits(gsub(self@, other@)),
        ensures
            r.wf(),
            r@ == gsub(self@, other@),
    {
        proof {
            lemma_mul_i64_pos_range(self.num as int, other.den as int);
            lemma_mul_i64_pos_range(other.num as int, self.den as int);
            lemma_mul_pos_pos(self.den as int, other.den as int);
        }
        let n: i128 = (self.num as i128) * (other.den as i128) - (other.num as i128) * (self.den
            as i128);
        let d: i128 = (self.den as i128) * (other.den as i128);
        Rat { num: n as i64, den: d as i64 }
    }

    /// Exact product.
    pub fn mul(self, other: Rat) -> (r: Rat)
        requires
            self.wf(),
            other.wf(),
            gfits(gmul(self@, other@)),
        ensures
            r.wf(),
            r@ == gmul(self@, other@),
    {
        proof {
            lemma_mul_i64_range(self.num as int, other.num as int);
            lemma_mul_pos_pos(self.den as int, other.den as int);
        }
        let n: i128 = (self.num as i128) * (other.num as i128);
        let d: i128 = (self.den as i128) * (other.den as i128);
        Rat { num: n as i64, den: d as i64 }
    }

    /// Exact quotient.
    pub fn div(self, other: Rat) -> (r: Rat)
        requires
            self.wf(),
            other.wf(),
            other.num != 0,
            gfits(gdiv(self@, other@)),
        ensures
            r.wf(),
            r@ == gdiv(self@, other@),
    {
        proof {
            lemma_mul_i64_pos_range(self.num as int, other.den as int);
            lemma_mul_i64_pos_range(other.num as int, self.den as int);
            if other.num >= 1 {
                lemma_mul_pos_pos(self.den as int, other.num as int);
            } else {
                lemma_mul_pos_neg(self.den as int, other.num as int);
            }
        }
        let n: i128 = (self.num as i128) * (other.den as i128);
        let d: i128 = (self.den as i128) * (other.num as i128);
        if other.num >= 0 {
            Rat { num: n as i64, den: d as i64 }
        } else {
            Rat { num: (-n) as i64, den: (-d) as i64 }
        }
    }

    /// Exact negation.
    pub fn neg(self) -> (r: Rat)
        requires
            self.wf(),
            self.num > i64::MIN,
        ensures
            r.wf(),
            r@ == gneg(self@),
    {
        Rat { num: -self.num, den: self.den }
    }

    /// Exact absolute value.
    pub fn abs(self) -> (r: Rat)
        requires
            self.wf(),
            self.num > i64::MIN,
        ensures
            r.wf(),
            r@ == gabs(self@),
    {
        if self.num >= 0 {
            self
        } else {
            Rat { num: -self.num, den: self.den }
        }
    }

    /// Exact value comparison, strict.
    pub fn lt(self, other: Rat) -> (r: bool)
        requires
            self.wf(),
            other.wf(),
        ensures
            r == rat_lt(self@, other@),
    {
        proof {
            lemma_mul_i64_pos_range(self.num as int, other.den as int);
            lemma_mul_i64_pos_range(other.num as int, self.den as int);
        }
        (self.num as i128) * (other.den as i128) < (other.num as i128) * (self.den as i128)
    }

    /// Exact value comparison, non-strict.
    pub fn le(self, other: Rat) -> (r: bool)
        requires
            self.wf(),
            other.wf(),
        ensures
            r == rat_le(self@, other@),
    {
        proof {
            lemma_mul_i64_pos_range(self.num as int, other.den as int);
            lemma_mul_i64_pos_range(other.num as int, self.den as int);
        }
        (self.num as i128) * (other.den as i128) <= (other.num as i128) * (self.den as i128)
    }

    /// Exact value equality.
    pub fn eq_rat(self, other: Rat) -> (r: bool)
        requires
            self.wf(),
            other.wf(),
        ensures
            r == rat_eq(self@, other@),
    {
        proof {
            lemma_mul_i64_pos_range(self.num as int, other.den as int);
            lemma_mul_i64_pos_range(other.num as int, self.den as int);
        }
        (self.num as i128) * (other.den as i128) == (other.num as i128) * (self.den as i128)
    }

    /// Floor of the value, as an integer.
    pub fn floor(self) -> (r: i64)
        requires
            self.wf(),
        ensures
            r == gfloor(self@),
    {
        if self.num >= 0 {
            let q: u64 = (self.num as u64) / (self.den as u64);
            proof {
                lemma_floor_nonneg(self.num as int, self.den as int);
            }
            q as i64
        } else {
            let m: u64 = (-(self.num as i128)) as u64;
            let q: u64 = m / (self.den as u64);
            let rem: u64 = m % (self.den as u64);
            proof {
                lemma_floor_neg(self.num as int, self.den as int, m as int, q as int, rem as int);
            }
            if rem == 0 {
                ((-(q as i128)) as i64)
            } else {
                ((-(q as i128) - 1) as i64)
            }
        }
    }
}

/// The integer square root of `n`: the largest `r` with `r * r <= n`.
pub open spec fn sqrt_floor(n: nat) -> nat
    decreases n,
{
    if n == 0 {
        0
    } else {
        let r = sqrt_floor((n - 1) as nat);
        if (r + 1) * (r + 1) <= n {
            (r + 1) as nat
        } else {
            r
        }
    }
}

/// `sqrt_floor` is squeezed between the neighbouring squares.
pub proof fn lemma_sqrt_floor_bounds(n: nat)
    ensures
        (sqrt_floor(n) as int) * (sqrt_floor(n) as int) <= n as int,
        (n as int) < ((sqrt_floor(n) as int) + 1) * ((sqrt_floor(n) as int) + 1),
    decreases n,
{
    if n == 0 {
        assert(sqrt_floor(n) == 0);
        assert((sqrt_floor(n) as int) * (sqrt_floor(n) as int) == 0);
    } else {
        lemma_sqrt_floor_bounds((n - 1) as nat);
        let r = sqrt_floor((n - 1) as nat) as int;
        assert(r * r <= n - 1);
        assert(n - 1 < (r + 1) * (r + 1));
        if (r + 1) * (r + 1) <= n as int {
            assert(sqrt_floor(n) == r + 1);
            assert((sqrt_floor(n) as int) * (sqrt_floor(n) as int) == (r + 1) * (r + 1));
            assert((r + 1) * (r + 1) < (r + 2) * (r + 2)) by (nonlinear_arith)
                requires
                    r >= 0,
            ;
            assert(n < (r + 2) * (r + 2));
        } else {
            assert(sqrt_floor(n) == r);
            assert((sqrt_floor(n) as int) * (sqrt_floor(n) as int) == r * r);
        }
    }
}

/// Only one integer is squeezed between the neighbouring squares.
pub proof fn lemma_sqrt_unique(n: int, a: int, b: int)
    by (nonlinear_arith)
    requires
        0 <= a,
        0 <= b,
        a * a <= n < (a + 1) * (a + 1),
        b * b <= n < (b + 1) * (b + 1),
    ensures
        a == b,
{
}

/// Computes the integer square root of `n` by bisection.
pub fn isqrt(n: u64) -> (r: u64)
    ensures
        r == sqrt_floor(n as nat),
{
    let mut lo: u64 = 0;
    let mut hi: u64 = 4294967296;
    while lo + 1 < hi
        invariant
            lo < hi <= 4294967296,
            (lo as int) * (lo as int) <= n as int,
            (n as int) < (hi as int) * (hi as int),
        decreases hi - lo,
    {
        let mid = lo + (hi - lo) / 2;
        proof {
            assert((mid as int) * (mid as int) <= 0xffffffffffffffff) by (nonlinear_arith)
                requires
                    0 <= mid as int <= 4294967295,
            ;
        }
        if mid * mid <= n {
            lo = mid;
        } else {
            hi = mid;
        }
    }
    proof {
        lemma_sqrt_floor_bounds(n as nat);
        lemma_sqrt_unique(n as int, lo as int, sqrt_floor(n as nat) as int);
    }
    lo
}

/// The square root of a non-negative rational, rounded down to a
/// thousandth: scale by a million, floor, take the integer root, and
/// scale back.  Flooring at the thousandth moves no comparison against
/// an integer bound.
pub open spec fn gsqrt_milli(a: GRat) -> GRat {
    GRat { num: sqrt_floor(gfloor(gmul(a, gint(1000000))) as nat) as int, den: 1000 }
}

/// Computes [`gsqrt_milli`] of a non-negative rational.
pub fn sqrt_milli(a: Rat) -> (r: Rat)
    requires
        a.wf(),
        rat_le(gint(0), a@),
        gfits(gmul(a@, gint(1000000))),
    ensures
        r.wf(),
        r@ == gsqrt_milli(a@),
{
    let scaled = a.mul(Rat { num: 1000000, den: 1 });
    proof {
        lemma_floor_nonneg(scaled@.num, scaled@.den);
    }
    let m = scaled.floor();
    let s = isqrt(m as u64);
    proof {
        lemma_sqrt_floor_bounds(m as nat);
        assert((s as int) < 3037000500) by (nonlinear_arith)
            requires
                (s as int) * (s as int) <= m as int,
                m as int <= 0x7fffffffffffffff,
                0 <= s as int,
        ;
    }
    Rat { num: s as i64, den: 1000 }
}

/// Unsigned division computes the floor for a non-negative numerator.
pub proof fn lemma_floor_nonneg(n: int, d: int)
    requires
        0 <= n,
        0 < d,
    ensures
        0 <= n / d <= n,
{
    lemma_fundamental_div_mod(n, d);
    assert(0 <= n / d <= n) by (nonlinear_arith)
        requires
            0 <= n,
            0 < d,
            n == d * (n / d) + n % d,
            0 <= n % d < d,
    ;
}

/// Relates the floor of a negative numerator to the unsigned quotient
/// and remainder of its magnitude.
proof fn lemma_floor_neg(n: int, d: int, m: int, q: int, rem: int)
    requires
        n < 0,
        0 < d,
        m == -n,
        q == m / d,
        rem == m % d,
    ensures
        rem == 0 ==> n / d == -q,
        rem != 0 ==> n / d == -q - 1,
        0 <= q <= m,
        rem != 0 ==> q < m,
{
    lemma_fundamental_div_mod(m, d);
    assert(0 <= q <= m && (rem != 0 ==> q < m)) by (nonlinear_arith)
        requires
            0 < m,
            0 < d,
            m == d * q + rem,
            0 <= rem < d,
    ;
    if rem == 0 {
        assert(n == d * (-q) + 0) by (nonlinear_arith)
            requires
                n == -m,
                m == d * q + rem,
                rem == 0,
        ;
        lemma_fundamental_div_mod_converse(n, d, -q, 0);
    } else {
        assert(n == d * (-q - 1) + (d - rem)) by (nonlinear_arith)
            requires
                n == -m,
                m == d * q + rem,
        ;
        lemma_fundamental_div_mod_converse(n, d, -q - 1, d - rem);
    }
}

} // verus!
