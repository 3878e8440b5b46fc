//! Isometric coordinate transforms.
//!
//! The screen transform is the classic diamond basis: a unit step in
//! grid-X maps to `(w/2, h/4)` and a unit step in grid-Y to `(-w/2, h/4)`
//! for a tile of width `w` and height `h`.  [`space_to_iso`] first
//! collapses a 3-D world point to the 2-D input of that basis by
//! subtracting Z from both X and Y, which is what makes stacked cells
//! appear shifted up-left.  All arithmetic is exact, so [`from_iso`] is a
//! true inverse of [`to_iso`]: see [`lemma_iso_round_trip`].

use vstd::prelude::*;
use vstd::arithmetic::mul::{
    lemma_mul_is_distributive_add_other_way, lemma_mul_is_distributive_sub_other_way,
    lemma_mul_unary_negation,
};
use crate::rational::{
    GRat, Rat, gwf, gint, gadd, gsub, gmul, gneg, gdiv, gfits, rat_eq, lemma_gwf_ops,
    lemma_mul_eq_compat, lemma_add_eq_compat, lemma_rat_eq_trans,
};

verus! {

/// A 2-D point or vector of exact rationals.
#[derive(Clone, Copy, Debug)]
pub struct Vec2 {
    pub x: Rat,
    pub y: Rat,
}

/// A 3-D point or vector of exact rationals.
#[derive(Clone, Copy, Debug)]
pub struct Vec3 {
    pub x: Rat,
    pub y: Rat,
    pub z: Rat,
}

/// A 2-by-2 matrix of exact rationals, in row-major order:
/// row one is `(a, b)`, row two is `(c, d)`.
#[derive(Clone, Copy, Debug)]
pub struct Mat2 {
    pub a: Rat,
    pub b: Rat,
    pub c: Rat,
    pub d: Rat,
}

impl Vec2 {
    /// Both components well-formed.
    pub open spec fn wf(self) -> bool {
        self.x.wf() && self.y.wf()
    }
}

impl Vec3 {
    /// All components well-formed.
    pub open spec fn wf(self) -> bool {
        self.x.wf() && self.y.wf() && self.z.wf()
    }
}

impl Mat2 {
    /// All entries well-formed.
    pub open spec fn wf(self) -> bool {
        self.a.wf() && self.b.wf() && self.c.wf() && self.d.wf()
    }

    /// Matrix-vector product, each component the exact linear
    /// combination of the rows with the vector.
    pub fn mul_vec2(self, v: Vec2) -> (r: Vec2)
        requires
            self.wf(),
            v.wf(),
            gfits(gmul(self.a@, v.x@)),
            gfits(gmul(self.b@, v.y@)),
            gfits(gadd(gmul(self.a@, v.x@), gmul(self.b@, v.y@))),
            gfits(gmul(self.c@, v.x@)),
            gfits(gmul(self.d@, v.y@)),
            gfits(gadd(gmul(self.c@, v.x@), gmul(self.d@, v.y@))),
        ensures
            r.wf(),
            r.x@ == gadd(gmul(self.a@, v.x@), gmul(self.b@, v.y@)),
            r.y@ == gadd(gmul(self.c@, v.x@), gmul(self.d@, v.y@)),
    {
        Vec2 { x: self.a.mul(v.x).add(self.b.mul(v.y)), y: self.c.mul(v.x).add(self.d.mul(v.y)) }
    }
}

/// Builds a 2-D vector.
pub fn vec2(x: Rat, y: Rat) -> (r: Vec2)
    ensures
        r.x == x,
        r.y == y,
{
    Vec2 { x, y }
}

/// Builds a 3-D vector.
pub fn vec3(x: Rat, y: Rat, z: Rat) -> (r: Vec3)
    ensures
        r.x == x,
        r.y == y,
        r.z == z,
{
    Vec3 { x, y, z }
}

/// Screen X of the isometric image of grid point `(x, y)` for tile
/// width `w`: `(x - y) * w/2`.
pub open spec fn giso_x(x: GRat, y: GRat, w: GRat) -> GRat {
    gmul(gsub(x, y), gdiv(w, gint(2)))
}

/// Screen Y of the isometric image of grid point `(x, y)` for tile
/// height `h`: `(x + y) * h/4`.
pub open spec fn giso_y(x: GRat, y: GRat, h: GRat) -> GRat {
    gmul(gadd(x, y), gdiv(h, gint(4)))
}

/// Grid X recovered from an isometric point `(ix, iy)`:
/// `ix/w + 2*iy/h`.
pub open spec fn ginv_x(ix: GRat, iy: GRat, w: GRat, h: GRat) -> GRat {
    gadd(gdiv(ix, w), gmul(gint(2), gdiv(iy, h)))
}

/// Grid Y recovered from an isometric point `(ix, iy)`:
/// `-ix/w + 2*iy/h`.
pub open spec fn ginv_y(ix: GRat, iy: GRat, w: GRat, h: GRat) -> GRat {
    gadd(gneg(gdiv(ix, w)), gmul(gint(2), gdiv(iy, h)))
}

/// The representations built by [`tile_matrix`] stay in `i64` range.
pub open spec fn tile_fits(w: GRat, h: GRat) -> bool {
    &&& gfits(gdiv(w, gint(2)))
    &&& gfits(gneg(gdiv(w, gint(2))))
    &&& gfits(gdiv(h, gint(4)))
}

/// The representations built by [`to_iso`] stay in `i64` range.
pub open spec fn to_iso_fits(x: GRat, y: GRat, w: GRat, h: GRat) -> bool {
    &&& tile_fits(w, h)
    &&& gfits(gmul(gdiv(w, gint(2)), x))
    &&& gfits(gmul(gneg(gdiv(w, gint(2))), y))
    &&& gfits(gadd(gmul(gdiv(w, gint(2)), x), gmul(gneg(gdiv(w, gint(2))), y)))
    &&& gfits(gmul(gdiv(h, gint(4)), x))
    &&& gfits(gmul(gdiv(h, gint(4)), y))
    &&& gfits(gadd(gmul(gdiv(h, gint(4)), x), gmul(gdiv(h, gint(4)), y)))
}

/// The diamond isometric basis for the given tile size: a unit grid-X
/// step maps to `(w/2, h/4)` and a unit grid-Y step to `(-w/2, h/4)`.
pub fn tile_matrix(tile_size: (Rat, Rat)) -> (m: Mat2)
    requires
        tile_size.0.wf(),
        tile_size.1.wf(),
        tile_fits(tile_size.0@, tile_size.1@),
    ensures
        m.wf(),
        m.a@ == gdiv(tile_size.0@, gint(2)),
        m.b@ == gneg(gdiv(tile_size.0@, gint(2))),
        m.c@ == gdiv(tile_size.1@, gint(4)),
        m.d@ == gdiv(tile_size.1@, gint(4)),
    {
        let (w, h) = tile_size;
        let two = Rat::from_int(2);
        let four = Rat::from_int(4);
        let half_w = w.div(two);
        let quarter_h = h.div(four);
        Mat2 { a: half_w, b: half_w.neg(), c: quarter_h, d: quarter_h }
    }

/// Converts a 2-D grid coordinate to its isometric screen coordinate by
/// applying the tile matrix.
pub fn to_iso(v_2d: Vec2, tile_size: (Rat, Rat)) -> (r: Vec2)
    requires
        v_2d.wf(),
        tile_size.0.wf(),
        tile_size.1.wf(),
        to_iso_fits(v_2d.x@, v_2d.y@, tile_size.0@, tile_size.1@),
    ensures
        r.wf(),
        rat_eq(r.x@, giso_x(v_2d.x@, v_2d.y@, tile_size.0@)),
        rat_eq(r.y@, giso_y(v_2d.x@, v_2d.y@, tile_size.1@)),
        r.x@ == gadd(gmul(gdiv(tile_size.0@, gint(2)), v_2d.x@),
            gmul(gneg(gdiv(tile_size.0@, gint(2))), v_2d.y@)),
        r.y@ == gadd(gmul(gdiv(tile_size.1@, gint(4)), v_2d.x@),
            gmul(gdiv(tile_size.1@, gint(4)), v_2d.y@)),
{
    let m = tile_matrix(tile_size);
    let r = m.mul_vec2(v_2d);
    proof {
        lemma_row_is_scaled_diff(v_2d.x@, v_2d.y@, gdiv(tile_size.0@, gint(2)));
        lemma_row_is_scaled_sum(v_2d.x@, v_2d.y@, gdiv(tile_size.1@, gint(4)));
    }
    r
}

/// The first matrix row applied to `(x, y)` equals `(x - y)` scaled by
/// the row entry: `m*x + (-m)*y = (x - y)*m`.
proof fn lemma_row_is_scaled_diff(x: GRat, y: GRat, m: GRat)
    requires
        gwf(x),
        gwf(y),
        gwf(m),
    ensures
        rat_eq(gadd(gmul(m, x), gmul(gneg(m), y)), gmul(gsub(x, y), m)),
{
    let xn = x.num;
    let xd = x.den;
    let yn = y.num;
    let yd = y.den;
    let mn = m.num;
    let md = m.den;
    let l = gadd(gmul(m, x), gmul(gneg(m), y));
    let r = gmul(gsub(x, y), m);
    assert(l.num == (mn * xn) * (md * yd) + ((-mn) * yn) * (md * xd));
    assert(l.den == (md * xd) * (md * yd));
    assert(r.num == (xn * yd - yn * xd) * mn);
    assert(r.den == (xd * yd) * md);
    let k1 = (xd * yd) * md;
    let k2 = (md * xd) * (md * yd);
    let a1 = (mn * xn) * (md * yd);
    let b1 = ((-mn) * yn) * (md * xd);
    lemma_mul_is_distributive_add_other_way(k1, a1, b1);
    lemma_shuffle_pos(xn, xd, yd, mn, md);
    lemma_shuffle_neg(yn, xd, yd, mn, md);
    lemma_mul_is_distributive_sub_other_way(mn, xn * yd, yn * xd);
    lemma_mul_is_distributive_sub_other_way(k2, (xn * yd) * mn, (yn * xd) * mn);
}

/// Pairwise product regrouping: the factors of `(a*b)*(c*d)` can be
/// paired as `(b*d)*(a*c)`, also under a leading negation.
proof fn lemma_swap_pairs(a: int, b: int, c: int, d: int)
    by (nonlinear_arith)
    ensures
        (a * b) * (c * d) == (b * d) * (a * c),
        ((-a) * b) * (c * d) == -((b * d) * (a * c)),
{
}

/// A shared factor moves between the two sides of a product of pairs.
proof fn lemma_scale_pairs(u: int, p: int, q: int, v: int)
    by (nonlinear_arith)
    ensures
        (u * (p * q)) * (v * q) == (u * p) * (v * (q * q)),
{
}

/// Product rearrangement used by the row lemmas.
proof fn lemma_shuffle_pos(xn: int, xd: int, yd: int, mn: int, md: int)
    ensures
        ((mn * xn) * (md * yd)) * ((xd * yd) * md) == ((xn * yd) * mn) * ((md * xd) * (md * yd)),
{
    lemma_swap_pairs(mn, xn, md, yd);
    lemma_scale_pairs(xn * yd, mn, md, xd * yd);
    lemma_swap_pairs(md, xd, md, yd);
    assert(((xn * yd) * (mn * md)) * ((xd * yd) * md) == ((xn * yd) * mn) * ((xd * yd) * (md
        * md)));
}

/// Product rearrangement used by the row lemmas, negated variant.
proof fn lemma_shuffle_neg(yn: int, xd: int, yd: int, mn: int, md: int)
    ensures
        (((-mn) * yn) * (md * xd)) * ((xd * yd) * md) == -(((yn * xd) * mn) * ((md * xd) * (md
            * yd))),
{
    lemma_swap_pairs(mn, yn, md, xd);
    lemma_mul_unary_negation((yn * xd) * (mn * md), (xd * yd) * md);
    lemma_scale_pairs(yn * xd, mn, md, xd * yd);
    lemma_swap_pairs(md, xd, md, yd);
    assert(((yn * xd) * (mn * md)) * ((xd * yd) * md) == ((yn * xd) * mn) * ((xd * yd) * (md
        * md)));
}

/// Product rearrangement used by the row lemmas, second-operand variant.
proof fn lemma_shuffle_snd(yn: int, xd: int, yd: int, mn: int, md: int)
    ensures
        ((mn * yn) * (md * xd)) * ((xd * yd) * md) == ((yn * xd) * mn) * ((md * xd) * (md * yd)),
{
    lemma_swap_pairs(mn, yn, md, xd);
    lemma_scale_pairs(yn * xd, mn, md, xd * yd);
    lemma_swap_pairs(md, xd, md, yd);
    assert(((yn * xd) * (mn * md)) * ((xd * yd) * md) == ((yn * xd) * mn) * ((xd * yd) * (md
        * md)));
}

/// The second matrix row applied to `(x, y)` equals `(x + y)` scaled by
/// the row entry: `m*x + m*y = (x + y)*m`.
proof fn lemma_row_is_scaled_sum(x: GRat, y: GRat, m: GRat)
    requires
        gwf(x),
        gwf(y),
        gwf(m),
    ensures
        rat_eq(gadd(gmul(m, x), gmul(m, y)), gmul(gadd(x, y), m)),
{
    let xn = x.num;
    let xd = x.den;
    let yn = y.num;
    let yd = y.den;
    let mn = m.num;
    let md = m.den;
    let l = gadd(gmul(m, x), gmul(m, y));
    let r = gmul(gadd(x, y), m);
    assert(l.num == (mn * xn) * (md * yd) + (mn * yn) * (md * xd));
    assert(l.den == (md * xd) * (md * yd));
    assert(r.num == (xn * yd + yn * xd) * mn);
    assert(r.den == (xd * yd) * md);
    let k1 = (xd * yd) * md;
    let k2 = (md * xd) * (md * yd);
    let a1 = (mn * xn) * (md * yd);
    let b1 = (mn * yn) * (md * xd);
    lemma_mul_is_distributive_add_other_way(k1, a1, b1);
    lemma_shuffle_pos(xn, xd, yd, mn, md);
    lemma_shuffle_snd(yn, xd, yd, mn, md);
    lemma_mul_is_distributive_add_other_way(mn, xn * yd, yn * xd);
    lemma_mul_is_distributive_add_other_way(k2, (xn * yd) * mn, (yn * xd) * mn);
}

/// Applies the tile matrix to the point `(x, y)`, returning the screen
/// coordinates as a pair.
pub fn transform_tile(x: Rat, y: Rat, tile_size: (Rat, Rat)) -> (r: (Rat, Rat))
    requires
        x.wf(),
        y.wf(),
        tile_size.0.wf(),
        tile_size.1.wf(),
        to_iso_fits(x@, y@, tile_size.0@, tile_size.1@),
    ensures
        r.0.wf(),
        r.1.wf(),
        rat_eq(r.0@, giso_x(x@, y@, tile_size.0@)),
        rat_eq(r.1@, giso_y(x@, y@, tile_size.1@)),
{
    let v = to_iso(Vec2 { x, y }, tile_size);
    (v.x, v.y)
}

/// The representations built by [`from_iso`] stay in `i64` range.
pub open spec fn from_iso_fits(ix: GRat, iy: GRat, w: GRat, h: GRat) -> bool {
    &&& gfits(gdiv(ix, w))
    &&& gfits(gneg(gdiv(ix, w)))
    &&& gfits(gdiv(iy, h))
    &&& gfits(gmul(gint(2), gdiv(iy, h)))
    &&& gfits(gadd(gdiv(ix, w), gmul(gint(2), gdiv(iy, h))))
    &&& gfits(gadd(gneg(gdiv(ix, w)), gmul(gint(2), gdiv(iy, h))))
}

/// Converts an isometric screen coordinate back to the 2-D grid
/// coordinate it came from, by applying the inverse of the tile matrix.
/// Used to turn a cursor position into grid coordinates; by
/// [`lemma_iso_round_trip`] it inverts [`to_iso`] exactly.
pub fn from_iso(v_iso: Vec2, tile_size: (Rat, Rat)) -> (r: Vec2)
    requires
        v_iso.wf(),
        tile_size.0.wf(),
        tile_size.1.wf(),
        tile_size.0.num != 0,
        tile_size.1.num != 0,
        from_iso_fits(v_iso.x@, v_iso.y@, tile_size.0@, tile_size.1@),
    ensures
        r.wf(),
        r.x@ == ginv_x(v_iso.x@, v_iso.y@, tile_size.0@, tile_size.1@),
        r.y@ == ginv_y(v_iso.x@, v_iso.y@, tile_size.0@, tile_size.1@),
{
    let (w, h) = tile_size;
    let q1 = v_iso.x.div(w);
    let q2 = Rat::from_int(2).mul(v_iso.y.div(h));
    Vec2 { x: q1.add(q2), y: q1.neg().add(q2) }
}

/// Flattens a 3-D world point to the 2-D isometric input point: for
/// each unit of Z the X and Y coordinates both move back by one, so the
/// cell lands where a ground cell below it would.
pub fn space_to_iso(space: Vec3) -> (r: Vec2)
    requires
        space.wf(),
        gfits(gsub(space.x@, space.z@)),
        gfits(gsub(space.y@, space.z@)),
    ensures
        r.wf(),
        r.x@ == gsub(space.x@, space.z@),
        r.y@ == gsub(space.y@, space.z@),
{
    Vec2 { x: space.x.sub(space.z), y: space.y.sub(space.z) }
}

/// The representations built by [`in_2d`] stay in `i64` range.
pub open spec fn in_2d_fits(pos: Vec3, w: GRat, h: GRat) -> bool {
    &&& gfits(gsub(pos.x@, pos.z@))
    &&& gfits(gsub(pos.y@, pos.z@))
    &&& to_iso_fits(gsub(pos.x@, pos.z@), gsub(pos.y@, pos.z@), w, h)
    &&& gfits(
        gadd(
            gadd(
                gmul(gdiv(w, gint(2)), gsub(pos.x@, pos.z@)),
                gmul(gneg(gdiv(w, gint(2))), gsub(pos.y@, pos.z@)),
            ),
            gdiv(w, gint(2)),
        ),
    )
    &&& gfits(
        gadd(
            gadd(
                gmul(gdiv(h, gint(4)), gsub(pos.x@, pos.z@)),
                gmul(gdiv(h, gint(4)), gsub(pos.y@, pos.z@)),
            ),
            gdiv(h, gint(2)),
        ),
    )
}

/// The centered 2-D draw position of a world point: flatten, apply
/// the tile matrix, then offset by half a tile in each direction so a
/// unit cell sits centered under its logical anchor.
pub fn in_2d(pos: Vec3, tile_size: (Rat, Rat)) -> (r: Vec2)
    requires
        pos.wf(),
        tile_size.0.wf(),
        tile_size.1.wf(),
        gfits(gdiv(tile_size.1@, gint(2))),
        in_2d_fits(pos, tile_size.0@, tile_size.1@),
    ensures
        r.wf(),
        rat_eq(
            r.x@,
            gadd(
                giso_x(gsub(pos.x@, pos.z@), gsub(pos.y@, pos.z@), tile_size.0@),
                gdiv(tile_size.0@, gint(2)),
            ),
        ),
        rat_eq(
            r.y@,
            gadd(
                giso_y(gsub(pos.x@, pos.z@), gsub(pos.y@, pos.z@), tile_size.1@),
                gdiv(tile_size.1@, gint(2)),
            ),
        ),
{
    let (w, h) = tile_size;
    let flat = space_to_iso(pos);
    let pp = to_iso(flat, tile_size);
    let two = Rat::from_int(2);
    let half_w = w.div(two);
    let half_h = h.div(two);
    let r = Vec2 { x: pp.x.add(half_w), y: pp.y.add(half_h) };
    proof {
        let fx = gsub(pos.x@, pos.z@);
        let fy = gsub(pos.y@, pos.z@);
        lemma_gwf_ops(pos.x@, pos.z@);
        lemma_gwf_ops(pos.y@, pos.z@);
        lemma_gwf_ops(tile_size.0@, gint(2));
        lemma_gwf_ops(tile_size.1@, gint(2));
        lemma_gwf_ops(tile_size.1@, gint(4));
        lemma_gwf_ops(fx, fy);
        lemma_gwf_ops(gsub(fx, fy), gdiv(tile_size.0@, gint(2)));
        lemma_gwf_ops(gadd(fx, fy), gdiv(tile_size.1@, gint(4)));
        lemma_add_eq_compat(
            pp.x@,
            gdiv(tile_size.0@, gint(2)),
            giso_x(fx, fy, tile_size.0@),
            gdiv(tile_size.0@, gint(2)),
        );
        lemma_add_eq_compat(
            pp.y@,
            gdiv(tile_size.1@, gint(2)),
            giso_y(fx, fy, tile_size.1@),
            gdiv(tile_size.1@, gint(2)),
        );
    }
    r
}

/// Dividing `s * (w/k)` by `w` gives `s / k`: the tile dimension
/// cancels out of the transform.
proof fn lemma_div_by_int_through(s: GRat, w: GRat, k: int)
    requires
        gwf(s),
        gwf(w),
        w.num != 0,
        k >= 1,
    ensures
        rat_eq(gdiv(gmul(s, gdiv(w, gint(k))), w), gdiv(s, gint(k))),
{
    let l = gdiv(gmul(s, gdiv(w, gint(k))), w);
    let r = gdiv(s, gint(k));
    assert(r.num == s.num * 1);
    assert(r.den == s.den * k);
    lemma_cancel_products(s.num, s.den, w.num, w.den, k);
    if w.num >= 0 {
        assert(l.num == (s.num * (w.num * 1)) * w.den);
        assert(l.den == (s.den * (w.den * k)) * w.num);
    } else {
        assert(l.num == -((s.num * (w.num * 1)) * w.den));
        assert(l.den == -((s.den * (w.den * k)) * w.num));
    }
}

/// The two product shapes behind [`lemma_div_by_int_through`].
#[verifier::rlimit(100)]
proof fn lemma_cancel_products(sn: int, sd: int, wn: int, wd: int, k: int)
    by (nonlinear_arith)
    ensures
        ((sn * (wn * 1)) * wd) * (sd * k) == (sn * 1) * ((sd * (wd * k)) * wn),
        (-((sn * (wn * 1)) * wd)) * (sd * k) == (sn * 1) * (-((sd * (wd * k)) * wn)),
{
}

/// Twice a quarter is a half: `2 * (t/4) = t/2`.
proof fn lemma_twice_quarter(t: GRat)
    requires
        gwf(t),
    ensures
        rat_eq(gmul(gint(2), gdiv(t, gint(4))), gdiv(t, gint(2))),
{
    let l = gmul(gint(2), gdiv(t, gint(4)));
    let r = gdiv(t, gint(2));
    assert(l.num == 2 * (t.num * 1));
    assert(l.den == 1 * (t.den * 4));
    assert((2 * (t.num * 1)) * (t.den * 2) == (t.num * 1) * (1 * (t.den * 4)))
        by (nonlinear_arith);
}

/// Averaging the difference and the sum recovers the operands:
/// `(x-y)/2 + (x+y)/2 = x` and `-((x-y)/2) + (x+y)/2 = y`.
proof fn lemma_half_diff_sum(x: GRat, y: GRat)
    requires
        gwf(x),
        gwf(y),
    ensures
        rat_eq(gadd(gdiv(gsub(x, y), gint(2)), gdiv(gadd(x, y), gint(2))), x),
        rat_eq(gadd(gneg(gdiv(gsub(x, y), gint(2))), gdiv(gadd(x, y), gint(2))), y),
{
    let sn = x.num * y.den - y.num * x.den;
    let tn = x.num * y.den + y.num * x.den;
    let d0 = x.den * y.den;
    let lx = gadd(gdiv(gsub(x, y), gint(2)), gdiv(gadd(x, y), gint(2)));
    let ly = gadd(gneg(gdiv(gsub(x, y), gint(2))), gdiv(gadd(x, y), gint(2)));
    assert(lx.num == (sn * 1) * (d0 * 2) + (tn * 1) * (d0 * 2));
    assert(lx.den == (d0 * 2) * (d0 * 2));
    assert(ly.num == ((-(sn * 1)) * (d0 * 2)) + (tn * 1) * (d0 * 2));
    assert(ly.den == (d0 * 2) * (d0 * 2));
    lemma_mul_is_distributive_add_other_way(d0 * 2, sn * 1, tn * 1);
    lemma_mul_is_distributive_add_other_way(d0 * 2, -(sn * 1), tn * 1);
    assert(lx.num == (sn + tn) * (d0 * 2));
    assert(ly.num == (tn - sn) * (d0 * 2));
    lemma_half_products(x.num, x.den, y.num, y.den);
    assert(sn + tn == 2 * (x.num * y.den));
    assert(tn - sn == 2 * (y.num * x.den));
}

/// The two product shapes behind [`lemma_half_diff_sum`].
#[verifier::rlimit(100)]
proof fn lemma_half_products(xn: int, xd: int, yn: int, yd: int)
    by (nonlinear_arith)
    ensures
        ((2 * (xn * yd)) * ((xd * yd) * 2)) * xd == xn * (((xd * yd) * 2) * ((xd * yd) * 2)),
        ((2 * (yn * xd)) * ((xd * yd) * 2)) * yd == yn * (((xd * yd) * 2) * ((xd * yd) * 2)),
{
}

/// Negation respects value equality.
proof fn lemma_neg_eq_compat(a: GRat, b: GRat)
    requires
        gwf(a),
        gwf(b),
        rat_eq(a, b),
    ensures
        rat_eq(gneg(a), gneg(b)),
{
    lemma_mul_unary_negation(a.num, b.den);
    lemma_mul_unary_negation(b.num, a.den);
}

/// The inverse transform undoes the forward transform exactly: for any
/// grid point `(x, y)` and any tile size with non-zero width and
/// height, feeding the isometric image of the point back through the
/// inverse basis recovers the point, as exact rational values.  The
/// flattening step is excluded: it is lossy by design, since world
/// points sharing `(x-z, y-z)` land on the same screen point.
pub proof fn lemma_iso_round_trip(x: GRat, y: GRat, w: GRat, h: GRat)
    requires
        gwf(x),
        gwf(y),
        gwf(w),
        gwf(h),
        w.num != 0,
        h.num != 0,
    ensures
        rat_eq(ginv_x(giso_x(x, y, w), giso_y(x, y, h), w, h), x),
        rat_eq(ginv_y(giso_x(x, y, w), giso_y(x, y, h), w, h), y),
{
    let s = gsub(x, y);
    let t = gadd(x, y);
    let ix = giso_x(x, y, w);
    let iy = giso_y(x, y, h);
    lemma_gwf_ops(x, y);
    lemma_gwf_ops(w, gint(2));
    lemma_gwf_ops(h, gint(4));
    lemma_gwf_ops(s, gdiv(w, gint(2)));
    lemma_gwf_ops(t, gdiv(h, gint(4)));
    lemma_gwf_ops(ix, w);
    lemma_gwf_ops(iy, h);
    lemma_gwf_ops(s, gint(2));
    lemma_gwf_ops(t, gint(4));
    lemma_gwf_ops(t, gint(2));
    let a = gdiv(ix, w);
    let a2 = gdiv(s, gint(2));
    let c = gdiv(iy, h);
    let c2 = gdiv(t, gint(4));
    lemma_div_by_int_through(s, w, 2);
    lemma_div_by_int_through(t, h, 4);
    let b = gmul(gint(2), c);
    let b2 = gdiv(t, gint(2));
    lemma_gwf_ops(gint(2), c);
    lemma_gwf_ops(gint(2), c2);
    lemma_mul_eq_compat(gint(2), c, gint(2), c2);
    lemma_twice_quarter(t);
    lemma_rat_eq_trans(b, gmul(gint(2), c2), b2);
    lemma_half_diff_sum(x, y);
    lemma_gwf_ops(a, b);
    lemma_gwf_ops(a2, b2);
    lemma_add_eq_compat(a, b, a2, b2);
    lemma_rat_eq_trans(gadd(a, b), gadd(a2, b2), x);
    lemma_neg_eq_compat(a, a2);
    lemma_gwf_ops(gneg(a), b);
    lemma_gwf_ops(gneg(a2), b2);
    lemma_add_eq_compat(gneg(a), b, gneg(a2), b2);
    lemma_rat_eq_trans(gadd(gneg(a), b), gadd(gneg(a2), b2), y);
}

} // verus!
