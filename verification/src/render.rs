//! Depth ordering and the visibility/shading rules.
//!
//! Draw order is the painter's algorithm over the scalar key
//! `x + y + z`: summing the world coordinates approximates distance
//! along the isometric view axis, so lower keys are drawn first
//! (further back).  The per-block shading rules — occlusion scan,
//! behind-player flag, distance fade and the vertical render-distance
//! cull — are computed here as pure draw parameters; an external
//! renderer consumes them in sorted order.

use vstd::prelude::*;
use core::cmp::Ordering;
use crate::rational::{
    GRat, Rat, gwf, gint, gadd, gsub, gmul, gdiv, gabs, gfits, rat_eq, rat_lt, rat_le,
    lemma_gwf_ops, lemma_rat_lt_trans, lemma_rat_eq_trans, lemma_rat_le_lt_trans,
    lemma_rat_le_trans, lemma_inv_antimono, gsqrt_milli, sqrt_milli,
};
use crate::math::{Vec2, Vec3, space_to_iso};
use crate::world::{World, WIDTH, HEIGHT, in_bounds};
use crate::objects::{Player, Block, PlayerOrient, Positionable};

verus! {

/// The painter's-algorithm depth key of a world position: the sum of
/// its coordinates.
pub open spec fn depth_key(p: Vec3) -> GRat {
    gadd(gadd(p.x@, p.y@), p.z@)
}

/// The representations built while summing a depth key stay in `i64`
/// range.
pub open spec fn depth_key_fits(p: Vec3) -> bool {
    gfits(gadd(p.x@, p.y@)) && gfits(gadd(gadd(p.x@, p.y@), p.z@))
}

/// Compares two world positions by depth key: the position with the
/// smaller coordinate sum is drawn first (further back).
pub fn cmp_tiles(lhs: Vec3, rhs: Vec3) -> (r: Ordering)
    requires
        lhs.wf(),
        rhs.wf(),
        depth_key_fits(lhs),
        depth_key_fits(rhs),
    ensures
        (r == Ordering::Less) == rat_lt(depth_key(lhs), depth_key(rhs)),
        (r == Ordering::Greater) == rat_lt(depth_key(rhs), depth_key(lhs)),
        (r == Ordering::Equal) == rat_eq(depth_key(lhs), depth_key(rhs)),
{
    let a = lhs.x.add(lhs.y).add(lhs.z);
    let b = rhs.x.add(rhs.y).add(rhs.z);
    if a.lt(b) {
        Ordering::Less
    } else if b.lt(a) {
        Ordering::Greater
    } else {
        Ordering::Equal
    }
}

/// Well-formedness of a depth key.
pub proof fn lemma_depth_key_wf(p: Vec3)
    requires
        p.wf(),
    ensures
        gwf(depth_key(p)),
{
    lemma_gwf_ops(p.x@, p.y@);
    lemma_gwf_ops(gadd(p.x@, p.y@), p.z@);
}

/// The depth order is a strict weak ordering.  Irreflexivity and
/// trichotomy: no position sorts below itself, and two positions are
/// ordered one way, the other way, or have equal keys — exactly one
/// of the three.
pub proof fn lemma_depth_order_trichotomy(a: Vec3, b: Vec3)
    requires
        a.wf(),
        b.wf(),
    ensures
        !rat_lt(depth_key(a), depth_key(a)),
        rat_lt(depth_key(a), depth_key(b)) || rat_lt(depth_key(b), depth_key(a)) || rat_eq(
            depth_key(a),
            depth_key(b),
        ),
        rat_lt(depth_key(a), depth_key(b)) ==> !rat_lt(depth_key(b), depth_key(a)) && !rat_eq(
            depth_key(a),
            depth_key(b),
        ),
        rat_eq(depth_key(a), depth_key(b)) ==> !rat_lt(depth_key(a), depth_key(b)) && !rat_lt(
            depth_key(b),
            depth_key(a),
        ),
{
}

/// The depth order is a strict weak ordering.  Transitivity of the
/// order and of key equality, and equal keys order alike against any
/// third position.
pub proof fn lemma_depth_order_transitive(a: Vec3, b: Vec3, c: Vec3)
    requires
        a.wf(),
        b.wf(),
        c.wf(),
    ensures
        rat_lt(depth_key(a), depth_key(b)) && rat_lt(depth_key(b), depth_key(c)) ==> rat_lt(
            depth_key(a),
            depth_key(c),
        ),
        rat_eq(depth_key(a), depth_key(b)) && rat_eq(depth_key(b), depth_key(c)) ==> rat_eq(
            depth_key(a),
            depth_key(c),
        ),
{
    lemma_depth_key_wf(a);
    lemma_depth_key_wf(b);
    lemma_depth_key_wf(c);
    if rat_lt(depth_key(a), depth_key(b)) && rat_lt(depth_key(b), depth_key(c)) {
        lemma_rat_lt_trans(depth_key(a), depth_key(b), depth_key(c));
    }
    if rat_eq(depth_key(a), depth_key(b)) && rat_eq(depth_key(b), depth_key(c)) {
        lemma_rat_eq_trans(depth_key(a), depth_key(b), depth_key(c));
    }
}

/// The opacity the distance-fade policy assigns to a block at
/// distance `d` from the player: fully opaque when close, then three
/// quantized steps, then the asymptotic fade `1/d`, never reaching
/// zero.
pub open spec fn fade_spec(d: GRat) -> GRat {
    if rat_lt(d, gint(4)) {
        GRat { num: 1, den: 1 }
    } else if rat_lt(d, gint(5)) {
        GRat { num: 4, den: 5 }
    } else if rat_lt(d, gint(6)) {
        GRat { num: 3, den: 10 }
    } else if rat_lt(d, gint(8)) {
        GRat { num: 1, den: 10 }
    } else {
        gdiv(gint(1), d)
    }
}

/// Computes the distance-fade opacity for the flattened-screen
/// distance `dist`: 1 below distance 4, then 0.8, 0.3 and 0.1 up to
/// distance 8, and `1/dist` beyond.
pub fn fade_opacity(dist: Rat) -> (r: Rat)
    requires
        dist.wf(),
    ensures
        r.wf(),
        r@ == fade_spec(dist@),
{
    if dist.lt(Rat { num: 4, den: 1 }) {
        Rat { num: 1, den: 1 }
    } else if dist.lt(Rat { num: 5, den: 1 }) {
        Rat { num: 4, den: 5 }
    } else if dist.lt(Rat { num: 6, den: 1 }) {
        Rat { num: 3, den: 10 }
    } else if dist.lt(Rat { num: 8, den: 1 }) {
        Rat { num: 1, den: 10 }
    } else {
        Rat::from_int(1).div(dist)
    }
}

/// Distance fade is monotonically non-increasing: a block further
/// away is never more opaque than a nearer one.  The one documented
/// exception is excluded by precondition: just past distance 8 the
/// policy switches from the quantized floor 0.1 to the asymptotic
/// `1/d`, which momentarily rises to 1/8, so a pair with `d1 < 8` and
/// `8 <= d2 < 10` is left out.
pub proof fn lemma_fade_monotonic(d1: GRat, d2: GRat)
    requires
        gwf(d1),
        gwf(d2),
        rat_le(d1, d2),
        !(rat_lt(d1, gint(8)) && rat_le(gint(8), d2) && rat_lt(d2, gint(10))),
    ensures
        rat_le(fade_spec(d2), fade_spec(d1)),
{
    if rat_lt(d2, gint(4)) {
        lemma_rat_le_lt_trans(d1, d2, gint(4));
    } else if rat_lt(d2, gint(5)) {
        lemma_rat_le_lt_trans(d1, d2, gint(5));
    } else if rat_lt(d2, gint(6)) {
        lemma_rat_le_lt_trans(d1, d2, gint(6));
    } else if rat_lt(d2, gint(8)) {
        lemma_rat_le_lt_trans(d1, d2, gint(8));
    } else {
        assert(d2.num > 0);
        if rat_lt(d1, gint(8)) {
            assert(rat_le(gint(10), d2));
            assert(rat_le(gdiv(gint(1), d2), (GRat { num: 1, den: 10 })));
            assert(rat_le((GRat { num: 1, den: 10 }), fade_spec(d1)));
            lemma_rat_le_trans(gdiv(gint(1), d2), (GRat { num: 1, den: 10 }), fade_spec(d1));
        } else {
            assert(rat_lt(gint(0), d1));
            lemma_inv_antimono(d1, d2);
        }
    }
}

/// The flattened screen X of a world point: `x - z`.
pub open spec fn flat_x(p: Vec3) -> GRat {
    gsub(p.x@, p.z@)
}

/// The flattened screen Y of a world point: `y - z`.
pub open spec fn flat_y(p: Vec3) -> GRat {
    gsub(p.y@, p.z@)
}

/// Squared flattened-screen distance between two world points.
pub open spec fn screen_dist_sq(a: Vec3, b: Vec3) -> GRat {
    gadd(
        gmul(gsub(flat_x(a), flat_x(b)), gsub(flat_x(a), flat_x(b))),
        gmul(gsub(flat_y(a), flat_y(b)), gsub(flat_y(a), flat_y(b))),
    )
}

/// The flattened-screen distance, to a thousandth: the milli-precision
/// square root of the squared distance.  The distance itself is
/// irrational in general; flooring at the thousandth changes no
/// comparison against the integer fade breakpoints.
pub open spec fn dist_approx(d2: GRat) -> GRat {
    gsqrt_milli(d2)
}

/// Computes [`dist_approx`] of a non-negative squared distance.
fn dist_milli(d2: Rat) -> (r: Rat)
    requires
        d2.wf(),
        rat_le(gint(0), d2@),
        gfits(gmul(d2@, gint(1000000))),
    ensures
        r.wf(),
        r@ == dist_approx(d2@),
{
    sqrt_milli(d2)
}

/// Scans up to eight cells straight up from `(x, y, z)`, starting at
/// offset `k`, and yields the first non-empty id found; `0` when the
/// scan window is empty or leaves the world.
pub open spec fn scan_above_from(w: World, x: int, y: int, z: int, k: int) -> u8
    decreases 9 - k,
{
    if k > 8 || k < 1 {
        0
    } else if z + k >= HEIGHT {
        0
    } else if w.block_at(x, y, z + k) != 0 {
        w.block_at(x, y, z + k)
    } else {
        scan_above_from(w, x, y, z, k + 1)
    }
}

/// Scans upward from the cell `(x, y, z)` for the nearest block within
/// eight cells, for the shade-overlay decision.  Yields `0` when
/// nothing is stacked above within the window.
pub fn scan_above(world: &World, x: usize, y: usize, z: usize) -> (top: u8)
    requires
        world.wf(),
        x < WIDTH,
        y < WIDTH,
        z < HEIGHT,
    ensures
        top == scan_above_from(*world, x as int, y as int, z as int, 1),
{
    let mut k: usize = 1;
    while k <= 8
        invariant
            1 <= k <= 9,
            world.wf(),
            x < WIDTH,
            y < WIDTH,
            z < HEIGHT,
            scan_above_from(*world, x as int, y as int, z as int, 1) == scan_above_from(
                *world,
                x as int,
                y as int,
                z as int,
                k as int,
            ),
        decreases 9 - k,
    {
        if z + k >= HEIGHT {
            return 0;
        }
        let b = world.get_block(x, y, z + k);
        if b != 0 {
            return b;
        }
        k = k + 1;
    }
    0
}

/// The read-only per-frame snapshot that shading consults: the
/// player's position and the set of block ids treated as transparent
/// (casting no shade).
pub struct ViewState {
    pub player_pos: Vec3,
    pub trans: Vec<u32>,
}

/// One draw command, in world-independent terms: what the external
/// renderer needs to place and shade one object.
pub enum DrawCmd {
    /// The object is outside the vertical render window: draw nothing.
    Skip,
    /// A block tile at flattened position `iso`, with its shading
    /// parameters.
    Tile {
        iso: Vec2,
        block_id: u8,
        behind: bool,
        top_id: u8,
        shadow: bool,
        opacity: Rat,
        dist: Rat,
    },
    /// The avatar sprite at flattened position `iso`, keyed by facing.
    Sprite { iso: Vec2, orient: PlayerOrient },
}

/// The render/visibility computation both object kinds expose: a pure
/// function from the world snapshot to a draw command.
pub trait Renderble: Positionable {
    /// What the computation needs of the snapshot.
    spec fn render_req(&self, world: World, view: ViewState) -> bool;

    /// How the draw command relates to the object and the snapshot.
    spec fn render_ok(&self, world: World, view: ViewState, r: DrawCmd) -> bool;

    /// Computes this object's draw command for the given snapshot.
    fn render(&self, world: &World, view: &ViewState) -> (r: DrawCmd)
        requires
            self.render_req(*world, *view),
        ensures
            self.render_ok(*world, *view, r),
    ;
}

/// Everything the block shading pipeline needs of the snapshot: the
/// block sits on an in-range integer cell, and every intermediate
/// rational representation stays in `i64` range.
pub open spec fn block_render_req(b: Block, world: World, view: ViewState) -> bool {
    &&& world.wf()
    &&& b.pos.wf()
    &&& view.player_pos.wf()
    &&& b.pos.x@.den == 1
    &&& b.pos.y@.den == 1
    &&& b.pos.z@.den == 1
    &&& in_bounds(b.pos.x@.num, b.pos.y@.num, b.pos.z@.num)
    &&& gfits(gsub(b.pos.z@, view.player_pos.z@))
    &&& gsub(b.pos.z@, view.player_pos.z@).num > i64::MIN
    &&& gfits(flat_x(view.player_pos))
    &&& gfits(flat_y(view.player_pos))
    &&& gfits(gsub(flat_x(view.player_pos), flat_x(b.pos)))
    &&& gfits(gsub(flat_y(view.player_pos), flat_y(b.pos)))
    &&& gfits(
        gmul(
            gsub(flat_x(view.player_pos), flat_x(b.pos)),
            gsub(flat_x(view.player_pos), flat_x(b.pos)),
        ),
    )
    &&& gfits(
        gmul(
            gsub(flat_y(view.player_pos), flat_y(b.pos)),
            gsub(flat_y(view.player_pos), flat_y(b.pos)),
        ),
    )
    &&& gfits(screen_dist_sq(view.player_pos, b.pos))
    &&& gfits(gmul(screen_dist_sq(view.player_pos, b.pos), gint(1000000)))
}

/// The draw command a block yields: skipped when more than eight
/// cells above or below the player, otherwise a tile at the block's
/// flattened position carrying the behind-player flag, the id found
/// by the upward scan, the shade-overlay decision, and the
/// distance-fade opacity.
pub open spec fn block_render_ok(b: Block, world: World, view: ViewState, r: DrawCmd) -> bool {
    if rat_lt(gint(8), gabs(gsub(b.pos.z@, view.player_pos.z@))) {
        r == DrawCmd::Skip
    } else {
        match r {
            DrawCmd::Tile { iso, block_id, behind, top_id, shadow, opacity, dist } => {
                let d = dist_approx(screen_dist_sq(view.player_pos, b.pos));
                &&& iso.x@ == flat_x(b.pos)
                &&& iso.y@ == flat_y(b.pos)
                &&& block_id == b.block_id
                &&& behind == (rat_lt(flat_x(view.player_pos), gsub(b.pos.x@, gint(1))) && rat_lt(
                    flat_y(view.player_pos),
                    gsub(b.pos.y@, gint(1)),
                ))
                &&& top_id == scan_above_from(
                    world,
                    b.pos.x@.num,
                    b.pos.y@.num,
                    b.pos.z@.num,
                    1,
                )
                &&& dist@ == d
                &&& opacity@ == fade_spec(d)
                &&& shadow == (top_id != 0 && rat_lt(d, gint(5)) && !view.trans@.contains(
                    top_id as u32,
                ))
            },
            _ => false,
        }
    }
}

/// A square is never negative.
proof fn lemma_square_nonneg(a: GRat)
    requires
        gwf(a),
    ensures
        rat_le(gint(0), gmul(a, a)),
        gwf(gmul(a, a)),
    decreases 0int,
{
    assert(0 * (a.den * a.den) <= (a.num * a.num) * 1 && a.den * a.den > 0) by (nonlinear_arith)
        requires
            a.den > 0,
    ;
}

/// A sum of non-negative rationals is non-negative.
proof fn lemma_nonneg_add(a: GRat, b: GRat)
    by (nonlinear_arith)
    requires
        gwf(a),
        gwf(b),
        rat_le(gint(0), a),
        rat_le(gint(0), b),
    ensures
        rat_le(gint(0), gadd(a, b)),
{
}

/// Whether the transparent set holds the id `t`.
fn contains_u32(v: &Vec<u32>, t: u32) -> (r: bool)
    ensures
        r == v@.contains(t),
{
    let mut i: usize = 0;
    while i < v.len()
        invariant
            i <= v@.len(),
            forall|j: int| 0 <= j < i ==> v@[j] != t,
        decreases v@.len() - i,
    {
        if v[i] == t {
            return true;
        }
        i = i + 1;
    }
    assert(!v@.contains(t));
    false
}

impl Renderble for Block {
    open spec fn render_req(&self, world: World, view: ViewState) -> bool {
        block_render_req(*self, world, view)
    }

    open spec fn render_ok(&self, world: World, view: ViewState, r: DrawCmd) -> bool {
        block_render_ok(*self, world, view, r)
    }

    fn render(&self, world: &World, view: &ViewState) -> (r: DrawCmd) {
        let dz = self.pos.z.sub(view.player_pos.z);
        if Rat::from_int(8).lt(dz.abs()) {
            return DrawCmd::Skip;
        }
        let pf = space_to_iso(view.player_pos);
        let bf = space_to_iso(self.pos);
        let dx = pf.x.sub(bf.x);
        let dy = pf.y.sub(bf.y);
        proof {
            lemma_square_nonneg(dx@);
            lemma_square_nonneg(dy@);
            lemma_nonneg_add(gmul(dx@, dx@), gmul(dy@, dy@));
        }
        let d2 = dx.mul(dx).add(dy.mul(dy));
        let dist = dist_milli(d2);
        let opacity = fade_opacity(dist);
        let cx = self.pos.x.num as usize;
        let cy = self.pos.y.num as usize;
        let cz = self.pos.z.num as usize;
        let top = scan_above(world, cx, cy, cz);
        let one = Rat::from_int(1);
        let behind = pf.x.lt(self.pos.x.sub(one)) && pf.y.lt(self.pos.y.sub(one));
        let shadow = top != 0 && dist.lt(Rat::from_int(5)) && !contains_u32(
            &view.trans,
            top as u32,
        );
        DrawCmd::Tile {
            iso: bf,
            block_id: self.block_id,
            behind,
            top_id: top,
            shadow,
            opacity,
            dist,
        }
    }
}

impl Renderble for Player {
    open spec fn render_req(&self, world: World, view: ViewState) -> bool {
        &&& self.pos.wf()
        &&& gfits(flat_x(self.pos))
        &&& gfits(flat_y(self.pos))
    }

    open spec fn render_ok(&self, world: World, view: ViewState, r: DrawCmd) -> bool {
        match r {
            DrawCmd::Sprite { iso, orient } => {
                &&& iso.x@ == flat_x(self.pos)
                &&& iso.y@ == flat_y(self.pos)
                &&& orient == self.orient
            },
            _ => false,
        }
    }

    fn render(&self, world: &World, view: &ViewState) -> (r: DrawCmd) {
        let iso = space_to_iso(self.pos);
        DrawCmd::Sprite { iso, orient: self.orient }
    }
}

/// One entry of the draw queue: the avatar or a block tile.
pub enum DrawItem {
    Avatar(Player),
    Tile(Block),
}

/// The world position an entry is sorted by.
pub open spec fn item_pos(it: DrawItem) -> Vec3 {
    match it {
        DrawItem::Avatar(p) => p.pos,
        DrawItem::Tile(b) => b.pos,
    }
}

/// An entry the sort can handle: well-formed position whose depth key
/// stays in `i64` range.
pub open spec fn item_ok(it: DrawItem) -> bool {
    item_pos(it).wf() && depth_key_fits(item_pos(it))
}

/// The queue is in painter's order: depth keys never decrease.
pub open spec fn queue_sorted(s: Seq<DrawItem>) -> bool {
    forall|i: int, j: int|
        0 <= i < j < s.len() ==> rat_le(
            depth_key(item_pos(s[i])),
            depth_key(item_pos(s[j])),
        )
}

/// Non-strict depth-key order on queue entries.
pub open spec fn depth_le_key(a: DrawItem, b: DrawItem) -> bool {
    rat_le(depth_key(item_pos(a)), depth_key(item_pos(b)))
}

/// Places `e` into the queue `t` directly after every leading entry
/// whose key is at most `e`'s: the insertion step of a stable sort.
pub open spec fn place_after_ties(t: Seq<DrawItem>, e: DrawItem) -> Seq<DrawItem>
    decreases t.len(),
{
    if t.len() == 0 {
        seq![e]
    } else if depth_le_key(t[0], e) {
        seq![t[0]] + place_after_ties(t.drop_first(), e)
    } else {
        seq![e] + t
    }
}

/// The stable painter's-order sort of a queue: entries are placed one
/// by one, each behind every earlier entry with an equal or smaller
/// key, so entries with equal keys keep their arrival order.
pub open spec fn depth_sorted_queue(s: Seq<DrawItem>) -> Seq<DrawItem>
    decreases s.len(),
{
    if s.len() == 0 {
        s
    } else {
        place_after_ties(depth_sorted_queue(s.drop_last()), s.last())
    }
}

/// Placing after the ties lands at the first position whose entry
/// orders strictly above the new one.
proof fn lemma_place_at_position(t: Seq<DrawItem>, e: DrawItem, p: int)
    requires
        0 <= p <= t.len(),
        forall|k: int| 0 <= k < p ==> depth_le_key(#[trigger] t[k], e),
        p < t.len() ==> !depth_le_key(t[p], e),
    ensures
        place_after_ties(t, e) == t.insert(p, e),
    decreases p,
{
    if p == 0 {
        if t.len() == 0 {
            assert(place_after_ties(t, e) =~= t.insert(0, e));
        } else {
            assert(place_after_ties(t, e) =~= t.insert(0, e));
        }
    } else {
        assert(depth_le_key(t[0], e));
        lemma_place_at_position(t.drop_first(), e, p - 1);
        assert(seq![t[0]] + t.drop_first().insert(p - 1, e) =~= t.insert(p, e));
    }
}

/// Compares two queue entries by depth key, non-strictly.
fn depth_le_item(a: &DrawItem, b: &DrawItem) -> (r: bool)
    requires
        item_ok(*a),
        item_ok(*b),
    ensures
        r == rat_le(depth_key(item_pos(*a)), depth_key(item_pos(*b))),
{
    let pa = match a {
        DrawItem::Avatar(p) => p.pos,
        DrawItem::Tile(b) => b.pos,
    };
    let pb = match b {
        DrawItem::Avatar(p) => p.pos,
        DrawItem::Tile(b) => b.pos,
    };
    let ka = pa.x.add(pa.y).add(pa.z);
    let kb = pb.x.add(pb.y).add(pb.z);
    ka.le(kb)
}

/// Sorts the draw queue back-to-front by the painter's key, keeping
/// exactly the same entries (as a multiset).  Insertion keeps equal
/// keys in their arrival order.
pub fn sort_draw_queue(q: &mut Vec<DrawItem>)
    requires
        forall|i: int| 0 <= i < old(q)@.len() ==> item_ok(#[trigger] old(q)@[i]),
    ensures
        final(q)@.to_multiset() == old(q)@.to_multiset(),
        final(q)@.len() == old(q)@.len(),
        queue_sorted(final(q)@),
        final(q)@ == depth_sorted_queue(old(q)@),
{
    broadcast use vstd::seq_lib::group_to_multiset_ensures;

    let ghost n = old(q)@.len() as int;
    if q.len() == 0 {
        return ;
    }
    proof {
        assert(q@.subrange(0, 1) =~= depth_sorted_queue(old(q)@.subrange(0, 1))) by {
            let s1 = old(q)@.subrange(0, 1);
            let t = s1.drop_last();
            assert(t.len() == 0);
            assert(depth_sorted_queue(t) == t);
            assert(depth_sorted_queue(s1) == place_after_ties(t, s1.last()));
            assert(place_after_ties(t, s1.last()) =~= seq![s1.last()]);
            assert(s1.last() == old(q)@[0]);
        }
        assert(q@.subrange(1, n) =~= old(q)@.subrange(1, n));
    }
    let mut i: usize = 1;
    while i < q.len()
        invariant
            1 <= i,
            i <= q@.len(),
            q@.to_multiset() == old(q)@.to_multiset(),
            q@.len() == old(q)@.len(),
            n == old(q)@.len(),
            forall|k: int| 0 <= k < q@.len() ==> item_ok(#[trigger] q@[k]),
            forall|a: int, b: int|
                0 <= a < b < i && b < q@.len() ==> rat_le(
                    depth_key(item_pos(q@[a])),
                    depth_key(item_pos(q@[b])),
                ),
            q@.subrange(0, i as int) == depth_sorted_queue(old(q)@.subrange(0, i as int)),
            q@.subrange(i as int, n) == old(q)@.subrange(i as int, n),
        decreases q@.len() - i,
    {
        let mut p: usize = 0;
        while p < i && depth_le_item(&q[p], &q[i])
            invariant
                p <= i,
                i < q@.len(),
                forall|k: int| 0 <= k < q@.len() ==> item_ok(#[trigger] q@[k]),
                forall|k: int|
                    0 <= k < p ==> rat_le(
                        depth_key(item_pos(q@[k])),
                        depth_key(item_pos(q@[i as int])),
                    ),
            decreases i - p,
        {
            p = p + 1;
        }
        let ghost prev = q@;
        let it = q.remove(i);
        q.insert(p, it);
        proof {
            vstd::seq_lib::to_multiset_remove(prev, i as int);
            vstd::seq_lib::to_multiset_insert(prev.remove(i as int), p as int, it);
            assert(q@.to_multiset() == old(q)@.to_multiset()) by {
                prev.to_multiset_ensures();
                assert(prev.contains(it)) by {
                    assert(prev[i as int] == it);
                }
                assert(prev.to_multiset().count(it) > 0);
                assert(prev.to_multiset().remove(it).insert(it) =~= prev.to_multiset());
            }
            let s2 = q@;
            assert forall|a: int, b: int|
                0 <= a < b < i + 1 && b < s2.len() implies rat_le(
                depth_key(item_pos(s2[a])),
                depth_key(item_pos(s2[b])),
            ) by {
                lemma_insert_position(prev, s2, i as int, p as int, a, b);
            }
            // The prefix one longer is exactly the stable placement of
            // the next arrival into the sorted prefix.
            assert(it == old(q)@[i as int]) by {
                assert(prev.subrange(i as int, n)[0] == prev[i as int]);
                assert(old(q)@.subrange(i as int, n)[0] == old(q)@[i as int]);
            }
            assert(forall|k: int| 0 <= k < p ==> s2[k] == prev[k]);
            assert(s2[p as int] == prev[i as int]);
            assert(forall|k: int| p < k <= i ==> s2[k] == prev[k - 1]);
            assert(forall|k: int| i < k < n ==> s2[k] == prev[k]);
            assert(s2.subrange(0, i as int + 1) =~= prev.subrange(0, i as int).insert(
                p as int,
                it,
            ));
            lemma_place_at_position(prev.subrange(0, i as int), it, p as int);
            assert(old(q)@.subrange(0, i as int + 1).drop_last() =~= old(q)@.subrange(
                0,
                i as int,
            ));
            assert(old(q)@.subrange(0, i as int + 1).last() == old(q)@[i as int]);
            assert(s2.subrange(0, i as int + 1) == depth_sorted_queue(
                old(q)@.subrange(0, i as int + 1),
            ));
            assert(s2.subrange(i as int + 1, n) =~= prev.subrange(i as int + 1, n));
            assert(prev.subrange(i as int + 1, n) =~= old(q)@.subrange(i as int + 1, n)) by {
                assert forall|k: int| 0 <= k < n - i - 1 implies #[trigger] prev.subrange(
                    i as int + 1,
                    n,
                )[k] == old(q)@.subrange(i as int + 1, n)[k] by {
                    assert(prev.subrange(i as int, n)[k + 1] == prev[i + 1 + k]);
                    assert(old(q)@.subrange(i as int, n)[k + 1] == old(q)@[i + 1 + k]);
                }
            }
        }
        i = i + 1;
    }
    proof {
        assert(q@ =~= q@.subrange(0, n));
        assert(old(q)@ =~= old(q)@.subrange(0, n));
    }
}

/// After one insertion-sort step — removing the entry at `i` from a
/// queue whose prefix up to `i` is sorted and re-inserting it at its
/// position `p` — the prefix one longer is sorted.
proof fn lemma_insert_position(prev: Seq<DrawItem>, s2: Seq<DrawItem>, i: int, p: int, a: int, b: int)
    requires
        0 <= p <= i < prev.len(),
        s2 == prev.remove(i).insert(p, prev[i]),
        forall|k: int| 0 <= k < prev.len() ==> item_ok(#[trigger] prev[k]),
        forall|x: int, y: int|
            0 <= x < y < i ==> rat_le(depth_key(item_pos(prev[x])), depth_key(item_pos(prev[y]))),
        forall|k: int|
            0 <= k < p ==> rat_le(depth_key(item_pos(prev[k])), depth_key(item_pos(prev[i]))),
        p < i ==> !rat_le(depth_key(item_pos(prev[p as int])), depth_key(item_pos(prev[i]))),
        0 <= a < b < i + 1,
        b < s2.len(),
    ensures
        rat_le(depth_key(item_pos(s2[a])), depth_key(item_pos(s2[b]))),
{
    assert(s2.len() == prev.len());
    assert(forall|k: int| 0 <= k < p ==> s2[k] == prev[k]);
    assert(s2[p as int] == prev[i]);
    assert(forall|k: int| p < k <= i ==> s2[k] == prev[k - 1]);
    let ka = depth_key(item_pos(s2[a]));
    let kb = depth_key(item_pos(s2[b]));
    lemma_depth_key_wf(item_pos(prev[i]));
    if a < p && b < p {
    } else if a < p && b == p {
    } else if a < p && b > p {
    } else if a == p {
        // s2[a] is the inserted entry; s2[b] = prev[b-1] with b-1 >= p
        if p < i {
            lemma_depth_key_wf(item_pos(prev[p]));
            lemma_depth_key_wf(item_pos(prev[b - 1]));
            assert(rat_lt(depth_key(item_pos(prev[i])), depth_key(item_pos(prev[p]))));
            if b - 1 > p {
                assert(rat_le(
                    depth_key(item_pos(prev[p])),
                    depth_key(item_pos(prev[b - 1])),
                ));
            }
            crate::rational::lemma_rat_lt_le_trans(
                depth_key(item_pos(prev[i])),
                depth_key(item_pos(prev[p])),
                depth_key(item_pos(prev[b - 1])),
            );
        }
    } else {
        // both past the insertion point: prev order carries over
    }
}

} // verus!
