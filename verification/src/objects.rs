//! The entity model: the controllable player and the static block.
//!
//! The player carries a continuous position and velocity and one of
//! eight 45-degree facing buckets; the block carries an integer cell
//! position and a block-type id.  Both expose position access through
//! [`Positionable`]; the player adds velocity access through
//! [`Physical`].  Facing resolution, the straight-line integration
//! step and the single grid-collision guard live here.

use vstd::prelude::*;
use crate::rational::{
    GRat, Rat, gwf, gint, gadd, gsub, gmul, gabs, gfloor, gfits, rat_lt, rat_le,
    gdiv, lemma_floor_nonneg, gsqrt_milli, sqrt_milli,
};
use crate::math::{Vec2, Vec3, vec3};
use crate::world::{World, WIDTH, HEIGHT};

verus! {

/// One of the eight 45-degree facing buckets, named by the center
/// angle of each bucket in degrees.
#[derive(PartialEq, Eq, Structural, Clone, Copy, Debug)]
pub enum PlayerOrient {
    _0,
    _45,
    _90,
    _135,
    _180,
    _225,
    _270,
    _315,
}

/// `deg` lies strictly inside the bucket centered on `center` degrees:
/// within 22.5 degrees on either side.
pub open spec fn in_bucket(deg: GRat, center: int) -> bool {
    rat_lt((GRat { num: 2 * center - 45, den: 2 }), deg) && rat_lt(
        deg,
        (GRat { num: 2 * center + 45, den: 2 }),
    )
}

/// The facing that a view angle in degrees resolves to, starting from
/// the facing `prev`.  The zero bucket wraps around 360: any angle
/// below 22.5 or above 337.5 faces 0.  An angle exactly on a bucket
/// boundary (an odd multiple of 22.5) matches no bucket and leaves the
/// facing unchanged; that is the boundary tie rule.
pub open spec fn orient_for(deg: GRat, prev: PlayerOrient) -> PlayerOrient {
    if rat_lt(deg, (GRat { num: 45, den: 2 })) || rat_lt((GRat { num: 675, den: 2 }), deg) {
        PlayerOrient::_0
    } else if in_bucket(deg, 45) {
        PlayerOrient::_45
    } else if in_bucket(deg, 90) {
        PlayerOrient::_90
    } else if in_bucket(deg, 135) {
        PlayerOrient::_135
    } else if in_bucket(deg, 180) {
        PlayerOrient::_180
    } else if in_bucket(deg, 225) {
        PlayerOrient::_225
    } else if in_bucket(deg, 270) {
        PlayerOrient::_270
    } else if in_bucket(deg, 315) {
        PlayerOrient::_315
    } else {
        prev
    }
}

/// Positional access shared by every renderable object.
pub trait Positionable {
    /// The object's 3-D world position.
    spec fn spec_pos(&self) -> Vec3;

    /// Reads the position.
    fn pos(&self) -> (r: Vec3)
        ensures
            r == self.spec_pos(),
    ;

    /// Replaces the position.
    fn set_pos(&mut self, pos: Vec3)
        ensures
            final(self).spec_pos() == pos,
    ;
}

/// Velocity access, for objects that move.
pub trait Physical: Positionable {
    /// The object's 3-D velocity.
    spec fn spec_vel(&self) -> Vec3;

    /// Reads the velocity.
    fn vel(&self) -> (r: Vec3)
        ensures
            r == self.spec_vel(),
    ;

    /// Replaces the velocity, keeping the position.
    fn set_vel(&mut self, vel: Vec3)
        ensures
            final(self).spec_vel() == vel,
            final(self).spec_pos() == old(self).spec_pos(),
    ;
}

/// The controllable avatar: continuous position and velocity, a
/// facing bucket, and a reserved airborne flag.
#[derive(Debug)]
pub struct Player {
    pub pos: Vec3,
    pub vel: Vec3,
    pub is_jumping: bool,
    pub orient: PlayerOrient,
}

/// A single occupied cell exposed for rendering: a transient view of
/// the grid, rebuilt whenever the renderable collection is rebuilt.
pub struct Block {
    pub block_id: u8,
    pub pos: Vec3,
}

impl Player {
    /// Position and velocity components well-formed.
    pub open spec fn wf(self) -> bool {
        self.pos.wf() && self.vel.wf()
    }

    /// A fresh player at `pos` with velocity `vel`, airborne, facing
    /// the 45-degree bucket.
    pub fn new(pos: Vec3, vel: Vec3) -> (p: Player)
        ensures
            p.pos == pos,
            p.vel == vel,
            p.is_jumping == true,
            p.orient == PlayerOrient::_45,
    {
        Player { pos, vel, is_jumping: true, orient: PlayerOrient::_45 }
    }

    /// Resolves a continuous view angle in degrees to one of the eight
    /// facing buckets; an angle exactly on a bucket boundary leaves
    /// the facing as it was.
    pub fn update_orientation(&mut self, degrees: Rat)
        requires
            degrees.wf(),
        ensures
            final(self).orient == orient_for(degrees@, old(self).orient),
            final(self).pos == old(self).pos,
            final(self).vel == old(self).vel,
            final(self).is_jumping == old(self).is_jumping,
    {
        let lo = Rat { num: 45, den: 2 };
        let hi = Rat { num: 675, den: 2 };
        if degrees.lt(lo) || hi.lt(degrees) {
            self.orient = PlayerOrient::_0;
        } else if self.in_bucket_exec(degrees, 45) {
            self.orient = PlayerOrient::_45;
        } else if self.in_bucket_exec(degrees, 90) {
            self.orient = PlayerOrient::_90;
        } else if self.in_bucket_exec(degrees, 135) {
            self.orient = PlayerOrient::_135;
        } else if self.in_bucket_exec(degrees, 180) {
            self.orient = PlayerOrient::_180;
        } else if self.in_bucket_exec(degrees, 225) {
            self.orient = PlayerOrient::_225;
        } else if self.in_bucket_exec(degrees, 270) {
            self.orient = PlayerOrient::_270;
        } else if self.in_bucket_exec(degrees, 315) {
            self.orient = PlayerOrient::_315;
        }
    }

    /// Tests whether `deg` lies strictly inside the bucket centered on
    /// `center` degrees.
    fn in_bucket_exec(&self, deg: Rat, center: i64) -> (r: bool)
        requires
            deg.wf(),
            0 <= center <= 315,
        ensures
            r == in_bucket(deg@, center as int),
    {
        let lo = Rat { num: 2 * center - 45, den: 2 };
        let hi = Rat { num: 2 * center + 45, den: 2 };
        lo.lt(deg) && deg.lt(hi)
    }

    /// Advances the position by one Euler step: `pos += vel * dt`,
    /// exactly.  Velocity and facing are untouched.
    pub fn advance(&mut self, dt: Rat)
        requires
            old(self).wf(),
            dt.wf(),
            gfits(gmul(old(self).vel.x@, dt@)),
            gfits(gmul(old(self).vel.y@, dt@)),
            gfits(gmul(old(self).vel.z@, dt@)),
            gfits(gadd(old(self).pos.x@, gmul(old(self).vel.x@, dt@))),
            gfits(gadd(old(self).pos.y@, gmul(old(self).vel.y@, dt@))),
            gfits(gadd(old(self).pos.z@, gmul(old(self).vel.z@, dt@))),
        ensures
            final(self).wf(),
            final(self).pos.x@ == gadd(old(self).pos.x@, gmul(old(self).vel.x@, dt@)),
            final(self).pos.y@ == gadd(old(self).pos.y@, gmul(old(self).vel.y@, dt@)),
            final(self).pos.z@ == gadd(old(self).pos.z@, gmul(old(self).vel.z@, dt@)),
            final(self).vel == old(self).vel,
            final(self).orient == old(self).orient,
            final(self).is_jumping == old(self).is_jumping,
    {
        self.pos = Vec3 {
            x: self.pos.x.add(self.vel.x.mul(dt)),
            y: self.pos.y.add(self.vel.y.mul(dt)),
            z: self.pos.z.add(self.vel.z.mul(dt)),
        };
    }
}

/// The squared length of the 2-D offset from the player to the
/// cursor's grid position.
pub open spec fn cursor_offset_sq(p: Player, cursor: Vec2) -> GRat {
    gadd(
        gmul(gsub(cursor.x@, p.pos.x@), gsub(cursor.x@, p.pos.x@)),
        gmul(gsub(cursor.y@, p.pos.y@), gsub(cursor.y@, p.pos.y@)),
    )
}

/// All the intermediate representations of the movement update stay
/// in `i64` range.
pub open spec fn movement_fits(p: Player, cursor: Vec2) -> bool {
    &&& gfits(gsub(cursor.x@, p.pos.x@))
    &&& gfits(gsub(cursor.y@, p.pos.y@))
    &&& gfits(gmul(gsub(cursor.x@, p.pos.x@), gsub(cursor.x@, p.pos.x@)))
    &&& gfits(gmul(gsub(cursor.y@, p.pos.y@), gsub(cursor.y@, p.pos.y@)))
    &&& gfits(cursor_offset_sq(p, cursor))
    &&& gfits(gmul(cursor_offset_sq(p, cursor), gint(1000000)))
    &&& gfits(gmul(gsub(cursor.x@, p.pos.x@), gint(2)))
    &&& gfits(gmul(gsub(cursor.y@, p.pos.y@), gint(2)))
    &&& gfits(gdiv(gmul(gsub(cursor.x@, p.pos.x@), gint(2)), gsqrt_milli(cursor_offset_sq(p, cursor))))
    &&& gfits(gdiv(gmul(gsub(cursor.y@, p.pos.y@), gint(2)), gsqrt_milli(cursor_offset_sq(p, cursor))))
}

impl Player {
    /// Resolves the per-tick movement intent.  With the move input
    /// inactive the horizontal velocity is forced to zero.  With it
    /// active, the horizontal velocity becomes the direction from the
    /// player to the cursor's grid position, normalized (against the
    /// milli-precision length of the offset) and scaled by the fixed
    /// speed of two; a degenerate offset — one shorter than a
    /// thousandth, whose milli-length is zero — is treated as no
    /// movement and leaves the velocity as it was.  The vertical
    /// velocity is preserved in every case.
    pub fn update_movement(&mut self, cursor: Vec2, move_active: bool)
        requires
            old(self).wf(),
            cursor.wf(),
            movement_fits(*old(self), cursor),
        ensures
            final(self).wf(),
            final(self).pos == old(self).pos,
            final(self).orient == old(self).orient,
            final(self).is_jumping == old(self).is_jumping,
            final(self).vel.z == old(self).vel.z,
            !move_active ==> final(self).vel.x@ == gint(0) && final(self).vel.y@ == gint(0),
            move_active && gsqrt_milli(cursor_offset_sq(*old(self), cursor)).num == 0
                ==> final(self).vel == old(self).vel,
            move_active && gsqrt_milli(cursor_offset_sq(*old(self), cursor)).num != 0 ==> {
                &&& final(self).vel.x@ == gdiv(
                    gmul(gsub(cursor.x@, old(self).pos.x@), gint(2)),
                    gsqrt_milli(cursor_offset_sq(*old(self), cursor)),
                )
                &&& final(self).vel.y@ == gdiv(
                    gmul(gsub(cursor.y@, old(self).pos.y@), gint(2)),
                    gsqrt_milli(cursor_offset_sq(*old(self), cursor)),
                )
            },
    {
        if !move_active {
            self.vel = Vec3 { x: Rat::from_int(0), y: Rat::from_int(0), z: self.vel.z };
            return ;
        }
        let dx = cursor.x.sub(self.pos.x);
        let dy = cursor.y.sub(self.pos.y);
        proof {
            lemma_offset_sq_nonneg(dx@, dy@);
        }
        let d2 = dx.mul(dx).add(dy.mul(dy));
        let len = sqrt_milli(d2);
        if len.num != 0 {
            let two = Rat::from_int(2);
            self.vel = Vec3 { x: dx.mul(two).div(len), y: dy.mul(two).div(len), z: self.vel.z };
        }
    }
}

/// A sum of two squares is non-negative.
proof fn lemma_offset_sq_nonneg(dx: GRat, dy: GRat)
    by (nonlinear_arith)
    requires
        gwf(dx),
        gwf(dy),
    ensures
        rat_le(gint(0), gadd(gmul(dx, dx), gmul(dy, dy))),
{
}

/// Magnitude of an integer.
pub open spec fn int_abs(n: int) -> int {
    if n < 0 {
        -n
    } else {
        n
    }
}

/// The cell the player would occupy next tick, by the cell-corner
/// convention: the X and Y of `pos + vel * dt` floored and offset by
/// one, at the player's current (floored) height.
pub open spec fn ground_probe(p: Player, dt: GRat) -> (int, int, int) {
    (
        gfloor(gadd(p.pos.x@, gmul(p.vel.x@, dt))) + 1,
        gfloor(gadd(p.pos.y@, gmul(p.vel.y@, dt))) + 1,
        gfloor(p.pos.z@),
    )
}

/// The probed cell holds a block (negative probe coordinates alias to
/// their positive mirror image, as in [`World::get_block_f`]).
pub open spec fn ground_probe_hit(w: World, p: Player, dt: GRat) -> bool {
    w.block_at(
        int_abs(ground_probe(p, dt).0),
        int_abs(ground_probe(p, dt).1),
        int_abs(ground_probe(p, dt).2),
    ) != 0
}

impl Player {
    /// The one grid-collision rule: if the cell the player would
    /// occupy next tick is already occupied, the vertical velocity is
    /// zeroed — a minimal stop-falling-through-the-floor guard — while
    /// the horizontal velocity is left untouched.  Position, facing
    /// and the airborne flag never change here.
    pub fn apply_ground_guard(&mut self, world: &World, dt: Rat)
        requires
            old(self).wf(),
            world.wf(),
            dt.wf(),
            old(self).vel.z.num > i64::MIN,
            gfits(gmul(old(self).vel.x@, dt@)),
            gfits(gmul(old(self).vel.y@, dt@)),
            gfits(gadd(old(self).pos.x@, gmul(old(self).vel.x@, dt@))),
            gfits(gadd(old(self).pos.y@, gmul(old(self).vel.y@, dt@))),
            int_abs(ground_probe(*old(self), dt@).0) < WIDTH,
            int_abs(ground_probe(*old(self), dt@).1) < WIDTH,
            int_abs(ground_probe(*old(self), dt@).2) < HEIGHT,
        ensures
            final(self).wf(),
            final(self).pos == old(self).pos,
            final(self).orient == old(self).orient,
            final(self).is_jumping == old(self).is_jumping,
            final(self).vel.x == old(self).vel.x,
            final(self).vel.y == old(self).vel.y,
            ground_probe_hit(*world, *old(self), dt@) ==> final(self).vel.z@ == gint(0),
            !ground_probe_hit(*world, *old(self), dt@) ==> final(self).vel.z == old(self).vel.z,
    {
        let nx = self.pos.x.add(self.vel.x.mul(dt));
        let ny = self.pos.y.add(self.vel.y.mul(dt));
        let fx = nx.floor() + 1;
        let fy = ny.floor() + 1;
        let fz = self.pos.z.floor();
        let probe = vec3(Rat::from_int(fx), Rat::from_int(fy), Rat::from_int(fz));
        proof {
            lemma_int_rat_abs_floor(fx as int);
            lemma_int_rat_abs_floor(fy as int);
            lemma_int_rat_abs_floor(fz as int);
        }
        let b = world.get_block_f(probe);
        if b != 0 {
            self.vel = Vec3 { x: self.vel.x, y: self.vel.y, z: Rat::from_int(0) };
        }
    }
}

/// Mirroring and flooring an integer-valued rational yields the
/// integer's magnitude.
proof fn lemma_int_rat_abs_floor(m: int)
    ensures
        gfloor(gabs(gint(m))) == int_abs(m),
{
    assert(gabs(gint(m)) == gint(int_abs(m)));
    assert(int_abs(m) / 1 == int_abs(m));
}

impl Positionable for Player {
    open spec fn spec_pos(&self) -> Vec3 {
        self.pos
    }

    fn pos(&self) -> (r: Vec3) {
        self.pos
    }

    fn set_pos(&mut self, pos: Vec3) {
        self.pos = pos;
    }
}

impl Physical for Player {
    open spec fn spec_vel(&self) -> Vec3 {
        self.vel
    }

    fn vel(&self) -> (r: Vec3) {
        self.vel
    }

    fn set_vel(&mut self, vel: Vec3) {
        self.vel = vel;
    }
}

impl Block {
    /// Position components well-formed.
    pub open spec fn wf(self) -> bool {
        self.pos.wf()
    }

    /// A block of type `block_id` at the cell anchored at `pos`.
    pub fn new(pos: Vec3, block_id: u8) -> (b: Block)
        ensures
            b.pos == pos,
            b.block_id == block_id,
    {
        Block { block_id, pos }
    }

    /// Tests whether `pos` lies inside the closed unit cube anchored
    /// at this block's position.
    pub fn bbox(&self, pos: Vec3) -> (r: bool)
        requires
            self.wf(),
            pos.wf(),
            gfits(gadd(self.pos.x@, gint(1))),
            gfits(gadd(self.pos.y@, gint(1))),
            gfits(gadd(self.pos.z@, gint(1))),
        ensures
            r == {
                &&& rat_le(self.pos.x@, pos.x@)
                &&& rat_le(pos.x@, gadd(self.pos.x@, gint(1)))
                &&& rat_le(self.pos.y@, pos.y@)
                &&& rat_le(pos.y@, gadd(self.pos.y@, gint(1)))
                &&& rat_le(self.pos.z@, pos.z@)
                &&& rat_le(pos.z@, gadd(self.pos.z@, gint(1)))
            },
    {
        let one = Rat::from_int(1);
        pos.x.le(self.pos.x.add(one)) && self.pos.x.le(pos.x) && pos.y.le(self.pos.y.add(one))
            && self.pos.y.le(pos.y) && pos.z.le(self.pos.z.add(one)) && self.pos.z.le(pos.z)
    }
}

impl Positionable for Block {
    open spec fn spec_pos(&self) -> Vec3 {
        self.pos
    }

    fn pos(&self) -> (r: Vec3) {
        self.pos
    }

    fn set_pos(&mut self, pos: Vec3) {
        self.pos = pos;
    }
}

} // verus!
