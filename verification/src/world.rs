//! The dense 3-D block grid.
//!
//! The world is a fixed-extent box of `WIDTH x WIDTH x HEIGHT` cells,
//! each holding a one-byte block-type id where `0` means empty air.
//! Storage is one flat vector in `[z][y][x]` order (x fastest), so
//! [`World::blocks`] enumerates occupied cells by ascending z, then y,
//! then x.  Out-of-range coordinates are ruled out by precondition
//! rather than reproduced as a crash; [`World::get_block_f`] keeps the
//! original aliasing policy for negative positions: a negative
//! coordinate reads the cell at its positive mirror image.

use vstd::prelude::*;
use crate::rational::{Rat, gint, gabs, gfloor, lemma_floor_nonneg};
use vstd::arithmetic::div_mod::lemma_fundamental_div_mod;
use crate::math::{Vec3, vec3};

verus! {

/// World extent along X and along Y.
pub const WIDTH: usize = 256;

/// World extent along Z.
pub const HEIGHT: usize = 64;

/// Cells in one horizontal layer.
pub const AREA: usize = WIDTH * WIDTH;

/// Cells in the whole world.
pub const VOL: usize = AREA * HEIGHT;

/// Flat storage index of the cell `(x, y, z)`.
pub open spec fn cell_index(x: int, y: int, z: int) -> int {
    z * (AREA as int) + y * (WIDTH as int) + x
}

/// `(x, y, z)` lies inside the world box.
pub open spec fn in_bounds(x: int, y: int, z: int) -> bool {
    0 <= x < WIDTH && 0 <= y < WIDTH && 0 <= z < HEIGHT
}

/// Two distinct in-bounds cells have distinct storage indices.
proof fn lemma_cell_index_injective(x: int, y: int, z: int, i: int, j: int, k: int)
    requires
        in_bounds(x, y, z),
        in_bounds(i, j, k),
        cell_index(x, y, z) == cell_index(i, j, k),
    ensures
        x == i && y == j && z == k,
{
}

/// The world: one block-type id per cell, id `0` meaning empty.
pub struct World {
    tile_storage: Vec<u8>,
}

impl World {
    /// Storage holds exactly one byte per cell.
    pub closed spec fn wf(self) -> bool {
        self.tile_storage@.len() == VOL
    }

    /// The id stored in cell `(x, y, z)`.
    pub closed spec fn block_at(self, x: int, y: int, z: int) -> u8 {
        self.tile_storage@[cell_index(x, y, z)]
    }

    /// A fresh, all-empty world.
    pub fn new() -> (w: World)
        ensures
            w.wf(),
            forall|x: int, y: int, z: int|
                in_bounds(x, y, z) ==> #[trigger] w.block_at(x, y, z) == 0,
    {
        let mut tiles: Vec<u8> = Vec::new();
        let mut i: usize = 0;
        while i < VOL
            invariant
                i <= VOL,
                tiles@.len() == i,
                forall|j: int| 0 <= j < i ==> tiles@[j] == 0,
            decreases VOL - i,
        {
            tiles.push(0);
            i = i + 1;
        }
        World { tile_storage: tiles }
    }

    /// Writes the id `b` into cell `(x, y, z)`; every other cell keeps
    /// its id.
    pub fn set_block(&mut self, x: usize, y: usize, z: usize, b: u8)
        requires
            old(self).wf(),
            x < WIDTH,
            y < WIDTH,
            z < HEIGHT,
        ensures
            final(self).wf(),
            final(self).block_at(x as int, y as int, z as int) == b,
            forall|i: int, j: int, k: int|
                in_bounds(i, j, k) && !(i == x && j == y && k == z)
                    ==> #[trigger] final(self).block_at(i, j, k) == old(self).block_at(i, j, k),
    {
        let idx: usize = z * AREA + y * WIDTH + x;
        self.tile_storage.set(idx, b);
        proof {
            assert forall|i: int, j: int, k: int|
                in_bounds(i, j, k) && !(i == x && j == y && k == z)
                    implies #[trigger] self.block_at(i, j, k) == old(self).block_at(i, j, k) by {
                if cell_index(i, j, k) == cell_index(x as int, y as int, z as int) {
                    lemma_cell_index_injective(x as int, y as int, z as int, i, j, k);
                }
            }
        }
    }

    /// Reads the id of cell `(x, y, z)`.
    pub fn get_block(&self, x: usize, y: usize, z: usize) -> (b: u8)
        requires
            self.wf(),
            x < WIDTH,
            y < WIDTH,
            z < HEIGHT,
        ensures
            b == self.block_at(x as int, y as int, z as int),
    {
        let idx: usize = z * AREA + y * WIDTH + x;
        self.tile_storage[idx]
    }

    /// Reads the cell under a continuous position: each coordinate is
    /// mirrored to its absolute value, then floored to a cell index.
    /// Mirroring negative input is the grid's aliasing policy, not a
    /// wrap-around world.
    pub fn get_block_f(&self, pos: Vec3) -> (b: u8)
        requires
            self.wf(),
            pos.wf(),
            pos.x.num > i64::MIN,
            pos.y.num > i64::MIN,
            pos.z.num > i64::MIN,
            gfloor(gabs(pos.x@)) < WIDTH,
            gfloor(gabs(pos.y@)) < WIDTH,
            gfloor(gabs(pos.z@)) < HEIGHT,
        ensures
            b == self.block_at(
                gfloor(gabs(pos.x@)),
                gfloor(gabs(pos.y@)),
                gfloor(gabs(pos.z@)),
            ),
    {
        let ax = pos.x.abs();
        let ay = pos.y.abs();
        let az = pos.z.abs();
        proof {
            lemma_floor_nonneg(ax@.num, ax@.den);
            lemma_floor_nonneg(ay@.num, ay@.den);
            lemma_floor_nonneg(az@.num, az@.den);
        }
        let fx = ax.floor() as usize;
        let fy = ay.floor() as usize;
        let fz = az.floor() as usize;
        self.get_block(fx, fy, fz)
    }

    /// Lists every occupied cell, as a position and its id, by
    /// ascending z, then y, then x (storage order).  The result carries
    /// exactly the cells whose id is non-zero: each entry is a distinct
    /// in-range integer position holding its stored non-zero id, and
    /// every non-empty cell appears.
    pub fn blocks(&self) -> (r: Vec<(Vec3, u8)>)
        requires
            self.wf(),
        ensures
            forall|i: int| 0 <= i < r@.len() ==> entry_ok(*self, #[trigger] r@[i]),
            forall|i: int, j: int|
                0 <= i < j < r@.len() ==> entry_code(r@[i].0) < entry_code(r@[j].0),
            forall|x: int, y: int, z: int|
                in_bounds(x, y, z) && #[trigger] self.block_at(x, y, z) != 0 ==> contains_entry(
                    r@,
                    x,
                    y,
                    z,
                    self.block_at(x, y, z),
                ),
    {
        let mut dest: Vec<(Vec3, u8)> = Vec::new();
        let mut idx: usize = 0;
        while idx < VOL
            invariant
                self.wf(),
                idx <= VOL,
                forall|i: int| 0 <= i < dest@.len() ==> entry_ok(*self, #[trigger] dest@[i]),
                forall|i: int| 0 <= i < dest@.len() ==> entry_code((#[trigger] dest@[i]).0) < idx,
                forall|i: int, j: int|
                    0 <= i < j < dest@.len() ==> entry_code(dest@[i].0) < entry_code(dest@[j].0),
                forall|x: int, y: int, z: int|
                    in_bounds(x, y, z) && cell_index(x, y, z) < idx && #[trigger] self.block_at(
                        x,
                        y,
                        z,
                    ) != 0 ==> contains_entry(dest@, x, y, z, self.block_at(x, y, z)),
            decreases VOL - idx,
        {
            let b = self.tile_storage[idx];
            proof {
                lemma_cell_decompose(idx as int);
            }
            if b != 0 {
                let x = idx % WIDTH;
                let y = (idx / WIDTH) % WIDTH;
                let z = idx / AREA;
                let ghost old_dest = dest@;
                dest.push(
                    (
                        vec3(
                            Rat::from_int(x as i64),
                            Rat::from_int(y as i64),
                            Rat::from_int(z as i64),
                        ),
                        b,
                    ),
                );
                proof {
                    assert forall|i: int, j: int, k: int|
                        in_bounds(i, j, k) && cell_index(i, j, k) < idx + 1 && #[trigger] self
                            .block_at(i, j, k) != 0 implies contains_entry(
                        dest@,
                        i,
                        j,
                        k,
                        self.block_at(i, j, k),
                    ) by {
                        if cell_index(i, j, k) < idx {
                            lemma_contains_push(
                                old_dest,
                                dest@[old_dest.len() as int],
                                i,
                                j,
                                k,
                                self.block_at(i, j, k),
                            );
                        } else {
                            lemma_cell_index_injective(x as int, y as int, z as int, i, j, k);
                            assert(dest@[old_dest.len() as int] == dest@[dest@.len() - 1]);
                        }
                    }
                }
            } else {
                proof {
                    assert forall|i: int, j: int, k: int|
                        in_bounds(i, j, k) && cell_index(i, j, k) < idx + 1 && #[trigger] self
                            .block_at(i, j, k) != 0 implies contains_entry(
                        dest@,
                        i,
                        j,
                        k,
                        self.block_at(i, j, k),
                    ) by {
                        if cell_index(i, j, k) == idx {
                            lemma_cell_index_injective(
                                (idx as int) % (WIDTH as int),
                                ((idx as int) / (WIDTH as int)) % (WIDTH as int),
                                (idx as int) / (AREA as int),
                                i,
                                j,
                                k,
                            );
                        }
                    }
                }
            }
            idx = idx + 1;
        }
        proof {
            assert forall|x: int, y: int, z: int| in_bounds(x, y, z) implies cell_index(x, y, z)
                < VOL by {
                lemma_cell_index_bound(x, y, z);
            }
        }
        dest
    }
}

/// A list entry is an in-range integer position holding its stored,
/// non-zero id.
pub open spec fn entry_ok(w: World, e: (Vec3, u8)) -> bool {
    &&& e.0.x@.den == 1
    &&& e.0.y@.den == 1
    &&& e.0.z@.den == 1
    &&& in_bounds(e.0.x@.num, e.0.y@.num, e.0.z@.num)
    &&& e.1 == w.block_at(e.0.x@.num, e.0.y@.num, e.0.z@.num)
    &&& e.1 != 0
}

/// Storage position encoded by a list entry's integer coordinates.
pub open spec fn entry_code(p: Vec3) -> int {
    cell_index(p.x@.num, p.y@.num, p.z@.num)
}

/// Some entry of `s` carries the cell `(x, y, z)` with id `b`.
pub open spec fn contains_entry(s: Seq<(Vec3, u8)>, x: int, y: int, z: int, b: u8) -> bool {
    exists|i: int|
        0 <= i < s.len() && (#[trigger] s[i]).0.x@ == gint(x) && s[i].0.y@ == gint(y)
            && s[i].0.z@ == gint(z) && s[i].1 == b
}

/// An entry found in `s` is still found after a push.
proof fn lemma_contains_push(s: Seq<(Vec3, u8)>, e: (Vec3, u8), x: int, y: int, z: int, b: u8)
    requires
        contains_entry(s, x, y, z, b),
    ensures
        contains_entry(s.push(e), x, y, z, b),
{
    let i = choose|i: int|
        0 <= i < s.len() && (#[trigger] s[i]).0.x@ == gint(x) && s[i].0.y@ == gint(y)
            && s[i].0.z@ == gint(z) && s[i].1 == b;
    assert(s.push(e)[i] == s[i]);
}

/// Splitting a flat storage index back into coordinates lands in
/// bounds and inverts `cell_index`.
proof fn lemma_cell_decompose(idx: int)
    requires
        0 <= idx < VOL,
    ensures
        in_bounds(
            idx % (WIDTH as int),
            (idx / (WIDTH as int)) % (WIDTH as int),
            idx / (AREA as int),
        ),
        cell_index(
            idx % (WIDTH as int),
            (idx / (WIDTH as int)) % (WIDTH as int),
            idx / (AREA as int),
        ) == idx,
{
    lemma_fundamental_div_mod(idx, WIDTH as int);
    lemma_fundamental_div_mod(idx / (WIDTH as int), WIDTH as int);
    lemma_fundamental_div_mod(idx, AREA as int);
}

/// An in-bounds cell's storage index lies inside the storage.
proof fn lemma_cell_index_bound(x: int, y: int, z: int)
    requires
        in_bounds(x, y, z),
    ensures
        0 <= cell_index(x, y, z) < VOL,
{
}

/// Fills the flat 50-by-50 stone ground layer at z = 0 that the world
/// starts from; every other cell keeps its id.
pub fn generate_world(world: &mut World)
    requires
        old(world).wf(),
    ensures
        final(world).wf(),
        forall|x: int, y: int, z: int|
            in_bounds(x, y, z) ==> #[trigger] final(world).block_at(x, y, z) == (
            if 0 <= x < 50 && 0 <= y < 50 && z == 0 {
                3u8
            } else {
                old(world).block_at(x, y, z)
            }),
{
    let mut i: usize = 0;
    while i < 50
        invariant
            world.wf(),
            i <= 50,
            forall|x: int, y: int, z: int|
                in_bounds(x, y, z) ==> #[trigger] world.block_at(x, y, z) == (
                if 0 <= x < i && 0 <= y < 50 && z == 0 {
                    3u8
                } else {
                    old(world).block_at(x, y, z)
                }),
        decreases 50 - i,
    {
        let mut j: usize = 0;
        while j < 50
            invariant
                world.wf(),
                i < 50,
                j <= 50,
                forall|x: int, y: int, z: int|
                    in_bounds(x, y, z) ==> #[trigger] world.block_at(x, y, z) == (
                    if (0 <= x < i && 0 <= y < 50 && z == 0) || (x == i && 0 <= y < j && z == 0) {
                        3u8
                    } else {
                        old(world).block_at(x, y, z)
                    }),
            decreases 50 - j,
        {
            world.set_block(i, j, 0, 3);
            j = j + 1;
        }
        i = i + 1;
    }
}

} // verus!
