use core::cmp::Ordering;

use iso_engine::math::{from_iso, in_2d, space_to_iso, tile_matrix, to_iso, transform_tile, vec2, vec3};
use iso_engine::objects::{Block, Physical, Player, PlayerOrient, Positionable};
use iso_engine::rational::{isqrt, Rat};
use iso_engine::render::{
    cmp_tiles, fade_opacity, scan_above, sort_draw_queue, DrawCmd, DrawItem, Renderble, ViewState,
};
use iso_engine::world::{generate_world, World};

fn r(n: i64) -> Rat {
    Rat::from_int(n)
}

fn rq(n: i64, d: i64) -> Rat {
    Rat::new(n, d)
}

fn v3(x: i64, y: i64, z: i64) -> iso_engine::math::Vec3 {
    vec3(r(x), r(y), r(z))
}

#[test]
fn cmp_tiles_test() {
    assert_eq!(cmp_tiles(v3(0, 0, 1), v3(1, 1, 2)), Ordering::Less); //scenario: player is below a tile that appears above the player
    assert_eq!(cmp_tiles(v3(0, 0, 1), v3(-1, -1, 0)), Ordering::Greater); //scenario: player is below a tile that appears below the player
}

#[test]
fn cmp_tiles_equal_sums() {
    assert_eq!(cmp_tiles(v3(1, 2, 3), v3(3, 2, 1)), Ordering::Equal);
    assert_eq!(
        cmp_tiles(vec3(rq(1, 2), rq(1, 2), r(0)), v3(1, 0, 0)),
        Ordering::Equal
    );
}

#[test]
fn rational_basics() {
    let half = rq(-3, -6);
    assert!(half.eq_rat(rq(1, 2)));
    assert_eq!(rq(1, 2).floor(), 0);
    assert_eq!(rq(-1, 2).floor(), -1);
    assert_eq!(r(-3).floor(), -3);
    assert_eq!(rq(7, 2).floor(), 3);
    assert!(rq(-3, 4).abs().eq_rat(rq(3, 4)));
    assert!(rq(1, 3).add(rq(1, 6)).eq_rat(rq(1, 2)));
    assert!(rq(1, 3).sub(rq(1, 2)).eq_rat(rq(-1, 6)));
    assert!(rq(2, 3).mul(rq(3, 4)).eq_rat(rq(1, 2)));
    assert!(rq(2, 3).div(rq(4, 3)).eq_rat(rq(1, 2)));
    assert!(rq(1, 3).lt(rq(1, 2)));
    assert!(!rq(1, 2).lt(rq(1, 2)));
    assert!(rq(1, 2).le(rq(1, 2)));
}

#[test]
fn isqrt_values() {
    assert_eq!(isqrt(0), 0);
    assert_eq!(isqrt(1), 1);
    assert_eq!(isqrt(3), 1);
    assert_eq!(isqrt(4), 2);
    assert_eq!(isqrt(10), 3);
    assert_eq!(isqrt(99), 9);
    assert_eq!(isqrt(100), 10);
    assert_eq!(isqrt(u64::MAX), 4294967295);
}

#[test]
fn iso_round_trip() {
    let tile = (r(64), r(64));
    let p = vec2(rq(3, 2), rq(-7, 4));
    let q = to_iso(p, tile);
    let back = from_iso(q, tile);
    assert!(back.x.eq_rat(p.x));
    assert!(back.y.eq_rat(p.y));

    let tile2 = (r(48), r(24));
    let p2 = vec2(r(-5), r(11));
    let back2 = from_iso(to_iso(p2, tile2), tile2);
    assert!(back2.x.eq_rat(p2.x));
    assert!(back2.y.eq_rat(p2.y));
}

#[test]
fn iso_forward_values() {
    // One grid step in X maps to (w/2, h/4).
    let tile = (r(64), r(32));
    let q = to_iso(vec2(r(1), r(0)), tile);
    assert!(q.x.eq_rat(r(32)));
    assert!(q.y.eq_rat(r(8)));
    // One grid step in Y maps to (-w/2, h/4).
    let q2 = to_iso(vec2(r(0), r(1)), tile);
    assert!(q2.x.eq_rat(r(-32)));
    assert!(q2.y.eq_rat(r(8)));
    let (tx, ty) = transform_tile(r(1), r(1), tile);
    assert!(tx.eq_rat(r(0)));
    assert!(ty.eq_rat(r(16)));
    let m = tile_matrix(tile);
    assert!(m.a.eq_rat(r(32)));
    assert!(m.b.eq_rat(r(-32)));
    assert!(m.c.eq_rat(r(8)));
    assert!(m.d.eq_rat(r(8)));
}

#[test]
fn flatten_shifts_up_left() {
    let f = space_to_iso(v3(5, 7, 2));
    assert!(f.x.eq_rat(r(3)));
    assert!(f.y.eq_rat(r(5)));
}

#[test]
fn world_set_get() {
    let mut w = World::new();
    assert_eq!(w.get_block(0, 0, 0), 0);
    w.set_block(5, 6, 7, 42);
    assert_eq!(w.get_block(5, 6, 7), 42);
    assert_eq!(w.get_block(6, 5, 7), 0);
    w.set_block(5, 6, 7, 0);
    assert_eq!(w.get_block(5, 6, 7), 0);
    w.set_block(255, 255, 63, 255);
    assert_eq!(w.get_block(255, 255, 63), 255);
}

#[test]
fn world_get_block_f_mirrors_negative() {
    let mut w = World::new();
    w.set_block(2, 3, 0, 7);
    let b = w.get_block_f(vec3(rq(-5, 2), rq(7, 2), r(0)));
    assert_eq!(b, 7);
    let b2 = w.get_block_f(vec3(rq(5, 2), rq(7, 2), r(0)));
    assert_eq!(b2, 7);
}

#[test]
fn world_blocks_enumerates_occupied() {
    let mut w = World::new();
    assert_eq!(w.blocks().len(), 0);
    w.set_block(3, 1, 0, 9);
    w.set_block(1, 2, 0, 4);
    w.set_block(0, 0, 5, 2);
    let list = w.blocks();
    assert_eq!(list.len(), 3);
    // Ascending z, then y, then x.
    assert!(list[0].0.x.eq_rat(r(3)) && list[0].0.y.eq_rat(r(1)) && list[0].0.z.eq_rat(r(0)));
    assert_eq!(list[0].1, 9);
    assert!(list[1].0.x.eq_rat(r(1)) && list[1].0.y.eq_rat(r(2)) && list[1].0.z.eq_rat(r(0)));
    assert_eq!(list[1].1, 4);
    assert!(list[2].0.x.eq_rat(r(0)) && list[2].0.y.eq_rat(r(0)) && list[2].0.z.eq_rat(r(5)));
    assert_eq!(list[2].1, 2);
}

#[test]
fn generate_world_lays_ground() {
    let mut w = World::new();
    generate_world(&mut w);
    assert_eq!(w.get_block(0, 0, 0), 3);
    assert_eq!(w.get_block(49, 49, 0), 3);
    assert_eq!(w.get_block(50, 0, 0), 0);
    assert_eq!(w.get_block(0, 0, 1), 0);
    assert_eq!(w.blocks().len(), 2500);
}

#[test]
fn orientation_buckets() {
    let mut p = Player::new(v3(0, 0, 1), v3(0, 0, 0));
    assert_eq!(p.orient, PlayerOrient::_45);
    p.update_orientation(r(0));
    assert_eq!(p.orient, PlayerOrient::_0);
    p.update_orientation(rq(449, 10));
    assert_eq!(p.orient, PlayerOrient::_45);
    p.update_orientation(rq(3374, 10));
    assert_eq!(p.orient, PlayerOrient::_315);
    p.update_orientation(rq(3376, 10));
    assert_eq!(p.orient, PlayerOrient::_0);
    p.update_orientation(r(90));
    assert_eq!(p.orient, PlayerOrient::_90);
    p.update_orientation(r(180));
    assert_eq!(p.orient, PlayerOrient::_180);
    p.update_orientation(r(270));
    assert_eq!(p.orient, PlayerOrient::_270);
}

#[test]
fn orientation_boundary_keeps_facing() {
    // An angle exactly on a bucket boundary leaves the facing as it was.
    let mut p = Player::new(v3(0, 0, 1), v3(0, 0, 0));
    p.update_orientation(r(90));
    assert_eq!(p.orient, PlayerOrient::_90);
    p.update_orientation(rq(45, 2)); // exactly 22.5
    assert_eq!(p.orient, PlayerOrient::_90);
    p.update_orientation(rq(675, 2)); // exactly 337.5
    assert_eq!(p.orient, PlayerOrient::_90);
}

#[test]
fn fade_breakpoints() {
    assert!(fade_opacity(rq(39, 10)).eq_rat(r(1)));
    assert!(fade_opacity(rq(9, 2)).eq_rat(rq(4, 5)));
    assert!(fade_opacity(rq(11, 2)).eq_rat(rq(3, 10)));
    assert!(fade_opacity(rq(79, 10)).eq_rat(rq(1, 10)));
    assert!(fade_opacity(r(10)).eq_rat(rq(1, 10)));
    assert!(fade_opacity(r(20)).eq_rat(rq(1, 20)));
}

#[test]
fn in_2d_centers_under_anchor() {
    let tile = (r(64), r(64));
    // (1, 1, 0) flattens to (1, 1), lands on screen (0, 32), plus the
    // half-tile offset (32, 32).
    let v = in_2d(v3(1, 1, 0), tile);
    assert!(v.x.eq_rat(r(32)));
    assert!(v.y.eq_rat(r(64)));
    // Raising the point by one cell moves it up-left.
    let v2 = in_2d(v3(1, 1, 1), tile);
    assert!(v2.x.eq_rat(r(32)));
    assert!(v2.y.eq_rat(r(32)));
}

#[test]
fn movement_update() {
    // Cursor ten cells along X: unit direction times speed two, exactly.
    let mut p = Player::new(v3(0, 0, 1), v3(0, 0, -3));
    p.update_movement(vec2(r(10), r(0)), true);
    assert!(p.vel.x.eq_rat(r(2)));
    assert!(p.vel.y.eq_rat(r(0)));
    assert!(p.vel.z.eq_rat(r(-3)));

    // A diagonal at 3-4-5 scale: direction (3/5, 4/5) times two.
    let mut p2 = Player::new(v3(0, 0, 1), v3(0, 0, 0));
    p2.update_movement(vec2(r(3), r(4)), true);
    assert!(p2.vel.x.eq_rat(rq(6, 5)));
    assert!(p2.vel.y.eq_rat(rq(8, 5)));

    // Inactive input forces the horizontal velocity to zero.
    let mut p3 = Player::new(v3(0, 0, 1), v3(5, 5, 7));
    p3.update_movement(vec2(r(10), r(0)), false);
    assert!(p3.vel.x.eq_rat(r(0)));
    assert!(p3.vel.y.eq_rat(r(0)));
    assert!(p3.vel.z.eq_rat(r(7)));

    // A degenerate offset is no movement: the velocity is untouched.
    let mut p4 = Player::new(v3(2, 3, 1), v3(5, 5, 7));
    p4.update_movement(vec2(r(2), r(3)), true);
    assert!(p4.vel.x.eq_rat(r(5)));
    assert!(p4.vel.y.eq_rat(r(5)));
    assert!(p4.vel.z.eq_rat(r(7)));
}

#[test]
fn integration_step() {
    let mut p = Player::new(v3(0, 0, 1), v3(2, 0, 0));
    p.advance(rq(1, 2));
    assert!(p.pos.x.eq_rat(r(1)));
    assert!(p.pos.y.eq_rat(r(0)));
    assert!(p.pos.z.eq_rat(r(1)));
    assert!(p.vel.x.eq_rat(r(2)));
}

#[test]
fn ground_guard_zeroes_vertical() {
    let mut w = World::new();
    // The probed cell is (floor(pos.x + vel.x * dt) + 1, floor(pos.y + vel.y * dt) + 1, floor(pos.z)).
    w.set_block(1, 1, 0, 3);
    let mut p = Player::new(vec3(rq(1, 2), rq(1, 2), rq(1, 2)), vec3(r(0), r(0), r(-2)));
    p.apply_ground_guard(&w, rq(1, 4));
    assert!(p.vel.z.eq_rat(r(0)));
    assert!(p.vel.x.eq_rat(r(0)) && p.vel.y.eq_rat(r(0)));
    assert!(p.pos.z.eq_rat(rq(1, 2)));

    // No block under the target cell: the velocity is untouched.
    let w2 = World::new();
    let mut p2 = Player::new(vec3(rq(1, 2), rq(1, 2), rq(1, 2)), vec3(r(1), r(0), r(-2)));
    p2.apply_ground_guard(&w2, rq(1, 4));
    assert!(p2.vel.z.eq_rat(r(-2)));
    assert!(p2.vel.x.eq_rat(r(1)));
}

#[test]
fn guard_keeps_horizontal_velocity() {
    let mut w = World::new();
    w.set_block(2, 1, 0, 3);
    let mut p = Player::new(
        vec3(rq(3, 2), rq(1, 2), rq(1, 2)),
        vec3(r(1), r(0), r(-3)),
    );
    // floor(3/2 + 1*1/4) + 1 == 2, floor(1/2) + 1 == 1, floor(1/2) == 0: occupied.
    p.apply_ground_guard(&w, rq(1, 4));
    assert!(p.vel.x.eq_rat(r(1)));
    assert!(p.vel.y.eq_rat(r(0)));
    assert!(p.vel.z.eq_rat(r(0)));
}

#[test]
fn bbox_contains_unit_cube() {
    let b = Block::new(v3(2, 3, 4), 1);
    assert!(b.bbox(vec3(rq(5, 2), rq(7, 2), rq(9, 2))));
    assert!(b.bbox(v3(2, 3, 4)));
    assert!(b.bbox(v3(3, 4, 5)));
    assert!(!b.bbox(vec3(rq(7, 2), rq(7, 2), rq(9, 2))));
    assert!(!b.bbox(v3(1, 3, 4)));
}

#[test]
fn positionable_and_physical_access() {
    let mut p = Player::new(v3(1, 2, 3), v3(4, 5, 6));
    let pos = p.pos();
    assert!(pos.x.eq_rat(r(1)) && pos.y.eq_rat(r(2)) && pos.z.eq_rat(r(3)));
    p.set_pos(v3(7, 8, 9));
    assert!(p.pos().z.eq_rat(r(9)));
    let vel = p.vel();
    assert!(vel.x.eq_rat(r(4)));
    p.set_vel(v3(0, 0, 0));
    assert!(p.vel().x.eq_rat(r(0)));

    let mut b = Block::new(v3(1, 1, 1), 2);
    b.set_pos(v3(2, 2, 2));
    assert!(b.pos().x.eq_rat(r(2)));
}

#[test]
fn scan_above_finds_first_block() {
    let mut w = World::new();
    w.set_block(4, 4, 3, 6);
    w.set_block(4, 4, 5, 9);
    assert_eq!(scan_above(&w, 4, 4, 0), 6);
    assert_eq!(scan_above(&w, 4, 4, 3), 9);
    assert_eq!(scan_above(&w, 4, 4, 5), 0);
    // The window is eight cells: a block eight above is seen, nine is not.
    let mut w2 = World::new();
    w2.set_block(1, 1, 8, 5);
    assert_eq!(scan_above(&w2, 1, 1, 0), 5);
    let mut w3 = World::new();
    w3.set_block(1, 1, 9, 5);
    assert_eq!(scan_above(&w3, 1, 1, 0), 0);
}

#[test]
fn block_render_parameters() {
    let mut w = World::new();
    w.set_block(3, 0, 0, 2);
    w.set_block(3, 0, 1, 5);
    let view = ViewState {
        player_pos: v3(0, 0, 0),
        trans: vec![0, 1],
    };
    let block = Block::new(v3(3, 0, 0), 2);
    match block.render(&w, &view) {
        DrawCmd::Tile {
            iso,
            block_id,
            behind,
            top_id,
            shadow,
            opacity,
            dist,
        } => {
            assert!(iso.x.eq_rat(r(3)));
            assert!(iso.y.eq_rat(r(0)));
            assert_eq!(block_id, 2);
            assert!(!behind);
            assert_eq!(top_id, 5);
            // Distance 3 < 4: fully opaque, and close enough to shade.
            assert!(dist.eq_rat(r(3)));
            assert!(opacity.eq_rat(r(1)));
            assert!(shadow);
        }
        _ => panic!("expected a tile command"),
    }
}

#[test]
fn block_render_respects_transparent_set() {
    let mut w = World::new();
    w.set_block(3, 0, 1, 1);
    let view = ViewState {
        player_pos: v3(0, 0, 0),
        trans: vec![0, 1],
    };
    let block = Block::new(v3(3, 0, 0), 2);
    match block.render(&w, &view) {
        DrawCmd::Tile { top_id, shadow, .. } => {
            assert_eq!(top_id, 1);
            assert!(!shadow);
        }
        _ => panic!("expected a tile command"),
    }
}

#[test]
fn block_render_culls_by_height() {
    let w = World::new();
    let view = ViewState {
        player_pos: v3(0, 0, 0),
        trans: vec![],
    };
    let block = Block::new(v3(0, 0, 9), 2);
    match block.render(&w, &view) {
        DrawCmd::Skip => {}
        _ => panic!("expected the block to be culled"),
    }
    let near = Block::new(v3(0, 0, 8), 2);
    match near.render(&w, &view) {
        DrawCmd::Tile { .. } => {}
        _ => panic!("expected the block to be drawn"),
    }
}

#[test]
fn block_render_far_fade() {
    let w = World::new();
    let view = ViewState {
        player_pos: v3(0, 0, 0),
        trans: vec![],
    };
    // Flattened distance exactly 10: opacity 1/10.
    let block = Block::new(v3(6, 8, 0), 2);
    match block.render(&w, &view) {
        DrawCmd::Tile { opacity, dist, behind, .. } => {
            assert!(dist.eq_rat(r(10)));
            assert!(opacity.eq_rat(rq(1, 10)));
            // The player's flattened position is up-and-left of the block.
            assert!(behind);
        }
        _ => panic!("expected a tile command"),
    }
}

#[test]
fn player_render_is_sprite_at_flattened_position() {
    let w = World::new();
    let view = ViewState {
        player_pos: v3(0, 0, 0),
        trans: vec![],
    };
    let mut p = Player::new(v3(4, 6, 2), v3(0, 0, 0));
    p.update_orientation(r(180));
    match p.render(&w, &view) {
        DrawCmd::Sprite { iso, orient } => {
            assert!(iso.x.eq_rat(r(2)));
            assert!(iso.y.eq_rat(r(4)));
            assert_eq!(orient, PlayerOrient::_180);
        }
        _ => panic!("expected a sprite command"),
    }
}

#[test]
fn sort_orders_by_depth_key() {
    let mut q: Vec<DrawItem> = vec![
        DrawItem::Tile(Block::new(v3(5, 5, 5), 1)),
        DrawItem::Avatar(Player::new(v3(0, 0, 1), v3(0, 0, 0))),
        DrawItem::Tile(Block::new(v3(-1, -1, 0), 2)),
        DrawItem::Tile(Block::new(v3(1, 1, 2), 3)),
    ];
    sort_draw_queue(&mut q);
    let keys: Vec<i64> = q
        .iter()
        .map(|it| {
            let p = match it {
                DrawItem::Avatar(p) => p.pos(),
                DrawItem::Tile(b) => b.pos(),
            };
            p.x.add(p.y).add(p.z).floor()
        })
        .collect();
    assert_eq!(keys, vec![-2, 1, 4, 15]);
}

#[test]
fn sort_keeps_arrival_order_of_equal_keys() {
    let mut q: Vec<DrawItem> = vec![
        DrawItem::Tile(Block::new(v3(3, 0, 0), 1)),
        DrawItem::Tile(Block::new(v3(0, 3, 0), 2)),
        DrawItem::Tile(Block::new(v3(0, 0, 0), 3)),
    ];
    sort_draw_queue(&mut q);
    let ids: Vec<u8> = q
        .iter()
        .map(|it| match it {
            DrawItem::Tile(b) => b.block_id,
            _ => 0,
        })
        .collect();
    assert_eq!(ids, vec![3, 1, 2]);
}
