//! Integration, boundary, spatial-grid and collision behaviour on concrete
//! values.  Coordinates are fixed-point thousandths: `640_000` is a field
//! 640 units wide.
use rusty_nature_of_code::bouncy_balls::data::{Attributes, Color};
use rusty_nature_of_code::entity::{Entity, EntityManager};
use rusty_nature_of_code::grid::Grid;
use rusty_nature_of_code::math::{abs_i64, clamp_i64, isqrt, mul_ratio};
use rusty_nature_of_code::noc::systems::{
    acceleration_system, apply_collisions, boundary_system, clamp_velocities, collision_system,
    detect_collisions, drop_system, movement_system, redirect, render_system,
};
use rusty_nature_of_code::store::Store;
use rusty_nature_of_code::vec2::Vec2;

const W: i64 = 640_000;
const H: i64 = 480_000;

fn white() -> Color {
    Color::new(255, 255, 255, 255)
}

fn ball(mass: i64, radius: i64) -> Attributes {
    Attributes { mass, color: white(), radius, region: 0 }
}

#[test]
fn math_helpers_exact_values() {
    assert_eq!(isqrt(0), 0);
    assert_eq!(isqrt(1), 1);
    assert_eq!(isqrt(24), 4);
    assert_eq!(isqrt(25), 5);
    assert_eq!(isqrt(25_000_000), 5_000);
    assert_eq!(mul_ratio(1000, 99, 100), 990);
    assert_eq!(mul_ratio(-1000, 99, 100), -990);
    assert_eq!(mul_ratio(-7, 9, 10), -6); // magnitude rounds toward zero
    assert_eq!(clamp_i64(5, 0, 3), 3);
    assert_eq!(clamp_i64(-5, 0, 3), 0);
    assert_eq!(abs_i64(-42), 42);
}

#[test]
fn integration_adds_acceleration_once() {
    // After the pass: velocity is the old velocity plus the old
    // acceleration, and the acceleration is exactly zero.
    let mut acc: Store<Vec2> = Store::new();
    let mut vel: Store<Vec2> = Store::new();
    let e = Entity { id: 0 };
    vel.add(e, Vec2::new(1_000, 2_000));
    acc.add(e, Vec2::new(300, -400));
    // an entity with velocity but no acceleration is left alone
    let lone = Entity { id: 1 };
    vel.add(lone, Vec2::new(7, 7));
    acceleration_system(&mut acc, &mut vel);
    assert_eq!(vel.get(e), Some(Vec2::new(1_300, 1_600)));
    assert_eq!(acc.get(e), Some(Vec2::new(0, 0)));
    assert_eq!(vel.get(lone), Some(Vec2::new(7, 7)));
}

#[test]
fn velocity_clamp_bounds_each_axis() {
    let mut vel: Store<Vec2> = Store::new();
    let e = Entity { id: 0 };
    vel.add(e, Vec2::new(99_000, -99_000));
    clamp_velocities(&mut vel, -25_000, 25_000);
    assert_eq!(vel.get(e), Some(Vec2::new(25_000, -25_000)));
}

#[test]
fn movement_records_the_recomputed_bucket() {
    // Grid/position consistency: after the pass the recorded bucket index
    // equals the value recomputed from the position and the field size,
    // and the grid holds the id exactly there.
    let mut pos: Store<Vec2> = Store::new();
    let mut atr: Store<Attributes> = Store::new();
    let mut vel: Store<Vec2> = Store::new();
    let mut grid = Grid::new(5, 5);
    let e = Entity { id: 0 };
    pos.add(e, Vec2::new(100_000, 200_000));
    vel.add(e, Vec2::new(5_000, -3_000));
    atr.add(e, ball(1_000, 2_000));
    movement_system(W, H, &vel, &mut pos, &mut atr, &mut grid);
    let p = pos.get(e).unwrap();
    assert_eq!(p, Vec2::new(105_000, 197_000));
    let a = atr.get(e).unwrap();
    let recomputed = grid.bucket_index(&p, W, H);
    assert_eq!(a.region, recomputed);
    assert!(grid.contains(recomputed, e.id()));
    // moving again relocates the id: it leaves the old bucket
    let mut vel2: Store<Vec2> = Store::new();
    vel2.add(e, Vec2::new(300_000, 0));
    movement_system(W, H, &vel2, &mut pos, &mut atr, &mut grid);
    let p2 = pos.get(e).unwrap();
    let region2 = grid.bucket_index(&p2, W, H);
    assert_eq!(atr.get(e).unwrap().region, region2);
    assert!(grid.contains(region2, e.id()));
    assert!(region2 != recomputed);
    assert!(!grid.contains(recomputed, e.id()));
}

#[test]
fn boundary_never_leaves_the_field() {
    // An entity pushed past a wall is clamped into
    // [radius, extent - radius] on both axes.
    let mut pos: Store<Vec2> = Store::new();
    let mut vel: Store<Vec2> = Store::new();
    let mut atr: Store<Attributes> = Store::new();
    let e = Entity { id: 0 };
    pos.add(e, Vec2::new(-50_000, 900_000));
    vel.add(e, Vec2::new(-4_000, 6_000));
    atr.add(e, ball(1_000, 10_000));
    boundary_system(W, H, &mut vel, &mut pos, &atr);
    let p = pos.get(e).unwrap();
    assert!(10_000 <= p.x && p.x <= W - 10_000);
    assert!(10_000 <= p.y && p.y <= H - 10_000);
    assert_eq!(p, Vec2::new(10_000, H - 10_000));
    // left wall: vx inverted (mass 1.0 keeps the magnitude), vy damped by
    // 99/100; then top wall: vy inverted, vx damped by 95/100.
    let v = vel.get(e).unwrap();
    assert_eq!(v, Vec2::new(mul_ratio(4_000, 95, 100), -mul_ratio(6_000, 99, 100)));
}

#[test]
fn heavier_entities_rebound_less() {
    let mut light_vel: Store<Vec2> = Store::new();
    let mut heavy_vel: Store<Vec2> = Store::new();
    let mut light_pos: Store<Vec2> = Store::new();
    let mut heavy_pos: Store<Vec2> = Store::new();
    let mut light_atr: Store<Attributes> = Store::new();
    let mut heavy_atr: Store<Attributes> = Store::new();
    let e = Entity { id: 0 };
    light_pos.add(e, Vec2::new(-1_000, 240_000));
    heavy_pos.add(e, Vec2::new(-1_000, 240_000));
    light_vel.add(e, Vec2::new(-8_000, 0));
    heavy_vel.add(e, Vec2::new(-8_000, 0));
    light_atr.add(e, ball(1_010, 2_000));
    heavy_atr.add(e, ball(1_560, 2_000));
    boundary_system(W, H, &mut light_vel, &mut light_pos, &light_atr);
    boundary_system(W, H, &mut heavy_vel, &mut heavy_pos, &heavy_atr);
    let lv = light_vel.get(e).unwrap().x;
    let hv = heavy_vel.get(e).unwrap().x;
    assert!(lv > 0 && hv > 0);
    assert!(hv < lv);
    assert!(lv < 8_000); // a mass above one damps the rebound
}

#[test]
fn redirect_swaps_heading_and_keeps_speed() {
    // keep (3000, 4000) has magnitude 5000; taking the heading of (1000, 0)
    // puts the whole speed on the x axis.
    let r = redirect(&Vec2::new(3_000, 4_000), &Vec2::new(1_000, 0));
    assert_eq!(r, Vec2::new(5_000, 0));
    // a zero donor leaves the speed on the x axis as a zero heading
    let r0 = redirect(&Vec2::new(0, -2_000), &Vec2::new(0, 0));
    assert_eq!(r0, Vec2::new(2_000, 0));
    // speeds within one rounding step: 3-4-5 against 6-8-10
    let r2 = redirect(&Vec2::new(3_000, 4_000), &Vec2::new(-6_000, 8_000));
    assert_eq!(r2, Vec2::new(-3_000, 4_000));
}

#[test]
fn apply_collisions_swaps_both_headings() {
    let mut vel: Store<Vec2> = Store::new();
    let a = Entity { id: 0 };
    let b = Entity { id: 1 };
    vel.add(a, Vec2::new(3_000, 4_000)); // magnitude 5000
    vel.add(b, Vec2::new(0, 2_000)); // magnitude 2000
    let pairs = vec![(a, b)];
    apply_collisions(&pairs, &mut vel);
    assert_eq!(vel.get(a), Some(Vec2::new(0, 5_000)));
    assert_eq!(vel.get(b), Some(Vec2::new(1_200, 1_600)));
}

#[test]
fn collisions_found_only_within_a_bucket() {
    // Two entities in one bucket with centers one unit apart and a
    // combined radius of five units collide; a third entity in another
    // bucket is not considered against them.
    let mut pos: Store<Vec2> = Store::new();
    let mut atr: Store<Attributes> = Store::new();
    let mut vel: Store<Vec2> = Store::new();
    let mut grid = Grid::new(5, 5);
    let e0 = Entity { id: 0 };
    let e1 = Entity { id: 1 };
    let e2 = Entity { id: 2 };
    pos.add(e0, Vec2::new(320_000, 240_000));
    pos.add(e1, Vec2::new(321_000, 240_000));
    pos.add(e2, Vec2::new(64_000, 48_000));
    for e in [e0, e1, e2] {
        vel.add(e, Vec2::new(0, 0));
        atr.add(e, ball(1_000, 2_500));
    }
    movement_system(W, H, &vel, &mut pos, &mut atr, &mut grid);
    assert_ne!(atr.get(e0).unwrap().region, atr.get(e2).unwrap().region);
    assert_eq!(atr.get(e0).unwrap().region, atr.get(e1).unwrap().region);
    // one collision is reported exactly once, from the lower id's side
    let pairs = detect_collisions(&pos, &atr, &grid);
    assert_eq!(pairs, vec![(e0, e1)]);
    // the full pass swaps the two headings once — speeds keep their owner —
    // and leaves the lone entity's velocity untouched
    let mut vel2: Store<Vec2> = Store::new();
    vel2.add(e0, Vec2::new(3_000, 4_000)); // magnitude 5000
    vel2.add(e1, Vec2::new(0, 2_000)); // magnitude 2000
    vel2.add(e2, Vec2::new(1_000, 500));
    collision_system(&mut vel2, &pos, &atr, &grid);
    assert_eq!(vel2.get(e0), Some(Vec2::new(0, 5_000)));
    assert_eq!(vel2.get(e1), Some(Vec2::new(1_200, 1_600)));
    assert_eq!(vel2.get(e2), Some(Vec2::new(1_000, 500)));
}

#[test]
fn falling_ball_stays_inside_and_rebounds() {
    // Field 640 x 480, one entity starting near the top with zero velocity
    // and a downward acceleration of 0.9 per tick (the y axis points up
    // here, so gravity is negative): it never crosses either horizontal
    // edge, and on floor contact the vertical velocity flips sign exactly
    // for a mass of one.
    let radius = 2_000i64;
    let mut em = EntityManager::new();
    let mut pos: Store<Vec2> = Store::new();
    let mut vel: Store<Vec2> = Store::new();
    let mut acc: Store<Vec2> = Store::new();
    let mut atr: Store<Attributes> = Store::new();
    let mut grid = Grid::new(5, 5);
    let e = em.next();
    pos.add(e, Vec2::new(320_000, 470_000));
    vel.add(e, Vec2::new(0, 0));
    acc.add(e, Vec2::new(0, 0));
    atr.add(e, ball(1_000, radius));
    let mut saw_rebound = false;
    for _tick in 0..600 {
        acc.add(e, Vec2::new(0, -900));
        acceleration_system(&mut acc, &mut vel);
        clamp_velocities(&mut vel, -25_000, 25_000);
        movement_system(W, H, &vel, &mut pos, &mut atr, &mut grid);
        collision_system(&mut vel, &pos, &atr, &grid);
        let before = vel.get(e).unwrap();
        boundary_system(W, H, &mut vel, &mut pos, &atr);
        let p = pos.get(e).unwrap();
        assert!(radius <= p.y && p.y <= H - radius);
        assert!(radius <= p.x && p.x <= W - radius);
        if p.y == radius && before.y < 0 {
            let after = vel.get(e).unwrap();
            assert_eq!(after.y, -before.y);
            saw_rebound = true;
        }
    }
    assert!(saw_rebound);
}

#[test]
fn drop_system_cascades_everywhere() {
    let mut em = EntityManager::new();
    let mut pos: Store<Vec2> = Store::new();
    let mut vel: Store<Vec2> = Store::new();
    let mut acc: Store<Vec2> = Store::new();
    let mut atr: Store<Attributes> = Store::new();
    let mut grid = Grid::new(5, 5);
    let gone_far = em.next(); // far outside the field
    let resting = em.next(); // slow and sitting at the floor
    let alive = em.next(); // healthy
    let speeding = em.next(); // at floor height but moving fast leftward
    pos.add(gone_far, Vec2::new(700_000, 100_000));
    pos.add(resting, Vec2::new(5_000, 2_100));
    pos.add(alive, Vec2::new(320_000, 240_000));
    pos.add(speeding, Vec2::new(100_000, 2_100));
    for e in [gone_far, resting, alive, speeding] {
        vel.add(e, Vec2::new(0, 0));
        acc.add(e, Vec2::new(0, 0));
        atr.add(e, ball(1_000, 2_000));
    }
    vel.add(alive, Vec2::new(500, 500));
    vel.add(speeding, Vec2::new(-10_000, 0));
    movement_system(W, H, &vel, &mut pos, &mut atr, &mut grid);
    let alive_region = atr.get(alive).unwrap().region;
    drop_system(W, H, &mut em, &mut acc, &mut vel, &mut pos, &mut atr, &mut grid);
    for e in [gone_far, resting] {
        assert!(!em.is_live(e));
        assert!(pos.get(e).is_none());
        assert!(vel.get(e).is_none());
        assert!(acc.get(e).is_none());
        assert!(atr.get(e).is_none());
        for bucket in 0..grid.bucket_count() {
            assert!(!grid.contains(bucket, e.id()));
        }
    }
    assert!(em.is_live(alive));
    assert_eq!(pos.get(alive), Some(Vec2::new(320_500, 240_500)));
    assert!(grid.contains(alive_region, alive.id()));
    // resting is judged on speed: the fast leftward mover at floor height
    // stays
    assert!(em.is_live(speeding));
    assert_eq!(vel.get(speeding), Some(Vec2::new(-10_000, 0)));
    assert_eq!(em.len(), 2);
}

#[test]
fn render_flips_the_y_axis() {
    let mut pos: Store<Vec2> = Store::new();
    let mut atr: Store<Attributes> = Store::new();
    let e = Entity { id: 0 };
    pos.add(e, Vec2::new(10_000, 30_000));
    atr.add(e, ball(1_000, 2_500));
    let reqs = render_system(H, &pos, &atr);
    assert_eq!(reqs.len(), 1);
    assert_eq!(reqs[0].x, 10_000);
    assert_eq!(reqs[0].y, H - 30_000);
    assert_eq!(reqs[0].radius, 2_500);
    assert_eq!(reqs[0].color, white());
}
