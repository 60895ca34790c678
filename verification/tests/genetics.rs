//! Selection, crossover, mutation, the move bank and the noise table on
//! concrete values.
use rusty_nature_of_code::bouncy_balls::data::Color;
use rusty_nature_of_code::entity::Entity;
use rusty_nature_of_code::noc::{random, Noise, DEFAULT_NOISE_SEED};
use rusty_nature_of_code::smart_rockets::data::{Attributes, World};
use rusty_nature_of_code::smart_rockets::systems::{
    apply_moves, boundary_system, crossover, fitness_weight, genetic_system, movement_system,
    mutate, render_system, Dna,
};
use rusty_nature_of_code::smart_rockets::{choose_two, SelectError};
use rusty_nature_of_code::store::Store;
use rusty_nature_of_code::vec2::Vec2;

const W: i64 = 640_000;
const H: i64 = 480_000;

fn world() -> World {
    World {
        width: W,
        height: H,
        default_pos: Vec2::new(W / 2, 0),
        default_vel: Vec2::new(0, 0),
        target_pos: Vec2::new(W / 2, H),
        mutation_num: 1,
        mutation_den: 10,
        gen_done: false,
    }
}

#[test]
fn random_stays_in_its_range() {
    assert_eq!(random(5, 6), 5);
    for _ in 0..64 {
        let r = random(0, 10);
        assert!(r < 10);
    }
}

#[test]
fn fitness_falls_linearly_with_distance() {
    assert_eq!(fitness_weight(0, W as u64), 100);
    assert_eq!(fitness_weight(W as u64 / 2, W as u64), 50);
    assert_eq!(fitness_weight(W as u64, W as u64), 0);
    assert_eq!(fitness_weight(W as u64 + 1, W as u64), 0);
    assert!(fitness_weight(100_000, W as u64) >= fitness_weight(200_000, W as u64));
}

#[test]
fn crossover_takes_each_gene_from_a_parent() {
    let a: Dna = [0, 1, 2, 3, 4, 5, 6, 7, 8, 9];
    let b: Dna = [9, 8, 7, 6, 5, 4, 3, 2, 1, 0];
    let picks = [true, false, true, false, true, false, true, false, true, false];
    let c = crossover(&a, &b, &picks);
    for i in 0..10 {
        let expect = if picks[i] { a[i] } else { b[i] };
        assert_eq!(c[i], expect);
        assert!(c[i] == a[i] || c[i] == b[i]);
    }
    assert_eq!(c, [0, 8, 2, 6, 4, 4, 6, 2, 8, 0]);
}

#[test]
fn mutation_changes_exactly_one_gene() {
    let a: Dna = [0, 1, 2, 3, 4, 5, 6, 7, 8, 9];
    let b: Dna = [0, 1, 2, 3, 4, 5, 6, 7, 8, 9];
    let picks = [true; 10];
    let mut c = crossover(&a, &b, &picks);
    let before = c;
    mutate(&mut c, 4, 7);
    let mut changed = 0;
    for i in 0..10 {
        if c[i] != before[i] {
            changed += 1;
        }
    }
    assert_eq!(changed, 1);
    assert_eq!(c[4], 7);
}

#[test]
fn weighted_selection_is_forced_by_a_lone_weight() {
    // With weights [10, 0, ..., 0] the first parent must be the only
    // positively weighted agent, and the distinctness rule forces the
    // second pick onto some other agent.
    let mut weights: Vec<(Entity, u32)> = Vec::new();
    for id in 0..10usize {
        let w = if id == 0 { 10 } else { 0 };
        weights.push((Entity { id }, w));
    }
    for _ in 0..20 {
        let (a, b) = choose_two(&weights).unwrap();
        assert_eq!(a, Entity { id: 0 });
        assert_ne!(b, Entity { id: 0 });
        assert!(b.id() < 10);
    }
}

#[test]
fn selection_reports_degenerate_inputs() {
    let empty: Vec<(Entity, u32)> = Vec::new();
    assert_eq!(choose_two(&empty), Err(SelectError::Empty));
    let zeroes = vec![(Entity { id: 0 }, 0), (Entity { id: 1 }, 0)];
    assert_eq!(choose_two(&zeroes), Err(SelectError::AllWeightsZero));
    let lonely = vec![(Entity { id: 3 }, 5)];
    assert_eq!(choose_two(&lonely), Err(SelectError::NoDistinct));
}

#[test]
fn move_bank_homing_and_impulse() {
    let w = world();
    let mut gene: Store<Dna> = Store::new();
    let mut acc: Store<Vec2> = Store::new();
    let homing = Entity { id: 0 };
    let impulse = Entity { id: 1 };
    gene.add(homing, [0; 10]);
    gene.add(impulse, [1; 10]);
    acc.add(homing, Vec2::new(0, 0));
    acc.add(impulse, Vec2::new(0, 0));
    apply_moves(&w, 0, &gene, &mut acc);
    // gene 0 drifts three thousandths of the way toward the target
    assert_eq!(acc.get(homing), Some(Vec2::new(960, 1_440)));
    // gene 1 is a fixed impulse
    assert_eq!(acc.get(impulse), Some(Vec2::new(5_500, -5_400)));
}

#[test]
fn rocket_integration_divides_by_mass_first() {
    let mut pos: Store<Vec2> = Store::new();
    let mut vel: Store<Vec2> = Store::new();
    let mut acc: Store<Vec2> = Store::new();
    let mut mass: Store<i64> = Store::new();
    let e = Entity { id: 0 };
    pos.add(e, Vec2::new(10_000, 10_000));
    vel.add(e, Vec2::new(2_000, -4_000));
    acc.add(e, Vec2::new(100, 100));
    mass.add(e, 2_000); // mass 2.0 halves the velocity
    movement_system(&mut pos, &mut vel, &mut acc, &mass);
    assert_eq!(vel.get(e), Some(Vec2::new(1_100, -1_900)));
    assert_eq!(acc.get(e), Some(Vec2::new(0, 0)));
    assert_eq!(pos.get(e), Some(Vec2::new(11_100, 8_100)));
}

#[test]
fn rocket_boundary_inverts_without_mass() {
    let w = world();
    let mut pos: Store<Vec2> = Store::new();
    let mut vel: Store<Vec2> = Store::new();
    let mut atr: Store<Attributes> = Store::new();
    let e = Entity { id: 0 };
    pos.add(e, Vec2::new(-5_000, 240_000));
    vel.add(e, Vec2::new(-3_000, 1_000));
    atr.add(e, Attributes { radius: 10_000, color: Color::new(1, 2, 3, 4) });
    boundary_system(&w, &mut vel, &mut pos, &atr);
    assert_eq!(pos.get(e), Some(Vec2::new(10_000, 240_000)));
    // left wall: x inverted outright, y damped by 99/100
    assert_eq!(vel.get(e), Some(Vec2::new(3_000, 990)));
}

#[test]
fn regeneration_resets_agents_and_breeds_from_two_parents() {
    let mut w = world();
    w.mutation_num = 0; // no mutation: offspring genes come straight from the parents
    let mut pos: Store<Vec2> = Store::new();
    let mut vel: Store<Vec2> = Store::new();
    let mut gene: Store<Dna> = Store::new();
    for id in 0..10usize {
        let e = Entity { id };
        pos.add(e, Vec2::new(id as i64 * 10_000, 100_000));
        vel.add(e, Vec2::new(5, 5));
        gene.add(e, [id; 10]);
    }
    genetic_system(&w, &mut pos, &mut vel, &mut gene);
    // every agent was reset and every gene comes from one shared parent pair
    let mut palette: Vec<usize> = Vec::new();
    for id in 0..10usize {
        let e = Entity { id };
        assert_eq!(pos.get(e), Some(w.default_pos));
        assert_eq!(vel.get(e), Some(w.default_vel));
        let d = gene.get(e).unwrap();
        for g in d {
            assert!(g < 10);
            if !palette.contains(&g) {
                palette.push(g);
            }
        }
    }
    assert!(palette.len() <= 2);
}

#[test]
fn regeneration_needs_two_agents() {
    let w = world();
    let mut pos: Store<Vec2> = Store::new();
    let mut vel: Store<Vec2> = Store::new();
    let mut gene: Store<Dna> = Store::new();
    let e = Entity { id: 0 };
    pos.add(e, Vec2::new(1_000, 2_000));
    vel.add(e, Vec2::new(3, 4));
    gene.add(e, [5; 10]);
    genetic_system(&w, &mut pos, &mut vel, &mut gene);
    assert_eq!(pos.get(e), Some(Vec2::new(1_000, 2_000)));
    assert_eq!(vel.get(e), Some(Vec2::new(3, 4)));
    assert_eq!(gene.get(e), Some([5; 10]));
}

#[test]
fn rocket_render_appends_the_target_marker() {
    let w = world();
    let mut pos: Store<Vec2> = Store::new();
    let mut atr: Store<Attributes> = Store::new();
    let e = Entity { id: 0 };
    pos.add(e, Vec2::new(10_000, 30_000));
    atr.add(e, Attributes { radius: 10_000, color: Color::new(9, 9, 9, 9) });
    let reqs = render_system(&w, &pos, &atr);
    assert_eq!(reqs.len(), 2);
    assert_eq!(reqs[0].x, 10_000);
    assert_eq!(reqs[0].y, H - 30_000);
    let marker = reqs[1];
    assert_eq!(marker.x, w.target_pos.x);
    assert_eq!(marker.y, H - w.target_pos.y);
    assert_eq!(marker.radius, 25_000);
}

#[test]
fn noise_table_is_a_permutation() {
    let noise = Noise::new(DEFAULT_NOISE_SEED);
    assert_eq!(noise.seed, DEFAULT_NOISE_SEED);
    let mut seen = [false; 256];
    for i in 0..256usize {
        let v = noise.table_entry(i);
        assert!(0 <= v && v < 256);
        assert!(!seen[v as usize]);
        seen[v as usize] = true;
    }
}
