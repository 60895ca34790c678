//! The entity registry, component stores and spatial grid from the
//! outside.
use rusty_nature_of_code::entity::{Entity, EntityManager};
use rusty_nature_of_code::grid::Grid;
use rusty_nature_of_code::store::Store;
use rusty_nature_of_code::vec2::Vec2;

#[test]
fn registry_issues_fresh_ids() {
    let mut em = EntityManager::new();
    let a = em.next();
    let b = em.next();
    let c = em.next();
    assert_ne!(a.id(), b.id());
    assert_ne!(b.id(), c.id());
    assert_ne!(a.id(), c.id());
    assert_eq!(em.len(), 3);
    assert!(em.is_live(a) && em.is_live(b) && em.is_live(c));
}

#[test]
fn registry_drop_invalidates() {
    let mut em = EntityManager::new();
    let a = em.next();
    let b = em.next();
    em.drop(a);
    assert!(!em.is_live(a));
    assert!(em.is_live(b));
    assert_eq!(em.len(), 1);
    let c = em.next();
    assert_ne!(c.id(), a.id());
    assert_ne!(c.id(), b.id());
}

#[test]
fn registry_dropping_dead_id_is_harmless() {
    let mut em = EntityManager::new();
    let a = em.next();
    let b = em.next();
    em.drop(a);
    em.drop(a);
    em.drop(Entity { id: 999 });
    assert_eq!(em.len(), 1);
    assert!(em.is_live(b));
}

#[test]
fn store_add_get_overwrite_drop() {
    let mut s: Store<Vec2> = Store::new();
    let e = Entity { id: 4 };
    assert!(s.get(e).is_none());
    s.add(e, Vec2::new(7, -3));
    assert_eq!(s.get(e), Some(Vec2::new(7, -3)));
    s.add(e, Vec2::new(1, 2));
    assert_eq!(s.get(e), Some(Vec2::new(1, 2)));
    s.drop(e);
    assert!(s.get(e).is_none());
    s.drop(e);
    assert!(s.get(e).is_none());
}

#[test]
fn stores_are_independent() {
    let mut pos: Store<Vec2> = Store::new();
    let mut vel: Store<Vec2> = Store::new();
    let e = Entity { id: 0 };
    pos.add(e, Vec2::new(5, 5));
    vel.add(e, Vec2::new(1, 1));
    pos.drop(e);
    assert!(pos.get(e).is_none());
    assert_eq!(vel.get(e), Some(Vec2::new(1, 1)));
}

#[test]
fn grid_insert_remove_contains() {
    let mut g = Grid::new(5, 5);
    assert_eq!(g.bucket_count(), 25);
    g.insert(7, 42);
    assert!(g.contains(7, 42));
    assert!(!g.contains(8, 42));
    g.insert(7, 42);
    assert_eq!(g.bucket_len(7), 1);
    g.remove(7, 42);
    assert!(!g.contains(7, 42));
    g.remove(7, 42);
    assert_eq!(g.bucket_len(7), 0);
}

#[test]
fn grid_bucket_index_is_deterministic_and_in_range() {
    let g = Grid::new(5, 5);
    let w = 640_000i64;
    let h = 480_000i64;
    let p = Vec2::new(320_000, 120_000);
    let i1 = g.bucket_index(&p, w, h);
    let i2 = g.bucket_index(&p, w, h);
    assert_eq!(i1, i2);
    assert!(i1 < 25);
    // col = clamp(320000*10/640000, 1, 4) = 4, row = clamp(120000*10/480000, 1, 4) = 2
    assert_eq!(i1, 4 + 2 * 5);
    // positions left of or above the field land in the clamped first cells
    let q = Vec2::new(-50_000, -50_000);
    assert_eq!(g.bucket_index(&q, w, h), 1 + 1 * 5);
}
