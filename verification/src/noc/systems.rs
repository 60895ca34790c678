//! The systems of the bouncing-ball simulation: integration, velocity
//! clamping, boundary response, collision response and lifecycle, each a
//! pass over the component stores.
use vstd::prelude::*;
use crate::bouncy_balls::data::{attr_fits, Attributes};
use crate::entity::Entity;
use crate::grid::{lemma_bucket_index_in_range, Grid};
use crate::math::{
    abs_i64, abs_spec, clamp_spec, is_isqrt, lemma_div_mul_le, lemma_div_product_bound,
    lemma_isqrt_exists, lemma_ratio_abs, mul_ratio, mul_ratio_spec, SCALAR_LIMIT,
};
use crate::store::Store;
use crate::vec2::{in_box, mag_spec, mag_sq_spec, Vec2, COORD_LIMIT};
use crate::SCALE;

verus! {

/// Largest magnitude a position, velocity or acceleration component may
/// carry on entry to the integration systems: the sum of two such values
/// still fits in [`COORD_LIMIT`].
pub const STEP_LIMIT: i64 = 500_000_000;

/// Every value of the map lies within `[-b, b]` on both axes.
pub open spec fn vals_in_box(m: Map<usize, Vec2>, b: int) -> bool {
    forall|k: usize| #[trigger] m.contains_key(k) ==> in_box(m[k], b)
}

/// Component-wise sum.
pub open spec fn vadd(a: Vec2, b: Vec2) -> Vec2 {
    Vec2 { x: (a.x + b.x) as i64, y: (a.y + b.y) as i64 }
}

/// Both components clamped into `[lo, hi]`.
pub open spec fn vclamp(v: Vec2, lo: int, hi: int) -> Vec2 {
    Vec2 {
        x: clamp_spec(v.x as int, lo, hi) as i64,
        y: clamp_spec(v.y as int, lo, hi) as i64,
    }
}

/// Applies each entity's acceleration to its velocity, then zeroes the
/// acceleration: impulses act once per tick.  An entity missing either
/// component is skipped.
pub fn acceleration_system(acc_store: &mut Store<Vec2>, vel_store: &mut Store<Vec2>)
    requires
        vals_in_box(old(acc_store)@, STEP_LIMIT as int),
        vals_in_box(old(vel_store)@, STEP_LIMIT as int),
    ensures
        forall|k: usize|
            final(vel_store)@.contains_key(k) == old(vel_store)@.contains_key(k),
        forall|k: usize|
            final(acc_store)@.contains_key(k) == old(acc_store)@.contains_key(k),
        forall|k: usize| #[trigger]
            old(vel_store)@.contains_key(k) ==> final(vel_store)@[k] == if old(
                acc_store,
            )@.contains_key(k) {
                vadd(old(vel_store)@[k], old(acc_store)@[k])
            } else {
                old(vel_store)@[k]
            },
        forall|k: usize| #[trigger]
            old(acc_store)@.contains_key(k) ==> final(acc_store)@[k] == if old(
                vel_store,
            )@.contains_key(k) {
                Vec2 { x: 0, y: 0 }
            } else {
                old(acc_store)@[k]
            },
        vals_in_box(final(vel_store)@, COORD_LIMIT as int),
        vals_in_box(final(acc_store)@, STEP_LIMIT as int),
{
    let n = vel_store.slot_count();
    let mut k: usize = 0;
    while k < n
        invariant
            k <= n,
            n == vel_store.slot_bound(),
            forall|j: usize|
                vel_store@.contains_key(j) == old(vel_store)@.contains_key(j),
            forall|j: usize|
                acc_store@.contains_key(j) == old(acc_store)@.contains_key(j),
            forall|j: usize| #[trigger]
                old(vel_store)@.contains_key(j) && j >= k ==> vel_store@[j] == old(
                    vel_store,
                )@[j],
            forall|j: usize| #[trigger]
                old(acc_store)@.contains_key(j) && j >= k ==> acc_store@[j] == old(
                    acc_store,
                )@[j],
            forall|j: usize| #[trigger]
                old(vel_store)@.contains_key(j) && j < k ==> vel_store@[j] == if old(
                    acc_store,
                )@.contains_key(j) {
                    vadd(old(vel_store)@[j], old(acc_store)@[j])
                } else {
                    old(vel_store)@[j]
                },
            forall|j: usize| #[trigger]
                old(acc_store)@.contains_key(j) && j < k ==> acc_store@[j] == if old(
                    vel_store,
                )@.contains_key(j) {
                    Vec2 { x: 0, y: 0 }
                } else {
                    old(acc_store)@[j]
                },
            vals_in_box(vel_store@, COORD_LIMIT as int),
            vals_in_box(acc_store@, STEP_LIMIT as int),
        decreases n - k,
    {
        let e = Entity { id: k };
        if let Some(v) = vel_store.get(e) {
            if let Some(a) = acc_store.get(e) {
                proof {
                    vel_store.lemma_key_in_bound(k);
                    acc_store.lemma_key_in_bound(k);
                }
                let mut nv = v;
                nv.add(&a);
                vel_store.add(e, nv);
                acc_store.add(e, Vec2::zero());
            }
        }
        k = k + 1;
    }
    proof {
        assert forall|k2: usize| #[trigger] old(vel_store)@.contains_key(k2) implies k2
            < n by {
            old(vel_store).lemma_key_in_bound(k2);
        }
    }
}

/// An entity the movement pass advances: it has a position, attributes and
/// a velocity.
pub open spec fn moved(
    pos: Map<usize, Vec2>,
    atr: Map<usize, Attributes>,
    vel: Map<usize, Vec2>,
    k: usize,
) -> bool {
    pos.contains_key(k) && atr.contains_key(k) && vel.contains_key(k)
}

/// `a` with its recorded bucket replaced by `idx`.
pub open spec fn with_region(a: Attributes, idx: usize) -> Attributes {
    Attributes { mass: a.mass, color: a.color, radius: a.radius, region: idx }
}

/// Every recorded bucket index lies within the grid.
pub open spec fn regions_in_range(m: Map<usize, Attributes>, total: int) -> bool {
    forall|k: usize| #[trigger] m.contains_key(k) ==> m[k].region < total
}

/// Adds each entity's velocity to its position, then moves the entity's id
/// from the bucket recorded in its attributes to the bucket its new position
/// maps to, recording that bucket.  An entity missing a position, a velocity
/// or attributes is left where it is.
///
/// On exit every advanced entity's recorded bucket index equals the index
/// recomputed from its current position and the field size, its id is in
/// that bucket and in no other: the grid/position consistency invariant.
pub fn movement_system(
    width: i64,
    height: i64,
    vel_store: &Store<Vec2>,
    pos_store: &mut Store<Vec2>,
    atr_store: &mut Store<Attributes>,
    regions: &mut Grid,
)
    requires
        old(regions).wf(),
        1 <= width <= COORD_LIMIT,
        1 <= height <= COORD_LIMIT,
        vals_in_box(old(pos_store)@, STEP_LIMIT as int),
        vals_in_box(vel_store@, STEP_LIMIT as int),
        regions_in_range(old(atr_store)@, old(regions).total()),
        forall|k: usize|
            moved(old(pos_store)@, old(atr_store)@, vel_store@, k) ==> old(regions).only_in(
                k,
                old(atr_store)@[k].region as int,
            ),
    ensures
        final(regions).wf(),
        final(regions).spec_rows() == old(regions).spec_rows(),
        final(regions).spec_columns() == old(regions).spec_columns(),
        forall|k: usize|
            final(pos_store)@.contains_key(k) == old(pos_store)@.contains_key(k),
        forall|k: usize|
            final(atr_store)@.contains_key(k) == old(atr_store)@.contains_key(k),
        forall|k: usize| #[trigger]
            old(pos_store)@.contains_key(k) ==> final(pos_store)@[k] == if moved(
                old(pos_store)@, old(atr_store)@, vel_store@, k) {
                vadd(old(pos_store)@[k], vel_store@[k])
            } else {
                old(pos_store)@[k]
            },
        forall|k: usize| #[trigger]
            old(atr_store)@.contains_key(k) ==> final(atr_store)@[k] == if moved(
                old(pos_store)@, old(atr_store)@, vel_store@, k) {
                with_region(
                    old(atr_store)@[k],
                    final(regions).index_of(
                        vadd(old(pos_store)@[k], vel_store@[k]),
                        width as int,
                        height as int,
                    ) as usize,
                )
            } else {
                old(atr_store)@[k]
            },
        forall|k: usize| #[trigger]
            moved(old(pos_store)@, old(atr_store)@, vel_store@, k) ==> {
                let idx = final(regions).index_of(
                    vadd(old(pos_store)@[k], vel_store@[k]),
                    width as int,
                    height as int,
                );
                final(regions).bucket_has(idx, k) && final(regions).only_in(k, idx)
            },
        forall|o: usize, j: int|
            !moved(old(pos_store)@, old(atr_store)@, vel_store@, o) && 0 <= j < final(regions).total()
                ==> final(regions).bucket_has(j, o) == old(regions).bucket_has(j, o),
        regions_in_range(final(atr_store)@, final(regions).total()),
        grid_registered(*old(regions), old(atr_store)@) ==> grid_registered(
            *final(regions),
            final(atr_store)@,
        ),
        vals_in_box(final(pos_store)@, COORD_LIMIT as int),
{
    let n = pos_store.slot_count();
    let mut k: usize = 0;
    while k < n
        invariant
            k <= n,
            n == pos_store.slot_bound(),
            regions.wf(),
            regions.spec_rows() == old(regions).spec_rows(),
            regions.spec_columns() == old(regions).spec_columns(),
            forall|j: usize|
                pos_store@.contains_key(j) == old(pos_store)@.contains_key(j),
            forall|j: usize|
                atr_store@.contains_key(j) == old(atr_store)@.contains_key(j),
            forall|j: usize| #[trigger]
                old(pos_store)@.contains_key(j) && j >= k ==> pos_store@[j] == old(
                    pos_store,
                )@[j],
            forall|j: usize| #[trigger]
                old(atr_store)@.contains_key(j) && j >= k ==> atr_store@[j] == old(
                    atr_store,
                )@[j],
            forall|j: usize| #[trigger]
                old(pos_store)@.contains_key(j) && j < k ==> pos_store@[j] == if moved(
                    old(pos_store)@, old(atr_store)@, vel_store@, j) {
                    vadd(old(pos_store)@[j], vel_store@[j])
                } else {
                    old(pos_store)@[j]
                },
            forall|j: usize| #[trigger]
                old(atr_store)@.contains_key(j) && j < k ==> atr_store@[j] == if moved(
                    old(pos_store)@, old(atr_store)@, vel_store@, j) {
                    with_region(
                        old(atr_store)@[j],
                        regions.index_of(
                            vadd(old(pos_store)@[j], vel_store@[j]),
                            width as int,
                            height as int,
                        ) as usize,
                    )
                } else {
                    old(atr_store)@[j]
                },
            forall|j: usize| #[trigger]
                moved(old(pos_store)@, old(atr_store)@, vel_store@, j) && j < k ==> {
                    let idx = regions.index_of(
                        vadd(old(pos_store)@[j], vel_store@[j]),
                        width as int,
                        height as int,
                    );
                    regions.bucket_has(idx, j) && regions.only_in(j, idx)
                },
            forall|o: usize, j: int|
                (o >= k || !moved(old(pos_store)@, old(atr_store)@, vel_store@, o)) && 0 <= j
                    < regions.total() ==> regions.bucket_has(j, o) == old(regions).bucket_has(j, o),
            regions_in_range(atr_store@, regions.total()),
            vals_in_box(pos_store@, COORD_LIMIT as int),
        decreases n - k,
    {
        let e = Entity { id: k };
        if let Some(p) = pos_store.get(e) {
            if let Some(a) = atr_store.get(e) {
                if let Some(v) = vel_store.get(e) {
                    proof {
                        pos_store.lemma_key_in_bound(k);
                        atr_store.lemma_key_in_bound(k);
                    }
                    let mut np = p;
                    np.add(&v);
                    pos_store.add(e, np);
                    regions.remove(a.region, k);
                    let idx = regions.bucket_index(&np, width, height);
                    atr_store.add(
                        e,
                        Attributes { mass: a.mass, color: a.color, radius: a.radius, region: idx },
                    );
                    regions.insert(idx, k);
                }
            }
        }
        k = k + 1;
    }
    proof {
        assert forall|k2: usize| #[trigger] old(pos_store)@.contains_key(k2) implies k2
            < n by {
            old(pos_store).lemma_key_in_bound(k2);
        }
        if grid_registered(*old(regions), old(atr_store)@) {
            assert forall|k2: usize, j: int|
                0 <= j < regions.total() && #[trigger] regions.bucket_has(j, k2)
                    implies atr_store@.contains_key(k2) && j == atr_store@[k2].region as int by {
                if moved(old(pos_store)@, old(atr_store)@, vel_store@, k2) {
                    assert(old(pos_store)@.contains_key(k2));
                    assert(k2 < n);
                    let np = vadd(old(pos_store)@[k2], vel_store@[k2]);
                    let idx = regions.index_of(np, width as int, height as int);
                    regions.lemma_total_fits();
                    lemma_bucket_index_in_range(
                        np,
                        width as int,
                        height as int,
                        regions.spec_columns(),
                        regions.spec_rows(),
                    );
                    assert(regions.only_in(k2, idx));
                    assert(j == idx);
                    assert(atr_store@[k2] == with_region(old(atr_store)@[k2], idx as usize));
                    assert(atr_store@[k2].region == idx as usize);
                } else {
                    assert(regions.bucket_has(j, k2) == old(regions).bucket_has(j, k2));
                    assert(old(atr_store)@.contains_key(k2) && j == old(
                        atr_store,
                    )@[k2].region as int);
                }
            }
        }
    }
}

/// Clamps every stored velocity into `[lo, hi]` per axis: the symmetric
/// velocity bound that keeps collision responses from running away.
pub fn clamp_velocities(vel_store: &mut Store<Vec2>, lo: i64, hi: i64)
    requires
        lo <= hi,
    ensures
        forall|k: usize|
            final(vel_store)@.contains_key(k) == old(vel_store)@.contains_key(k),
        forall|k: usize| #[trigger]
            old(vel_store)@.contains_key(k) ==> final(vel_store)@[k] == vclamp(
                old(vel_store)@[k],
                lo as int,
                hi as int,
            ),
        forall|k: usize| #[trigger]
            final(vel_store)@.contains_key(k) ==> lo <= final(vel_store)@[k].x <= hi && lo
                <= final(vel_store)@[k].y <= hi,
{
    let n = vel_store.slot_count();
    let mut k: usize = 0;
    while k < n
        invariant
            k <= n,
            n == vel_store.slot_bound(),
            forall|j: usize|
                vel_store@.contains_key(j) == old(vel_store)@.contains_key(j),
            forall|j: usize| #[trigger]
                old(vel_store)@.contains_key(j) && j >= k ==> vel_store@[j] == old(
                    vel_store,
                )@[j],
            forall|j: usize| #[trigger]
                old(vel_store)@.contains_key(j) && j < k ==> vel_store@[j] == vclamp(
                    old(vel_store)@[j],
                    lo as int,
                    hi as int,
                ),
        decreases n - k,
    {
        let e = Entity { id: k };
        if let Some(v) = vel_store.get(e) {
            proof {
                vel_store.lemma_key_in_bound(k);
            }
            let mut nv = v;
            nv.constrain(lo, hi, lo, hi);
            vel_store.add(e, nv);
        }
        k = k + 1;
    }
    proof {
        assert forall|k2: usize| #[trigger] old(vel_store)@.contains_key(k2) implies k2
            < n by {
            old(vel_store).lemma_key_in_bound(k2);
        }
    }
}

/// The perpendicular velocity component after a wall hit: inverted and
/// scaled by one over the mass, so heavier entities rebound less.
pub open spec fn flip_rebound(v: int, mass: int) -> int {
    -mul_ratio_spec(v, SCALE as int, mass)
}

/// A heavier entity rebounds no harder: the reflected component's
/// magnitude never grows with the mass.
pub proof fn lemma_rebound_monotone(v: int, m1: int, m2: int)
    requires
        1 <= m1 <= m2,
    ensures
        abs_spec(flip_rebound(v, m2)) <= abs_spec(flip_rebound(v, m1)),
{
    crate::math::lemma_ratio_ordered_by_den(v, SCALE as int, m1, m2);
}

/// One entity's position and velocity after the boundary pass: the position
/// clamped into `[radius, extent - radius]` per axis, then, for each wall
/// the clamped position rests on, the perpendicular velocity component
/// inverted and damped by the mass and the tangential one reduced by that
/// wall's friction factor, in the order left, bottom, right, top.
pub open spec fn bounce_spec(p: Vec2, v: Vec2, radius: int, mass: int, w: int, h: int) -> (
    Vec2,
    Vec2,
) {
    let px = clamp_spec(p.x as int, radius, w - radius);
    let py = clamp_spec(p.y as int, radius, h - radius);
    let v1 = if px == radius {
        Vec2 { x: flip_rebound(v.x as int, mass) as i64, y: mul_ratio_spec(v.y as int, 99, 100) as i64 }
    } else {
        v
    };
    let v2 = if py == radius {
        Vec2 { x: mul_ratio_spec(v1.x as int, 9, 10) as i64, y: flip_rebound(v1.y as int, mass) as i64 }
    } else {
        v1
    };
    let v3 = if px == w - radius {
        Vec2 { x: flip_rebound(v2.x as int, mass) as i64, y: mul_ratio_spec(v2.y as int, 99, 100) as i64 }
    } else {
        v2
    };
    let v4 = if py == h - radius {
        Vec2 { x: mul_ratio_spec(v3.x as int, 95, 100) as i64, y: flip_rebound(v3.y as int, mass) as i64 }
    } else {
        v3
    };
    (Vec2 { x: px as i64, y: py as i64 }, v4)
}

/// Clamps each entity's position into the field and reflects its velocity
/// off any wall it rests on.  An entity missing a position, a velocity or
/// attributes is skipped.  No position leaves
/// `[radius, extent - radius]` on either axis.
#[verifier::rlimit(100)]
pub fn boundary_system(
    width: i64,
    height: i64,
    vel_store: &mut Store<Vec2>,
    pos_store: &mut Store<Vec2>,
    atr_store: &Store<Attributes>,
)
    requires
        1 <= width <= COORD_LIMIT,
        1 <= height <= COORD_LIMIT,
        vals_in_box(old(pos_store)@, COORD_LIMIT as int),
        vals_in_box(old(vel_store)@, 1_000_000),
        forall|k: usize| #[trigger]
            atr_store@.contains_key(k) ==> attr_fits(atr_store@[k], width as int, height as int),
    ensures
        forall|k: usize|
            final(pos_store)@.contains_key(k) == old(pos_store)@.contains_key(k),
        forall|k: usize|
            final(vel_store)@.contains_key(k) == old(vel_store)@.contains_key(k),
        forall|k: usize| #[trigger]
            old(pos_store)@.contains_key(k) ==> if moved(
                old(pos_store)@, atr_store@, old(vel_store)@, k) {
                final(pos_store)@[k] == bounce_spec(
                    old(pos_store)@[k],
                    old(vel_store)@[k],
                    atr_store@[k].radius as int,
                    atr_store@[k].mass as int,
                    width as int,
                    height as int,
                ).0
            } else {
                final(pos_store)@[k] == old(pos_store)@[k]
            },
        forall|k: usize| #[trigger]
            old(vel_store)@.contains_key(k) ==> if moved(
                old(pos_store)@, atr_store@, old(vel_store)@, k) {
                final(vel_store)@[k] == bounce_spec(
                    old(pos_store)@[k],
                    old(vel_store)@[k],
                    atr_store@[k].radius as int,
                    atr_store@[k].mass as int,
                    width as int,
                    height as int,
                ).1
            } else {
                final(vel_store)@[k] == old(vel_store)@[k]
            },
        forall|k: usize| #[trigger]
            moved(old(pos_store)@, atr_store@, old(vel_store)@, k) ==> {
                &&& atr_store@[k].radius <= final(pos_store)@[k].x <= width - atr_store@[k].radius
                &&& atr_store@[k].radius <= final(pos_store)@[k].y <= height - atr_store@[k].radius
            },
        vals_in_box(final(pos_store)@, COORD_LIMIT as int),
        vals_in_box(final(vel_store)@, SCALAR_LIMIT as int),
{
    let n = pos_store.slot_count();
    let mut k: usize = 0;
    while k < n
        invariant
            k <= n,
            n == pos_store.slot_bound(),
            forall|j: usize|
                pos_store@.contains_key(j) == old(pos_store)@.contains_key(j),
            forall|j: usize|
                vel_store@.contains_key(j) == old(vel_store)@.contains_key(j),
            forall|j: usize| #[trigger]
                old(pos_store)@.contains_key(j) && j >= k ==> pos_store@[j] == old(
                    pos_store,
                )@[j],
            forall|j: usize| #[trigger]
                old(vel_store)@.contains_key(j) && j >= k ==> vel_store@[j] == old(
                    vel_store,
                )@[j],
            forall|j: usize| #[trigger]
                old(pos_store)@.contains_key(j) && j < k ==> if moved(
                    old(pos_store)@, atr_store@, old(vel_store)@, j) {
                    pos_store@[j] == bounce_spec(
                        old(pos_store)@[j],
                        old(vel_store)@[j],
                        atr_store@[j].radius as int,
                        atr_store@[j].mass as int,
                        width as int,
                        height as int,
                    ).0
                } else {
                    pos_store@[j] == old(pos_store)@[j]
                },
            forall|j: usize| #[trigger]
                old(vel_store)@.contains_key(j) && j < k ==> if moved(
                    old(pos_store)@, atr_store@, old(vel_store)@, j) {
                    vel_store@[j] == bounce_spec(
                        old(pos_store)@[j],
                        old(vel_store)@[j],
                        atr_store@[j].radius as int,
                        atr_store@[j].mass as int,
                        width as int,
                        height as int,
                    ).1
                } else {
                    vel_store@[j] == old(vel_store)@[j]
                },
            vals_in_box(pos_store@, COORD_LIMIT as int),
            vals_in_box(vel_store@, SCALAR_LIMIT as int),
        decreases n - k,
    {
        let e = Entity { id: k };
        if let Some(p) = pos_store.get(e) {
            if let Some(a) = atr_store.get(e) {
                if let Some(v) = vel_store.get(e) {
                    proof {
                        pos_store.lemma_key_in_bound(k);
                        vel_store.lemma_key_in_bound(k);
                    }
                    let ghost r = a.radius as int;
                    let ghost m = a.mass as int;
                    let ghost w = width as int;
                    let ghost h = height as int;
                    let mut np = p;
                    np.constrain(a.radius, width - a.radius, a.radius, height - a.radius);
                    let mut vx = v.x;
                    let mut vy = v.y;
                    let ghost v1 = if np.x as int == r {
                        Vec2 {
                            x: flip_rebound(v.x as int, m) as i64,
                            y: mul_ratio_spec(v.y as int, 99, 100) as i64,
                        }
                    } else {
                        v
                    };
                    if np.x == a.radius {
                        let fx = mul_ratio(vx, SCALE as u64, a.mass as u64);
                        vx = -fx;
                        vy = mul_ratio(vy, 99, 100);
                    }
                    proof {
                        assert(vx == v1.x && vy == v1.y);
                    }
                    let ghost v2 = if np.y as int == r {
                        Vec2 {
                            x: mul_ratio_spec(v1.x as int, 9, 10) as i64,
                            y: flip_rebound(v1.y as int, m) as i64,
                        }
                    } else {
                        v1
                    };
                    if np.y == a.radius {
                        let fy = mul_ratio(vy, SCALE as u64, a.mass as u64);
                        vx = mul_ratio(vx, 9, 10);
                        vy = -fy;
                    }
                    proof {
                        assert(vx == v2.x && vy == v2.y);
                    }
                    let ghost v3 = if np.x as int == w - r {
                        Vec2 {
                            x: flip_rebound(v2.x as int, m) as i64,
                            y: mul_ratio_spec(v2.y as int, 99, 100) as i64,
                        }
                    } else {
                        v2
                    };
                    if np.x == width - a.radius {
                        let fx = mul_ratio(vx, SCALE as u64, a.mass as u64);
                        vx = -fx;
                        vy = mul_ratio(vy, 99, 100);
                    }
                    proof {
                        assert(vx == v3.x && vy == v3.y);
                    }
                    let ghost v4 = if np.y as int == h - r {
                        Vec2 {
                            x: mul_ratio_spec(v3.x as int, 95, 100) as i64,
                            y: flip_rebound(v3.y as int, m) as i64,
                        }
                    } else {
                        v3
                    };
                    if np.y == height - a.radius {
                        let fy = mul_ratio(vy, SCALE as u64, a.mass as u64);
                        vx = mul_ratio(vx, 95, 100);
                        vy = -fy;
                    }
                    proof {
                        assert(vx == v4.x && vy == v4.y);
                        assert(bounce_spec(p, v, r, m, w, h) == (np, v4));
                    }
                    pos_store.add(e, np);
                    vel_store.add(e, Vec2 { x: vx, y: vy });
                }
            }
        }
        k = k + 1;
    }
    proof {
        assert forall|k2: usize| #[trigger] old(pos_store)@.contains_key(k2) implies k2
            < n by {
            old(pos_store).lemma_key_in_bound(k2);
        }
    }
}

/// Largest velocity component the collision response accepts: the rescaled
/// result then still fits within [`COORD_LIMIT`].
pub const SWAP_LIMIT: i64 = 700_000_000;

/// The velocity that keeps `keep`'s speed and takes `from`'s heading: each
/// component of `from` rescaled by the ratio of the two magnitudes, the
/// division rounding toward zero.  When `from` is the zero vector its
/// heading is taken as zero, so the whole speed lands on the x axis.
pub open spec fn redirect_spec(keep: Vec2, from: Vec2) -> Vec2 {
    let ma = mag_spec(keep);
    if from.x == 0 && from.y == 0 {
        Vec2 { x: ma as i64, y: 0 }
    } else {
        let mb = mag_spec(from);
        Vec2 {
            x: mul_ratio_spec(from.x as int, ma, mb) as i64,
            y: mul_ratio_spec(from.y as int, ma, mb) as i64,
        }
    }
}

/// The magnitude of a vector within `[-SWAP_LIMIT, SWAP_LIMIT]` on both
/// axes is itself below a billion, and each component's magnitude is at
/// most the vector's.
proof fn lemma_mag_bounds(v: Vec2)
    requires
        in_box(v, SWAP_LIMIT as int),
    ensures
        is_isqrt(mag_sq_spec(v), mag_spec(v)),
        0 <= mag_spec(v) < 990_000_000,
        abs_spec(v.x as int) <= mag_spec(v),
        abs_spec(v.y as int) <= mag_spec(v),
        (v.x == 0 && v.y == 0) ==> mag_spec(v) == 0,
        !(v.x == 0 && v.y == 0) ==> 1 <= mag_spec(v),
{
    let n = mag_sq_spec(v);
    assert(0 <= n <= 980_000_000_000_000_000) by (nonlinear_arith)
        requires
            n == v.x * v.x + v.y * v.y,
            -700_000_000 <= v.x <= 700_000_000,
            -700_000_000 <= v.y <= 700_000_000,
    ;
    lemma_isqrt_exists(n);
    let m = mag_spec(v);
    assert(m < 990_000_000) by (nonlinear_arith)
        requires
            0 <= m,
            m * m <= 980_000_000_000_000_000,
    ;
    assert(abs_spec(v.x as int) <= m && abs_spec(v.y as int) <= m) by (nonlinear_arith)
        requires
            is_isqrt(n, m),
            n == v.x * v.x + v.y * v.y,
    ;
    if v.x == 0 && v.y == 0 {
        assert(n == 0) by (nonlinear_arith)
            requires
                n == v.x * v.x + v.y * v.y,
                v.x == 0,
                v.y == 0,
        ;
        assert(m == 0) by (nonlinear_arith)
            requires
                is_isqrt(n, m),
                n == 0,
        ;
    } else {
        assert(n >= 1) by (nonlinear_arith)
            requires
                n == v.x * v.x + v.y * v.y,
                !(v.x == 0 && v.y == 0),
        ;
        assert(m >= 1) by (nonlinear_arith)
            requires
                is_isqrt(n, m),
                n >= 1,
        ;
    }
}

/// Computes [`redirect_spec`]: the collision response for one entity of a
/// colliding pair.
pub fn redirect(keep: &Vec2, from: &Vec2) -> (r: Vec2)
    requires
        in_box(*keep, SWAP_LIMIT as int),
        in_box(*from, SWAP_LIMIT as int),
    ensures
        r == redirect_spec(*keep, *from),
        in_box(r, COORD_LIMIT as int),
{
    proof {
        lemma_mag_bounds(*keep);
        lemma_mag_bounds(*from);
    }
    let ma: u64 = keep.mag();
    if from.x == 0 && from.y == 0 {
        Vec2 { x: ma as i64, y: 0 }
    } else {
        let mb: u64 = from.mag();
        let ax: u64 = abs_i64(from.x) as u64;
        let ay: u64 = abs_i64(from.y) as u64;
        proof {
            assert(ax * ma < 990_000_000 * 990_000_000) by (nonlinear_arith)
                requires
                    0 <= ax < 990_000_000,
                    0 <= ma < 990_000_000,
            ;
            assert(ay * ma < 990_000_000 * 990_000_000) by (nonlinear_arith)
                requires
                    0 <= ay < 990_000_000,
                    0 <= ma < 990_000_000,
            ;
            lemma_div_product_bound(ax as int, ma as int, mb as int);
            lemma_div_product_bound(ay as int, ma as int, mb as int);
            lemma_ratio_abs(from.x as int, ma as int, mb as int);
            lemma_ratio_abs(from.y as int, ma as int, mb as int);
        }
        let qx: u64 = (ax * ma) / mb;
        let qy: u64 = (ay * ma) / mb;
        let rx: i64 = if from.x < 0 {
            -(qx as i64)
        } else {
            qx as i64
        };
        let ry: i64 = if from.y < 0 {
            -(qy as i64)
        } else {
            qy as i64
        };
        Vec2 { x: rx, y: ry }
    }
}

/// Speed is preserved by the heading swap up to fixed-point rounding: the
/// response's squared magnitude, scaled by the heading donor's squared
/// (rounded) magnitude, never exceeds the kept (rounded) speed squared
/// times the donor's exact squared magnitude; and no component of the
/// response points against the donor's heading.
pub proof fn lemma_redirect_preserves_speed(keep: Vec2, from: Vec2)
    requires
        in_box(keep, SWAP_LIMIT as int),
        in_box(from, SWAP_LIMIT as int),
    ensures
        ({
            let r = redirect_spec(keep, from);
            let ma = mag_spec(keep);
            let mb = mag_spec(from);
            &&& ma * ma <= mag_sq_spec(keep) < (ma + 1) * (ma + 1)
            &&& (from.x == 0 && from.y == 0) ==> mag_sq_spec(r) == ma * ma
            &&& !(from.x == 0 && from.y == 0) ==> {
                &&& mb * mb <= mag_sq_spec(from) < (mb + 1) * (mb + 1)
                &&& mag_sq_spec(r) * (mb * mb) <= (ma * ma) * mag_sq_spec(from)
                &&& (abs_spec(r.x as int) + 1) * mb > abs_spec(from.x as int) * ma
                &&& (abs_spec(r.y as int) + 1) * mb > abs_spec(from.y as int) * ma
                &&& r.x * from.x >= 0
                &&& r.y * from.y >= 0
            }
        }),
{
    lemma_mag_bounds(keep);
    lemma_mag_bounds(from);
    let r = redirect_spec(keep, from);
    let ma = mag_spec(keep);
    let mb = mag_spec(from);
    if from.x == 0 && from.y == 0 {
        assert(0 <= ma < 990_000_000);
        assert(r.x == ma && r.y == 0);
        assert(mag_sq_spec(r) == r.x * r.x + r.y * r.y);
        assert(mag_sq_spec(r) == ma * ma) by (nonlinear_arith)
            requires
                mag_sq_spec(r) == r.x * r.x + r.y * r.y,
                r.x == ma,
                r.y == 0,
        ;
    } else {
        let bx = from.x as int;
        let by = from.y as int;
        let abx = abs_spec(bx);
        let aby = abs_spec(by);
        lemma_ratio_abs(bx, ma, mb);
        lemma_ratio_abs(by, ma, mb);
        lemma_div_product_bound(abx, ma, mb);
        lemma_div_product_bound(aby, ma, mb);
        let rx = r.x as int;
        let ry = r.y as int;
        assert(rx == mul_ratio_spec(bx, ma, mb) && ry == mul_ratio_spec(by, ma, mb));
        let arx = abs_spec(rx);
        let ary = abs_spec(ry);
        assert(abx * ma >= 0 && aby * ma >= 0) by (nonlinear_arith)
            requires
                abx >= 0,
                aby >= 0,
                ma >= 0,
        ;
        lemma_div_mul_le(abx * ma, mb);
        lemma_div_mul_le(aby * ma, mb);
        assert(mb * arx <= abx * ma);
        assert(mb * ary <= aby * ma);
        assert((arx + 1) * mb > abx * ma) by {
            vstd::arithmetic::div_mod::lemma_remainder_upper(abx * ma, mb);
            assert((arx + 1) * mb == arx * mb + mb) by (nonlinear_arith);
            assert(arx * mb == (abx * ma) / mb * mb);
        }
        assert((ary + 1) * mb > aby * ma) by {
            vstd::arithmetic::div_mod::lemma_remainder_upper(aby * ma, mb);
            assert((ary + 1) * mb == ary * mb + mb) by (nonlinear_arith);
            assert(ary * mb == (aby * ma) / mb * mb);
        }
        assert((rx * rx) * (mb * mb) <= (ma * ma) * (bx * bx)) by (nonlinear_arith)
            requires
                0 <= mb * arx <= abx * ma,
                arx == abs_spec(rx),
                abx == abs_spec(bx),
        ;
        assert((ry * ry) * (mb * mb) <= (ma * ma) * (by * by)) by (nonlinear_arith)
            requires
                0 <= mb * ary <= aby * ma,
                ary == abs_spec(ry),
                aby == abs_spec(by),
        ;
        assert(mag_sq_spec(r) * (mb * mb) <= (ma * ma) * mag_sq_spec(from)) by (nonlinear_arith)
            requires
                mag_sq_spec(r) == rx * rx + ry * ry,
                mag_sq_spec(from) == bx * bx + by * by,
                (rx * rx) * (mb * mb) <= (ma * ma) * (bx * bx),
                (ry * ry) * (mb * mb) <= (ma * ma) * (by * by),
        ;
        if bx >= 0 {
            assert(bx * ma >= 0) by (nonlinear_arith)
                requires
                    bx >= 0,
                    ma >= 0,
            ;
            vstd::arithmetic::div_mod::lemma_div_pos_is_pos(bx * ma, mb);
            assert(rx >= 0);
            assert(rx * bx >= 0) by (nonlinear_arith)
                requires
                    rx >= 0,
                    bx >= 0,
            ;
        } else {
            assert((-bx) * ma >= 0) by (nonlinear_arith)
                requires
                    bx < 0,
                    ma >= 0,
            ;
            vstd::arithmetic::div_mod::lemma_div_pos_is_pos((-bx) * ma, mb);
            assert(rx <= 0);
            assert(rx * bx >= 0) by (nonlinear_arith)
                requires
                    rx <= 0,
                    bx < 0,
            ;
        }
        if by >= 0 {
            assert(by * ma >= 0) by (nonlinear_arith)
                requires
                    by >= 0,
                    ma >= 0,
            ;
            vstd::arithmetic::div_mod::lemma_div_pos_is_pos(by * ma, mb);
            assert(ry >= 0);
            assert(ry * by >= 0) by (nonlinear_arith)
                requires
                    ry >= 0,
                    by >= 0,
            ;
        } else {
            assert((-by) * ma >= 0) by (nonlinear_arith)
                requires
                    by < 0,
                    ma >= 0,
            ;
            vstd::arithmetic::div_mod::lemma_div_pos_is_pos((-by) * ma, mb);
            assert(ry <= 0);
            assert(ry * by >= 0) by (nonlinear_arith)
                requires
                    ry <= 0,
                    by < 0,
            ;
        }
    }
}

/// Every stored radius is nonnegative and at most a thousand units.
pub open spec fn radii_ok(m: Map<usize, Attributes>) -> bool {
    forall|k: usize| #[trigger] m.contains_key(k) ==> 0 <= m[k].radius <= 1_000_000
}

/// Entities `a` and `b` collide: both carry a position and attributes, they
/// are distinct, `b` shares the bucket recorded for `a`, and their centers
/// lie within the sum of their radii.
pub open spec fn colliding(
    pos: Map<usize, Vec2>,
    atr: Map<usize, Attributes>,
    g: Grid,
    a: usize,
    b: usize,
) -> bool {
    &&& pos.contains_key(a) && atr.contains_key(a)
    &&& pos.contains_key(b) && atr.contains_key(b)
    &&& b != a
    &&& g.bucket_has(atr[a].region as int, b)
    &&& crate::vec2::dist_sq_spec(pos[a], pos[b]) <= (atr[a].radius + atr[b].radius) * (
        atr[a].radius + atr[b].radius)
}

/// A collision as the detector reports it: witnessed once, from the lower
/// id's recorded bucket, so one collision responds exactly once rather than
/// once per direction.
pub open spec fn pair_hit(
    pos: Map<usize, Vec2>,
    atr: Map<usize, Attributes>,
    g: Grid,
    a: usize,
    b: usize,
) -> bool {
    a < b && colliding(pos, atr, g, a, b)
}

/// The hits found while scanning the first `j` entries of the bucket
/// recorded for entity `a`, in the bucket's order.
pub open spec fn bucket_hits(
    pos: Map<usize, Vec2>,
    atr: Map<usize, Attributes>,
    g: Grid,
    a: usize,
    j: int,
) -> Seq<(Entity, Entity)>
    decreases j,
{
    if j <= 0 {
        Seq::empty()
    } else {
        let rest = bucket_hits(pos, atr, g, a, j - 1);
        let b = g.bucket_seq(atr[a].region as int)[j - 1];
        if pair_hit(pos, atr, g, a, b) {
            rest.push((Entity { id: a }, Entity { id: b }))
        } else {
            rest
        }
    }
}

/// Every hit among the entities with ids below `n`, in detection order:
/// lower first ids first, and within one entity's bucket in the bucket's
/// order.  This names the exact pair list the collision pass responds to.
pub open spec fn detect_spec(
    pos: Map<usize, Vec2>,
    atr: Map<usize, Attributes>,
    g: Grid,
    n: int,
) -> Seq<(Entity, Entity)>
    decreases n,
{
    if n <= 0 {
        Seq::empty()
    } else {
        let a = (n - 1) as usize;
        detect_spec(pos, atr, g, n - 1) + if pos.contains_key(a) && atr.contains_key(a) {
            bucket_hits(pos, atr, g, a, g.bucket_seq(atr[a].region as int).len() as int)
        } else {
            Seq::empty()
        }
    }
}

/// A pushed sequence keeps everything the sequence held.
proof fn lemma_push_keeps_contains<T>(s: Seq<T>, x: T, y: T)
    requires
        s.contains(y),
    ensures
        s.push(x).contains(y),
{
    let k = choose|k: int| 0 <= k < s.len() && s[k] == y;
    assert(s.push(x)[k] == y);
}

/// Collects every collision, examining for each entity only the entities
/// recorded in its bucket.  Each collision is listed exactly as
/// [`detect_spec`] names it: once, witnessed from the lower id's recorded
/// bucket — sound, and complete for every such hit.
pub fn detect_collisions(
    pos_store: &Store<Vec2>,
    atr_store: &Store<Attributes>,
    regions: &Grid,
) -> (pairs: Vec<(Entity, Entity)>)
    requires
        regions.wf(),
        regions_in_range(atr_store@, regions.total()),
        radii_ok(atr_store@),
        vals_in_box(pos_store@, COORD_LIMIT as int),
    ensures
        pairs@ == detect_spec(
            pos_store@,
            atr_store@,
            *regions,
            pos_store.slot_bound() as int,
        ),
        forall|i: int|
            0 <= i < pairs@.len() ==> pair_hit(
                pos_store@,
                atr_store@,
                *regions,
                (#[trigger] pairs@[i]).0.id,
                pairs@[i].1.id,
            ),
        forall|a: usize, b: usize|
            pair_hit(pos_store@, atr_store@, *regions, a, b) ==> pairs@.contains(
                (Entity { id: a }, Entity { id: b }),
            ),
{
    let mut pairs: Vec<(Entity, Entity)> = Vec::new();
    let n = pos_store.slot_count();
    let mut a_id: usize = 0;
    while a_id < n
        invariant
            a_id <= n,
            n == pos_store.slot_bound(),
            pairs@ == detect_spec(pos_store@, atr_store@, *regions, a_id as int),
            forall|i: int|
                0 <= i < pairs@.len() ==> pair_hit(
                    pos_store@,
                    atr_store@,
                    *regions,
                    (#[trigger] pairs@[i]).0.id,
                    pairs@[i].1.id,
                ),
            forall|a2: usize, b2: usize|
                a2 < a_id && pair_hit(pos_store@, atr_store@, *regions, a2, b2)
                    ==> pairs@.contains((Entity { id: a2 }, Entity { id: b2 })),
        decreases n - a_id,
    {
        let ea = Entity { id: a_id };
        let ghost at_entry = pairs@;
        if let Some(pa) = pos_store.get(ea) {
            if let Some(aa) = atr_store.get(ea) {
                let region = aa.region;
                let bl = regions.bucket_len(region);
                let mut j: usize = 0;
                while j < bl
                    invariant
                        j <= bl,
                        bl == regions.bucket_seq(region as int).len(),
                        pos_store@.contains_key(a_id),
                        atr_store@.contains_key(a_id),
                        aa == atr_store@[a_id],
                        pa == pos_store@[a_id],
                        region == aa.region,
                        at_entry == detect_spec(pos_store@, atr_store@, *regions, a_id as int),
                        pairs@ =~= at_entry + bucket_hits(
                            pos_store@,
                            atr_store@,
                            *regions,
                            a_id,
                            j as int,
                        ),
                        forall|i: int|
                            0 <= i < pairs@.len() ==> pair_hit(
                                pos_store@,
                                atr_store@,
                                *regions,
                                (#[trigger] pairs@[i]).0.id,
                                pairs@[i].1.id,
                            ),
                        forall|a2: usize, b2: usize|
                            a2 < a_id && pair_hit(pos_store@, atr_store@, *regions, a2, b2)
                                ==> pairs@.contains((Entity { id: a2 }, Entity { id: b2 })),
                        forall|jj: int|
                            0 <= jj < j && pair_hit(
                                pos_store@,
                                atr_store@,
                                *regions,
                                a_id,
                                #[trigger] regions.bucket_seq(region as int)[jj],
                            ) ==> pairs@.contains(
                                (Entity { id: a_id }, Entity {
                                    id: regions.bucket_seq(region as int)[jj],
                                }),
                            ),
                    decreases bl - j,
                {
                    let b_id = regions.bucket_get(region, j);
                    let ghost prev = pairs@;
                    if b_id > a_id {
                        let eb = Entity { id: b_id };
                        if let Some(pb) = pos_store.get(eb) {
                            if let Some(ab) = atr_store.get(eb) {
                                let rad: u64 = (aa.radius + ab.radius) as u64;
                                proof {
                                    assert(rad * rad == (aa.radius + ab.radius) * (aa.radius
                                        + ab.radius) <= 4_000_000_000_000) by (nonlinear_arith)
                                        requires
                                            rad == aa.radius + ab.radius,
                                            0 <= aa.radius <= 1_000_000,
                                            0 <= ab.radius <= 1_000_000,
                                    ;
                                }
                                let rad_sq: u64 = rad * rad;
                                let d = pa.dist_sq(&pb);
                                if d <= rad_sq {
                                    pairs.push((ea, eb));
                                }
                            }
                        }
                    }
                    proof {
                        assert(pairs@ =~= at_entry + bucket_hits(
                            pos_store@,
                            atr_store@,
                            *regions,
                            a_id,
                            j as int + 1,
                        ));
                        assert forall|e1: Entity, e2: Entity|
                            prev.contains((e1, e2)) implies pairs@.contains((e1, e2)) by {
                            if pairs@.len() > prev.len() {
                                lemma_push_keeps_contains(prev, pairs@.last(), (e1, e2));
                            }
                        }
                        if pairs@.len() > prev.len() {
                            assert(pairs@.last() == (ea, Entity {
                                id: regions.bucket_seq(region as int)[j as int],
                            }));
                            assert(pairs@.contains(pairs@.last()));
                        }
                    }
                    j = j + 1;
                }
                proof {
                    assert(pairs@ =~= detect_spec(
                        pos_store@,
                        atr_store@,
                        *regions,
                        a_id as int + 1,
                    ));
                    assert forall|b2: usize|
                        pair_hit(pos_store@, atr_store@, *regions, a_id, b2) implies pairs@.contains(
                        (Entity { id: a_id }, Entity { id: b2 }),
                    ) by {
                        assert(regions.bucket_has(region as int, b2));
                        let jj = choose|jj: int|
                            0 <= jj < regions.bucket_seq(region as int).len()
                                && regions.bucket_seq(region as int)[jj] == b2;
                        assert(pair_hit(
                            pos_store@,
                            atr_store@,
                            *regions,
                            a_id,
                            regions.bucket_seq(region as int)[jj],
                        ));
                    }
                }
            } else {
                proof {
                    assert(pairs@ =~= detect_spec(
                        pos_store@,
                        atr_store@,
                        *regions,
                        a_id as int + 1,
                    ));
                }
            }
        } else {
            proof {
                assert(pairs@ =~= detect_spec(
                    pos_store@,
                    atr_store@,
                    *regions,
                    a_id as int + 1,
                ));
            }
        }
        a_id = a_id + 1;
    }
    proof {
        assert forall|a2: usize, b2: usize|
            pair_hit(pos_store@, atr_store@, *regions, a2, b2) implies pairs@.contains(
            (Entity { id: a2 }, Entity { id: b2 }),
        ) by {
            pos_store.lemma_key_in_bound(a2);
        }
    }
    pairs
}

/// The velocity map after responding to one colliding pair: each entity
/// takes the other's heading and keeps its own speed.  A pair is left
/// untouched when either entity misses a velocity, the two are the same
/// entity, or a speed is outside the range the fixed-point rescale accepts.
pub open spec fn swap_pair(vels: Map<usize, Vec2>, a: usize, b: usize) -> Map<usize, Vec2> {
    if a != b && vels.contains_key(a) && vels.contains_key(b) && in_box(
        vels[a],
        SWAP_LIMIT as int,
    ) && in_box(vels[b], SWAP_LIMIT as int) {
        vels.insert(a, redirect_spec(vels[a], vels[b])).insert(
            b,
            redirect_spec(vels[b], vels[a]),
        )
    } else {
        vels
    }
}

/// The velocity map after responding to the first `k` pairs, in order.
pub open spec fn apply_prefix(
    pairs: Seq<(Entity, Entity)>,
    k: int,
    vels: Map<usize, Vec2>,
) -> Map<usize, Vec2>
    decreases k,
{
    if k <= 0 {
        vels
    } else {
        let prev = apply_prefix(pairs, k - 1, vels);
        swap_pair(prev, pairs[k - 1].0.id, pairs[k - 1].1.id)
    }
}

/// Responds to each collected pair in order, swapping the two entities'
/// headings while keeping each one's own speed.
pub fn apply_collisions(pairs: &Vec<(Entity, Entity)>, vel_store: &mut Store<Vec2>)
    requires
        vals_in_box(old(vel_store)@, COORD_LIMIT as int),
    ensures
        final(vel_store)@ == apply_prefix(pairs@, pairs@.len() as int, old(vel_store)@),
        forall|k: usize|
            final(vel_store)@.contains_key(k) == old(vel_store)@.contains_key(k),
        vals_in_box(final(vel_store)@, COORD_LIMIT as int),
{
    let n = pairs.len();
    let mut i: usize = 0;
    while i < n
        invariant
            i <= n,
            n == pairs@.len(),
            vel_store@ == apply_prefix(pairs@, i as int, old(vel_store)@),
            forall|k: usize|
                vel_store@.contains_key(k) == old(vel_store)@.contains_key(k),
            vals_in_box(vel_store@, COORD_LIMIT as int),
        decreases n - i,
    {
        let pr = pairs[i];
        let ea = pr.0;
        let eb = pr.1;
        let ghost prev = vel_store@;
        if ea.id != eb.id {
            if let Some(va) = vel_store.get(ea) {
                if let Some(vb) = vel_store.get(eb) {
                    let ok_a = -SWAP_LIMIT <= va.x && va.x <= SWAP_LIMIT && -SWAP_LIMIT <= va.y
                        && va.y <= SWAP_LIMIT;
                    let ok_b = -SWAP_LIMIT <= vb.x && vb.x <= SWAP_LIMIT && -SWAP_LIMIT <= vb.y
                        && vb.y <= SWAP_LIMIT;
                    if ok_a && ok_b {
                        proof {
                            vel_store.lemma_key_in_bound(ea.id);
                            vel_store.lemma_key_in_bound(eb.id);
                        }
                        let na = redirect(&va, &vb);
                        let nb = redirect(&vb, &va);
                        vel_store.add(ea, na);
                        vel_store.add(eb, nb);
                    }
                }
            }
        }
        proof {
            assert(vel_store@ == swap_pair(prev, ea.id, eb.id));
        }
        i = i + 1;
    }
}

/// Detects every collision — examining for each entity only its own bucket
/// — then responds to the detected pairs in order: the two velocities swap
/// headings while each keeps its own speed.  Pairs are collected in one
/// pass and applied in a second, so one response never affects detection;
/// each collision responds exactly as [`detect_spec`] lists it, once, so
/// the final velocities are pinned by the fold over that list.
pub fn collision_system(
    vel_store: &mut Store<Vec2>,
    pos_store: &Store<Vec2>,
    atr_store: &Store<Attributes>,
    regions: &Grid,
)
    requires
        regions.wf(),
        regions_in_range(atr_store@, regions.total()),
        radii_ok(atr_store@),
        vals_in_box(pos_store@, COORD_LIMIT as int),
        vals_in_box(old(vel_store)@, COORD_LIMIT as int),
    ensures
        ({
            let hits = detect_spec(
                pos_store@,
                atr_store@,
                *regions,
                pos_store.slot_bound() as int,
            );
            &&& final(vel_store)@ == apply_prefix(hits, hits.len() as int, old(vel_store)@)
            &&& forall|i: int|
                0 <= i < hits.len() ==> pair_hit(
                    pos_store@,
                    atr_store@,
                    *regions,
                    (#[trigger] hits[i]).0.id,
                    hits[i].1.id,
                )
            &&& forall|a: usize, b: usize|
                pair_hit(pos_store@, atr_store@, *regions, a, b) ==> hits.contains(
                    (Entity { id: a }, Entity { id: b }),
                )
        }),
        forall|k: usize|
            final(vel_store)@.contains_key(k) == old(vel_store)@.contains_key(k),
        vals_in_box(final(vel_store)@, COORD_LIMIT as int),
{
    let pairs = detect_collisions(pos_store, atr_store, regions);
    apply_collisions(&pairs, vel_store);
}

/// How far beyond the field an entity may stray before it is dropped.
pub const DROP_MARGIN: i64 = 2_000;

/// Speed per axis below which an entity counts as resting.
pub const REST_SPEED: i64 = 380;

/// Height above the floor within which a resting entity is dropped.
pub const FLOOR_MARGIN: i64 = 400;

/// The position lies outside the field by more than the drop margin.
pub open spec fn out_of_field(p: Vec2, w: int, h: int) -> bool {
    ||| p.x > w + DROP_MARGIN
    ||| p.x < -DROP_MARGIN
    ||| p.y > h + DROP_MARGIN
    ||| p.y < -DROP_MARGIN
}

/// The lifecycle pass removes entity `k`: its position is out of the field,
/// or it rests near the floor with speed below the threshold on both axes.
pub open spec fn dropped_spec(
    pos: Map<usize, Vec2>,
    vel: Map<usize, Vec2>,
    atr: Map<usize, Attributes>,
    k: usize,
    w: int,
    h: int,
) -> bool {
    ||| (pos.contains_key(k) && out_of_field(pos[k], w, h))
    ||| (vel.contains_key(k) && pos.contains_key(k) && atr.contains_key(k) && abs_spec(
        vel[k].x as int,
    ) < REST_SPEED && abs_spec(vel[k].y as int) < REST_SPEED && pos[k].y - atr[k].radius
        < FLOOR_MARGIN)
}

/// The ids the lifecycle pass removes.
pub open spec fn dropped_ids(
    pos: Map<usize, Vec2>,
    vel: Map<usize, Vec2>,
    atr: Map<usize, Attributes>,
    w: int,
    h: int,
) -> Set<usize> {
    Set::new(|k: usize| dropped_spec(pos, vel, atr, k, w, h))
}

/// Every id the grid records belongs to an entity with attributes and sits
/// exactly in that entity's recorded bucket.
pub open spec fn grid_registered(g: Grid, atr: Map<usize, Attributes>) -> bool {
    forall|k: usize, j: int|
        0 <= j < g.total() && #[trigger] g.bucket_has(j, k) ==> atr.contains_key(k) && j
            == atr[k].region as int
}

/// A registered grid holds each attributed entity in its recorded bucket
/// alone: the premise the movement pass asks for follows from
/// registration, so a driver that keeps the grid registered may run tick
/// after tick.
pub proof fn lemma_registered_implies_only_in(g: Grid, atr: Map<usize, Attributes>, k: usize)
    requires
        grid_registered(g, atr),
        atr.contains_key(k),
    ensures
        g.only_in(k, atr[k].region as int),
{
    assert forall|j: int|
        0 <= j < g.total() && j != atr[k].region as int implies !g.bucket_has(j, k) by {
        if g.bucket_has(j, k) {
            assert(j == atr[k].region as int);
        }
    }
}

/// Removes every entity that left the field by more than the margin or came
/// to rest at the floor.  Removal cascades: the registry, every store and
/// the spatial grid forget the entity, so no dangling entry survives.
#[verifier::rlimit(60)]
pub fn drop_system(
    width: i64,
    height: i64,
    entity_manager: &mut crate::entity::EntityManager,
    acc_store: &mut Store<Vec2>,
    vel_store: &mut Store<Vec2>,
    pos_store: &mut Store<Vec2>,
    atr_store: &mut Store<Attributes>,
    regions: &mut Grid,
)
    requires
        old(entity_manager).wf(),
        old(regions).wf(),
        0 <= width <= COORD_LIMIT,
        0 <= height <= COORD_LIMIT,
        vals_in_box(old(pos_store)@, COORD_LIMIT as int),
        radii_ok(old(atr_store)@),
        regions_in_range(old(atr_store)@, old(regions).total()),
        grid_registered(*old(regions), old(atr_store)@),
    ensures
        final(entity_manager).wf(),
        final(entity_manager).spec_len() == old(entity_manager).live_ids().difference(
            dropped_ids(
                old(pos_store)@,
                old(vel_store)@,
                old(atr_store)@,
                width as int,
                height as int,
            ),
        ).len(),
        final(regions).wf(),
        final(regions).spec_rows() == old(regions).spec_rows(),
        final(regions).spec_columns() == old(regions).spec_columns(),
        grid_registered(*final(regions), final(atr_store)@),
        forall|k: usize| #[trigger]
            dropped_spec(
                old(pos_store)@,
                old(vel_store)@,
                old(atr_store)@,
                k,
                width as int,
                height as int,
            ) ==> {
                &&& !final(entity_manager).spec_live(k)
                &&& !final(acc_store)@.contains_key(k)
                &&& !final(vel_store)@.contains_key(k)
                &&& !final(pos_store)@.contains_key(k)
                &&& !final(atr_store)@.contains_key(k)
                &&& forall|j: int|
                    0 <= j < final(regions).total() ==> !final(regions).bucket_has(j, k)
            },
        forall|k: usize|
            !dropped_spec(
                old(pos_store)@,
                old(vel_store)@,
                old(atr_store)@,
                k,
                width as int,
                height as int,
            ) ==> {
                &&& final(entity_manager).spec_live(k) == old(entity_manager).spec_live(k)
                &&& final(acc_store)@.contains_key(k) == old(acc_store)@.contains_key(k)
                &&& (old(acc_store)@.contains_key(k) ==> final(acc_store)@[k] == old(
                    acc_store,
                )@[k])
                &&& final(vel_store)@.contains_key(k) == old(vel_store)@.contains_key(k)
                &&& (old(vel_store)@.contains_key(k) ==> final(vel_store)@[k] == old(
                    vel_store,
                )@[k])
                &&& final(pos_store)@.contains_key(k) == old(pos_store)@.contains_key(k)
                &&& (old(pos_store)@.contains_key(k) ==> final(pos_store)@[k] == old(
                    pos_store,
                )@[k])
                &&& final(atr_store)@.contains_key(k) == old(atr_store)@.contains_key(k)
                &&& (old(atr_store)@.contains_key(k) ==> final(atr_store)@[k] == old(
                    atr_store,
                )@[k])
                &&& forall|j: int|
                    0 <= j < final(regions).total() ==> final(regions).bucket_has(j, k) == old(
                        regions,
                    ).bucket_has(j, k)
            },
{
    let mut to_drop: Vec<Entity> = Vec::new();
    let n = pos_store.slot_count();
    let mut k: usize = 0;
    while k < n
        invariant
            k <= n,
            forall|i: int|
                0 <= i < to_drop@.len() ==> dropped_spec(
                    pos_store@,
                    vel_store@,
                    atr_store@,
                    (#[trigger] to_drop@[i]).id,
                    width as int,
                    height as int,
                ),
            forall|k2: usize|
                k2 < k && pos_store@.contains_key(k2) && out_of_field(
                    pos_store@[k2],
                    width as int,
                    height as int,
                ) ==> to_drop@.contains(Entity { id: k2 }),
        decreases n - k,
    {
        let e = Entity { id: k };
        if let Some(p) = pos_store.get(e) {
            let ghost prev = to_drop@;
            if p.x > width + DROP_MARGIN || p.x < -DROP_MARGIN || p.y > height + DROP_MARGIN
                || p.y < -DROP_MARGIN {
                to_drop.push(e);
            }
            proof {
                assert forall|e2: Entity| prev.contains(e2) implies to_drop@.contains(e2) by {
                    if to_drop@.len() > prev.len() {
                        lemma_push_keeps_contains(prev, to_drop@.last(), e2);
                    }
                }
                if to_drop@.len() > prev.len() {
                    assert(to_drop@.contains(to_drop@.last()));
                }
            }
        }
        k = k + 1;
    }
    let m = vel_store.slot_count();
    let mut k: usize = 0;
    while k < m
        invariant
            k <= m,
            forall|i: int|
                0 <= i < to_drop@.len() ==> dropped_spec(
                    pos_store@,
                    vel_store@,
                    atr_store@,
                    (#[trigger] to_drop@[i]).id,
                    width as int,
                    height as int,
                ),
            forall|k2: usize|
                pos_store@.contains_key(k2) && out_of_field(
                    pos_store@[k2],
                    width as int,
                    height as int,
                ) ==> to_drop@.contains(Entity { id: k2 }),
            forall|k2: usize|
                k2 < k && vel_store@.contains_key(k2) && pos_store@.contains_key(k2)
                    && atr_store@.contains_key(k2) && abs_spec(vel_store@[k2].x as int)
                    < REST_SPEED && abs_spec(vel_store@[k2].y as int) < REST_SPEED
                    && pos_store@[k2].y - atr_store@[k2].radius < FLOOR_MARGIN
                    ==> to_drop@.contains(Entity { id: k2 }),
        decreases m - k,
    {
        let e = Entity { id: k };
        if let Some(v) = vel_store.get(e) {
            if let Some(p) = pos_store.get(e) {
                if let Some(a) = atr_store.get(e) {
                    let ghost prev = to_drop@;
                    if -REST_SPEED < v.x && v.x < REST_SPEED && -REST_SPEED < v.y && v.y
                        < REST_SPEED && p.y - a.radius < FLOOR_MARGIN {
                        to_drop.push(e);
                    }
                    proof {
                        assert forall|e2: Entity| prev.contains(e2) implies to_drop@.contains(
                            e2,
                        ) by {
                            if to_drop@.len() > prev.len() {
                                lemma_push_keeps_contains(prev, to_drop@.last(), e2);
                            }
                        }
                        if to_drop@.len() > prev.len() {
                            assert(to_drop@.contains(to_drop@.last()));
                        }
                    }
                }
            }
        }
        k = k + 1;
    }
    let ghost marked = to_drop@;
    proof {
        assert forall|k2: usize|
            dropped_spec(
                old(pos_store)@,
                old(vel_store)@,
                old(atr_store)@,
                k2,
                width as int,
                height as int,
            ) implies marked.contains(Entity { id: k2 }) by {}
        assert(forall|i: int|
            0 <= i < marked.len() ==> dropped_spec(
                old(pos_store)@,
                old(vel_store)@,
                old(atr_store)@,
                (#[trigger] marked[i]).id,
                width as int,
                height as int,
            ));
    }
    let t = to_drop.len();
    let mut i: usize = 0;
    while i < t
        invariant
            i <= t,
            t == marked.len(),
            to_drop@ == marked,
            entity_manager.wf(),
            regions.wf(),
            regions.spec_rows() == old(regions).spec_rows(),
            regions.spec_columns() == old(regions).spec_columns(),
            grid_registered(*regions, atr_store@),
            regions_in_range(atr_store@, regions.total()),
            forall|k2: usize|
                #![trigger marked.take(i as int).contains(Entity { id: k2 })]
                marked.take(i as int).contains(Entity { id: k2 }) ==> {
                    &&& !entity_manager.spec_live(k2)
                    &&& !acc_store@.contains_key(k2)
                    &&& !vel_store@.contains_key(k2)
                    &&& !pos_store@.contains_key(k2)
                    &&& !atr_store@.contains_key(k2)
                    &&& forall|j: int| 0 <= j < regions.total() ==> !regions.bucket_has(j, k2)
                },
            forall|k2: usize|
                #![trigger marked.take(i as int).contains(Entity { id: k2 })]
                !marked.take(i as int).contains(Entity { id: k2 }) ==> {
                    &&& entity_manager.spec_live(k2) == old(entity_manager).spec_live(k2)
                    &&& acc_store@.contains_key(k2) == old(acc_store)@.contains_key(k2)
                    &&& (old(acc_store)@.contains_key(k2) ==> acc_store@[k2] == old(
                        acc_store,
                    )@[k2])
                    &&& vel_store@.contains_key(k2) == old(vel_store)@.contains_key(k2)
                    &&& (old(vel_store)@.contains_key(k2) ==> vel_store@[k2] == old(
                        vel_store,
                    )@[k2])
                    &&& pos_store@.contains_key(k2) == old(pos_store)@.contains_key(k2)
                    &&& (old(pos_store)@.contains_key(k2) ==> pos_store@[k2] == old(
                        pos_store,
                    )@[k2])
                    &&& atr_store@.contains_key(k2) == old(atr_store)@.contains_key(k2)
                    &&& (old(atr_store)@.contains_key(k2) ==> atr_store@[k2] == old(
                        atr_store,
                    )@[k2])
                    &&& forall|j: int|
                        0 <= j < regions.total() ==> regions.bucket_has(j, k2) == old(
                            regions,
                        ).bucket_has(j, k2)
                },
        decreases t - i,
    {
        let td = to_drop[i];
        let ghost em0 = *entity_manager;
        let ghost g0 = *regions;
        let ghost acc0 = acc_store@;
        let ghost vel0 = vel_store@;
        let ghost pos0 = pos_store@;
        let ghost atr0 = atr_store@;
        proof {
            marked.lemma_take_succ_push(i as int);
        }
        entity_manager.drop(td);
        if let Some(a) = atr_store.get(td) {
            regions.remove(a.region, td.id);
            proof {
                assert forall|j: int, o: usize|
                    0 <= j < regions.total() && o != td.id implies #[trigger] regions.bucket_has(
                    j,
                    o,
                ) == g0.bucket_has(j, o) by {}
                assert forall|j: int| 0 <= j < regions.total() implies !regions.bucket_has(
                    j,
                    td.id,
                ) by {
                    if j != a.region as int {
                        assert(regions.bucket_has(j, td.id) == g0.bucket_has(j, td.id));
                        if g0.bucket_has(j, td.id) {
                            assert(j == atr0[td.id].region as int);
                        }
                    }
                }
            }
        } else {
            proof {
                assert forall|j: int, o: usize|
                    0 <= j < regions.total() && o != td.id implies #[trigger] regions.bucket_has(
                    j,
                    o,
                ) == g0.bucket_has(j, o) by {}
                assert forall|j: int| 0 <= j < regions.total() implies !regions.bucket_has(
                    j,
                    td.id,
                ) by {
                    if g0.bucket_has(j, td.id) {
                        assert(atr0.contains_key(td.id));
                    }
                }
            }
        }
        proof {
            assert(forall|j: int, o: usize|
                0 <= j < regions.total() && o != td.id ==> #[trigger] regions.bucket_has(j, o)
                    == g0.bucket_has(j, o));
            assert(forall|j: int| 0 <= j < regions.total() ==> !regions.bucket_has(j, td.id));
        }
        pos_store.drop(td);
        vel_store.drop(td);
        acc_store.drop(td);
        atr_store.drop(td);
        proof {
            assert forall|k2: usize|
                marked.take(i as int + 1).contains(Entity { id: k2 }) && !marked.take(
                    i as int,
                ).contains(Entity { id: k2 }) implies k2 == td.id by {
                let w = choose|w: int|
                    0 <= w < i + 1 && #[trigger] marked.take(i as int + 1)[w] == Entity {
                        id: k2,
                    };
                if w < i {
                    assert(marked.take(i as int)[w] == Entity { id: k2 });
                }
            }
            assert forall|k2: usize|
                !marked.take(i as int + 1).contains(Entity { id: k2 }) implies !marked.take(
                i as int,
            ).contains(Entity { id: k2 }) by {
                if marked.take(i as int).contains(Entity { id: k2 }) {
                    let w = choose|w: int|
                        0 <= w < i && #[trigger] marked.take(i as int)[w] == Entity { id: k2 };
                    assert(marked.take(i as int + 1)[w] == Entity { id: k2 });
                }
            }
            assert(marked.take(i as int + 1).contains(Entity { id: td.id })) by {
                assert(marked.take(i as int + 1)[i as int] == td);
            }
            assert forall|k2: usize, j: int|
                0 <= j < regions.total() && #[trigger] regions.bucket_has(j, k2)
                    implies atr_store@.contains_key(k2) && j == atr_store@[k2].region as int by {
                if k2 != td.id {
                    assert(regions.bucket_has(j, k2) == g0.bucket_has(j, k2));
                }
            }
            assert forall|k2: usize|
                #![trigger marked.take(i as int + 1).contains(Entity { id: k2 })]
                marked.take(i as int + 1).contains(Entity { id: k2 }) implies {
                    &&& !entity_manager.spec_live(k2)
                    &&& !acc_store@.contains_key(k2)
                    &&& !vel_store@.contains_key(k2)
                    &&& !pos_store@.contains_key(k2)
                    &&& !atr_store@.contains_key(k2)
                    &&& forall|j: int| 0 <= j < regions.total() ==> !regions.bucket_has(j, k2)
                } by {
                if k2 != td.id {
                    assert(marked.take(i as int).contains(Entity { id: k2 }));
                    assert(!entity_manager.spec_live(k2));
                    assert forall|j: int| 0 <= j < regions.total() implies !regions.bucket_has(
                        j,
                        k2,
                    ) by {
                        assert(j < g0.total());
                        assert(!g0.bucket_has(j, k2));
                        assert(regions.bucket_has(j, k2) == g0.bucket_has(j, k2));
                    }
                }
            }
            assert forall|k2: usize|
                #![trigger marked.take(i as int + 1).contains(Entity { id: k2 })]
                !marked.take(i as int + 1).contains(Entity { id: k2 }) implies {
                    &&& entity_manager.spec_live(k2) == old(entity_manager).spec_live(k2)
                    &&& acc_store@.contains_key(k2) == old(acc_store)@.contains_key(k2)
                    &&& (old(acc_store)@.contains_key(k2) ==> acc_store@[k2] == old(
                        acc_store,
                    )@[k2])
                    &&& vel_store@.contains_key(k2) == old(vel_store)@.contains_key(k2)
                    &&& (old(vel_store)@.contains_key(k2) ==> vel_store@[k2] == old(
                        vel_store,
                    )@[k2])
                    &&& pos_store@.contains_key(k2) == old(pos_store)@.contains_key(k2)
                    &&& (old(pos_store)@.contains_key(k2) ==> pos_store@[k2] == old(
                        pos_store,
                    )@[k2])
                    &&& atr_store@.contains_key(k2) == old(atr_store)@.contains_key(k2)
                    &&& (old(atr_store)@.contains_key(k2) ==> atr_store@[k2] == old(
                        atr_store,
                    )@[k2])
                    &&& forall|j: int|
                        0 <= j < regions.total() ==> regions.bucket_has(j, k2) == old(
                            regions,
                        ).bucket_has(j, k2)
                } by {
                assert(k2 != td.id);
                assert(!marked.take(i as int).contains(Entity { id: k2 }));
                assert forall|j: int|
                    0 <= j < regions.total() implies regions.bucket_has(j, k2) == old(
                    regions,
                ).bucket_has(j, k2) by {
                    assert(j < g0.total());
                    assert(regions.bucket_has(j, k2) == g0.bucket_has(j, k2));
                    assert(g0.bucket_has(j, k2) == old(regions).bucket_has(j, k2));
                }
            }
        }
        i = i + 1;
    }
    proof {
        assert(marked.take(t as int) =~= marked);
        assert forall|k: usize| #[trigger]
            dropped_spec(
                old(pos_store)@,
                old(vel_store)@,
                old(atr_store)@,
                k,
                width as int,
                height as int,
            ) implies marked.take(t as int).contains(Entity { id: k }) by {
            assert(marked.contains(Entity { id: k }));
        }
        assert forall|k: usize|
            !dropped_spec(
                old(pos_store)@,
                old(vel_store)@,
                old(atr_store)@,
                k,
                width as int,
                height as int,
            ) implies !marked.take(t as int).contains(Entity { id: k }) by {
            if marked.take(t as int).contains(Entity { id: k }) {
                let w = choose|w: int|
                    0 <= w < marked.len() && #[trigger] marked[w] == Entity { id: k };
                assert(dropped_spec(
                    old(pos_store)@,
                    old(vel_store)@,
                    old(atr_store)@,
                    marked[w].id,
                    width as int,
                    height as int,
                ));
            }
        }
        entity_manager.lemma_len_is_live_count();
        assert forall|k: usize|
            final(entity_manager).spec_live(k) == (old(entity_manager).spec_live(k)
                && !dropped_spec(
                old(pos_store)@,
                old(vel_store)@,
                old(atr_store)@,
                k,
                width as int,
                height as int,
            )) by {
            if dropped_spec(
                old(pos_store)@,
                old(vel_store)@,
                old(atr_store)@,
                k,
                width as int,
                height as int,
            ) {
                assert(marked.take(t as int).contains(Entity { id: k }));
            } else {
                assert(!marked.take(t as int).contains(Entity { id: k }));
            }
        }
        assert(final(entity_manager).live_ids() =~= old(entity_manager).live_ids().difference(
            dropped_ids(
                old(pos_store)@,
                old(vel_store)@,
                old(atr_store)@,
                width as int,
                height as int,
            ),
        ));
    }
}

/// One circle for the display driver to draw: center in bottom-left-origin
/// coordinates, radius and colour.
#[derive(Clone, Copy, PartialEq, Eq, Structural, Debug)]
pub struct DrawRequest {
    pub x: i64,
    pub y: i64,
    pub radius: i64,
    pub color: crate::bouncy_balls::data::Color,
}

/// The draw request for one entity: the y axis is flipped so the origin
/// sits at the bottom left instead of the top left.
pub open spec fn draw_item(pos: Vec2, a: Attributes, height: int) -> DrawRequest {
    DrawRequest { x: pos.x, y: (height - pos.y) as i64, radius: a.radius, color: a.color }
}

/// Draw requests for the entities with ids below `n` that carry both a
/// position and attributes, in id order.
pub open spec fn draw_list(
    pos: Map<usize, Vec2>,
    atr: Map<usize, Attributes>,
    height: int,
    n: int,
) -> Seq<DrawRequest>
    decreases n,
{
    if n <= 0 {
        Seq::empty()
    } else {
        let rest = draw_list(pos, atr, height, n - 1);
        let k = (n - 1) as usize;
        if pos.contains_key(k) && atr.contains_key(k) {
            rest.push(draw_item(pos[k], atr[k], height))
        } else {
            rest
        }
    }
}

/// Produces one draw request per entity with a position and attributes, the
/// y coordinate flipped into the driver's bottom-left-origin system.
pub fn render_system(
    height: i64,
    pos_store: &Store<Vec2>,
    atr_store: &Store<Attributes>,
) -> (r: Vec<DrawRequest>)
    requires
        0 <= height <= COORD_LIMIT,
        vals_in_box(pos_store@, COORD_LIMIT as int),
    ensures
        r@ == draw_list(
            pos_store@,
            atr_store@,
            height as int,
            pos_store.slot_bound() as int,
        ),
{
    let mut r: Vec<DrawRequest> = Vec::new();
    let n = pos_store.slot_count();
    let mut k: usize = 0;
    while k < n
        invariant
            k <= n,
            n == pos_store.slot_bound(),
            r@ == draw_list(pos_store@, atr_store@, height as int, k as int),
        decreases n - k,
    {
        let e = Entity { id: k };
        if let Some(p) = pos_store.get(e) {
            if let Some(a) = atr_store.get(e) {
                r.push(DrawRequest { x: p.x, y: height - p.y, radius: a.radius, color: a.color });
            }
        }
        k = k + 1;
    }
    r
}

} // verus!
