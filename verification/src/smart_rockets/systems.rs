//! The systems of the smart-rockets search: fitness, crossover and
//! mutation, integration with inertial damping, the boundary response, and
//! per-generation regeneration.
use vstd::prelude::*;
use crate::entity::Entity;
use crate::math::{clamp_spec, lemma_div_product_bound, mul_ratio, mul_ratio_spec};
use crate::noc::random;
use crate::noc::systems::{vadd, vals_in_box};
use crate::bouncy_balls::data::Color;
use crate::noc::systems::DrawRequest;
use crate::smart_rockets::data::{world_fits, Attributes, World};
use crate::smart_rockets::{choose_two, coin};
use crate::store::Store;
use crate::vec2::{Vec2, COORD_LIMIT};
use crate::SCALE;

verus! {

/// Number of genes in one agent's move sequence.
pub const DNA_LEN: usize = 10;

/// Number of distinct moves a gene can select.
pub const MOVE_KINDS: usize = 10;

/// One agent's move sequence: a fixed-length run of small gene values, each
/// selecting a move from the bank.
pub type Dna = [usize; DNA_LEN];

/// The fitness weight for an agent at distance `d` from the target in a
/// field `width` wide: zero at or beyond one field width, scaling linearly
/// up to one hundred at the target itself.
pub open spec fn fitness_weight_spec(d: int, width: int) -> int
    recommends
        width >= 1,
{
    if d >= width {
        0
    } else {
        ((width - d) * 100) / width
    }
}

/// Maps an agent's distance from the target to its selection weight:
/// deterministic, never above one hundred, and never negative.
pub fn fitness_weight(d: u64, width: u64) -> (r: u32)
    requires
        1 <= width <= 1_000_000_000_000,
    ensures
        r == fitness_weight_spec(d as int, width as int),
        r <= 100,
{
    if d >= width {
        0
    } else {
        proof {
            lemma_div_product_bound((width - d) as int, 100, width as int);
            assert((width - d) * 100 == 100 * (width - d)) by (nonlinear_arith);
            vstd::arithmetic::div_mod::lemma_div_pos_is_pos(((width - d) * 100) as int,
                width as int);
        }
        (((width - d) * 100) / width) as u32
    }
}

/// Closer agents never weigh less: fitness is antitone in the distance.
pub proof fn lemma_fitness_antitone(d1: int, d2: int, width: int)
    requires
        width >= 1,
        0 <= d1 <= d2,
    ensures
        fitness_weight_spec(d1, width) >= fitness_weight_spec(d2, width),
{
    if d2 < width {
        assert((width - d2) * 100 <= (width - d1) * 100) by (nonlinear_arith)
            requires
                d1 <= d2,
        ;
        vstd::arithmetic::div_mod::lemma_div_is_ordered(
            (width - d2) * 100,
            (width - d1) * 100,
            width,
        );
    } else {
        if d1 < width {
            assert((width - d1) * 100 >= 0) by (nonlinear_arith)
                requires
                    d1 < width,
            ;
            vstd::arithmetic::div_mod::lemma_div_pos_is_pos((width - d1) * 100, width);
        }
    }
}

/// `c` takes each gene from one of the two parents at the same index.
pub open spec fn crossover_of(c: Seq<usize>, a: Seq<usize>, b: Seq<usize>) -> bool {
    &&& c.len() == DNA_LEN
    &&& forall|i: int| 0 <= i < DNA_LEN ==> #[trigger] c[i] == a[i] || c[i] == b[i]
}

/// `c` is a crossover of the two parents, changed at no more than one gene,
/// and any changed gene selects a real move.
pub open spec fn offspring_of(c: Seq<usize>, a: Seq<usize>, b: Seq<usize>) -> bool {
    exists|x: Seq<usize>|
        #[trigger] crossover_of(x, a, b) && (c =~= x || exists|j: int, g: usize|
            0 <= j < DNA_LEN && g < MOVE_KINDS && c =~= x.update(j, g))
}

/// Builds the gene sequence that takes parent `a`'s gene where `picks`
/// holds and parent `b`'s gene elsewhere: one independent choice per index.
pub fn crossover(a: &Dna, b: &Dna, picks: &[bool; DNA_LEN]) -> (c: Dna)
    ensures
        forall|i: int|
            0 <= i < DNA_LEN ==> #[trigger] c@[i] == if picks@[i] {
                a@[i]
            } else {
                b@[i]
            },
        crossover_of(c@, a@, b@),
{
    let mut c: Dna = [0; DNA_LEN];
    let mut i: usize = 0;
    while i < DNA_LEN
        invariant
            i <= DNA_LEN,
            forall|j: int|
                0 <= j < i ==> #[trigger] c@[j] == if picks@[j] {
                    a@[j]
                } else {
                    b@[j]
                },
        decreases DNA_LEN - i,
    {
        if picks[i] {
            c[i] = a[i];
        } else {
            c[i] = b[i];
        }
        i = i + 1;
    }
    c
}

/// Replaces the gene at `idx` with `gene`, touching no other position.
pub fn mutate(d: &mut Dna, idx: usize, gene: usize)
    requires
        idx < DNA_LEN,
    ensures
        final(d)@ == old(d)@.update(idx as int, gene),
        final(d)@[idx as int] == gene,
        forall|i: int| 0 <= i < DNA_LEN && i != idx ==> final(d)@[i] == old(d)@[i],
{
    d[idx] = gene;
}

/// Each stored mass is positive.
pub open spec fn masses_ok(m: Map<usize, i64>) -> bool {
    forall|k: usize| #[trigger] m.contains_key(k) ==> 1 <= m[k]
}

/// A velocity damped by a mass: both components scaled by one over the
/// mass.  An entity without a mass keeps its velocity.
pub open spec fn damped(v: Vec2, mass: Map<usize, i64>, k: usize) -> Vec2 {
    if mass.contains_key(k) {
        Vec2 {
            x: mul_ratio_spec(v.x as int, SCALE as int, mass[k] as int) as i64,
            y: mul_ratio_spec(v.y as int, SCALE as int, mass[k] as int) as i64,
        }
    } else {
        v
    }
}

/// The integration pass: for each entity with an acceleration and a
/// velocity, the velocity — first divided by the mass where one is stored —
/// takes the acceleration, which then resets to zero; afterwards each
/// entity with a velocity and a position advances by its velocity.
pub fn movement_system(
    pos_store: &mut Store<Vec2>,
    vel_store: &mut Store<Vec2>,
    acc_store: &mut Store<Vec2>,
    mass_store: &Store<i64>,
)
    requires
        vals_in_box(old(pos_store)@, 500_000_000),
        vals_in_box(old(vel_store)@, 500_000_000),
        vals_in_box(old(acc_store)@, 500_000_000),
        masses_ok(mass_store@),
    ensures
        forall|k: usize|
            final(acc_store)@.contains_key(k) == old(acc_store)@.contains_key(k),
        forall|k: usize|
            final(vel_store)@.contains_key(k) == old(vel_store)@.contains_key(k),
        forall|k: usize|
            final(pos_store)@.contains_key(k) == old(pos_store)@.contains_key(k),
        forall|k: usize| #[trigger]
            old(acc_store)@.contains_key(k) ==> final(acc_store)@[k] == if old(
                vel_store,
            )@.contains_key(k) {
                Vec2 { x: 0, y: 0 }
            } else {
                old(acc_store)@[k]
            },
        forall|k: usize| #[trigger]
            old(vel_store)@.contains_key(k) ==> final(vel_store)@[k] == if old(
                acc_store,
            )@.contains_key(k) {
                vadd(damped(old(vel_store)@[k], mass_store@, k), old(acc_store)@[k])
            } else {
                old(vel_store)@[k]
            },
        forall|k: usize| #[trigger]
            old(pos_store)@.contains_key(k) ==> final(pos_store)@[k] == if old(
                vel_store,
            )@.contains_key(k) {
                vadd(old(pos_store)@[k], final(vel_store)@[k])
            } else {
                old(pos_store)@[k]
            },
        vals_in_box(final(vel_store)@, 501_000_000_000),
        vals_in_box(final(pos_store)@, 502_000_000_000),
{
    let n = acc_store.slot_count();
    let mut k: usize = 0;
    while k < n
        invariant
            k <= n,
            n == acc_store.slot_bound(),
            forall|j: usize|
                acc_store@.contains_key(j) == old(acc_store)@.contains_key(j),
            forall|j: usize|
                vel_store@.contains_key(j) == old(vel_store)@.contains_key(j),
            forall|j: usize| #[trigger]
                old(acc_store)@.contains_key(j) && j >= k ==> acc_store@[j] == old(
                    acc_store,
                )@[j],
            forall|j: usize| #[trigger]
                old(vel_store)@.contains_key(j) && j >= k ==> vel_store@[j] == old(
                    vel_store,
                )@[j],
            forall|j: usize| #[trigger]
                old(acc_store)@.contains_key(j) && j < k ==> acc_store@[j] == if old(
                    vel_store,
                )@.contains_key(j) {
                    Vec2 { x: 0, y: 0 }
                } else {
                    old(acc_store)@[j]
                },
            forall|j: usize| #[trigger]
                old(vel_store)@.contains_key(j) && j < k ==> vel_store@[j] == if old(
                    acc_store,
                )@.contains_key(j) {
                    vadd(damped(old(vel_store)@[j], mass_store@, j), old(acc_store)@[j])
                } else {
                    old(vel_store)@[j]
                },
            vals_in_box(vel_store@, 501_000_000_000),
            vals_in_box(acc_store@, 500_000_000),
        decreases n - k,
    {
        let e = Entity { id: k };
        if let Some(a) = acc_store.get(e) {
            if let Some(v) = vel_store.get(e) {
                proof {
                    acc_store.lemma_key_in_bound(k);
                    vel_store.lemma_key_in_bound(k);
                }
                let mut nv = v;
                if let Some(m) = mass_store.get(e) {
                    nv.div_scaled(m, SCALE as u64);
                }
                proof {
                    assert(nv == damped(v, mass_store@, k));
                }
                nv.add(&a);
                vel_store.add(e, nv);
                acc_store.add(e, Vec2::zero());
            }
        }
        k = k + 1;
    }
    proof {
        assert forall|k2: usize| #[trigger] old(acc_store)@.contains_key(k2) implies k2
            < n by {
            old(acc_store).lemma_key_in_bound(k2);
        }
    }
    let m = vel_store.slot_count();
    let mut k: usize = 0;
    while k < m
        invariant
            k <= m,
            m == vel_store.slot_bound(),
            forall|j: usize|
                pos_store@.contains_key(j) == old(pos_store)@.contains_key(j),
            forall|j: usize| #[trigger]
                old(pos_store)@.contains_key(j) && j >= k ==> pos_store@[j] == old(
                    pos_store,
                )@[j],
            forall|j: usize| #[trigger]
                old(pos_store)@.contains_key(j) && j < k ==> pos_store@[j] == if vel_store@.contains_key(
                    j,
                ) {
                    vadd(old(pos_store)@[j], vel_store@[j])
                } else {
                    old(pos_store)@[j]
                },
            vals_in_box(pos_store@, 502_000_000_000),
        decreases m - k,
    {
        let e = Entity { id: k };
        if let Some(v) = vel_store.get(e) {
            if let Some(p) = pos_store.get(e) {
                proof {
                    pos_store.lemma_key_in_bound(k);
                }
                let mut np = p;
                np.add(&v);
                pos_store.add(e, np);
            }
        }
        k = k + 1;
    }
    proof {
        assert forall|k2: usize|
            #[trigger] old(pos_store)@.contains_key(k2) && k2 >= m implies !vel_store@.contains_key(
            k2,
        ) by {
            if vel_store@.contains_key(k2) {
                vel_store.lemma_key_in_bound(k2);
            }
        }
    }
}

/// An agent's attributes fit the field: the body fits between opposite
/// walls.
pub open spec fn attr_fits(a: Attributes, width: int, height: int) -> bool {
    &&& 0 <= a.radius <= 1_000_000
    &&& 2 * a.radius <= width
    &&& 2 * a.radius <= height
}

/// One agent's position and velocity after the boundary pass: the position
/// clamped into `[radius, extent - radius]` per axis, then, for each wall
/// the clamped position rests on, the perpendicular velocity component
/// inverted outright and the tangential one reduced by that wall's friction
/// factor, in the order left, bottom, right, top.
pub open spec fn bounce_spec(p: Vec2, v: Vec2, radius: int, w: int, h: int) -> (Vec2, Vec2) {
    let px = clamp_spec(p.x as int, radius, w - radius);
    let py = clamp_spec(p.y as int, radius, h - radius);
    let v1 = if px == radius {
        Vec2 { x: (-v.x) as i64, y: mul_ratio_spec(v.y as int, 99, 100) as i64 }
    } else {
        v
    };
    let v2 = if py == radius {
        Vec2 { x: mul_ratio_spec(v1.x as int, 9, 10) as i64, y: (-v1.y) as i64 }
    } else {
        v1
    };
    let v3 = if px == w - radius {
        Vec2 { x: (-v2.x) as i64, y: mul_ratio_spec(v2.y as int, 99, 100) as i64 }
    } else {
        v2
    };
    let v4 = if py == h - radius {
        Vec2 { x: mul_ratio_spec(v3.x as int, 95, 100) as i64, y: (-v3.y) as i64 }
    } else {
        v3
    };
    (Vec2 { x: px as i64, y: py as i64 }, v4)
}

/// Clamps each agent's position into the field and reflects its velocity
/// off any wall it rests on; unlike the heavier bouncing balls, the rebound
/// inverts the perpendicular component without mass damping.  An agent
/// missing a position, a velocity or attributes is skipped.  No position
/// leaves `[radius, extent - radius]` on either axis.
#[verifier::rlimit(60)]
pub fn boundary_system(
    world: &World,
    vel_store: &mut Store<Vec2>,
    pos_store: &mut Store<Vec2>,
    atr_store: &Store<Attributes>,
)
    requires
        world_fits(*world),
        vals_in_box(old(pos_store)@, COORD_LIMIT as int),
        vals_in_box(old(vel_store)@, 1_000_000_000_000),
        forall|k: usize| #[trigger]
            atr_store@.contains_key(k) ==> attr_fits(
                atr_store@[k],
                world.width as int,
                world.height as int,
            ),
    ensures
        forall|k: usize|
            final(pos_store)@.contains_key(k) == old(pos_store)@.contains_key(k),
        forall|k: usize|
            final(vel_store)@.contains_key(k) == old(vel_store)@.contains_key(k),
        forall|k: usize| #[trigger]
            old(pos_store)@.contains_key(k) ==> if old(vel_store)@.contains_key(k)
                && atr_store@.contains_key(k) {
                final(pos_store)@[k] == bounce_spec(
                    old(pos_store)@[k],
                    old(vel_store)@[k],
                    atr_store@[k].radius as int,
                    world.width as int,
                    world.height as int,
                ).0
            } else {
                final(pos_store)@[k] == old(pos_store)@[k]
            },
        forall|k: usize| #[trigger]
            old(vel_store)@.contains_key(k) ==> if old(pos_store)@.contains_key(k)
                && atr_store@.contains_key(k) {
                final(vel_store)@[k] == bounce_spec(
                    old(pos_store)@[k],
                    old(vel_store)@[k],
                    atr_store@[k].radius as int,
                    world.width as int,
                    world.height as int,
                ).1
            } else {
                final(vel_store)@[k] == old(vel_store)@[k]
            },
        forall|k: usize| #[trigger]
            old(pos_store)@.contains_key(k) && old(vel_store)@.contains_key(k)
                && atr_store@.contains_key(k) ==> {
                &&& atr_store@[k].radius <= final(pos_store)@[k].x <= world.width
                    - atr_store@[k].radius
                &&& atr_store@[k].radius <= final(pos_store)@[k].y <= world.height
                    - atr_store@[k].radius
            },
        vals_in_box(final(pos_store)@, COORD_LIMIT as int),
        vals_in_box(final(vel_store)@, 1_000_000_000_000),
{
    let n = pos_store.slot_count();
    let mut k: usize = 0;
    while k < n
        invariant
            k <= n,
            n == pos_store.slot_bound(),
            forall|j: usize|
                pos_store@.contains_key(j) == old(pos_store)@.contains_key(j),
            forall|j: usize|
                vel_store@.contains_key(j) == old(vel_store)@.contains_key(j),
            forall|j: usize| #[trigger]
                old(pos_store)@.contains_key(j) && j >= k ==> pos_store@[j] == old(
                    pos_store,
                )@[j],
            forall|j: usize| #[trigger]
                old(vel_store)@.contains_key(j) && j >= k ==> vel_store@[j] == old(
                    vel_store,
                )@[j],
            forall|j: usize| #[trigger]
                old(pos_store)@.contains_key(j) && j < k ==> if old(vel_store)@.contains_key(j)
                    && atr_store@.contains_key(j) {
                    pos_store@[j] == bounce_spec(
                        old(pos_store)@[j],
                        old(vel_store)@[j],
                        atr_store@[j].radius as int,
                        world.width as int,
                        world.height as int,
                    ).0
                } else {
                    pos_store@[j] == old(pos_store)@[j]
                },
            forall|j: usize| #[trigger]
                old(vel_store)@.contains_key(j) && j < k ==> if old(pos_store)@.contains_key(j)
                    && atr_store@.contains_key(j) {
                    vel_store@[j] == bounce_spec(
                        old(pos_store)@[j],
                        old(vel_store)@[j],
                        atr_store@[j].radius as int,
                        world.width as int,
                        world.height as int,
                    ).1
                } else {
                    vel_store@[j] == old(vel_store)@[j]
                },
            vals_in_box(pos_store@, COORD_LIMIT as int),
            vals_in_box(vel_store@, 1_000_000_000_000),
        decreases n - k,
    {
        let e = Entity { id: k };
        if let Some(p) = pos_store.get(e) {
            if let Some(a) = atr_store.get(e) {
                if let Some(v) = vel_store.get(e) {
                    proof {
                        pos_store.lemma_key_in_bound(k);
                        vel_store.lemma_key_in_bound(k);
                    }
                    let ghost r = a.radius as int;
                    let ghost w = world.width as int;
                    let ghost h = world.height as int;
                    let mut np = p;
                    np.constrain(
                        a.radius,
                        world.width - a.radius,
                        a.radius,
                        world.height - a.radius,
                    );
                    let mut vx = v.x;
                    let mut vy = v.y;
                    let ghost v1 = if np.x as int == r {
                        Vec2 { x: (-v.x) as i64, y: mul_ratio_spec(v.y as int, 99, 100) as i64 }
                    } else {
                        v
                    };
                    if np.x == a.radius {
                        vx = -vx;
                        vy = mul_ratio(vy, 99, 100);
                    }
                    proof {
                        assert(vx == v1.x && vy == v1.y);
                    }
                    let ghost v2 = if np.y as int == r {
                        Vec2 { x: mul_ratio_spec(v1.x as int, 9, 10) as i64, y: (-v1.y) as i64 }
                    } else {
                        v1
                    };
                    if np.y == a.radius {
                        vx = mul_ratio(vx, 9, 10);
                        vy = -vy;
                    }
                    proof {
                        assert(vx == v2.x && vy == v2.y);
                    }
                    let ghost v3 = if np.x as int == w - r {
                        Vec2 { x: (-v2.x) as i64, y: mul_ratio_spec(v2.y as int, 99, 100) as i64 }
                    } else {
                        v2
                    };
                    if np.x == world.width - a.radius {
                        vx = -vx;
                        vy = mul_ratio(vy, 99, 100);
                    }
                    proof {
                        assert(vx == v3.x && vy == v3.y);
                    }
                    let ghost v4 = if np.y as int == h - r {
                        Vec2 { x: mul_ratio_spec(v3.x as int, 95, 100) as i64, y: (-v3.y) as i64 }
                    } else {
                        v3
                    };
                    if np.y == world.height - a.radius {
                        vx = mul_ratio(vx, 95, 100);
                        vy = -vy;
                    }
                    proof {
                        assert(vx == v4.x && vy == v4.y);
                        assert(bounce_spec(p, v, r, w, h) == (np, v4));
                    }
                    pos_store.add(e, np);
                    vel_store.add(e, Vec2 { x: vx, y: vy });
                }
            }
        }
        k = k + 1;
    }
    proof {
        assert forall|k2: usize| #[trigger] old(pos_store)@.contains_key(k2) implies k2
            < n by {
            old(pos_store).lemma_key_in_bound(k2);
        }
        assert forall|k2: usize|
            #[trigger] old(vel_store)@.contains_key(k2) && k2 >= n implies !old(
            pos_store,
        )@.contains_key(k2) by {
            if old(pos_store)@.contains_key(k2) {
                old(pos_store).lemma_key_in_bound(k2);
            }
        }
    }
}

/// At most one entity holds a move sequence: no pair of parents exists.
pub open spec fn singleton_population(gene: Map<usize, Dna>) -> bool {
    forall|k1: usize, k2: usize|
        #[trigger] gene.contains_key(k1) && #[trigger] gene.contains_key(k2) ==> k1 == k2
}

/// A new generation was produced: two distinct parents were drawn from the
/// population, every agent's move sequence was replaced by its own
/// independent offspring of those two parents — a pure gene-by-gene
/// crossover whenever the mutation probability is zero — and every agent
/// was reset to the world's starting pose.  Entities without a move
/// sequence are untouched.
pub open spec fn regenerated(
    old_pos: Map<usize, Vec2>,
    old_vel: Map<usize, Vec2>,
    old_gene: Map<usize, Dna>,
    new_pos: Map<usize, Vec2>,
    new_vel: Map<usize, Vec2>,
    new_gene: Map<usize, Dna>,
    w: World,
) -> bool {
    &&& exists|ka: usize, kb: usize|
        {
            &&& #[trigger] old_gene.contains_key(ka)
            &&& #[trigger] old_gene.contains_key(kb)
            &&& ka != kb
            &&& forall|k: usize| #[trigger]
                old_gene.contains_key(k) ==> offspring_of(
                    new_gene[k]@,
                    old_gene[ka]@,
                    old_gene[kb]@,
                )
            &&& w.mutation_num == 0 ==> forall|k: usize| #[trigger]
                old_gene.contains_key(k) ==> crossover_of(
                    new_gene[k]@,
                    old_gene[ka]@,
                    old_gene[kb]@,
                )
        }
    &&& forall|k: usize| #[trigger]
        old_gene.contains_key(k) ==> {
            &&& (old_pos.contains_key(k) ==> new_pos[k] == w.default_pos)
            &&& (old_vel.contains_key(k) ==> new_vel[k] == w.default_vel)
        }
    &&& forall|k: usize|
        !(#[trigger] old_gene.contains_key(k)) ==> {
            &&& (old_pos.contains_key(k) ==> new_pos[k] == old_pos[k])
            &&& (old_vel.contains_key(k) ==> new_vel[k] == old_vel[k])
        }
}

/// Produces the next generation.  Each agent's fitness weight falls
/// linearly with its distance from the target; two distinct parents are
/// drawn by those weights — uniformly when every weight is zero — and every
/// agent receives its own independently drawn crossover of the two parents,
/// mutated at one random gene with the world's mutation probability, and is
/// reset to the starting pose.  With fewer than two agents no generation
/// can be formed and nothing changes.
pub fn genetic_system(
    world: &World,
    pos_store: &mut Store<Vec2>,
    vel_store: &mut Store<Vec2>,
    gene_store: &mut Store<Dna>,
)
    requires
        world_fits(*world),
        vals_in_box(old(pos_store)@, COORD_LIMIT as int),
        old(gene_store).slot_bound() <= 1_000_000,
    ensures
        forall|k: usize|
            final(pos_store)@.contains_key(k) == old(pos_store)@.contains_key(k),
        forall|k: usize|
            final(vel_store)@.contains_key(k) == old(vel_store)@.contains_key(k),
        forall|k: usize|
            final(gene_store)@.contains_key(k) == old(gene_store)@.contains_key(k),
        regenerated(
            old(pos_store)@,
            old(vel_store)@,
            old(gene_store)@,
            final(pos_store)@,
            final(vel_store)@,
            final(gene_store)@,
            *world,
        ) || (singleton_population(old(gene_store)@) && final(pos_store)@ == old(pos_store)@
            && final(vel_store)@ == old(vel_store)@ && final(gene_store)@ == old(
            gene_store,
        )@),
{
    let n = gene_store.slot_count();
    let mut ids: Vec<Entity> = Vec::new();
    let mut weights: Vec<(Entity, u32)> = Vec::new();
    let mut k: usize = 0;
    while k < n
        invariant
            k <= n,
            n == gene_store.slot_bound(),
            n <= 1_000_000,
            weights@.len() == ids@.len(),
            ids@.len() <= k,
            forall|i: int| 0 <= i < ids@.len() ==> (#[trigger] weights@[i]).0 == ids@[i],
            forall|i: int|
                0 <= i < ids@.len() ==> gene_store@.contains_key((#[trigger] ids@[i]).id),
            forall|i: int| 0 <= i < weights@.len() ==> (#[trigger] weights@[i]).1 <= 100,
            forall|i: int, j: int|
                0 <= i < j < ids@.len() ==> (#[trigger] ids@[i]).id < (#[trigger] ids@[j]).id,
            forall|i: int| 0 <= i < ids@.len() ==> (#[trigger] ids@[i]).id < k,
            forall|k2: usize|
                k2 < k && #[trigger] gene_store@.contains_key(k2) ==> ids@.contains(
                    Entity { id: k2 },
                ),
        decreases n - k,
    {
        let e = Entity { id: k };
        if let Some(_g) = gene_store.get(e) {
            let wgt: u32 = if let Some(p) = pos_store.get(e) {
                let dsq = p.dist_sq(&world.target_pos);
                let d = crate::math::isqrt(dsq);
                fitness_weight(d, world.width as u64)
            } else {
                0
            };
            let ghost prev = ids@;
            ids.push(e);
            weights.push((e, wgt));
            proof {
                assert forall|k2: usize|
                    k2 < k + 1 && #[trigger] gene_store@.contains_key(k2) implies ids@.contains(
                    Entity { id: k2 },
                ) by {
                    if k2 < k {
                        assert(prev.contains(Entity { id: k2 }));
                        let w = choose|w: int|
                            0 <= w < prev.len() && #[trigger] prev[w] == Entity { id: k2 };
                        assert(ids@[w] == Entity { id: k2 });
                    } else {
                        assert(ids@.last() == e);
                    }
                }
            }
        }
        k = k + 1;
    }
    proof {
        assert forall|k2: usize| #[trigger] gene_store@.contains_key(k2) implies ids@.contains(
            Entity { id: k2 },
        ) by {
            gene_store.lemma_key_in_bound(k2);
        }
    }
    let picked = choose_two(&weights);
    let pair: (Entity, Entity) = match picked {
        Ok(p) => p,
        Err(_) => {
            if ids.len() < 2 {
                proof {
                    assert forall|k1: usize, k2: usize|
                        #[trigger] gene_store@.contains_key(k1) && #[trigger] gene_store@.contains_key(
                            k2,
                        ) implies k1 == k2 by {
                        let i1 = choose|i1: int|
                            0 <= i1 < ids@.len() && #[trigger] ids@[i1] == Entity { id: k1 };
                        let i2 = choose|i2: int|
                            0 <= i2 < ids@.len() && #[trigger] ids@[i2] == Entity { id: k2 };
                        assert(i1 == 0 && i2 == 0);
                    }
                }
                return ;
            }
            let ia = random(0, ids.len() as u64) as usize;
            let jb0 = random(0, (ids.len() - 1) as u64) as usize;
            let jb = if jb0 >= ia {
                jb0 + 1
            } else {
                jb0
            };
            (ids[ia], ids[jb])
        },
    };
    let pa = pair.0;
    let pb = pair.1;
    proof {
        assert(gene_store@.contains_key(pa.id) && gene_store@.contains_key(pb.id) && pa.id
            != pb.id) by {
            match picked {
                Ok(p) => {
                    let i = choose|i: int|
                        0 <= i < weights@.len() && (#[trigger] weights@[i]).0 == pa
                            && weights@[i].1 > 0;
                    assert(ids@[i] == pa);
                    let j = choose|j: int|
                        0 <= j < weights@.len() && (#[trigger] weights@[j]).0 == pb;
                    assert(ids@[j] == pb);
                },
                Err(_) => {},
            }
        }
    }
    let da: Dna = match gene_store.get(pa) {
        Some(d) => d,
        None => {
            return ;
        },
    };
    let db: Dna = match gene_store.get(pb) {
        Some(d) => d,
        None => {
            return ;
        },
    };
    let mut k: usize = 0;
    while k < n
        invariant
            k <= n,
            n == gene_store.slot_bound(),
            gene_store@.contains_key(pa.id),
            gene_store@.contains_key(pb.id),
            pa.id != pb.id,
            da == old(gene_store)@[pa.id],
            db == old(gene_store)@[pb.id],
            forall|j: usize|
                pos_store@.contains_key(j) == old(pos_store)@.contains_key(j),
            forall|j: usize|
                vel_store@.contains_key(j) == old(vel_store)@.contains_key(j),
            forall|j: usize|
                gene_store@.contains_key(j) == old(gene_store)@.contains_key(j),
            forall|j: usize| #[trigger]
                old(pos_store)@.contains_key(j) ==> pos_store@[j] == if j < k && old(
                    gene_store,
                )@.contains_key(j) {
                    world.default_pos
                } else {
                    old(pos_store)@[j]
                },
            forall|j: usize| #[trigger]
                old(vel_store)@.contains_key(j) ==> vel_store@[j] == if j < k && old(
                    gene_store,
                )@.contains_key(j) {
                    world.default_vel
                } else {
                    old(vel_store)@[j]
                },
            forall|j: usize| #[trigger]
                old(gene_store)@.contains_key(j) && j < k ==> offspring_of(
                    gene_store@[j]@,
                    da@,
                    db@,
                ),
            forall|j: usize| #[trigger]
                old(gene_store)@.contains_key(j) && j < k && world.mutation_num == 0
                    ==> crossover_of(gene_store@[j]@, da@, db@),
            forall|j: usize| #[trigger]
                old(gene_store)@.contains_key(j) && j >= k ==> gene_store@[j] == old(
                    gene_store,
                )@[j],
        decreases n - k,
    {
        let e = Entity { id: k };
        if let Some(_g) = gene_store.get(e) {
            proof {
                gene_store.lemma_key_in_bound(k);
            }
            if let Some(_p) = pos_store.get(e) {
                proof {
                    pos_store.lemma_key_in_bound(k);
                }
                pos_store.add(e, world.default_pos);
            }
            if let Some(_v) = vel_store.get(e) {
                proof {
                    vel_store.lemma_key_in_bound(k);
                }
                vel_store.add(e, world.default_vel);
            }
            let mut picks: [bool; DNA_LEN] = [false; DNA_LEN];
            let mut i: usize = 0;
            while i < DNA_LEN
                invariant
                    i <= DNA_LEN,
                decreases DNA_LEN - i,
            {
                picks[i] = coin();
                i = i + 1;
            }
            let mut child = crossover(&da, &db, &picks);
            let ghost cross = child@;
            if random(0, world.mutation_den as u64) < world.mutation_num as u64 {
                let j = random(0, DNA_LEN as u64) as usize;
                let g = random(0, MOVE_KINDS as u64) as usize;
                mutate(&mut child, j, g);
                proof {
                    assert(crossover_of(cross, da@, db@));
                    assert(child@ =~= cross.update(j as int, g));
                    assert(offspring_of(child@, da@, db@));
                }
            } else {
                proof {
                    assert(crossover_of(cross, da@, db@));
                    assert(child@ =~= cross);
                    assert(offspring_of(child@, da@, db@));
                }
            }
            gene_store.add(e, child);
        }
        k = k + 1;
    }
    proof {
        assert forall|k2: usize| #[trigger] old(gene_store)@.contains_key(k2) implies k2
            < n by {
            old(gene_store).lemma_key_in_bound(k2);
        }
        assert(regenerated(
            old(pos_store)@,
            old(vel_store)@,
            old(gene_store)@,
            final(pos_store)@,
            final(vel_store)@,
            final(gene_store)@,
            *world,
        )) by {
            assert(old(gene_store)@.contains_key(pa.id));
            assert(old(gene_store)@.contains_key(pb.id));
            assert(forall|k2: usize| #[trigger]
                old(gene_store)@.contains_key(k2) ==> offspring_of(
                    final(gene_store)@[k2]@,
                    old(gene_store)@[pa.id]@,
                    old(gene_store)@[pb.id]@,
                ));
            if world.mutation_num == 0 {
                assert(forall|k2: usize| #[trigger]
                    old(gene_store)@.contains_key(k2) ==> crossover_of(
                        final(gene_store)@[k2]@,
                        old(gene_store)@[pa.id]@,
                        old(gene_store)@[pb.id]@,
                    ));
            }
        }
    }
}

/// One step of the slow homing move: each axis drifts three thousandths of
/// the way toward the target.
pub open spec fn lerp_step(a: int, t: int) -> int {
    a + mul_ratio_spec(t - a, 3, 1000)
}

/// The acceleration produced by one move of the bank: gene zero homes
/// toward the target, the other nine select fixed impulses.  A gene beyond
/// the bank leaves the acceleration unchanged.
pub open spec fn move_spec(gene: usize, acc: Vec2, target: Vec2) -> Vec2 {
    if gene == 0 {
        Vec2 { x: lerp_step(acc.x as int, target.x as int) as i64, y: lerp_step(
            acc.y as int,
            target.y as int,
        ) as i64 }
    } else if gene == 1 {
        Vec2 { x: 5_500i64, y: -5_400i64 }
    } else if gene == 2 {
        Vec2 { x: -2_500i64, y: 4_400i64 }
    } else if gene == 3 {
        Vec2 { x: 7_500i64, y: -15_400i64 }
    } else if gene == 4 {
        Vec2 { x: -6_500i64, y: -4_400i64 }
    } else if gene == 5 {
        Vec2 { x: -3_500i64, y: 12_400i64 }
    } else if gene == 6 {
        Vec2 { x: 12_500i64, y: 7_400i64 }
    } else if gene == 7 {
        Vec2 { x: 1_500i64, y: 8_400i64 }
    } else if gene == 8 {
        Vec2 { x: -2_500i64, y: 5_400i64 }
    } else if gene == 9 {
        Vec2 { x: 8_500i64, y: 2_400i64 }
    } else {
        acc
    }
}

/// Runs the move bank for one tick: every entity with a move sequence and
/// an acceleration applies the move its current gene selects.  The gene
/// position cycles through the first nine genes with the tick counter.
pub fn apply_moves(
    world: &World,
    tick: usize,
    gene_store: &Store<Dna>,
    acc_store: &mut Store<Vec2>,
)
    requires
        world_fits(*world),
        vals_in_box(old(acc_store)@, 400_000_000),
    ensures
        forall|k: usize|
            final(acc_store)@.contains_key(k) == old(acc_store)@.contains_key(k),
        forall|k: usize| #[trigger]
            old(acc_store)@.contains_key(k) ==> final(acc_store)@[k] == if gene_store@.contains_key(
                k,
            ) {
                move_spec(
                    gene_store@[k]@[(tick % 9) as int],
                    old(acc_store)@[k],
                    world.target_pos,
                )
            } else {
                old(acc_store)@[k]
            },
        vals_in_box(final(acc_store)@, 500_000_000),
{
    let idx: usize = tick % 9;
    let n = acc_store.slot_count();
    let mut k: usize = 0;
    while k < n
        invariant
            k <= n,
            n == acc_store.slot_bound(),
            idx == tick % 9,
            forall|j: usize|
                acc_store@.contains_key(j) == old(acc_store)@.contains_key(j),
            forall|j: usize| #[trigger]
                old(acc_store)@.contains_key(j) && j >= k ==> acc_store@[j] == old(
                    acc_store,
                )@[j],
            forall|j: usize| #[trigger]
                old(acc_store)@.contains_key(j) && j < k ==> acc_store@[j] == if gene_store@.contains_key(
                    j,
                ) {
                    move_spec(
                        gene_store@[j]@[(tick % 9) as int],
                        old(acc_store)@[j],
                        world.target_pos,
                    )
                } else {
                    old(acc_store)@[j]
                },
            vals_in_box(acc_store@, 500_000_000),
        decreases n - k,
    {
        let e = Entity { id: k };
        if let Some(a) = acc_store.get(e) {
            if let Some(dna) = gene_store.get(e) {
                proof {
                    acc_store.lemma_key_in_bound(k);
                }
                let gene = dna[idx];
                let na: Vec2 = if gene == 0 {
                    let nx = a.x + mul_ratio(world.target_pos.x - a.x, 3, 1000);
                    let ny = a.y + mul_ratio(world.target_pos.y - a.y, 3, 1000);
                    Vec2 { x: nx, y: ny }
                } else if gene == 1 {
                    Vec2 { x: 5_500, y: -5_400 }
                } else if gene == 2 {
                    Vec2 { x: -2_500, y: 4_400 }
                } else if gene == 3 {
                    Vec2 { x: 7_500, y: -15_400 }
                } else if gene == 4 {
                    Vec2 { x: -6_500, y: -4_400 }
                } else if gene == 5 {
                    Vec2 { x: -3_500, y: 12_400 }
                } else if gene == 6 {
                    Vec2 { x: 12_500, y: 7_400 }
                } else if gene == 7 {
                    Vec2 { x: 1_500, y: 8_400 }
                } else if gene == 8 {
                    Vec2 { x: -2_500, y: 5_400 }
                } else if gene == 9 {
                    Vec2 { x: 8_500, y: 2_400 }
                } else {
                    a
                };
                acc_store.add(e, na);
            }
        }
        k = k + 1;
    }
    proof {
        assert forall|k2: usize| #[trigger] old(acc_store)@.contains_key(k2) implies k2
            < n by {
            old(acc_store).lemma_key_in_bound(k2);
        }
    }
}

/// The draw request for one agent, the y axis flipped into the driver's
/// bottom-left-origin system.
pub open spec fn draw_item(pos: Vec2, a: Attributes, height: int) -> DrawRequest {
    DrawRequest { x: pos.x, y: (height - pos.y) as i64, radius: a.radius, color: a.color }
}

/// Draw requests for the agents with ids below `n` that carry both a
/// position and attributes, in id order.
pub open spec fn draw_list(
    pos: Map<usize, Vec2>,
    atr: Map<usize, Attributes>,
    height: int,
    n: int,
) -> Seq<DrawRequest>
    decreases n,
{
    if n <= 0 {
        Seq::empty()
    } else {
        let rest = draw_list(pos, atr, height, n - 1);
        let k = (n - 1) as usize;
        if pos.contains_key(k) && atr.contains_key(k) {
            rest.push(draw_item(pos[k], atr[k], height))
        } else {
            rest
        }
    }
}

/// The marker drawn over the target: a red circle twenty-five units wide.
pub open spec fn target_marker(w: World) -> DrawRequest {
    DrawRequest {
        x: w.target_pos.x,
        y: (w.height - w.target_pos.y) as i64,
        radius: 25_000,
        color: Color { r: 230, g: 41, b: 55, a: 255 },
    }
}

/// Produces one draw request per agent with a position and attributes,
/// followed by the target marker, all in the driver's bottom-left-origin
/// system.
pub fn render_system(
    world: &World,
    pos_store: &Store<Vec2>,
    atr_store: &Store<Attributes>,
) -> (r: Vec<DrawRequest>)
    requires
        world_fits(*world),
        vals_in_box(pos_store@, COORD_LIMIT as int),
    ensures
        r@ == draw_list(
            pos_store@,
            atr_store@,
            world.height as int,
            pos_store.slot_bound() as int,
        ).push(target_marker(*world)),
{
    let mut r: Vec<DrawRequest> = Vec::new();
    let n = pos_store.slot_count();
    let mut k: usize = 0;
    while k < n
        invariant
            k <= n,
            n == pos_store.slot_bound(),
            r@ == draw_list(pos_store@, atr_store@, world.height as int, k as int),
        decreases n - k,
    {
        let e = Entity { id: k };
        if let Some(p) = pos_store.get(e) {
            if let Some(a) = atr_store.get(e) {
                r.push(
                    DrawRequest {
                        x: p.x,
                        y: world.height - p.y,
                        radius: a.radius,
                        color: a.color,
                    },
                );
            }
        }
        k = k + 1;
    }
    r.push(
        DrawRequest {
            x: world.target_pos.x,
            y: world.height - world.target_pos.y,
            radius: 25_000,
            color: Color { r: 230, g: 41, b: 55, a: 255 },
        },
    );
    r
}

} // verus!
