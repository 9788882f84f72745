//! The collision resolver.  Broad phase: every occupied grid cell is paired
//! with itself and with its neighbors through a half-stencil of five
//! directions, so each unordered cell pair is visited once.  Narrow phase:
//! an overlapping pair of circles is pushed apart symmetrically, each by
//! half the penetration along the connecting axis.

use vstd::prelude::*;
use vstd::math::abs;
use vstd::math::max;
use crate::fixed::{
    div_trunc, isqrt_u128, lemma_div_bound, lemma_sqrt_ge_component, lemma_square_le, sqrt_floor,
    trunc_div_i128,
};
use crate::grid::{
    cell_matches, cell_of_x, cell_of_y, compute_spatial_map, find_cell, grid_model,
    lemma_find_cell_first, GridCellModel,
};
use crate::particle::{valid_radius, Vec2, VerletObject, MAX_RADIUS};

verus! {

/// Positions beyond this envelope take no part in collision resolution: an
/// overflow guard, far outside any reasonable domain, stated exactly in the
/// resolver's contract.
pub const COLLISION_RANGE: i64 = 0x10_0000_0000_0000;

/// Both coordinates are inside the collision envelope.
pub open spec fn within_collision_range(p: VerletObject) -> bool {
    &&& -COLLISION_RANGE <= p.position_current.x <= COLLISION_RANGE
    &&& -COLLISION_RANGE <= p.position_current.y <= COLLISION_RANGE
}

/// The squared center distance of two particles.
pub open spec fn pair_d2(a: VerletObject, b: VerletObject) -> int {
    let dx = a.position_current.x - b.position_current.x;
    let dy = a.position_current.y - b.position_current.y;
    dx * dx + dy * dy
}

/// The circles overlap: center distance strictly below the radius sum.
pub open spec fn overlapping(a: VerletObject, b: VerletObject) -> bool {
    pair_d2(a, b) < (a.radius + b.radius) * (a.radius + b.radius)
}

/// The narrow phase moves this pair: overlapping, not concentric (the
/// normal would be undefined), and inside the collision envelope.
pub open spec fn collides(a: VerletObject, b: VerletObject) -> bool {
    &&& within_collision_range(a)
    &&& within_collision_range(b)
    &&& 0 < pair_d2(a, b)
    &&& overlapping(a, b)
}

/// The x component of the positional correction applied to `a` (and, with
/// opposite sign, to `b`): half the penetration, along the unit normal of
/// the connecting axis.
pub open spec fn corr_x(a: VerletObject, b: VerletObject) -> int {
    let dist = sqrt_floor(pair_d2(a, b));
    let delta = a.radius + b.radius - dist;
    div_trunc((a.position_current.x - b.position_current.x) * delta, 2 * dist)
}

/// The y component of the positional correction applied to `a`.
pub open spec fn corr_y(a: VerletObject, b: VerletObject) -> int {
    let dist = sqrt_floor(pair_d2(a, b));
    let delta = a.radius + b.radius - dist;
    div_trunc((a.position_current.y - b.position_current.y) * delta, 2 * dist)
}

/// The particle `p` displaced by `(dx, dy)`: the only change the narrow
/// phase ever makes.
pub open spec fn corrected(p: VerletObject, dx: int, dy: int) -> VerletObject {
    VerletObject {
        position_current: Vec2 {
            x: (p.position_current.x + dx) as i64,
            y: (p.position_current.y + dy) as i64,
        },
        position_old: p.position_old,
        acceleration: p.acceleration,
        radius: p.radius,
        col: p.col,
    }
}

/// The narrow phase applied to the pair `(i, j)` of `ps`: on a collision,
/// `i` moves by the correction and `j` by its opposite; otherwise nothing
/// changes.
pub open spec fn resolve_pair_model(ps: Seq<VerletObject>, i: int, j: int) -> Seq<VerletObject>
    recommends
        0 <= i < ps.len(),
        0 <= j < ps.len(),
        i != j,
{
    let a = ps[i];
    let b = ps[j];
    if collides(a, b) {
        ps.update(i, corrected(a, corr_x(a, b), corr_y(a, b))).update(
            j,
            corrected(b, -corr_x(a, b), -corr_y(a, b)),
        )
    } else {
        ps
    }
}

/// The index `i1` resolved against the first `m` indices of `c2`, in
/// order, skipping `i1` itself.
pub open spec fn resolve_row_upto(
    ps: Seq<VerletObject>,
    i1: int,
    c2: Seq<usize>,
    m: int,
) -> Seq<VerletObject>
    decreases m,
{
    if m <= 0 {
        ps
    } else {
        let prev = resolve_row_upto(ps, i1, c2, m - 1);
        let i2 = c2[m - 1] as int;
        if i1 == i2 {
            prev
        } else {
            resolve_pair_model(prev, i1, i2)
        }
    }
}

/// The first `n` indices of `c1`, each resolved in order against all of
/// `c2`.
pub open spec fn resolve_cells_upto(
    ps: Seq<VerletObject>,
    c1: Seq<usize>,
    c2: Seq<usize>,
    n: int,
) -> Seq<VerletObject>
    decreases n,
{
    if n <= 0 {
        ps
    } else {
        resolve_row_upto(
            resolve_cells_upto(ps, c1, c2, n - 1),
            c1[n - 1] as int,
            c2,
            c2.len() as int,
        )
    }
}

/// What `check_cells_collisions` does: the cross product of the two
/// buckets, row by row, each pair through the narrow phase.
pub open spec fn resolve_cells_model(
    ps: Seq<VerletObject>,
    c1: Seq<usize>,
    c2: Seq<usize>,
) -> Seq<VerletObject> {
    resolve_cells_upto(ps, c1, c2, c1.len() as int)
}

/// The index `c[k1]` resolved against `c[k1 + 1] .. c[m - 1]`, in order.
pub open spec fn resolve_self_row_upto(
    ps: Seq<VerletObject>,
    c: Seq<usize>,
    k1: int,
    m: int,
) -> Seq<VerletObject>
    decreases m - k1,
{
    if m <= k1 + 1 {
        ps
    } else {
        resolve_pair_model(
            resolve_self_row_upto(ps, c, k1, m - 1),
            c[k1] as int,
            c[m - 1] as int,
        )
    }
}

/// The first `n` indices of `c`, each resolved against the indices after
/// it: every unordered pair within the bucket exactly once.
pub open spec fn resolve_self_upto(ps: Seq<VerletObject>, c: Seq<usize>, n: int) -> Seq<
    VerletObject,
>
    decreases n,
{
    if n <= 0 {
        ps
    } else {
        resolve_self_row_upto(resolve_self_upto(ps, c, n - 1), c, n - 1, c.len() as int)
    }
}

/// What `check_cell_collisions` does: each unordered pair of distinct
/// indices within one bucket, once, through the narrow phase.
pub open spec fn resolve_self_model(ps: Seq<VerletObject>, c: Seq<usize>) -> Seq<VerletObject> {
    resolve_self_upto(ps, c, c.len() as int)
}

/// Everything but the current position agrees between `q` and `p`.
pub open spec fn same_but_position(q: VerletObject, p: VerletObject) -> bool {
    &&& q.position_old == p.position_old
    &&& q.acceleration == p.acceleration
    &&& q.radius == p.radius
    &&& q.col == p.col
}

/// The current position of `q` stays within the larger of `p`'s own bound
/// and the collision envelope padded by one correction.
pub open spec fn pos_envelope(q: VerletObject, p: VerletObject) -> bool {
    &&& abs(q.position_current.x as int) <= max(
        abs(p.position_current.x as int) as int,
        COLLISION_RANGE + 2 * MAX_RADIUS,
    )
    &&& abs(q.position_current.y as int) <= max(
        abs(p.position_current.y as int) as int,
        COLLISION_RANGE + 2 * MAX_RADIUS,
    )
}

/// A correction component is below the penetration depth.
proof fn lemma_corr_bound(dx: int, dy: int, delta: int)
    requires
        dx * dx + dy * dy > 0,
        0 <= delta,
    ensures
        -delta <= div_trunc(dx * delta, 2 * sqrt_floor(dx * dx + dy * dy)) <= delta,
{
    let m = sqrt_floor(dx * dx + dy * dy);
    lemma_sqrt_ge_component(dx, dy);
    let ax = if dx >= 0 { dx } else { -dx };
    assert(ax * delta < (delta + 1) * (2 * m)) by (nonlinear_arith)
        requires
            0 <= ax <= m && m >= 1 && 0 <= delta,
    ;
    lemma_div_bound(ax * delta, 2 * m, delta + 1);
    vstd::arithmetic::div_mod::lemma_div_pos_is_pos(ax * delta, 2 * m);
    if dx >= 0 {
        assert(div_trunc(dx * delta, 2 * m) == (ax * delta) / (2 * m));
    } else {
        assert(dx * delta == -(ax * delta)) by (nonlinear_arith)
            requires
                dx < 0 && ax == -dx && 0 <= delta,
        ;
        assert(div_trunc(dx * delta, 2 * m) == -((ax * delta) / (2 * m)));
    }
}

/// Narrow phase for one pair.  If the circles overlap (and are not
/// concentric, and are inside the collision envelope), each is displaced by
/// half the penetration along the connecting axis, in opposite directions;
/// otherwise both are left exactly as they were.  In particular, two
/// particles separated by exactly the sum of their radii are not moved.
pub fn solve_collision(a: &mut VerletObject, b: &mut VerletObject)
    requires
        valid_radius(*old(a)),
        valid_radius(*old(b)),
    ensures
        same_but_position(*final(a), *old(a)),
        same_but_position(*final(b), *old(b)),
        collides(*old(a), *old(b)) ==> {
            &&& final(a).position_current.x == old(a).position_current.x + corr_x(
                *old(a),
                *old(b),
            )
            &&& final(a).position_current.y == old(a).position_current.y + corr_y(
                *old(a),
                *old(b),
            )
            &&& final(b).position_current.x == old(b).position_current.x - corr_x(
                *old(a),
                *old(b),
            )
            &&& final(b).position_current.y == old(b).position_current.y - corr_y(
                *old(a),
                *old(b),
            )
        },
        !collides(*old(a), *old(b)) ==> {
            &&& *final(a) == *old(a)
            &&& *final(b) == *old(b)
        },
        pos_envelope(*final(a), *old(a)),
        pos_envelope(*final(b), *old(b)),
{
    if a.position_current.x < -COLLISION_RANGE || a.position_current.x > COLLISION_RANGE
        || a.position_current.y < -COLLISION_RANGE || a.position_current.y > COLLISION_RANGE
        || b.position_current.x < -COLLISION_RANGE || b.position_current.x > COLLISION_RANGE
        || b.position_current.y < -COLLISION_RANGE || b.position_current.y > COLLISION_RANGE {
        return ;
    }
    let dx = a.position_current.x - b.position_current.x;
    let dy = a.position_current.y - b.position_current.y;
    proof {
        lemma_square_le(dx as int, 0x20_0000_0000_0000);
        lemma_square_le(dy as int, 0x20_0000_0000_0000);
        lemma_square_le((a.radius + b.radius) as int, 0x2_0000_0000);
    }
    let d2: i128 = (dx as i128) * (dx as i128) + (dy as i128) * (dy as i128);
    let rsum = a.radius + b.radius;
    let rsum2: i128 = (rsum as i128) * (rsum as i128);
    if d2 == 0 || d2 >= rsum2 {
        return ;
    }
    let mag: u128 = isqrt_u128(d2 as u128);
    proof {
        if mag >= rsum {
            lemma_square_le(rsum as int, mag as int);
        }
        lemma_sqrt_ge_component(dx as int, dy as int);
    }
    let dist: i64 = mag as i64;
    let delta: i64 = rsum - dist;
    proof {
        crate::fixed::lemma_mul_le_bounds(
            dx as int, delta as int, 0x20_0000_0000_0000, 0x2_0000_0000);
        crate::fixed::lemma_mul_le_bounds(
            dy as int, delta as int, 0x20_0000_0000_0000, 0x2_0000_0000);
        lemma_corr_bound(dx as int, dy as int, delta as int);
        lemma_corr_bound(dy as int, dx as int, delta as int);
    }
    let cx: i64 = trunc_div_i128(
        (dx as i128) * (delta as i128),
        2 * (dist as i128),
    ) as i64;
    let cy: i64 = trunc_div_i128(
        (dy as i128) * (delta as i128),
        2 * (dist as i128),
    ) as i64;
    a.position_current.x = a.position_current.x + cx;
    a.position_current.y = a.position_current.y + cy;
    b.position_current.x = b.position_current.x - cx;
    b.position_current.y = b.position_current.y - cy;
}

/// No two distinct indices, one from each bucket, name a pair the narrow
/// phase would move.
pub open spec fn no_colliding_pair(
    ps: Seq<VerletObject>,
    c1: Seq<usize>,
    c2: Seq<usize>,
) -> bool {
    forall|k1: int, k2: int| #![trigger c1[k1], c2[k2]]
        0 <= k1 < c1.len() && 0 <= k2 < c2.len() && c1[k1] != c2[k2] ==> !collides(
            ps[c1[k1] as int],
            ps[c2[k2] as int],
        )
}

/// Runs the narrow phase across the cross product of two cell buckets,
/// skipping identical indices.  If no distinct pair from the two buckets
/// collides, the particles come back exactly as they went in.
#[verifier::loop_isolation(false)]
pub fn check_cells_collisions(
    particles: &mut Vec<VerletObject>,
    cell_1: &Vec<usize>,
    cell_2: &Vec<usize>,
)
    requires
        forall|k: int|
            0 <= k < cell_1@.len() ==> (#[trigger] cell_1@[k] as int) < old(particles)@.len(),
        forall|k: int|
            0 <= k < cell_2@.len() ==> (#[trigger] cell_2@[k] as int) < old(particles)@.len(),
        forall|j: int|
            0 <= j < old(particles)@.len() ==> valid_radius(#[trigger] old(particles)@[j]),
    ensures
        final(particles)@.len() == old(particles)@.len(),
        forall|j: int| #![trigger final(particles)@[j]]
            0 <= j < old(particles)@.len() ==> {
                &&& same_but_position(final(particles)@[j], old(particles)@[j])
                &&& pos_envelope(final(particles)@[j], old(particles)@[j])
            },
        no_colliding_pair(old(particles)@, cell_1@, cell_2@) ==> final(particles)@ == old(
            particles,
        )@,
        final(particles)@ == resolve_cells_model(old(particles)@, cell_1@, cell_2@),
{
    let n1 = cell_1.len();
    let mut k1: usize = 0;
    while k1 < n1
        invariant
            k1 <= n1,
            particles@.len() == old(particles)@.len(),
            forall|j: int| #![trigger particles@[j]]
                0 <= j < old(particles)@.len() ==> {
                    &&& same_but_position(particles@[j], old(particles)@[j])
                    &&& pos_envelope(particles@[j], old(particles)@[j])
                },
            no_colliding_pair(old(particles)@, cell_1@, cell_2@) ==> particles@ == old(
                particles,
            )@,
            particles@ == resolve_cells_upto(old(particles)@, cell_1@, cell_2@, k1 as int),
        decreases n1 - k1,
    {
        let i1 = cell_1[k1];
        let n2 = cell_2.len();
        let mut k2: usize = 0;
        while k2 < n2
            invariant
                k2 <= n2,
                k1 < n1,
                i1 == cell_1@[k1 as int],
                particles@.len() == old(particles)@.len(),
                forall|j: int| #![trigger particles@[j]]
                    0 <= j < old(particles)@.len() ==> {
                        &&& same_but_position(particles@[j], old(particles)@[j])
                        &&& pos_envelope(particles@[j], old(particles)@[j])
                    },
                no_colliding_pair(old(particles)@, cell_1@, cell_2@) ==> particles@ == old(
                    particles,
                )@,
                particles@ == resolve_row_upto(
                    resolve_cells_upto(old(particles)@, cell_1@, cell_2@, k1 as int),
                    i1 as int,
                    cell_2@,
                    k2 as int,
                ),
            decreases n2 - k2,
        {
            let i2 = cell_2[k2];
            if i1 != i2 {
                let ghost pre = particles@;
                let mut pa = particles[i1];
                let mut pb = particles[i2];
                solve_collision(&mut pa, &mut pb);
                particles[i1] = pa;
                particles[i2] = pb;
                proof {
                    assert forall|j: int| #![trigger particles@[j]]
                        0 <= j < old(particles)@.len() implies {
                        &&& same_but_position(particles@[j], old(particles)@[j])
                        &&& pos_envelope(particles@[j], old(particles)@[j])
                    } by {
                        if j != i1 as int && j != i2 as int {
                            assert(particles@[j] == pre[j]);
                        }
                    }
                    if collides(pre[i1 as int], pre[i2 as int]) {
                        assert(pa == corrected(
                            pre[i1 as int],
                            corr_x(pre[i1 as int], pre[i2 as int]),
                            corr_y(pre[i1 as int], pre[i2 as int]),
                        ));
                        assert(pb == corrected(
                            pre[i2 as int],
                            -corr_x(pre[i1 as int], pre[i2 as int]),
                            -corr_y(pre[i1 as int], pre[i2 as int]),
                        ));
                        assert(particles@ == resolve_pair_model(pre, i1 as int, i2 as int));
                    } else {
                        assert(particles@ =~= pre);
                        assert(particles@ == resolve_pair_model(pre, i1 as int, i2 as int));
                    }
                    if no_colliding_pair(old(particles)@, cell_1@, cell_2@) {
                        assert(pre == old(particles)@);
                        assert(cell_1@[k1 as int] == i1 && cell_2@[k2 as int] == i2);
                        assert(!collides(pre[i1 as int], pre[i2 as int]));
                        assert(particles@ =~= old(particles)@);
                    }
                }
            }
            k2 = k2 + 1;
        }
        k1 = k1 + 1;
    }
}

/// Runs the narrow phase across every unordered pair of distinct indices
/// inside one cell bucket, each pair once, in order.  If no pair from the
/// bucket collides, the particles come back exactly as they went in.
#[verifier::loop_isolation(false)]
pub fn check_cell_collisions(particles: &mut Vec<VerletObject>, cell: &Vec<usize>)
    requires
        forall|k: int|
            0 <= k < cell@.len() ==> (#[trigger] cell@[k] as int) < old(particles)@.len(),
        forall|k1: int, k2: int| #![trigger cell@[k1], cell@[k2]]
            0 <= k1 < k2 < cell@.len() ==> cell@[k1] < cell@[k2],
        forall|j: int|
            0 <= j < old(particles)@.len() ==> valid_radius(#[trigger] old(particles)@[j]),
    ensures
        final(particles)@.len() == old(particles)@.len(),
        forall|j: int| #![trigger final(particles)@[j]]
            0 <= j < old(particles)@.len() ==> {
                &&& same_but_position(final(particles)@[j], old(particles)@[j])
                &&& pos_envelope(final(particles)@[j], old(particles)@[j])
            },
        no_colliding_pair(old(particles)@, cell@, cell@) ==> final(particles)@ == old(
            particles,
        )@,
        final(particles)@ == resolve_self_model(old(particles)@, cell@),
{
    let n1 = cell.len();
    let mut k1: usize = 0;
    while k1 < n1
        invariant
            k1 <= n1,
            particles@.len() == old(particles)@.len(),
            forall|j: int| #![trigger particles@[j]]
                0 <= j < old(particles)@.len() ==> {
                    &&& same_but_position(particles@[j], old(particles)@[j])
                    &&& pos_envelope(particles@[j], old(particles)@[j])
                },
            no_colliding_pair(old(particles)@, cell@, cell@) ==> particles@ == old(particles)@,
            particles@ == resolve_self_upto(old(particles)@, cell@, k1 as int),
        decreases n1 - k1,
    {
        let i1 = cell[k1];
        let mut k2: usize = k1 + 1;
        while k2 < n1
            invariant
                k1 < k2 <= n1,
                i1 == cell@[k1 as int],
                particles@.len() == old(particles)@.len(),
                forall|j: int| #![trigger particles@[j]]
                    0 <= j < old(particles)@.len() ==> {
                        &&& same_but_position(particles@[j], old(particles)@[j])
                        &&& pos_envelope(particles@[j], old(particles)@[j])
                    },
                no_colliding_pair(old(particles)@, cell@, cell@) ==> particles@ == old(
                    particles,
                )@,
                particles@ == resolve_self_row_upto(
                    resolve_self_upto(old(particles)@, cell@, k1 as int),
                    cell@,
                    k1 as int,
                    k2 as int,
                ),
            decreases n1 - k2,
        {
            let i2 = cell[k2];
            let ghost pre = particles@;
            let mut pa = particles[i1];
            let mut pb = particles[i2];
            solve_collision(&mut pa, &mut pb);
            particles[i1] = pa;
            particles[i2] = pb;
            proof {
                assert(i1 != i2);
                assert forall|j: int| #![trigger particles@[j]]
                    0 <= j < old(particles)@.len() implies {
                    &&& same_but_position(particles@[j], old(particles)@[j])
                    &&& pos_envelope(particles@[j], old(particles)@[j])
                } by {
                    if j != i1 as int && j != i2 as int {
                        assert(particles@[j] == pre[j]);
                    }
                }
                if collides(pre[i1 as int], pre[i2 as int]) {
                    assert(pa == corrected(
                        pre[i1 as int],
                        corr_x(pre[i1 as int], pre[i2 as int]),
                        corr_y(pre[i1 as int], pre[i2 as int]),
                    ));
                    assert(pb == corrected(
                        pre[i2 as int],
                        -corr_x(pre[i1 as int], pre[i2 as int]),
                        -corr_y(pre[i1 as int], pre[i2 as int]),
                    ));
                    assert(particles@ == resolve_pair_model(pre, i1 as int, i2 as int));
                } else {
                    assert(particles@ =~= pre);
                    assert(particles@ == resolve_pair_model(pre, i1 as int, i2 as int));
                }
                if no_colliding_pair(old(particles)@, cell@, cell@) {
                    assert(pre == old(particles)@);
                    assert(cell@[k1 as int] == i1 && cell@[k2 as int] == i2);
                    assert(!collides(pre[i1 as int], pre[i2 as int]));
                    assert(particles@ =~= old(particles)@);
                }
            }
            k2 = k2 + 1;
        }
        k1 = k1 + 1;
    }
}

/// The cells of `p` and `q` coincide or touch, possibly diagonally.
pub open spec fn cells_adjacent(p: VerletObject, q: VerletObject, cs: int) -> bool {
    &&& -1 <= cell_of_x(p, cs) - cell_of_x(q, cs) <= 1
    &&& -1 <= cell_of_y(p, cs) - cell_of_y(q, cs) <= 1
}

/// No two distinct particles sit in the same or touching cells.
pub open spec fn no_adjacent_pair(ps: Seq<VerletObject>, cs: int) -> bool {
    forall|i: int, j: int|
        0 <= i < ps.len() && 0 <= j < ps.len() && i != j ==> !(#[trigger] cells_adjacent(
            ps[i],
            ps[j],
            cs,
        ))
}

/// No two distinct particles would be moved by the narrow phase.
pub open spec fn no_overlapping_pair(ps: Seq<VerletObject>) -> bool {
    forall|i: int, j: int|
        0 <= i < ps.len() && 0 <= j < ps.len() && i != j ==> !(#[trigger] collides(
            ps[i],
            ps[j],
        ))
}

/// The half stencil: the x offset of direction `o`.
pub open spec fn stencil_x(o: int) -> int {
    if o <= 1 {
        0
    } else {
        1
    }
}

/// The half stencil: the y offset of direction `o`.  The five directions
/// `(0,0) (0,1) (1,-1) (1,0) (1,1)` pair each unordered pair of cells
/// exactly once.
pub open spec fn stencil_y(o: int) -> int {
    if o == 0 {
        0
    } else if o == 1 {
        1
    } else if o == 2 {
        -1
    } else if o == 3 {
        0
    } else {
        1
    }
}

/// One broad-phase step: cell `a` of the grid against stencil direction
/// `o`.  Direction zero resolves the cell against itself (each unordered
/// pair once); the others resolve it against the neighbor cell in that
/// direction, if the neighbor is occupied.
pub open spec fn broad_step(
    ps: Seq<VerletObject>,
    g: Seq<GridCellModel>,
    a: int,
    o: int,
) -> Seq<VerletObject> {
    if o == 0 {
        resolve_self_model(ps, g[a].indices)
    } else {
        let b = find_cell(g, g[a].cx + stencil_x(o), g[a].cy + stencil_y(o));
        if b >= 0 {
            resolve_cells_model(ps, g[a].indices, g[b].indices)
        } else {
            ps
        }
    }
}

/// Cell `a` against its first `o` stencil directions, in order.
pub open spec fn broad_offsets_upto(
    ps: Seq<VerletObject>,
    g: Seq<GridCellModel>,
    a: int,
    o: int,
) -> Seq<VerletObject>
    decreases o,
{
    if o <= 0 {
        ps
    } else {
        broad_step(broad_offsets_upto(ps, g, a, o - 1), g, a, o - 1)
    }
}

/// The first `n` cells of the grid, each taken through the five stencil
/// directions, in order.
pub open spec fn broad_cells_upto(
    ps: Seq<VerletObject>,
    g: Seq<GridCellModel>,
    n: int,
) -> Seq<VerletObject>
    decreases n,
{
    if n <= 0 {
        ps
    } else {
        broad_offsets_upto(broad_cells_upto(ps, g, n - 1), g, n - 1, 5)
    }
}

/// What `find_collisions` does: build the grid from the current positions,
/// then resolve every occupied cell against itself and its half-stencil
/// neighbors, in grid order.
pub open spec fn broad_phase_model(ps: Seq<VerletObject>, cs: int) -> Seq<VerletObject> {
    broad_cells_upto(ps, grid_model(ps, cs), grid_model(ps, cs).len() as int)
}

/// Broad and narrow phase for one sub-step: builds the grid from current
/// positions, then for every occupied cell visits itself and its
/// half-stencil neighbors (right column and upper row, so each unordered
/// cell pair is seen once) and resolves the buckets pair by pair.  The
/// result is exactly `broad_phase_model` of the entry state.
///
/// Two structural consequences are also stated: particles placed in
/// mutually non-adjacent cells are never even tested, so they come back
/// unchanged; and if no distinct pair collides at entry, everything comes
/// back unchanged.
#[verifier::loop_isolation(false)]
#[verifier::rlimit(60)]
pub fn find_collisions(particles: &mut Vec<VerletObject>, cell_size: i64)
    requires
        cell_size >= 1,
        forall|j: int| #![trigger old(particles)@[j]]
            0 <= j < old(particles)@.len() ==> {
                &&& valid_radius(old(particles)@[j])
                &&& -0x4000_0000_0000_0000 <= old(particles)@[j].position_current.x
                    <= 0x4000_0000_0000_0000
                &&& -0x4000_0000_0000_0000 <= old(particles)@[j].position_current.y
                    <= 0x4000_0000_0000_0000
            },
    ensures
        final(particles)@.len() == old(particles)@.len(),
        forall|j: int| #![trigger final(particles)@[j]]
            0 <= j < old(particles)@.len() ==> {
                &&& same_but_position(final(particles)@[j], old(particles)@[j])
                &&& pos_envelope(final(particles)@[j], old(particles)@[j])
            },
        no_overlapping_pair(old(particles)@) ==> final(particles)@ == old(particles)@,
        no_adjacent_pair(old(particles)@, cell_size as int) ==> final(particles)@ == old(
            particles,
        )@,
        final(particles)@ == broad_phase_model(old(particles)@, cell_size as int),
{
    let grid = compute_spatial_map(particles, cell_size);
    let ghost gm = grid_model(old(particles)@, cell_size as int);
    let glen = grid.len();
    let mut a: usize = 0;
    while a < glen
        invariant
            a <= glen,
            particles@.len() == old(particles)@.len(),
            forall|j: int| #![trigger particles@[j]]
                0 <= j < old(particles)@.len() ==> {
                    &&& same_but_position(particles@[j], old(particles)@[j])
                    &&& pos_envelope(particles@[j], old(particles)@[j])
                },
            no_overlapping_pair(old(particles)@) ==> particles@ == old(particles)@,
            no_adjacent_pair(old(particles)@, cell_size as int) ==> particles@ == old(
                particles,
            )@,
            particles@ == broad_cells_upto(old(particles)@, gm, a as int),
        decreases glen - a,
    {
        let mut o: usize = 0;
        while o < 5
            invariant
                o <= 5,
                a < glen,
                particles@.len() == old(particles)@.len(),
                forall|j: int| #![trigger particles@[j]]
                    0 <= j < old(particles)@.len() ==> {
                        &&& same_but_position(particles@[j], old(particles)@[j])
                        &&& pos_envelope(particles@[j], old(particles)@[j])
                    },
                no_overlapping_pair(old(particles)@) ==> particles@ == old(particles)@,
                no_adjacent_pair(old(particles)@, cell_size as int) ==> particles@ == old(
                    particles,
                )@,
                particles@ == broad_offsets_upto(
                    broad_cells_upto(old(particles)@, gm, a as int),
                    gm,
                    a as int,
                    o as int,
                ),
            decreases 5 - o,
        {
            proof {
                assert forall|j: int|
                    0 <= j < particles@.len() implies valid_radius(#[trigger] particles@[j]) by {
                    assert(particles@[j].radius == old(particles)@[j].radius);
                }
                assert(cell_matches(grid@[a as int], gm[a as int]));
            }
            if o == 0 {
                let ghost pre = particles@;
                check_cell_collisions(particles, &grid[a].indices);
                proof {
                    let cs = cell_size as int;
                    let ps0 = old(particles)@;
                    let c1 = grid@[a as int].indices@;
                    assert forall|j: int| #![trigger particles@[j]]
                        0 <= j < ps0.len() implies {
                        &&& same_but_position(particles@[j], ps0[j])
                        &&& pos_envelope(particles@[j], ps0[j])
                    } by {
                        assert(same_but_position(particles@[j], pre[j]));
                        assert(pos_envelope(particles@[j], pre[j]));
                    }
                    assert(particles@ == broad_step(pre, gm, a as int, 0));
                    if no_overlapping_pair(ps0) {
                        assert(pre == ps0);
                        assert(no_colliding_pair(pre, c1, c1)) by {
                            assert forall|k1: int, k2: int| #![trigger c1[k1], c1[k2]]
                                0 <= k1 < c1.len() && 0 <= k2 < c1.len() && c1[k1] != c1[k2]
                                implies !collides(pre[c1[k1] as int], pre[c1[k2] as int]) by {
                                assert(!collides(ps0[c1[k1] as int], ps0[c1[k2] as int]));
                            }
                        }
                        assert(particles@ == ps0);
                    }
                    if no_adjacent_pair(ps0, cs) {
                        assert(pre == ps0);
                        assert(no_colliding_pair(pre, c1, c1)) by {
                            assert forall|k1: int, k2: int| #![trigger c1[k1], c1[k2]]
                                0 <= k1 < c1.len() && 0 <= k2 < c1.len() && c1[k1] != c1[k2]
                                implies !collides(pre[c1[k1] as int], pre[c1[k2] as int]) by {
                                let i = c1[k1] as int;
                                let j = c1[k2] as int;
                                assert(cell_of_x(ps0[i], cs) == grid@[a as int].cx);
                                assert(cell_of_y(ps0[i], cs) == grid@[a as int].cy);
                                assert(cell_of_x(ps0[j], cs) == grid@[a as int].cx);
                                assert(cell_of_y(ps0[j], cs) == grid@[a as int].cy);
                                assert(cells_adjacent(ps0[i], ps0[j], cs));
                                assert(!cells_adjacent(ps0[i], ps0[j], cs));
                            }
                        }
                        assert(particles@ == ps0);
                    }
                }
            } else {
                let (ox, oy): (i64, i64) = if o == 1 {
                    (0, 1)
                } else if o == 2 {
                    (1, -1)
                } else if o == 3 {
                    (1, 0)
                } else {
                    (1, 1)
                };
                proof {
                    assert(ox as int == stencil_x(o as int) && oy as int == stencil_y(o as int));
                }
                let nx: i128 = (grid[a].cx as i128) + (ox as i128);
                let ny: i128 = (grid[a].cy as i128) + (oy as i128);
                let ghost kx = gm[a as int].cx + stencil_x(o as int);
                let ghost ky = gm[a as int].cy + stencil_y(o as int);
                let mut b: usize = 0;
                while b < glen
                    invariant
                        b <= glen,
                        forall|c: int| #![trigger grid@[c].cx]
                            0 <= c < b ==> !(grid@[c].cx as i128 == nx && grid@[c].cy as i128
                                == ny),
                    decreases glen - b,
                {
                    if (grid[b].cx as i128) == nx && (grid[b].cy as i128) == ny {
                        break;
                    }
                    b = b + 1;
                }
                proof {
                    assert forall|c: int| 0 <= c < b as int implies !((#[trigger] gm[c]).cx == kx
                        && gm[c].cy == ky) by {
                        assert(cell_matches(grid@[c], gm[c]));
                    }
                    if b < glen {
                        assert(cell_matches(grid@[b as int], gm[b as int]));
                        lemma_find_cell_first(gm, kx, ky, b as int);
                    } else {
                        lemma_find_cell_first(gm, kx, ky, gm.len() as int);
                    }
                }
                if b < glen {
                    let ghost pre = particles@;
                    check_cells_collisions(particles, &grid[a].indices, &grid[b].indices);
                    proof {
                        let cs = cell_size as int;
                        let ps0 = old(particles)@;
                        let c1 = grid@[a as int].indices@;
                        let c2 = grid@[b as int].indices@;
                        assert forall|j: int| #![trigger particles@[j]]
                            0 <= j < ps0.len() implies {
                            &&& same_but_position(particles@[j], ps0[j])
                            &&& pos_envelope(particles@[j], ps0[j])
                        } by {
                            assert(same_but_position(particles@[j], pre[j]));
                            assert(pos_envelope(particles@[j], pre[j]));
                        }
                        assert(cell_matches(grid@[b as int], gm[b as int]));
                        assert(particles@ == broad_step(pre, gm, a as int, o as int));
                        if no_overlapping_pair(ps0) {
                            assert(pre == ps0);
                            assert(no_colliding_pair(pre, c1, c2)) by {
                                assert forall|k1: int, k2: int| #![trigger c1[k1], c2[k2]]
                                    0 <= k1 < c1.len() && 0 <= k2 < c2.len() && c1[k1] != c2[k2]
                                    implies !collides(pre[c1[k1] as int], pre[c2[k2] as int]) by {
                                    assert(!collides(ps0[c1[k1] as int], ps0[c2[k2] as int]));
                                }
                            }
                            assert(particles@ == ps0);
                        }
                        if no_adjacent_pair(ps0, cs) {
                            assert(pre == ps0);
                            assert(no_colliding_pair(pre, c1, c2)) by {
                                assert forall|k1: int, k2: int| #![trigger c1[k1], c2[k2]]
                                    0 <= k1 < c1.len() && 0 <= k2 < c2.len() && c1[k1] != c2[k2]
                                    implies !collides(pre[c1[k1] as int], pre[c2[k2] as int]) by {
                                    let i = c1[k1] as int;
                                    let j = c2[k2] as int;
                                    assert(cell_of_x(ps0[i], cs) == grid@[a as int].cx);
                                    assert(cell_of_y(ps0[i], cs) == grid@[a as int].cy);
                                    assert(cell_of_x(ps0[j], cs) == grid@[b as int].cx);
                                    assert(cell_of_y(ps0[j], cs) == grid@[b as int].cy);
                                    assert(grid@[b as int].cx == grid@[a as int].cx + ox);
                                    assert(grid@[b as int].cy == grid@[a as int].cy + oy);
                                    assert(cells_adjacent(ps0[i], ps0[j], cs));
                                    assert(!cells_adjacent(ps0[i], ps0[j], cs));
                                }
                            }
                            assert(particles@ == ps0);
                        }
                    }
                } else {
                    proof {
                        assert(particles@ == broad_step(particles@, gm, a as int, o as int));
                    }
                }
            }
            o = o + 1;
        }
        a = a + 1;
    }
}

} // verus!
