//! The spatial hash grid: a partition of particle indices by integer cell
//! coordinate, the floor of each position component divided by the cell
//! size.  The grid is rebuilt from scratch every sub-step, is a pure
//! function of current positions, and carries no state across sub-steps.

use vstd::prelude::*;
use crate::fixed::floor_div_i64;
use crate::particle::VerletObject;

verus! {

/// One occupied cell: its coordinates and the ordered list of indices of
/// the particles whose positions fall inside it.
pub struct GridCell {
    pub cx: i64,
    pub cy: i64,
    pub indices: Vec<usize>,
}

/// The cell column of a particle for cell size `cs` (Euclidean `/` is the
/// floor here, since `cs` is positive).
pub open spec fn cell_of_x(p: VerletObject, cs: int) -> int {
    (p.position_current.x as int) / cs
}

/// The cell row of a particle for cell size `cs`.
pub open spec fn cell_of_y(p: VerletObject, cs: int) -> int {
    (p.position_current.y as int) / cs
}

/// Every listed index is a particle of `ps` whose position lies in the
/// listing cell.
pub open spec fn buckets_sound(grid: Seq<GridCell>, ps: Seq<VerletObject>, cs: int) -> bool {
    forall|a: int, k: int| #![trigger grid[a].indices@[k]]
        0 <= a < grid.len() && 0 <= k < grid[a].indices@.len() ==> {
            &&& (grid[a].indices@[k] as int) < ps.len()
            &&& cell_of_x(ps[grid[a].indices@[k] as int], cs) == grid[a].cx
            &&& cell_of_y(ps[grid[a].indices@[k] as int], cs) == grid[a].cy
        }
}

/// Within each cell the indices are strictly increasing (so each appears
/// once, in insertion order).
pub open spec fn buckets_increasing(grid: Seq<GridCell>) -> bool {
    forall|a: int, k1: int, k2: int|
        #![trigger grid[a].indices@[k1], grid[a].indices@[k2]]
        0 <= a < grid.len() && 0 <= k1 < k2 < grid[a].indices@.len()
            ==> grid[a].indices@[k1] < grid[a].indices@[k2]
}

/// No two entries list the same cell.
pub open spec fn keys_distinct(grid: Seq<GridCell>) -> bool {
    forall|a: int, b: int| #![trigger grid[a].cx, grid[b].cx]
        0 <= a < b < grid.len() ==> !(grid[a].cx == grid[b].cx && grid[a].cy == grid[b].cy)
}

/// Only occupied cells are listed.
pub open spec fn buckets_nonempty(grid: Seq<GridCell>) -> bool {
    forall|a: int| 0 <= a < grid.len() ==> (#[trigger] grid[a].indices)@.len() > 0
}

/// Index `i` is listed somewhere in the grid.
pub open spec fn grid_contains(grid: Seq<GridCell>, i: int) -> bool {
    exists|a: int, k: int| #![trigger grid[a].indices@[k]]
        0 <= a < grid.len() && 0 <= k < grid[a].indices@.len() && grid[a].indices@[k] as int == i
}

/// Every particle index below `n` is listed.
pub open spec fn grid_complete(grid: Seq<GridCell>, n: int) -> bool {
    forall|i: int| 0 <= i < n ==> #[trigger] grid_contains(grid, i)
}

/// The grid partitions the indices of `ps` by cell: sound, duplicate-free,
/// with distinct non-empty cells, and complete.
pub open spec fn grid_wf(grid: Seq<GridCell>, ps: Seq<VerletObject>, cs: int) -> bool {
    &&& buckets_sound(grid, ps, cs)
    &&& buckets_increasing(grid)
    &&& keys_distinct(grid)
    &&& buckets_nonempty(grid)
    &&& grid_complete(grid, ps.len() as int)
}

/// The mathematical counterpart of one grid entry.
pub struct GridCellModel {
    pub cx: int,
    pub cy: int,
    pub indices: Seq<usize>,
}

/// The position of the first entry listing cell `(cx, cy)`, or `-1` if no
/// entry does: the lookup rule of the grid build.
pub open spec fn find_cell(g: Seq<GridCellModel>, cx: int, cy: int) -> int
    decreases g.len(),
{
    if g.len() == 0 {
        -1
    } else if g[0].cx == cx && g[0].cy == cy {
        0
    } else {
        let r = find_cell(g.drop_first(), cx, cy);
        if r < 0 {
            -1
        } else {
            r + 1
        }
    }
}

/// The grid after the first `n` particles have been placed: each index is
/// appended to the bucket of its cell, new cells in first-occupant order.
pub open spec fn grid_model_upto(ps: Seq<VerletObject>, cs: int, n: int) -> Seq<GridCellModel>
    decreases n,
{
    if n <= 0 {
        Seq::empty()
    } else {
        let prev = grid_model_upto(ps, cs, n - 1);
        let cx = cell_of_x(ps[n - 1], cs);
        let cy = cell_of_y(ps[n - 1], cs);
        let a = find_cell(prev, cx, cy);
        if a >= 0 {
            prev.update(
                a,
                GridCellModel { cx, cy, indices: prev[a].indices.push((n - 1) as usize) },
            )
        } else {
            prev.push(GridCellModel { cx, cy, indices: seq![(n - 1) as usize] })
        }
    }
}

/// The grid as a pure function of the particle positions and the cell size.
pub open spec fn grid_model(ps: Seq<VerletObject>, cs: int) -> Seq<GridCellModel> {
    grid_model_upto(ps, cs, ps.len() as int)
}

/// An exec grid entry carries exactly the model entry's content.
pub open spec fn cell_matches(c: GridCell, m: GridCellModel) -> bool {
    &&& c.cx as int == m.cx
    &&& c.cy as int == m.cy
    &&& c.indices@ == m.indices
}

/// The exec grid carries exactly the model grid, entry by entry.
pub open spec fn grid_matches(g: Seq<GridCell>, m: Seq<GridCellModel>) -> bool {
    &&& g.len() == m.len()
    &&& forall|a: int| 0 <= a < g.len() ==> cell_matches(#[trigger] g[a], m[a])
}

/// `find_cell` returns the first matching entry: a linear search that saw
/// no match before `a`, and a match at `a` (if `a` is in range), lands on
/// the same answer.
pub proof fn lemma_find_cell_first(g: Seq<GridCellModel>, cx: int, cy: int, a: int)
    requires
        0 <= a <= g.len(),
        forall|b: int| 0 <= b < a ==> !((#[trigger] g[b]).cx == cx && g[b].cy == cy),
        a < g.len() ==> (g[a].cx == cx && g[a].cy == cy),
    ensures
        a < g.len() ==> find_cell(g, cx, cy) == a,
        a == g.len() ==> find_cell(g, cx, cy) == -1,
    decreases g.len(),
{
    if g.len() == 0 {
    } else if g[0].cx == cx && g[0].cy == cy {
        assert(a == 0);
    } else {
        assert(a >= 1);
        let t = g.drop_first();
        assert forall|b: int| 0 <= b < a - 1 implies !((#[trigger] t[b]).cx == cx && t[b].cy
            == cy) by {
            assert(t[b] == g[b + 1]);
        }
        if a < g.len() {
            assert(t[a - 1] == g[a]);
        }
        lemma_find_cell_first(t, cx, cy, a - 1);
    }
}

/// Builds the spatial hash grid for the current particle positions:
/// each particle's index is appended to the bucket of the cell containing
/// its position, in index order.
#[verifier::loop_isolation(false)]
pub fn compute_spatial_map(particles: &Vec<VerletObject>, cell_size: i64) -> (grid: Vec<GridCell>)
    requires
        cell_size >= 1,
        forall|j: int| #![trigger particles@[j]]
            0 <= j < particles@.len() ==> {
                &&& -0x4000_0000_0000_0000 <= particles@[j].position_current.x
                    <= 0x4000_0000_0000_0000
                &&& -0x4000_0000_0000_0000 <= particles@[j].position_current.y
                    <= 0x4000_0000_0000_0000
            },
    ensures
        grid_wf(grid@, particles@, cell_size as int),
        grid_matches(grid@, grid_model(particles@, cell_size as int)),
{
    let n = particles.len();
    let mut grid: Vec<GridCell> = Vec::new();
    let mut i: usize = 0;
    while i < n
        invariant
            i <= n,
            buckets_sound(grid@, particles@, cell_size as int),
            buckets_increasing(grid@),
            keys_distinct(grid@),
            buckets_nonempty(grid@),
            grid_complete(grid@, i as int),
            grid_matches(grid@, grid_model_upto(particles@, cell_size as int, i as int)),
            forall|a: int, k: int| #![trigger grid@[a].indices@[k]]
                0 <= a < grid@.len() && 0 <= k < grid@[a].indices@.len()
                    ==> (grid@[a].indices@[k] as int) < i,
        decreases n - i,
    {
        let p = particles[i];
        let cx = floor_div_i64(p.position_current.x, cell_size);
        let cy = floor_div_i64(p.position_current.y, cell_size);
        let mut a: usize = 0;
        let glen = grid.len();
        while a < glen
            invariant
                a <= glen,
                glen == grid@.len(),
                forall|b: int| #![trigger grid@[b].cx]
                    0 <= b < a ==> !(grid@[b].cx == cx && grid@[b].cy == cy),
            decreases glen - a,
        {
            if grid[a].cx == cx && grid[a].cy == cy {
                break;
            }
            a = a + 1;
        }
        let ghost gm = grid_model_upto(particles@, cell_size as int, i as int);
        proof {
            assert forall|b: int| 0 <= b < a implies !((#[trigger] gm[b]).cx == cx as int
                && gm[b].cy == cy as int) by {
                assert(cell_matches(grid@[b], gm[b]));
            }
            if a < glen {
                assert(cell_matches(grid@[a as int], gm[a as int]));
                lemma_find_cell_first(gm, cx as int, cy as int, a as int);
            } else {
                lemma_find_cell_first(gm, cx as int, cy as int, gm.len() as int);
            }
        }
        if a < glen {
            let ghost old_grid = grid@;
            grid[a].indices.push(i);
            proof {
                let gm2 = grid_model_upto(particles@, cell_size as int, i + 1);
                assert(gm2 == gm.update(
                    a as int,
                    GridCellModel {
                        cx: cx as int,
                        cy: cy as int,
                        indices: gm[a as int].indices.push(i),
                    },
                ));
                assert forall|b: int| 0 <= b < grid@.len() implies cell_matches(
                    #[trigger] grid@[b],
                    gm2[b],
                ) by {
                    if b == a as int {
                        assert(grid@[b].indices@ == old_grid[b].indices@.push(i));
                    } else {
                        assert(grid@[b] == old_grid[b]);
                        assert(gm2[b] == gm[b]);
                    }
                }
                assert(grid_matches(grid@, gm2));
            }
            proof {
                assert forall|b: int, k: int| #![trigger grid@[b].indices@[k]]
                    0 <= b < grid@.len() && 0 <= k < grid@[b].indices@.len()
                    implies {
                        &&& (grid@[b].indices@[k] as int) < i + 1
                        &&& (grid@[b].indices@[k] as int) < particles@.len()
                        &&& cell_of_x(particles@[grid@[b].indices@[k] as int], cell_size as int)
                            == grid@[b].cx
                        &&& cell_of_y(particles@[grid@[b].indices@[k] as int], cell_size as int)
                            == grid@[b].cy
                    } by {
                    if b == a && k == grid@[b].indices@.len() - 1 {
                        assert(grid@[b].indices@[k] == i);
                    } else {
                        assert(grid@[b].indices@[k] == old_grid[b].indices@[k]);
                    }
                }
                assert(grid_contains(grid@, i as int)) by {
                    assert(grid@[a as int].indices@[grid@[a as int].indices@.len() - 1] as int
                        == i as int);
                }
                assert forall|q: int| 0 <= q < i + 1 implies #[trigger] grid_contains(
                    grid@,
                    q,
                ) by {
                    if q < i {
                        assert(grid_contains(old_grid, q));
                        let (b, k): (int, int) = choose|b: int, k: int|
                            #![trigger old_grid[b].indices@[k]]
                            0 <= b < old_grid.len() && 0 <= k < old_grid[b].indices@.len()
                                && old_grid[b].indices@[k] as int == q;
                        assert(grid@[b].indices@[k] as int == q);
                    }
                }
            }
        } else {
            let mut indices: Vec<usize> = Vec::new();
            indices.push(i);
            let ghost old_grid = grid@;
            grid.push(GridCell { cx, cy, indices });
            proof {
                let gm2 = grid_model_upto(particles@, cell_size as int, i + 1);
                assert(gm2 == gm.push(
                    GridCellModel { cx: cx as int, cy: cy as int, indices: seq![i] },
                ));
                assert forall|b: int| 0 <= b < grid@.len() implies cell_matches(
                    #[trigger] grid@[b],
                    gm2[b],
                ) by {
                    if b == grid@.len() - 1 {
                        assert(grid@[b].indices@ =~= seq![i]);
                    } else {
                        assert(grid@[b] == old_grid[b]);
                    }
                }
                assert(grid_matches(grid@, gm2));
                let glen2 = grid@.len() - 1;
                assert(grid@[glen2].indices@[0] == i);
                assert forall|q: int| 0 <= q < i + 1 implies #[trigger] grid_contains(
                    grid@,
                    q,
                ) by {
                    if q < i {
                        assert(grid_contains(old_grid, q));
                        let (b, k): (int, int) = choose|b: int, k: int|
                            #![trigger old_grid[b].indices@[k]]
                            0 <= b < old_grid.len() && 0 <= k < old_grid[b].indices@.len()
                                && old_grid[b].indices@[k] as int == q;
                        assert(grid@[b].indices@[k] as int == q);
                    } else {
                        assert(grid@[glen2].indices@[0] as int == q);
                    }
                }
            }
        }
        i = i + 1;
    }
    grid
}

} // verus!
