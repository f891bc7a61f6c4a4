use vstd::prelude::*;

use std::collections::VecDeque;

use crate::compose::Layer;
use crate::geometry::in_bounds;
use crate::history::pushed_snapshot;
use crate::palette::PaletteEntry;
use crate::pixel::{valid_alpha, Pixel, Rgb};
use crate::session::{cell_index, lemma_cell_index_bounds, stack_view, Session, StatusMsg};

verus! {

/// Two cells sharing an edge: the fill spreads 4-connected.
pub open spec fn adjacent(a: (int, int), b: (int, int)) -> bool {
    ||| (a.0 == b.0 && (a.1 == b.1 + 1 || a.1 + 1 == b.1))
    ||| (a.1 == b.1 && (a.0 == b.0 + 1 || a.0 + 1 == b.0))
}

/// A valid fill path: a nonempty chain of edge-adjacent canvas cells that
/// all hold exactly the target pixel.
pub open spec fn fill_path_ok(grid: Seq<Pixel>, w: int, h: int, t: Pixel, p: Seq<(int, int)>) -> bool {
    &&& p.len() >= 1
    &&& forall|k: int|
        0 <= k < p.len() ==> in_bounds(w, h, (#[trigger] p[k]).0, p[k].1) && grid[cell_index(
            w,
            p[k].0,
            p[k].1,
        )] == t
    &&& forall|k: int| 0 <= k < p.len() - 1 ==> adjacent(#[trigger] p[k], p[k + 1])
}

/// `c` lies in the 4-connected region of cells equal to the target pixel
/// that contains the seed.
#[verifier::opaque]
pub open spec fn fill_reachable(
    grid: Seq<Pixel>,
    w: int,
    h: int,
    t: Pixel,
    seed: (int, int),
    c: (int, int),
) -> bool {
    exists|p: Seq<(int, int)>|
        fill_path_ok(grid, w, h, t, p) && p[0] == seed && p.last() == c
}

/// A path extended by one adjacent on-target cell is still a path.
proof fn lemma_path_extend(
    grid: Seq<Pixel>,
    w: int,
    h: int,
    t: Pixel,
    p: Seq<(int, int)>,
    c: (int, int),
)
    requires
        fill_path_ok(grid, w, h, t, p),
        adjacent(p.last(), c),
        in_bounds(w, h, c.0, c.1),
        grid[cell_index(w, c.0, c.1)] == t,
    ensures
        fill_path_ok(grid, w, h, t, p.push(c)),
        p.push(c)[0] == p[0],
        p.push(c).last() == c,
{
    let q = p.push(c);
    assert(forall|k: int| 0 <= k < p.len() ==> q[k] == p[k]);
    assert(q[q.len() - 1] == c);
    assert(forall|k: int| 0 <= k < q.len() - 1 ==> adjacent(#[trigger] q[k], q[k + 1])) by {
        assert(forall|k: int| 0 <= k < p.len() - 1 ==> adjacent(#[trigger] p[k], p[k + 1]));
        assert(adjacent(q[p.len() - 1], q[p.len() as int]));
    }
}

/// Reachability extends across one edge to an adjacent on-target cell.
proof fn lemma_reach_step(
    grid: Seq<Pixel>,
    w: int,
    h: int,
    t: Pixel,
    seed: (int, int),
    a: (int, int),
    b: (int, int),
)
    requires
        fill_reachable(grid, w, h, t, seed, a),
        adjacent(a, b),
        in_bounds(w, h, b.0, b.1),
        grid[cell_index(w, b.0, b.1)] == t,
    ensures
        fill_reachable(grid, w, h, t, seed, b),
{
    reveal(fill_reachable);
    let p = choose|p: Seq<(int, int)>|
        fill_path_ok(grid, w, h, t, p) && p[0] == seed && p.last() == a;
    lemma_path_extend(grid, w, h, t, p, b);
    assert(fill_path_ok(grid, w, h, t, p.push(b)) && p.push(b)[0] == seed && p.push(b).last() == b);
}

/// Distinct canvas cells have distinct row-major indices.
proof fn lemma_cell_index_injective(w: int, h: int, x1: int, y1: int, x2: int, y2: int)
    requires
        in_bounds(w, h, x1, y1),
        in_bounds(w, h, x2, y2),
        cell_index(w, x1, y1) == cell_index(w, x2, y2),
    ensures
        x1 == x2,
        y1 == y2,
{
    assert(y1 == y2 && x1 == x2) by (nonlinear_arith)
        requires
            0 <= x1 < w,
            0 <= x2 < w,
            0 <= y1,
            0 <= y2,
            y1 * w + x1 == y2 * w + x2,
    ;
}

/// Dropping the front of a queue keeps every other element.
proof fn lemma_tail_keeps(q: Seq<(usize, usize)>)
    requires
        q.len() > 0,
    ensures
        forall|c: (usize, usize)|
            #[trigger] q.contains(c) && c != q[0] ==> q.subrange(1, q.len() as int).contains(c),
{
    assert forall|c: (usize, usize)| #[trigger] q.contains(c) && c != q[0] implies q.subrange(
        1,
        q.len() as int,
    ).contains(c) by {
        let k = choose|k: int| 0 <= k < q.len() && q[k] == c;
        assert(q.subrange(1, q.len() as int)[k - 1] == c);
    }
}

/// Pushing onto a queue keeps every element and adds the new one.
proof fn lemma_push_keeps(q: Seq<(usize, usize)>, e: (usize, usize))
    ensures
        q.push(e).contains(e),
        forall|c: (usize, usize)| #[trigger] q.contains(c) ==> q.push(e).contains(c),
{
    assert(q.push(e)[q.len() as int] == e);
    assert forall|c: (usize, usize)| #[trigger] q.contains(c) implies q.push(e).contains(c) by {
        let k = choose|k: int| 0 <= k < q.len() && q[k] == c;
        assert(q.push(e)[k] == c);
    }
}

/// How many cells of the grid hold exactly the target pixel.
pub open spec fn count_matching(g: Seq<Pixel>, t: Pixel) -> nat
    decreases g.len(),
{
    if g.len() == 0 {
        0
    } else {
        count_matching(g.drop_last(), t) + if g.last() == t {
            1nat
        } else {
            0nat
        }
    }
}

/// Overwriting one on-target cell with something else lowers the count.
proof fn lemma_count_update(g: Seq<Pixel>, t: Pixel, i: int, v: Pixel)
    requires
        0 <= i < g.len(),
        g[i] == t,
        v != t,
    ensures
        count_matching(g, t) == count_matching(g.update(i, v), t) + 1,
    decreases g.len(),
{
    let g2 = g.update(i, v);
    if i == g.len() - 1 {
        assert(g2.drop_last() =~= g.drop_last());
        assert(g2.last() == v);
    } else {
        assert(g2.drop_last() =~= g.drop_last().update(i, v));
        assert(g2.last() == g.last());
        lemma_count_update(g.drop_last(), t, i, v);
    }
}

/// Everything the flood fill promises when the seed is on the canvas and
/// does not already hold the fill pixel: the fill pixel lands on the seed;
/// cells change only from the seed's original pixel to the fill pixel;
/// every changed cell is 4-connected to the seed through cells that held
/// the original pixel; the region is closed (an on-target neighbor of a
/// changed cell is filled too); one undo snapshot of the prior grid is
/// taken and the redo history is cleared.
pub open spec fn fill_post(before: Session, after: Session, sx: int, sy: int, fp: Pixel) -> bool {
    let w = before.width as int;
    let h = before.height as int;
    let t = before.active_grid()[cell_index(w, sx, sy)];
    &&& after == (Session {
        layers: after.layers,
        canvas: after.canvas,
        undo_stack: after.undo_stack,
        redo_stack: after.redo_stack,
        ..before
    })
    &&& after.layers@.len() == before.layers@.len()
    &&& forall|li: int|
        0 <= li < after.layers@.len() && li != after.active() ==> (#[trigger] after.layers@[li])
            == before.layers@[li]
    &&& after.layers@[after.active()] == (Layer {
        grid: after.layers@[after.active()].grid,
        ..before.layers@[before.active()]
    })
    &&& after.active_grid().len() == before.active_grid().len()
    &&& after.active_grid()[cell_index(w, sx, sy)] == fp
    &&& forall|i: int|
        0 <= i < after.active_grid().len() ==> (#[trigger] after.active_grid()[i])
            == before.active_grid()[i] || (before.active_grid()[i] == t && after.active_grid()[i]
            == fp)
    &&& forall|x: int, y: int|
        in_bounds(w, h, x, y) && (#[trigger] after.active_grid()[cell_index(w, x, y)])
            != before.active_grid()[cell_index(w, x, y)] ==> fill_reachable(
            before.active_grid(),
            w,
            h,
            t,
            (sx, sy),
            (x, y),
        )
    &&& forall|ax: int, ay: int, bx: int, by: int|
        in_bounds(w, h, ax, ay) && in_bounds(w, h, bx, by) && #[trigger] adjacent(
            (ax, ay),
            (bx, by),
        ) && after.active_grid()[cell_index(w, ax, ay)] != before.active_grid()[cell_index(
            w,
            ax,
            ay,
        )] && before.active_grid()[cell_index(w, bx, by)] == t ==> after.active_grid()[cell_index(
            w,
            bx,
            by,
        )] == fp
    &&& stack_view(after.undo_stack) == pushed_snapshot(
        stack_view(before.undo_stack),
        before.active_grid(),
    )
    &&& stack_view(after.redo_stack).len() == 0
    &&& after.synced()
}

/// The breadth-first heart of the flood fill, on a bare grid: starting
/// from the seed, every dequeued cell still equal to the target pixel is
/// overwritten with the fill pixel and its four neighbors are enqueued.
#[verifier::rlimit(100)]
fn flood_region(
    grid: &mut Vec<Pixel>,
    w: usize,
    h: usize,
    start_x: usize,
    start_y: usize,
    t: Pixel,
    fp: Pixel,
)
    requires
        1 <= w,
        1 <= h,
        w * h <= usize::MAX,
        old(grid)@.len() == w * h,
        forall|i: int| 0 <= i < old(grid)@.len() ==> (#[trigger] old(grid)@[i]).wf(),
        start_x < w,
        start_y < h,
        old(grid)@[cell_index(w as int, start_x as int, start_y as int)] == t,
        t != fp,
        fp.wf(),
    ensures
        final(grid)@.len() == old(grid)@.len(),
        forall|i: int| 0 <= i < final(grid)@.len() ==> (#[trigger] final(grid)@[i]).wf(),
        final(grid)@[cell_index(w as int, start_x as int, start_y as int)] == fp,
        forall|i: int|
            0 <= i < final(grid)@.len() ==> (#[trigger] final(grid)@[i]) == old(grid)@[i] || (old(
                grid,
            )@[i] == t && final(grid)@[i] == fp),
        forall|x: int, y: int|
            in_bounds(w as int, h as int, x, y) && (#[trigger] final(grid)@[cell_index(
                w as int,
                x,
                y,
            )]) != old(grid)@[cell_index(w as int, x, y)] ==> fill_reachable(
                old(grid)@,
                w as int,
                h as int,
                t,
                (start_x as int, start_y as int),
                (x, y),
            ),
        forall|ax: int, ay: int, bx: int, by: int|
            in_bounds(w as int, h as int, ax, ay) && in_bounds(w as int, h as int, bx, by)
                && #[trigger] adjacent((ax, ay), (bx, by)) && final(grid)@[cell_index(
                w as int,
                ax,
                ay,
            )] != old(grid)@[cell_index(w as int, ax, ay)] && old(grid)@[cell_index(
                w as int,
                bx,
                by,
            )] == t ==> final(grid)@[cell_index(w as int, bx, by)] == fp,
{
    let ghost grid0 = grid@;
    let ghost seed = (start_x as int, start_y as int);
    let mut queue: VecDeque<(usize, usize)> = VecDeque::new();
    queue.push_back((start_x, start_y));
    proof {
        assert(queue@ =~= seq![(start_x, start_y)]);
        assert(queue@[0] == (start_x, start_y));
        assert(queue@.contains((start_x, start_y)));
        let p0 = seq![(start_x as int, start_y as int)];
        assert(fill_path_ok(grid0, w as int, h as int, t, p0));
        assert(p0[0] == seed && p0.last() == (start_x as int, start_y as int));
        assert(fill_reachable(grid0, w as int, h as int, t, seed, (start_x as int, start_y as int)))
            by {
            reveal(fill_reachable);
        }
    }
    while queue.len() > 0
        invariant
            1 <= w,
            1 <= h,
            w * h <= usize::MAX,
            start_x < w,
            start_y < h,
            seed == (start_x as int, start_y as int),
            grid0 == old(grid)@,
            grid0.len() == w * h,
            grid0[cell_index(w as int, seed.0, seed.1)] == t,
            t != fp,
            fp.wf(),
            grid@.len() == grid0.len(),
            forall|i: int|
                0 <= i < grid@.len() ==> (#[trigger] grid@[i]) == grid0[i] || (grid0[i] == t
                    && grid@[i] == fp),
            forall|i: int| 0 <= i < grid@.len() ==> (#[trigger] grid@[i]).wf(),
            forall|k: int|
                0 <= k < queue@.len() ==> in_bounds(
                    w as int,
                    h as int,
                    (#[trigger] queue@[k]).0 as int,
                    queue@[k].1 as int,
                ),
            forall|k: int|
                0 <= k < queue@.len() && grid0[cell_index(
                    w as int,
                    (#[trigger] queue@[k]).0 as int,
                    queue@[k].1 as int,
                )] == t ==> fill_reachable(
                    grid0,
                    w as int,
                    h as int,
                    t,
                    seed,
                    (queue@[k].0 as int, queue@[k].1 as int),
                ),
            forall|x: int, y: int|
                in_bounds(w as int, h as int, x, y) && (#[trigger] grid@[cell_index(
                    w as int,
                    x,
                    y,
                )]) != grid0[cell_index(w as int, x, y)] ==> fill_reachable(
                    grid0,
                    w as int,
                    h as int,
                    t,
                    seed,
                    (x, y),
                ),
            forall|ax: int, ay: int, bx: int, by: int|
                in_bounds(w as int, h as int, ax, ay) && in_bounds(w as int, h as int, bx, by)
                    && #[trigger] adjacent((ax, ay), (bx, by)) && grid@[cell_index(
                    w as int,
                    ax,
                    ay,
                )] != grid0[cell_index(w as int, ax, ay)] && grid@[cell_index(w as int, bx, by)]
                    == t ==> queue@.contains((bx as usize, by as usize)),
            grid@[cell_index(w as int, seed.0, seed.1)] == fp || queue@.contains(
                (start_x, start_y),
            ),
        decreases count_matching(grid@, t), queue@.len(),
    {
        let ghost q_before = queue@;
        let ghost grid_before = grid@;
        let popped = queue.pop_front();
        let (x, y): (usize, usize) = match popped {
            Some(c) => c,
            None => {
                proof {
                    assert(false);
                }
                (0, 0)
            },
        };
        proof {
            assert(q_before[0] == (x, y));
            assert(in_bounds(w as int, h as int, x as int, y as int));
            lemma_cell_index_bounds(w as int, h as int, x as int, y as int);
            lemma_tail_keeps(q_before);
            assert(queue@ =~= q_before.subrange(1, q_before.len() as int));
        }
        let idx = y * w + x;
        let cur = grid[idx];
        if x < w && y < h && cur == t {
            proof {
                assert(grid0[cell_index(w as int, x as int, y as int)] == t);
                assert(fill_reachable(grid0, w as int, h as int, t, seed, (x as int, y as int)));
            }
            grid.set(idx, fp);
            proof {
                lemma_count_update(grid_before, t, idx as int, fp);
            }
            if x > 0 {
                proof {
                    lemma_cell_index_bounds(w as int, h as int, x - 1, y as int);
                    if grid0[cell_index(w as int, x - 1, y as int)] == t {
                        lemma_reach_step(grid0, w as int, h as int, t, seed, (x as int, y as int), (x - 1, y as int));
                    }
                }
                let ghost q_pre_push = queue@;
                queue.push_back((x - 1, y));
                proof {
                    lemma_push_keeps(q_pre_push, ((x - 1) as usize, y));
                }
            }
            if x + 1 < w {
                proof {
                    lemma_cell_index_bounds(w as int, h as int, x + 1, y as int);
                    if grid0[cell_index(w as int, x + 1, y as int)] == t {
                        lemma_reach_step(grid0, w as int, h as int, t, seed, (x as int, y as int), (x + 1, y as int));
                    }
                }
                let ghost q_pre_push = queue@;
                queue.push_back((x + 1, y));
                proof {
                    lemma_push_keeps(q_pre_push, ((x + 1) as usize, y));
                }
            }
            if y > 0 {
                proof {
                    lemma_cell_index_bounds(w as int, h as int, x as int, y - 1);
                    if grid0[cell_index(w as int, x as int, y - 1)] == t {
                        lemma_reach_step(grid0, w as int, h as int, t, seed, (x as int, y as int), (x as int, y - 1));
                    }
                }
                let ghost q_pre_push = queue@;
                queue.push_back((x, y - 1));
                proof {
                    lemma_push_keeps(q_pre_push, (x, (y - 1) as usize));
                }
            }
            if y + 1 < h {
                proof {
                    lemma_cell_index_bounds(w as int, h as int, x as int, y + 1);
                    if grid0[cell_index(w as int, x as int, y + 1)] == t {
                        lemma_reach_step(grid0, w as int, h as int, t, seed, (x as int, y as int), (x as int, y + 1));
                    }
                }
                let ghost q_pre_push = queue@;
                queue.push_back((x, y + 1));
                proof {
                    lemma_push_keeps(q_pre_push, (x, (y + 1) as usize));
                }
            }
            proof {
                let wi = w as int;
                let hi = h as int;
                assert forall|x2: int, y2: int|
                    in_bounds(wi, hi, x2, y2) && (#[trigger] grid@[cell_index(wi, x2, y2)])
                        != grid0[cell_index(wi, x2, y2)] implies fill_reachable(
                    grid0,
                    wi,
                    hi,
                    t,
                    seed,
                    (x2, y2),
                ) by {
                    lemma_cell_index_bounds(wi, hi, x2, y2);
                    if cell_index(wi, x2, y2) == idx {
                        lemma_cell_index_injective(wi, hi, x2, y2, x as int, y as int);
                    }
                }
                assert forall|ax: int, ay: int, bx: int, by: int|
                    in_bounds(wi, hi, ax, ay) && in_bounds(wi, hi, bx, by) && #[trigger] adjacent(
                        (ax, ay),
                        (bx, by),
                    ) && grid@[cell_index(wi, ax, ay)] != grid0[cell_index(wi, ax, ay)]
                        && grid@[cell_index(wi, bx, by)] == t implies queue@.contains(
                    (bx as usize, by as usize),
                ) by {
                    lemma_cell_index_bounds(wi, hi, ax, ay);
                    lemma_cell_index_bounds(wi, hi, bx, by);
                    if cell_index(wi, bx, by) == idx {
                        lemma_cell_index_injective(wi, hi, bx, by, x as int, y as int);
                        assert(false);
                    }
                    assert(grid_before[cell_index(wi, bx, by)] == t);
                    if ax == x as int && ay == y as int {
                        assert((bx, by) == (x - 1, y as int) || (bx, by) == (x + 1, y as int) || (
                        bx,
                        by,
                        ) == (x as int, y - 1) || (bx, by) == (x as int, y + 1));
                    } else {
                        if cell_index(wi, ax, ay) == idx {
                            lemma_cell_index_injective(wi, hi, ax, ay, x as int, y as int);
                        }
                        assert(grid_before[cell_index(wi, ax, ay)] != grid0[cell_index(
                            wi,
                            ax,
                            ay,
                        )]);
                        assert(q_before.contains((bx as usize, by as usize)));
                        if (bx as usize, by as usize) == (x, y) {
                            assert(false);
                        }
                    }
                }
                if grid@[cell_index(wi, seed.0, seed.1)] != fp {
                    if (start_x, start_y) == (x, y) {
                        assert(grid@[cell_index(wi, seed.0, seed.1)] == fp);
                        assert(false);
                    }
                    lemma_cell_index_bounds(wi, hi, seed.0, seed.1);
                    if cell_index(wi, seed.0, seed.1) == idx {
                        lemma_cell_index_injective(wi, hi, seed.0, seed.1, x as int, y as int);
                        assert(false);
                    }
                    assert(grid_before[cell_index(wi, seed.0, seed.1)] != fp);
                    assert(q_before.contains((start_x, start_y)));
                }
            }
        } else {
            proof {
                assert forall|ax: int, ay: int, bx: int, by: int|
                    in_bounds(w as int, h as int, ax, ay) && in_bounds(w as int, h as int, bx, by)
                        && #[trigger] adjacent((ax, ay), (bx, by)) && grid@[cell_index(
                        w as int,
                        ax,
                        ay,
                    )] != grid0[cell_index(w as int, ax, ay)] && grid@[cell_index(
                        w as int,
                        bx,
                        by,
                    )] == t implies queue@.contains((bx as usize, by as usize)) by {
                    lemma_cell_index_bounds(w as int, h as int, bx, by);
                    assert(q_before.contains((bx as usize, by as usize)));
                    if (bx as usize, by as usize) == (x, y) {
                        assert(false);
                    }
                }
                if grid@[cell_index(w as int, seed.0, seed.1)] != fp {
                    assert(q_before.contains((start_x, start_y)));
                    if (start_x, start_y) == (x, y) {
                        assert(grid@[cell_index(w as int, seed.0, seed.1)] == t);
                        assert(false);
                    }
                }
            }
        }
    }
    proof {
        let wi = w as int;
        let hi = h as int;
        assert forall|ax: int, ay: int, bx: int, by: int|
            in_bounds(wi, hi, ax, ay) && in_bounds(wi, hi, bx, by) && #[trigger] adjacent(
                (ax, ay),
                (bx, by),
            ) && grid@[cell_index(wi, ax, ay)] != grid0[cell_index(wi, ax, ay)] && grid0[cell_index(
                wi,
                bx,
                by,
            )] == t implies grid@[cell_index(wi, bx, by)] == fp by {
            lemma_cell_index_bounds(wi, hi, bx, by);
            if grid@[cell_index(wi, bx, by)] != fp {
                assert(grid@[cell_index(wi, bx, by)] == grid0[cell_index(wi, bx, by)]);
                assert(grid@[cell_index(wi, bx, by)] == t);
                assert(queue@.contains((bx as usize, by as usize)));
            }
        }
    }
}

impl Session {
    /// Flood-fill from `(start_x, start_y)`: replace the 4-connected region
    /// of cells exactly equal to the seed's pixel with the fill color and
    /// alpha. Out-of-canvas seeds are ignored; a seed already equal to the
    /// fill value is a no-op that takes no undo snapshot.
    #[verifier::rlimit(100)]
    pub fn fill_from_point(&mut self, start_x: usize, start_y: usize, fill_color: Rgb, fill_alpha: u32)
        requires
            old(self).wf(),
            valid_alpha(fill_alpha),
        ensures
            final(self).wf(),
            ({
                let w = old(self).width as int;
                let h = old(self).height as int;
                let fp = Pixel { color: fill_color, alpha: fill_alpha };
                if !in_bounds(w, h, start_x as int, start_y as int) {
                    *final(self) == *old(self)
                } else if old(self).active_grid()[cell_index(w, start_x as int, start_y as int)]
                    == fp {
                    *final(self) == *old(self)
                } else {
                    fill_post(*old(self), *final(self), start_x as int, start_y as int, fp)
                }
            }),
    {
        let w = self.width;
        let h = self.height;
        if start_x >= w || start_y >= h {
            return ;
        }
        proof {
            lemma_cell_index_bounds(w as int, h as int, start_x as int, start_y as int);
        }
        let fp = Pixel { color: fill_color, alpha: fill_alpha };
        let a = self.active_layer_index;
        let target = self.layers[a].grid[start_y * w + start_x];
        if target == fp {
            return ;
        }
        self.save_state_for_undo();
        let mut grid = crate::history::clone_grid(&self.layers[a].grid);
        flood_region(&mut grid, w, h, start_x, start_y, target, fp);
        self.layers[a].grid = grid;
        self.sync_canvas_from_layers();
    }

    /// Flood-fill at the cursor with the currently selected color at the
    /// current opacity; a notice when a tool is selected instead.
    pub fn fill_area(&mut self)
        requires
            old(self).wf(),
        ensures
            final(self).wf(),
            match old(self).current_selection {
                PaletteEntry::Tool(_) => {
                    &&& *final(self) == (Session { status: final(self).status, ..*old(self) })
                    &&& final(self).status == Some(StatusMsg::SelectColorToFill)
                },
                PaletteEntry::Color(c) => {
                    let w = old(self).width as int;
                    let h = old(self).height as int;
                    let fp = Pixel { color: c, alpha: old(self).opacity };
                    if old(self).active_grid()[cell_index(
                        w,
                        old(self).cursor_x as int,
                        old(self).cursor_y as int,
                    )] == fp {
                        *final(self) == *old(self)
                    } else {
                        fill_post(
                            *old(self),
                            *final(self),
                            old(self).cursor_x as int,
                            old(self).cursor_y as int,
                            fp,
                        )
                    }
                },
            },
    {
        let c = match self.current_selection {
            PaletteEntry::Color(c) => c,
            PaletteEntry::Tool(_) => {
                self.status = Some(StatusMsg::SelectColorToFill);
                return ;
            },
        };
        let cx = self.cursor_x;
        let cy = self.cursor_y;
        let op = self.opacity;
        self.fill_from_point(cx, cy, c, op);
    }
}

} // verus!
