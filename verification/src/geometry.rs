use vstd::prelude::*;

use crate::session::{PenShape, SymmetryMode};

verus! {

/// Is `(x, y)` a cell of a `w` by `h` canvas?
pub open spec fn in_bounds(w: int, h: int, x: int, y: int) -> bool {
    0 <= x < w && 0 <= y < h
}

/// The mirror image of cell `(x, y)` under a symmetry mode, before any
/// bounds check. Vertical and horizontal mirrors compensate by one cell on
/// even-sized axes, where no single center column or row exists.
pub open spec fn mirror_cell_spec(m: SymmetryMode, x: int, y: int, w: int, h: int) -> Option<
    (int, int),
> {
    match m {
        SymmetryMode::Off => None,
        SymmetryMode::Vertical(axis) => {
            let mx = if w % 2 == 0 {
                2 * axis - x - 1
            } else {
                2 * axis - x
            };
            Some((mx, y))
        },
        SymmetryMode::Horizontal(axis) => {
            let my = if h % 2 == 0 {
                2 * axis - y - 1
            } else {
                2 * axis - y
            };
            Some((x, my))
        },
        SymmetryMode::DiagonalForward(c) => Some((y - c, x + c)),
        SymmetryMode::DiagonalBackward(c) => Some((c - y, c - x)),
    }
}

/// Does the pen shape include offset cell `k` of the `size` by `size`
/// bounding box? A square pen includes every cell; a circular pen includes
/// a cell iff its offset from the box center lies in the discrete disk of
/// the pen's radius.
pub open spec fn brush_included(shape: PenShape, size: int, k: int) -> bool {
    match shape {
        PenShape::Square => true,
        PenShape::Circular => {
            let r = size / 2;
            let dx = k % size - r;
            let dy = k / size - r;
            dx * dx + dy * dy <= r * r
        },
    }
}

/// The canvas cell that offset cell `k` of the bounding box lands on, for a
/// brush centered at `(cx, cy)`: the box starts `size / 2` cells up and left
/// of the center.
pub open spec fn brush_primary(cx: int, cy: int, size: int, k: int) -> (int, int) {
    (cx - size / 2 + k % size, cy - size / 2 + k / size)
}

/// The targets contributed by offset cell `k`: nothing if the shape skips
/// it or its canvas cell is out of bounds; otherwise the cell itself,
/// followed by its in-bounds mirror image if the symmetry mode has one.
pub open spec fn brush_group(
    cx: int,
    cy: int,
    size: int,
    shape: PenShape,
    m: SymmetryMode,
    w: int,
    h: int,
    k: int,
) -> Seq<(int, int)> {
    if !brush_included(shape, size, k) {
        Seq::empty()
    } else {
        let p = brush_primary(cx, cy, size, k);
        if !in_bounds(w, h, p.0, p.1) {
            Seq::empty()
        } else {
            match mirror_cell_spec(m, p.0, p.1, w, h) {
                None => seq![p],
                Some(q) => if in_bounds(w, h, q.0, q.1) {
                    seq![p, q]
                } else {
                    seq![p]
                },
            }
        }
    }
}

/// The brush's target cells contributed by the first `k` offset cells of
/// the bounding box, scanned row by row, each primary cell directly
/// followed by its mirror.
pub open spec fn brush_targets_upto(
    cx: int,
    cy: int,
    size: int,
    shape: PenShape,
    m: SymmetryMode,
    w: int,
    h: int,
    k: int,
) -> Seq<(int, int)>
    decreases k,
{
    if k <= 0 {
        Seq::empty()
    } else {
        brush_targets_upto(cx, cy, size, shape, m, w, h, k - 1) + brush_group(
            cx,
            cy,
            size,
            shape,
            m,
            w,
            h,
            k - 1,
        )
    }
}

/// Every target cell of one brush application, in application order.
pub open spec fn brush_targets(
    cx: int,
    cy: int,
    size: int,
    shape: PenShape,
    m: SymmetryMode,
    w: int,
    h: int,
) -> Seq<(int, int)> {
    brush_targets_upto(cx, cy, size, shape, m, w, h, size * size)
}

/// A target list as integer pairs.
pub open spec fn cells_view(v: Seq<(usize, usize)>) -> Seq<(int, int)> {
    Seq::new(v.len(), |i: int| (v[i].0 as int, v[i].1 as int))
}

/// Everything contributed up to `k1` is still there up to `k2 >= k1`.
proof fn lemma_upto_monotone(
    cx: int,
    cy: int,
    size: int,
    shape: PenShape,
    m: SymmetryMode,
    w: int,
    h: int,
    k1: int,
    k2: int,
    e: (int, int),
)
    requires
        0 <= k1 <= k2,
        brush_targets_upto(cx, cy, size, shape, m, w, h, k1).contains(e),
    ensures
        brush_targets_upto(cx, cy, size, shape, m, w, h, k2).contains(e),
    decreases k2 - k1,
{
    if k1 < k2 {
        let prev = brush_targets_upto(cx, cy, size, shape, m, w, h, k2 - 1);
        lemma_upto_monotone(cx, cy, size, shape, m, w, h, k1, k2 - 1, e);
        let j = choose|j: int| 0 <= j < prev.len() && prev[j] == e;
        assert(brush_targets_upto(cx, cy, size, shape, m, w, h, k2)[j] == e);
    }
}

/// Every pen-shape cell of the box that lands on the canvas is painted, and
/// so is its mirror image whenever the mirror lands on the canvas too.
pub proof fn lemma_brush_targets_contain(
    cx: int,
    cy: int,
    size: int,
    shape: PenShape,
    m: SymmetryMode,
    w: int,
    h: int,
    k: int,
)
    requires
        0 <= k < size * size,
        brush_included(shape, size, k),
        in_bounds(w, h, brush_primary(cx, cy, size, k).0, brush_primary(cx, cy, size, k).1),
    ensures
        brush_targets(cx, cy, size, shape, m, w, h).contains(brush_primary(cx, cy, size, k)),
        ({
            let p = brush_primary(cx, cy, size, k);
            match mirror_cell_spec(m, p.0, p.1, w, h) {
                Some(q) => in_bounds(w, h, q.0, q.1) ==> brush_targets(
                    cx,
                    cy,
                    size,
                    shape,
                    m,
                    w,
                    h,
                ).contains(q),
                None => true,
            }
        }),
{
    let p = brush_primary(cx, cy, size, k);
    let g = brush_group(cx, cy, size, shape, m, w, h, k);
    let upto = brush_targets_upto(cx, cy, size, shape, m, w, h, k + 1);
    let prev = brush_targets_upto(cx, cy, size, shape, m, w, h, k);
    assert(upto == prev + g);
    assert(g[0] == p);
    assert(upto[prev.len() as int] == p);
    assert(upto.contains(p));
    lemma_upto_monotone(cx, cy, size, shape, m, w, h, k + 1, size * size, p);
    match mirror_cell_spec(m, p.0, p.1, w, h) {
        Some(q) => {
            if in_bounds(w, h, q.0, q.1) {
                assert(g[1] == q);
                assert(upto[prev.len() as int + 1] == q);
                assert(upto.contains(q));
                lemma_upto_monotone(cx, cy, size, shape, m, w, h, k + 1, size * size, q);
            }
        },
        None => {},
    }
}

/// Conversely, everything painted is a pen-shape cell of the box or the
/// mirror image of one, and lies on the canvas.
pub proof fn lemma_brush_targets_only(
    cx: int,
    cy: int,
    size: int,
    shape: PenShape,
    m: SymmetryMode,
    w: int,
    h: int,
    k: int,
    e: (int, int),
)
    requires
        0 <= k,
        brush_targets_upto(cx, cy, size, shape, m, w, h, k).contains(e),
    ensures
        in_bounds(w, h, e.0, e.1),
        exists|j: int|
            0 <= j < k && brush_included(shape, size, j) && in_bounds(
                w,
                h,
                brush_primary(cx, cy, size, j).0,
                brush_primary(cx, cy, size, j).1,
            ) && (e == brush_primary(cx, cy, size, j) || Some(e) == mirror_cell_spec(
                m,
                brush_primary(cx, cy, size, j).0,
                brush_primary(cx, cy, size, j).1,
                w,
                h,
            )),
    decreases k,
{
    let cur = brush_targets_upto(cx, cy, size, shape, m, w, h, k);
    let prev = brush_targets_upto(cx, cy, size, shape, m, w, h, k - 1);
    let g = brush_group(cx, cy, size, shape, m, w, h, k - 1);
    let i = choose|i: int| 0 <= i < cur.len() && cur[i] == e;
    if i < prev.len() {
        assert(prev[i] == e);
        assert(prev.contains(e));
        lemma_brush_targets_only(cx, cy, size, shape, m, w, h, k - 1, e);
        let j = choose|j: int|
            0 <= j < k - 1 && brush_included(shape, size, j) && in_bounds(
                w,
                h,
                brush_primary(cx, cy, size, j).0,
                brush_primary(cx, cy, size, j).1,
            ) && (e == brush_primary(cx, cy, size, j) || Some(e) == mirror_cell_spec(
                m,
                brush_primary(cx, cy, size, j).0,
                brush_primary(cx, cy, size, j).1,
                w,
                h,
            ));
        assert(0 <= j < k);
    } else {
        assert(g[i - prev.len()] == e);
        let j = k - 1;
        let p = brush_primary(cx, cy, size, j);
        assert(brush_included(shape, size, j));
        assert(in_bounds(w, h, p.0, p.1));
        if i - prev.len() == 0 {
            assert(e == p);
        } else {
            assert(Some(e) == mirror_cell_spec(m, p.0, p.1, w, h));
        }
    }
}

/// With a one-cell pen the target list is just the center followed by its
/// in-bounds mirror, so a stroke at `(cx, cy)` under vertical symmetry on
/// an even-width canvas paints exactly `(cx, cy)` and `(2*axis - cx - 1, cy)`.
pub proof fn lemma_single_cell_brush_targets(
    cx: int,
    cy: int,
    shape: PenShape,
    m: SymmetryMode,
    w: int,
    h: int,
)
    requires
        in_bounds(w, h, cx, cy),
    ensures
        brush_targets(cx, cy, 1, shape, m, w, h) == brush_group(cx, cy, 1, shape, m, w, h, 0),
        ({
            let g = brush_targets(cx, cy, 1, shape, m, w, h);
            match mirror_cell_spec(m, cx, cy, w, h) {
                None => g == seq![(cx, cy)],
                Some(q) => if in_bounds(w, h, q.0, q.1) {
                    g == seq![(cx, cy), q]
                } else {
                    g == seq![(cx, cy)]
                },
            }
        }),
{
    let g0 = brush_group(cx, cy, 1, shape, m, w, h, 0);
    assert(brush_included(shape, 1, 0));
    assert(brush_primary(cx, cy, 1, 0) == (cx, cy));
    assert(brush_targets_upto(cx, cy, 1, shape, m, w, h, 0) == Seq::<(int, int)>::empty());
    assert(brush_targets(cx, cy, 1, shape, m, w, h) =~= g0);
}

/// A brush centered at least half a pen beyond the canvas touches nothing:
/// every cell of its bounding box already lies off the canvas.
pub proof fn lemma_brush_targets_empty_far(
    cx: int,
    cy: int,
    size: int,
    shape: PenShape,
    m: SymmetryMode,
    w: int,
    h: int,
    k: int,
)
    requires
        size >= 1,
        cx >= w + size / 2 || cy >= h + size / 2,
        0 <= k,
    ensures
        brush_targets_upto(cx, cy, size, shape, m, w, h, k) == Seq::<(int, int)>::empty(),
    decreases k,
{
    if k > 0 {
        lemma_brush_targets_empty_far(cx, cy, size, shape, m, w, h, k - 1);
        let p = brush_primary(cx, cy, size, k - 1);
        assert((k - 1) % size >= 0 && (k - 1) / size >= 0);
        assert(p.0 >= cx - size / 2 && p.1 >= cy - size / 2);
        assert(!in_bounds(w, h, p.0, p.1));
        assert(brush_group(cx, cy, size, shape, m, w, h, k - 1) == Seq::<(int, int)>::empty());
        assert(brush_targets_upto(cx, cy, size, shape, m, w, h, k) =~= Seq::<(int, int)>::empty());
    }
}

/// Compute the target cells of one brush application: every pen-shape cell
/// of the bounding box that lands on the canvas, each followed by its
/// in-bounds mirror image under the symmetry mode.
pub fn brush_cells(
    cx: usize,
    cy: usize,
    size: u16,
    shape: PenShape,
    m: SymmetryMode,
    w: usize,
    h: usize,
) -> (r: Vec<(usize, usize)>)
    requires
        1 <= w <= 65535,
        1 <= h <= 65535,
        size >= 1,
    ensures
        cells_view(r@) == brush_targets(cx as int, cy as int, size as int, shape, m, w as int, h as int),
        forall|i: int| 0 <= i < r@.len() ==> (#[trigger] r@[i]).0 < w && r@[i].1 < h,
{
    proof {
        crate::pixel::lemma_mul_le(size as int, size as int, 65535, 65535);
    }
    let radius_bound: usize = (size / 2) as usize;
    if cx >= w + radius_bound || cy >= h + radius_bound {
        proof {
            lemma_brush_targets_empty_far(
                cx as int,
                cy as int,
                size as int,
                shape,
                m,
                w as int,
                h as int,
                (size as int) * (size as int),
            );
            assert(cells_view(Seq::<(usize, usize)>::empty()) =~= Seq::<(int, int)>::empty());
        }
        return Vec::new();
    }
    let n: u64 = (size as u64) * (size as u64);
    let radius: i64 = (size / 2) as i64;
    let mut r: Vec<(usize, usize)> = Vec::new();
    let mut k: u64 = 0;
    proof {
        assert(cells_view(r@) =~= brush_targets_upto(
            cx as int,
            cy as int,
            size as int,
            shape,
            m,
            w as int,
            h as int,
            0,
        ));
    }
    while k < n
        invariant
            cx < w + size / 2,
            cy < h + size / 2,
            1 <= w <= 65535,
            1 <= h <= 65535,
            size >= 1,
            n == size as int * size as int,
            n <= 65535 * 65535,
            radius == size as int / 2,
            k <= n,
            cells_view(r@) == brush_targets_upto(
                cx as int,
                cy as int,
                size as int,
                shape,
                m,
                w as int,
                h as int,
                k as int,
            ),
            forall|i: int| 0 <= i < r@.len() ==> (#[trigger] r@[i]).0 < w && r@[i].1 < h,
        decreases n - k,
    {
        let ghost r_before = r@;
        let dx: i64 = (k % (size as u64)) as i64;
        let dy: i64 = (k / (size as u64)) as i64;
        proof {
            assert(k as int % (size as int) < size as int);
            assert(k as int / (size as int) < size as int) by (nonlinear_arith)
                requires
                    0 <= k as int,
                    1 <= size as int,
                    (k as int) < (size as int) * (size as int),
            ;
        }
        let included: bool = match shape {
            PenShape::Square => true,
            PenShape::Circular => {
                let ox = dx - radius;
                let oy = dy - radius;
                proof {
                    assert(ox * ox >= 0 && ox * ox <= 65535 * 65535) by (nonlinear_arith)
                        requires
                            -65535 <= ox <= 65535,
                    ;
                    assert(oy * oy >= 0 && oy * oy <= 65535 * 65535) by (nonlinear_arith)
                        requires
                            -65535 <= oy <= 65535,
                    ;
                    assert(radius * radius >= 0 && radius * radius <= 65535 * 65535)
                        by (nonlinear_arith)
                        requires
                            0 <= radius <= 65535,
                    ;
                }
                ox * ox + oy * oy <= radius * radius
            },
        };
        let ghost gk = brush_group(
            cx as int,
            cy as int,
            size as int,
            shape,
            m,
            w as int,
            h as int,
            k as int,
        );
        if included {
            let px: i64 = cx as i64 - radius + dx;
            let py: i64 = cy as i64 - radius + dy;
            assert((px as int, py as int) == brush_primary(
                cx as int,
                cy as int,
                size as int,
                k as int,
            ));
            if 0 <= px && px < w as i64 && 0 <= py && py < h as i64 {
                r.push((px as usize, py as usize));
                let mirrored: Option<(i64, i64)> = match m {
                    SymmetryMode::Off => None,
                    SymmetryMode::Vertical(axis) => {
                        if axis <= 65535 {
                            let mx: i64 = if w % 2 == 0 {
                                2 * (axis as i64) - px - 1
                            } else {
                                2 * (axis as i64) - px
                            };
                            Some((mx, py))
                        } else {
                            Some((-1, py))
                        }
                    },
                    SymmetryMode::Horizontal(axis) => {
                        if axis <= 65535 {
                            let my: i64 = if h % 2 == 0 {
                                2 * (axis as i64) - py - 1
                            } else {
                                2 * (axis as i64) - py
                            };
                            Some((px, my))
                        } else {
                            Some((px, -1))
                        }
                    },
                    SymmetryMode::DiagonalForward(c) => {
                        if -65536 <= c && c <= 65536 * 2 {
                            Some((py - c, px + c))
                        } else {
                            Some((-1, -1))
                        }
                    },
                    SymmetryMode::DiagonalBackward(c) => {
                        if -65536 <= c && c <= 65536 * 2 {
                            Some((c - py, c - px))
                        } else {
                            Some((-1, -1))
                        }
                    },
                };
                match mirrored {
                    Some((qx, qy)) => {
                        if 0 <= qx && qx < w as i64 && 0 <= qy && qy < h as i64 {
                            r.push((qx as usize, qy as usize));
                        }
                    },
                    None => {},
                }
            }
        }
        proof {
            assert(cells_view(r@) =~= cells_view(r_before) + gk);
            assert(brush_targets_upto(
                cx as int,
                cy as int,
                size as int,
                shape,
                m,
                w as int,
                h as int,
                k + 1,
            ) == brush_targets_upto(
                cx as int,
                cy as int,
                size as int,
                shape,
                m,
                w as int,
                h as int,
                k as int,
            ) + gk);
        }
        k += 1;
    }
    r
}

} // verus!
