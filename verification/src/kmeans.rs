use vstd::prelude::*;

use crate::pixel::Rgb;
use crate::shade::{lemma_sq_dist_bound, sq_dist, sq_dist_exec};
use crate::stroke::rand_below;

verus! {

/// How often a color occurs in a pixel sequence.
pub open spec fn occurrences(s: Seq<Rgb>, c: Rgb) -> nat
    decreases s.len(),
{
    if s.len() == 0 {
        0
    } else {
        occurrences(s.drop_last(), c) + if s.last() == c {
            1nat
        } else {
            0nat
        }
    }
}

proof fn lemma_occurrences_take(s: Seq<Rgb>, c: Rgb, i: int)
    requires
        0 <= i < s.len(),
    ensures
        occurrences(s.take(i + 1), c) == occurrences(s.take(i), c) + if s[i] == c {
            1nat
        } else {
            0nat
        },
{
    assert(s.take(i + 1).drop_last() =~= s.take(i));
    assert(s.take(i + 1).last() == s[i]);
}

/// The index and squared distance of the center a color is assigned to:
/// the minimum squared RGB distance, earlier centers winning ties.
pub open spec fn nearest_center_upto(centers: Seq<Rgb>, c: Rgb, k: int) -> (int, int)
    decreases k,
{
    if k <= 0 {
        (0, 1000000)
    } else {
        let prev = nearest_center_upto(centers, c, k - 1);
        let d = sq_dist(centers[k - 1], c);
        if d < prev.1 {
            (k - 1, d)
        } else {
            prev
        }
    }
}

pub open spec fn nearest_center_index(centers: Seq<Rgb>, c: Rgb) -> int {
    nearest_center_upto(centers, c, centers.len() as int).0
}

pub open spec fn nearest_center_dist(centers: Seq<Rgb>, c: Rgb) -> int {
    nearest_center_upto(centers, c, centers.len() as int).1
}

/// The unique color farthest from its nearest existing center, considering
/// the first `k` colors; the scan starts from the first unique color, so
/// the next center is always one of the image's own colors.
pub open spec fn farthest_color_upto(colors: Seq<(Rgb, u32)>, centers: Seq<Rgb>, k: int) -> (
    Rgb,
    int,
)
    recommends
        colors.len() >= 1,
    decreases k,
{
    if k <= 0 {
        (colors[0].0, nearest_center_dist(centers, colors[0].0))
    } else {
        let prev = farthest_color_upto(colors, centers, k - 1);
        let d = nearest_center_dist(centers, colors[k - 1].0);
        if d > prev.1 {
            (colors[k - 1].0, d)
        } else {
            prev
        }
    }
}

/// The seeding stage: starting from the chosen first color, repeatedly add
/// the unique color with the maximum squared distance to its nearest
/// existing center, until `k` centers exist.
pub open spec fn seed_centers(colors: Seq<(Rgb, u32)>, first: Rgb, k: int) -> Seq<Rgb>
    decreases k,
{
    if k <= 1 {
        seq![first]
    } else {
        let prev = seed_centers(colors, first, k - 1);
        prev.push(farthest_color_upto(colors, prev, colors.len() as int).0)
    }
}

/// The farthest-color scan only ever answers with one of the unique
/// colors.
proof fn lemma_farthest_is_image_color(colors: Seq<(Rgb, u32)>, centers: Seq<Rgb>, k: int)
    requires
        colors.len() >= 1,
        0 <= k <= colors.len(),
    ensures
        has_color(colors, colors.len() as int, farthest_color_upto(colors, centers, k).0),
    decreases k,
{
    if k <= 0 {
        assert(colors[0].0 == farthest_color_upto(colors, centers, k).0);
        assert(has_color(colors, colors.len() as int, colors[0].0));
    } else {
        lemma_farthest_is_image_color(colors, centers, k - 1);
        if nearest_center_dist(centers, colors[k - 1].0) > farthest_color_upto(
            colors,
            centers,
            k - 1,
        ).1 {
            assert(colors[k - 1].0 == farthest_color_upto(colors, centers, k).0);
            assert(has_color(colors, colors.len() as int, colors[k - 1].0));
        }
    }
}

/// The seeding stage spreads centers across the image's own colors: every
/// seeded center is one of the unique image colors, never an invented one.
pub proof fn lemma_seed_centers_are_image_colors(
    colors: Seq<(Rgb, u32)>,
    first: Rgb,
    k: int,
)
    requires
        colors.len() >= 1,
        has_color(colors, colors.len() as int, first),
    ensures
        forall|i: int|
            0 <= i < seed_centers(colors, first, k).len() ==> has_color(
                colors,
                colors.len() as int,
                #[trigger] seed_centers(colors, first, k)[i],
            ),
    decreases k,
{
    if k <= 1 {
        assert(seed_centers(colors, first, k) == seq![first]);
    } else {
        lemma_seed_centers_are_image_colors(colors, first, k - 1);
        let prev = seed_centers(colors, first, k - 1);
        lemma_farthest_is_image_color(colors, prev, colors.len() as int);
        assert(forall|i: int|
            0 <= i < prev.len() ==> seed_centers(colors, first, k)[i] == prev[i]);
        assert(seed_centers(colors, first, k).last() == farthest_color_upto(
            colors,
            prev,
            colors.len() as int,
        ).0);
    }
}

/// The count-weighted channel sums and total weight of the colors assigned
/// to center `j`, over the first `k` colors.
pub open spec fn cluster_sums(colors: Seq<(Rgb, u32)>, centers: Seq<Rgb>, j: int, k: int) -> (
    int,
    int,
    int,
    int,
)
    decreases k,
{
    if k <= 0 {
        (0, 0, 0, 0)
    } else {
        let prev = cluster_sums(colors, centers, j, k - 1);
        let c = colors[k - 1].0;
        let cnt = colors[k - 1].1;
        if nearest_center_index(centers, c) == j {
            (prev.0 + c.r * cnt, prev.1 + c.g * cnt, prev.2 + c.b * cnt, prev.3 + cnt)
        } else {
            prev
        }
    }
}

/// `c` lies, channel by channel, between some unique image colors: no
/// channel leaves the image's own [min, max] range.
pub open spec fn within_channel_range(colors: Seq<(Rgb, u32)>, c: Rgb) -> bool {
    &&& exists|j: int| 0 <= j < colors.len() && (#[trigger] colors[j]).0.r <= c.r
    &&& exists|j: int| 0 <= j < colors.len() && c.r <= (#[trigger] colors[j]).0.r
    &&& exists|j: int| 0 <= j < colors.len() && (#[trigger] colors[j]).0.g <= c.g
    &&& exists|j: int| 0 <= j < colors.len() && c.g <= (#[trigger] colors[j]).0.g
    &&& exists|j: int| 0 <= j < colors.len() && (#[trigger] colors[j]).0.b <= c.b
    &&& exists|j: int| 0 <= j < colors.len() && c.b <= (#[trigger] colors[j]).0.b
}

/// An image color trivially lies within the image's channel ranges.
proof fn lemma_image_color_within_range(colors: Seq<(Rgb, u32)>, c: Rgb)
    requires
        has_color(colors, colors.len() as int, c),
    ensures
        within_channel_range(colors, c),
{
    let j = choose|j: int| 0 <= j < colors.len() && (#[trigger] colors[j]).0 == c;
    assert(colors[j].0.r <= c.r && c.r <= colors[j].0.r);
    assert(colors[j].0.g <= c.g && c.g <= colors[j].0.g);
    assert(colors[j].0.b <= c.b && c.b <= colors[j].0.b);
}

/// A channel floor carried through one weighted contribution.
proof fn lemma_weighted_lower_step(lo: int, sum: int, w: int, c: int, cw: int)
    requires
        lo * w <= sum,
        0 <= cw,
        0 <= w,
    ensures
        (if c < lo {
            c
        } else {
            lo
        }) * (w + cw) <= sum + c * cw,
{
    if c < lo {
        assert(c * (w + cw) <= sum + c * cw) by (nonlinear_arith)
            requires
                lo * w <= sum,
                c < lo,
                0 <= cw,
                0 <= w,
        ;
    } else {
        assert(lo * (w + cw) <= sum + c * cw) by (nonlinear_arith)
            requires
                lo * w <= sum,
                lo <= c,
                0 <= cw,
                0 <= w,
        ;
    }
}

/// A channel ceiling carried through one weighted contribution.
proof fn lemma_weighted_upper_step(hi: int, sum: int, w: int, c: int, cw: int)
    requires
        sum <= hi * w,
        0 <= cw,
        0 <= w,
    ensures
        sum + c * cw <= (if c > hi {
            c
        } else {
            hi
        }) * (w + cw),
{
    if c > hi {
        assert(sum + c * cw <= c * (w + cw)) by (nonlinear_arith)
            requires
                sum <= hi * w,
                hi < c,
                0 <= cw,
                0 <= w,
        ;
    } else {
        assert(sum + c * cw <= hi * (w + cw)) by (nonlinear_arith)
            requires
                sum <= hi * w,
                c <= hi,
                0 <= cw,
                0 <= w,
        ;
    }
}

/// The cluster sums stay bracketed by image colors: when a cluster is
/// nonempty, some image color scaled by the weight lies at or below each
/// channel sum, and some at or above it.
proof fn lemma_cluster_sums_bracketed(colors: Seq<(Rgb, u32)>, centers: Seq<Rgb>, j: int, k: int)
    requires
        0 <= k <= colors.len(),
    ensures
        ({
            let s = cluster_sums(colors, centers, j, k);
            s.3 > 0 ==> {
                &&& exists|i: int|
                    0 <= i < colors.len() && (#[trigger] colors[i]).0.r * s.3 <= s.0
                &&& exists|i: int|
                    0 <= i < colors.len() && s.0 <= (#[trigger] colors[i]).0.r * s.3
                &&& exists|i: int|
                    0 <= i < colors.len() && (#[trigger] colors[i]).0.g * s.3 <= s.1
                &&& exists|i: int|
                    0 <= i < colors.len() && s.1 <= (#[trigger] colors[i]).0.g * s.3
                &&& exists|i: int|
                    0 <= i < colors.len() && (#[trigger] colors[i]).0.b * s.3 <= s.2
                &&& exists|i: int|
                    0 <= i < colors.len() && s.2 <= (#[trigger] colors[i]).0.b * s.3
            }
        }),
    decreases k,
{
    if k > 0 {
        lemma_cluster_sums_bracketed(colors, centers, j, k - 1);
        let prev = cluster_sums(colors, centers, j, k - 1);
        let s = cluster_sums(colors, centers, j, k);
        let c = colors[k - 1].0;
        let cnt = colors[k - 1].1;
        lemma_cluster_sums_nonneg(colors, centers, j, k - 1);
        if nearest_center_index(centers, c) == j {
            if prev.3 == 0 {
                assert(prev == (0int, 0int, 0int, 0int));
                assert(colors[k - 1].0.r * s.3 <= s.0 && s.0 <= colors[k - 1].0.r * s.3);
                assert(colors[k - 1].0.g * s.3 <= s.1 && s.1 <= colors[k - 1].0.g * s.3);
                assert(colors[k - 1].0.b * s.3 <= s.2 && s.2 <= colors[k - 1].0.b * s.3);
            } else {
                let lo_r = choose|i: int|
                    0 <= i < colors.len() && (#[trigger] colors[i]).0.r * prev.3 <= prev.0;
                lemma_weighted_lower_step(
                    colors[lo_r].0.r as int,
                    prev.0,
                    prev.3,
                    c.r as int,
                    cnt as int,
                );
                if (c.r as int) < colors[lo_r].0.r {
                    assert(colors[k - 1].0.r * s.3 <= s.0);
                } else {
                    assert(colors[lo_r].0.r * s.3 <= s.0);
                }
                let hi_r = choose|i: int|
                    0 <= i < colors.len() && prev.0 <= (#[trigger] colors[i]).0.r * prev.3;
                lemma_weighted_upper_step(
                    colors[hi_r].0.r as int,
                    prev.0,
                    prev.3,
                    c.r as int,
                    cnt as int,
                );
                if (c.r as int) > colors[hi_r].0.r {
                    assert(s.0 <= colors[k - 1].0.r * s.3);
                } else {
                    assert(s.0 <= colors[hi_r].0.r * s.3);
                }
                let lo_g = choose|i: int|
                    0 <= i < colors.len() && (#[trigger] colors[i]).0.g * prev.3 <= prev.1;
                lemma_weighted_lower_step(
                    colors[lo_g].0.g as int,
                    prev.1,
                    prev.3,
                    c.g as int,
                    cnt as int,
                );
                if (c.g as int) < colors[lo_g].0.g {
                    assert(colors[k - 1].0.g * s.3 <= s.1);
                } else {
                    assert(colors[lo_g].0.g * s.3 <= s.1);
                }
                let hi_g = choose|i: int|
                    0 <= i < colors.len() && prev.1 <= (#[trigger] colors[i]).0.g * prev.3;
                lemma_weighted_upper_step(
                    colors[hi_g].0.g as int,
                    prev.1,
                    prev.3,
                    c.g as int,
                    cnt as int,
                );
                if (c.g as int) > colors[hi_g].0.g {
                    assert(s.1 <= colors[k - 1].0.g * s.3);
                } else {
                    assert(s.1 <= colors[hi_g].0.g * s.3);
                }
                let lo_b = choose|i: int|
                    0 <= i < colors.len() && (#[trigger] colors[i]).0.b * prev.3 <= prev.2;
                lemma_weighted_lower_step(
                    colors[lo_b].0.b as int,
                    prev.2,
                    prev.3,
                    c.b as int,
                    cnt as int,
                );
                if (c.b as int) < colors[lo_b].0.b {
                    assert(colors[k - 1].0.b * s.3 <= s.2);
                } else {
                    assert(colors[lo_b].0.b * s.3 <= s.2);
                }
                let hi_b = choose|i: int|
                    0 <= i < colors.len() && prev.2 <= (#[trigger] colors[i]).0.b * prev.3;
                lemma_weighted_upper_step(
                    colors[hi_b].0.b as int,
                    prev.2,
                    prev.3,
                    c.b as int,
                    cnt as int,
                );
                if (c.b as int) > colors[hi_b].0.b {
                    assert(s.2 <= colors[k - 1].0.b * s.3);
                } else {
                    assert(s.2 <= colors[hi_b].0.b * s.3);
                }
            }
        }
    }
}

/// All cluster sums are nonnegative, and the weight vanishes only with the
/// channel sums.
proof fn lemma_cluster_sums_nonneg(colors: Seq<(Rgb, u32)>, centers: Seq<Rgb>, j: int, k: int)
    ensures
        ({
            let s = cluster_sums(colors, centers, j, k);
            &&& s.0 >= 0 && s.1 >= 0 && s.2 >= 0 && s.3 >= 0
            &&& s.3 == 0 ==> s == (0int, 0int, 0int, 0int)
        }),
    decreases k,
{
    if k > 0 {
        lemma_cluster_sums_nonneg(colors, centers, j, k - 1);
        let c = colors[k - 1].0;
        let cnt = colors[k - 1].1;
        crate::pixel::lemma_mul_le(c.r as int, cnt as int, 255, cnt as int);
        crate::pixel::lemma_mul_le(c.g as int, cnt as int, 255, cnt as int);
        crate::pixel::lemma_mul_le(c.b as int, cnt as int, 255, cnt as int);
    }
}

/// One refinement step: every center moves to the count-weighted mean of
/// its assigned colors; a center with no assigned colors keeps its value.
pub open spec fn step_centers(colors: Seq<(Rgb, u32)>, centers: Seq<Rgb>) -> Seq<Rgb> {
    Seq::new(
        centers.len(),
        |j: int|
            {
                let s = cluster_sums(colors, centers, j, colors.len() as int);
                if s.3 > 0 {
                    Rgb { r: (s.0 / s.3) as u8, g: (s.1 / s.3) as u8, b: (s.2 / s.3) as u8 }
                } else {
                    centers[j]
                }
            },
    )
}

/// One refinement step keeps every center within the image's channel
/// ranges: a nonempty cluster's weighted mean is bracketed by the cluster's
/// own colors, and an empty cluster keeps its already in-range center.
proof fn lemma_step_centers_within(colors: Seq<(Rgb, u32)>, centers: Seq<Rgb>)
    requires
        colors.len() >= 1,
        forall|i: int|
            0 <= i < centers.len() ==> within_channel_range(colors, #[trigger] centers[i]),
    ensures
        forall|i: int|
            0 <= i < step_centers(colors, centers).len() ==> within_channel_range(
                colors,
                #[trigger] step_centers(colors, centers)[i],
            ),
{
    assert forall|i: int|
        0 <= i < step_centers(colors, centers).len() implies within_channel_range(
        colors,
        #[trigger] step_centers(colors, centers)[i],
    ) by {
        let s = cluster_sums(colors, centers, i, colors.len() as int);
        lemma_cluster_sums_nonneg(colors, centers, i, colors.len() as int);
        if s.3 > 0 {
            lemma_cluster_sums_bracketed(colors, centers, i, colors.len() as int);
            let lo_r = choose|j: int|
                0 <= j < colors.len() && (#[trigger] colors[j]).0.r * s.3 <= s.0;
            let hi_r = choose|j: int|
                0 <= j < colors.len() && s.0 <= (#[trigger] colors[j]).0.r * s.3;
            assert(colors[lo_r].0.r <= s.0 / s.3) by (nonlinear_arith)
                requires
                    colors[lo_r].0.r * s.3 <= s.0,
                    s.3 > 0,
            ;
            assert(s.0 / s.3 <= colors[hi_r].0.r) by (nonlinear_arith)
                requires
                    s.0 <= colors[hi_r].0.r * s.3,
                    s.3 > 0,
                    s.0 >= 0,
            ;
            let lo_g = choose|j: int|
                0 <= j < colors.len() && (#[trigger] colors[j]).0.g * s.3 <= s.1;
            let hi_g = choose|j: int|
                0 <= j < colors.len() && s.1 <= (#[trigger] colors[j]).0.g * s.3;
            assert(colors[lo_g].0.g <= s.1 / s.3) by (nonlinear_arith)
                requires
                    colors[lo_g].0.g * s.3 <= s.1,
                    s.3 > 0,
            ;
            assert(s.1 / s.3 <= colors[hi_g].0.g) by (nonlinear_arith)
                requires
                    s.1 <= colors[hi_g].0.g * s.3,
                    s.3 > 0,
                    s.1 >= 0,
            ;
            let lo_b = choose|j: int|
                0 <= j < colors.len() && (#[trigger] colors[j]).0.b * s.3 <= s.2;
            let hi_b = choose|j: int|
                0 <= j < colors.len() && s.2 <= (#[trigger] colors[j]).0.b * s.3;
            assert(colors[lo_b].0.b <= s.2 / s.3) by (nonlinear_arith)
                requires
                    colors[lo_b].0.b * s.3 <= s.2,
                    s.3 > 0,
            ;
            assert(s.2 / s.3 <= colors[hi_b].0.b) by (nonlinear_arith)
                requires
                    s.2 <= colors[hi_b].0.b * s.3,
                    s.3 > 0,
                    s.2 >= 0,
            ;
            assert(0 <= s.0 / s.3 <= 255 && 0 <= s.1 / s.3 <= 255 && 0 <= s.2 / s.3 <= 255);
            assert(step_centers(colors, centers)[i] == (Rgb {
                r: (s.0 / s.3) as u8,
                g: (s.1 / s.3) as u8,
                b: (s.2 / s.3) as u8,
            }));
        } else {
            assert(step_centers(colors, centers)[i] == centers[i]);
        }
    }
}

/// Any number of refinement steps keeps every center within the image's
/// channel ranges.
proof fn lemma_iterate_centers_within(colors: Seq<(Rgb, u32)>, centers: Seq<Rgb>, n: int)
    requires
        colors.len() >= 1,
        forall|i: int|
            0 <= i < centers.len() ==> within_channel_range(colors, #[trigger] centers[i]),
    ensures
        forall|i: int|
            0 <= i < iterate_centers(colors, centers, n).len() ==> within_channel_range(
                colors,
                #[trigger] iterate_centers(colors, centers, n)[i],
            ),
    decreases n,
{
    if n > 0 {
        lemma_step_centers_within(colors, centers);
        lemma_iterate_centers_within(colors, step_centers(colors, centers), n - 1);
        assert(iterate_centers(colors, centers, n) == iterate_centers(
            colors,
            step_centers(colors, centers),
            n - 1,
        ));
    } else {
        assert(iterate_centers(colors, centers, n) == centers);
    }
}

/// The extraction never invents a channel value: every seeded center is a
/// unique image color, every refined center a count-weighted mean of them,
/// so each channel of every produced palette color lies within the [min,
/// max] of that channel over the image's unique colors.
pub proof fn lemma_kmeans_within_image_range(colors: Seq<(Rgb, u32)>, target: int, fi: int)
    requires
        colors.len() >= 1,
        0 <= fi < colors.len(),
    ensures
        forall|i: int|
            0 <= i < kmeans_spec(colors, target, fi).len() ==> within_channel_range(
                colors,
                #[trigger] kmeans_spec(colors, target, fi)[i],
            ),
{
    let first = colors[fi].0;
    assert(has_color(colors, colors.len() as int, first));
    lemma_seed_centers_are_image_colors(colors, first, target);
    let seeds = seed_centers(colors, first, target);
    assert forall|i: int| 0 <= i < seeds.len() implies within_channel_range(
        colors,
        #[trigger] seeds[i],
    ) by {
        lemma_image_color_within_range(colors, seeds[i]);
    }
    lemma_iterate_centers_within(colors, seeds, 20);
}

/// `n` refinement steps.
pub open spec fn iterate_centers(colors: Seq<(Rgb, u32)>, centers: Seq<Rgb>, n: int) -> Seq<Rgb>
    decreases n,
{
    if n <= 0 {
        centers
    } else {
        iterate_centers(colors, step_centers(colors, centers), n - 1)
    }
}

/// The whole extraction on deduplicated colors: seed `target` centers from
/// the color at `first_index`, then refine twenty times.
pub open spec fn kmeans_spec(colors: Seq<(Rgb, u32)>, target: int, first_index: int) -> Seq<Rgb> {
    iterate_centers(colors, seed_centers(colors, colors[first_index].0, target), 20)
}

/// One of the first `n` slots already holds color `c`.
pub open spec fn has_color(r: Seq<(Rgb, u32)>, n: int, c: Rgb) -> bool {
    exists|jj: int| 0 <= jj < n && (#[trigger] r[jj]).0 == c
}

/// The squared distance vanishes exactly between equal colors.
proof fn lemma_sq_dist_zero(a: Rgb, b: Rgb)
    ensures
        sq_dist(a, b) == 0 <==> a == b,
        sq_dist(a, b) >= 0,
{
    let dr = a.r - b.r;
    let dg = a.g - b.g;
    let db = a.b - b.b;
    assert(dr * dr >= 0 && (dr * dr == 0 <==> dr == 0)) by (nonlinear_arith);
    assert(dg * dg >= 0 && (dg * dg == 0 <==> dg == 0)) by (nonlinear_arith);
    assert(db * db >= 0 && (db * db == 0 <==> db == 0)) by (nonlinear_arith);
}

/// The one color among three distinct ones that a three-center stack built
/// from them assigns to center `j` is the center itself.
proof fn lemma_nearest_among_three(centers: Seq<Rgb>, j: int)
    requires
        centers.len() == 3,
        centers[0] != centers[1],
        centers[1] != centers[2],
        centers[0] != centers[2],
        0 <= j < 3,
    ensures
        nearest_center_index(centers, centers[j]) == j,
{
    let x = centers[j];
    lemma_sq_dist_bound(centers[0], x);
    lemma_sq_dist_bound(centers[1], x);
    lemma_sq_dist_bound(centers[2], x);
    lemma_sq_dist_zero(centers[0], x);
    lemma_sq_dist_zero(centers[1], x);
    lemma_sq_dist_zero(centers[2], x);
    let u0 = nearest_center_upto(centers, x, 0);
    let u1 = nearest_center_upto(centers, x, 1);
    let u2 = nearest_center_upto(centers, x, 2);
    let u3 = nearest_center_upto(centers, x, 3);
    assert(u0 == (0int, 1000000int));
    assert(u1 == (0int, sq_dist(centers[0], x)));
    if j == 0 {
        assert(u2 == u1);
        assert(u3 == u2);
    } else if j == 1 {
        assert(u2 == (1int, 0int));
        assert(u3 == u2);
    } else {
        assert(u2.1 > 0);
        assert(u3 == (2int, 0int));
    }
}

/// If one refinement step leaves the centers unchanged, so does any number
/// of steps.
proof fn lemma_iterate_fixed(colors: Seq<(Rgb, u32)>, centers: Seq<Rgb>, n: int)
    requires
        step_centers(colors, centers) == centers,
        n >= 0,
    ensures
        iterate_centers(colors, centers, n) == centers,
    decreases n,
{
    if n > 0 {
        lemma_iterate_fixed(colors, centers, n - 1);
    }
}

/// Three distinct solid colors of equal share are a fixed point of the
/// refinement once each is a center: every color is assigned to itself and
/// the weighted mean of a single color is that color.
proof fn lemma_three_solid_fixed_point(colors: Seq<(Rgb, u32)>, centers: Seq<Rgb>, n: u32)
    requires
        n >= 1,
        colors.len() == 3,
        centers.len() == 3,
        colors[0].1 == n && colors[1].1 == n && colors[2].1 == n,
        centers.to_set() =~= seq![colors[0].0, colors[1].0, colors[2].0].to_set(),
        colors[0].0 != colors[1].0,
        colors[1].0 != colors[2].0,
        colors[0].0 != colors[2].0,
    ensures
        step_centers(colors, centers) == centers,
{
    // the three centers are the three colors, in some order, hence distinct
    assert(seq![colors[0].0, colors[1].0, colors[2].0].to_set().contains(colors[0].0));
    assert(seq![colors[0].0, colors[1].0, colors[2].0].to_set().contains(colors[1].0));
    assert(seq![colors[0].0, colors[1].0, colors[2].0].to_set().contains(colors[2].0));
    assert(centers.to_set().contains(colors[0].0));
    assert(centers.to_set().contains(colors[1].0));
    assert(centers.to_set().contains(colors[2].0));
    assert(centers.contains(colors[0].0));
    assert(centers.contains(colors[1].0));
    assert(centers.contains(colors[2].0));
    let i0 = choose|i: int| 0 <= i < 3 && centers[i] == colors[0].0;
    let i1 = choose|i: int| 0 <= i < 3 && centers[i] == colors[1].0;
    let i2 = choose|i: int| 0 <= i < 3 && centers[i] == colors[2].0;
    assert(i0 != i1 && i1 != i2 && i0 != i2);
    assert(centers[0] != centers[1] && centers[1] != centers[2] && centers[0] != centers[2]);
    assert forall|j: int| 0 <= j < 3 implies step_centers(colors, centers)[j] == centers[j] by {
        lemma_nearest_among_three(centers, j);
        let cj = centers[j];
        // exactly one of the three colors equals this center
        let kj: int = if cj == colors[0].0 {
            0
        } else if cj == colors[1].0 {
            1
        } else {
            2
        };
        assert(colors[kj].0 == cj);
        assert(nearest_center_index(centers, colors[kj].0) == j);
        assert forall|k2: int| 0 <= k2 < 3 && k2 != kj implies nearest_center_index(
            centers,
            colors[k2].0,
        ) != j by {
            let jk = choose|i: int| 0 <= i < 3 && centers[i] == colors[k2].0;
            lemma_nearest_among_three(centers, jk);
            assert(jk != j);
        }
        let cs0 = cluster_sums(colors, centers, j, 0);
        let cs1 = cluster_sums(colors, centers, j, 1);
        let cs2 = cluster_sums(colors, centers, j, 2);
        let s3 = cluster_sums(colors, centers, j, 3);
        assert(cs0 == (0int, 0int, 0int, 0int));
        assert(kj == 0 || kj == 1 || kj == 2);
        assert(nearest_center_index(centers, colors[0].0) == j <==> kj == 0);
        assert(nearest_center_index(centers, colors[1].0) == j <==> kj == 1);
        assert(nearest_center_index(centers, colors[2].0) == j <==> kj == 2);
        assert(s3.3 == n);
        assert(s3.0 == cj.r * n && s3.1 == cj.g * n && s3.2 == cj.b * n);
        assert(cj.r * n / (n as int) == cj.r) by (nonlinear_arith)
            requires
                n >= 1,
        ;
        assert(cj.g * n / (n as int) == cj.g) by (nonlinear_arith)
            requires
                n >= 1,
        ;
        assert(cj.b * n / (n as int) == cj.b) by (nonlinear_arith)
            requires
                n >= 1,
        ;
        assert(step_centers(colors, centers)[j] == (Rgb {
            r: (s3.0 / s3.3) as u8,
            g: (s3.1 / s3.3) as u8,
            b: (s3.2 / s3.3) as u8,
        }));
    }
    assert(step_centers(colors, centers) =~= centers);
}

/// On an image made of exactly three solid-color thirds, the extraction at
/// target size three converges to exactly those three colors, up to
/// permutation, whichever of them the random seeding starts from.
pub proof fn lemma_kmeans_three_solid_thirds(a: Rgb, b: Rgb, c: Rgb, n: u32, fi: int)
    requires
        a != b,
        b != c,
        a != c,
        n >= 1,
        0 <= fi < 3,
    ensures
        ({
            let colors = seq![(a, n), (b, n), (c, n)];
            let result = kmeans_spec(colors, 3, fi);
            result.len() == 3 && result.to_set() =~= seq![a, b, c].to_set()
        }),
{
    let colors = seq![(a, n), (b, n), (c, n)];
    let first = colors[fi].0;
    let s1 = seed_centers(colors, first, 1);
    assert(s1 == seq![first]);
    // one center: the distance of every color is its distance to `first`
    assert forall|x: Rgb| true implies nearest_center_dist(s1, x) == sq_dist(first, x) by {
        assert(nearest_center_upto(s1, x, 0) == (0int, 1000000int));
        lemma_sq_dist_bound(first, x);
        assert(nearest_center_upto(s1, x, 1) == (0int, sq_dist(first, x)));
    }
    let f1 = farthest_color_upto(colors, s1, 3);
    lemma_sq_dist_zero(first, a);
    lemma_sq_dist_zero(first, b);
    lemma_sq_dist_zero(first, c);
    // the second center is one of the two other colors
    let ff0 = farthest_color_upto(colors, s1, 0);
    let ff1 = farthest_color_upto(colors, s1, 1);
    let ff2 = farthest_color_upto(colors, s1, 2);
    assert(ff0 == (a, nearest_center_dist(s1, a)));
    assert(colors[0] == (a, n) && colors[1] == (b, n) && colors[2] == (c, n));
    let second = f1.0;
    assert(second == a || second == b || second == c);
    assert(second != first);
    assert(f1.1 > 0);
    let s2 = seed_centers(colors, first, 2);
    assert(s2 == seq![first, second]);
    // two centers: zero distance exactly on the centers themselves
    let third: Rgb = if (first == a && second == b) || (first == b && second == a) {
        c
    } else if (first == a && second == c) || (first == c && second == a) {
        b
    } else {
        a
    };
    assert(third != first && third != second);
    assert(third == a || third == b || third == c);
    assert forall|x: Rgb| true implies nearest_center_dist(s2, x) == (if sq_dist(second, x)
        <= sq_dist(first, x) {
        sq_dist(second, x)
    } else {
        sq_dist(first, x)
    }) by {
        assert(nearest_center_upto(s2, x, 0) == (0int, 1000000int));
        lemma_sq_dist_bound(first, x);
        lemma_sq_dist_bound(second, x);
        assert(nearest_center_upto(s2, x, 1) == (0int, sq_dist(first, x)));
    }
    lemma_sq_dist_zero(second, a);
    lemma_sq_dist_zero(second, b);
    lemma_sq_dist_zero(second, c);
    lemma_sq_dist_zero(first, third);
    lemma_sq_dist_zero(second, third);
    let f2 = farthest_color_upto(colors, s2, 3);
    assert(nearest_center_dist(s2, first) == 0);
    assert(nearest_center_dist(s2, second) == 0);
    assert(nearest_center_dist(s2, third) > 0);
    let gg0 = farthest_color_upto(colors, s2, 0);
    let gg1 = farthest_color_upto(colors, s2, 1);
    let gg2 = farthest_color_upto(colors, s2, 2);
    assert(gg0 == (a, nearest_center_dist(s2, a)));
    assert(colors[0] == (a, n) && colors[1] == (b, n) && colors[2] == (c, n));
    assert(f2.0 == third);
    let s3 = seed_centers(colors, first, 3);
    assert(s3 == seq![first, second, third]);
    assert(s3.to_set() =~= seq![a, b, c].to_set()) by {
        assert(s3.to_set().contains(first));
        assert(s3.to_set().contains(second));
        assert(s3.to_set().contains(third));
        assert(s3[0] == first && s3[1] == second && s3[2] == third);
        assert(seq![a, b, c][0] == a && seq![a, b, c][1] == b && seq![a, b, c][2] == c);
        assert(seq![a, b, c].to_set().contains(a));
        assert(seq![a, b, c].to_set().contains(b));
        assert(seq![a, b, c].to_set().contains(c));
    }
    lemma_three_solid_fixed_point(colors, s3, n);
    lemma_iterate_fixed(colors, s3, 20);
    assert(kmeans_spec(colors, 3, fi) == s3);
}

fn rgb_eq(a: Rgb, b: Rgb) -> (r: bool)
    ensures
        r == (a == b),
{
    a.r == b.r && a.g == b.g && a.b == b.b
}

/// The first slot already holding color `c`, if any.
fn find_color(r: &Vec<(Rgb, u32)>, c: Rgb) -> (res: Option<usize>)
    ensures
        match res {
            Some(j) => j < r@.len() && r@[j as int].0 == c,
            None => forall|jj: int| 0 <= jj < r@.len() ==> (#[trigger] r@[jj]).0 != c,
        },
{
    let mut j: usize = 0;
    while j < r.len()
        invariant
            j <= r@.len(),
            forall|jj: int| 0 <= jj < j ==> (#[trigger] r@[jj]).0 != c,
        decreases r@.len() - j,
    {
        if rgb_eq(r[j].0, c) {
            return Some(j);
        }
        j += 1;
    }
    None
}

/// Deduplicate a pixel list into `(color, count)` pairs: the colors are
/// distinct, every pixel's color appears, and each count is that color's
/// exact number of occurrences.
pub fn count_colors(pixels: &Vec<Rgb>) -> (r: Vec<(Rgb, u32)>)
    requires
        pixels@.len() <= 0x1000000,
    ensures
        r@.len() <= pixels@.len(),
        forall|j: int| 0 <= j < r@.len() ==> (#[trigger] r@[j]).1 == occurrences(pixels@, r@[j].0),
        forall|j1: int, j2: int|
            0 <= j1 < j2 < r@.len() ==> (#[trigger] r@[j1]).0 != (#[trigger] r@[j2]).0,
        forall|i: int| 0 <= i < pixels@.len() ==> #[trigger] has_color(r@, r@.len() as int, pixels@[i]),
        pixels@.len() > 0 ==> r@.len() > 0,
{
    let mut r: Vec<(Rgb, u32)> = Vec::new();
    let mut i: usize = 0;
    proof {
        assert(pixels@.take(0) =~= Seq::<Rgb>::empty());
    }
    while i < pixels.len()
        invariant
            pixels@.len() <= 0x1000000,
            i <= pixels@.len(),
            r@.len() <= i,
            forall|j: int|
                0 <= j < r@.len() ==> (#[trigger] r@[j]).1 == occurrences(
                    pixels@.take(i as int),
                    r@[j].0,
                ) && r@[j].1 >= 1,
            forall|j1: int, j2: int|
                0 <= j1 < j2 < r@.len() ==> (#[trigger] r@[j1]).0 != (#[trigger] r@[j2]).0,
            forall|ii: int| 0 <= ii < i ==> #[trigger] has_color(r@, r@.len() as int, pixels@[ii]),
        decreases pixels@.len() - i,
    {
        let px = pixels[i];
        let ghost old_r = r@;
        let found = find_color(&r, px);
        proof {
            lemma_occurrences_take(pixels@, px, i as int);
        }
        match found {
            Some(fj) => {
                let cnt = r[fj].1;
                proof {
                    assert(r@[fj as int].1 == occurrences(pixels@.take(i as int), px));
                    assert(occurrences(pixels@.take(i as int), px) <= pixels@.take(i as int).len())
                        by {
                        lemma_occurrences_le(pixels@.take(i as int), px);
                    }
                }
                r[fj].1 = cnt + 1;
                proof {
                    assert forall|j2: int|
                        0 <= j2 < r@.len() implies (#[trigger] r@[j2]).1 == occurrences(
                        pixels@.take(i + 1),
                        r@[j2].0,
                    ) && r@[j2].1 >= 1 by {
                        lemma_occurrences_take(pixels@, r@[j2].0, i as int);
                    }
                    assert forall|ii: int| 0 <= ii < i + 1 implies #[trigger] has_color(
                        r@,
                        r@.len() as int,
                        pixels@[ii],
                    ) by {
                        if ii < i {
                            assert(has_color(old_r, old_r.len() as int, pixels@[ii]));
                            let wj = choose|j3: int|
                                0 <= j3 < old_r.len() && (#[trigger] old_r[j3]).0 == pixels@[ii];
                            assert(r@[wj].0 == old_r[wj].0);
                        } else {
                            assert(r@[fj as int].0 == pixels@[ii]);
                        }
                    }
                }
            },
            None => {
                r.push((px, 1u32));
                proof {
                    assert forall|j2: int|
                        0 <= j2 < r@.len() implies (#[trigger] r@[j2]).1 == occurrences(
                        pixels@.take(i + 1),
                        r@[j2].0,
                    ) && r@[j2].1 >= 1 by {
                        lemma_occurrences_take(pixels@, r@[j2].0, i as int);
                        if j2 == r@.len() - 1 {
                            assert forall|ii: int|
                                0 <= ii < pixels@.take(i as int).len() implies #[trigger] has_color(
                                r@,
                                r@.len() - 1,
                                pixels@.take(i as int)[ii],
                            ) by {
                                assert(pixels@.take(i as int)[ii] == pixels@[ii]);
                                assert(has_color(old_r, old_r.len() as int, pixels@[ii]));
                                let wj = choose|j3: int|
                                    0 <= j3 < old_r.len() && (#[trigger] old_r[j3]).0 == pixels@[ii];
                                assert(r@[wj] == old_r[wj]);
                                assert(0 <= wj < r@.len() - 1 && r@[wj].0 == pixels@.take(
                                    i as int,
                                )[ii]);
                            }
                            lemma_occurrences_none(pixels@.take(i as int), px, r@, j2);
                        }
                    }
                    assert forall|ii: int| 0 <= ii < i + 1 implies #[trigger] has_color(
                        r@,
                        r@.len() as int,
                        pixels@[ii],
                    ) by {
                        if ii < i {
                            assert(has_color(old_r, old_r.len() as int, pixels@[ii]));
                            let wj = choose|j3: int|
                                0 <= j3 < old_r.len() && (#[trigger] old_r[j3]).0 == pixels@[ii];
                            assert(r@[wj].0 == old_r[wj].0);
                        } else {
                            assert(r@[r@.len() - 1].0 == pixels@[ii]);
                        }
                    }
                }
            },
        }
        i += 1;
    }
    proof {
        assert(pixels@.take(pixels@.len() as int) =~= pixels@);
        if pixels@.len() > 0 {
            assert(has_color(r@, r@.len() as int, pixels@[0]));
            let wj = choose|j3: int| 0 <= j3 < r@.len() && (#[trigger] r@[j3]).0 == pixels@[0];
        }
    }
    r
}

proof fn lemma_occurrences_le(s: Seq<Rgb>, c: Rgb)
    ensures
        occurrences(s, c) <= s.len(),
    decreases s.len(),
{
    if s.len() > 0 {
        lemma_occurrences_le(s.drop_last(), c);
    }
}

/// A color seen for the first time has no earlier occurrences.
proof fn lemma_occurrences_none(s: Seq<Rgb>, c: Rgb, r: Seq<(Rgb, u32)>, j: int)
    requires
        forall|ii: int| 0 <= ii < s.len() ==> #[trigger] has_color(r, r.len() - 1, s[ii]),
        0 <= j == r.len() - 1,
        r[j].0 == c,
        forall|j1: int, j2: int| 0 <= j1 < j2 < r.len() ==> (#[trigger] r[j1]).0 != (
        #[trigger] r[j2]).0,
    ensures
        occurrences(s, c) == 0,
    decreases s.len(),
{
    if s.len() > 0 {
        assert(forall|ii: int|
            0 <= ii < s.drop_last().len() ==> s.drop_last()[ii] == s[ii]);
        assert(forall|ii: int|
            0 <= ii < s.drop_last().len() ==> #[trigger] has_color(
                r,
                r.len() - 1,
                s.drop_last()[ii],
            ));
        lemma_occurrences_none(s.drop_last(), c, r, j);
        assert(has_color(r, r.len() - 1, s[s.len() - 1]));
        let jj = choose|jj: int| 0 <= jj < r.len() - 1 && (#[trigger] r[jj]).0 == s[s.len() - 1];
        assert(r[jj].0 != r[j].0);
    }
}

/// The center a color is assigned to, executable form.
fn nearest_center(centers: &Vec<Rgb>, c: Rgb) -> (r: (usize, u64))
    requires
        centers@.len() >= 1,
    ensures
        (r.0 as int, r.1 as int) == nearest_center_upto(centers@, c, centers@.len() as int),
        r.0 < centers@.len(),
{
    let mut best_j: usize = 0;
    let mut best_d: u64 = 1000000;
    let mut k: usize = 0;
    while k < centers.len()
        invariant
            centers@.len() >= 1,
            k <= centers@.len(),
            best_d <= 1000000,
            (best_j as int, best_d as int) == nearest_center_upto(centers@, c, k as int),
            k > 0 ==> best_j < k,
            k == 0 ==> best_j == 0,
        decreases centers@.len() - k,
    {
        let d = sq_dist_exec(centers[k], c);
        if d < best_d {
            best_j = k;
            best_d = d;
        }
        k += 1;
    }
    (best_j, best_d)
}

/// One refinement step, executable form.
fn refine_step(colors: &Vec<(Rgb, u32)>, centers: &Vec<Rgb>) -> (r: Vec<Rgb>)
    requires
        centers@.len() >= 1,
        colors@.len() <= 0x1000000,
    ensures
        r@ == step_centers(colors@, centers@),
        r@.len() == centers@.len(),
{
    let mut r: Vec<Rgb> = Vec::new();
    let mut j: usize = 0;
    while j < centers.len()
        invariant
            centers@.len() >= 1,
            colors@.len() <= 0x1000000,
            j <= centers@.len(),
            r@.len() == j,
            forall|jj: int| 0 <= jj < j ==> (#[trigger] r@[jj]) == step_centers(colors@, centers@)[jj],
        decreases centers@.len() - j,
    {
        let mut r_sum: u64 = 0;
        let mut g_sum: u64 = 0;
        let mut b_sum: u64 = 0;
        let mut w_sum: u64 = 0;
        let mut k: usize = 0;
        while k < colors.len()
            invariant
                centers@.len() >= 1,
                colors@.len() <= 0x1000000,
                j < centers@.len(),
                k <= colors@.len(),
                (r_sum as int, g_sum as int, b_sum as int, w_sum as int) == cluster_sums(
                    colors@,
                    centers@,
                    j as int,
                    k as int,
                ),
                w_sum <= k * 0xffff_ffff,
                r_sum <= 255 * w_sum,
                g_sum <= 255 * w_sum,
                b_sum <= 255 * w_sum,
            decreases colors@.len() - k,
        {
            let (c, cnt) = colors[k];
            let assigned = nearest_center(centers, c);
            if assigned.0 == j {
                proof {
                    assert(w_sum + cnt <= (k + 1) * 0xffff_ffff) by (nonlinear_arith)
                        requires
                            w_sum <= k * 0xffff_ffff,
                            cnt <= 0xffff_ffff,
                            k >= 0,
                    ;
                    crate::pixel::lemma_mul_le(c.r as int, cnt as int, 255, 0xffff_ffff);
                    crate::pixel::lemma_mul_le(c.g as int, cnt as int, 255, 0xffff_ffff);
                    crate::pixel::lemma_mul_le(c.b as int, cnt as int, 255, 0xffff_ffff);
                    assert(255 * (w_sum + cnt) == 255 * w_sum + 255 * cnt) by (nonlinear_arith);
                    assert(c.r as int * cnt as int <= 255 * cnt) by (nonlinear_arith)
                        requires
                            c.r <= 255,
                            cnt >= 0,
                    ;
                    assert(c.g as int * cnt as int <= 255 * cnt) by (nonlinear_arith)
                        requires
                            c.g <= 255,
                            cnt >= 0,
                    ;
                    assert(c.b as int * cnt as int <= 255 * cnt) by (nonlinear_arith)
                        requires
                            c.b <= 255,
                            cnt >= 0,
                    ;
                    assert((k + 1) * 0xffff_ffff <= 0x1000000 * 0xffff_ffff) by (nonlinear_arith)
                        requires
                            k + 1 <= 0x1000000,
                    ;
                    assert(255 * (0x1000000 * 0xffff_ffff) < 0xffff_ffff_ffff_ffff)
                        by (nonlinear_arith);
                    assert(255 * (w_sum + cnt) <= 255 * (0x1000000 * 0xffff_ffff))
                        by (nonlinear_arith)
                        requires
                            w_sum + cnt <= 0x1000000 * 0xffff_ffff,
                    ;
                }
                r_sum = r_sum + (c.r as u64) * (cnt as u64);
                g_sum = g_sum + (c.g as u64) * (cnt as u64);
                b_sum = b_sum + (c.b as u64) * (cnt as u64);
                w_sum = w_sum + cnt as u64;
            }
            k += 1;
        }
        if w_sum > 0 {
            proof {
                assert(r_sum / w_sum <= 255) by (nonlinear_arith)
                    requires
                        0 < w_sum,
                        r_sum <= 255 * w_sum,
                ;
                assert(g_sum / w_sum <= 255) by (nonlinear_arith)
                    requires
                        0 < w_sum,
                        g_sum <= 255 * w_sum,
                ;
                assert(b_sum / w_sum <= 255) by (nonlinear_arith)
                    requires
                        0 < w_sum,
                        b_sum <= 255 * w_sum,
                ;
            }
            r.push(
                Rgb {
                    r: (r_sum / w_sum) as u8,
                    g: (g_sum / w_sum) as u8,
                    b: (b_sum / w_sum) as u8,
                },
            );
        } else {
            r.push(centers[j]);
        }
        j += 1;
    }
    proof {
        assert(r@ =~= step_centers(colors@, centers@));
    }
    r
}

/// The full extraction on deduplicated `(color, count)` pairs, with the
/// index of the randomly chosen first center passed in: the result is a
/// mathematical function of the inputs alone.
pub fn kmeans_palette(colors: &Vec<(Rgb, u32)>, target_size: usize, first_index: usize) -> (r: Vec<
    Rgb,
>)
    requires
        colors@.len() >= 1,
        colors@.len() <= 0x1000000,
        first_index < colors@.len(),
        1 <= target_size <= 4096,
    ensures
        r@ == kmeans_spec(colors@, target_size as int, first_index as int),
        r@.len() == target_size,
{
    let first = colors[first_index].0;
    let mut centers: Vec<Rgb> = Vec::new();
    centers.push(first);
    proof {
        assert(centers@ =~= seed_centers(colors@, first, 1));
    }
    while centers.len() < target_size
        invariant
            colors@.len() >= 1,
            colors@.len() <= 0x1000000,
            1 <= centers@.len() <= target_size,
            target_size <= 4096,
            first == colors@[first_index as int].0,
            first_index < colors@.len(),
            centers@ == seed_centers(colors@, first, centers@.len() as int),
        decreases target_size - centers@.len(),
    {
        let mut best: Rgb = colors[0].0;
        let mut best_d: u64 = nearest_center(&centers, colors[0].0).1;
        let mut k: usize = 0;
        while k < colors.len()
            invariant
                colors@.len() <= 0x1000000,
                centers@.len() >= 1,
                k <= colors@.len(),
                (best, best_d as int) == farthest_color_upto(colors@, centers@, k as int),
            decreases colors@.len() - k,
        {
            let nearest = nearest_center(&centers, colors[k].0);
            if nearest.1 > best_d {
                best = colors[k].0;
                best_d = nearest.1;
            }
            k += 1;
        }
        centers.push(best);
        proof {
            assert(centers@ =~= seed_centers(colors@, first, centers@.len() as int));
        }
    }
    let mut iteration: usize = 0;
    let ghost seeded = centers@;
    while iteration < 20
        invariant
            colors@.len() >= 1,
            colors@.len() <= 0x1000000,
            centers@.len() == target_size,
            1 <= target_size <= 4096,
            iteration <= 20,
            iterate_centers(colors@, centers@, 20 - iteration) == iterate_centers(
                colors@,
                seeded,
                20,
            ),
        decreases 20 - iteration,
    {
        centers = refine_step(colors, &centers);
        iteration += 1;
    }
    centers
}

/// Extract a palette from an image's pixels: deduplicate them, pick a
/// uniformly random first center, and run the clustering. `None` exactly
/// when the image has no pixels; whichever first center the randomness
/// picks, the result is the clustering seeded at that unique color.
pub fn generate_palette(pixels: &Vec<Rgb>, target_size: usize) -> (r: Option<Vec<Rgb>>)
    requires
        pixels@.len() <= 0x1000000,
        1 <= target_size <= 4096,
    ensures
        (r is None) <==> pixels@.len() == 0,
        match r {
            Some(p) => exists|cs: Seq<(Rgb, u32)>, fi: int|
                0 <= fi < cs.len() && cs.len() <= pixels@.len() && (forall|j1: int, j2: int|
                    0 <= j1 < j2 < cs.len() ==> (#[trigger] cs[j1]).0 != (#[trigger] cs[j2]).0)
                    && (forall|j: int|
                    0 <= j < cs.len() ==> (#[trigger] cs[j]).1 == occurrences(pixels@, cs[j].0))
                    && (forall|i: int|
                    0 <= i < pixels@.len() ==> #[trigger] has_color(cs, cs.len() as int, pixels@[i])) && p@
                    == kmeans_spec(cs, target_size as int, fi) && p@.len() == target_size,
            None => true,
        },
{
    let counts = count_colors(pixels);
    if counts.len() == 0 {
        return None;
    }
    let fi = rand_below(counts.len() as u32) as usize;
    let p = kmeans_palette(&counts, target_size, fi);
    Some(p)
}

} // verus!
