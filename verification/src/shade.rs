use vstd::prelude::*;

use crate::palette::PaletteEntry;
use crate::pixel::Rgb;
use crate::session::Session;

verus! {

/// The brightness of a color: the plain sum of its channels.
pub open spec fn brightness(c: Rgb) -> int {
    c.r + c.g + c.b
}

/// The squared Euclidean distance between two colors.
pub open spec fn sq_dist(a: Rgb, b: Rgb) -> int {
    (a.r - b.r) * (a.r - b.r) + (a.g - b.g) * (a.g - b.g) + (a.b - b.b) * (a.b - b.b)
}

/// The integer square root, defined by counting up.
pub open spec fn isqrt_spec(n: int) -> int
    decreases n,
{
    if n <= 0 {
        0
    } else {
        let r = isqrt_spec(n - 1);
        if (r + 1) * (r + 1) <= n {
            r + 1
        } else {
            r
        }
    }
}

/// `isqrt_spec(n)` really is the integer square root of `n`.
pub proof fn lemma_isqrt_bounds(n: int)
    requires
        n >= 0,
    ensures
        isqrt_spec(n) * isqrt_spec(n) <= n,
        n < (isqrt_spec(n) + 1) * (isqrt_spec(n) + 1),
        isqrt_spec(n) >= 0,
    decreases n,
{
    if n == 0 {
        assert(isqrt_spec(0) == 0);
    } else {
        lemma_isqrt_bounds(n - 1);
        let r = isqrt_spec(n - 1);
        if (r + 1) * (r + 1) <= n {
            assert(isqrt_spec(n) == r + 1);
            assert(n - 1 < (r + 1) * (r + 1));
            assert(n < (r + 2) * (r + 2)) by (nonlinear_arith)
                requires
                    n <= (r + 1) * (r + 1),
                    r >= 0,
            ;
        } else {
            assert(isqrt_spec(n) == r);
            assert(r * r <= n - 1);
        }
    }
}

/// Any integer whose square brackets `n` is that square root.
pub proof fn lemma_isqrt_unique(n: int, r: int)
    requires
        n >= 0,
        r >= 0,
        r * r <= n,
        n < (r + 1) * (r + 1),
    ensures
        r == isqrt_spec(n),
{
    lemma_isqrt_bounds(n);
    let s = isqrt_spec(n);
    if r < s {
        assert((r + 1) * (r + 1) <= s * s) by (nonlinear_arith)
            requires
                0 <= r,
                r + 1 <= s,
        ;
    }
    if s < r {
        assert((s + 1) * (s + 1) <= r * r) by (nonlinear_arith)
            requires
                0 <= s,
                s + 1 <= r,
        ;
    }
}

/// The integer square root of `n`, by binary search.
pub fn isqrt(n: u64) -> (r: u64)
    requires
        n <= 0x4000_0000_0000,
    ensures
        r as int == isqrt_spec(n as int),
        r * r <= n,
{
    let mut lo: u64 = 0;
    let mut hi: u64 = 0x900_0000;
    proof {
        assert((0x900_0000 as int) * (0x900_0000 as int) > 0x4000_0000_0000) by (nonlinear_arith);
    }
    while lo + 1 < hi
        invariant
            lo < hi,
            hi <= 0x900_0000,
            lo * lo <= n,
            n < hi * hi,
        decreases hi - lo,
    {
        let mid: u64 = lo + (hi - lo) / 2;
        proof {
            crate::pixel::lemma_mul_le(mid as int, mid as int, 0x900_0000, 0x900_0000);
        }
        if mid * mid <= n {
            lo = mid;
        } else {
            hi = mid;
        }
    }
    proof {
        assert((lo + 1) * (lo + 1) >= hi * hi) by (nonlinear_arith)
            requires
                lo + 1 >= hi,
                hi >= 1,
        ;
        lemma_isqrt_unique(n as int, lo as int);
    }
    lo
}

/// The distance part of every tone score: the Euclidean RGB distance in
/// thousandths, i.e. the integer square root of the squared distance scaled
/// by one million.
pub open spec fn rgb_dist_milli(a: Rgb, b: Rgb) -> int {
    isqrt_spec(1000000 * sq_dist(a, b))
}

/// A channel ratio in thousandths: `1000 * chan / max(red, 1)`.
pub open spec fn channel_ratio_milli(chan: int, red: int) -> int {
    if red < 1 {
        1000 * chan
    } else {
        1000 * chan / red
    }
}

/// The hue-cast mismatch of the ratio scoring mode: how far the
/// green-to-red and blue-to-red channel ratios of the two colors differ.
pub open spec fn ratio_diff_milli(cur: Rgb, cand: Rgb) -> int {
    abs_spec(
        channel_ratio_milli(cur.g as int, cur.r as int) - channel_ratio_milli(
            cand.g as int,
            cand.r as int,
        ),
    ) + abs_spec(
        channel_ratio_milli(cur.b as int, cur.r as int) - channel_ratio_milli(
            cand.b as int,
            cand.r as int,
        ),
    )
}

pub open spec fn abs_spec(v: int) -> int {
    if v < 0 {
        -v
    } else {
        v
    }
}

/// The ratio-mode score: RGB distance plus 500 times the ratio mismatch,
/// all in thousandths.
pub open spec fn ratio_score(cur: Rgb, cand: Rgb) -> int {
    rgb_dist_milli(cur, cand) + 500 * ratio_diff_milli(cur, cand)
}

/// A signed fraction `60000 * num / delta`, truncated toward zero.
pub open spec fn hue_part(num: int, delta: int) -> int
    recommends
        delta > 0,
{
    if num >= 0 {
        60000 * num / delta
    } else {
        -(60000 * (-num) / delta)
    }
}

/// The hue of a color in thousandths of a degree, `0` for grays: the
/// standard RGB-to-HSV hue formula over the dominant channel.
pub open spec fn hue_of(c: Rgb) -> int {
    let r = c.r as int;
    let g = c.g as int;
    let b = c.b as int;
    let mx = if r >= g && r >= b {
        r
    } else if g >= b {
        g
    } else {
        b
    };
    let mn = if r <= g && r <= b {
        r
    } else if g <= b {
        g
    } else {
        b
    };
    let delta = mx - mn;
    if delta == 0 {
        0
    } else {
        let hue = if mx == r {
            hue_part(g - b, delta)
        } else if mx == g {
            hue_part(b - r, delta) + 120000
        } else {
            hue_part(r - g, delta) + 240000
        };
        if hue < 0 {
            hue + 360000
        } else {
            hue
        }
    }
}

/// The shortest-arc angular distance between two hues, in thousandths of a
/// degree.
pub open spec fn hue_distance_spec(h1: int, h2: int) -> int {
    let diff = abs_spec(h1 - h2);
    if diff > 180000 {
        360000 - diff
    } else {
        diff
    }
}

/// The hue-mode score: RGB distance plus ten times the hue distance, all in
/// thousandths.
pub open spec fn hue_score(cur: Rgb, cand: Rgb) -> int {
    rgb_dist_milli(cur, cand) + 10 * hue_distance_spec(hue_of(cur), hue_of(cand))
}

/// Which palette colors a tone shift may move to: strictly brighter ones
/// for the lighter tools, strictly darker ones for the darker tools.
#[derive(Clone, Copy, PartialEq, Eq, Structural, Debug)]
pub enum ToneDirection {
    Brighter,
    Darker,
}

pub open spec fn tone_admits(dir: ToneDirection, cur: Rgb, cand: Rgb) -> bool {
    match dir {
        ToneDirection::Brighter => brightness(cand) > brightness(cur),
        ToneDirection::Darker => brightness(cand) < brightness(cur),
    }
}

/// The first color of the palette minimizing the squared RGB distance to
/// the target, the target itself when the palette holds no colors.
pub open spec fn closest_color_fold(
    palette: Seq<PaletteEntry>,
    target: Rgb,
    best: Rgb,
    best_d: int,
) -> Rgb
    decreases palette.len(),
{
    if palette.len() == 0 {
        best
    } else {
        let rest = palette.skip(1);
        match palette[0] {
            PaletteEntry::Color(c) => {
                let d = sq_dist(target, c);
                if d < best_d {
                    closest_color_fold(rest, target, c, d)
                } else {
                    closest_color_fold(rest, target, best, best_d)
                }
            },
            PaletteEntry::Tool(_) => closest_color_fold(rest, target, best, best_d),
        }
    }
}

pub open spec fn find_closest_spec(palette: Seq<PaletteEntry>, target: Rgb) -> Rgb {
    closest_color_fold(palette, target, target, 1000000)
}

/// The squared distance the scan has settled on: the companion of
/// `closest_color_fold` that tracks the best distance instead of the color.
pub open spec fn closest_fold_dist(palette: Seq<PaletteEntry>, target: Rgb, best_d: int) -> int
    decreases palette.len(),
{
    if palette.len() == 0 {
        best_d
    } else {
        let rest = palette.skip(1);
        match palette[0] {
            PaletteEntry::Color(c) => {
                let d = sq_dist(target, c);
                if d < best_d {
                    closest_fold_dist(rest, target, d)
                } else {
                    closest_fold_dist(rest, target, best_d)
                }
            },
            PaletteEntry::Tool(_) => closest_fold_dist(rest, target, best_d),
        }
    }
}

/// Squared color distances stay below the scans' starting sentinels.
pub proof fn lemma_sq_dist_bound(a: Rgb, b: Rgb)
    ensures
        0 <= sq_dist(a, b) < 1000000,
{
    let dr = a.r - b.r;
    let dg = a.g - b.g;
    let db = a.b - b.b;
    assert(0 <= dr * dr <= 65025) by (nonlinear_arith)
        requires
            -255 <= dr <= 255,
    ;
    assert(0 <= dg * dg <= 65025) by (nonlinear_arith)
        requires
            -255 <= dg <= 255,
    ;
    assert(0 <= db * db <= 65025) by (nonlinear_arith)
        requires
            -255 <= db <= 255,
    ;
}

proof fn lemma_closest_fold_minimal_aux(
    palette: Seq<PaletteEntry>,
    target: Rgb,
    best: Rgb,
    best_d: int,
)
    ensures
        ({
            let r = closest_color_fold(palette, target, best, best_d);
            let rd = closest_fold_dist(palette, target, best_d);
            &&& rd <= best_d
            &&& (r == best && rd == best_d) || (exists|k: int|
                0 <= k < palette.len() && #[trigger] palette[k] == PaletteEntry::Color(r)
                    && sq_dist(target, r) == rd && rd < best_d)
            &&& forall|k: int|
                0 <= k < palette.len() && (#[trigger] palette[k]) is Color ==> sq_dist(
                    target,
                    palette[k]->Color_0,
                ) >= rd
        }),
    decreases palette.len(),
{
    if palette.len() > 0 {
        let rest = palette.skip(1);
        assert(forall|k: int| 0 <= k < rest.len() ==> #[trigger] rest[k] == palette[k + 1]);
        let r = closest_color_fold(palette, target, best, best_d);
        let rd = closest_fold_dist(palette, target, best_d);
        let (nb, nd): (Rgb, int) = match palette[0] {
            PaletteEntry::Color(c) => {
                let d = sq_dist(target, c);
                if d < best_d {
                    (c, d)
                } else {
                    (best, best_d)
                }
            },
            PaletteEntry::Tool(_) => (best, best_d),
        };
        lemma_closest_fold_minimal_aux(rest, target, nb, nd);
        assert(r == closest_color_fold(rest, target, nb, nd));
        assert(rd == closest_fold_dist(rest, target, nd));
        if r == nb && rd == nd {
            if !(nb == best && nd == best_d) {
                assert(palette[0] == PaletteEntry::Color(r) && sq_dist(target, r) == rd && rd
                    < best_d);
            }
        } else {
            let kr = choose|k: int|
                0 <= k < rest.len() && #[trigger] rest[k] == PaletteEntry::Color(r) && sq_dist(
                    target,
                    r,
                ) == rd && rd < nd;
            assert(palette[kr + 1] == PaletteEntry::Color(r));
        }
        assert forall|k: int|
            0 <= k < palette.len() && (#[trigger] palette[k]) is Color implies sq_dist(
            target,
            palette[k]->Color_0,
        ) >= rd by {
            if k == 0 {
                assert(sq_dist(target, palette[0]->Color_0) >= nd);
            } else {
                assert(rest[k - 1] == palette[k]);
            }
        }
    }
}

/// The palette snap is a true nearest-color search: with no color in the
/// palette it returns the target unchanged, and otherwise it returns a
/// palette color whose squared RGB distance to the target is minimal among
/// all palette colors.
pub proof fn lemma_find_closest_minimal(palette: Seq<PaletteEntry>, target: Rgb)
    ensures
        (forall|k: int| 0 <= k < palette.len() ==> !((#[trigger] palette[k]) is Color))
            ==> find_closest_spec(palette, target) == target,
        (exists|k: int| 0 <= k < palette.len() && (#[trigger] palette[k]) is Color) ==> ({
            let r = find_closest_spec(palette, target);
            &&& exists|k: int|
                0 <= k < palette.len() && #[trigger] palette[k] == PaletteEntry::Color(r)
            &&& forall|k: int|
                0 <= k < palette.len() && (#[trigger] palette[k]) is Color ==> sq_dist(
                    target,
                    palette[k]->Color_0,
                ) >= sq_dist(target, r)
        }),
{
    lemma_closest_fold_minimal_aux(palette, target, target, 1000000);
    let r = find_closest_spec(palette, target);
    let rd = closest_fold_dist(palette, target, 1000000);
    if forall|k: int| 0 <= k < palette.len() ==> !((#[trigger] palette[k]) is Color) {
        if r != target || rd != 1000000 {
            let k = choose|k: int|
                0 <= k < palette.len() && #[trigger] palette[k] == PaletteEntry::Color(r)
                    && sq_dist(target, r) == rd && rd < 1000000;
            assert(palette[k] is Color);
        }
    }
    if exists|k: int| 0 <= k < palette.len() && (#[trigger] palette[k]) is Color {
        let k0 = choose|k: int| 0 <= k < palette.len() && (#[trigger] palette[k]) is Color;
        let c0 = palette[k0]->Color_0;
        assert(palette[k0] == PaletteEntry::Color(c0));
        lemma_sq_dist_bound(target, c0);
        assert(sq_dist(target, c0) >= rd);
        assert(rd < 1000000);
        assert(sq_dist(target, r) == rd);
    }
}

/// The first palette color with the least ratio-mode score among those the
/// tone direction admits; the current color when none qualifies.
pub open spec fn tone_rgb_fold(
    palette: Seq<PaletteEntry>,
    dir: ToneDirection,
    cur: Rgb,
    best: Rgb,
    best_s: int,
) -> Rgb
    decreases palette.len(),
{
    if palette.len() == 0 {
        best
    } else {
        let rest = palette.skip(1);
        match palette[0] {
            PaletteEntry::Color(c) => {
                if !tone_admits(dir, cur, c) {
                    tone_rgb_fold(rest, dir, cur, best, best_s)
                } else {
                    let s = ratio_score(cur, c);
                    if s < best_s {
                        tone_rgb_fold(rest, dir, cur, c, s)
                    } else {
                        tone_rgb_fold(rest, dir, cur, best, best_s)
                    }
                }
            },
            PaletteEntry::Tool(_) => tone_rgb_fold(rest, dir, cur, best, best_s),
        }
    }
}

/// The score the ratio-mode scan has settled on: the companion of
/// `tone_rgb_fold` that tracks the best score instead of the color.
pub open spec fn tone_rgb_fold_score(
    palette: Seq<PaletteEntry>,
    dir: ToneDirection,
    cur: Rgb,
    best_s: int,
) -> int
    decreases palette.len(),
{
    if palette.len() == 0 {
        best_s
    } else {
        let rest = palette.skip(1);
        match palette[0] {
            PaletteEntry::Color(c) => {
                if !tone_admits(dir, cur, c) {
                    tone_rgb_fold_score(rest, dir, cur, best_s)
                } else {
                    let s = ratio_score(cur, c);
                    if s < best_s {
                        tone_rgb_fold_score(rest, dir, cur, s)
                    } else {
                        tone_rgb_fold_score(rest, dir, cur, best_s)
                    }
                }
            },
            PaletteEntry::Tool(_) => tone_rgb_fold_score(rest, dir, cur, best_s),
        }
    }
}

proof fn lemma_tone_rgb_fold_minimal_aux(
    palette: Seq<PaletteEntry>,
    dir: ToneDirection,
    cur: Rgb,
    best: Rgb,
    best_s: int,
)
    ensures
        ({
            let r = tone_rgb_fold(palette, dir, cur, best, best_s);
            let rs = tone_rgb_fold_score(palette, dir, cur, best_s);
            &&& rs <= best_s
            &&& (r == best && rs == best_s) || (exists|k: int|
                0 <= k < palette.len() && #[trigger] palette[k] == PaletteEntry::Color(r)
                    && tone_admits(dir, cur, r) && ratio_score(cur, r) == rs && rs < best_s)
            &&& forall|k: int|
                0 <= k < palette.len() && (#[trigger] palette[k]) is Color && tone_admits(
                    dir,
                    cur,
                    palette[k]->Color_0,
                ) ==> ratio_score(cur, palette[k]->Color_0) >= rs
        }),
    decreases palette.len(),
{
    if palette.len() > 0 {
        let rest = palette.skip(1);
        assert(forall|k: int| 0 <= k < rest.len() ==> #[trigger] rest[k] == palette[k + 1]);
        let r = tone_rgb_fold(palette, dir, cur, best, best_s);
        let rs = tone_rgb_fold_score(palette, dir, cur, best_s);
        let (nb, ns): (Rgb, int) = match palette[0] {
            PaletteEntry::Color(c) => {
                if tone_admits(dir, cur, c) && ratio_score(cur, c) < best_s {
                    (c, ratio_score(cur, c))
                } else {
                    (best, best_s)
                }
            },
            PaletteEntry::Tool(_) => (best, best_s),
        };
        lemma_tone_rgb_fold_minimal_aux(rest, dir, cur, nb, ns);
        assert(r == tone_rgb_fold(rest, dir, cur, nb, ns));
        assert(rs == tone_rgb_fold_score(rest, dir, cur, ns));
        if r == nb && rs == ns {
            if !(nb == best && ns == best_s) {
                assert(palette[0] == PaletteEntry::Color(r) && tone_admits(dir, cur, r)
                    && ratio_score(cur, r) == rs && rs < best_s);
            }
        } else {
            let kr = choose|k: int|
                0 <= k < rest.len() && #[trigger] rest[k] == PaletteEntry::Color(r) && tone_admits(
                    dir,
                    cur,
                    r,
                ) && ratio_score(cur, r) == rs && rs < ns;
            assert(palette[kr + 1] == PaletteEntry::Color(r));
        }
        assert forall|k: int|
            0 <= k < palette.len() && (#[trigger] palette[k]) is Color && tone_admits(
                dir,
                cur,
                palette[k]->Color_0,
            ) implies ratio_score(cur, palette[k]->Color_0) >= rs by {
            if k == 0 {
                assert(ratio_score(cur, palette[0]->Color_0) >= ns);
            } else {
                assert(rest[k - 1] == palette[k]);
            }
        }
    }
}

/// The unprotected tone snap is a true best-scoring search: it returns the
/// current color exactly when no palette color lies in the tone's
/// direction, and otherwise an admitted palette color whose ratio-mode
/// score is minimal among all admitted palette colors.
pub proof fn lemma_tone_snap_rgb_minimal(palette: Seq<PaletteEntry>, dir: ToneDirection, cur: Rgb)
    ensures
        ({
            let r = tone_snap_rgb_spec(palette, false, dir, cur);
            &&& (forall|k: int|
                0 <= k < palette.len() ==> ((#[trigger] palette[k]) is Color ==> !tone_admits(
                    dir,
                    cur,
                    palette[k]->Color_0,
                ))) ==> r == cur
            &&& (exists|k: int|
                0 <= k < palette.len() && (#[trigger] palette[k]) is Color && tone_admits(
                    dir,
                    cur,
                    palette[k]->Color_0,
                )) ==> {
                &&& exists|k: int|
                    0 <= k < palette.len() && #[trigger] palette[k] == PaletteEntry::Color(r)
                        && tone_admits(dir, cur, r)
                &&& forall|k: int|
                    0 <= k < palette.len() && (#[trigger] palette[k]) is Color && tone_admits(
                        dir,
                        cur,
                        palette[k]->Color_0,
                    ) ==> ratio_score(cur, palette[k]->Color_0) >= ratio_score(cur, r)
            }
        }),
{
    lemma_tone_rgb_fold_minimal_aux(palette, dir, cur, cur, SCORE_INFINITY as int);
    let r = tone_snap_rgb_spec(palette, false, dir, cur);
    let rs = tone_rgb_fold_score(palette, dir, cur, SCORE_INFINITY as int);
    if forall|k: int|
        0 <= k < palette.len() ==> ((#[trigger] palette[k]) is Color ==> !tone_admits(
            dir,
            cur,
            palette[k]->Color_0,
        )) {
        if r != cur || rs != SCORE_INFINITY as int {
            let k = choose|k: int|
                0 <= k < palette.len() && #[trigger] palette[k] == PaletteEntry::Color(r)
                    && tone_admits(dir, cur, r) && ratio_score(cur, r) == rs && rs < SCORE_INFINITY;
            assert(palette[k] is Color && tone_admits(dir, cur, palette[k]->Color_0));
        }
    }
    if exists|k: int|
        0 <= k < palette.len() && (#[trigger] palette[k]) is Color && tone_admits(
            dir,
            cur,
            palette[k]->Color_0,
        ) {
        let k0 = choose|k: int|
            0 <= k < palette.len() && (#[trigger] palette[k]) is Color && tone_admits(
                dir,
                cur,
                palette[k]->Color_0,
            );
        let c0 = palette[k0]->Color_0;
        lemma_ratio_score_bound(cur, c0);
        assert(ratio_score(cur, c0) >= rs);
        assert(rs < SCORE_INFINITY);
        assert(ratio_score(cur, r) == rs);
    }
}

/// Every ratio-mode score lies below the scan's starting sentinel.
proof fn lemma_ratio_score_bound(cur: Rgb, cand: Rgb)
    ensures
        0 <= ratio_score(cur, cand) < SCORE_INFINITY,
{
    lemma_sq_dist_bound(cur, cand);
    lemma_isqrt_bounds(1000000 * sq_dist(cur, cand));
    assert(isqrt_spec(1000000 * sq_dist(cur, cand)) <= 1000000) by {
        let v = isqrt_spec(1000000 * sq_dist(cur, cand));
        if v > 1000000 {
            assert(1000000 * sq_dist(cur, cand) < 1000000 * 1000000) by (nonlinear_arith)
                requires
                    sq_dist(cur, cand) < 1000000,
            ;
            assert(v * v > 1000000 * 1000000) by (nonlinear_arith)
                requires
                    v > 1000000,
            ;
        }
    }
    assert(channel_ratio_milli(cur.g as int, cur.r as int) <= 255000);
    assert(channel_ratio_milli(cur.b as int, cur.r as int) <= 255000);
    assert(channel_ratio_milli(cand.g as int, cand.r as int) <= 255000);
    assert(channel_ratio_milli(cand.b as int, cand.r as int) <= 255000);
    assert(channel_ratio_milli(cur.g as int, cur.r as int) >= 0);
    assert(channel_ratio_milli(cur.b as int, cur.r as int) >= 0);
    assert(channel_ratio_milli(cand.g as int, cand.r as int) >= 0);
    assert(channel_ratio_milli(cand.b as int, cand.r as int) >= 0);
}

/// As `tone_rgb_fold`, but scored by hue, and excluding candidates whose
/// hue lies more than 45 degrees away.
pub open spec fn tone_hue_fold(
    palette: Seq<PaletteEntry>,
    dir: ToneDirection,
    cur: Rgb,
    best: Rgb,
    best_s: int,
) -> Rgb
    decreases palette.len(),
{
    if palette.len() == 0 {
        best
    } else {
        let rest = palette.skip(1);
        match palette[0] {
            PaletteEntry::Color(c) => {
                if !tone_admits(dir, cur, c) || hue_distance_spec(hue_of(cur), hue_of(c)) > 45000 {
                    tone_hue_fold(rest, dir, cur, best, best_s)
                } else {
                    let s = hue_score(cur, c);
                    if s < best_s {
                        tone_hue_fold(rest, dir, cur, c, s)
                    } else {
                        tone_hue_fold(rest, dir, cur, best, best_s)
                    }
                }
            },
            PaletteEntry::Tool(_) => tone_hue_fold(rest, dir, cur, best, best_s),
        }
    }
}

/// May the hue-capped scan move from `cur` to `cand`? The tone direction
/// must admit the candidate and its hue must lie within 45 degrees.
pub open spec fn hue_admits(dir: ToneDirection, cur: Rgb, cand: Rgb) -> bool {
    tone_admits(dir, cur, cand) && hue_distance_spec(hue_of(cur), hue_of(cand)) <= 45000
}

/// The score the hue-mode scan has settled on: the companion of
/// `tone_hue_fold` that tracks the best score instead of the color.
pub open spec fn tone_hue_fold_score(
    palette: Seq<PaletteEntry>,
    dir: ToneDirection,
    cur: Rgb,
    best_s: int,
) -> int
    decreases palette.len(),
{
    if palette.len() == 0 {
        best_s
    } else {
        let rest = palette.skip(1);
        match palette[0] {
            PaletteEntry::Color(c) => {
                if !tone_admits(dir, cur, c) || hue_distance_spec(hue_of(cur), hue_of(c)) > 45000 {
                    tone_hue_fold_score(rest, dir, cur, best_s)
                } else {
                    let s = hue_score(cur, c);
                    if s < best_s {
                        tone_hue_fold_score(rest, dir, cur, s)
                    } else {
                        tone_hue_fold_score(rest, dir, cur, best_s)
                    }
                }
            },
            PaletteEntry::Tool(_) => tone_hue_fold_score(rest, dir, cur, best_s),
        }
    }
}

proof fn lemma_tone_hue_fold_minimal_aux(
    palette: Seq<PaletteEntry>,
    dir: ToneDirection,
    cur: Rgb,
    best: Rgb,
    best_s: int,
)
    ensures
        ({
            let r = tone_hue_fold(palette, dir, cur, best, best_s);
            let rs = tone_hue_fold_score(palette, dir, cur, best_s);
            &&& rs <= best_s
            &&& (r == best && rs == best_s) || (exists|k: int|
                0 <= k < palette.len() && #[trigger] palette[k] == PaletteEntry::Color(r)
                    && hue_admits(dir, cur, r) && hue_score(cur, r) == rs && rs < best_s)
            &&& forall|k: int|
                0 <= k < palette.len() && (#[trigger] palette[k]) is Color && hue_admits(
                    dir,
                    cur,
                    palette[k]->Color_0,
                ) ==> hue_score(cur, palette[k]->Color_0) >= rs
        }),
    decreases palette.len(),
{
    if palette.len() > 0 {
        let rest = palette.skip(1);
        assert(forall|k: int| 0 <= k < rest.len() ==> #[trigger] rest[k] == palette[k + 1]);
        let r = tone_hue_fold(palette, dir, cur, best, best_s);
        let rs = tone_hue_fold_score(palette, dir, cur, best_s);
        let (nb, ns): (Rgb, int) = match palette[0] {
            PaletteEntry::Color(c) => {
                if hue_admits(dir, cur, c) && hue_score(cur, c) < best_s {
                    (c, hue_score(cur, c))
                } else {
                    (best, best_s)
                }
            },
            PaletteEntry::Tool(_) => (best, best_s),
        };
        lemma_tone_hue_fold_minimal_aux(rest, dir, cur, nb, ns);
        assert(r == tone_hue_fold(rest, dir, cur, nb, ns));
        assert(rs == tone_hue_fold_score(rest, dir, cur, ns));
        if r == nb && rs == ns {
            if !(nb == best && ns == best_s) {
                assert(palette[0] == PaletteEntry::Color(r) && hue_admits(dir, cur, r)
                    && hue_score(cur, r) == rs && rs < best_s);
            }
        } else {
            let kr = choose|k: int|
                0 <= k < rest.len() && #[trigger] rest[k] == PaletteEntry::Color(r) && hue_admits(
                    dir,
                    cur,
                    r,
                ) && hue_score(cur, r) == rs && rs < ns;
            assert(palette[kr + 1] == PaletteEntry::Color(r));
        }
        assert forall|k: int|
            0 <= k < palette.len() && (#[trigger] palette[k]) is Color && hue_admits(
                dir,
                cur,
                palette[k]->Color_0,
            ) implies hue_score(cur, palette[k]->Color_0) >= rs by {
            if k == 0 {
                assert(hue_score(cur, palette[0]->Color_0) >= ns);
            } else {
                assert(rest[k - 1] == palette[k]);
            }
        }
    }
}

/// The hue-protected tone snap is a true best-scoring search among the
/// palette colors the tone direction admits whose hue lies within 45
/// degrees; with no such color the current color stays.
pub proof fn lemma_tone_snap_hue_minimal(palette: Seq<PaletteEntry>, dir: ToneDirection, cur: Rgb)
    ensures
        ({
            let r = tone_snap_hue_spec(palette, dir, cur);
            &&& (forall|k: int|
                0 <= k < palette.len() ==> ((#[trigger] palette[k]) is Color ==> !hue_admits(
                    dir,
                    cur,
                    palette[k]->Color_0,
                ))) ==> r == cur
            &&& (exists|k: int|
                0 <= k < palette.len() && (#[trigger] palette[k]) is Color && hue_admits(
                    dir,
                    cur,
                    palette[k]->Color_0,
                )) ==> {
                &&& exists|k: int|
                    0 <= k < palette.len() && #[trigger] palette[k] == PaletteEntry::Color(r)
                        && hue_admits(dir, cur, r)
                &&& forall|k: int|
                    0 <= k < palette.len() && (#[trigger] palette[k]) is Color && hue_admits(
                        dir,
                        cur,
                        palette[k]->Color_0,
                    ) ==> hue_score(cur, palette[k]->Color_0) >= hue_score(cur, r)
            }
        }),
{
    lemma_tone_hue_fold_minimal_aux(palette, dir, cur, cur, SCORE_INFINITY as int);
    let r = tone_snap_hue_spec(palette, dir, cur);
    let rs = tone_hue_fold_score(palette, dir, cur, SCORE_INFINITY as int);
    if forall|k: int|
        0 <= k < palette.len() ==> ((#[trigger] palette[k]) is Color ==> !hue_admits(
            dir,
            cur,
            palette[k]->Color_0,
        )) {
        if r != cur || rs != SCORE_INFINITY as int {
            let k = choose|k: int|
                0 <= k < palette.len() && #[trigger] palette[k] == PaletteEntry::Color(r)
                    && hue_admits(dir, cur, r) && hue_score(cur, r) == rs && rs < SCORE_INFINITY;
            assert(palette[k] is Color && hue_admits(dir, cur, palette[k]->Color_0));
        }
    }
    if exists|k: int|
        0 <= k < palette.len() && (#[trigger] palette[k]) is Color && hue_admits(
            dir,
            cur,
            palette[k]->Color_0,
        ) {
        let k0 = choose|k: int|
            0 <= k < palette.len() && (#[trigger] palette[k]) is Color && hue_admits(
                dir,
                cur,
                palette[k]->Color_0,
            );
        let c0 = palette[k0]->Color_0;
        lemma_hue_score_bound(cur, c0);
        assert(hue_score(cur, c0) >= rs);
        assert(rs < SCORE_INFINITY);
        assert(hue_score(cur, r) == rs);
    }
}

/// Hues stay within one full turn.
proof fn lemma_hue_of_range(c: Rgb)
    ensures
        0 <= hue_of(c) < 360000,
{
    let r = c.r as int;
    let g = c.g as int;
    let b = c.b as int;
    let mx = if r >= g && r >= b {
        r
    } else if g >= b {
        g
    } else {
        b
    };
    let mn = if r <= g && r <= b {
        r
    } else if g <= b {
        g
    } else {
        b
    };
    let delta = mx - mn;
    if delta != 0 {
        assert forall|num: int| -delta <= num <= delta implies -60000 <= #[trigger] hue_part(num, delta)
            <= 60000 by {
            if num >= 0 {
                assert(60000 * num / delta <= 60000) by (nonlinear_arith)
                    requires
                        0 <= num <= delta,
                        0 < delta,
                ;
                assert(60000 * num / delta >= 0);
            } else {
                assert(60000 * (-num) / delta <= 60000) by (nonlinear_arith)
                    requires
                        0 <= -num <= delta,
                        0 < delta,
                ;
                assert(60000 * (-num) / delta >= 0);
            }
        }
    }
}

/// Every hue-mode score lies below the scan's starting sentinel.
proof fn lemma_hue_score_bound(cur: Rgb, cand: Rgb)
    ensures
        0 <= hue_score(cur, cand) < SCORE_INFINITY,
{
    lemma_hue_of_range(cur);
    lemma_hue_of_range(cand);
    lemma_sq_dist_bound(cur, cand);
    lemma_isqrt_bounds(1000000 * sq_dist(cur, cand));
    assert(isqrt_spec(1000000 * sq_dist(cur, cand)) <= 1000000) by {
        let v = isqrt_spec(1000000 * sq_dist(cur, cand));
        if v > 1000000 {
            assert(1000000 * sq_dist(cur, cand) < 1000000 * 1000000) by (nonlinear_arith)
                requires
                    sq_dist(cur, cand) < 1000000,
            ;
            assert(v * v > 1000000 * 1000000) by (nonlinear_arith)
                requires
                    v > 1000000,
            ;
        }
    }
}

pub const SCORE_INFINITY: u64 = 1000000000;

/// What `find_lighter_rgb` and `find_darker_rgb` return: the ratio-mode
/// snap when color transitions are unprotected, the hue-mode snap
/// otherwise.
/// What the hue-capped tone snap returns: the best-scoring palette color
/// among those the tone direction admits within 45 degrees of hue.
pub open spec fn tone_snap_hue_spec(palette: Seq<PaletteEntry>, dir: ToneDirection, cur: Rgb) -> Rgb {
    tone_hue_fold(palette, dir, cur, cur, SCORE_INFINITY as int)
}

pub open spec fn tone_snap_rgb_spec(
    palette: Seq<PaletteEntry>,
    protect_transitions: bool,
    dir: ToneDirection,
    cur: Rgb,
) -> Rgb {
    if !protect_transitions {
        tone_rgb_fold(palette, dir, cur, cur, SCORE_INFINITY as int)
    } else {
        tone_snap_hue_spec(palette, dir, cur)
    }
}

fn abs_diff_u64(a: u64, b: u64) -> (r: u64)
    requires
        a <= 1000000000,
        b <= 1000000000,
    ensures
        r as int == abs_spec(a - b),
{
    if a >= b {
        a - b
    } else {
        b - a
    }
}

/// The squared RGB distance, executable form.
pub fn sq_dist_exec(a: Rgb, b: Rgb) -> (d: u64)
    ensures
        d as int == sq_dist(a, b),
        d <= 195075,
{
    let dr: i64 = a.r as i64 - b.r as i64;
    let dg: i64 = a.g as i64 - b.g as i64;
    let db: i64 = a.b as i64 - b.b as i64;
    proof {
        assert(dr * dr >= 0 && dr * dr <= 65025) by (nonlinear_arith)
            requires
                -255 <= dr <= 255,
        ;
        assert(dg * dg >= 0 && dg * dg <= 65025) by (nonlinear_arith)
            requires
                -255 <= dg <= 255,
        ;
        assert(db * db >= 0 && db * db <= 65025) by (nonlinear_arith)
            requires
                -255 <= db <= 255,
        ;
    }
    (dr * dr + dg * dg + db * db) as u64
}

/// The RGB distance in thousandths, executable form.
fn rgb_dist_milli_exec(a: Rgb, b: Rgb) -> (d: u64)
    ensures
        d as int == rgb_dist_milli(a, b),
        d <= 442000,
{
    let sq = sq_dist_exec(a, b);
    let r = isqrt(1000000 * sq);
    proof {
        lemma_isqrt_bounds(1000000 * sq as int);
        assert(isqrt_spec(1000000 * sq as int) <= 442000) by {
            if isqrt_spec(1000000 * sq as int) > 442000 {
                assert(442001 * 442001 <= isqrt_spec(1000000 * sq as int) * isqrt_spec(
                    1000000 * sq as int,
                )) by (nonlinear_arith)
                    requires
                        isqrt_spec(1000000 * sq as int) >= 442001,
                ;
            }
        }
    }
    r
}

fn channel_ratio_exec(chan: u8, red: u8) -> (r: u64)
    ensures
        r as int == channel_ratio_milli(chan as int, red as int),
        r <= 255000,
{
    if red < 1 {
        1000 * (chan as u64)
    } else {
        1000 * (chan as u64) / (red as u64)
    }
}

fn ratio_score_exec(cur: Rgb, cand: Rgb) -> (s: u64)
    ensures
        s as int == ratio_score(cur, cand),
        s < SCORE_INFINITY,
{
    let dist = rgb_dist_milli_exec(cur, cand);
    let rg = abs_diff_u64(
        channel_ratio_exec(cur.g, cur.r),
        channel_ratio_exec(cand.g, cand.r),
    );
    let rb = abs_diff_u64(
        channel_ratio_exec(cur.b, cur.r),
        channel_ratio_exec(cand.b, cand.r),
    );
    dist + 500 * (rg + rb)
}

/// The hue of a color in thousandths of a degree, executable form.
fn hue_of_exec(c: Rgb) -> (hue: u64)
    ensures
        hue as int == hue_of(c),
        hue < 360000,
{
    let r: u64 = c.r as u64;
    let g: u64 = c.g as u64;
    let b: u64 = c.b as u64;
    let mx: u64 = if r >= g && r >= b {
        r
    } else if g >= b {
        g
    } else {
        b
    };
    let mn: u64 = if r <= g && r <= b {
        r
    } else if g <= b {
        g
    } else {
        b
    };
    let delta: u64 = mx - mn;
    if delta == 0 {
        return 0;
    }
    let (pos, neg, offset): (u64, u64, u64) = if mx == r {
        if g >= b {
            (g - b, 0, 0)
        } else {
            (0, b - g, 0)
        }
    } else if mx == g {
        if b >= r {
            (b - r, 0, 120000)
        } else {
            (0, r - b, 120000)
        }
    } else {
        if r >= g {
            (r - g, 0, 240000)
        } else {
            (0, g - r, 240000)
        }
    };
    proof {
        assert(60000 * pos as int / delta as int <= 60000) by (nonlinear_arith)
            requires
                0 < delta as int,
                pos as int <= delta as int,
        ;
        assert(60000 * neg as int / delta as int <= 60000) by (nonlinear_arith)
            requires
                0 < delta as int,
                neg as int <= delta as int,
        ;
        assert(60000 * neg as int / delta as int >= 0);
        assert(60000 * pos as int / delta as int >= 0);
    }
    let hue: u64 = if pos > 0 || neg == 0 {
        60000 * pos / delta + offset
    } else {
        let part = 60000 * neg / delta;
        if part > offset {
            offset + 360000 - part
        } else {
            offset - part
        }
    };
    hue
}

/// The shortest-arc hue distance, executable form.
fn hue_distance_exec(h1: u64, h2: u64) -> (d: u64)
    requires
        h1 < 360000,
        h2 < 360000,
    ensures
        d as int == hue_distance_spec(h1 as int, h2 as int),
        d <= 180000,
{
    let diff = abs_diff_u64(h1, h2);
    if diff > 180000 {
        360000 - diff
    } else {
        diff
    }
}

fn hue_score_exec(cur: Rgb, cand: Rgb) -> (s: u64)
    ensures
        s as int == hue_score(cur, cand),
        s < SCORE_INFINITY,
{
    let dist = rgb_dist_milli_exec(cur, cand);
    let hd = hue_distance_exec(hue_of_exec(cur), hue_of_exec(cand));
    dist + 10 * hd
}

fn brightness_exec(c: Rgb) -> (b: u64)
    ensures
        b as int == brightness(c),
{
    c.r as u64 + c.g as u64 + c.b as u64
}

fn tone_admits_exec(dir: ToneDirection, cur: Rgb, cand: Rgb) -> (r: bool)
    ensures
        r == tone_admits(dir, cur, cand),
{
    match dir {
        ToneDirection::Brighter => brightness_exec(cand) > brightness_exec(cur),
        ToneDirection::Darker => brightness_exec(cand) < brightness_exec(cur),
    }
}

impl Session {
    /// The hue of `(r, g, b)` in thousandths of a degree.
    pub fn rgb_to_hue(&self, r: u8, g: u8, b: u8) -> (hue: u64)
        ensures
            hue as int == hue_of(Rgb { r, g, b }),
            hue < 360000,
    {
        hue_of_exec(Rgb { r, g, b })
    }

    /// The shortest-arc angular distance between two hues, in thousandths
    /// of a degree.
    pub fn hue_distance(&self, h1: u64, h2: u64) -> (d: u64)
        requires
            h1 < 360000,
            h2 < 360000,
        ensures
            d as int == hue_distance_spec(h1 as int, h2 as int),
    {
        hue_distance_exec(h1, h2)
    }

    /// The palette color closest to `target` in squared RGB distance, ties
    /// broken toward the earlier slot; `target` itself if the palette holds
    /// no color at all.
    pub fn find_closest_palette_color(&self, target: Rgb) -> (c: Rgb)
        ensures
            c == find_closest_spec(self.color_palette@, target),
    {
        let mut best: Rgb = target;
        let mut best_d: u64 = 1000000;
        let n = self.color_palette.len();
        let mut i: usize = 0;
        proof {
            assert(self.color_palette@.skip(0) =~= self.color_palette@);
        }
        while i < n
            invariant
                n == self.color_palette@.len(),
                i <= n,
                best_d <= 1000000,
                closest_color_fold(self.color_palette@.skip(i as int), target, best, best_d as int)
                    == find_closest_spec(self.color_palette@, target),
            decreases n - i,
        {
            let ghost pre = self.color_palette@.skip(i as int);
            proof {
                assert(pre[0] == self.color_palette@[i as int]);
                assert(pre.skip(1) =~= self.color_palette@.skip(i + 1));
            }
            match self.color_palette[i] {
                PaletteEntry::Color(c) => {
                    let d = sq_dist_exec(target, c);
                    if d < best_d {
                        best = c;
                        best_d = d;
                    }
                },
                PaletteEntry::Tool(_) => {},
            }
            i += 1;
        }
        proof {
            assert(self.color_palette@.skip(n as int).len() == 0);
        }
        best
    }

    fn tone_snap_rgb(&self, dir: ToneDirection, cur: Rgb) -> (c: Rgb)
        ensures
            c == tone_snap_rgb_spec(
                self.color_palette@,
                self.protect_color_transitions,
                dir,
                cur,
            ),
    {
        let mut best: Rgb = cur;
        let mut best_s: u64 = SCORE_INFINITY;
        let n = self.color_palette.len();
        let mut i: usize = 0;
        proof {
            assert(self.color_palette@.skip(0) =~= self.color_palette@);
        }
        if !self.protect_color_transitions {
            while i < n
                invariant
                    n == self.color_palette@.len(),
                    i <= n,
                    best_s <= SCORE_INFINITY,
                    tone_rgb_fold(
                        self.color_palette@.skip(i as int),
                        dir,
                        cur,
                        best,
                        best_s as int,
                    ) == tone_rgb_fold(
                        self.color_palette@,
                        dir,
                        cur,
                        cur,
                        SCORE_INFINITY as int,
                    ),
                decreases n - i,
            {
                let ghost pre = self.color_palette@.skip(i as int);
                proof {
                    assert(pre[0] == self.color_palette@[i as int]);
                    assert(pre.skip(1) =~= self.color_palette@.skip(i + 1));
                }
                match self.color_palette[i] {
                    PaletteEntry::Color(c) => {
                        if tone_admits_exec(dir, cur, c) {
                            let s = ratio_score_exec(cur, c);
                            if s < best_s {
                                best = c;
                                best_s = s;
                            }
                        }
                    },
                    PaletteEntry::Tool(_) => {},
                }
                i += 1;
            }
            proof {
                assert(self.color_palette@.skip(n as int).len() == 0);
            }
            best
        } else {
            self.tone_snap_hue(dir, cur)
        }
    }

    fn tone_snap_hue(&self, dir: ToneDirection, cur: Rgb) -> (c: Rgb)
        ensures
            c == tone_snap_hue_spec(self.color_palette@, dir, cur),
    {
        let mut best: Rgb = cur;
        let mut best_s: u64 = SCORE_INFINITY;
        let n = self.color_palette.len();
        let mut i: usize = 0;
        proof {
            assert(self.color_palette@.skip(0) =~= self.color_palette@);
        }
        let cur_hue = hue_of_exec(cur);
        while i < n
            invariant
                n == self.color_palette@.len(),
                i <= n,
                best_s <= SCORE_INFINITY,
                cur_hue as int == hue_of(cur),
                cur_hue < 360000,
                tone_hue_fold(
                    self.color_palette@.skip(i as int),
                    dir,
                    cur,
                    best,
                    best_s as int,
                ) == tone_hue_fold(self.color_palette@, dir, cur, cur, SCORE_INFINITY as int),
            decreases n - i,
        {
            let ghost pre = self.color_palette@.skip(i as int);
            proof {
                assert(pre[0] == self.color_palette@[i as int]);
                assert(pre.skip(1) =~= self.color_palette@.skip(i + 1));
            }
            match self.color_palette[i] {
                PaletteEntry::Color(c) => {
                    if tone_admits_exec(dir, cur, c) {
                        let cand_hue = hue_of_exec(c);
                        let hd = hue_distance_exec(cur_hue, cand_hue);
                        if hd <= 45000 {
                            let s = hue_score_exec(cur, c);
                            if s < best_s {
                                best = c;
                                best_s = s;
                            }
                        }
                    }
                },
                PaletteEntry::Tool(_) => {},
            }
            i += 1;
        }
        proof {
            assert(self.color_palette@.skip(n as int).len() == 0);
        }
        best
    }

    /// The palette color the lighter tool snaps to in RGB scoring mode: the
    /// best-scoring strictly brighter palette color, or `current` unchanged
    /// when no palette color is brighter.
    pub fn find_lighter_rgb(&self, current: Rgb) -> (c: Rgb)
        ensures
            c == tone_snap_rgb_spec(
                self.color_palette@,
                self.protect_color_transitions,
                ToneDirection::Brighter,
                current,
            ),
    {
        self.tone_snap_rgb(ToneDirection::Brighter, current)
    }

    /// The palette color the darker tool snaps to in RGB scoring mode.
    pub fn find_darker_rgb(&self, current: Rgb) -> (c: Rgb)
        ensures
            c == tone_snap_rgb_spec(
                self.color_palette@,
                self.protect_color_transitions,
                ToneDirection::Darker,
                current,
            ),
    {
        self.tone_snap_rgb(ToneDirection::Darker, current)
    }

    /// The palette color the lighter tool snaps to in hue scoring mode:
    /// the best-scoring strictly brighter palette color within 45 degrees
    /// of hue, or `current` unchanged when none qualifies.
    pub fn find_lighter_palette_color(&self, current: Rgb) -> (c: Rgb)
        ensures
            c == tone_snap_hue_spec(self.color_palette@, ToneDirection::Brighter, current),
    {
        self.tone_snap_hue(ToneDirection::Brighter, current)
    }

    /// The palette color the darker tool snaps to in hue scoring mode.
    pub fn find_darker_palette_color(&self, current: Rgb) -> (c: Rgb)
        ensures
            c == tone_snap_hue_spec(self.color_palette@, ToneDirection::Darker, current),
    {
        self.tone_snap_hue(ToneDirection::Darker, current)
    }
}

} // verus!
