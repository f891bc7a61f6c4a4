use vstd::prelude::*;

verus! {

/// Alpha values are stored in thousandths: 0 is fully transparent,
/// `ALPHA_OPAQUE` (1000) is fully opaque.
pub const ALPHA_OPAQUE: u32 = 1000;

/// An 8-bit-per-channel RGB color.
#[derive(Clone, Copy, PartialEq, Eq, Structural, Debug, Hash)]
pub struct Rgb {
    pub r: u8,
    pub g: u8,
    pub b: u8,
}

/// One canvas cell: a color plus a coverage value `alpha` in thousandths.
/// `alpha == 0` means the cell is empty; the color is still stored but
/// contributes nothing when composited.
#[derive(Clone, Copy, PartialEq, Eq, Structural, Debug)]
pub struct Pixel {
    pub color: Rgb,
    pub alpha: u32,
}

pub open spec fn valid_alpha(a: u32) -> bool {
    a <= 1000
}

impl Rgb {
    pub open spec fn new_spec(r: u8, g: u8, b: u8) -> Rgb {
        Rgb { r, g, b }
    }

    pub fn new(r: u8, g: u8, b: u8) -> (c: Rgb)
        ensures
            c == Rgb::new_spec(r, g, b),
    {
        Rgb { r, g, b }
    }
}

impl Pixel {
    pub open spec fn wf(self) -> bool {
        valid_alpha(self.alpha)
    }

    pub open spec fn transparent_spec() -> Pixel {
        Pixel { color: Rgb { r: 0, g: 0, b: 0 }, alpha: 0 }
    }

    /// The default value of a cell: black at alpha 0, i.e. empty.
    pub fn transparent() -> (p: Pixel)
        ensures
            p == Pixel::transparent_spec(),
            p.wf(),
    {
        Pixel { color: Rgb { r: 0, g: 0, b: 0 }, alpha: 0 }
    }
}

/// Linear interpolation of one channel from `d` toward `s` by the
/// fraction `num / den`, rounded to the nearest integer.
pub open spec fn lerp_channel_spec(d: int, s: int, num: int, den: int) -> int {
    (d * (den - num) + s * num + den / 2) / den
}

/// The blended alpha of the "over" operator: source alpha `sa` over
/// destination alpha `da`, both in thousandths.
pub open spec fn over_alpha_spec(da: int, sa: int) -> int {
    sa + da * (1000 - sa) / 1000
}

proof fn lemma_lerp_channel_bounds(d: int, s: int, num: int, den: int)
    requires
        0 <= d <= 255,
        0 <= s <= 255,
        0 <= num <= den,
        0 < den,
    ensures
        0 <= lerp_channel_spec(d, s, num, den) <= 255,
{
    assert(d * (den - num) + s * num <= 255 * den) by (nonlinear_arith)
        requires
            0 <= d <= 255,
            0 <= s <= 255,
            0 <= num <= den,
            0 < den,
    ;
    assert(0 <= d * (den - num) + s * num) by (nonlinear_arith)
        requires
            0 <= d,
            0 <= s,
            0 <= num <= den,
    ;
    let total = d * (den - num) + s * num + den / 2;
    assert(total <= 255 * den + den / 2);
    assert((255 * den + den / 2) / den == 255) by (nonlinear_arith)
        requires
            0 < den,
    ;
    assert(total / den <= (255 * den + den / 2) / den) by (nonlinear_arith)
        requires
            0 < den,
            0 <= total,
            total <= 255 * den + den / 2,
    ;
    assert(total / den >= 0) by (nonlinear_arith)
        requires
            0 < den,
            0 <= total,
    ;
}

/// If both factors are bounded, so is the product.
pub proof fn lemma_mul_le(a: int, b: int, am: int, bm: int)
    requires
        0 <= a <= am,
        0 <= b <= bm,
    ensures
        a * b <= am * bm,
        0 <= a * b,
{
    assert(a * b <= am * bm && 0 <= a * b) by (nonlinear_arith)
        requires
            0 <= a <= am,
            0 <= b <= bm,
    ;
}

/// One channel of `lerp`, executable form.
fn lerp_channel(d: u8, s: u8, num: u32, den: u32) -> (c: u8)
    requires
        num <= den,
        0 < den,
        den <= 1000,
    ensures
        c as int == lerp_channel_spec(d as int, s as int, num as int, den as int),
{
    proof {
        lemma_lerp_channel_bounds(d as int, s as int, num as int, den as int);
        lemma_mul_le(d as int, (den - num) as int, 255, 1000);
        lemma_mul_le(s as int, num as int, 255, 1000);
    }
    let total: u32 = (d as u32) * (den - num) + (s as u32) * num + den / 2;
    (total / den) as u8
}

/// Per-channel linear interpolation of `d` toward `s` by `num / den`,
/// each channel rounded to nearest.
pub open spec fn lerp_rgb_spec(d: Rgb, s: Rgb, num: int, den: int) -> Rgb {
    Rgb {
        r: lerp_channel_spec(d.r as int, s.r as int, num, den) as u8,
        g: lerp_channel_spec(d.g as int, s.g as int, num, den) as u8,
        b: lerp_channel_spec(d.b as int, s.b as int, num, den) as u8,
    }
}

/// Blend color `d` toward color `s` by the fraction `num / den`.
pub fn lerp_rgb(d: Rgb, s: Rgb, num: u32, den: u32) -> (c: Rgb)
    requires
        num <= den,
        0 < den,
        den <= 1000,
    ensures
        c == lerp_rgb_spec(d, s, num as int, den as int),
{
    proof {
        lemma_lerp_channel_bounds(d.r as int, s.r as int, num as int, den as int);
        lemma_lerp_channel_bounds(d.g as int, s.g as int, num as int, den as int);
        lemma_lerp_channel_bounds(d.b as int, s.b as int, num as int, den as int);
    }
    Rgb {
        r: lerp_channel(d.r, s.r, num, den),
        g: lerp_channel(d.g, s.g, num, den),
        b: lerp_channel(d.b, s.b, num, den),
    }
}

/// Blend `c1` toward `c2` by a factor in thousandths: per-channel linear
/// interpolation, each channel rounded to nearest.
pub fn blend_colors(c1: Rgb, c2: Rgb, factor: u32) -> (c: Rgb)
    requires
        valid_alpha(factor),
    ensures
        c == lerp_rgb_spec(c1, c2, factor as int, 1000),
{
    lerp_rgb(c1, c2, factor, 1000)
}

/// The "over" operator: a source color at alpha `sa` (thousandths)
/// composited over the destination pixel. A transparent destination is
/// replaced outright; otherwise the colors are interpolated by
/// `sa / over_alpha` and the alphas combine by the standard formula.
pub open spec fn over_pixel_spec(dest: Pixel, src: Rgb, sa: int) -> Pixel {
    if dest.alpha == 0 {
        Pixel { color: src, alpha: sa as u32 }
    } else {
        let oa = over_alpha_spec(dest.alpha as int, sa);
        Pixel { color: lerp_rgb_spec(dest.color, src, sa, oa), alpha: oa as u32 }
    }
}

/// The blended alpha stays within [0, 1000] and never decreases below
/// either input alpha: compositing only makes a cell more opaque.
pub proof fn lemma_over_alpha_bounds(da: int, sa: int)
    requires
        0 <= da <= 1000,
        0 <= sa <= 1000,
    ensures
        over_alpha_spec(da, sa) <= 1000,
        over_alpha_spec(da, sa) >= da,
        over_alpha_spec(da, sa) >= sa,
        0 < sa ==> 0 < over_alpha_spec(da, sa),
{
    assert(da * (1000 - sa) <= 1000 * (1000 - sa)) by (nonlinear_arith)
        requires
            0 <= da <= 1000,
            0 <= sa <= 1000,
    ;
    assert(da * (1000 - sa) / 1000 <= (1000 * (1000 - sa)) / 1000) by (nonlinear_arith)
        requires
            da * (1000 - sa) <= 1000 * (1000 - sa),
            0 <= da,
            0 <= sa <= 1000,
    ;
    assert((1000 * (1000 - sa)) / 1000 == 1000 - sa) by (nonlinear_arith);
    assert(da * (1000 - sa) >= 1000 * da - 1000 * sa) by (nonlinear_arith)
        requires
            0 <= da <= 1000,
            0 <= sa <= 1000,
    ;
    assert(da * (1000 - sa) / 1000 >= (1000 * da - 1000 * sa) / 1000) by (nonlinear_arith)
        requires
            da * (1000 - sa) >= 1000 * da - 1000 * sa,
    ;
    assert((1000 * da - 1000 * sa) / 1000 == da - sa) by (nonlinear_arith);
    assert(da * (1000 - sa) >= 0) by (nonlinear_arith)
        requires
            0 <= da,
            sa <= 1000,
    ;
    assert(da * (1000 - sa) / 1000 >= 0);
}

/// Exec form of the "over" operator.
pub fn over_pixel(dest: Pixel, src: Rgb, sa: u32) -> (p: Pixel)
    requires
        dest.wf(),
        valid_alpha(sa),
    ensures
        p == over_pixel_spec(dest, src, sa as int),
        p.wf(),
        p.alpha >= dest.alpha,
        p.alpha >= sa,
    {
    proof {
        lemma_over_alpha_bounds(dest.alpha as int, sa as int);
    }
    if dest.alpha == 0 {
        Pixel { color: src, alpha: sa }
    } else {
        let oa: u32 = sa + dest.alpha * (1000 - sa) / 1000;
        Pixel { color: lerp_rgb(dest.color, src, sa, oa), alpha: oa }
    }
}

} // verus!
