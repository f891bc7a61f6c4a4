use vstd::prelude::*;

use crate::pixel::{
    lemma_mul_le, lerp_channel_spec, lerp_rgb, lerp_rgb_spec, over_alpha_spec, over_pixel,
    over_pixel_spec, valid_alpha, Pixel, Rgb,
};

verus! {

/// One drawing layer: a row-major grid of pixels plus visibility and a
/// whole-layer opacity in thousandths.
pub struct Layer {
    pub name: String,
    pub grid: Vec<Pixel>,
    pub visible: bool,
    pub opacity: u32,
}

impl Layer {
    /// A layer is well formed for a `w` by `h` canvas when its grid has
    /// exactly one pixel per cell and every alpha is in range.
    pub open spec fn wf(self, w: int, h: int) -> bool {
        &&& self.grid@.len() == w * h
        &&& forall|i: int| 0 <= i < self.grid@.len() ==> (#[trigger] self.grid@[i]).wf()
        &&& valid_alpha(self.opacity)
    }

    /// A fresh, fully transparent, visible layer at full opacity.
    pub fn new_blank(name: String, w: usize, h: usize) -> (l: Layer)
        requires
            w * h <= usize::MAX,
        ensures
            l.wf(w as int, h as int),
            l.grid@.len() == w * h,
            forall|i: int| 0 <= i < l.grid@.len() ==> l.grid@[i] == Pixel::transparent_spec(),
            l.visible,
            l.opacity == 1000,
            l.name == name,
    {
        let mut grid: Vec<Pixel> = Vec::new();
        let n = w * h;
        while grid.len() < n
            invariant
                grid@.len() <= n,
                forall|i: int| 0 <= i < grid@.len() ==> grid@[i] == Pixel::transparent_spec(),
            decreases n - grid@.len(),
        {
            grid.push(Pixel::transparent());
        }
        Layer { name, grid, visible: true, opacity: 1000 }
    }
}

/// One layer pixel composited over the accumulated destination: an empty
/// layer pixel contributes nothing; otherwise the pixel's alpha is scaled
/// by the layer opacity and applied with the "over" operator.
pub open spec fn blend_layer_pixel_spec(dest: Pixel, lp: Pixel, opacity: int) -> Pixel {
    if lp.alpha == 0 {
        dest
    } else {
        over_pixel_spec(dest, lp.color, lp.alpha * opacity / 1000)
    }
}

/// Exec form of one layer pixel composited over the destination.
pub fn blend_layer_pixel(dest: Pixel, lp: Pixel, opacity: u32) -> (p: Pixel)
    requires
        dest.wf(),
        lp.wf(),
        valid_alpha(opacity),
    ensures
        p == blend_layer_pixel_spec(dest, lp, opacity as int),
        p.wf(),
        p.alpha >= dest.alpha,
{
    if lp.alpha == 0 {
        dest
    } else {
        proof {
            lemma_mul_le(lp.alpha as int, opacity as int, 1000, 1000);
            assert(lp.alpha * opacity / 1000 <= 1000) by (nonlinear_arith)
                requires
                    lp.alpha * opacity <= 1000 * 1000,
                    0 <= lp.alpha * opacity,
            ;
        }
        let sa: u32 = lp.alpha * opacity / 1000;
        over_pixel(dest, lp.color, sa)
    }
}

/// The composited value of cell `i`: the layers folded bottom to top with
/// `blend_layer_pixel_spec`, starting from a transparent canvas; invisible
/// layers contribute nothing.
pub open spec fn composite_cell_spec(layers: Seq<Layer>, i: int) -> Pixel
    decreases layers.len(),
{
    if layers.len() == 0 {
        Pixel::transparent_spec()
    } else {
        let prev = composite_cell_spec(layers.drop_last(), i);
        let top = layers.last();
        if top.visible {
            blend_layer_pixel_spec(prev, top.grid[i], top.opacity as int)
        } else {
            prev
        }
    }
}

/// Compositing a stack and then one more layer over the result is the same
/// as compositing the extended stack: the n-layer compositor is exactly the
/// iterated pairwise "over" operator, bottom to top.
pub proof fn lemma_composite_extend(layers: Seq<Layer>, top: Layer, i: int)
    ensures
        composite_cell_spec(layers.push(top), i) == if top.visible {
            blend_layer_pixel_spec(composite_cell_spec(layers, i), top.grid[i], top.opacity as int)
        } else {
            composite_cell_spec(layers, i)
        },
{
    assert(layers.push(top).drop_last() =~= layers);
    assert(layers.push(top).last() == top);
}

/// A layer pixel with alpha 0 composites to the destination unchanged,
/// whatever its stored color and whatever the layer opacity.
pub proof fn lemma_transparent_pixel_identity(dest: Pixel, lp: Pixel, opacity: int)
    requires
        lp.alpha == 0,
    ensures
        blend_layer_pixel_spec(dest, lp, opacity) == dest,
{
}

/// An opaque source composited over an opaque destination at blend factor 1
/// yields exactly the source color, still fully opaque.
pub proof fn lemma_opaque_over_opaque(dest: Pixel, src: Rgb)
    requires
        dest.alpha == 1000,
    ensures
        over_pixel_spec(dest, src, 1000) == (Pixel { color: src, alpha: 1000 }),
{
    assert(over_alpha_spec(1000, 1000) == 1000);
    assert(lerp_channel_spec(dest.color.r as int, src.r as int, 1000, 1000) == src.r) by (nonlinear_arith);
    assert(lerp_channel_spec(dest.color.g as int, src.g as int, 1000, 1000) == src.g) by (nonlinear_arith);
    assert(lerp_channel_spec(dest.color.b as int, src.b as int, 1000, 1000) == src.b) by (nonlinear_arith);
    assert(lerp_rgb_spec(dest.color, src, 1000, 1000) == src);
}

/// Flatten the stack: every cell of the result is the bottom-to-top
/// composite of the visible layers at that cell.
pub fn composite_layers(layers: &Vec<Layer>, w: usize, h: usize) -> (canvas: Vec<Pixel>)
    requires
        w * h <= usize::MAX,
        forall|li: int| 0 <= li < layers@.len() ==> (#[trigger] layers@[li]).wf(w as int, h as int),
    ensures
        canvas@.len() == w * h,
        forall|i: int|
            0 <= i < canvas@.len() ==> canvas@[i] == composite_cell_spec(layers@, i),
        forall|i: int| 0 <= i < canvas@.len() ==> (#[trigger] canvas@[i]).wf(),
{
    let n = w * h;
    let mut canvas: Vec<Pixel> = Vec::new();
    while canvas.len() < n
        invariant
            canvas@.len() <= n,
            forall|i: int| 0 <= i < canvas@.len() ==> canvas@[i] == Pixel::transparent_spec(),
        decreases n - canvas@.len(),
    {
        canvas.push(Pixel::transparent());
    }
    assert(layers@.take(0) =~= Seq::<Layer>::empty());
    let mut li: usize = 0;
    while li < layers.len()
        invariant
            canvas@.len() == n,
            n == w * h,
            forall|lj: int|
                0 <= lj < layers@.len() ==> (#[trigger] layers@[lj]).wf(w as int, h as int),
            forall|i: int|
                0 <= i < canvas@.len() ==> canvas@[i] == composite_cell_spec(
                    layers@.take(li as int),
                    i,
                ),
            forall|i: int| 0 <= i < canvas@.len() ==> (#[trigger] canvas@[i]).wf(),
            li <= layers@.len(),
        decreases layers@.len() - li,
    {
        let layer = &layers[li];
        proof {
            assert(layers@.take(li + 1).drop_last() =~= layers@.take(li as int));
            assert(layers@.take(li + 1).last() == layers@[li as int]);
        }
        if layer.visible {
            let mut i: usize = 0;
            while i < n
                invariant
                    canvas@.len() == n,
                    n == w * h,
                    li < layers@.len(),
                    layers@[li as int].visible,
                    layers@[li as int].wf(w as int, h as int),
                    i <= n,
                    forall|j: int|
                        0 <= j < i ==> canvas@[j] == composite_cell_spec(
                            layers@.take(li + 1),
                            j,
                        ),
                    forall|j: int|
                        i <= j < n ==> canvas@[j] == composite_cell_spec(
                            layers@.take(li as int),
                            j,
                        ),
                    forall|j: int| 0 <= j < canvas@.len() ==> (#[trigger] canvas@[j]).wf(),
                    layers@.take(li + 1).drop_last() =~= layers@.take(li as int),
                    layers@.take(li + 1).last() == layers@[li as int],
                decreases n - i,
            {
                let dest = canvas[i];
                let lp = layers[li].grid[i];
                let blended = blend_layer_pixel(dest, lp, layers[li].opacity);
                canvas.set(i, blended);
                i += 1;
            }
        } else {
            proof {
                assert(forall|j: int|
                    0 <= j < canvas@.len() ==> canvas@[j] == composite_cell_spec(
                        layers@.take(li + 1),
                        j,
                    ));
            }
        }
        li += 1;
    }
    proof {
        assert(layers@.take(layers@.len() as int) =~= layers@);
    }
    canvas
}

} // verus!
