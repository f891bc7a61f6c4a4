use vstd::prelude::*;

use crate::compose::Layer;
use crate::geometry::{brush_cells, brush_included, brush_primary, brush_targets, cells_view, in_bounds, lemma_single_cell_brush_targets, mirror_cell_spec};
use crate::palette::{PaletteEntry, Tool};
use crate::pixel::{lerp_rgb, lerp_rgb_spec, over_pixel, over_pixel_spec, Pixel, Rgb};
use crate::session::{cell_index, lemma_cell_index_bounds, SnapToPaletteMode, Session, StatusMsg};
use crate::shade::{find_closest_spec, tone_snap_hue_spec, tone_snap_rgb_spec, ToneDirection};

verus! {

/// The running 3x3 neighborhood sums after the first `k` of the nine
/// window cells: summed red, green and blue of the non-empty neighbors,
/// summed alpha and cell count of all in-bounds neighbors, and whether a
/// non-empty neighbor other than the center was seen.
pub open spec fn blur_sums(grid: Seq<Pixel>, w: int, h: int, x: int, y: int, k: int) -> (
    int,
    int,
    int,
    int,
    int,
    bool,
)
    decreases k,
{
    if k <= 0 {
        (0, 0, 0, 0, 0, false)
    } else {
        let prev = blur_sums(grid, w, h, x, y, k - 1);
        let dx = (k - 1) % 3 - 1;
        let dy = (k - 1) / 3 - 1;
        let nx = x + dx;
        let ny = y + dy;
        if in_bounds(w, h, nx, ny) {
            let p = grid[cell_index(w, nx, ny)];
            if p.alpha > 0 {
                (
                    prev.0 + p.color.r,
                    prev.1 + p.color.g,
                    prev.2 + p.color.b,
                    prev.3 + p.alpha,
                    prev.4 + 1,
                    prev.5 || !(dx == 0 && dy == 0),
                )
            } else {
                (prev.0, prev.1, prev.2, prev.3 + p.alpha, prev.4 + 1, prev.5)
            }
        } else {
            prev
        }
    }
}

/// What the blur tool writes at `(x, y)`: the unweighted mean of the 3x3
/// neighborhood (empty cells contribute alpha but no color), blended toward
/// the original pixel by the opacity and optionally snapped to the palette.
/// A fully empty cell with no non-empty neighbor is left untouched.
pub open spec fn blur_pixel_spec(
    grid: Seq<Pixel>,
    w: int,
    h: int,
    x: int,
    y: int,
    opacity: int,
    snap: bool,
    palette: Seq<PaletteEntry>,
) -> Pixel {
    let orig = grid[cell_index(w, x, y)];
    let s = blur_sums(grid, w, h, x, y, 9);
    if orig.alpha == 0 && !s.5 {
        orig
    } else if s.4 > 0 {
        let mean = Rgb { r: (s.0 / s.4) as u8, g: (s.1 / s.4) as u8, b: (s.2 / s.4) as u8 };
        let mean_a = s.3 / s.4;
        let inter = lerp_rgb_spec(orig.color, mean, opacity, 1000);
        let fc = if snap {
            find_closest_spec(palette, inter)
        } else {
            inter
        };
        let fa = (orig.alpha * (1000 - opacity) + mean_a * opacity) / 1000;
        Pixel { color: fc, alpha: fa as u32 }
    } else {
        orig
    }
}

/// What the lighter or darker tool turns a color into: a palette snap when
/// snapping is on, else a direct blend toward white or black by the shade
/// factor.
pub open spec fn tone_shift_spec(s: Session, dir: ToneDirection, cur: Rgb) -> Rgb {
    if s.snap_to_palette {
        match s.snap_to_palette_mode {
            SnapToPaletteMode::ClosestRgb => tone_snap_rgb_spec(
                s.color_palette@,
                s.protect_color_transitions,
                dir,
                cur,
            ),
            SnapToPaletteMode::ClosestHue => tone_snap_hue_spec(s.color_palette@, dir, cur),
        }
    } else {
        let target = match dir {
            ToneDirection::Brighter => Rgb { r: 255, g: 255, b: 255 },
            ToneDirection::Darker => Rgb { r: 0, g: 0, b: 0 },
        };
        lerp_rgb_spec(cur, target, s.shade_factor as int, 1000)
    }
}

/// The pixel one application of the current selection leaves at `(x, y)` of
/// `grid`: paint composites the selected color over the cell at the current
/// opacity; lighter, darker and blur rewrite it as their tool prescribes,
/// and the tone tools skip empty cells.
pub open spec fn effect_pixel_spec(s: Session, grid: Seq<Pixel>, x: int, y: int) -> Pixel {
    let orig = grid[cell_index(s.width as int, x, y)];
    match s.current_selection {
        PaletteEntry::Color(c) => over_pixel_spec(orig, c, s.opacity as int),
        PaletteEntry::Tool(t) => {
            if orig.alpha == 0 && t != Tool::Blur {
                orig
            } else {
                match t {
                    Tool::Lighter => Pixel {
                        color: tone_shift_spec(s, ToneDirection::Brighter, orig.color),
                        alpha: orig.alpha,
                    },
                    Tool::Darker => Pixel {
                        color: tone_shift_spec(s, ToneDirection::Darker, orig.color),
                        alpha: orig.alpha,
                    },
                    Tool::Blur => blur_pixel_spec(
                        grid,
                        s.width as int,
                        s.height as int,
                        x,
                        y,
                        s.opacity as int,
                        s.snap_to_palette,
                        s.color_palette@,
                    ),
                }
            }
        },
    }
}

/// Has the current stroke already touched `(x, y)`?
pub open spec fn visited_contains(v: Seq<(usize, usize)>, x: int, y: int) -> bool {
    exists|k: int| 0 <= k < v.len() && v[k].0 == x && v[k].1 == y
}

/// One protected effect application at an in-bounds cell: skipped when
/// duplicate-pixel protection is on and the stroke already touched the
/// cell; otherwise the effect is applied, and a protected stroke remembers
/// the cell.
pub open spec fn stroke_cell_step(
    s: Session,
    grid: Seq<Pixel>,
    visited: Seq<(usize, usize)>,
    x: int,
    y: int,
) -> (Seq<Pixel>, Seq<(usize, usize)>) {
    if s.protect_stroke && visited_contains(visited, x, y) {
        (grid, visited)
    } else {
        let g2 = grid.update(cell_index(s.width as int, x, y), effect_pixel_spec(s, grid, x, y));
        let v2 = if s.protect_stroke {
            visited.push((x as usize, y as usize))
        } else {
            visited
        };
        (g2, v2)
    }
}

/// The grid and visited set after one protected effect application to each
/// listed cell in turn: each mirror image is an independent application,
/// deduplicated on its own.
pub open spec fn stroke_fold(
    s: Session,
    grid: Seq<Pixel>,
    visited: Seq<(usize, usize)>,
    cells: Seq<(int, int)>,
) -> (Seq<Pixel>, Seq<(usize, usize)>)
    decreases cells.len(),
{
    if cells.len() == 0 {
        (grid, visited)
    } else {
        let stepped = stroke_cell_step(s, grid, visited, cells[0].0, cells[0].1);
        stroke_fold(s, stepped.0, stepped.1, cells.skip(1))
    }
}

/// The effect depends only on the tool state, not on the layer stack, the
/// histories or the stroke set.
pub proof fn lemma_effect_same_params(s1: Session, s2: Session, grid: Seq<Pixel>, x: int, y: int)
    requires
        s1.current_selection == s2.current_selection,
        s1.opacity == s2.opacity,
        s1.shade_factor == s2.shade_factor,
        s1.snap_to_palette == s2.snap_to_palette,
        s1.snap_to_palette_mode == s2.snap_to_palette_mode,
        s1.protect_color_transitions == s2.protect_color_transitions,
        s1.color_palette@ == s2.color_palette@,
        s1.width == s2.width,
        s1.height == s2.height,
    ensures
        effect_pixel_spec(s1, grid, x, y) == effect_pixel_spec(s2, grid, x, y),
{
}

/// As `lemma_effect_same_params`, for a whole protected step.
pub proof fn lemma_step_same_params(
    s1: Session,
    s2: Session,
    grid: Seq<Pixel>,
    visited: Seq<(usize, usize)>,
    x: int,
    y: int,
)
    requires
        s1.current_selection == s2.current_selection,
        s1.opacity == s2.opacity,
        s1.shade_factor == s2.shade_factor,
        s1.snap_to_palette == s2.snap_to_palette,
        s1.snap_to_palette_mode == s2.snap_to_palette_mode,
        s1.protect_color_transitions == s2.protect_color_transitions,
        s1.color_palette@ == s2.color_palette@,
        s1.width == s2.width,
        s1.height == s2.height,
        s1.protect_stroke == s2.protect_stroke,
    ensures
        stroke_cell_step(s1, grid, visited, x, y) == stroke_cell_step(s2, grid, visited, x, y),
{
    lemma_effect_same_params(s1, s2, grid, x, y);
}

impl Session {
    /// Compute the blurred pixel at `(x, y)` of the active layer.
    pub fn calculate_blur_at(&self, x: usize, y: usize, opacity: u32) -> (p: Pixel)
        requires
            self.wf(),
            x < self.width,
            y < self.height,
            opacity <= 1000,
        ensures
            p == blur_pixel_spec(
                self.active_grid(),
                self.width as int,
                self.height as int,
                x as int,
                y as int,
                opacity as int,
                self.snap_to_palette,
                self.color_palette@,
            ),
            p.wf(),
    {
        let w = self.width;
        let h = self.height;
        let grid = &self.layers[self.active_layer_index].grid;
        proof {
            lemma_cell_index_bounds(w as int, h as int, x as int, y as int);
        }
        let orig = grid[y * w + x];
        let mut r_sum: u64 = 0;
        let mut g_sum: u64 = 0;
        let mut b_sum: u64 = 0;
        let mut a_sum: u64 = 0;
        let mut count: u64 = 0;
        let mut colored: bool = false;
        let mut k: usize = 0;
        while k < 9
            invariant
                self.wf(),
                w == self.width,
                h == self.height,
                grid@ == self.active_grid(),
                x < w,
                y < h,
                k <= 9,
                (r_sum as int, g_sum as int, b_sum as int, a_sum as int, count as int, colored)
                    == blur_sums(grid@, w as int, h as int, x as int, y as int, k as int),
                r_sum <= 255 * count,
                g_sum <= 255 * count,
                b_sum <= 255 * count,
                a_sum <= 1000 * count,
                count <= k,
            decreases 9 - k,
        {
            let dx: i64 = (k % 3) as i64 - 1;
            let dy: i64 = (k / 3) as i64 - 1;
            let nx: i64 = x as i64 + dx;
            let ny: i64 = y as i64 + dy;
            if 0 <= nx && nx < w as i64 && 0 <= ny && ny < h as i64 {
                proof {
                    lemma_cell_index_bounds(w as int, h as int, nx as int, ny as int);
                }
                let p = grid[(ny as usize) * w + (nx as usize)];
                if p.alpha > 0 {
                    r_sum = r_sum + p.color.r as u64;
                    g_sum = g_sum + p.color.g as u64;
                    b_sum = b_sum + p.color.b as u64;
                    if !(dx == 0 && dy == 0) {
                        colored = true;
                    }
                }
                a_sum = a_sum + p.alpha as u64;
                count = count + 1;
            }
            k += 1;
        }
        if orig.alpha == 0 && !colored {
            return orig;
        }
        if count > 0 {
            proof {
                assert(r_sum / count <= 255) by (nonlinear_arith)
                    requires
                        0 < count,
                        r_sum <= 255 * count,
                ;
                assert(g_sum / count <= 255) by (nonlinear_arith)
                    requires
                        0 < count,
                        g_sum <= 255 * count,
                ;
                assert(b_sum / count <= 255) by (nonlinear_arith)
                    requires
                        0 < count,
                        b_sum <= 255 * count,
                ;
                assert(a_sum / count <= 1000) by (nonlinear_arith)
                    requires
                        0 < count,
                        a_sum <= 1000 * count,
                ;
            }
            let mean = Rgb {
                r: (r_sum / count) as u8,
                g: (g_sum / count) as u8,
                b: (b_sum / count) as u8,
            };
            let mean_a: u32 = (a_sum / count) as u32;
            let inter = lerp_rgb(orig.color, mean, opacity, 1000);
            let fc = if self.snap_to_palette {
                self.find_closest_palette_color(inter)
            } else {
                inter
            };
            proof {
                assert(orig.alpha * (1000 - opacity) + mean_a * opacity <= 1000 * 1000)
                    by (nonlinear_arith)
                    requires
                        orig.alpha <= 1000,
                        mean_a <= 1000,
                        opacity <= 1000,
                ;
            }
            let fa: u32 = (orig.alpha * (1000 - opacity) + mean_a * opacity) / 1000;
            Pixel { color: fc, alpha: fa }
        } else {
            orig
        }
    }

    /// Apply the current selection once at `(x, y)` of the active layer and
    /// recompose the canvas; out-of-canvas coordinates are silently ignored.
    pub fn apply_effect_at_pixel(&mut self, x: usize, y: usize)
        requires
            old(self).wf(),
        ensures
            final(self).wf(),
            *final(self) == (Session {
                layers: final(self).layers,
                canvas: final(self).canvas,
                ..*old(self)
            }),
            if x < old(self).width && y < old(self).height {
                &&& final(self).active_grid() == old(self).active_grid().update(
                    cell_index(old(self).width as int, x as int, y as int),
                    effect_pixel_spec(*old(self), old(self).active_grid(), x as int, y as int),
                )
                &&& final(self).layers@.len() == old(self).layers@.len()
                &&& forall|li: int|
                    0 <= li < final(self).layers@.len() && li != final(self).active() ==> (
                    #[trigger] final(self).layers@[li]) == old(self).layers@[li]
                &&& final(self).layers@[final(self).active()] == (Layer {
                    grid: final(self).layers@[final(self).active()].grid,
                    ..old(self).layers@[old(self).active()]
                })
                &&& final(self).synced()
            } else {
                *final(self) == *old(self)
            },
    {
        if x >= self.width || y >= self.height {
            return ;
        }
        proof {
            lemma_cell_index_bounds(self.width as int, self.height as int, x as int, y as int);
        }
        let idx: usize = y * self.width + x;
        let new_pixel: Pixel = match self.current_selection {
            PaletteEntry::Color(c) => {
                let dest = self.layers[self.active_layer_index].grid[idx];
                over_pixel(dest, c, self.opacity)
            },
            PaletteEntry::Tool(t) => {
                let orig = self.layers[self.active_layer_index].grid[idx];
                let keep_empty = match t {
                    Tool::Blur => false,
                    _ => true,
                };
                if orig.alpha == 0 && keep_empty {
                    orig
                } else {
                    match t {
                        Tool::Lighter => {
                            let c = if self.snap_to_palette {
                                match self.snap_to_palette_mode {
                                    SnapToPaletteMode::ClosestRgb => self.find_lighter_rgb(
                                        orig.color,
                                    ),
                                    SnapToPaletteMode::ClosestHue => self
                                        .find_lighter_palette_color(orig.color),
                                }
                            } else {
                                lerp_rgb(
                                    orig.color,
                                    Rgb { r: 255, g: 255, b: 255 },
                                    self.shade_factor,
                                    1000,
                                )
                            };
                            Pixel { color: c, alpha: orig.alpha }
                        },
                        Tool::Darker => {
                            let c = if self.snap_to_palette {
                                match self.snap_to_palette_mode {
                                    SnapToPaletteMode::ClosestRgb => self.find_darker_rgb(
                                        orig.color,
                                    ),
                                    SnapToPaletteMode::ClosestHue => self
                                        .find_darker_palette_color(orig.color),
                                }
                            } else {
                                lerp_rgb(
                                    orig.color,
                                    Rgb { r: 0, g: 0, b: 0 },
                                    self.shade_factor,
                                    1000,
                                )
                            };
                            Pixel { color: c, alpha: orig.alpha }
                        },
                        Tool::Blur => self.calculate_blur_at(x, y, self.opacity),
                    }
                }
            },
        };
        self.layers[self.active_layer_index].grid[idx] = new_pixel;
        self.sync_canvas_from_layers();
    }

    /// Apply the current selection at `(x, y)` under duplicate-pixel
    /// protection: within one stroke each cell takes the effect at most
    /// once.
    pub fn apply_effect_with_stroke_tracking(&mut self, x: usize, y: usize)
        requires
            old(self).wf(),
        ensures
            final(self).wf(),
            *final(self) == (Session {
                layers: final(self).layers,
                canvas: final(self).canvas,
                stroke_cells: final(self).stroke_cells,
                ..*old(self)
            }),
            if x < old(self).width && y < old(self).height {
                let stepped = stroke_cell_step(
                    *old(self),
                    old(self).active_grid(),
                    old(self).stroke_cells@,
                    x as int,
                    y as int,
                );
                &&& final(self).active_grid() == stepped.0
                &&& final(self).stroke_cells@ == stepped.1
                &&& final(self).layers@.len() == old(self).layers@.len()
                &&& forall|li: int|
                    0 <= li < final(self).layers@.len() && li != final(self).active() ==> (
                    #[trigger] final(self).layers@[li]) == old(self).layers@[li]
                &&& final(self).layers@[final(self).active()] == (Layer {
                    grid: final(self).layers@[final(self).active()].grid,
                    ..old(self).layers@[old(self).active()]
                })
                &&& final(self).synced()
            } else {
                *final(self) == *old(self)
            },
    {
        if x >= self.width || y >= self.height {
            return ;
        }
        if self.protect_stroke {
            if !self.stroke_contains(x, y) {
                self.apply_effect_at_pixel(x, y);
                self.stroke_cells.push((x, y));
            } else {
                proof {
                    assert(visited_contains(old(self).stroke_cells@, x as int, y as int));
                }
            }
        } else {
            self.apply_effect_at_pixel(x, y);
        }
    }

    /// One brush application centered at `(cx, cy)`: the current selection
    /// is applied, under stroke protection, to every pen-shape cell of the
    /// pen's bounding box that lands on the canvas, each followed by its
    /// in-bounds mirror image under the active symmetry mode.
    pub fn apply_brush(&mut self, cx: usize, cy: usize)
        requires
            old(self).wf(),
        ensures
            final(self).wf(),
            *final(self) == (Session {
                layers: final(self).layers,
                canvas: final(self).canvas,
                stroke_cells: final(self).stroke_cells,
                ..*old(self)
            }),
            ({
                let cells = brush_targets(
                    cx as int,
                    cy as int,
                    old(self).pen_size as int,
                    old(self).pen_shape,
                    old(self).symmetry_mode,
                    old(self).width as int,
                    old(self).height as int,
                );
                let folded = stroke_fold(
                    *old(self),
                    old(self).active_grid(),
                    old(self).stroke_cells@,
                    cells,
                );
                &&& final(self).active_grid() == folded.0
                &&& final(self).stroke_cells@ == folded.1
            }),
            final(self).layers@.len() == old(self).layers@.len(),
            forall|li: int|
                0 <= li < final(self).layers@.len() && li != final(self).active() ==> (
                #[trigger] final(self).layers@[li]) == old(self).layers@[li],
            final(self).layers@[final(self).active()] == (Layer {
                grid: final(self).layers@[final(self).active()].grid,
                ..old(self).layers@[old(self).active()]
            }),
            final(self).synced(),
    {
        let cells = brush_cells(
            cx,
            cy,
            self.pen_size,
            self.pen_shape,
            self.symmetry_mode,
            self.width,
            self.height,
        );
        let ghost all_cells = cells_view(cells@);
        let mut i: usize = 0;
        proof {
            assert(all_cells.skip(0) =~= all_cells);
        }
        while i < cells.len()
            invariant
                old(self).wf(),
                self.wf(),
                i <= cells@.len(),
                cells_view(cells@) == all_cells,
                forall|j: int| 0 <= j < cells@.len() ==> (#[trigger] cells@[j]).0 < old(self).width
                    && cells@[j].1 < old(self).height,
                *self == (Session {
                    layers: self.layers,
                    canvas: self.canvas,
                    stroke_cells: self.stroke_cells,
                    ..*old(self)
                }),
                stroke_fold(*old(self), self.active_grid(), self.stroke_cells@, all_cells.skip(i as int))
                    == stroke_fold(
                    *old(self),
                    old(self).active_grid(),
                    old(self).stroke_cells@,
                    all_cells,
                ),
                self.layers@.len() == old(self).layers@.len(),
                forall|li: int|
                    0 <= li < self.layers@.len() && li != self.active() ==> (
                    #[trigger] self.layers@[li]) == old(self).layers@[li],
                self.layers@[self.active()] == (Layer {
                    grid: self.layers@[self.active()].grid,
                    ..old(self).layers@[old(self).active()]
                }),
                self.synced(),
            decreases cells@.len() - i,
        {
            let (x, y) = cells[i];
            let ghost pre = *self;
            proof {
                assert(all_cells[i as int] == (x as int, y as int));
                assert(all_cells.skip(i as int)[0] == (x as int, y as int));
                assert(all_cells.skip(i as int).skip(1) =~= all_cells.skip(i + 1));
            }
            self.apply_effect_with_stroke_tracking(x, y);
            proof {
                lemma_step_same_params(
                    pre,
                    *old(self),
                    pre.active_grid(),
                    pre.stroke_cells@,
                    x as int,
                    y as int,
                );
            }
            i += 1;
        }
        proof {
            assert(all_cells.skip(cells@.len() as int).len() == 0);
        }
    }

    /// Draw with the current selection at the cursor, snapshotting the
    /// active layer for undo first.
    pub fn use_current_tool(&mut self)
        requires
            old(self).wf(),
        ensures
            final(self).wf(),
            ({
                let cells = brush_targets(
                    old(self).cursor_x as int,
                    old(self).cursor_y as int,
                    old(self).pen_size as int,
                    old(self).pen_shape,
                    old(self).symmetry_mode,
                    old(self).width as int,
                    old(self).height as int,
                );
                let folded = stroke_fold(
                    *old(self),
                    old(self).active_grid(),
                    old(self).stroke_cells@,
                    cells,
                );
                &&& final(self).active_grid() == folded.0
                &&& final(self).stroke_cells@ == folded.1
            }),
            stack_view_undo_pushed(*old(self), *final(self)),
            final(self).synced(),
    {
        self.save_state_for_undo();
        let ghost mid = *self;
        let cx = self.cursor_x;
        let cy = self.cursor_y;
        self.apply_brush(cx, cy);
        proof {
            lemma_stroke_fold_same_params(
                mid,
                *old(self),
                old(self).active_grid(),
                old(self).stroke_cells@,
                brush_targets(
                    old(self).cursor_x as int,
                    old(self).cursor_y as int,
                    old(self).pen_size as int,
                    old(self).pen_shape,
                    old(self).symmetry_mode,
                    old(self).width as int,
                    old(self).height as int,
                ),
            );
        }
    }
}

/// After the call the undo stack holds the pre-call active grid on top and
/// the redo history is gone.
pub open spec fn stack_view_undo_pushed(before: Session, after: Session) -> bool {
    &&& crate::session::stack_view(after.undo_stack) == crate::history::pushed_snapshot(
        crate::session::stack_view(before.undo_stack),
        before.active_grid(),
    )
    &&& crate::session::stack_view(after.redo_stack).len() == 0
}

/// Resetting one cell to the default transparent pixel, remembered by a
/// protected stroke.
pub open spec fn erase_cell_spec(
    s: Session,
    grid: Seq<Pixel>,
    visited: Seq<(usize, usize)>,
    x: int,
    y: int,
) -> (Seq<Pixel>, Seq<(usize, usize)>) {
    let g2 = grid.update(cell_index(s.width as int, x, y), Pixel::transparent_spec());
    let v2 = if s.protect_stroke {
        visited.push((x as usize, y as usize))
    } else {
        visited
    };
    (g2, v2)
}

/// What one offset cell of the eraser's bounding box does: if the pen shape
/// includes it, its canvas cell is on the canvas, and stroke protection has
/// not seen that cell, the cell is erased, and so is its in-bounds mirror
/// image; the mirror rides on the primary cell's protection check.
pub open spec fn erase_group_step(
    s: Session,
    grid: Seq<Pixel>,
    visited: Seq<(usize, usize)>,
    cx: int,
    cy: int,
    k: int,
) -> (Seq<Pixel>, Seq<(usize, usize)>) {
    let size = s.pen_size as int;
    let w = s.width as int;
    let h = s.height as int;
    if !brush_included(s.pen_shape, size, k) {
        (grid, visited)
    } else {
        let p = brush_primary(cx, cy, size, k);
        if !in_bounds(w, h, p.0, p.1) {
            (grid, visited)
        } else if s.protect_stroke && visited_contains(visited, p.0, p.1) {
            (grid, visited)
        } else {
            let erased = erase_cell_spec(s, grid, visited, p.0, p.1);
            match mirror_cell_spec(s.symmetry_mode, p.0, p.1, w, h) {
                Some(q) => if in_bounds(w, h, q.0, q.1) {
                    erase_cell_spec(s, erased.0, erased.1, q.0, q.1)
                } else {
                    erased
                },
                None => erased,
            }
        }
    }
}

/// An eraser centered at least half a pen beyond the canvas erases
/// nothing: every cell of its bounding box already lies off the canvas.
proof fn lemma_erase_fold_far(
    s: Session,
    grid: Seq<Pixel>,
    visited: Seq<(usize, usize)>,
    cx: int,
    cy: int,
    k: int,
)
    requires
        s.pen_size >= 1,
        cx >= s.width + s.pen_size as int / 2 || cy >= s.height + s.pen_size as int / 2,
        0 <= k,
    ensures
        erase_fold(s, grid, visited, cx, cy, k) == (grid, visited),
    decreases k,
{
    if k > 0 {
        lemma_erase_fold_far(s, grid, visited, cx, cy, k - 1);
        let size = s.pen_size as int;
        let p = brush_primary(cx, cy, size, k - 1);
        assert((k - 1) % size >= 0 && (k - 1) / size >= 0);
        assert(p.0 >= cx - size / 2 && p.1 >= cy - size / 2);
        assert(!in_bounds(s.width as int, s.height as int, p.0, p.1));
    }
}

/// The grid and visited set after erasing under the first `k` offset cells
/// of the eraser's bounding box.
pub open spec fn erase_fold(
    s: Session,
    grid: Seq<Pixel>,
    visited: Seq<(usize, usize)>,
    cx: int,
    cy: int,
    k: int,
) -> (Seq<Pixel>, Seq<(usize, usize)>)
    decreases k,
{
    if k <= 0 {
        (grid, visited)
    } else {
        let prev = erase_fold(s, grid, visited, cx, cy, k - 1);
        erase_group_step(s, prev.0, prev.1, cx, cy, k - 1)
    }
}

impl Session {
    /// One eraser application centered at `(cx, cy)`: every pen-shape cell
    /// of the pen's bounding box that lands on the canvas is reset to
    /// transparent, with its in-bounds mirror image, under stroke
    /// protection on the primary cell.
    pub fn erase_brush(&mut self, cx: usize, cy: usize)
        requires
            old(self).wf(),
        ensures
            final(self).wf(),
            *final(self) == (Session {
                layers: final(self).layers,
                canvas: final(self).canvas,
                stroke_cells: final(self).stroke_cells,
                ..*old(self)
            }),
            ({
                let folded = erase_fold(
                    *old(self),
                    old(self).active_grid(),
                    old(self).stroke_cells@,
                    cx as int,
                    cy as int,
                    (old(self).pen_size as int) * (old(self).pen_size as int),
                );
                &&& final(self).active_grid() == folded.0
                &&& final(self).stroke_cells@ == folded.1
            }),
            final(self).layers@.len() == old(self).layers@.len(),
            forall|li: int|
                0 <= li < final(self).layers@.len() && li != final(self).active() ==> (
                #[trigger] final(self).layers@[li]) == old(self).layers@[li],
            final(self).layers@[final(self).active()] == (Layer {
                grid: final(self).layers@[final(self).active()].grid,
                ..old(self).layers@[old(self).active()]
            }),
            final(self).synced(),
    {
        proof {
            crate::pixel::lemma_mul_le(self.pen_size as int, self.pen_size as int, 65535, 65535);
        }
        let size = self.pen_size;
        let w = self.width;
        let h = self.height;
        let a = self.active_layer_index;
        let radius_bound: usize = (size / 2) as usize;
        if cx >= w + radius_bound || cy >= h + radius_bound {
            proof {
                lemma_erase_fold_far(
                    *old(self),
                    old(self).active_grid(),
                    old(self).stroke_cells@,
                    cx as int,
                    cy as int,
                    (size as int) * (size as int),
                );
            }
            return ;
        }
        let n: u64 = (size as u64) * (size as u64);
        let radius: i64 = (size / 2) as i64;
        let mut k: u64 = 0;
        while k < n
            invariant
                old(self).wf(),
                size == old(self).pen_size,
                w == old(self).width,
                h == old(self).height,
                a == old(self).active_layer_index,
                cx < w + size / 2,
                cy < h + size / 2,
                n == (size as int) * (size as int),
                n <= 65535 * 65535,
                radius == size as int / 2,
                k <= n,
                *self == (Session {
                    layers: self.layers,
                    stroke_cells: self.stroke_cells,
                    ..*old(self)
                }),
                (self.active_grid(), self.stroke_cells@) == erase_fold(
                    *old(self),
                    old(self).active_grid(),
                    old(self).stroke_cells@,
                    cx as int,
                    cy as int,
                    k as int,
                ),
                self.layers@.len() == old(self).layers@.len(),
                forall|li: int|
                    0 <= li < self.layers@.len() && li != self.active() ==> (
                    #[trigger] self.layers@[li]) == old(self).layers@[li],
                self.layers@[self.active()] == (Layer {
                    grid: self.layers@[self.active()].grid,
                    ..old(self).layers@[old(self).active()]
                }),
                self.active_grid().len() == w * h,
                forall|i: int|
                    0 <= i < self.active_grid().len() ==> (#[trigger] self.active_grid()[i]).wf(),
            decreases n - k,
        {
            proof {
                assert((k as int) % (size as int) < size as int);
                assert((k as int) / (size as int) < size as int) by (nonlinear_arith)
                    requires
                        0 <= k as int,
                        1 <= size as int,
                        (k as int) < (size as int) * (size as int),
                ;
            }
            let dx: i64 = (k % (size as u64)) as i64;
            let dy: i64 = (k / (size as u64)) as i64;
            let ghost pre_grid = self.active_grid();
            let ghost pre_visited = self.stroke_cells@;
            let included: bool = match self.pen_shape {
                crate::session::PenShape::Square => true,
                crate::session::PenShape::Circular => {
                    let ox = dx - radius;
                    let oy = dy - radius;
                    proof {
                        assert(ox * ox >= 0 && ox * ox <= 65535 * 65535) by (nonlinear_arith)
                            requires
                                -65535 <= ox <= 65535,
                        ;
                        assert(oy * oy >= 0 && oy * oy <= 65535 * 65535) by (nonlinear_arith)
                            requires
                                -65535 <= oy <= 65535,
                        ;
                        assert(radius * radius >= 0 && radius * radius <= 65535 * 65535)
                            by (nonlinear_arith)
                            requires
                                0 <= radius <= 65535,
                        ;
                    }
                    ox * ox + oy * oy <= radius * radius
                },
            };
            if included {
                let px: i64 = cx as i64 - radius + dx;
                let py: i64 = cy as i64 - radius + dy;
                if 0 <= px && px < w as i64 && 0 <= py && py < h as i64 {
                    let pxu = px as usize;
                    let pyu = py as usize;
                    let skip_cell: bool = if self.protect_stroke {
                        self.stroke_contains(pxu, pyu)
                    } else {
                        false
                    };
                    if !skip_cell {
                        proof {
                            lemma_cell_index_bounds(w as int, h as int, px as int, py as int);
                        }
                        self.layers[a].grid[pyu * w + pxu] = Pixel::transparent();
                        if self.protect_stroke {
                            self.stroke_cells.push((pxu, pyu));
                        }
                        let mirrored: Option<(i64, i64)> = match self.symmetry_mode {
                            crate::session::SymmetryMode::Off => None,
                            crate::session::SymmetryMode::Vertical(axis) => {
                                if axis <= 65535 {
                                    let mx: i64 = if w % 2 == 0 {
                                        2 * (axis as i64) - px - 1
                                    } else {
                                        2 * (axis as i64) - px
                                    };
                                    Some((mx, py))
                                } else {
                                    Some((-1, py))
                                }
                            },
                            crate::session::SymmetryMode::Horizontal(axis) => {
                                if axis <= 65535 {
                                    let my: i64 = if h % 2 == 0 {
                                        2 * (axis as i64) - py - 1
                                    } else {
                                        2 * (axis as i64) - py
                                    };
                                    Some((px, my))
                                } else {
                                    Some((px, -1))
                                }
                            },
                            crate::session::SymmetryMode::DiagonalForward(c) => {
                                if -65536 <= c && c <= 65536 * 2 {
                                    Some((py - c, px + c))
                                } else {
                                    Some((-1, -1))
                                }
                            },
                            crate::session::SymmetryMode::DiagonalBackward(c) => {
                                if -65536 <= c && c <= 65536 * 2 {
                                    Some((c - py, c - px))
                                } else {
                                    Some((-1, -1))
                                }
                            },
                        };
                        match mirrored {
                            Some((qx, qy)) => {
                                if 0 <= qx && qx < w as i64 && 0 <= qy && qy < h as i64 {
                                    proof {
                                        lemma_cell_index_bounds(
                                            w as int,
                                            h as int,
                                            qx as int,
                                            qy as int,
                                        );
                                    }
                                    self.layers[a].grid[(qy as usize) * w + (qx as usize)] =
                                        Pixel::transparent();
                                    if self.protect_stroke {
                                        self.stroke_cells.push((qx as usize, qy as usize));
                                    }
                                }
                            },
                            None => {},
                        }
                    }
                }
            }
            proof {
                assert((self.active_grid(), self.stroke_cells@) == erase_group_step(
                    *old(self),
                    pre_grid,
                    pre_visited,
                    cx as int,
                    cy as int,
                    k as int,
                ));
            }
            k += 1;
        }
        self.sync_canvas_from_layers();
    }
}

/// One certain spray draw: the current selection applied at the cursor.
pub open spec fn spray_step(s: Session, grid: Seq<Pixel>) -> Seq<Pixel> {
    grid.update(
        cell_index(s.width as int, s.cursor_x as int, s.cursor_y as int),
        effect_pixel_spec(s, grid, s.cursor_x as int, s.cursor_y as int),
    )
}

/// `n` certain spray draws in a row at the cursor.
pub open spec fn spray_fold(s: Session, grid: Seq<Pixel>, n: int) -> Seq<Pixel>
    decreases n,
{
    if n <= 0 {
        grid
    } else {
        spray_fold(s, spray_step(s, grid), n - 1)
    }
}

/// One more draw after `n` draws is the same as drawing onto the result of
/// the `n` draws.
proof fn lemma_spray_fold_step(s: Session, grid: Seq<Pixel>, n: int)
    requires
        n >= 0,
    ensures
        spray_fold(s, grid, n + 1) == spray_step(s, spray_fold(s, grid, n)),
    decreases n,
{
    if n == 0 {
        assert(spray_fold(s, grid, 1) == spray_fold(s, spray_step(s, grid), 0));
    } else {
        lemma_spray_fold_step(s, spray_step(s, grid), n - 1);
        assert(spray_fold(s, grid, n + 1) == spray_fold(s, spray_step(s, grid), n));
        assert(spray_fold(s, grid, n) == spray_fold(s, spray_step(s, grid), n - 1));
    }
}

/// Relies on rand::Rng::gen_range over the half-open integer range
/// `0..n`: the result is uniformly drawn and lies below `n`.
#[verifier::external_body]
pub(crate) fn rand_below(n: u32) -> (r: u32)
    requires
        n >= 1,
    ensures
        r < n,
{
    rand::Rng::gen_range(&mut rand::thread_rng(), 0..n)
}

impl Session {
    /// One spray burst at the cursor: each of `spray_speed` attempts draws
    /// a uniform offset within the spray radius and passes an independent
    /// intensity gate before painting a single cell. Spraying without a
    /// color selected is rejected with a notice. Whatever the randomness
    /// does, only cells within the spray radius of the cursor change.
    pub fn apply_spray(&mut self)
        requires
            old(self).wf(),
        ensures
            final(self).wf(),
            *final(self) == (Session {
                layers: final(self).layers,
                canvas: final(self).canvas,
                status: final(self).status,
                ..*old(self)
            }),
            if !(old(self).current_selection is Color) {
                &&& *final(self) == (Session { status: final(self).status, ..*old(self) })
                &&& final(self).status == Some(StatusMsg::SelectColorToSpray)
            } else {
                &&& final(self).status == old(self).status
                &&& final(self).layers@.len() == old(self).layers@.len()
                &&& forall|li: int|
                    0 <= li < final(self).layers@.len() && li != final(self).active() ==> (
                    #[trigger] final(self).layers@[li]) == old(self).layers@[li]
                &&& final(self).layers@[final(self).active()] == (Layer {
                    grid: final(self).layers@[final(self).active()].grid,
                    ..old(self).layers@[old(self).active()]
                })
                &&& final(self).active_grid().len() == old(self).active_grid().len()
                &&& forall|i: int|
                    0 <= i < final(self).active_grid().len()
                        && (#[trigger] final(self).active_grid()[i]) != old(self).active_grid()[i]
                        ==> crate::shade::abs_spec(i % (old(self).width as int) - old(self).cursor_x)
                        <= old(self).spray_size as int / 2
                        && crate::shade::abs_spec(i / (old(self).width as int) - old(self).cursor_y)
                        <= old(self).spray_size as int / 2
                &&& (old(self).spray_intensity == 1000 && old(self).spray_size <= 1)
                    ==> final(self).active_grid() == spray_fold(
                    *old(self),
                    old(self).active_grid(),
                    old(self).spray_speed as int,
                )
                &&& final(self).synced()
            },
    {
        match self.current_selection {
            PaletteEntry::Color(_) => {},
            PaletteEntry::Tool(_) => {
                self.status = Some(StatusMsg::SelectColorToSpray);
                return ;
            },
        }
        let cx: i64 = self.cursor_x as i64;
        let cy: i64 = self.cursor_y as i64;
        let radius: i64 = (self.spray_size / 2) as i64;
        let w = self.width;
        let h = self.height;
        let mut attempt: u16 = 0;
        let speed = self.spray_speed;
        while attempt < speed
            invariant
                old(self).wf(),
                self.wf(),
                old(self).current_selection is Color,
                cx == old(self).cursor_x as int,
                cy == old(self).cursor_y as int,
                radius == old(self).spray_size as int / 2,
                w == old(self).width,
                h == old(self).height,
                *self == (Session { layers: self.layers, canvas: self.canvas, ..*old(self) }),
                self.layers@.len() == old(self).layers@.len(),
                forall|li: int|
                    0 <= li < self.layers@.len() && li != self.active() ==> (
                    #[trigger] self.layers@[li]) == old(self).layers@[li],
                self.layers@[self.active()] == (Layer {
                    grid: self.layers@[self.active()].grid,
                    ..old(self).layers@[old(self).active()]
                }),
                self.active_grid().len() == old(self).active_grid().len(),
                forall|i: int|
                    0 <= i < self.active_grid().len() && (#[trigger] self.active_grid()[i]) != old(
                        self,
                    ).active_grid()[i] ==> crate::shade::abs_spec(i % (w as int) - cx)
                        <= radius && crate::shade::abs_spec(i / (w as int) - cy) <= radius,
                speed == old(self).spray_speed,
                attempt <= speed,
                (old(self).spray_intensity == 1000 && old(self).spray_size <= 1)
                    ==> self.active_grid() == spray_fold(
                    *old(self),
                    old(self).active_grid(),
                    attempt as int,
                ),
                self.synced(),
            decreases speed - attempt,
        {
            let span: u32 = (2 * radius + 1) as u32;
            let ox: i64 = rand_below(span) as i64 - radius;
            let oy: i64 = rand_below(span) as i64 - radius;
            let tx: i64 = cx + ox;
            let ty: i64 = cy + oy;
            if rand_below(1000) < self.spray_intensity {
                if 0 <= tx && tx < w as i64 && 0 <= ty && ty < h as i64 {
                    let ghost pre = *self;
                    self.apply_effect_at_pixel(tx as usize, ty as usize);
                    proof {
                        lemma_cell_index_bounds(w as int, h as int, tx as int, ty as int);
                        assert((ty * (w as int) + tx) % (w as int) == tx && (ty * (w as int) + tx)
                            / (w as int) == ty) by (nonlinear_arith)
                            requires
                                0 <= tx < w as int,
                                0 <= ty,
                        ;
                        if old(self).spray_intensity == 1000 && old(self).spray_size <= 1 {
                            assert(tx == old(self).cursor_x && ty == old(self).cursor_y);
                            lemma_effect_same_params(
                                pre,
                                *old(self),
                                pre.active_grid(),
                                tx as int,
                                ty as int,
                            );
                            assert(self.active_grid() == spray_step(
                                *old(self),
                                pre.active_grid(),
                            ));
                            lemma_spray_fold_step(
                                *old(self),
                                old(self).active_grid(),
                                attempt as int,
                            );
                        }
                    }
                }
            }
            attempt += 1;
        }
    }

    /// Erase with the pen at the cursor, snapshotting the active layer for
    /// undo first.
    pub fn erase_at_cursor(&mut self)
        requires
            old(self).wf(),
        ensures
            final(self).wf(),
            ({
                let folded = erase_fold(
                    *old(self),
                    old(self).active_grid(),
                    old(self).stroke_cells@,
                    old(self).cursor_x as int,
                    old(self).cursor_y as int,
                    (old(self).pen_size as int) * (old(self).pen_size as int),
                );
                &&& final(self).active_grid() == folded.0
                &&& final(self).stroke_cells@ == folded.1
            }),
            stack_view_undo_pushed(*old(self), *final(self)),
            final(self).synced(),
    {
        self.save_state_for_undo();
        let ghost mid = *self;
        let cx = self.cursor_x;
        let cy = self.cursor_y;
        self.erase_brush(cx, cy);
        proof {
            lemma_erase_fold_same_params(
                mid,
                *old(self),
                old(self).active_grid(),
                old(self).stroke_cells@,
                old(self).cursor_x as int,
                old(self).cursor_y as int,
                (old(self).pen_size as int) * (old(self).pen_size as int),
            );
        }
    }
}

/// Erasing depends only on the pen and protection state, not on the
/// histories or the canvas cache.
pub proof fn lemma_erase_fold_same_params(
    s1: Session,
    s2: Session,
    grid: Seq<Pixel>,
    visited: Seq<(usize, usize)>,
    cx: int,
    cy: int,
    k: int,
)
    requires
        s1.pen_size == s2.pen_size,
        s1.pen_shape == s2.pen_shape,
        s1.width == s2.width,
        s1.height == s2.height,
        s1.protect_stroke == s2.protect_stroke,
        s1.symmetry_mode == s2.symmetry_mode,
    ensures
        erase_fold(s1, grid, visited, cx, cy, k) == erase_fold(s2, grid, visited, cx, cy, k),
    decreases k,
{
    if k > 0 {
        lemma_erase_fold_same_params(s1, s2, grid, visited, cx, cy, k - 1);
    }
}

/// Painting with vertical symmetry mirrors exactly: on an even-width
/// canvas, a one-cell stroke at `(cx, cy)` paints both `(cx, cy)` and
/// `(2*axis - cx - 1, cy)`, and when the two cells held the same pixel
/// before, reading the mirrored cell afterwards yields the very pixel
/// painted at the stroked cell. `lemma_vertical_symmetry_paint_odd` is the
/// odd-width form.
pub proof fn lemma_vertical_symmetry_paint(
    s: Session,
    grid: Seq<Pixel>,
    visited: Seq<(usize, usize)>,
    cx: int,
    cy: int,
    axis: usize,
    color: Rgb,
)
    requires
        s.wf(),
        s.width % 2 == 0,
        s.symmetry_mode == crate::session::SymmetryMode::Vertical(axis),
        s.pen_size == 1,
        s.current_selection == PaletteEntry::Color(color),
        0 <= cx < s.width,
        0 <= cy < s.height,
        grid.len() == s.width * s.height,
        in_bounds(s.width as int, s.height as int, 2 * axis - cx - 1, cy),
        !visited_contains(visited, cx, cy),
        !visited_contains(visited, 2 * axis - cx - 1, cy),
        grid[cell_index(s.width as int, cx, cy)] == grid[cell_index(
            s.width as int,
            2 * axis - cx - 1,
            cy,
        )],
    ensures
        ({
            let mx = 2 * axis - cx - 1;
            let folded = stroke_fold(
                s,
                grid,
                visited,
                brush_targets(
                    cx,
                    cy,
                    1,
                    s.pen_shape,
                    s.symmetry_mode,
                    s.width as int,
                    s.height as int,
                ),
            );
            &&& folded.0[cell_index(s.width as int, cx, cy)] == over_pixel_spec(
                grid[cell_index(s.width as int, cx, cy)],
                color,
                s.opacity as int,
            )
            &&& folded.0[cell_index(s.width as int, mx, cy)] == folded.0[cell_index(
                s.width as int,
                cx,
                cy,
            )]
        }),
{
    let w = s.width as int;
    let h = s.height as int;
    let mx = 2 * axis - cx - 1;
    lemma_single_cell_brush_targets(cx, cy, s.pen_shape, s.symmetry_mode, w, h);
    let targets = brush_targets(cx, cy, 1, s.pen_shape, s.symmetry_mode, w, h);
    assert(mirror_cell_spec(s.symmetry_mode, cx, cy, w, h) == Some((mx, cy)));
    assert(targets == seq![(cx, cy), (mx, cy)]);
    assert(mx != cx);
    let p_idx = cell_index(w, cx, cy);
    let q_idx = cell_index(w, mx, cy);
    assert(p_idx != q_idx);
    lemma_cell_index_bounds(w, h, cx, cy);
    lemma_cell_index_bounds(w, h, mx, cy);
    let step1 = stroke_cell_step(s, grid, visited, cx, cy);
    let g1 = step1.0;
    let v1 = step1.1;
    assert(g1 == grid.update(p_idx, effect_pixel_spec(s, grid, cx, cy)));
    assert(effect_pixel_spec(s, grid, cx, cy) == over_pixel_spec(grid[p_idx], color, s.opacity as int));
    if s.protect_stroke {
        assert(v1 == visited.push((cx as usize, cy as usize)));
        assert(!visited_contains(v1, mx, cy)) by {
            if visited_contains(v1, mx, cy) {
                let k = choose|k: int| 0 <= k < v1.len() && v1[k].0 == mx && v1[k].1 == cy;
                if k < visited.len() {
                    assert(visited_contains(visited, mx, cy));
                } else {
                    assert(v1[k] == (cx as usize, cy as usize));
                }
            }
        }
    }
    let step2 = stroke_cell_step(s, g1, v1, mx, cy);
    assert(g1[q_idx] == grid[q_idx]);
    assert(effect_pixel_spec(s, g1, mx, cy) == over_pixel_spec(grid[q_idx], color, s.opacity as int));
    let g2 = step2.0;
    assert(g2 == g1.update(q_idx, over_pixel_spec(grid[q_idx], color, s.opacity as int)));
    assert(targets.skip(1)[0] == (mx, cy));
    assert(targets.skip(1).skip(1) =~= Seq::<(int, int)>::empty());
    let folded = stroke_fold(s, grid, visited, targets);
    assert(folded == stroke_fold(s, g1, v1, targets.skip(1)));
    assert(folded == stroke_fold(s, g2, step2.1, targets.skip(1).skip(1)));
    assert(folded.0 == g2);
    assert(g2[p_idx] == g1[p_idx]);
}

/// As `lemma_vertical_symmetry_paint`, for odd-width canvases, where the
/// mirror of column `cx` is `2*axis - cx`: away from the axis column, a
/// one-cell stroke paints both the cell and its mirror, and equal prior
/// pixels read back as equal painted pixels.
pub proof fn lemma_vertical_symmetry_paint_odd(
    s: Session,
    grid: Seq<Pixel>,
    visited: Seq<(usize, usize)>,
    cx: int,
    cy: int,
    axis: usize,
    color: Rgb,
)
    requires
        s.wf(),
        s.width % 2 == 1,
        cx != axis,
        s.symmetry_mode == crate::session::SymmetryMode::Vertical(axis),
        s.pen_size == 1,
        s.current_selection == PaletteEntry::Color(color),
        0 <= cx < s.width,
        0 <= cy < s.height,
        grid.len() == s.width * s.height,
        in_bounds(s.width as int, s.height as int, 2 * axis - cx, cy),
        !visited_contains(visited, cx, cy),
        !visited_contains(visited, 2 * axis - cx, cy),
        grid[cell_index(s.width as int, cx, cy)] == grid[cell_index(
            s.width as int,
            2 * axis - cx,
            cy,
        )],
    ensures
        ({
            let mx = 2 * axis - cx;
            let folded = stroke_fold(
                s,
                grid,
                visited,
                brush_targets(
                    cx,
                    cy,
                    1,
                    s.pen_shape,
                    s.symmetry_mode,
                    s.width as int,
                    s.height as int,
                ),
            );
            &&& folded.0[cell_index(s.width as int, cx, cy)] == over_pixel_spec(
                grid[cell_index(s.width as int, cx, cy)],
                color,
                s.opacity as int,
            )
            &&& folded.0[cell_index(s.width as int, mx, cy)] == folded.0[cell_index(
                s.width as int,
                cx,
                cy,
            )]
        }),
{
    let w = s.width as int;
    let h = s.height as int;
    let mx = 2 * axis - cx;
    lemma_single_cell_brush_targets(cx, cy, s.pen_shape, s.symmetry_mode, w, h);
    let targets = brush_targets(cx, cy, 1, s.pen_shape, s.symmetry_mode, w, h);
    assert(mirror_cell_spec(s.symmetry_mode, cx, cy, w, h) == Some((mx, cy)));
    assert(targets == seq![(cx, cy), (mx, cy)]);
    assert(mx != cx);
    let p_idx = cell_index(w, cx, cy);
    let q_idx = cell_index(w, mx, cy);
    assert(p_idx != q_idx);
    lemma_cell_index_bounds(w, h, cx, cy);
    lemma_cell_index_bounds(w, h, mx, cy);
    let step1 = stroke_cell_step(s, grid, visited, cx, cy);
    let g1 = step1.0;
    let v1 = step1.1;
    assert(g1 == grid.update(p_idx, effect_pixel_spec(s, grid, cx, cy)));
    assert(effect_pixel_spec(s, grid, cx, cy) == over_pixel_spec(grid[p_idx], color, s.opacity as int));
    if s.protect_stroke {
        assert(v1 == visited.push((cx as usize, cy as usize)));
        assert(!visited_contains(v1, mx, cy)) by {
            if visited_contains(v1, mx, cy) {
                let k = choose|k: int| 0 <= k < v1.len() && v1[k].0 == mx && v1[k].1 == cy;
                if k < visited.len() {
                    assert(visited_contains(visited, mx, cy));
                } else {
                    assert(v1[k] == (cx as usize, cy as usize));
                }
            }
        }
    }
    let step2 = stroke_cell_step(s, g1, v1, mx, cy);
    assert(g1[q_idx] == grid[q_idx]);
    assert(effect_pixel_spec(s, g1, mx, cy) == over_pixel_spec(grid[q_idx], color, s.opacity as int));
    let g2 = step2.0;
    assert(g2 == g1.update(q_idx, over_pixel_spec(grid[q_idx], color, s.opacity as int)));
    assert(targets.skip(1)[0] == (mx, cy));
    assert(targets.skip(1).skip(1) =~= Seq::<(int, int)>::empty());
    let folded = stroke_fold(s, grid, visited, targets);
    assert(folded == stroke_fold(s, g1, v1, targets.skip(1)));
    assert(folded == stroke_fold(s, g2, step2.1, targets.skip(1).skip(1)));
    assert(folded.0 == g2);
    assert(g2[p_idx] == g1[p_idx]);
}

/// As `lemma_step_same_params`, lifted over a whole cell list.
pub proof fn lemma_stroke_fold_same_params(
    s1: Session,
    s2: Session,
    grid: Seq<Pixel>,
    visited: Seq<(usize, usize)>,
    cells: Seq<(int, int)>,
)
    requires
        s1.current_selection == s2.current_selection,
        s1.opacity == s2.opacity,
        s1.shade_factor == s2.shade_factor,
        s1.snap_to_palette == s2.snap_to_palette,
        s1.snap_to_palette_mode == s2.snap_to_palette_mode,
        s1.protect_color_transitions == s2.protect_color_transitions,
        s1.color_palette@ == s2.color_palette@,
        s1.width == s2.width,
        s1.height == s2.height,
        s1.protect_stroke == s2.protect_stroke,
    ensures
        stroke_fold(s1, grid, visited, cells) == stroke_fold(s2, grid, visited, cells),
    decreases cells.len(),
{
    if cells.len() > 0 {
        lemma_step_same_params(s1, s2, grid, visited, cells[0].0, cells[0].1);
        let stepped = stroke_cell_step(s1, grid, visited, cells[0].0, cells[0].1);
        lemma_stroke_fold_same_params(s1, s2, stepped.0, stepped.1, cells.skip(1));
    }
}

} // verus!
