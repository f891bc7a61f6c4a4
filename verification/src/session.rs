use vstd::prelude::*;

use std::collections::VecDeque;

use crate::compose::{composite_cell_spec, composite_layers, Layer};
use crate::palette::{get_default_color_palette, get_default_tool_palette, PaletteEntry, Tool};
use crate::pixel::{valid_alpha, Pixel, Rgb};

verus! {

/// The footprint of the pen.
#[derive(Clone, Copy, PartialEq, Eq, Structural, Debug)]
pub enum PenShape {
    Circular,
    Square,
}

/// The active mirror transform for brush and erase strokes. `Vertical(a)`
/// mirrors across the column `a`, `Horizontal(a)` across the row `a`,
/// `DiagonalForward(c)` across the line `y = x + c`, and
/// `DiagonalBackward(c)` across the line `y = -x + c`.
#[derive(Clone, Copy, PartialEq, Eq, Structural, Debug)]
pub enum SymmetryMode {
    Off,
    Vertical(usize),
    DiagonalForward(i64),
    Horizontal(usize),
    DiagonalBackward(i64),
}

/// How the lighter/darker tools pick a palette color when snapping.
#[derive(Clone, Copy, PartialEq, Eq, Structural, Debug)]
pub enum SnapToPaletteMode {
    ClosestRgb,
    ClosestHue,
}

/// The notice an operation leaves behind for the user interface to show.
#[derive(Clone, Copy, PartialEq, Eq, Structural, Debug)]
pub enum StatusMsg {
    LayerAdded,
    LayerDeleted,
    CannotDeleteOnlyLayer,
    CannotMergeBottomLayer,
    LayerMerged,
    ActiveLayerCleared,
    DidUndo,
    NothingToUndo,
    DidRedo,
    NothingToRedo,
    SelectColorToFill,
    SelectColorToSpray,
    CannotPickTransparentPixel,
    ColorPicked,
    PenSizeChanged,
    OpacityChanged,
    PaletteGenerated,
    ImageHasNoColors,
    ColorsAddedToPalette(usize),
}

/// A whole grid is well formed when it has one pixel per canvas cell and
/// every alpha is in range.
pub open spec fn grid_wf(g: Seq<Pixel>, w: int, h: int) -> bool {
    &&& g.len() == w * h
    &&& forall|i: int| 0 <= i < g.len() ==> (#[trigger] g[i]).wf()
}

/// The row-major index of cell `(x, y)` on a canvas `w` cells wide.
pub open spec fn cell_index(w: int, x: int, y: int) -> int {
    y * w + x
}

/// One drawing session: the layer stack, the composited canvas derived from
/// it, the undo/redo history of the active layer, and the tool state.
pub struct Session {
    pub width: usize,
    pub height: usize,
    pub layers: Vec<Layer>,
    pub active_layer_index: usize,
    pub canvas: Vec<Pixel>,
    pub undo_stack: VecDeque<Vec<Pixel>>,
    pub redo_stack: VecDeque<Vec<Pixel>>,
    pub cursor_x: usize,
    pub cursor_y: usize,
    pub current_selection: PaletteEntry,
    pub color_palette: Vec<PaletteEntry>,
    pub palette_index: usize,
    pub tool_palette: Vec<PaletteEntry>,
    pub tool_index: usize,
    pub symmetry_mode: SymmetryMode,
    pub pen_size: u16,
    pub pen_shape: PenShape,
    pub pen_size_sensitivity: u16,
    pub opacity: u32,
    pub opacity_sensitivity: u32,
    pub shade_factor: u32,
    pub protect_stroke: bool,
    pub stroke_cells: Vec<(usize, usize)>,
    pub snap_to_palette: bool,
    pub snap_to_palette_mode: SnapToPaletteMode,
    pub protect_color_transitions: bool,
    pub spray_size: u16,
    pub spray_speed: u16,
    pub spray_intensity: u32,
    pub status: Option<StatusMsg>,
}

/// The history stacks as mathematical sequences of grids.
pub open spec fn stack_view(s: VecDeque<Vec<Pixel>>) -> Seq<Seq<Pixel>> {
    Seq::new(s@.len(), |i: int| s@[i]@)
}

impl Session {
    pub open spec fn active(self) -> int {
        self.active_layer_index as int
    }

    /// The grid of the layer tools draw on.
    pub open spec fn active_grid(self) -> Seq<Pixel> {
        self.layers@[self.active()].grid@
    }

    /// The composited canvas is exactly the bottom-to-top blend of the
    /// current layer stack.
    pub open spec fn synced(self) -> bool {
        forall|i: int|
            0 <= i < self.canvas@.len() ==> self.canvas@[i] == composite_cell_spec(self.layers@, i)
    }

    pub open spec fn wf(self) -> bool {
        &&& 1 <= self.width <= 65535
        &&& 1 <= self.height <= 65535
        &&& self.width * self.height <= usize::MAX
        &&& self.layers@.len() >= 1
        &&& self.active_layer_index < self.layers@.len()
        &&& forall|li: int|
            0 <= li < self.layers@.len() ==> (#[trigger] self.layers@[li]).wf(
                self.width as int,
                self.height as int,
            )
        &&& self.canvas@.len() == self.width * self.height
        &&& forall|i: int| 0 <= i < self.canvas@.len() ==> (#[trigger] self.canvas@[i]).wf()
        &&& self.synced()
        &&& self.cursor_x < self.width
        &&& self.cursor_y < self.height
        &&& valid_alpha(self.opacity)
        &&& valid_alpha(self.opacity_sensitivity)
        &&& valid_alpha(self.shade_factor)
        &&& valid_alpha(self.spray_intensity)
        &&& stack_view(self.undo_stack).len() + stack_view(self.redo_stack).len() <= 100
        &&& forall|k: int|
            0 <= k < stack_view(self.undo_stack).len() ==> grid_wf(
                #[trigger] stack_view(self.undo_stack)[k],
                self.width as int,
                self.height as int,
            )
        &&& forall|k: int|
            0 <= k < stack_view(self.redo_stack).len() ==> grid_wf(
                #[trigger] stack_view(self.redo_stack)[k],
                self.width as int,
                self.height as int,
            )
        &&& self.pen_size >= 1
    }

    /// A fresh session: one blank visible layer, a transparent canvas, the
    /// default palettes and tool parameters, and empty histories.
    pub fn with_size(width: usize, height: usize) -> (s: Session)
        requires
            1 <= width <= 65535,
            1 <= height <= 65535,
        ensures
            s.wf(),
            s.width == width,
            s.height == height,
            s.layers@.len() == 1,
            s.active_layer_index == 0,
            forall|i: int|
                0 <= i < s.active_grid().len() ==> s.active_grid()[i]
                    == Pixel::transparent_spec(),
            stack_view(s.undo_stack).len() == 0,
            stack_view(s.redo_stack).len() == 0,
            s.opacity == 1000,
            s.pen_size == 1,
            s.symmetry_mode == SymmetryMode::Off,
            s.status is None,
    {
        proof {
            assert(width * height <= 65535 * 65535) by (nonlinear_arith)
                requires
                    1 <= width <= 65535,
                    1 <= height <= 65535,
            ;
            assert(width * height <= usize::MAX);
        }
        let base = Layer::new_blank("Layer 1".to_string(), width, height);
        let mut layers: Vec<Layer> = Vec::new();
        layers.push(base);
        let canvas = composite_layers(&layers, width, height);
        Session {
            width,
            height,
            layers,
            active_layer_index: 0,
            canvas,
            undo_stack: VecDeque::new(),
            redo_stack: VecDeque::new(),
            cursor_x: 0,
            cursor_y: 0,
            current_selection: PaletteEntry::Color(Rgb { r: 255, g: 255, b: 255 }),
            color_palette: get_default_color_palette(),
            palette_index: 0,
            tool_palette: get_default_tool_palette(),
            tool_index: 0,
            symmetry_mode: SymmetryMode::Off,
            pen_size: 1,
            pen_shape: PenShape::Circular,
            pen_size_sensitivity: 1,
            opacity: 1000,
            opacity_sensitivity: 50,
            shade_factor: 30,
            protect_stroke: true,
            stroke_cells: Vec::new(),
            snap_to_palette: false,
            snap_to_palette_mode: SnapToPaletteMode::ClosestHue,
            protect_color_transitions: false,
            spray_size: 5,
            spray_speed: 3,
            spray_intensity: 100,
            status: None,
        }
    }

    /// The default session size.
    pub fn new() -> (s: Session)
        ensures
            s.wf(),
            s.width == 30,
            s.height == 30,
    {
        Session::with_size(30, 30)
    }

    /// A borrowed view of the active layer's grid.
    pub fn get_active_canvas(&self) -> (g: &Vec<Pixel>)
        requires
            self.wf(),
        ensures
            g@ == self.active_grid(),
    {
        &self.layers[self.active_layer_index].grid
    }

    /// Recompute the composited canvas from the layer stack.
    pub fn sync_canvas_from_layers(&mut self)
        requires
            old(self).width * old(self).height <= usize::MAX,
            forall|li: int|
                0 <= li < old(self).layers@.len() ==> (#[trigger] old(self).layers@[li]).wf(
                    old(self).width as int,
                    old(self).height as int,
                ),
        ensures
            *final(self) == (Session { canvas: final(self).canvas, ..*old(self) }),
            final(self).canvas@.len() == final(self).width * final(self).height,
            final(self).synced(),
            forall|i: int| 0 <= i < final(self).canvas@.len() ==> (#[trigger] final(self).canvas@[i]).wf(),
    {
        self.canvas = composite_layers(&self.layers, self.width, self.height);
    }

    /// True when `(x, y)` was already touched during the current stroke.
    pub fn stroke_contains(&self, x: usize, y: usize) -> (r: bool)
        ensures
            r == self.stroke_cells@.contains((x, y)),
    {
        let mut k: usize = 0;
        while k < self.stroke_cells.len()
            invariant
                k <= self.stroke_cells@.len(),
                forall|j: int| 0 <= j < k ==> self.stroke_cells@[j] != (x, y),
            decreases self.stroke_cells@.len() - k,
        {
            let c = self.stroke_cells[k];
            if c.0 == x && c.1 == y {
                assert(self.stroke_cells@[k as int] == (x, y));
                return true;
            }
            k += 1;
        }
        false
    }

    /// Begin a stroke: forget which cells the previous stroke touched.
    pub fn begin_stroke(&mut self)
        requires
            old(self).wf(),
        ensures
            final(self).wf(),
            *final(self) == (Session { stroke_cells: final(self).stroke_cells, ..*old(self) }),
            final(self).stroke_cells@.len() == 0,
    {
        self.stroke_cells = Vec::new();
    }

    /// End a stroke: duplicate-pixel protection resets for the next one.
    pub fn end_stroke(&mut self)
        requires
            old(self).wf(),
        ensures
            final(self).wf(),
            *final(self) == (Session { stroke_cells: final(self).stroke_cells, ..*old(self) }),
            final(self).stroke_cells@.len() == 0,
    {
        self.stroke_cells = Vec::new();
    }

    /// Move the cursor by a delta, clamped to the canvas.
    pub fn move_cursor(&mut self, dx: i32, dy: i32)
        requires
            old(self).wf(),
            -1000000 <= dx <= 1000000,
            -1000000 <= dy <= 1000000,
        ensures
            final(self).wf(),
            *final(self) == (Session { cursor_x: final(self).cursor_x, cursor_y: final(self).cursor_y, ..*old(self) }),
            final(self).cursor_x as int == clamp_spec(
                old(self).cursor_x + dx,
                0,
                old(self).width - 1,
            ),
            final(self).cursor_y as int == clamp_spec(
                old(self).cursor_y + dy,
                0,
                old(self).height - 1,
            ),
    {
        let nx: i64 = self.cursor_x as i64 + dx as i64;
        let ny: i64 = self.cursor_y as i64 + dy as i64;
        self.cursor_x = clamp_to_usize(nx, self.width - 1);
        self.cursor_y = clamp_to_usize(ny, self.height - 1);
    }

    /// Grow or shrink the pen by the configured sensitivity, never below 1.
    pub fn change_pen_size(&mut self, delta: i32)
        requires
            old(self).wf(),
            -100 <= delta <= 100,
            old(self).pen_size_sensitivity <= 100,
        ensures
            final(self).wf(),
            *final(self) == (Session { pen_size: final(self).pen_size, status: final(self).status, ..*old(self) }),
            final(self).pen_size as int == clamp_spec(
                old(self).pen_size + old(self).pen_size_sensitivity * delta,
                1,
                u16::MAX as int,
            ),
            final(self).status == Some(StatusMsg::PenSizeChanged),
    {
        proof {
            assert(-10000 <= self.pen_size_sensitivity as int * delta as int <= 10000)
                by (nonlinear_arith)
                requires
                    self.pen_size_sensitivity <= 100,
                    -100 <= delta <= 100,
            ;
        }
        let change: i64 = self.pen_size_sensitivity as i64 * delta as i64;
        let raw: i64 = self.pen_size as i64 + change;
        let clamped: u16 = if raw < 1 {
            1u16
        } else if raw > u16::MAX as i64 {
            u16::MAX
        } else {
            raw as u16
        };
        self.pen_size = clamped;
        self.status = Some(StatusMsg::PenSizeChanged);
    }

    /// Raise or lower the paint opacity by the configured sensitivity,
    /// clamped to [0, 1000].
    pub fn change_opacity(&mut self, direction: i32)
        requires
            old(self).wf(),
            direction == 1 || direction == -1i32,
        ensures
            final(self).wf(),
            *final(self) == (Session { opacity: final(self).opacity, status: final(self).status, ..*old(self) }),
            final(self).opacity as int == clamp_spec(
                old(self).opacity + old(self).opacity_sensitivity * direction,
                0,
                1000,
            ),
            final(self).status == Some(StatusMsg::OpacityChanged),
    {
        let change: i64 = self.opacity_sensitivity as i64 * direction as i64;
        let raw: i64 = self.opacity as i64 + change;
        let clamped: u32 = if raw < 0 {
            0u32
        } else if raw > 1000 {
            1000u32
        } else {
            raw as u32
        };
        self.opacity = clamped;
        self.status = Some(StatusMsg::OpacityChanged);
    }

    /// Step the symmetry mode through its cycle: off, vertical, forward
    /// diagonal, horizontal, backward diagonal, and back to off, each axis
    /// seeded at the canvas center.
    pub fn cycle_symmetry_mode(&mut self)
        requires
            old(self).wf(),
        ensures
            final(self).wf(),
            *final(self) == (Session { symmetry_mode: final(self).symmetry_mode, ..*old(self) }),
            final(self).symmetry_mode == cycle_symmetry_spec(
                old(self).symmetry_mode,
                old(self).width as int,
                old(self).height as int,
            ),
    {
        let cx: i64 = (self.width / 2) as i64;
        let cy: i64 = (self.height / 2) as i64;
        self.symmetry_mode = match self.symmetry_mode {
            SymmetryMode::Off => SymmetryMode::Vertical(self.width / 2),
            SymmetryMode::Vertical(_) => SymmetryMode::DiagonalForward(cy - cx),
            SymmetryMode::DiagonalForward(_) => SymmetryMode::Horizontal(self.height / 2),
            SymmetryMode::Horizontal(_) => SymmetryMode::DiagonalBackward(cy + cx),
            SymmetryMode::DiagonalBackward(_) => SymmetryMode::Off,
        };
    }

    /// Make the palette entry under the palette index the current selection.
    pub fn select_color_entry(&mut self)
        requires
            old(self).wf(),
            old(self).palette_index < old(self).color_palette@.len(),
        ensures
            final(self).wf(),
            *final(self) == (Session {
                current_selection: final(self).current_selection,
                status: final(self).status,
                ..*old(self)
            }),
            final(self).current_selection == old(self).color_palette@[old(self).palette_index as int],
            final(self).status is None,
    {
        self.current_selection = self.color_palette[self.palette_index];
        self.status = None;
    }

    /// Make the tool under the tool index the current selection.
    pub fn select_tool_entry(&mut self)
        requires
            old(self).wf(),
            old(self).tool_index < old(self).tool_palette@.len(),
        ensures
            final(self).wf(),
            *final(self) == (Session {
                current_selection: final(self).current_selection,
                status: final(self).status,
                ..*old(self)
            }),
            final(self).current_selection == old(self).tool_palette@[old(self).tool_index as int],
            final(self).status is None,
    {
        self.current_selection = self.tool_palette[self.tool_index];
        self.status = None;
    }

    /// Move the tool selection by a delta, clamped to the tool palette.
    pub fn change_tool_selection(&mut self, delta: i32)
        requires
            old(self).wf(),
            old(self).tool_palette@.len() >= 1,
            old(self).tool_palette@.len() <= 1000,
            old(self).tool_index < old(self).tool_palette@.len(),
            -1000 <= delta <= 1000,
        ensures
            final(self).wf(),
            *final(self) == (Session { tool_index: final(self).tool_index, ..*old(self) }),
            final(self).tool_index as int == clamp_spec(
                old(self).tool_index + delta,
                0,
                old(self).tool_palette@.len() - 1,
            ),
    {
        let raw: i64 = self.tool_index as i64 + delta as i64;
        let hi: usize = self.tool_palette.len() - 1;
        self.tool_index = clamp_to_usize(raw, hi);
    }

    /// Take the color under the cursor as the current selection, appending
    /// it to the palette when it is not there yet. Picking from an empty
    /// cell is rejected with a notice.
    pub fn pick_color_at_cursor(&mut self)
        requires
            old(self).wf(),
        ensures
            final(self).wf(),
            ({
                let px = old(self).canvas@[cell_index(
                    old(self).width as int,
                    old(self).cursor_x as int,
                    old(self).cursor_y as int,
                )];
                if px.alpha == 0 {
                    *final(self) == (Session { status: final(self).status, ..*old(self) }) && final(self).status
                        == Some(StatusMsg::CannotPickTransparentPixel)
                } else {
                    &&& final(self).current_selection == PaletteEntry::Color(px.color)
                    &&& final(self).status == Some(StatusMsg::ColorPicked)
                    &&& final(self).color_palette@.contains(PaletteEntry::Color(px.color))
                    &&& *final(self) == (Session {
                        current_selection: final(self).current_selection,
                        color_palette: final(self).color_palette,
                        palette_index: final(self).palette_index,
                        status: final(self).status,
                        ..*old(self)
                    })
                }
            }),
    {
        proof {
            lemma_cell_index_bounds(
                self.width as int,
                self.height as int,
                self.cursor_x as int,
                self.cursor_y as int,
            );
        }
        let idx: usize = self.cursor_y * self.width + self.cursor_x;
        let px = self.canvas[idx];
        if px.alpha == 0 {
            self.status = Some(StatusMsg::CannotPickTransparentPixel);
            return ;
        }
        let picked = PaletteEntry::Color(px.color);
        match find_palette_entry(&self.color_palette, picked) {
            Some(k) => {
                self.palette_index = k;
            },
            None => {
                self.color_palette.push(picked);
                self.palette_index = self.color_palette.len() - 1;
                assert(self.color_palette@.last() == picked);
            },
        }
        self.current_selection = picked;
        self.status = Some(StatusMsg::ColorPicked);
    }
}

/// Does the palette already hold exactly this color?
pub open spec fn palette_has_color(palette: Seq<PaletteEntry>, c: Rgb) -> bool {
    exists|k: int| 0 <= k < palette.len() && palette[k] == PaletteEntry::Color(c)
}

/// The palette after the given entries are merged in: each color entry is
/// appended unless an identical color is already present; tool entries are
/// ignored.
pub open spec fn add_unique_fold(palette: Seq<PaletteEntry>, entries: Seq<PaletteEntry>) -> Seq<
    PaletteEntry,
>
    decreases entries.len(),
{
    if entries.len() == 0 {
        palette
    } else {
        let p2 = match entries[0] {
            PaletteEntry::Color(c) => if palette_has_color(palette, c) {
                palette
            } else {
                palette.push(PaletteEntry::Color(c))
            },
            PaletteEntry::Tool(_) => palette,
        };
        add_unique_fold(p2, entries.skip(1))
    }
}

impl Session {
    /// Merge entries into the color palette with exact-duplicate
    /// suppression: a color is appended only when no identical color is
    /// already there.
    pub fn add_palette_entries_uniquely(&mut self, entries_to_add: &Vec<PaletteEntry>)
        requires
            old(self).wf(),
        ensures
            final(self).wf(),
            *final(self) == (Session {
                color_palette: final(self).color_palette,
                status: final(self).status,
                ..*old(self)
            }),
            final(self).color_palette@ == add_unique_fold(
                old(self).color_palette@,
                entries_to_add@,
            ),
            final(self).color_palette@.len() >= old(self).color_palette@.len(),
            final(self).status == Some(
                StatusMsg::ColorsAddedToPalette(
                    (final(self).color_palette@.len() - old(self).color_palette@.len()) as usize,
                ),
            ),
    {
        let before = self.color_palette.len();
        let mut i: usize = 0;
        proof {
            assert(entries_to_add@.skip(0) =~= entries_to_add@);
        }
        while i < entries_to_add.len()
            invariant
                i <= entries_to_add@.len(),
                *self == (Session { color_palette: self.color_palette, ..*old(self) }),
                before == old(self).color_palette@.len(),
                self.color_palette@.len() >= before,
                add_unique_fold(self.color_palette@, entries_to_add@.skip(i as int))
                    == add_unique_fold(old(self).color_palette@, entries_to_add@),
            decreases entries_to_add@.len() - i,
        {
            let ghost pre = self.color_palette@;
            proof {
                assert(entries_to_add@.skip(i as int)[0] == entries_to_add@[i as int]);
                assert(entries_to_add@.skip(i as int).skip(1) =~= entries_to_add@.skip(i + 1));
            }
            match entries_to_add[i] {
                PaletteEntry::Color(c) => {
                    match find_palette_entry(&self.color_palette, PaletteEntry::Color(c)) {
                        Some(_) => {
                            proof {
                                assert(palette_has_color(pre, c));
                            }
                        },
                        None => {
                            proof {
                                assert(!palette_has_color(pre, c));
                            }
                            self.color_palette.push(PaletteEntry::Color(c));
                        },
                    }
                },
                PaletteEntry::Tool(_) => {},
            }
            i += 1;
        }
        proof {
            assert(entries_to_add@.skip(entries_to_add@.len() as int).len() == 0);
        }
        let added = self.color_palette.len() - before;
        self.status = Some(StatusMsg::ColorsAddedToPalette(added));
    }

    /// Install a palette extracted from an image: merge it into the color
    /// palette when `add_to_current` is set, else replace the palette
    /// outright and reset the selection; no palette at all (an image with
    /// no pixels) is reported with a notice and changes nothing else.
    pub fn install_generated_palette(&mut self, generated: &Option<Vec<Rgb>>, add_to_current: bool)
        requires
            old(self).wf(),
        ensures
            final(self).wf(),
            match generated {
                None => {
                    &&& *final(self) == (Session { status: final(self).status, ..*old(self) })
                    &&& final(self).status == Some(StatusMsg::ImageHasNoColors)
                },
                Some(palette) => {
                    &&& *final(self) == (Session {
                        color_palette: final(self).color_palette,
                        palette_index: final(self).palette_index,
                        status: final(self).status,
                        ..*old(self)
                    })
                    &&& if add_to_current {
                        final(self).color_palette@ == add_unique_fold(
                            old(self).color_palette@,
                            Seq::new(palette@.len(), |i: int| PaletteEntry::Color(palette@[i])),
                        ) && final(self).palette_index == old(self).palette_index && (
                        final(self).status matches Some(StatusMsg::ColorsAddedToPalette(_)))
                    } else {
                        final(self).color_palette@ == Seq::new(
                            palette@.len(),
                            |i: int| PaletteEntry::Color(palette@[i]),
                        ) && final(self).palette_index == 0 && final(self).status == Some(
                            StatusMsg::PaletteGenerated,
                        )
                    }
                },
            },
    {
        let palette = match generated {
            None => {
                self.status = Some(StatusMsg::ImageHasNoColors);
                return ;
            },
            Some(p) => p,
        };
        let mut entries: Vec<PaletteEntry> = Vec::new();
        let mut i: usize = 0;
        while i < palette.len()
            invariant
                i <= palette@.len(),
                entries@.len() == i,
                forall|j: int| 0 <= j < i ==> entries@[j] == PaletteEntry::Color(palette@[j]),
            decreases palette@.len() - i,
        {
            entries.push(PaletteEntry::Color(palette[i]));
            i += 1;
        }
        proof {
            assert(entries@ =~= Seq::new(
                palette@.len(),
                |i: int| PaletteEntry::Color(palette@[i]),
            ));
        }
        if add_to_current {
            self.add_palette_entries_uniquely(&entries);
        } else {
            self.color_palette = entries;
            self.palette_index = 0;
            self.status = Some(StatusMsg::PaletteGenerated);
        }
    }
}

/// The first palette slot holding exactly `e`, if any.
pub fn find_palette_entry(palette: &Vec<PaletteEntry>, e: PaletteEntry) -> (r: Option<usize>)
    ensures
        match r {
            Some(k) => k < palette@.len() && palette@[k as int] == e && forall|j: int|
                0 <= j < k ==> palette@[j] != e,
            None => forall|j: int| 0 <= j < palette@.len() ==> palette@[j] != e,
        },
{
    let mut k: usize = 0;
    while k < palette.len()
        invariant
            k <= palette@.len(),
            forall|j: int| 0 <= j < k ==> palette@[j] != e,
        decreases palette@.len() - k,
    {
        let cur = palette[k];
        if palette_entry_eq(&cur, &e) {
            return Some(k);
        }
        k += 1;
    }
    None
}

/// Structural equality of palette entries, decided in code.
pub fn palette_entry_eq(a: &PaletteEntry, b: &PaletteEntry) -> (r: bool)
    ensures
        r == (a == b),
{
    match (a, b) {
        (PaletteEntry::Color(c1), PaletteEntry::Color(c2)) => {
            c1.r == c2.r && c1.g == c2.g && c1.b == c2.b
        },
        (PaletteEntry::Tool(t1), PaletteEntry::Tool(t2)) => {
            match (t1, t2) {
                (Tool::Lighter, Tool::Lighter) => true,
                (Tool::Darker, Tool::Darker) => true,
                (Tool::Blur, Tool::Blur) => true,
                _ => false,
            }
        },
        _ => false,
    }
}

/// `v` forced into `[lo, hi]`.
pub open spec fn clamp_spec(v: int, lo: int, hi: int) -> int {
    if v < lo {
        lo
    } else if v > hi {
        hi
    } else {
        v
    }
}

/// The next symmetry mode in the cycle, axes seeded at the canvas center.
pub open spec fn cycle_symmetry_spec(m: SymmetryMode, w: int, h: int) -> SymmetryMode {
    match m {
        SymmetryMode::Off => SymmetryMode::Vertical((w / 2) as usize),
        SymmetryMode::Vertical(_) => SymmetryMode::DiagonalForward((h / 2 - w / 2) as i64),
        SymmetryMode::DiagonalForward(_) => SymmetryMode::Horizontal((h / 2) as usize),
        SymmetryMode::Horizontal(_) => SymmetryMode::DiagonalBackward((h / 2 + w / 2) as i64),
        SymmetryMode::DiagonalBackward(_) => SymmetryMode::Off,
    }
}

fn clamp_to_usize(v: i64, hi: usize) -> (r: usize)
    requires
        hi <= 0x7fff_ffff_ffff_ffff,
    ensures
        r as int == clamp_spec(v as int, 0, hi as int),
{
    if v < 0 {
        0
    } else if v > hi as i64 {
        hi
    } else {
        v as usize
    }
}

/// A cell inside the canvas has its row-major index inside the grid.
pub proof fn lemma_cell_index_bounds(w: int, h: int, x: int, y: int)
    requires
        0 <= x < w,
        0 <= y < h,
    ensures
        0 <= cell_index(w, x, y) < w * h,
{
    assert(y * w + x < w * h) by (nonlinear_arith)
        requires
            0 <= x < w,
            0 <= y < h,
    ;
    assert(0 <= y * w + x) by (nonlinear_arith)
        requires
            0 <= x,
            0 <= y,
            0 < w,
    ;
}

} // verus!
