use vstd::prelude::*;

use crate::compose::{blend_layer_pixel, blend_layer_pixel_spec, Layer};
use crate::history::{clone_grid, pushed_snapshot};
use crate::pixel::Pixel;
use crate::session::{clamp_spec, stack_view, Session, StatusMsg};

verus! {

impl Session {
    /// Insert a fresh blank layer at the bottom of the stack and make it
    /// the active layer.
    pub fn add_new_layer(&mut self)
        requires
            old(self).wf(),
        ensures
            final(self).wf(),
            *final(self) == (Session {
                layers: final(self).layers,
                active_layer_index: final(self).active_layer_index,
                canvas: final(self).canvas,
                status: final(self).status,
                ..*old(self)
            }),
            final(self).layers@.len() == old(self).layers@.len() + 1,
            forall|li: int|
                0 <= li < old(self).layers@.len() ==> final(self).layers@[li + 1] == old(
                    self,
                ).layers@[li],
            final(self).active_layer_index == 0,
            final(self).layers@[0].visible,
            final(self).layers@[0].opacity == 1000,
            forall|i: int|
                0 <= i < final(self).active_grid().len() ==> final(self).active_grid()[i]
                    == Pixel::transparent_spec(),
            final(self).status == Some(StatusMsg::LayerAdded),
            final(self).synced(),
    {
        let fresh = Layer::new_blank("Layer".to_string(), self.width, self.height);
        self.layers.insert(0, fresh);
        self.active_layer_index = 0;
        self.sync_canvas_from_layers();
        self.status = Some(StatusMsg::LayerAdded);
    }

    /// Remove the active layer. Deleting the only remaining layer is
    /// rejected with a notice and changes nothing else; otherwise the layer
    /// leaves the stack and the active index is clamped to the new top.
    pub fn delete_active_layer(&mut self)
        requires
            old(self).wf(),
        ensures
            final(self).wf(),
            final(self).layers@.len() as int == if old(self).layers@.len() <= 1 {
                old(self).layers@.len() as int
            } else {
                old(self).layers@.len() - 1
            },
            if old(self).layers@.len() <= 1 {
                &&& *final(self) == (Session { status: final(self).status, ..*old(self) })
                &&& final(self).status == Some(StatusMsg::CannotDeleteOnlyLayer)
            } else {
                &&& *final(self) == (Session {
                    layers: final(self).layers,
                    active_layer_index: final(self).active_layer_index,
                    canvas: final(self).canvas,
                    status: final(self).status,
                    ..*old(self)
                })
                &&& final(self).layers@ == old(self).layers@.remove(old(self).active())
                &&& final(self).active_layer_index as int == clamp_spec(
                    old(self).active(),
                    0,
                    old(self).layers@.len() - 2,
                )
                &&& final(self).status == Some(StatusMsg::LayerDeleted)
                &&& final(self).synced()
            },
    {
        if self.layers.len() <= 1 {
            self.status = Some(StatusMsg::CannotDeleteOnlyLayer);
            return ;
        }
        let removed = self.layers.remove(self.active_layer_index);
        if self.active_layer_index >= self.layers.len() {
            self.active_layer_index = self.layers.len() - 1;
        }
        self.sync_canvas_from_layers();
        self.status = Some(StatusMsg::LayerDeleted);
    }

    /// Flip the active layer's visibility.
    pub fn toggle_layer_visibility(&mut self)
        requires
            old(self).wf(),
        ensures
            final(self).wf(),
            *final(self) == (Session {
                layers: final(self).layers,
                canvas: final(self).canvas,
                ..*old(self)
            }),
            final(self).layers@ == old(self).layers@.update(
                old(self).active(),
                (Layer {
                    visible: !old(self).layers@[old(self).active()].visible,
                    ..old(self).layers@[old(self).active()]
                }),
            ),
            final(self).synced(),
    {
        let vis = self.layers[self.active_layer_index].visible;
        self.layers[self.active_layer_index].visible = !vis;
        self.sync_canvas_from_layers();
    }

    /// Raise the active layer one step toward the top of the stack (the
    /// viewer); a no-op at the top.
    pub fn move_layer_up(&mut self)
        requires
            old(self).wf(),
        ensures
            final(self).wf(),
            *final(self) == (Session {
                layers: final(self).layers,
                active_layer_index: final(self).active_layer_index,
                canvas: final(self).canvas,
                ..*old(self)
            }),
            if old(self).active() + 1 >= old(self).layers@.len() {
                *final(self) == *old(self)
            } else {
                &&& final(self).layers@ == old(self).layers@.update(
                    old(self).active(),
                    old(self).layers@[old(self).active() + 1],
                ).update(old(self).active() + 1, old(self).layers@[old(self).active()])
                &&& final(self).active() == old(self).active() + 1
                &&& final(self).synced()
            },
    {
        if self.active_layer_index < self.layers.len() - 1 {
            let a = self.active_layer_index;
            let moved = self.layers.remove(a);
            self.layers.insert(a + 1, moved);
            proof {
                assert(self.layers@ =~= old(self).layers@.update(
                    old(self).active(),
                    old(self).layers@[old(self).active() + 1],
                ).update(old(self).active() + 1, old(self).layers@[old(self).active()]));
            }
            self.active_layer_index = a + 1;
            self.sync_canvas_from_layers();
        }
    }

    /// Lower the active layer one step toward the bottom of the stack; a
    /// no-op at the bottom.
    pub fn move_layer_down(&mut self)
        requires
            old(self).wf(),
        ensures
            final(self).wf(),
            *final(self) == (Session {
                layers: final(self).layers,
                active_layer_index: final(self).active_layer_index,
                canvas: final(self).canvas,
                ..*old(self)
            }),
            if old(self).active_layer_index == 0 {
                *final(self) == *old(self)
            } else {
                &&& final(self).layers@ == old(self).layers@.update(
                    old(self).active(),
                    old(self).layers@[old(self).active() - 1],
                ).update(old(self).active() - 1, old(self).layers@[old(self).active()])
                &&& final(self).active() == old(self).active() - 1
                &&& final(self).synced()
            },
    {
        if self.active_layer_index > 0 {
            let a = self.active_layer_index;
            let moved = self.layers.remove(a);
            self.layers.insert(a - 1, moved);
            proof {
                assert(self.layers@ =~= old(self).layers@.update(
                    old(self).active(),
                    old(self).layers@[old(self).active() - 1],
                ).update(old(self).active() - 1, old(self).layers@[old(self).active()]));
            }
            self.active_layer_index = a - 1;
            self.sync_canvas_from_layers();
        }
    }

    /// Move the active layer selection by a delta, clamped to the stack.
    pub fn change_layer_selection(&mut self, delta: i32)
        requires
            old(self).wf(),
            -1000 <= delta <= 1000,
            old(self).layers@.len() <= 100000,
        ensures
            final(self).wf(),
            *final(self) == (Session {
                active_layer_index: final(self).active_layer_index,
                canvas: final(self).canvas,
                ..*old(self)
            }),
            final(self).active() == clamp_spec(
                old(self).active() + delta,
                0,
                old(self).layers@.len() - 1,
            ),
            final(self).synced(),
    {
        let raw: i64 = self.active_layer_index as i64 + delta as i64;
        let hi: usize = self.layers.len() - 1;
        let clamped: usize = if raw < 0 {
            0
        } else if raw > hi as i64 {
            hi
        } else {
            raw as usize
        };
        self.active_layer_index = clamped;
        self.sync_canvas_from_layers();
    }

    /// Blend the active layer into the layer below it with the same "over"
    /// operator the compositor uses, then drop the active layer. Merging
    /// the bottom layer is rejected with a notice.
    pub fn merge_active_layer_down(&mut self)
        requires
            old(self).wf(),
        ensures
            final(self).wf(),
            if old(self).active_layer_index == 0 {
                &&& *final(self) == (Session { status: final(self).status, ..*old(self) })
                &&& final(self).status == Some(StatusMsg::CannotMergeBottomLayer)
            } else {
                let a = old(self).active();
                let below = old(self).layers@[a - 1];
                let src = old(self).layers@[a];
                let merged = Layer {
                    grid: final(self).layers@[a - 1].grid,
                    ..below
                };
                &&& *final(self) == (Session {
                    layers: final(self).layers,
                    active_layer_index: final(self).active_layer_index,
                    canvas: final(self).canvas,
                    status: final(self).status,
                    ..*old(self)
                })
                &&& final(self).layers@ == old(self).layers@.update(a - 1, merged).remove(a)
                &&& final(self).layers@[a - 1].grid@.len() == below.grid@.len()
                &&& forall|i: int|
                    0 <= i < below.grid@.len() ==> final(self).layers@[a - 1].grid@[i]
                        == blend_layer_pixel_spec(below.grid@[i], src.grid@[i], src.opacity as int)
                &&& final(self).active() == a - 1
                &&& final(self).status == Some(StatusMsg::LayerMerged)
                &&& final(self).synced()
            },
    {
        if self.active_layer_index == 0 {
            self.status = Some(StatusMsg::CannotMergeBottomLayer);
            return ;
        }
        let a = self.active_layer_index;
        let src_grid = clone_grid(&self.layers[a].grid);
        let src_opacity = self.layers[a].opacity;
        let n = src_grid.len();
        let mut i: usize = 0;
        while i < n
            invariant
                old(self).wf(),
                self.layers@.len() == old(self).layers@.len(),
                1 <= a < old(self).layers@.len(),
                a == old(self).active_layer_index,
                n == old(self).layers@[a as int].grid@.len(),
                n == old(self).width * old(self).height,
                src_grid@ == old(self).layers@[a as int].grid@,
                src_opacity == old(self).layers@[a as int].opacity,
                i <= n,
                *self == (Session { layers: self.layers, ..*old(self) }),
                self.layers@ == old(self).layers@.update(
                    a - 1,
                    (Layer { grid: self.layers@[a - 1].grid, ..old(self).layers@[a - 1] }),
                ),
                self.layers@[a - 1].grid@.len() == n,
                forall|j: int|
                    0 <= j < i ==> self.layers@[a - 1].grid@[j] == blend_layer_pixel_spec(
                        old(self).layers@[a - 1].grid@[j],
                        old(self).layers@[a as int].grid@[j],
                        old(self).layers@[a as int].opacity as int,
                    ),
                forall|j: int|
                    i <= j < n ==> (#[trigger] self.layers@[a - 1].grid@[j]) == old(
                        self,
                    ).layers@[a - 1].grid@[j],
                forall|j: int|
                    0 <= j < n ==> (#[trigger] self.layers@[a - 1].grid@[j]).wf(),
            decreases n - i,
        {
            let dest = self.layers[a - 1].grid[i];
            let blended = blend_layer_pixel(dest, src_grid[i], src_opacity);
            self.layers[a - 1].grid[i] = blended;
            proof {
                assert(self.layers@ =~= old(self).layers@.update(
                    a - 1,
                    (Layer { grid: self.layers@[a - 1].grid, ..old(self).layers@[a - 1] }),
                ));
            }
            i += 1;
        }
        let removed = self.layers.remove(a);
        self.active_layer_index = a - 1;
        proof {
            assert(self.layers@ =~= old(self).layers@.update(
                a - 1,
                (Layer { grid: self.layers@[a - 1].grid, ..old(self).layers@[a - 1] }),
            ).remove(a as int));
        }
        self.sync_canvas_from_layers();
        self.status = Some(StatusMsg::LayerMerged);
    }

    /// Reallocate every layer's grid (and the canvas) to the new size,
    /// discarding prior content, clamping the size into [1, 65535] per
    /// axis, moving the cursor back in bounds, and clearing the histories.
    pub fn resize_canvas(&mut self, new_width: usize, new_height: usize)
        requires
            old(self).wf(),
        ensures
            final(self).wf(),
            *final(self) == (Session {
                width: final(self).width,
                height: final(self).height,
                layers: final(self).layers,
                canvas: final(self).canvas,
                cursor_x: final(self).cursor_x,
                cursor_y: final(self).cursor_y,
                undo_stack: final(self).undo_stack,
                redo_stack: final(self).redo_stack,
                ..*old(self)
            }),
            final(self).width as int == clamp_spec(new_width as int, 1, 65535),
            final(self).height as int == clamp_spec(new_height as int, 1, 65535),
            final(self).layers@.len() == old(self).layers@.len(),
            forall|li: int|
                0 <= li < final(self).layers@.len() ==> #[trigger] final(self).layers@[li]
                    == (Layer { grid: final(self).layers@[li].grid, ..old(self).layers@[li] }),
            forall|li: int, i: int|
                0 <= li < final(self).layers@.len() && 0 <= i < final(self).layers@[li].grid@.len()
                    ==> final(self).layers@[li].grid@[i] == Pixel::transparent_spec(),
            final(self).cursor_x as int == clamp_spec(
                old(self).cursor_x as int,
                0,
                final(self).width - 1,
            ),
            final(self).cursor_y as int == clamp_spec(
                old(self).cursor_y as int,
                0,
                final(self).height - 1,
            ),
            stack_view(final(self).undo_stack).len() == 0,
            stack_view(final(self).redo_stack).len() == 0,
            final(self).synced(),
    {
        let w: usize = if new_width < 1 {
            1
        } else if new_width > 65535 {
            65535
        } else {
            new_width
        };
        let h: usize = if new_height < 1 {
            1
        } else if new_height > 65535 {
            65535
        } else {
            new_height
        };
        proof {
            assert(w * h <= 65535 * 65535) by (nonlinear_arith)
                requires
                    1 <= w <= 65535,
                    1 <= h <= 65535,
            ;
        }
        self.width = w;
        self.height = h;
        let mut li: usize = 0;
        while li < self.layers.len()
            invariant
                old(self).wf(),
                1 <= w <= 65535,
                1 <= h <= 65535,
                self.layers@.len() == old(self).layers@.len(),
                li <= self.layers@.len(),
                w * h <= usize::MAX,
                *self == (Session {
                    width: self.width,
                    height: self.height,
                    layers: self.layers,
                    ..*old(self)
                }),
                self.width == w,
                self.height == h,
                forall|lj: int|
                    0 <= lj < li ==> #[trigger] self.layers@[lj] == (Layer {
                        grid: self.layers@[lj].grid,
                        ..old(self).layers@[lj]
                    }),
                forall|lj: int| 0 <= lj < li ==> (#[trigger] self.layers@[lj]).wf(
                    w as int,
                    h as int,
                ),
                forall|lj: int, i: int|
                    0 <= lj < li && 0 <= i < self.layers@[lj].grid@.len() ==> (
                    #[trigger] self.layers@[lj].grid@[i]) == Pixel::transparent_spec(),
                forall|lj: int|
                    li <= lj < self.layers@.len() ==> #[trigger] self.layers@[lj] == old(
                        self,
                    ).layers@[lj],
            decreases self.layers@.len() - li,
        {
            let blank = crate::compose::Layer::new_blank(String::new(), w, h);
            self.layers[li].grid = blank.grid;
            proof {
                assert(self.layers@[li as int] == (Layer {
                    grid: self.layers@[li as int].grid,
                    ..old(self).layers@[li as int]
                }));
                assert(forall|i: int|
                    0 <= i < self.layers@[li as int].grid@.len() ==> (
                    #[trigger] self.layers@[li as int].grid@[i]).wf());
                assert(old(self).layers@[li as int].wf(
                    old(self).width as int,
                    old(self).height as int,
                ));
                assert(self.layers@[li as int].wf(w as int, h as int));
            }
            li += 1;
        }
        self.cursor_x = if self.cursor_x > w - 1 {
            w - 1
        } else {
            self.cursor_x
        };
        self.cursor_y = if self.cursor_y > h - 1 {
            h - 1
        } else {
            self.cursor_y
        };
        self.undo_stack.clear();
        self.redo_stack.clear();
        proof {
            assert(stack_view(self.undo_stack) =~= Seq::<Seq<Pixel>>::empty());
            assert(stack_view(self.redo_stack) =~= Seq::<Seq<Pixel>>::empty());
        }
        self.sync_canvas_from_layers();
    }

    /// Snapshot the active layer for undo, then wipe it to transparent.
    pub fn clear_canvas(&mut self)
        requires
            old(self).wf(),
        ensures
            final(self).wf(),
            *final(self) == (Session {
                layers: final(self).layers,
                canvas: final(self).canvas,
                undo_stack: final(self).undo_stack,
                redo_stack: final(self).redo_stack,
                status: final(self).status,
                ..*old(self)
            }),
            final(self).layers@.len() == old(self).layers@.len(),
            forall|li: int|
                0 <= li < final(self).layers@.len() && li != final(self).active() ==> (
                #[trigger] final(self).layers@[li]) == old(self).layers@[li],
            final(self).layers@[final(self).active()] == (Layer {
                grid: final(self).layers@[final(self).active()].grid,
                ..old(self).layers@[old(self).active()]
            }),
            forall|i: int|
                0 <= i < final(self).active_grid().len() ==> final(self).active_grid()[i]
                    == Pixel::transparent_spec(),
            stack_view(final(self).undo_stack) == pushed_snapshot(
                stack_view(old(self).undo_stack),
                old(self).active_grid(),
            ),
            stack_view(final(self).redo_stack).len() == 0,
            final(self).status == Some(StatusMsg::ActiveLayerCleared),
            final(self).synced(),
    {
        self.save_state_for_undo();
        let blank = crate::compose::Layer::new_blank(String::new(), self.width, self.height);
        self.layers[self.active_layer_index].grid = blank.grid;
        self.sync_canvas_from_layers();
        self.status = Some(StatusMsg::ActiveLayerCleared);
    }
}

} // verus!
