use vstd::prelude::*;

use crate::pixel::Pixel;
use crate::session::{grid_wf, stack_view, Session, StatusMsg};

verus! {

/// An exact copy of a grid.
pub fn clone_grid(g: &Vec<Pixel>) -> (r: Vec<Pixel>)
    ensures
        r@ == g@,
{
    let mut r: Vec<Pixel> = Vec::new();
    let mut i: usize = 0;
    while i < g.len()
        invariant
            i <= g@.len(),
            r@ == g@.take(i as int),
        decreases g@.len() - i,
    {
        r.push(g[i]);
        proof {
            assert(r@ =~= g@.take(i + 1));
        }
        i += 1;
    }
    proof {
        assert(g@.take(g@.len() as int) =~= g@);
    }
    r
}

/// A snapshot pushed onto a history stack, oldest entry dropped once the
/// stack would exceed 100 grids.
pub open spec fn pushed_snapshot(stack: Seq<Seq<Pixel>>, g: Seq<Pixel>) -> Seq<Seq<Pixel>> {
    let s = stack.push(g);
    if s.len() > 100 {
        s.subrange(1, s.len() as int)
    } else {
        s
    }
}

/// Taking a snapshot and then restoring it: what `undo` moves where.
/// From `(grid, undo, redo)`, undoing yields the top of the undo stack as
/// the new grid and parks the old grid on the redo stack.
pub open spec fn undo_step(grid: Seq<Pixel>, undo: Seq<Seq<Pixel>>, redo: Seq<Seq<Pixel>>) -> (
    Seq<Pixel>,
    Seq<Seq<Pixel>>,
    Seq<Seq<Pixel>>,
)
    recommends
        undo.len() > 0,
{
    (undo.last(), undo.drop_last(), redo.push(grid))
}

/// What `redo` moves where: the mirror image of `undo_step`.
pub open spec fn redo_step(grid: Seq<Pixel>, undo: Seq<Seq<Pixel>>, redo: Seq<Seq<Pixel>>) -> (
    Seq<Pixel>,
    Seq<Seq<Pixel>>,
    Seq<Seq<Pixel>>,
)
    recommends
        redo.len() > 0,
{
    (redo.last(), undo.push(grid), redo.drop_last())
}

/// Undo then redo restores the exact pre-undo grid, bit for bit, and both
/// history stacks end as they began.
pub proof fn lemma_undo_then_redo(grid: Seq<Pixel>, undo: Seq<Seq<Pixel>>, redo: Seq<Seq<Pixel>>)
    requires
        undo.len() > 0,
    ensures
        ({
            let (g1, u1, r1) = undo_step(grid, undo, redo);
            let (g2, u2, r2) = redo_step(g1, u1, r1);
            g2 == grid && u2 == undo && r2 == redo
        }),
{
    let (g1, u1, r1) = undo_step(grid, undo, redo);
    assert(r1.len() == redo.len() + 1);
    assert(r1[redo.len() as int] == grid);
    assert(r1.last() == grid);
    assert(r1.drop_last() =~= redo);
    assert(u1.push(g1) =~= undo);
}

impl Session {
    /// Snapshot the active layer's grid onto the undo stack (bounded at 100
    /// entries) and invalidate the redo history.
    pub fn save_state_for_undo(&mut self)
        requires
            old(self).wf(),
        ensures
            final(self).wf(),
            *final(self) == (Session {
                undo_stack: final(self).undo_stack,
                redo_stack: final(self).redo_stack,
                ..*old(self)
            }),
            stack_view(final(self).undo_stack) == pushed_snapshot(
                stack_view(old(self).undo_stack),
                old(self).active_grid(),
            ),
            stack_view(final(self).redo_stack).len() == 0,
    {
        let snap = clone_grid(&self.layers[self.active_layer_index].grid);
        self.undo_stack.push_back(snap);
        proof {
            assert(stack_view(self.undo_stack) =~= stack_view(old(self).undo_stack).push(
                old(self).active_grid(),
            ));
        }
        if self.undo_stack.len() > 100 {
            let ghost before = stack_view(self.undo_stack);
            let dropped = self.undo_stack.pop_front();
            proof {
                assert(stack_view(self.undo_stack) =~= before.subrange(
                    1,
                    before.len() as int,
                ));
            }
        }
        self.redo_stack.clear();
        proof {
            assert(stack_view(self.redo_stack) =~= Seq::<Seq<Pixel>>::empty());
        }
    }

    /// Restore the most recent undo snapshot into the active layer, parking
    /// the current grid on the redo stack; a notice and no change when
    /// there is nothing to undo.
    pub fn undo(&mut self)
        requires
            old(self).wf(),
        ensures
            final(self).wf(),
            *final(self) == (Session {
                layers: final(self).layers,
                canvas: final(self).canvas,
                undo_stack: final(self).undo_stack,
                redo_stack: final(self).redo_stack,
                status: final(self).status,
                ..*old(self)
            }),
            if stack_view(old(self).undo_stack).len() == 0 {
                &&& *final(self) == (Session { status: final(self).status, ..*old(self) })
                &&& final(self).status == Some(StatusMsg::NothingToUndo)
            } else {
                let (g, u, r) = undo_step(
                    old(self).active_grid(),
                    stack_view(old(self).undo_stack),
                    stack_view(old(self).redo_stack),
                );
                &&& final(self).active_grid() == g
                &&& stack_view(final(self).undo_stack) == u
                &&& stack_view(final(self).redo_stack) == r
                &&& final(self).status == Some(StatusMsg::DidUndo)
                &&& final(self).layers@.len() == old(self).layers@.len()
                &&& forall|li: int|
                    0 <= li < final(self).layers@.len() && li != final(self).active() ==> (
                    #[trigger] final(self).layers@[li]) == old(self).layers@[li]
                &&& final(self).layers@[final(self).active()] == (crate::compose::Layer {
                    grid: final(self).layers@[final(self).active()].grid,
                    ..old(self).layers@[old(self).active()]
                })
                &&& final(self).synced()
            },
    {
        if self.undo_stack.len() == 0 {
            self.status = Some(StatusMsg::NothingToUndo);
            return ;
        }
        let cur = clone_grid(&self.layers[self.active_layer_index].grid);
        self.redo_stack.push_back(cur);
        proof {
            assert(stack_view(self.redo_stack) =~= stack_view(old(self).redo_stack).push(
                old(self).active_grid(),
            ));
        }
        let ghost undo_before = stack_view(self.undo_stack);
        let restored = self.undo_stack.pop_back();
        proof {
            assert(stack_view(self.undo_stack) =~= undo_before.drop_last());
        }
        match restored {
            Some(g) => {
                proof {
                    assert(g@ == undo_before.last());
                }
                self.layers[self.active_layer_index].grid = g;
            },
            None => {
                proof {
                    assert(false);
                }
            },
        }
        self.sync_canvas_from_layers();
        self.status = Some(StatusMsg::DidUndo);
    }

    /// Re-apply the most recently undone snapshot, parking the current grid
    /// back on the undo stack; a notice and no change when there is nothing
    /// to redo.
    pub fn redo(&mut self)
        requires
            old(self).wf(),
        ensures
            final(self).wf(),
            *final(self) == (Session {
                layers: final(self).layers,
                canvas: final(self).canvas,
                undo_stack: final(self).undo_stack,
                redo_stack: final(self).redo_stack,
                status: final(self).status,
                ..*old(self)
            }),
            if stack_view(old(self).redo_stack).len() == 0 {
                &&& *final(self) == (Session { status: final(self).status, ..*old(self) })
                &&& final(self).status == Some(StatusMsg::NothingToRedo)
            } else {
                let (g, u, r) = redo_step(
                    old(self).active_grid(),
                    stack_view(old(self).undo_stack),
                    stack_view(old(self).redo_stack),
                );
                &&& final(self).active_grid() == g
                &&& stack_view(final(self).undo_stack) == u
                &&& stack_view(final(self).redo_stack) == r
                &&& final(self).status == Some(StatusMsg::DidRedo)
                &&& final(self).layers@.len() == old(self).layers@.len()
                &&& forall|li: int|
                    0 <= li < final(self).layers@.len() && li != final(self).active() ==> (
                    #[trigger] final(self).layers@[li]) == old(self).layers@[li]
                &&& final(self).layers@[final(self).active()] == (crate::compose::Layer {
                    grid: final(self).layers@[final(self).active()].grid,
                    ..old(self).layers@[old(self).active()]
                })
                &&& final(self).synced()
            },
    {
        if self.redo_stack.len() == 0 {
            self.status = Some(StatusMsg::NothingToRedo);
            return ;
        }
        let cur = clone_grid(&self.layers[self.active_layer_index].grid);
        self.undo_stack.push_back(cur);
        proof {
            assert(stack_view(self.undo_stack) =~= stack_view(old(self).undo_stack).push(
                old(self).active_grid(),
            ));
        }
        let ghost redo_before = stack_view(self.redo_stack);
        let restored = self.redo_stack.pop_back();
        proof {
            assert(stack_view(self.redo_stack) =~= redo_before.drop_last());
        }
        match restored {
            Some(g) => {
                proof {
                    assert(g@ == redo_before.last());
                }
                self.layers[self.active_layer_index].grid = g;
            },
            None => {
                proof {
                    assert(false);
                }
            },
        }
        self.sync_canvas_from_layers();
        self.status = Some(StatusMsg::DidRedo);
    }
}

} // verus!
