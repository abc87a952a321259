//! Differential rendering: turning two successive frames into the smallest
//! list of cell writes that brings a screen from one to the other.

use vstd::prelude::*;
use crate::frame::{Cell, Frame, NUM_CELLS, NUM_COLS, blank_grid, cell_index, in_bounds, paint};

verus! {

/// One terminal write: move the cursor to `(col, row)` and show `cell` there.
#[derive(Clone, Copy, Debug, PartialEq, Eq, Structural)]
pub struct CellWrite {
    pub col: usize,
    pub row: usize,
    pub cell: Cell,
}

/// The write that shows `cell` at row-major position `index`.
pub open spec fn write_at(index: int, cell: Cell) -> CellWrite {
    CellWrite {
        col: (index % (NUM_COLS as int)) as usize,
        row: (index / (NUM_COLS as int)) as usize,
        cell,
    }
}

/// The writes for the first `n` cells in row-major order: one for each cell
/// that differs between `prev` and `curr`, or for every cell when `force`
/// is set.
pub open spec fn diff_prefix(prev: Seq<Cell>, curr: Seq<Cell>, force: bool, n: int) -> Seq<CellWrite>
    decreases n,
{
    if n <= 0 {
        Seq::empty()
    } else {
        let before = diff_prefix(prev, curr, force, n - 1);
        if force || prev[n - 1] != curr[n - 1] {
            before.push(write_at(n - 1, curr[n - 1]))
        } else {
            before
        }
    }
}

/// The writes that one render call emits.
pub open spec fn diff_writes(prev: Seq<Cell>, curr: Seq<Cell>, force: bool) -> Seq<CellWrite> {
    diff_prefix(prev, curr, force, NUM_CELLS as int)
}

/// A screen after one write was carried out on it.
pub open spec fn apply_write(screen: Seq<Cell>, w: CellWrite) -> Seq<Cell> {
    paint(screen, w.col as int, w.row as int, w.cell)
}

/// A screen after the writes were carried out on it, first to last.
pub open spec fn replay(screen: Seq<Cell>, writes: Seq<CellWrite>) -> Seq<Cell>
    decreases writes.len(),
{
    if writes.len() == 0 {
        screen
    } else {
        apply_write(replay(screen, writes.drop_last()), writes.last())
    }
}

/// Replaying two lists of writes one after the other is replaying them joined.
pub proof fn lemma_replay_concat(screen: Seq<Cell>, first: Seq<CellWrite>, second: Seq<CellWrite>)
    ensures
        replay(screen, first + second) == replay(replay(screen, first), second),
    decreases second.len(),
{
    if second.len() == 0 {
        assert(first + second =~= first);
    } else {
        lemma_replay_concat(screen, first, second.drop_last());
        assert((first + second).drop_last() =~= first + second.drop_last());
        assert((first + second).last() == second.last());
    }
}

/// Replaying the writes for the first `n` cells turns exactly those cells
/// into the cells of `curr` and leaves the others as they were. When the
/// writes are not forced the screen must have shown `prev`.
pub proof fn lemma_replay_prefix(screen: Seq<Cell>, prev: Seq<Cell>, curr: Seq<Cell>, force: bool, n: int)
    requires
        screen.len() == NUM_CELLS,
        prev.len() == NUM_CELLS,
        curr.len() == NUM_CELLS,
        0 <= n <= NUM_CELLS,
        force || screen == prev,
    ensures
        replay(screen, diff_prefix(prev, curr, force, n)).len() == NUM_CELLS,
        forall|i: int| 0 <= i < n ==> replay(screen, diff_prefix(prev, curr, force, n))[i] == curr[i],
        forall|i: int| n <= i < NUM_CELLS ==> replay(screen, diff_prefix(prev, curr, force, n))[i] == screen[i],
    decreases n,
{
    if n > 0 {
        lemma_replay_prefix(screen, prev, curr, force, n - 1);
        let before = diff_prefix(prev, curr, force, n - 1);
        if force || prev[n - 1] != curr[n - 1] {
            let w = write_at(n - 1, curr[n - 1]);
            let after = before.push(w);
            assert(after.drop_last() =~= before);
            assert(after.last() == w);
            assert(in_bounds(w.col as int, w.row as int));
            assert(cell_index(w.col as int, w.row as int) == n - 1);
        }
    }
}

/// Round trip: a screen that shows `prev` shows `curr` once the writes of a
/// render call from `prev` to `curr` were carried out on it.
pub proof fn lemma_diff_round_trip(prev: Seq<Cell>, curr: Seq<Cell>, force: bool)
    requires
        prev.len() == NUM_CELLS,
        curr.len() == NUM_CELLS,
    ensures
        replay(prev, diff_writes(prev, curr, force)) == curr,
{
    lemma_replay_prefix(prev, prev, curr, force, NUM_CELLS as int);
    assert(replay(prev, diff_writes(prev, curr, force)) =~= curr);
}

/// A full redraw brings any screen, whatever it showed, to `curr`.
pub proof fn lemma_full_redraw_from_any_screen(screen: Seq<Cell>, prev: Seq<Cell>, curr: Seq<Cell>)
    requires
        screen.len() == NUM_CELLS,
        prev.len() == NUM_CELLS,
        curr.len() == NUM_CELLS,
    ensures
        replay(screen, diff_writes(prev, curr, true)) == curr,
{
    lemma_replay_prefix(screen, prev, curr, true, NUM_CELLS as int);
    assert(replay(screen, diff_writes(prev, curr, true)) =~= curr);
}

/// The writes of a whole session, in order: a full redraw for the first
/// frame, and for each later frame the difference from the frame before it.
pub open spec fn session_writes(frames: Seq<Seq<Cell>>) -> Seq<CellWrite>
    decreases frames.len(),
{
    if frames.len() == 0 {
        Seq::empty()
    } else if frames.len() == 1 {
        diff_writes(blank_grid(), frames[0], true)
    } else {
        session_writes(frames.drop_last()) + diff_writes(frames[frames.len() - 2], frames.last(), false)
    }
}

/// Whatever frames a session renders, and whatever the screen showed before,
/// the writes of the session, carried out in order, leave the screen showing
/// the latest frame.
pub proof fn lemma_session_round_trip(screen: Seq<Cell>, frames: Seq<Seq<Cell>>)
    requires
        screen.len() == NUM_CELLS,
        frames.len() > 0,
        forall|i: int| 0 <= i < frames.len() ==> (#[trigger] frames[i]).len() == NUM_CELLS,
    ensures
        replay(screen, session_writes(frames)) == frames.last(),
    decreases frames.len(),
{
    if frames.len() == 1 {
        lemma_full_redraw_from_any_screen(screen, blank_grid(), frames[0]);
    } else {
        let earlier = frames.drop_last();
        let prev = frames[frames.len() - 2];
        assert(earlier.last() == prev);
        assert forall|i: int| 0 <= i < earlier.len() implies (#[trigger] earlier[i]).len() == NUM_CELLS by {
            assert(earlier[i] == frames[i]);
        }
        lemma_session_round_trip(screen, earlier);
        lemma_replay_concat(screen, session_writes(earlier), diff_writes(prev, frames.last(), false));
        lemma_diff_round_trip(prev, frames.last(), false);
    }
}

/// Identical frames give no write at all unless a full redraw is forced.
pub proof fn lemma_identical_frames_emit_nothing(frame: Seq<Cell>, n: int)
    ensures
        diff_prefix(frame, frame, false, n).len() == 0,
    decreases n,
{
    if n > 0 {
        lemma_identical_frames_emit_nothing(frame, n - 1);
    }
}

/// A full redraw writes every cell once, in row-major order, whatever the
/// two frames hold.
pub proof fn lemma_full_redraw_writes_every_cell(prev: Seq<Cell>, curr: Seq<Cell>, n: int)
    requires
        0 <= n,
    ensures
        diff_prefix(prev, curr, true, n).len() == n,
        forall|i: int| 0 <= i < n ==> diff_prefix(prev, curr, true, n)[i] == write_at(i, curr[i]),
    decreases n,
{
    if n > 0 {
        lemma_full_redraw_writes_every_cell(prev, curr, n - 1);
    }
}

/// Compares `prev` and `curr` cell by cell in row-major order and returns the
/// writes that bring a screen showing `prev` to `curr`; with
/// `force_full_redraw` every cell is written.
pub fn render(prev: &Frame, curr: &Frame, force_full_redraw: bool) -> (writes: Vec<CellWrite>)
    requires
        prev.wf(),
        curr.wf(),
    ensures
        writes@ == diff_writes(prev@, curr@, force_full_redraw),
        replay(prev@, writes@) == curr@,
        force_full_redraw ==> writes@.len() == NUM_CELLS,
        !force_full_redraw && prev@ == curr@ ==> writes@.len() == 0,
{
    let mut writes: Vec<CellWrite> = Vec::new();
    let mut i: usize = 0;
    while i < NUM_CELLS
        invariant
            prev.wf(),
            curr.wf(),
            i <= NUM_CELLS,
            writes@ == diff_prefix(prev@, curr@, force_full_redraw, i as int),
        decreases NUM_CELLS - i,
    {
        let col: usize = i % NUM_COLS;
        let row: usize = i / NUM_COLS;
        let old_cell = prev.get(col, row);
        let new_cell = curr.get(col, row);
        if force_full_redraw || old_cell != new_cell {
            writes.push(CellWrite { col, row, cell: new_cell });
        }
        i += 1;
    }
    proof {
        lemma_diff_round_trip(prev@, curr@, force_full_redraw);
        lemma_full_redraw_writes_every_cell(prev@, curr@, NUM_CELLS as int);
        lemma_identical_frames_emit_nothing(curr@, NUM_CELLS as int);
    }
    writes
}

/// The render side's memory: the frame rendered last, and whether anything
/// was rendered yet.
pub struct RenderEngine {
    last: Frame,
    fresh: bool,
    screen: Ghost<Seq<Cell>>,
}

impl RenderEngine {
    /// The frame rendered last.
    pub closed spec fn last(&self) -> Seq<Cell> {
        self.last@
    }

    /// Whether no frame was rendered yet.
    pub closed spec fn is_fresh(&self) -> bool {
        self.fresh
    }

    /// What a terminal shows that started blank and carried out every write
    /// this engine has emitted.
    pub closed spec fn screen(&self) -> Seq<Cell> {
        self.screen@
    }

    /// Once a frame was rendered, the screen shows exactly the last frame.
    pub closed spec fn wf(&self) -> bool {
        &&& self.last.wf()
        &&& self.screen@.len() == NUM_CELLS
        &&& !self.fresh ==> self.screen@ == self.last@
    }

    /// The law that `wf` carries, for callers.
    pub proof fn lemma_screen_shows_last(&self)
        requires
            self.wf(),
        ensures
            self.last().len() == NUM_CELLS,
            self.screen().len() == NUM_CELLS,
            !self.is_fresh() ==> self.screen() == self.last(),
    {
    }

    /// An engine that has rendered nothing: its baseline is the empty frame
    /// and its first render will be a full redraw.
    pub fn new() -> (engine: RenderEngine)
        ensures
            engine.wf(),
            engine.is_fresh(),
            engine.last() == blank_grid(),
            engine.screen() == blank_grid(),
    {
        RenderEngine { last: crate::frame::new_frame(), fresh: true, screen: Ghost(blank_grid()) }
    }

    /// Whether no frame was rendered yet.
    pub fn fresh(&self) -> (fresh: bool)
        ensures
            fresh == self.is_fresh(),
    {
        self.fresh
    }

    /// The frame rendered last.
    pub fn last_frame(&self) -> (frame: &Frame)
        requires
            self.wf(),
        ensures
            frame.wf(),
            frame@ == self.last(),
    {
        &self.last
    }

    /// Renders `curr`: a full redraw on the first call, afterwards only the
    /// cells that differ from the frame rendered last. `curr` becomes the new
    /// baseline whatever becomes of the writes.
    pub fn present(&mut self, curr: Frame) -> (writes: Vec<CellWrite>)
        requires
            old(self).wf(),
            curr.wf(),
        ensures
            final(self).wf(),
            !final(self).is_fresh(),
            final(self).last() == curr@,
            writes@ == diff_writes(old(self).last(), curr@, old(self).is_fresh()),
            final(self).screen() == replay(old(self).screen(), writes@),
            final(self).screen() == curr@,
            old(self).is_fresh() ==> writes@.len() == NUM_CELLS,
            !old(self).is_fresh() && old(self).last() == curr@ ==> writes@.len() == 0,
    {
        let writes = render(&self.last, &curr, self.fresh);
        proof {
            if self.fresh {
                lemma_full_redraw_from_any_screen(self.screen@, self.last@, curr@);
            }
            self.screen = Ghost(curr@);
        }
        self.last = curr;
        self.fresh = false;
        writes
    }
}

} // verus!
