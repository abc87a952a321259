//! The invader swarm: where the invaders stand, how the swarm steps across
//! and down the playfield, and how an invader is shot out of it.

use vstd::prelude::*;
use crate::frame::{Cell, Drawable, Frame, NUM_CELLS, NUM_COLS, NUM_ROWS, paint};

verus! {

/// Time between two steps of a new swarm.
pub const FIRST_STEP_TIME: u64 = 2000;

/// By how much the time between two steps shrinks when the swarm descends.
pub const STEP_TIME_CUT: u64 = 250;

/// The shortest time between two steps.
pub const SHORTEST_STEP_TIME: u64 = 250;

/// The row that ends the game when an invader stands on it.
pub const BOTTOM_ROW: usize = 19;

/// One invader, by its cell.
#[derive(Clone, Copy, Debug, PartialEq, Eq, Structural)]
pub struct Invader {
    pub x: usize,
    pub y: usize,
}

/// The swarm as a mathematical value.
pub struct SwarmView {
    pub army: Seq<Invader>,
    pub step_time: u64,
    pub time_left: u64,
    pub heading_right: bool,
}

/// Whether a new swarm has an invader on the cell `(x, y)`.
pub open spec fn starts_at(x: int, y: int) -> bool {
    1 < x < NUM_COLS - 2 && 0 < y < 9 && x % 2 == 0 && y % 2 == 0
}

/// The invaders of a new swarm among the first `n` cells, counted column by
/// column.
pub open spec fn first_army(n: int) -> Seq<Invader>
    decreases n,
{
    if n <= 0 {
        Seq::empty()
    } else {
        let before = first_army(n - 1);
        let x = (n - 1) / (NUM_ROWS as int);
        let y = (n - 1) % (NUM_ROWS as int);
        if starts_at(x, y) {
            before.push(Invader { x: x as usize, y: y as usize })
        } else {
            before
        }
    }
}

/// Whether every invader stands on the grid.
pub open spec fn army_on_grid(army: Seq<Invader>) -> bool {
    forall|i: int| 0 <= i < army.len() ==> (#[trigger] army[i]).x < NUM_COLS && army[i].y < NUM_ROWS
}

/// Whether some invader stands in column `x`.
pub open spec fn column_occupied(army: Seq<Invader>, x: int) -> bool {
    exists|i: int| 0 <= i < army.len() && (#[trigger] army[i]).x == x
}

/// The invader one row further down; the bottom row is as far as it goes.
pub open spec fn lowered(inv: Invader) -> Invader {
    if inv.y + 1 < NUM_ROWS {
        Invader { x: inv.x, y: (inv.y + 1) as usize }
    } else {
        inv
    }
}

/// The invader one column to the side.
pub open spec fn shifted(inv: Invader, right: bool) -> Invader {
    if right {
        Invader { x: (inv.x + 1) as usize, y: inv.y }
    } else {
        Invader { x: (inv.x - 1) as usize, y: inv.y }
    }
}

/// Position of the first invader at or after `from` that stands on
/// `(x, y)`; the army's length where there is none.
pub open spec fn position_of(army: Seq<Invader>, x: int, y: int, from: int) -> int
    decreases army.len() - from,
{
    if from < 0 || from >= army.len() {
        army.len() as int
    } else if army[from].x == x && army[from].y == y {
        from
    } else {
        position_of(army, x, y, from + 1)
    }
}

/// Whether an invader stands on `(x, y)`.
pub open spec fn stands_at(army: Seq<Invader>, x: int, y: int) -> bool {
    position_of(army, x, y, 0) < army.len()
}

/// The army without the first invader that stands on `(x, y)`.
pub open spec fn without_invader_at(army: Seq<Invader>, x: int, y: int) -> Seq<Invader> {
    if stands_at(army, x, y) {
        army.remove(position_of(army, x, y, 0))
    } else {
        army
    }
}

/// Where no invader between `from` and `to` stands on `(x, y)`, the search
/// from `from` finds what the search from `to` finds.
pub proof fn lemma_position_skip(army: Seq<Invader>, x: int, y: int, from: int, to: int)
    requires
        0 <= from <= to <= army.len(),
        forall|j: int| from <= j < to ==> !(army[j].x == x && army[j].y == y),
    ensures
        position_of(army, x, y, from) == position_of(army, x, y, to),
    decreases to - from,
{
    if from < to {
        lemma_position_skip(army, x, y, from + 1, to);
    }
}

/// What the search returns: a position on `(x, y)` with none before it, or
/// the army's length with no invader on `(x, y)` from `from` on.
pub proof fn lemma_position_found(army: Seq<Invader>, x: int, y: int, from: int)
    requires
        0 <= from <= army.len(),
    ensures
        from <= position_of(army, x, y, from) <= army.len(),
        position_of(army, x, y, from) < army.len() ==> army[position_of(army, x, y, from)].x == x
            && army[position_of(army, x, y, from)].y == y,
        forall|j: int| from <= j < position_of(army, x, y, from) ==> !(army[j].x == x && army[j].y == y),
    decreases army.len() - from,
{
    if from < army.len() && !(army[from].x == x && army[from].y == y) {
        lemma_position_found(army, x, y, from + 1);
    }
}

/// An invader stands on `(x, y)` exactly when the army holds one with these
/// coordinates.
pub proof fn lemma_stands_at_iff_member(army: Seq<Invader>, x: int, y: int)
    ensures
        stands_at(army, x, y) <==> exists|i: int| 0 <= i < army.len() && (#[trigger] army[i]).x == x && army[i].y == y,
{
    lemma_position_found(army, x, y, 0);
    if stands_at(army, x, y) {
        let p = position_of(army, x, y, 0);
        assert(army[p].x == x && army[p].y == y);
    }
}

/// The grid `base` with the first `n` invaders painted as `glyph`.
pub open spec fn paint_army(base: Seq<Cell>, army: Seq<Invader>, glyph: Cell, n: int) -> Seq<Cell>
    decreases n,
{
    if n <= 0 {
        base
    } else {
        paint(paint_army(base, army, glyph, n - 1), army[n - 1].x as int, army[n - 1].y as int, glyph)
    }
}

impl SwarmView {
    /// Whether the swarm stands at the edge it is heading for.
    pub open spec fn at_edge(self) -> bool {
        column_occupied(self.army, if self.heading_right { NUM_COLS - 1 } else { 0 })
    }

    /// The time between two steps after a descent.
    pub open spec fn faster_step_time(self) -> u64 {
        if self.step_time >= STEP_TIME_CUT + SHORTEST_STEP_TIME {
            (self.step_time - STEP_TIME_CUT) as u64
        } else {
            SHORTEST_STEP_TIME
        }
    }

    /// The swarm after one step: down and turned round at an edge, else one
    /// column further.
    pub open spec fn stepped(self) -> SwarmView {
        if self.at_edge() {
            SwarmView {
                army: Seq::new(self.army.len(), |i: int| lowered(self.army[i])),
                step_time: self.faster_step_time(),
                time_left: self.faster_step_time(),
                heading_right: !self.heading_right,
            }
        } else {
            SwarmView {
                army: Seq::new(self.army.len(), |i: int| shifted(self.army[i], self.heading_right)),
                step_time: self.step_time,
                time_left: self.step_time,
                heading_right: self.heading_right,
            }
        }
    }

    /// Whether `delta` more time brings the next step.
    pub open spec fn step_due(self, delta: u64) -> bool {
        delta >= self.time_left
    }

    /// The swarm after `delta` more time.
    pub open spec fn updated(self, delta: u64) -> SwarmView {
        if self.step_due(delta) {
            self.stepped()
        } else {
            SwarmView { time_left: (self.time_left - delta) as u64, ..self }
        }
    }

    /// The glyph the invaders show: one for the first half of the wait for
    /// the next step, another for the second.
    pub open spec fn glyph(self) -> Cell {
        if self.time_left > self.step_time - self.time_left {
            Cell::Glyph('x')
        } else {
            Cell::Glyph('+')
        }
    }

    /// Whether an invader has reached the bottom row.
    pub open spec fn reached_bottom(self) -> bool {
        exists|i: int| 0 <= i < self.army.len() && (#[trigger] self.army[i]).y >= BOTTOM_ROW
    }
}

/// The swarm of invaders.
#[derive(Debug)]
pub struct Invaders {
    army: Vec<Invader>,
    step_time: u64,
    time_left: u64,
    heading_right: bool,
}

impl View for Invaders {
    type V = SwarmView;

    closed spec fn view(&self) -> SwarmView {
        SwarmView {
            army: self.army@,
            step_time: self.step_time,
            time_left: self.time_left,
            heading_right: self.heading_right,
        }
    }
}

/// The swarm at the start of a game: in formation, heading right, with the
/// whole wait for its first step ahead.
pub open spec fn first_swarm() -> SwarmView {
    SwarmView {
        army: first_army(NUM_CELLS as int),
        step_time: FIRST_STEP_TIME,
        time_left: FIRST_STEP_TIME,
        heading_right: true,
    }
}

/// Whether a swarm value is one that the game can hold: every invader on the
/// grid, and the wait for the next step within the time between two steps.
pub open spec fn swarm_wf(v: SwarmView) -> bool {
    &&& army_on_grid(v.army)
    &&& v.time_left <= v.step_time
}

impl Invaders {
    /// Validity of the swarm.
    pub open spec fn wf(&self) -> bool {
        swarm_wf(self@)
    }

    /// The swarm at the start of a game, heading right.
    pub fn new() -> (swarm: Invaders)
        ensures
            swarm.wf(),
            swarm@ == first_swarm(),
    {
        let mut army: Vec<Invader> = Vec::new();
        let mut k: usize = 0;
        while k < NUM_CELLS
            invariant
                k <= NUM_CELLS,
                army@ == first_army(k as int),
                army_on_grid(army@),
            decreases NUM_CELLS - k,
        {
            let x: usize = k / NUM_ROWS;
            let y: usize = k % NUM_ROWS;
            if x > 1 && x < NUM_COLS - 2 && y > 0 && y < 9 && x % 2 == 0 && y % 2 == 0 {
                army.push(Invader { x, y });
            }
            k += 1;
        }
        Invaders { army, step_time: FIRST_STEP_TIME, time_left: FIRST_STEP_TIME, heading_right: true }
    }

    /// A swarm of the given invaders, heading right, with the given time
    /// between two steps; `None` where an invader stands outside the grid.
    pub fn from_army(army: Vec<Invader>, step_time: u64) -> (swarm: Option<Invaders>)
        ensures
            swarm.is_some() <==> army_on_grid(army@),
            swarm.is_some() ==> swarm.unwrap().wf() && swarm.unwrap()@ == (SwarmView {
                army: army@,
                step_time,
                time_left: step_time,
                heading_right: true,
            }),
    {
        let mut i: usize = 0;
        while i < army.len()
            invariant
                i <= army.len(),
                army_on_grid(army@.subrange(0, i as int)),
            decreases army.len() - i,
        {
            if army[i].x >= NUM_COLS || army[i].y >= NUM_ROWS {
                return None;
            }
            assert forall|j: int| 0 <= j < i + 1 implies (#[trigger] army@.subrange(0, i + 1)[j]).x < NUM_COLS
                && army@.subrange(0, i + 1)[j].y < NUM_ROWS by {
                if j < i {
                    assert(army@.subrange(0, i as int)[j] == army@[j]);
                }
            }
            i += 1;
        }
        assert(army@.subrange(0, i as int) =~= army@);
        Some(Invaders { army, step_time, time_left: step_time, heading_right: true })
    }

    /// How many invaders are left.
    pub fn count(&self) -> (n: usize)
        ensures
            n == self@.army.len(),
    {
        self.army.len()
    }

    /// The invaders that are left, in the swarm's order.
    pub fn positions(&self) -> (army: Vec<Invader>)
        ensures
            army@ == self@.army,
    {
        let mut out: Vec<Invader> = Vec::new();
        let mut i: usize = 0;
        while i < self.army.len()
            invariant
                i <= self.army.len(),
                out@ == self.army@.subrange(0, i as int),
            decreases self.army.len() - i,
        {
            out.push(self.army[i]);
            i += 1;
        }
        assert(self.army@.subrange(0, i as int) =~= self.army@);
        out
    }

    /// Whether some invader stands in column `x`.
    fn occupies_column(&self, x: usize) -> (found: bool)
        ensures
            found == column_occupied(self@.army, x as int),
    {
        let mut i: usize = 0;
        while i < self.army.len()
            invariant
                i <= self.army.len(),
                forall|j: int| 0 <= j < i ==> self.army@[j].x != x,
            decreases self.army.len() - i,
        {
            if self.army[i].x == x {
                return true;
            }
            i += 1;
        }
        false
    }

    /// Lets `delta` more time pass. Returns whether the swarm made a step:
    /// one column further, or down and turned round at an edge.
    pub fn update(&mut self, delta: u64) -> (stepped: bool)
        requires
            old(self).wf(),
        ensures
            final(self).wf(),
            stepped == old(self)@.step_due(delta),
            final(self)@ == old(self)@.updated(delta),
    {
        if delta < self.time_left {
            self.time_left = self.time_left - delta;
            return false;
        }
        let edge: usize = if self.heading_right { NUM_COLS - 1 } else { 0 };
        let descend = self.occupies_column(edge);
        let ghost before = self.army@;
        let right = self.heading_right;
        let mut army: Vec<Invader> = Vec::new();
        let mut i: usize = 0;
        while i < self.army.len()
            invariant
                i <= self.army.len(),
                self.army@ == before,
                army_on_grid(before),
                descend == column_occupied(before, edge as int),
                edge == (if right { NUM_COLS - 1 } else { 0 }),
                army@.len() == i,
                army_on_grid(army@),
                forall|j: int| 0 <= j < i ==> army@[j] == (if descend {
                    lowered(before[j])
                } else {
                    shifted(before[j], right)
                }),
            decreases self.army.len() - i,
        {
            let inv = self.army[i];
            assert(before[i as int].x < NUM_COLS && before[i as int].y < NUM_ROWS);
            let moved = if descend {
                if inv.y + 1 < NUM_ROWS {
                    Invader { x: inv.x, y: inv.y + 1 }
                } else {
                    inv
                }
            } else if right {
                Invader { x: inv.x + 1, y: inv.y }
            } else {
                Invader { x: inv.x - 1, y: inv.y }
            };
            army.push(moved);
            i += 1;
        }
        self.army = army;
        if descend {
            if self.step_time >= STEP_TIME_CUT + SHORTEST_STEP_TIME {
                self.step_time = self.step_time - STEP_TIME_CUT;
            } else {
                self.step_time = SHORTEST_STEP_TIME;
            }
            self.heading_right = !self.heading_right;
        }
        self.time_left = self.step_time;
        assert(self@.army =~= old(self)@.updated(delta).army);
        true
    }

    /// Whether no invader is left.
    pub fn all_killed(&self) -> (none_left: bool)
        ensures
            none_left == (self@.army.len() == 0),
    {
        self.army.len() == 0
    }

    /// Whether an invader has reached the bottom row.
    pub fn reached_bottom(&self) -> (reached: bool)
        ensures
            reached == self@.reached_bottom(),
            reached <==> exists|i: int| 0 <= i < self@.army.len() && (#[trigger] self@.army[i]).y >= BOTTOM_ROW,
    {
        let mut i: usize = 0;
        while i < self.army.len()
            invariant
                i <= self.army.len(),
                forall|j: int| 0 <= j < i ==> self.army@[j].y < BOTTOM_ROW,
            decreases self.army.len() - i,
        {
            if self.army[i].y >= BOTTOM_ROW {
                assert(self@.army[i as int].y >= BOTTOM_ROW);
                return true;
            }
            i += 1;
        }
        false
    }

    /// Removes the first invader that stands on `(x, y)`. Returns whether
    /// there was one.
    pub fn kill_invader_at(&mut self, x: usize, y: usize) -> (killed: bool)
        requires
            old(self).wf(),
        ensures
            final(self).wf(),
            killed == stands_at(old(self)@.army, x as int, y as int),
            final(self)@ == (SwarmView {
                army: without_invader_at(old(self)@.army, x as int, y as int),
                ..old(self)@
            }),
            killed ==> final(self)@.army.len() + 1 == old(self)@.army.len(),
    {
        let mut i: usize = 0;
        while i < self.army.len()
            invariant
                i <= self.army.len(),
                self.army@ == old(self).army@,
                self@ == old(self)@,
                self.wf(),
                forall|j: int| 0 <= j < i ==> !(self.army@[j].x == x && self.army@[j].y == y),
            decreases self.army.len() - i,
        {
            if self.army[i].x == x && self.army[i].y == y {
                proof {
                    lemma_position_skip(self.army@, x as int, y as int, 0, i as int);
                }
                let ghost before = self.army@;
                self.army.remove(i);
                assert forall|j: int| 0 <= j < self.army@.len() implies (#[trigger] self.army@[j]).x < NUM_COLS
                    && self.army@[j].y < NUM_ROWS by {
                    if j < i {
                        assert(self.army@[j] == before[j]);
                    } else {
                        assert(self.army@[j] == before[j + 1]);
                    }
                }
                return true;
            }
            i += 1;
        }
        proof {
            lemma_position_skip(self.army@, x as int, y as int, 0, i as int);
        }
        false
    }
}

/// The grid `base` with the swarm painted over it.
pub open spec fn swarm_painted(swarm: SwarmView, base: Seq<Cell>) -> Seq<Cell> {
    paint_army(base, swarm.army, swarm.glyph(), swarm.army.len() as int)
}

/// Painting the first `n` invaders keeps the grid's size, and each of them
/// that stands on the grid shows the swarm's glyph on its cell, whatever was
/// drawn there before.
pub proof fn lemma_invaders_on_top(base: Seq<Cell>, army: Seq<Invader>, glyph: Cell, n: int)
    requires
        0 <= n <= army.len(),
        base.len() == NUM_CELLS,
    ensures
        paint_army(base, army, glyph, n).len() == NUM_CELLS,
        forall|i: int|
            0 <= i < n && (#[trigger] army[i]).x < NUM_COLS && army[i].y < NUM_ROWS ==> paint_army(
                base,
                army,
                glyph,
                n,
            )[army[i].y * NUM_COLS + army[i].x] == glyph,
    decreases n,
{
    if n > 0 {
        lemma_invaders_on_top(base, army, glyph, n - 1);
    }
}

impl Drawable for Invaders {
    open spec fn painted(&self, base: Seq<Cell>) -> Seq<Cell> {
        swarm_painted(self@, base)
    }

    fn draw(&self, frame: &mut Frame) {
        let glyph = if self.time_left > self.step_time.saturating_sub(self.time_left) {
            Cell::Glyph('x')
        } else {
            Cell::Glyph('+')
        };
        let mut i: usize = 0;
        while i < self.army.len()
            invariant
                i <= self.army.len(),
                frame.wf(),
                frame@ == paint_army(old(frame)@, self.army@, glyph, i as int),
            decreases self.army.len() - i,
        {
            frame.set(self.army[i].x, self.army[i].y, glyph);
            i += 1;
        }
    }
}

} // verus!
