//! The player's ship and its shots.

use vstd::prelude::*;
use crate::frame::{Cell, Drawable, Frame, NUM_COLS, NUM_ROWS, paint};
use crate::invaders::{Invader, Invaders, SwarmView, army_on_grid, lemma_position_found, lemma_stands_at_iff_member, position_of, stands_at, without_invader_at};

verus! {

/// Time a shot takes to fly one row.
pub const SHOT_STEP_TIME: u64 = 50;

/// Time an explosion stays on screen.
pub const EXPLOSION_TIME: u64 = 250;

/// Time the ship needs after a shot before it can shoot again.
pub const SHOOT_COOLDOWN: u64 = 300;

/// One shot of the player.
#[derive(Clone, Copy, Debug, PartialEq, Eq, Structural)]
pub struct Shot {
    pub x: usize,
    pub y: usize,
    pub exploding: bool,
    pub time_left: u64,
}

/// `time` less `delta`, and zero where `delta` is the larger.
pub open spec fn time_after(time: u64, delta: u64) -> u64 {
    if delta >= time {
        0
    } else {
        (time - delta) as u64
    }
}

/// The shot after `delta` more time: when its wait is over and it is not
/// exploding it flies one row up and waits anew.
pub open spec fn shot_advanced(shot: Shot, delta: u64) -> Shot {
    if time_after(shot.time_left, delta) == 0 && !shot.exploding {
        Shot {
            y: if shot.y > 0 { (shot.y - 1) as usize } else { shot.y },
            time_left: SHOT_STEP_TIME,
            ..shot
        }
    } else {
        Shot { time_left: time_after(shot.time_left, delta), ..shot }
    }
}

/// Whether the shot is over: its explosion has run out, or it has reached the
/// top row.
pub open spec fn shot_dead(shot: Shot) -> bool {
    (shot.exploding && shot.time_left == 0) || shot.y == 0
}

/// The shot once it has hit something.
pub open spec fn shot_exploded(shot: Shot) -> Shot {
    Shot { exploding: true, time_left: EXPLOSION_TIME, ..shot }
}

/// The glyph a shot shows.
pub open spec fn shot_glyph(shot: Shot) -> Cell {
    if shot.exploding {
        Cell::Glyph('*')
    } else {
        Cell::Glyph('|')
    }
}

/// Of the first `n` shots, those that are still there after `delta` more
/// time, each advanced by it.
pub open spec fn live_shots(shots: Seq<Shot>, delta: u64, n: int) -> Seq<Shot>
    decreases n,
{
    if n <= 0 {
        Seq::empty()
    } else {
        let before = live_shots(shots, delta, n - 1);
        let shot = shot_advanced(shots[n - 1], delta);
        if shot_dead(shot) {
            before
        } else {
            before.push(shot)
        }
    }
}

/// The grid `base` with the first `n` shots painted over it.
pub open spec fn paint_shots(base: Seq<Cell>, shots: Seq<Shot>, n: int) -> Seq<Cell>
    decreases n,
{
    if n <= 0 {
        base
    } else {
        paint(paint_shots(base, shots, n - 1), shots[n - 1].x as int, shots[n - 1].y as int, shot_glyph(shots[n - 1]))
    }
}

/// What the first shots of a round of hit detection have done.
pub struct HitOutcome {
    pub shots: Seq<Shot>,
    pub army: Seq<Invader>,
    pub kills: nat,
}

/// Hit detection over the first `n` shots, in order: a shot that is not
/// exploding and shares its cell with an invader explodes, and the first such
/// invader leaves the army.
pub open spec fn hits_prefix(shots: Seq<Shot>, army: Seq<Invader>, n: int) -> HitOutcome
    decreases n,
{
    if n <= 0 {
        HitOutcome { shots, army, kills: 0 }
    } else {
        let before = hits_prefix(shots, army, n - 1);
        let shot = shots[n - 1];
        if !shot.exploding && stands_at(before.army, shot.x as int, shot.y as int) {
            HitOutcome {
                shots: before.shots.update(n - 1, shot_exploded(shot)),
                army: without_invader_at(before.army, shot.x as int, shot.y as int),
                kills: before.kills + 1,
            }
        } else {
            before
        }
    }
}

/// Whether one of the first `n` shots, not yet exploding, shares its cell
/// with an invader.
pub open spec fn some_overlap(shots: Seq<Shot>, army: Seq<Invader>, n: int) -> bool {
    exists|k: int| 0 <= k < n && !(#[trigger] shots[k]).exploding && stands_at(army, shots[k].x as int, shots[k].y as int)
}

/// Hit detection removes one invader for each kill and none else, leaves the
/// shots from `n` on alone, and kills at all exactly when a shot and an
/// invader overlapped beforehand.
pub proof fn lemma_hits(shots: Seq<Shot>, army: Seq<Invader>, n: int)
    requires
        0 <= n <= shots.len(),
    ensures
        hits_prefix(shots, army, n).shots.len() == shots.len(),
        forall|j: int| n <= j < shots.len() ==> hits_prefix(shots, army, n).shots[j] == shots[j],
        hits_prefix(shots, army, n).army.len() + hits_prefix(shots, army, n).kills == army.len(),
        hits_prefix(shots, army, n).kills == 0 ==> hits_prefix(shots, army, n).army == army && hits_prefix(
            shots,
            army,
            n,
        ).shots == shots,
        hits_prefix(shots, army, n).kills > 0 <==> some_overlap(shots, army, n),
        army_on_grid(army) ==> army_on_grid(hits_prefix(shots, army, n).army),
    decreases n,
{
    if n > 0 {
        lemma_hits(shots, army, n - 1);
        let before = hits_prefix(shots, army, n - 1);
        let shot = shots[n - 1];
        let x = shot.x as int;
        let y = shot.y as int;
        lemma_position_found(before.army, x, y, 0);
        if some_overlap(shots, army, n - 1) {
            let k = choose|k: int| 0 <= k < n - 1 && !(#[trigger] shots[k]).exploding && stands_at(army, shots[k].x as int, shots[k].y as int);
            assert(0 <= k < n && !shots[k].exploding && stands_at(army, shots[k].x as int, shots[k].y as int));
        } else if !shot.exploding && stands_at(before.army, x, y) {
            assert(0 <= n - 1 < n && !shots[n - 1].exploding && stands_at(army, shots[n - 1].x as int, shots[n - 1].y as int));
        } else {
            if some_overlap(shots, army, n) {
                let k = choose|k: int| 0 <= k < n && !(#[trigger] shots[k]).exploding && stands_at(army, shots[k].x as int, shots[k].y as int);
                if k < n - 1 {
                    assert(some_overlap(shots, army, n - 1));
                }
            }
        }
        if army_on_grid(army) && !shot.exploding && stands_at(before.army, x, y) {
            let p = position_of(before.army, x, y, 0);
            let after = before.army.remove(p);
            assert forall|j: int| 0 <= j < after.len() implies (#[trigger] after[j]).x < NUM_COLS && after[j].y < NUM_ROWS by {
                if j < p {
                    assert(after[j] == before.army[j]);
                } else {
                    assert(after[j] == before.army[j + 1]);
                }
            }
        }
    }
}

/// Whether some shot, not yet exploding, and some invader stand on one cell.
pub open spec fn shares_cell(shots: Seq<Shot>, army: Seq<Invader>) -> bool {
    exists|k: int, i: int|
        0 <= k < shots.len() && 0 <= i < army.len() && !(#[trigger] shots[k]).exploding && (#[trigger] army[i]).x
            == shots[k].x && army[i].y == shots[k].y
}

/// A shot overlaps the army exactly when it shares its cell with one of the
/// invaders.
pub proof fn lemma_overlap_is_shared_cell(shots: Seq<Shot>, army: Seq<Invader>)
    ensures
        some_overlap(shots, army, shots.len() as int) <==> shares_cell(shots, army),
{
    if some_overlap(shots, army, shots.len() as int) {
        let k = choose|k: int| 0 <= k < shots.len() && !(#[trigger] shots[k]).exploding && stands_at(army, shots[k].x as int, shots[k].y as int);
        lemma_stands_at_iff_member(army, shots[k].x as int, shots[k].y as int);
        let i = choose|i: int| 0 <= i < army.len() && (#[trigger] army[i]).x == shots[k].x as int && army[i].y == shots[k].y as int;
        assert(0 <= k < shots.len() && 0 <= i < army.len() && !shots[k].exploding && army[i].x == shots[k].x && army[i].y == shots[k].y);
    }
    if shares_cell(shots, army) {
        let (k, i) = choose|k: int, i: int|
            0 <= k < shots.len() && 0 <= i < army.len() && !(#[trigger] shots[k]).exploding && (#[trigger] army[i]).x
                == shots[k].x && army[i].y == shots[k].y;
        lemma_stands_at_iff_member(army, shots[k].x as int, shots[k].y as int);
        assert(army[i].x == shots[k].x as int && army[i].y == shots[k].y as int);
        assert(stands_at(army, shots[k].x as int, shots[k].y as int));
    }
}

/// The player as a mathematical value.
pub struct PlayerView {
    pub x: usize,
    pub y: usize,
    pub shots: Seq<Shot>,
    pub cooldown: u64,
    pub cooldown_left: u64,
}

impl PlayerView {
    /// The ship one column to the left, unless it stands at the left edge.
    pub open spec fn moved_left(self) -> PlayerView {
        PlayerView { x: if self.x > 0 { (self.x - 1) as usize } else { self.x }, ..self }
    }

    /// The ship one column to the right, unless it stands at the right edge.
    pub open spec fn moved_right(self) -> PlayerView {
        PlayerView { x: if self.x < NUM_COLS - 1 { (self.x + 1) as usize } else { self.x }, ..self }
    }

    /// Whether the ship can shoot now.
    pub open spec fn can_shoot(self) -> bool {
        self.cooldown_left == 0
    }

    /// The player after a request to shoot: with a new shot just above the
    /// ship and the cooldown started where it can shoot, unchanged where not.
    pub open spec fn shot(self) -> PlayerView {
        if self.can_shoot() {
            PlayerView {
                shots: self.shots.push(
                    Shot { x: self.x, y: (self.y - 1) as usize, exploding: false, time_left: SHOT_STEP_TIME },
                ),
                cooldown_left: self.cooldown,
                ..self
            }
        } else {
            self
        }
    }

    /// The player after `delta` more time.
    pub open spec fn updated(self, delta: u64) -> PlayerView {
        PlayerView {
            shots: live_shots(self.shots, delta, self.shots.len() as int),
            cooldown_left: time_after(self.cooldown_left, delta),
            ..self
        }
    }

    /// The player after each of `deltas` has passed in turn.
    pub open spec fn waited(self, deltas: Seq<u64>) -> PlayerView
        decreases deltas.len(),
    {
        if deltas.len() == 0 {
            self
        } else {
            self.waited(deltas.drop_last()).updated(deltas.last())
        }
    }
}

/// The sum of `deltas`.
pub open spec fn total_time(deltas: Seq<u64>) -> int
    decreases deltas.len(),
{
    if deltas.len() == 0 {
        0
    } else {
        total_time(deltas.drop_last()) + deltas.last()
    }
}

/// Waiting changes neither ship nor cooldown, and takes the time waited off
/// what is left of the cooldown.
pub proof fn lemma_waited_cooldown(player: PlayerView, deltas: Seq<u64>)
    ensures
        player.waited(deltas).cooldown == player.cooldown,
        player.waited(deltas).x == player.x,
        player.waited(deltas).y == player.y,
        total_time(deltas) >= 0,
        player.waited(deltas).cooldown_left == (if total_time(deltas) >= player.cooldown_left {
            0
        } else {
            player.cooldown_left - total_time(deltas)
        }),
    decreases deltas.len(),
{
    if deltas.len() > 0 {
        lemma_waited_cooldown(player, deltas.drop_last());
    }
}

/// After a shot was fired, a second request succeeds exactly when at least
/// the cooldown has passed in between.
pub proof fn lemma_shoot_obeys_cooldown(player: PlayerView, deltas: Seq<u64>)
    requires
        player.can_shoot(),
    ensures
        player.shot().waited(deltas).can_shoot() <==> total_time(deltas) >= player.cooldown,
        !player.shot().waited(deltas).can_shoot() ==> player.shot().waited(deltas).shot() == player.shot().waited(
            deltas,
        ),
{
    lemma_waited_cooldown(player.shot(), deltas);
}

/// The player: the ship, its shots, and the cooldown of its gun.
#[derive(Debug)]
pub struct Player {
    x: usize,
    y: usize,
    shots: Vec<Shot>,
    cooldown: u64,
    cooldown_left: u64,
}

impl View for Player {
    type V = PlayerView;

    closed spec fn view(&self) -> PlayerView {
        PlayerView {
            x: self.x,
            y: self.y,
            shots: self.shots@,
            cooldown: self.cooldown,
            cooldown_left: self.cooldown_left,
        }
    }
}

/// The player at the start of a game with the given cooldown: the ship in
/// the middle of the bottom row, no shot in the air, ready to shoot.
pub open spec fn first_player(cooldown: u64) -> PlayerView {
    PlayerView {
        x: (NUM_COLS / 2) as usize,
        y: (NUM_ROWS - 1) as usize,
        shots: Seq::empty(),
        cooldown,
        cooldown_left: 0,
    }
}

/// Whether a player value is one that the game can hold: the ship on the
/// grid, with a row above it.
pub open spec fn player_wf(v: PlayerView) -> bool {
    v.x < NUM_COLS && 0 < v.y < NUM_ROWS
}

impl Shot {
    /// A new shot at `(x, y)`.
    pub fn new(x: usize, y: usize) -> (shot: Shot)
        ensures
            shot == (Shot { x, y, exploding: false, time_left: SHOT_STEP_TIME }),
    {
        Shot { x, y, exploding: false, time_left: SHOT_STEP_TIME }
    }

    /// Lets `delta` more time pass for this shot.
    pub fn update(&mut self, delta: u64)
        ensures
            *final(self) == shot_advanced(*old(self), delta),
    {
        let left: u64 = if delta >= self.time_left { 0 } else { self.time_left - delta };
        if left == 0 && !self.exploding {
            if self.y > 0 {
                self.y = self.y - 1;
            }
            self.time_left = SHOT_STEP_TIME;
        } else {
            self.time_left = left;
        }
    }

    /// Turns the shot into an explosion.
    pub fn explode(&mut self)
        ensures
            *final(self) == shot_exploded(*old(self)),
    {
        self.exploding = true;
        self.time_left = EXPLOSION_TIME;
    }

    /// Whether the shot is over.
    pub fn dead(&self) -> (dead: bool)
        ensures
            dead == shot_dead(*self),
    {
        (self.exploding && self.time_left == 0) || self.y == 0
    }
}

impl Player {
    /// Validity of the player.
    pub open spec fn wf(&self) -> bool {
        player_wf(self@)
    }

    /// The player at the start of a game: the ship in the middle of the
    /// bottom row, no shot in the air, ready to shoot.
    pub fn new() -> (player: Player)
        ensures
            player.wf(),
            player@ == first_player(SHOOT_COOLDOWN),
    {
        Player { x: NUM_COLS / 2, y: NUM_ROWS - 1, shots: Vec::new(), cooldown: SHOOT_COOLDOWN, cooldown_left: 0 }
    }

    /// As `new`, with the given cooldown between two shots.
    pub fn with_cooldown(cooldown: u64) -> (player: Player)
        ensures
            player.wf(),
            player@ == first_player(cooldown),
    {
        Player { x: NUM_COLS / 2, y: NUM_ROWS - 1, shots: Vec::new(), cooldown, cooldown_left: 0 }
    }

    /// The ship's column.
    pub fn x(&self) -> (x: usize)
        ensures
            x == self@.x,
    {
        self.x
    }

    /// The ship's row.
    pub fn y(&self) -> (y: usize)
        ensures
            y == self@.y,
    {
        self.y
    }

    /// The shots in the air, oldest first.
    pub fn shots(&self) -> (shots: Vec<Shot>)
        ensures
            shots@ == self@.shots,
    {
        let mut out: Vec<Shot> = Vec::new();
        let mut i: usize = 0;
        while i < self.shots.len()
            invariant
                i <= self.shots.len(),
                out@ == self.shots@.subrange(0, i as int),
            decreases self.shots.len() - i,
        {
            out.push(self.shots[i]);
            i += 1;
        }
        assert(self.shots@.subrange(0, i as int) =~= self.shots@);
        out
    }

    /// Moves the ship one column to the left; at the left edge it stays.
    pub fn move_left(&mut self)
        requires
            old(self).wf(),
        ensures
            final(self).wf(),
            final(self)@ == old(self)@.moved_left(),
    {
        if self.x > 0 {
            self.x = self.x - 1;
        }
    }

    /// Moves the ship one column to the right; at the right edge it stays.
    pub fn move_right(&mut self)
        requires
            old(self).wf(),
        ensures
            final(self).wf(),
            final(self)@ == old(self)@.moved_right(),
    {
        if self.x < NUM_COLS - 1 {
            self.x = self.x + 1;
        }
    }

    /// Requests a shot. Returns whether one was fired: it is when the
    /// cooldown of the last shot is over, and then a new cooldown starts.
    pub fn shoot(&mut self) -> (fired: bool)
        requires
            old(self).wf(),
        ensures
            final(self).wf(),
            fired == old(self)@.can_shoot(),
            final(self)@ == old(self)@.shot(),
            !fired ==> final(self)@ == old(self)@,
    {
        if self.cooldown_left == 0 {
            self.shots.push(Shot::new(self.x, self.y - 1));
            self.cooldown_left = self.cooldown;
            true
        } else {
            false
        }
    }

    /// Lets `delta` more time pass: the shots fly on, those that are over
    /// leave, and the cooldown runs down.
    pub fn update(&mut self, delta: u64)
        requires
            old(self).wf(),
        ensures
            final(self).wf(),
            final(self)@ == old(self)@.updated(delta),
    {
        let mut kept: Vec<Shot> = Vec::new();
        let mut i: usize = 0;
        while i < self.shots.len()
            invariant
                i <= self.shots.len(),
                kept@ == live_shots(self.shots@, delta, i as int),
            decreases self.shots.len() - i,
        {
            let mut shot = self.shots[i];
            shot.update(delta);
            if !shot.dead() {
                kept.push(shot);
            }
            i += 1;
        }
        self.shots = kept;
        self.cooldown_left = if delta >= self.cooldown_left { 0 } else { self.cooldown_left - delta };
    }

    /// Checks each shot, oldest first, against the swarm: a shot that is not
    /// exploding and shares its cell with an invader explodes and removes
    /// that invader. Returns whether anything was hit, which is so exactly
    /// when some such shot and some invader shared a cell beforehand.
    pub fn detect_hits(&mut self, invaders: &mut Invaders) -> (hit: bool)
        requires
            old(self).wf(),
            old(invaders).wf(),
        ensures
            final(self).wf(),
            final(invaders).wf(),
            final(self)@ == (PlayerView {
                shots: hits_prefix(old(self)@.shots, old(invaders)@.army, old(self)@.shots.len() as int).shots,
                ..old(self)@
            }),
            final(invaders)@ == (SwarmView {
                army: hits_prefix(old(self)@.shots, old(invaders)@.army, old(self)@.shots.len() as int).army,
                ..old(invaders)@
            }),
            hit == (hits_prefix(old(self)@.shots, old(invaders)@.army, old(self)@.shots.len() as int).kills > 0),
            hit <==> shares_cell(old(self)@.shots, old(invaders)@.army),
            final(invaders)@.army.len() + hits_prefix(
                old(self)@.shots,
                old(invaders)@.army,
                old(self)@.shots.len() as int,
            ).kills == old(invaders)@.army.len(),
            !hit ==> final(self)@ == old(self)@ && final(invaders)@ == old(invaders)@,
    {
        let ghost shots0 = self.shots@;
        let ghost swarm0 = invaders@;
        let mut hit = false;
        let mut i: usize = 0;
        while i < self.shots.len()
            invariant
                i <= self.shots.len(),
                shots0.len() == self.shots.len(),
                invaders.wf(),
                self.x == old(self).x,
                self.y == old(self).y,
                self.cooldown == old(self).cooldown,
                self.cooldown_left == old(self).cooldown_left,
                self.shots@ == hits_prefix(shots0, swarm0.army, i as int).shots,
                invaders@ == (SwarmView { army: hits_prefix(shots0, swarm0.army, i as int).army, ..swarm0 }),
                hit == (hits_prefix(shots0, swarm0.army, i as int).kills > 0),
            decreases self.shots.len() - i,
        {
            proof {
                lemma_hits(shots0, swarm0.army, i as int);
            }
            let mut shot = self.shots[i];
            if !shot.exploding && invaders.kill_invader_at(shot.x, shot.y) {
                hit = true;
                shot.explode();
                self.shots.set(i, shot);
            }
            i += 1;
        }
        proof {
            lemma_hits(shots0, swarm0.army, shots0.len() as int);
            lemma_overlap_is_shared_cell(shots0, swarm0.army);
        }
        hit
    }
}

/// The grid `base` with the ship painted over it, and then its shots.
pub open spec fn player_painted(player: PlayerView, base: Seq<Cell>) -> Seq<Cell> {
    paint_shots(
        paint(base, player.x as int, player.y as int, Cell::Glyph('A')),
        player.shots,
        player.shots.len() as int,
    )
}

impl Drawable for Player {
    open spec fn painted(&self, base: Seq<Cell>) -> Seq<Cell> {
        player_painted(self@, base)
    }

    fn draw(&self, frame: &mut Frame) {
        frame.set(self.x, self.y, Cell::Glyph('A'));
        let mut i: usize = 0;
        while i < self.shots.len()
            invariant
                i <= self.shots.len(),
                frame.wf(),
                frame@ == paint_shots(
                    paint(old(frame)@, self.x as int, self.y as int, Cell::Glyph('A')),
                    self.shots@,
                    i as int,
                ),
            decreases self.shots.len() - i,
        {
            let shot = self.shots[i];
            let glyph = if shot.exploding { Cell::Glyph('*') } else { Cell::Glyph('|') };
            frame.set(shot.x, shot.y, glyph);
            i += 1;
        }
    }
}

} // verus!
