//! The simulation: one tick of the game from the keys pressed and the time
//! passed to the next state, the sound cues to play and the frame to show.

use vstd::prelude::*;
use crate::frame::{Cell, Drawable, Frame, blank_grid, new_frame};
use crate::invaders::{Invaders, SwarmView, first_swarm, swarm_painted, swarm_wf};
use crate::player::{Player, PlayerView, SHOOT_COOLDOWN, first_player, hits_prefix, lemma_hits, player_painted, player_wf};

verus! {

/// Where the simulation stands.
#[derive(Clone, Copy, Debug, PartialEq, Eq, Structural)]
pub enum Phase {
    Running,
    WinPending,
    LosePending,
    Terminated,
}

/// What a key press means to the game.
#[derive(Clone, Copy, Debug, PartialEq, Eq, Structural)]
pub enum Key {
    Left,
    Right,
    Fire,
    Quit,
    Other,
}

/// A sound to play.
#[derive(Clone, Copy, Debug, PartialEq, Eq, Structural)]
pub enum Cue {
    Explode,
    Lose,
    Move,
    Pew,
    Startup,
    Win,
}

/// A key of the keyboard.
#[derive(Clone, Copy, Debug, PartialEq, Eq, Structural)]
pub enum Pressed {
    Left,
    Right,
    Enter,
    Esc,
    Char(char),
    Unknown,
}

/// What a key means to the game: the arrows move, space and enter fire,
/// escape and `q` quit, and any other key means nothing.
pub open spec fn meaning_of(pressed: Pressed) -> Key {
    match pressed {
        Pressed::Left => Key::Left,
        Pressed::Right => Key::Right,
        Pressed::Enter => Key::Fire,
        Pressed::Esc => Key::Quit,
        Pressed::Char(c) => if c == ' ' {
            Key::Fire
        } else if c == 'q' {
            Key::Quit
        } else {
            Key::Other
        },
        Pressed::Unknown => Key::Other,
    }
}

/// What a key means to the game.
pub fn key_for(pressed: Pressed) -> (key: Key)
    ensures
        key == meaning_of(pressed),
{
    match pressed {
        Pressed::Left => Key::Left,
        Pressed::Right => Key::Right,
        Pressed::Enter => Key::Fire,
        Pressed::Esc => Key::Quit,
        Pressed::Char(c) => if c == ' ' {
            Key::Fire
        } else if c == 'q' {
            Key::Quit
        } else {
            Key::Other
        },
        Pressed::Unknown => Key::Other,
    }
}

/// Every cue, in the order of their names.
pub fn all_cues() -> (cues: Vec<Cue>)
    ensures
        cues@ == seq![Cue::Explode, Cue::Lose, Cue::Move, Cue::Pew, Cue::Startup, Cue::Win],
{
    let mut cues: Vec<Cue> = Vec::new();
    cues.push(Cue::Explode);
    cues.push(Cue::Lose);
    cues.push(Cue::Move);
    cues.push(Cue::Pew);
    cues.push(Cue::Startup);
    cues.push(Cue::Win);
    assert(cues@ =~= seq![Cue::Explode, Cue::Lose, Cue::Move, Cue::Pew, Cue::Startup, Cue::Win]);
    cues
}

impl Cue {
    /// The name under which the sound of this cue is kept.
    pub open spec fn spec_name(self) -> Seq<char> {
        match self {
            Cue::Explode => "explode"@,
            Cue::Lose => "lose"@,
            Cue::Move => "move"@,
            Cue::Pew => "pew"@,
            Cue::Startup => "startup"@,
            Cue::Win => "win"@,
        }
    }

    /// The name under which the sound of this cue is kept.
    pub fn name(self) -> (name: &'static str)
        ensures
            name@ == self.spec_name(),
    {
        match self {
            Cue::Explode => "explode",
            Cue::Lose => "lose",
            Cue::Move => "move",
            Cue::Pew => "pew",
            Cue::Startup => "startup",
            Cue::Win => "win",
        }
    }
}

/// What the keys handled so far have done.
pub struct KeysOutcome {
    pub player: PlayerView,
    pub cues: Seq<Cue>,
    pub quit: bool,
}

/// The first `n` keys handled in order: the move keys move the ship, the
/// fire key requests a shot and gives a cue where one was fired, the quit
/// key ends the handling, and any other key does nothing.
pub open spec fn keys_prefix(player: PlayerView, keys: Seq<Key>, n: int) -> KeysOutcome
    decreases n,
{
    if n <= 0 {
        KeysOutcome { player, cues: Seq::empty(), quit: false }
    } else {
        let before = keys_prefix(player, keys, n - 1);
        if before.quit {
            before
        } else {
            match keys[n - 1] {
                Key::Left => KeysOutcome { player: before.player.moved_left(), ..before },
                Key::Right => KeysOutcome { player: before.player.moved_right(), ..before },
                Key::Fire => if before.player.can_shoot() {
                    KeysOutcome { player: before.player.shot(), cues: before.cues.push(Cue::Pew), ..before }
                } else {
                    before
                },
                Key::Quit => KeysOutcome { quit: true, ..before },
                Key::Other => before,
            }
        }
    }
}

/// The game as a mathematical value.
pub struct GameView {
    pub player: PlayerView,
    pub swarm: SwarmView,
    pub phase: Phase,
}

/// What one tick gives: the next state, the cues to play in order, and the
/// frame to show, if any.
pub struct TickOutcome {
    pub game: GameView,
    pub cues: Seq<Cue>,
    pub frame: Option<Seq<Cell>>,
}

impl GameView {
    /// Whether the state is one that the game can hold.
    pub open spec fn wf(self) -> bool {
        player_wf(self.player) && swarm_wf(self.swarm)
    }

    /// The phase after a tick that was not quit, from the swarm it left: a
    /// win where no invader is left, a loss where one has reached the bottom
    /// row, else the game goes on.
    pub open spec fn phase_for(swarm: SwarmView) -> Phase {
        if swarm.army.len() == 0 {
            Phase::WinPending
        } else if swarm.reached_bottom() {
            Phase::LosePending
        } else {
            Phase::Running
        }
    }

    /// One tick. Outside `Running` nothing happens. A quit key ends the tick
    /// at once, with a loss pending and no frame. Else the player and the
    /// swarm are advanced by `delta`, hits are detected, and the frame shows
    /// the player with the swarm painted over it.
    pub open spec fn ticked(self, delta: u64, keys: Seq<Key>) -> TickOutcome {
        let handled = keys_prefix(self.player, keys, keys.len() as int);
        if self.phase != Phase::Running {
            TickOutcome { game: self, cues: Seq::empty(), frame: None }
        } else if handled.quit {
            TickOutcome {
                game: GameView { player: handled.player, phase: Phase::LosePending, ..self },
                cues: handled.cues,
                frame: None,
            }
        } else {
            let flown = handled.player.updated(delta);
            let marched = self.swarm.updated(delta);
            let hits = hits_prefix(flown.shots, marched.army, flown.shots.len() as int);
            let player = PlayerView { shots: hits.shots, ..flown };
            let swarm = SwarmView { army: hits.army, ..marched };
            let step_cue = if self.swarm.step_due(delta) { seq![Cue::Move] } else { Seq::empty() };
            let hit_cue = if hits.kills > 0 { seq![Cue::Explode] } else { Seq::empty() };
            TickOutcome {
                game: GameView { player, swarm, phase: Self::phase_for(swarm) },
                cues: handled.cues + step_cue + hit_cue,
                frame: Some(swarm_painted(swarm, player_painted(player, blank_grid()))),
            }
        }
    }

    /// The end of a game whose outcome is pending: the phase becomes
    /// `Terminated`. Any other phase stays.
    pub open spec fn finished(self) -> GameView {
        match self.phase {
            Phase::WinPending | Phase::LosePending => GameView { phase: Phase::Terminated, ..self },
            _ => self,
        }
    }

    /// The cue that ends the game: the one of a win or of a loss where that
    /// is pending, none in any other phase.
    pub open spec fn final_cue(self) -> Option<Cue> {
        match self.phase {
            Phase::WinPending => Some(Cue::Win),
            Phase::LosePending => Some(Cue::Lose),
            _ => None,
        }
    }
}

/// A tick keeps a valid game valid, never leaves `Running` for `Terminated`
/// directly, and shows a frame exactly when it ran to its end.
pub proof fn lemma_ticked(game: GameView, delta: u64, keys: Seq<Key>)
    requires
        game.wf(),
    ensures
        game.ticked(delta, keys).game.wf(),
        game.phase == Phase::Running ==> game.ticked(delta, keys).game.phase != Phase::Terminated,
        game.phase != Phase::Running ==> game.ticked(delta, keys).game == game,
        game.ticked(delta, keys).frame.is_some() <==> game.phase == Phase::Running && !keys_prefix(
            game.player,
            keys,
            keys.len() as int,
        ).quit,
{
    lemma_keys_keep_player(game.player, keys, keys.len() as int);
    let handled = keys_prefix(game.player, keys, keys.len() as int);
    let flown = handled.player.updated(delta);
    let marched = game.swarm.updated(delta);
    lemma_swarm_updated_wf(game.swarm, delta);
    lemma_hits(flown.shots, marched.army, flown.shots.len() as int);
}

/// Handling keys keeps the ship on the grid.
pub proof fn lemma_keys_keep_player(player: PlayerView, keys: Seq<Key>, n: int)
    requires
        player_wf(player),
    ensures
        player_wf(keys_prefix(player, keys, n).player),
    decreases n,
{
    if n > 0 {
        lemma_keys_keep_player(player, keys, n - 1);
    }
}

/// A step keeps every invader on the grid.
pub proof fn lemma_swarm_updated_wf(swarm: SwarmView, delta: u64)
    requires
        swarm_wf(swarm),
    ensures
        swarm_wf(swarm.updated(delta)),
{
    let next = swarm.updated(delta);
    if swarm.step_due(delta) {
        assert forall|i: int| 0 <= i < next.army.len() implies (#[trigger] next.army[i]).x < crate::frame::NUM_COLS
            && next.army[i].y < crate::frame::NUM_ROWS by {
            let inv = swarm.army[i];
            assert(inv.x < crate::frame::NUM_COLS && inv.y < crate::frame::NUM_ROWS);
        }
    }
}

/// What a tick hands out.
#[derive(Debug)]
pub struct Tick {
    /// The frame to send to the render side, where the tick drew one.
    pub frame: Option<Frame>,
    /// The cues to play, in order.
    pub cues: Vec<Cue>,
}

/// The simulation: the player, the swarm, and the phase of the game.
#[derive(Debug)]
pub struct Game {
    player: Player,
    invaders: Invaders,
    phase: Phase,
}

impl View for Game {
    type V = GameView;

    closed spec fn view(&self) -> GameView {
        GameView { player: self.player@, swarm: self.invaders@, phase: self.phase }
    }
}

impl Game {
    /// Validity of the game.
    pub open spec fn wf(&self) -> bool {
        self@.wf()
    }

    /// A new game, running.
    pub fn new() -> (game: Game)
        ensures
            game.wf(),
            game@ == (GameView {
                player: first_player(SHOOT_COOLDOWN),
                swarm: first_swarm(),
                phase: Phase::Running,
            }),
    {
        Game { player: Player::new(), invaders: Invaders::new(), phase: Phase::Running }
    }

    /// A running game of the given player and swarm.
    pub fn from_parts(player: Player, invaders: Invaders) -> (game: Game)
        requires
            player.wf(),
            invaders.wf(),
        ensures
            game.wf(),
            game@ == (GameView { player: player@, swarm: invaders@, phase: Phase::Running }),
    {
        Game { player, invaders, phase: Phase::Running }
    }

    /// The phase of the game.
    pub fn phase(&self) -> (phase: Phase)
        ensures
            phase == self@.phase,
    {
        self.phase
    }

    /// The player.
    pub fn player(&self) -> (player: &Player)
        ensures
            player@ == self@.player,
    {
        &self.player
    }

    /// The swarm.
    pub fn invaders(&self) -> (invaders: &Invaders)
        ensures
            invaders@ == self@.swarm,
    {
        &self.invaders
    }

    /// Handles the keys in order, up to the first quit key. Returns whether
    /// there was one; `cues` gets a cue for each shot fired.
    fn handle_keys(&mut self, keys: &Vec<Key>, cues: &mut Vec<Cue>) -> (quit: bool)
        requires
            old(self).wf(),
            old(cues)@.len() == 0,
        ensures
            final(self).wf(),
            final(self)@ == (GameView {
                player: keys_prefix(old(self)@.player, keys@, keys@.len() as int).player,
                ..old(self)@
            }),
            final(cues)@ == keys_prefix(old(self)@.player, keys@, keys@.len() as int).cues,
            quit == keys_prefix(old(self)@.player, keys@, keys@.len() as int).quit,
    {
        let mut i: usize = 0;
        let mut quit = false;
        assert(cues@ =~= Seq::empty());
        while i < keys.len()
            invariant
                i <= keys.len(),
                self.wf(),
                self@.swarm == old(self)@.swarm,
                self@.phase == old(self)@.phase,
                self@.player == keys_prefix(old(self)@.player, keys@, i as int).player,
                cues@ == keys_prefix(old(self)@.player, keys@, i as int).cues,
                quit == keys_prefix(old(self)@.player, keys@, i as int).quit,
            decreases keys.len() - i,
        {
            if !quit {
                match keys[i] {
                    Key::Left => self.player.move_left(),
                    Key::Right => self.player.move_right(),
                    Key::Fire => {
                        if self.player.shoot() {
                            cues.push(Cue::Pew);
                        }
                    },
                    Key::Quit => {
                        quit = true;
                    },
                    Key::Other => {},
                }
            }
            i += 1;
        }
        quit
    }

    /// One tick of the simulation: handles the keys pressed since the last
    /// tick, lets `delta` pass for the player and the swarm, detects hits,
    /// draws the player and then the swarm into a new frame, and decides
    /// whether the game is won or lost. A quit key ends the tick at once.
    /// Outside `Running` the tick does nothing and gives no frame.
    pub fn tick(&mut self, delta: u64, keys: &Vec<Key>) -> (tick: Tick)
        requires
            old(self).wf(),
        ensures
            final(self).wf(),
            final(self)@ == old(self)@.ticked(delta, keys@).game,
            tick.cues@ == old(self)@.ticked(delta, keys@).cues,
            tick.frame.is_some() == old(self)@.ticked(delta, keys@).frame.is_some(),
            tick.frame.is_some() ==> tick.frame.unwrap().wf() && tick.frame.unwrap()@ == old(self)@.ticked(
                delta,
                keys@,
            ).frame.unwrap(),
    {
        let mut cues: Vec<Cue> = Vec::new();
        if self.phase != Phase::Running {
            assert(cues@ =~= Seq::empty());
            return Tick { frame: None, cues };
        }
        if self.handle_keys(keys, &mut cues) {
            self.phase = Phase::LosePending;
            return Tick { frame: None, cues };
        }
        let ghost handled = cues@;
        self.player.update(delta);
        if self.invaders.update(delta) {
            cues.push(Cue::Move);
        }
        let ghost stepped = cues@;
        if self.player.detect_hits(&mut self.invaders) {
            cues.push(Cue::Explode);
        }
        let mut frame = new_frame();
        self.player.draw(&mut frame);
        self.invaders.draw(&mut frame);
        if self.invaders.all_killed() {
            self.phase = Phase::WinPending;
        } else if self.invaders.reached_bottom() {
            self.phase = Phase::LosePending;
        }
        proof {
            let step_cue = if old(self)@.swarm.step_due(delta) { seq![Cue::Move] } else { Seq::empty() };
            assert(stepped =~= handled + step_cue);
            assert(cues@ =~= old(self)@.ticked(delta, keys@).cues);
        }
        Tick { frame: Some(frame), cues }
    }

    /// Ends a game whose outcome is pending: returns the cue of the win or
    /// the loss, and the game is `Terminated`. In any other phase nothing
    /// changes and there is no cue.
    pub fn finish(&mut self) -> (cue: Option<Cue>)
        ensures
            cue == old(self)@.final_cue(),
            final(self)@ == old(self)@.finished(),
    {
        match self.phase {
            Phase::WinPending => {
                self.phase = Phase::Terminated;
                Some(Cue::Win)
            },
            Phase::LosePending => {
                self.phase = Phase::Terminated;
                Some(Cue::Lose)
            },
            _ => None,
        }
    }
}

} // verus!
