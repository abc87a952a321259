use invaders::frame::{new_frame, Cell, Drawable, NUM_COLS, NUM_ROWS};
use invaders::game::{all_cues, key_for, Cue, Game, Key, Phase, Pressed};
use invaders::invaders::{Invader, Invaders, BOTTOM_ROW};
use invaders::player::{Player, Shot, SHOOT_COOLDOWN};

fn swarm_of(cells: &[(usize, usize)]) -> Invaders {
    let army: Vec<Invader> = cells.iter().map(|&(x, y)| Invader { x, y }).collect();
    Invaders::from_army(army, 2000).expect("on the grid")
}

#[test]
fn new_player_stands_in_the_middle_of_the_bottom_row() {
    let player = Player::new();
    assert_eq!(player.x(), NUM_COLS / 2);
    assert_eq!(player.y(), NUM_ROWS - 1);
    assert_eq!(player.shots().len(), 0);
}

#[test]
fn ship_stops_at_the_edges() {
    let mut player = Player::new();
    player.move_left();
    assert_eq!(player.x(), 19);
    for _ in 0..100 {
        player.move_left();
    }
    assert_eq!(player.x(), 0);
    player.move_left();
    assert_eq!(player.x(), 0);
    for _ in 0..100 {
        player.move_right();
    }
    assert_eq!(player.x(), NUM_COLS - 1);
}

#[test]
fn shoot_waits_for_the_cooldown() {
    let mut player = Player::with_cooldown(3);
    let mut fired = Vec::new();
    for _tick in 0..3 {
        fired.push(player.shoot());
        player.update(1);
    }
    assert_eq!(fired, vec![true, false, false]);
    assert_eq!(player.shots().len(), 1);
    assert!(player.shoot());
    assert_eq!(player.shots().len(), 2);
}

#[test]
fn shoot_twice_at_once_fires_once() {
    let mut player = Player::new();
    assert!(player.shoot());
    assert!(!player.shoot());
    player.update(SHOOT_COOLDOWN - 1);
    assert!(!player.shoot());
    player.update(1);
    assert!(player.shoot());
}

#[test]
fn shot_starts_above_the_ship_and_flies_up() {
    let mut player = Player::new();
    assert!(player.shoot());
    assert_eq!(player.shots(), vec![Shot { x: 20, y: 18, exploding: false, time_left: 50 }]);
    player.update(20);
    assert_eq!(player.shots(), vec![Shot { x: 20, y: 18, exploding: false, time_left: 30 }]);
    player.update(30);
    assert_eq!(player.shots(), vec![Shot { x: 20, y: 17, exploding: false, time_left: 50 }]);
}

#[test]
fn shot_leaves_at_the_top_row() {
    let mut player = Player::new();
    assert!(player.shoot());
    for _ in 0..17 {
        player.update(50);
    }
    assert_eq!(player.shots(), vec![Shot { x: 20, y: 1, exploding: false, time_left: 50 }]);
    player.update(50);
    assert_eq!(player.shots().len(), 0);
}

#[test]
fn shot_methods() {
    let mut shot = Shot::new(4, 5);
    assert!(!shot.dead());
    shot.explode();
    assert_eq!(shot, Shot { x: 4, y: 5, exploding: true, time_left: 250 });
    shot.update(249);
    assert!(!shot.dead());
    shot.update(5);
    assert_eq!(shot.time_left, 0);
    assert_eq!(shot.y, 5);
    assert!(shot.dead());
}

#[test]
fn one_shot_on_an_invader_is_a_hit() {
    let mut player = Player::new();
    assert!(player.shoot());
    let mut swarm = swarm_of(&[(20, 18), (22, 18)]);
    assert_eq!(swarm.count(), 2);
    assert!(player.detect_hits(&mut swarm));
    assert_eq!(swarm.count(), 1);
    assert_eq!(swarm.positions(), vec![Invader { x: 22, y: 18 }]);
    assert_eq!(player.shots(), vec![Shot { x: 20, y: 18, exploding: true, time_left: 250 }]);
    assert!(!player.detect_hits(&mut swarm));
    assert_eq!(swarm.count(), 1);
}

#[test]
fn no_overlap_is_no_hit() {
    let mut player = Player::new();
    assert!(player.shoot());
    let mut swarm = swarm_of(&[(21, 18), (20, 17)]);
    assert!(!player.detect_hits(&mut swarm));
    assert_eq!(swarm.count(), 2);
    assert_eq!(player.shots(), vec![Shot { x: 20, y: 18, exploding: false, time_left: 50 }]);
}

#[test]
fn exploding_shot_hits_nothing_more() {
    let mut player = Player::with_cooldown(0);
    assert!(player.shoot());
    let mut swarm = swarm_of(&[(20, 18), (20, 18)]);
    assert!(player.detect_hits(&mut swarm));
    assert_eq!(swarm.count(), 1);
    assert!(!player.detect_hits(&mut swarm));
    assert!(player.shoot());
    assert!(player.detect_hits(&mut swarm));
    assert!(swarm.all_killed());
}

#[test]
fn kill_invader_at_removes_the_first_on_the_cell() {
    let mut swarm = swarm_of(&[(2, 2), (4, 2), (6, 2)]);
    assert!(!swarm.kill_invader_at(3, 2));
    assert_eq!(swarm.count(), 3);
    assert!(swarm.kill_invader_at(4, 2));
    assert_eq!(swarm.positions(), vec![Invader { x: 2, y: 2 }, Invader { x: 6, y: 2 }]);
    assert!(!swarm.kill_invader_at(4, 2));
}

#[test]
fn new_swarm_formation() {
    let swarm = Invaders::new();
    assert_eq!(swarm.count(), 72);
    let army = swarm.positions();
    assert_eq!(army[0], Invader { x: 2, y: 2 });
    assert_eq!(army[1], Invader { x: 2, y: 4 });
    assert_eq!(army[4], Invader { x: 4, y: 2 });
    assert_eq!(army[71], Invader { x: 36, y: 8 });
    assert!(!swarm.all_killed());
    assert!(!swarm.reached_bottom());
}

#[test]
fn from_army_refuses_an_invader_outside_the_grid() {
    assert!(Invaders::from_army(vec![Invader { x: NUM_COLS, y: 0 }], 2000).is_none());
    assert!(Invaders::from_army(vec![Invader { x: 0, y: NUM_ROWS }], 2000).is_none());
    assert!(Invaders::from_army(vec![Invader { x: NUM_COLS - 1, y: NUM_ROWS - 1 }], 2000).is_some());
    assert!(Invaders::from_army(vec![], 2000).is_some());
}

#[test]
fn reached_bottom_goes_by_the_bottom_row() {
    assert_eq!(BOTTOM_ROW, NUM_ROWS - 1);
    assert!(!swarm_of(&[]).reached_bottom());
    assert!(!swarm_of(&[(3, 18), (9, 0)]).reached_bottom());
    assert!(swarm_of(&[(3, 18), (9, 19)]).reached_bottom());
    let mut swarm = swarm_of(&[(3, 18), (9, 19)]);
    assert!(swarm.kill_invader_at(9, 19));
    assert!(!swarm.reached_bottom());
}

#[test]
fn swarm_steps_when_its_time_is_up() {
    let mut swarm = swarm_of(&[(5, 5), (7, 5)]);
    assert!(!swarm.update(1999));
    assert_eq!(swarm.positions(), vec![Invader { x: 5, y: 5 }, Invader { x: 7, y: 5 }]);
    assert!(swarm.update(1));
    assert_eq!(swarm.positions(), vec![Invader { x: 6, y: 5 }, Invader { x: 8, y: 5 }]);
    assert!(!swarm.update(0));
}

#[test]
fn swarm_descends_at_the_edge_turns_and_speeds_up() {
    let mut swarm = swarm_of(&[(39, 5), (30, 6)]);
    assert!(swarm.update(2000));
    assert_eq!(swarm.positions(), vec![Invader { x: 39, y: 6 }, Invader { x: 30, y: 7 }]);
    assert!(!swarm.update(1749));
    assert!(swarm.update(1));
    assert_eq!(swarm.positions(), vec![Invader { x: 38, y: 6 }, Invader { x: 29, y: 7 }]);
}

#[test]
fn step_time_never_falls_under_its_floor() {
    let army = vec![Invader { x: 39, y: 0 }];
    let mut swarm = Invaders::from_army(army, 300).unwrap();
    assert!(swarm.update(300));
    assert!(!swarm.update(249));
    assert!(swarm.update(1));
}

#[test]
fn invaders_are_drawn_over_the_player() {
    let player = Player::new();
    let swarm = swarm_of(&[(20, 19), (1, 1)]);
    let mut frame = new_frame();
    player.draw(&mut frame);
    assert_eq!(frame.get(20, 19), Cell::Glyph('A'));
    swarm.draw(&mut frame);
    assert_eq!(frame.get(20, 19), Cell::Glyph('x'));
    assert_eq!(frame.get(1, 1), Cell::Glyph('x'));
}

#[test]
fn invader_glyph_changes_halfway_to_the_next_step() {
    let mut swarm = swarm_of(&[(1, 1)]);
    let mut frame = new_frame();
    swarm.update(999);
    swarm.draw(&mut frame);
    assert_eq!(frame.get(1, 1), Cell::Glyph('x'));
    swarm.update(1);
    swarm.draw(&mut frame);
    assert_eq!(frame.get(1, 1), Cell::Glyph('+'));
}

#[test]
fn keys_of_characters() {
    assert_eq!(key_for(Pressed::Left), Key::Left);
    assert_eq!(key_for(Pressed::Right), Key::Right);
    assert_eq!(key_for(Pressed::Enter), Key::Fire);
    assert_eq!(key_for(Pressed::Char(' ')), Key::Fire);
    assert_eq!(key_for(Pressed::Esc), Key::Quit);
    assert_eq!(key_for(Pressed::Char('q')), Key::Quit);
    assert_eq!(key_for(Pressed::Char('Q')), Key::Other);
    assert_eq!(key_for(Pressed::Char('a')), Key::Other);
    assert_eq!(key_for(Pressed::Unknown), Key::Other);
}

#[test]
fn cue_names() {
    let names: Vec<&str> = all_cues().into_iter().map(|cue| cue.name()).collect();
    assert_eq!(names, vec!["explode", "lose", "move", "pew", "startup", "win"]);
}

#[test]
fn tick_draws_player_and_swarm() {
    let mut game = Game::new();
    assert_eq!(game.phase(), Phase::Running);
    let tick = game.tick(0, &vec![Key::Left, Key::Other, Key::Fire]);
    assert_eq!(tick.cues, vec![Cue::Pew]);
    let frame = tick.frame.expect("a frame");
    assert_eq!(frame.get(19, 19), Cell::Glyph('A'));
    assert_eq!(frame.get(19, 18), Cell::Glyph('|'));
    assert_eq!(frame.get(2, 2), Cell::Glyph('x'));
    assert_eq!(frame.get(3, 2), Cell::Empty);
    assert_eq!(game.phase(), Phase::Running);
    assert_eq!(game.player().x(), 19);
    assert_eq!(game.invaders().count(), 72);
}

#[test]
fn fire_key_on_cooldown_gives_no_cue() {
    let mut game = Game::new();
    let tick = game.tick(0, &vec![Key::Fire, Key::Fire, Key::Other]);
    assert_eq!(tick.cues, vec![Cue::Pew]);
    assert_eq!(game.player().shots().len(), 1);
}

#[test]
fn swarm_step_gives_the_move_cue() {
    let mut game = Game::new();
    assert_eq!(game.tick(1999, &vec![]).cues, vec![]);
    assert_eq!(game.tick(1, &vec![]).cues, vec![Cue::Move]);
}

#[test]
fn quit_key_ends_the_tick_at_once() {
    let mut game = Game::new();
    let tick = game.tick(5000, &vec![Key::Right, Key::Quit, Key::Fire, Key::Left]);
    assert!(tick.frame.is_none());
    assert_eq!(tick.cues, vec![]);
    assert_eq!(game.phase(), Phase::LosePending);
    assert_eq!(game.player().x(), 21);
    assert_eq!(game.player().shots().len(), 0);
    assert_eq!(game.invaders().positions()[0], Invader { x: 2, y: 2 });
    assert_eq!(game.finish(), Some(Cue::Lose));
    assert_eq!(game.phase(), Phase::Terminated);
    assert_eq!(game.finish(), None);
}

#[test]
fn last_invader_shot_wins_the_game() {
    let mut game = Game::from_parts(Player::new(), swarm_of(&[(20, 18)]));
    let tick = game.tick(0, &vec![Key::Fire]);
    assert_eq!(tick.cues, vec![Cue::Pew, Cue::Explode]);
    let frame = tick.frame.expect("a frame");
    assert_eq!(frame.get(20, 18), Cell::Glyph('*'));
    assert_eq!(game.phase(), Phase::WinPending);
    assert_eq!(game.finish(), Some(Cue::Win));
    assert_eq!(game.phase(), Phase::Terminated);
}

#[test]
fn invader_on_the_bottom_row_loses_the_game() {
    let mut game = Game::from_parts(Player::new(), swarm_of(&[(39, 18)]));
    let tick = game.tick(2000, &vec![]);
    assert_eq!(tick.cues, vec![Cue::Move]);
    assert!(tick.frame.is_some());
    assert_eq!(game.phase(), Phase::LosePending);
    assert_eq!(game.finish(), Some(Cue::Lose));
}

#[test]
fn no_tick_after_the_end() {
    let mut game = Game::from_parts(Player::new(), swarm_of(&[]));
    assert!(game.tick(0, &vec![]).frame.is_some());
    assert_eq!(game.phase(), Phase::WinPending);
    let tick = game.tick(10, &vec![Key::Fire]);
    assert!(tick.frame.is_none());
    assert_eq!(tick.cues, vec![]);
    assert_eq!(game.phase(), Phase::WinPending);
    game.finish();
    let tick = game.tick(10, &vec![Key::Fire]);
    assert!(tick.frame.is_none());
    assert_eq!(tick.cues, vec![]);
    assert_eq!(game.phase(), Phase::Terminated);
    assert_eq!(game.finish(), None);
}
