use rustpunk::gamestate::GameState;
use rustpunk::map::GameMap;
use rustpunk::object::{Action, Character, Controller};
use rustpunk::pos::{Dir, Pos};

fn open_state(size: i32, roster: Vec<Character>, seed: u64) -> GameState {
    let map = GameMap::open_bordered(size).unwrap();
    GameState::from_parts(map, roster, seed).unwrap()
}

#[test]
fn dummy_controller_always_idles() {
    let gs = open_state(16, vec![Character::player(Pos::new(1, 1))], 1);
    let c = Character::new(
        Pos::new(3, 3),
        'd',
        rustpunk::tile::Color::White,
        "dummy",
        rustpunk::object::Faction::Wolves,
    );
    assert!(matches!(c.controller, Controller::Dummy));
    assert_eq!(c.next_action(&gs), Action::Idle);
}

#[test]
fn player_relay_returns_the_installed_action() {
    let gs = open_state(16, vec![Character::player(Pos::new(1, 1))], 1);
    let mut c = Character::player(Pos::new(2, 2));
    c.controller = Controller::PlayerController { action: Action::Move(Dir::NW) };
    assert_eq!(c.next_action(&gs), Action::Move(Dir::NW));
    c.controller = Controller::PlayerController { action: Action::GetItem(3) };
    assert_eq!(c.next_action(&gs), Action::GetItem(3));
}

#[test]
fn pursuit_controller_heads_for_its_memory() {
    let gs = open_state(16, vec![Character::player(Pos::new(1, 1))], 1);
    let mut c = Character::wolf(Pos::new(5, 5));
    c.controller = Controller::AggressiveAI { last_player_pos: Some(Pos::new(9, 2)) };
    assert_eq!(c.next_action(&gs), Action::Move(Dir::NE));
    c.controller = Controller::AggressiveAI { last_player_pos: Some(Pos::new(5, 5)) };
    assert_eq!(c.next_action(&gs), Action::Idle);
    c.controller = Controller::AggressiveAI { last_player_pos: None };
    assert_eq!(c.next_action(&gs), Action::Idle);
}

#[test]
fn move_towards_matches_dir_towards() {
    let c = Character::wolf(Pos::new(5, 5));
    assert_eq!(c.move_towards(Pos::new(5, 1)), Action::Move(Dir::N));
    assert_eq!(c.move_towards(Pos::new(5, 5)), Action::Idle);
}

#[test]
fn earlier_movers_are_observable_within_the_same_tick() {
    // the wolf's observation runs after the player has already moved this
    // turn, so its memory records the player's new position, not the old one
    let player = Character::player(Pos::new(2, 2));
    let wolf = Character::wolf(Pos::new(8, 2));
    let mut gs = open_state(16, vec![player, wolf], 9);
    gs.player_action(Action::Idle);
    gs.player_action(Action::Move(Dir::S));
    assert_eq!(gs.get_player().pos, Pos::new(2, 3));
    assert_eq!(
        gs.get_object(1).controller,
        Controller::AggressiveAI { last_player_pos: Some(Pos::new(2, 3)) }
    );
}

#[test]
fn same_seed_replays_identically() {
    let build = || {
        let player = Character::player(Pos::new(1, 1));
        let wolf = Character::wolf(Pos::new(2, 1));
        open_state(16, vec![player, wolf], 31)
    };
    let mut a = build();
    let mut b = build();
    for _ in 0..5 {
        a.player_action(Action::Move(Dir::E));
        b.player_action(Action::Move(Dir::E));
    }
    assert_eq!(a.num_messages(), b.num_messages());
    for i in 0..a.num_messages() {
        assert_eq!(a.get_message(i).text, b.get_message(i).text);
    }
    assert_eq!(a.get_player().pos, b.get_player().pos);
    assert_eq!(a.get_object(1).health, b.get_object(1).health);
}

#[test]
fn attack_message_has_the_rolled_damage() {
    let player = Character::player(Pos::new(1, 1));
    let mut wolf = Character::wolf(Pos::new(2, 1));
    wolf.health = 500;
    let mut gs = open_state(16, vec![player, wolf], 77);
    gs.player_action(Action::Move(Dir::E));
    // the wolf stands adjacent, spots the player, and strikes back in the
    // same turn: one message per attack
    assert_eq!(gs.num_messages(), 2);
    assert!(gs.get_message(1).text.starts_with("grey wolf attacks player for "));
    let text = gs.get_message(0).text.clone();
    let rest = text.strip_prefix("player attacks grey wolf for ").unwrap();
    let num = rest.strip_suffix(" damage.").unwrap();
    let d: i32 = num.parse().unwrap();
    assert!((1..=5).contains(&d));
    let wolf_after = gs.get_object(1);
    assert_eq!(wolf_after.health, 500 - d);
}
