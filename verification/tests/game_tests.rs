use rustpunk::gamestate::GameState;
use rustpunk::map::GameMap;
use rustpunk::object::{Action, Character, Controller};
use rustpunk::pos::{Dir, Pos};
use rustpunk::rng::Rng;
use rustpunk::text::u32_string;

fn open_state(size: i32, roster: Vec<Character>, seed: u64) -> GameState {
    let map = GameMap::open_bordered(size).unwrap();
    GameState::from_parts(map, roster, seed).unwrap()
}

#[test]
fn three_moves_east_across_an_open_field() {
    let mut gs = open_state(16, vec![Character::player(Pos::new(1, 1))], 5);
    for _ in 0..3 {
        gs.player_action(Action::Move(Dir::E));
    }
    assert_eq!(gs.get_player().pos, Pos::new(4, 1));
    assert_eq!(gs.num_messages(), 0);
}

#[test]
fn moving_into_a_wall_leaves_position_unchanged() {
    let mut gs = open_state(16, vec![Character::player(Pos::new(1, 1))], 5);
    gs.player_action(Action::Move(Dir::W));
    assert_eq!(gs.get_player().pos, Pos::new(1, 1));
    gs.player_action(Action::Move(Dir::NW));
    assert_eq!(gs.get_player().pos, Pos::new(1, 1));
    assert_eq!(gs.num_messages(), 0);
}

#[test]
fn killing_blow_narrates_death_and_leaves_one_corpse() {
    let player = Character::player(Pos::new(1, 1));
    let mut wolf = Character::wolf(Pos::new(2, 1));
    wolf.health = 1;
    let mut gs = open_state(16, vec![player, wolf], 5);
    gs.player_action(Action::Move(Dir::E));
    let wolf_after = gs.get_object(1);
    assert!(!wolf_after.alive);
    assert!(!wolf_after.blocking);
    assert_eq!(wolf_after.inventory.len(), 1);
    assert_eq!(wolf_after.inventory.get_item(0).name, "corpse of grey wolf");
    assert_eq!(gs.num_messages(), 2);
    assert_eq!(gs.get_message(1).text, "grey wolf dies!");
    assert!(gs.get_message(0).text.starts_with("player attacks grey wolf for "));
    assert!(gs.get_message(0).text.ends_with(" damage."));
    // the attacker did not move onto the occupied cell
    assert_eq!(gs.get_player().pos, Pos::new(1, 1));
}

#[test]
fn attack_damage_stays_within_bounds() {
    let mut rng = Rng::new(77);
    let attacker = Character::player(Pos::new(1, 1));
    for _ in 0..100 {
        let d = attacker.roll_damage(&mut rng);
        assert!((1..=attacker.stat_block.strength / 2).contains(&d));
    }
}

#[test]
fn death_is_idempotent() {
    let mut c = Character::wolf(Pos::new(3, 3));
    c.die();
    assert!(!c.alive);
    assert_eq!(c.inventory.len(), 1);
    c.die();
    assert_eq!(c.inventory.len(), 1);
    assert_eq!(c.inventory.get_item(0).name, "corpse of grey wolf");
}

#[test]
fn take_damage_triggers_death_at_zero() {
    let mut c = Character::wolf(Pos::new(3, 3));
    assert_eq!(c.health, 5);
    c.take_damage(4);
    assert!(c.alive);
    assert_eq!(c.health, 1);
    c.take_damage(1);
    assert!(!c.alive);
    assert!(!c.blocking);
    assert_eq!(c.glyph, '%');
    assert_eq!(c.inventory.len(), 1);
}

#[test]
fn no_two_blocking_characters_share_a_cell_after_turns() {
    let mut gs = GameState::new(1234);
    for a in [
        Action::Move(Dir::E),
        Action::Move(Dir::S),
        Action::Idle,
        Action::Move(Dir::SE),
        Action::Move(Dir::W),
        Action::Idle,
        Action::Move(Dir::N),
        Action::Move(Dir::E),
    ] {
        gs.player_action(a);
        let n = gs.num_objects();
        for i in 0..n {
            for j in (i + 1)..n {
                let a = gs.get_object(i);
                let b = gs.get_object(j);
                if a.blocking && b.blocking {
                    assert_ne!(a.pos, b.pos);
                }
            }
        }
    }
}

#[test]
fn explored_is_monotonic_across_turns() {
    let mut gs = GameState::new(42);
    let size = gs.map_size();
    let mut explored: Vec<Pos> = Vec::new();
    for a in [
        Action::Idle,
        Action::Move(Dir::E),
        Action::Move(Dir::S),
        Action::Move(Dir::E),
        Action::Move(Dir::S),
        Action::Move(Dir::W),
    ] {
        gs.player_action(a);
        for p in &explored {
            assert!(gs.is_explored(*p));
        }
        explored.clear();
        for x in 0..size {
            for y in 0..size {
                let p = Pos::new(x, y);
                if gs.is_explored(p) {
                    explored.push(p);
                }
            }
        }
    }
}

#[test]
fn fresh_game_has_player_at_front() {
    let gs = GameState::new(2024);
    assert_eq!(gs.map_size(), 128);
    assert!(gs.num_objects() >= 1);
    assert!(gs.num_objects() <= 20);
    let player = gs.get_player();
    assert_eq!(player.name, "player");
    assert!(player.alive);
    assert_eq!(player.controller, Controller::PlayerController { action: Action::Idle });
    let ppos = player.pos;
    assert!(!gs.get_tile(ppos).solid);
    for i in 1..gs.num_objects() {
        let w = gs.get_object(i);
        assert_eq!(w.name, "grey wolf");
        assert_eq!(w.controller, Controller::AggressiveAI { last_player_pos: None });
        assert!(w.alive);
        assert!(!gs.get_tile(w.pos).solid);
    }
}

#[test]
fn fresh_games_with_one_seed_are_identical() {
    let a = GameState::new(555);
    let b = GameState::new(555);
    assert_eq!(a.num_objects(), b.num_objects());
    for i in 0..a.num_objects() {
        assert_eq!(a.get_object(i).pos, b.get_object(i).pos);
    }
    for x in 0..a.map_size() {
        for y in 0..a.map_size() {
            let p = Pos::new(x, y);
            assert_eq!(a.get_tile(p).solid, b.get_tile(p).solid);
        }
    }
    let c = GameState::new(556);
    let mut differs = false;
    for x in 0..a.map_size() {
        for y in 0..a.map_size() {
            let p = Pos::new(x, y);
            if a.get_tile(p).solid != c.get_tile(p).solid {
                differs = true;
            }
        }
    }
    assert!(differs);
}

#[test]
fn pickup_and_drop_conserve_items() {
    let player = Character::player(Pos::new(1, 1));
    let mut corpse_holder = Character::wolf(Pos::new(1, 1));
    corpse_holder.die();
    assert_eq!(corpse_holder.inventory.len(), 1);
    let mut gs = open_state(16, vec![player, corpse_holder], 5);
    // pick the corpse item up from the ground entity under the player
    gs.player_action(Action::GetItem(0));
    assert_eq!(gs.get_player().inventory.len(), 1);
    assert_eq!(gs.get_object(1).inventory.len(), 0);
    assert_eq!(gs.get_player().inventory.get_item(0).name, "corpse of grey wolf");
    // drop it back
    gs.player_action(Action::DropItem(0));
    assert_eq!(gs.get_player().inventory.len(), 0);
    assert_eq!(gs.get_object(1).inventory.len(), 1);
}

#[test]
fn pickup_with_no_ground_entity_is_a_silent_no_op() {
    let mut gs = open_state(16, vec![Character::player(Pos::new(1, 1))], 5);
    gs.player_action(Action::GetItem(0));
    assert_eq!(gs.get_player().inventory.len(), 0);
    assert_eq!(gs.num_messages(), 0);
    // out-of-range index against a present ground entity is also a no-op
    let player = Character::player(Pos::new(1, 1));
    let mut dead = Character::wolf(Pos::new(1, 1));
    dead.die();
    let mut gs2 = open_state(16, vec![player, dead], 5);
    gs2.player_action(Action::GetItem(7));
    assert_eq!(gs2.get_player().inventory.len(), 0);
    assert_eq!(gs2.get_object(1).inventory.len(), 1);
}

#[test]
fn aggressive_ai_records_player_position_when_seen() {
    let player = Character::player(Pos::new(1, 1));
    let wolf = Character::wolf(Pos::new(6, 1));
    let mut gs = open_state(16, vec![player, wolf], 5);
    // first turn computes the first field of view; nothing was visible yet,
    // so the wolf has no memory and stays put
    gs.player_action(Action::Idle);
    assert_eq!(
        gs.get_object(1).controller,
        Controller::AggressiveAI { last_player_pos: None }
    );
    assert_eq!(gs.get_object(1).pos, Pos::new(6, 1));
    // with the field of view in place the wolf sees the player, records the
    // position, and steps towards it
    gs.player_action(Action::Idle);
    assert_eq!(
        gs.get_object(1).controller,
        Controller::AggressiveAI { last_player_pos: Some(Pos::new(1, 1)) }
    );
    assert_eq!(gs.get_object(1).pos, Pos::new(5, 1));
}

#[test]
fn aggressive_ai_walks_to_last_seen_spot_and_then_idles() {
    // a wall splits the map into two sealed rooms; the wolf on the west
    // side holds a stale memory of a spot it once saw the player at, while
    // the player hides on the east side, out of sight for good
    let mut map = GameMap::open_bordered(16).unwrap();
    for y in 1..15 {
        map.set_wall(Pos::new(8, y));
    }
    let player = Character::player(Pos::new(12, 7));
    let mut wolf = Character::wolf(Pos::new(2, 2));
    wolf.controller = Controller::AggressiveAI { last_player_pos: Some(Pos::new(5, 5)) };
    let mut gs = GameState::from_parts(map, vec![player, wolf], 5).unwrap();
    let target = Pos::new(5, 5);
    // the wolf closes in on the remembered spot one step per turn
    let expected = [Pos::new(3, 3), Pos::new(4, 4), Pos::new(5, 5)];
    for e in expected {
        gs.player_action(Action::Idle);
        assert_eq!(gs.get_object(1).pos, e);
        assert_eq!(
            gs.get_object(1).controller,
            Controller::AggressiveAI { last_player_pos: Some(target) }
        );
    }
    // arrived: it idles there indefinitely, memory intact
    for _ in 0..4 {
        gs.player_action(Action::Idle);
        assert_eq!(gs.get_object(1).pos, target);
        assert_eq!(
            gs.get_object(1).controller,
            Controller::AggressiveAI { last_player_pos: Some(target) }
        );
    }
}

#[test]
fn from_parts_rejects_bad_rosters() {
    let map = GameMap::open_bordered(16).unwrap();
    // empty roster
    assert!(GameState::from_parts(map, vec![], 1).is_none());
    // no player relay at index zero
    let map = GameMap::open_bordered(16).unwrap();
    assert!(GameState::from_parts(map, vec![Character::wolf(Pos::new(1, 1))], 1).is_none());
    // two blocking characters on one cell
    let map = GameMap::open_bordered(16).unwrap();
    let roster = vec![Character::player(Pos::new(1, 1)), Character::wolf(Pos::new(1, 1))];
    assert!(GameState::from_parts(map, roster, 1).is_none());
    // a character off the grid
    let map = GameMap::open_bordered(16).unwrap();
    let roster = vec![Character::player(Pos::new(99, 1))];
    assert!(GameState::from_parts(map, roster, 1).is_none());
}

#[test]
fn message_log_only_grows() {
    let player = Character::player(Pos::new(1, 1));
    let wolf = Character::wolf(Pos::new(2, 1));
    let mut gs = open_state(16, vec![player, wolf], 5);
    let mut prev: Vec<String> = Vec::new();
    for _ in 0..6 {
        gs.player_action(Action::Move(Dir::E));
        let n = gs.num_messages();
        assert!(n >= prev.len());
        for (i, old) in prev.iter().enumerate() {
            assert_eq!(&gs.get_message(i).text, old);
        }
        prev = (0..n).map(|i| gs.get_message(i).text.clone()).collect();
    }
    assert!(gs.num_messages() > 0);
}

#[test]
fn decimal_rendering() {
    assert_eq!(u32_string(0), "0");
    assert_eq!(u32_string(7), "7");
    assert_eq!(u32_string(10), "10");
    assert_eq!(u32_string(12345), "12345");
    assert_eq!(u32_string(4294967295), "4294967295");
}
