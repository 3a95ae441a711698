//! Characters, their stats and combat, and the controllers that decide
//! their actions.

use vstd::prelude::*;
use crate::gamestate::GameState;
use crate::item::{Inventory, Item, ItemEffect, WearLoc};
use crate::message::Message;
use crate::pos::{Dir, Pos};
use crate::rng::Rng;
use crate::text::{concat_strs, spec_digits, u32_string};
use crate::tile::Color;

verus! {

/// What a character intends to do this turn.
#[derive(Clone, Copy, Debug, PartialEq, Eq, Structural)]
pub enum Action {
    Idle,
    Move(Dir),
    GetItem(i32),
    DropItem(i32),
}

/// A grouping label. Any two distinct blocking characters can collide into
/// combat regardless of faction.
#[derive(Clone, Copy, Debug, PartialEq, Eq, Structural)]
pub enum Faction {
    Player,
    Wolves,
}

/// The strategy producing a character's next intended action.
#[derive(Clone, Copy, Debug, PartialEq, Eq, Structural)]
pub enum Controller {
    Dummy,
    AggressiveAI { last_player_pos: Option<Pos> },
    PlayerController { action: Action },
}

/// A character's stat block.
#[derive(Clone, Copy, Debug, PartialEq, Eq, Structural)]
pub struct StatBlock {
    pub strength: i32,
    pub agility: i32,
    pub constitution: i32,
}

/// A character: position, presentation, stats, faction, life state, the
/// controller that drives it, and the inventory it owns.
#[derive(Debug)]
pub struct Character {
    pub pos: Pos,
    pub glyph: char,
    pub color: Color,
    pub name: &'static str,
    pub health: i32,
    pub faction: Faction,
    pub alive: bool,
    pub blocking: bool,
    pub stat_block: StatBlock,
    pub controller: Controller,
    pub inventory: Inventory,
}

/// The item appended to a dead character's own inventory.
pub open spec fn is_corpse_of(it: Item, name: Seq<char>) -> bool {
    &&& it.name@ == "corpse of "@ + name
    &&& it.description@ == "It's a corpse."@
    &&& it.on_use@ == Seq::<ItemEffect>::empty()
    &&& it.wearable@ == Seq::<WearLoc>::empty()
    &&& !it.consumable
}

/// The death transition from a living character: marked inert and
/// non-blocking, shown as a corpse, and exactly one corpse item appended to
/// its own inventory.
pub open spec fn spec_died_from(pre: Character, post: Character) -> bool {
    &&& post.pos == pre.pos
    &&& post.name == pre.name
    &&& post.health == pre.health
    &&& post.faction == pre.faction
    &&& post.stat_block == pre.stat_block
    &&& post.controller == pre.controller
    &&& !post.alive
    &&& !post.blocking
    &&& post.glyph == '%'
    &&& post.color == Color::DarkRed
    &&& post.inventory@.len() == pre.inventory@.len() + 1
    &&& post.inventory@ == pre.inventory@.push(post.inventory@.last())
    &&& is_corpse_of(post.inventory@.last(), pre.name@)
}

/// What one invocation of the death transition does: a living character
/// dies, a dead one is left exactly as it was.
pub open spec fn spec_die_step(pre: Character, post: Character) -> bool {
    if pre.alive {
        spec_died_from(pre, post)
    } else {
        post == pre
    }
}

/// Applying `damage` to a living character: health drops by `damage`, and
/// the death transition fires just when it reaches zero or below.
pub open spec fn spec_damaged(pre: Character, post: Character, damage: int) -> bool {
    if pre.health - damage <= 0 {
        spec_died_from(Character { health: (pre.health - damage) as i32, ..pre }, post)
    } else {
        post == (Character { health: (pre.health - damage) as i32, ..pre })
    }
}

/// The text narrated for a resolved attack.
pub open spec fn spec_attack_text(att: Seq<char>, def: Seq<char>, damage: int) -> Seq<char> {
    att + " attacks "@ + def + " for "@ + spec_digits(damage) + " damage."@
}

/// The text narrated when a character dies.
pub open spec fn spec_death_text(name: Seq<char>) -> Seq<char> {
    name + " dies!"@
}

impl Controller {
    /// The relayed controller a player character starts with.
    pub fn player_controller() -> (c: Controller)
        ensures
            c == (Controller::PlayerController { action: Action::Idle }),
    {
        Controller::PlayerController { action: Action::Idle }
    }

    /// A pursuit controller with no memory of the player yet.
    pub fn aggressive_ai() -> (c: Controller)
        ensures
            c == (Controller::AggressiveAI { last_player_pos: None }),
    {
        Controller::AggressiveAI { last_player_pos: None }
    }

    /// The action this controller picks for `obj`: idle for `Dummy`, the
    /// installed action for the player relay, and for the pursuit strategy a
    /// step towards the remembered player position, idling once there or
    /// while no position is remembered.
    pub open spec fn spec_next_action(self, obj: Character) -> Action {
        match self {
            Controller::Dummy => Action::Idle,
            Controller::PlayerController { action } => action,
            Controller::AggressiveAI { last_player_pos } => match last_player_pos {
                Some(p) => match obj.pos.spec_dir_towards(p) {
                    Some(dir) => Action::Move(dir),
                    None => Action::Idle,
                },
                None => Action::Idle,
            },
        }
    }

    /// Picks the next action for `obj`.
    pub fn next_action(&self, obj: &Character, _gs: &GameState) -> (a: Action)
        ensures
            a == self.spec_next_action(*obj),
    {
        match self {
            Controller::Dummy => Action::Idle,
            Controller::PlayerController { action } => *action,
            Controller::AggressiveAI { last_player_pos } => match last_player_pos {
                Some(p) => match obj.pos.dir_towards(*p) {
                    Some(dir) => Action::Move(dir),
                    None => Action::Idle,
                },
                None => Action::Idle,
            },
        }
    }

    /// What observing the world does to this controller: the pursuit
    /// strategy overwrites its memory with the player's current position
    /// whenever its owner has line of sight to the player — the memory is
    /// never cleared on losing sight — and every other controller ignores
    /// the observation.
    pub open spec fn spec_update(self, obj: Character, gs: GameState) -> Controller {
        match self {
            Controller::AggressiveAI { last_player_pos } => {
                if gs.map_of().spec_los_visible(obj.pos, gs.player_spec().pos) {
                    Controller::AggressiveAI { last_player_pos: Some(gs.player_spec().pos) }
                } else {
                    self
                }
            },
            _ => self,
        }
    }

    /// Lets the controller observe the world before acting.
    pub fn update(&mut self, obj: &Character, gs: &GameState)
        requires
            gs.wf(),
            gs.map_of().in_bounds(obj.pos),
        ensures
            *final(self) == old(self).spec_update(*obj, *gs),
    {
        match self {
            Controller::AggressiveAI { last_player_pos } => {
                let player_pos = gs.get_player().pos;
                if gs.check_los(obj.pos, player_pos) {
                    *last_player_pos = Some(player_pos);
                }
            },
            _ => {},
        }
    }
}

impl Character {
    /// Stat bounds and the life/blocking coupling every character in play
    /// keeps: living characters block and have positive bounded health,
    /// dead ones never block. The numeric bounds are headroom chosen by
    /// this library (wide enough for every character it creates) so that
    /// damage arithmetic can be proved free of overflow.
    pub open spec fn wf(self) -> bool {
        &&& 2 <= self.stat_block.strength <= 100
        &&& 0 <= self.stat_block.agility <= 100
        &&& 2 <= self.stat_block.constitution <= 100
        &&& self.alive ==> 1 <= self.health <= 500
        &&& !self.alive ==> -1000 <= self.health <= 500
        &&& self.alive == self.blocking
    }

    /// The well-formedness bounds, checked executably.
    pub fn check_wf(&self) -> (b: bool)
        ensures
            b == self.wf(),
    {
        2 <= self.stat_block.strength && self.stat_block.strength <= 100
            && 0 <= self.stat_block.agility && self.stat_block.agility <= 100
            && 2 <= self.stat_block.constitution && self.stat_block.constitution <= 100 && (
        !self.alive || (1 <= self.health && self.health <= 500)) && (self.alive || (-1000
            <= self.health && self.health <= 500)) && self.alive == self.blocking
    }

    /// The largest damage one attack by this character can deal.
    pub open spec fn spec_max_damage(self) -> int {
        self.stat_block.strength / 2
    }

    /// The health this character starts with.
    pub open spec fn spec_max_health(self) -> int {
        self.stat_block.constitution / 2
    }

    /// A fresh living character with default stats, a `Dummy` controller
    /// and an empty inventory.
    pub fn new(pos: Pos, glyph: char, color: Color, name: &'static str, faction: Faction) -> (c:
        Character)
        ensures
            c.pos == pos,
            c.glyph == glyph,
            c.color == color,
            c.name == name,
            c.health == 10,
            c.faction == faction,
            c.alive,
            c.blocking,
            c.stat_block == (StatBlock { strength: 10, agility: 10, constitution: 10 }),
            c.controller == Controller::Dummy,
            c.inventory@ == Seq::<Item>::empty(),
            c.wf(),
    {
        Character {
            pos,
            glyph,
            color,
            name,
            health: 10,
            faction,
            alive: true,
            blocking: true,
            stat_block: StatBlock { strength: 10, agility: 10, constitution: 10 },
            controller: Controller::Dummy,
            inventory: Inventory::new(),
        }
    }

    /// The player character: full health and a relayed controller.
    pub fn player(pos: Pos) -> (c: Character)
        ensures
            c.pos == pos,
            c.glyph == '@',
            c.color == Color::White,
            c.name@ == "player"@,
            c.health == 5,
            c.faction == Faction::Player,
            c.alive,
            c.blocking,
            c.stat_block == (StatBlock { strength: 10, agility: 10, constitution: 10 }),
            c.controller == (Controller::PlayerController { action: Action::Idle }),
            c.inventory@ == Seq::<Item>::empty(),
            c.wf(),
    {
        let mut c = Character::new(pos, '@', Color::White, "player", Faction::Player);
        c.health = c.max_health();
        c.controller = Controller::player_controller();
        c
    }

    /// A hostile wolf: a pursuit controller and a weaker stat block.
    pub fn wolf(pos: Pos) -> (c: Character)
        ensures
            c.pos == pos,
            c.glyph == 'w',
            c.color == Color::DarkGrey,
            c.name@ == "grey wolf"@,
            c.health == 5,
            c.faction == Faction::Wolves,
            c.alive,
            c.blocking,
            c.stat_block == (StatBlock { strength: 6, agility: 8, constitution: 6 }),
            c.controller == (Controller::AggressiveAI { last_player_pos: None }),
            c.inventory@ == Seq::<Item>::empty(),
            c.wf(),
    {
        let mut c = Character::new(pos, 'w', Color::DarkGrey, "grey wolf", Faction::Wolves);
        c.health = c.max_health();
        c.controller = Controller::aggressive_ai();
        c.stat_block = StatBlock { strength: 6, agility: 8, constitution: 6 };
        c
    }

    /// The health this character starts with.
    pub fn max_health(&self) -> (h: i32)
        requires
            self.wf(),
        ensures
            h == self.spec_max_health(),
    {
        self.stat_block.constitution / 2
    }

    /// The largest damage one attack by this character can deal.
    pub fn max_damage(&self) -> (d: i32)
        requires
            self.wf(),
        ensures
            d == self.spec_max_damage(),
            1 <= d <= 50,
    {
        self.stat_block.strength / 2
    }

    /// Lets this character's controller observe the world before acting.
    pub fn update(&mut self, gs: &GameState)
        requires
            gs.wf(),
            gs.map_of().in_bounds(old(self).pos),
        ensures
            *final(self) == (Character {
                controller: old(self).controller.spec_update(*old(self), *gs),
                ..*old(self)
            }),
    {
        let mut controller = self.controller;
        controller.update(&*self, gs);
        self.controller = controller;
    }

    /// Asks the controller for this character's next action.
    pub fn next_action(&self, gs: &GameState) -> (a: Action)
        ensures
            a == self.controller.spec_next_action(*self),
    {
        let controller = self.controller;
        controller.next_action(self, gs)
    }

    /// A step towards `pos`, or `Idle` when already there.
    pub fn move_towards(&self, pos: Pos) -> (a: Action)
        ensures
            a == (match self.pos.spec_dir_towards(pos) {
                Some(dir) => Action::Move(dir),
                None => Action::Idle,
            }),
    {
        match self.pos.dir_towards(pos) {
            Some(dir) => Action::Move(dir),
            None => Action::Idle,
        }
    }

    /// A uniform damage roll in `1 ..= max_damage`.
    pub fn roll_damage(&self, rng: &mut Rng) -> (d: i32)
        requires
            self.wf(),
        ensures
            final(rng)@ == Rng::spec_step(old(rng)@),
            d == Rng::spec_range(old(rng)@, 1, self.spec_max_damage()),
            1 <= d <= self.spec_max_damage(),
    {
        let hi = self.max_damage();
        rng.gen_range(1, hi)
    }

    /// Applies `damage` to a living character and triggers the death
    /// transition when health falls to zero or below.
    pub fn take_damage(&mut self, damage: i32)
        requires
            old(self).wf(),
            old(self).alive,
            0 <= damage <= 500,
        ensures
            final(self).wf(),
            spec_damaged(*old(self), *final(self), damage as int),
    {
        self.health = self.health - damage;
        if self.health <= 0 {
            self.die();
        }
    }

    /// The death transition: idempotent — on a character that is already
    /// dead it changes nothing, so a corpse item is appended at most once.
    pub fn die(&mut self)
        ensures
            spec_die_step(*old(self), *final(self)),
            old(self).wf() && -1000 <= old(self).health <= 500 ==> final(self).wf(),
    {
        if !self.alive {
            return ;
        }
        self.blocking = false;
        self.glyph = '%';
        self.color = Color::DarkRed;
        self.alive = false;
        let corpse = self.make_corpse();
        self.inventory.add_item(corpse);
    }

    /// The corpse item left by this character.
    fn make_corpse(&self) -> (it: Item)
        ensures
            is_corpse_of(it, self.name@),
    {
        let name = concat_strs("corpse of ", self.name);
        Item::new(name, "It's a corpse.".to_owned())
    }

    /// Rolls damage against `other`, applies it, and narrates the exchange.
    pub fn attack(&self, other: &mut Character, rng: &mut Rng) -> (msg: Message)
        requires
            self.wf(),
            old(other).wf(),
            old(other).alive,
        ensures
            final(rng)@ == Rng::spec_step(old(rng)@),
            final(other).wf(),
            ({
                let d = Rng::spec_range(old(rng)@, 1, self.spec_max_damage());
                &&& 1 <= d <= self.spec_max_damage()
                &&& spec_damaged(*old(other), *final(other), d)
                &&& msg.text@ == spec_attack_text(self.name@, old(other).name@, d)
                &&& msg.color == Color::White
            }),
    {
        resolve_attack(self.name, self.stat_block, other, rng)
    }
}

/// Rolls damage for an attacker described by name and stats, applies it to
/// `other`, and narrates the exchange. The damage is a uniform draw in
/// `1 ..= strength / 2`.
pub fn resolve_attack(
    att_name: &'static str,
    att_stats: StatBlock,
    other: &mut Character,
    rng: &mut Rng,
) -> (msg: Message)
    requires
        2 <= att_stats.strength <= 100,
        old(other).wf(),
        old(other).alive,
    ensures
        final(rng)@ == Rng::spec_step(old(rng)@),
        final(other).wf(),
        ({
            let d = Rng::spec_range(old(rng)@, 1, att_stats.strength / 2);
            &&& 1 <= d <= att_stats.strength / 2
            &&& spec_damaged(*old(other), *final(other), d)
            &&& msg.text@ == spec_attack_text(att_name@, old(other).name@, d)
            &&& msg.color == Color::White
        }),
{
    let defender_name = other.name;
    let damage = rng.gen_range(1, att_stats.strength / 2);
    other.take_damage(damage);
    let part1 = concat_strs(att_name, " attacks ");
    let part2 = concat_strs(part1.as_str(), defender_name);
    let part3 = concat_strs(part2.as_str(), " for ");
    let dstr = u32_string(damage as u32);
    let part4 = concat_strs(part3.as_str(), dstr.as_str());
    let text = concat_strs(part4.as_str(), " damage.");
    Message::new(text)
}

/// The narrated message for a character's death.
pub fn death_message(name: &'static str) -> (msg: Message)
    ensures
        msg.text@ == spec_death_text(name@),
        msg.color == Color::White,
{
    Message::new(concat_strs(name, " dies!"))
}

/// Death is idempotent: a second death transition changes nothing, so a
/// character that dies twice gains exactly one corpse item, not two.
pub proof fn lemma_death_idempotent(a: Character, b: Character, c: Character)
    requires
        a.alive,
        spec_die_step(a, b),
        spec_die_step(b, c),
    ensures
        c == b,
        b.inventory@.len() == a.inventory@.len() + 1,
{
}

} // verus!
