//! The turn resolver: owns the map, the roster and the message log, and
//! advances the world one discrete turn at a time.

use vstd::prelude::*;
use crate::map::{GameMap, scattered, tile_same_static, lemma_fov_depends_on_opacity};
use crate::message::Message;
use crate::object::{
    Action,
    Character,
    Controller,
    death_message,
    resolve_attack,
    spec_attack_text,
    spec_damaged,
    spec_death_text,
};
use crate::pos::{Dir, Pos};
use crate::rng::Rng;
use crate::tile::{Color, Tile};

verus! {

/// The sight radius used when visibility is recomputed each turn.
pub const FOV_RADIUS: i32 = 32;

/// The side length of the procedurally generated world map.
pub const MAP_SIZE: i32 = 128;

/// How many hostile characters `populate` tries to place.
pub const NPC_COUNT: usize = 19;

/// How many random placements are tried for one character before falling
/// back to a full-map scan.
pub const PLACEMENT_TRIES: usize = 1000;

/// The first index at or after `k`, other than `excl`, whose character
/// stands at `p`.
pub open spec fn spec_first_at(s: Seq<Character>, p: Pos, excl: int, k: int) -> Option<int>
    decreases s.len() - k,
{
    if k < 0 || k >= s.len() {
        None
    } else if k != excl && s[k].pos == p {
        Some(k)
    } else {
        spec_first_at(s, p, excl, k + 1)
    }
}

/// The first index at or after `k` whose character blocks and stands at `p`.
pub open spec fn spec_first_blocker(s: Seq<Character>, p: Pos, k: int) -> Option<int>
    decreases s.len() - k,
{
    if k < 0 || k >= s.len() {
        None
    } else if s[k].blocking && s[k].pos == p {
        Some(k)
    } else {
        spec_first_blocker(s, p, k + 1)
    }
}

/// When no blocker is found from `k` on, no index from `k` on blocks at `p`.
proof fn lemma_no_blocker(s: Seq<Character>, p: Pos, k: int)
    requires
        0 <= k,
        spec_first_blocker(s, p, k) is None,
    ensures
        forall|j: int| k <= j < s.len() ==> !((#[trigger] s[j]).blocking && s[j].pos == p),
    decreases s.len() - k,
{
    if k < s.len() {
        lemma_no_blocker(s, p, k + 1);
    }
}

/// A found blocker is in range, blocks, and stands at `p`.
proof fn lemma_blocker_found(s: Seq<Character>, p: Pos, k: int)
    requires
        0 <= k,
        spec_first_blocker(s, p, k) is Some,
    ensures
        ({
            let j = spec_first_blocker(s, p, k)->0;
            &&& k <= j < s.len()
            &&& s[j].blocking
            &&& s[j].pos == p
        }),
    decreases s.len() - k,
{
    if k < s.len() {
        if !(s[k].blocking && s[k].pos == p) {
            lemma_blocker_found(s, p, k + 1);
        }
    }
}

/// A found occupant is in range, is not the excluded index, and stands at `p`.
proof fn lemma_occupant_found(s: Seq<Character>, p: Pos, excl: int, k: int)
    requires
        0 <= k,
        spec_first_at(s, p, excl, k) is Some,
    ensures
        ({
            let j = spec_first_at(s, p, excl, k)->0;
            &&& k <= j < s.len()
            &&& j != excl
            &&& s[j].pos == p
        }),
    decreases s.len() - k,
{
    if k < s.len() {
        if !(k != excl && s[k].pos == p) {
            lemma_occupant_found(s, p, excl, k + 1);
        }
    }
}

/// Prefixes compose.
proof fn lemma_prefix_trans(a: Seq<Message>, b: Seq<Message>, c: Seq<Message>)
    requires
        a.is_prefix_of(b),
        b.is_prefix_of(c),
    ensures
        a.is_prefix_of(c),
{
    assert(a =~= c.subrange(0, a.len() as int));
}

/// The identity a character keeps for its whole life: a turn may move,
/// wound or kill it, but never renames it, changes its allegiance or its
/// stat block.
pub open spec fn same_identity(pre: Character, post: Character) -> bool {
    &&& post.name == pre.name
    &&& post.faction == pre.faction
    &&& post.stat_block == pre.stat_block
}

/// Two characters agreeing on everything but the inventory.
pub open spec fn same_except_inventory(pre: Character, post: Character) -> bool {
    &&& post.pos == pre.pos
    &&& post.glyph == pre.glyph
    &&& post.color == pre.color
    &&& post.name == pre.name
    &&& post.health == pre.health
    &&& post.faction == pre.faction
    &&& post.alive == pre.alive
    &&& post.blocking == pre.blocking
    &&& post.stat_block == pre.stat_block
    &&& post.controller == pre.controller
}

/// The cell one step in direction `dir` from `p`.
pub open spec fn spec_move_target(p: Pos, dir: Dir) -> Pos {
    Pos { x: (p.x + dir.spec_to_pos().x) as i32, y: (p.y + dir.spec_to_pos().y) as i32 }
}

/// The observation phase of one character's step: the controller at roster
/// index `i` sees the world and updates its state; nothing else changes.
pub open spec fn spec_observe(pre: GameState, post: GameState, i: int) -> bool {
    &&& post.objects_seq() == pre.objects_seq().update(
        i,
        Character {
            controller: pre.objects_seq()[i].controller.spec_update(pre.objects_seq()[i], pre),
            ..pre.objects_seq()[i]
        },
    )
    &&& post.map_of() == pre.map_of()
    &&& post.messages_seq() == pre.messages_seq()
    &&& post.rng_of() == pre.rng_of()
}

/// Resolution of a `Move` action by the character at roster index `i`:
/// relocation when the target cell is walkable; melee against a blocking
/// occupant otherwise — the damage roll is drawn from the random source,
/// the exchange is narrated, and a death gets its own message; and no
/// change at all when the way is barred by terrain alone.
pub open spec fn spec_move_rel(pre: GameState, post: GameState, i: int, dir: Dir) -> bool {
    let s0 = pre.objects_seq();
    let actor = s0[i];
    let target = spec_move_target(actor.pos, dir);
    let blocker = spec_first_blocker(s0, target, 0);
    &&& post.map_of() == pre.map_of()
    &&& post.objects_seq().len() == s0.len()
    &&& (pre.spec_walkable(target) ==> {
        &&& post.objects_seq() == s0.update(i, Character { pos: target, ..actor })
        &&& post.messages_seq() == pre.messages_seq()
        &&& post.rng_of() == pre.rng_of()
    })
    &&& (!pre.spec_walkable(target) && blocker is Some ==> {
        let j = blocker->0;
        let defender = s0[j];
        let d = Rng::spec_range(pre.rng_of()@, 1, actor.spec_max_damage());
        let msgs0 = pre.messages_seq();
        let msgs1 = post.messages_seq();
        &&& j != i
        &&& 1 <= d <= actor.spec_max_damage()
        &&& spec_damaged(defender, post.objects_seq()[j], d)
        &&& post.objects_seq() == s0.update(j, post.objects_seq()[j])
        &&& post.rng_of()@ == Rng::spec_step(pre.rng_of()@)
        &&& msgs0.is_prefix_of(msgs1)
        &&& msgs1[msgs0.len() as int].text@ == spec_attack_text(actor.name@, defender.name@, d)
        &&& msgs1[msgs0.len() as int].color == Color::White
        &&& (post.objects_seq()[j].alive ==> msgs1.len() == msgs0.len() + 1)
        &&& (!post.objects_seq()[j].alive ==> {
            &&& msgs1.len() == msgs0.len() + 2
            &&& msgs1[msgs0.len() as int + 1].text@ == spec_death_text(defender.name@)
            &&& msgs1[msgs0.len() as int + 1].color == Color::White
        })
    })
    &&& (!pre.spec_walkable(target) && blocker is None ==> post == pre)
}

/// Resolution of a `GetItem` action by the character at roster index `i`:
/// the item at `idx` moves — never copies — from the inventory of the
/// ground entity at the actor's own cell (which is never alive) into the
/// actor's; pickup with no ground entity, or with an index naming no item,
/// is a silent no-op. No message is narrated and the map and random source
/// are untouched.
pub open spec fn spec_get_rel(pre: GameState, post: GameState, i: int, idx: int) -> bool {
    let s0 = pre.objects_seq();
    let s1 = post.objects_seq();
    let actor = s0[i];
    &&& post.map_of() == pre.map_of()
    &&& post.messages_seq() == pre.messages_seq()
    &&& post.rng_of() == pre.rng_of()
    &&& s1.len() == s0.len()
    &&& match spec_first_at(s0, actor.pos, i, 0) {
        None => s1 == s0,
        Some(j) => {
            &&& !s0[j].alive
            &&& if 0 <= idx < s0[j].inventory@.len() {
                &&& same_except_inventory(s0[j], s1[j])
                &&& same_except_inventory(actor, s1[i])
                &&& s1[j].inventory@ == s0[j].inventory@.remove(idx)
                &&& s1[i].inventory@ == actor.inventory@.push(s0[j].inventory@[idx])
                &&& forall|k: int| 0 <= k < s0.len() && k != i && k != j ==> #[trigger] s1[k] == s0[k]
                &&& s1[i].inventory@.len() + s1[j].inventory@.len() == actor.inventory@.len()
                    + s0[j].inventory@.len()
            } else {
                s1 == s0
            }
        },
    }
}

/// Resolution of a `DropItem` action by the character at roster index `i`:
/// the item at `idx` moves from the actor's inventory to the ground entity
/// at the actor's own cell; with no ground entity, or an index naming no
/// item, a silent no-op. No message is narrated and the map and random
/// source are untouched.
pub open spec fn spec_drop_rel(pre: GameState, post: GameState, i: int, idx: int) -> bool {
    let s0 = pre.objects_seq();
    let s1 = post.objects_seq();
    let actor = s0[i];
    &&& post.map_of() == pre.map_of()
    &&& post.messages_seq() == pre.messages_seq()
    &&& post.rng_of() == pre.rng_of()
    &&& s1.len() == s0.len()
    &&& match spec_first_at(s0, actor.pos, i, 0) {
        None => s1 == s0,
        Some(j) => {
            if 0 <= idx < actor.inventory@.len() {
                &&& same_except_inventory(s0[j], s1[j])
                &&& same_except_inventory(actor, s1[i])
                &&& s1[i].inventory@ == actor.inventory@.remove(idx)
                &&& s1[j].inventory@ == s0[j].inventory@.push(actor.inventory@[idx])
                &&& forall|k: int| 0 <= k < s0.len() && k != i && k != j ==> #[trigger] s1[k] == s0[k]
                &&& s1[i].inventory@.len() + s1[j].inventory@.len() == actor.inventory@.len()
                    + s0[j].inventory@.len()
            } else {
                s1 == s0
            }
        },
    }
}

/// Resolution of whatever action the (post-observation) controller of the
/// character at roster index `i` picks: `Idle` changes nothing.
pub open spec fn spec_resolve(pre: GameState, post: GameState, i: int) -> bool {
    match pre.objects_seq()[i].controller.spec_next_action(pre.objects_seq()[i]) {
        Action::Idle => post == pre,
        Action::Move(dir) => spec_move_rel(pre, post, i, dir),
        Action::GetItem(idx) => spec_get_rel(pre, post, i, idx as int),
        Action::DropItem(idx) => spec_drop_rel(pre, post, i, idx as int),
    }
}

/// One character's whole step of a turn: a living character observes the
/// world and then has its chosen action resolved; a dead character takes no
/// action and nothing changes at its step.
pub open spec fn spec_turn_step(pre: GameState, post: GameState, i: int) -> bool {
    if 0 <= i < pre.objects_seq().len() && pre.objects_seq()[i].alive {
        exists|mid: GameState| #[trigger] spec_observe(pre, mid, i) && spec_resolve(mid, post, i)
    } else {
        post == pre
    }
}

/// The closing phase of a turn: visibility is recomputed as the player's
/// field of view and the newly visible tiles join the explored set; the
/// roster, the log, the random source and the static tile layer are
/// untouched.
pub open spec fn spec_fov_step(pre: GameState, post: GameState) -> bool {
    &&& post.objects_seq() == pre.objects_seq()
    &&& post.messages_seq() == pre.messages_seq()
    &&& post.rng_of() == pre.rng_of()
    &&& post.map_of().spec_size() == pre.map_of().spec_size()
    &&& forall|p: Pos|
        tile_same_static(#[trigger] post.map_of().tile_at(p), pre.map_of().tile_at(p))
    &&& forall|p: Pos|
        #[trigger] post.map_of().visible_at(p) == pre.map_of().spec_visible(
            pre.player_spec().pos,
            FOV_RADIUS as int,
            p,
        )
    &&& forall|p: Pos|
        #[trigger] post.map_of().explored_at(p) == (pre.map_of().explored_at(p)
            || pre.map_of().spec_visible(pre.player_spec().pos, FOV_RADIUS as int, p))
}

/// A whole turn from `pre` to `post`: `chain` records the state before each
/// character's step, every character steps once in ascending roster order —
/// so mutations by earlier characters are observable to later ones within
/// the same turn — and the field-of-view phase closes the turn.
pub open spec fn spec_turn_chain(pre: GameState, post: GameState, chain: Seq<GameState>) -> bool {
    let n = pre.objects_seq().len() as int;
    &&& chain.len() == n + 1
    &&& chain[0] == pre
    &&& forall|i: int| 0 <= i < n ==> spec_turn_step(#[trigger] chain[i], chain[i + 1], i)
    &&& spec_fov_step(chain[n], post)
}

/// Installing an action into the player's relay controller: roster slot
/// zero now holds exactly that pending action and nothing else changes.
pub open spec fn spec_install_rel(pre: GameState, post: GameState, a: Action) -> bool {
    &&& post.objects_seq() == pre.objects_seq().update(
        0,
        Character {
            controller: Controller::PlayerController { action: a },
            ..pre.objects_seq()[0]
        },
    )
    &&& post.map_of() == pre.map_of()
    &&& post.messages_seq() == pre.messages_seq()
    &&& post.rng_of() == pre.rng_of()
}

/// The game state: everything the simulation owns — the map, the roster of
/// characters in stable order, the narrated message log, and the random
/// source.
pub struct GameState {
    map: GameMap,
    objects: Vec<Character>,
    messages: Vec<Message>,
    rng: Rng,
}

impl GameState {
    /// The map.
    pub closed spec fn map_of(self) -> GameMap {
        self.map
    }

    /// The roster, in the stable order fixed at creation.
    pub closed spec fn objects_seq(self) -> Seq<Character> {
        self.objects@
    }

    /// The message log.
    pub closed spec fn messages_seq(self) -> Seq<Message> {
        self.messages@
    }

    /// The random source.
    pub closed spec fn rng_of(self) -> Rng {
        self.rng
    }

    /// The player character: roster index zero, fixed at creation.
    pub open spec fn player_spec(self) -> Character {
        self.objects_seq()[0]
    }

    /// The state invariant: a well-formed map; a roster with the player
    /// relay at index zero, every character well-formed and on the grid;
    /// and no two blocking characters sharing a cell.
    pub open spec fn wf(self) -> bool {
        &&& self.map_of().wf()
        &&& self.objects_seq().len() >= 1
        &&& self.objects_seq()[0].controller is PlayerController
        &&& forall|i: int|
            0 <= i < self.objects_seq().len() ==> (#[trigger] self.objects_seq()[i]).wf()
        &&& forall|i: int|
            0 <= i < self.objects_seq().len() ==> self.map_of().in_bounds(
                (#[trigger] self.objects_seq()[i]).pos,
            )
        &&& forall|i: int, j: int|
            0 <= i < self.objects_seq().len() && 0 <= j < self.objects_seq().len() && i != j && (
            #[trigger] self.objects_seq()[i]).blocking && (#[trigger] self.objects_seq()[j]).blocking
                ==> self.objects_seq()[i].pos != self.objects_seq()[j].pos
    }

    /// A cell one can walk into: not solid, and no blocking character on it.
    pub open spec fn spec_walkable(self, p: Pos) -> bool {
        !self.map_of().solid_at(p) && spec_first_blocker(self.objects_seq(), p, 0) is None
    }

    /// The number of characters in the roster.
    pub fn num_objects(&self) -> (n: usize)
        ensures
            n == self.objects_seq().len(),
    {
        self.objects.len()
    }

    /// A reference to the character at roster index `i`.
    pub fn get_object(&self, i: usize) -> (c: &Character)
        requires
            i < self.objects_seq().len(),
        ensures
            *c == self.objects_seq()[i as int],
    {
        &self.objects[i]
    }

    /// A reference to the player character.
    pub fn get_player(&self) -> (c: &Character)
        requires
            self.objects_seq().len() >= 1,
        ensures
            *c == self.player_spec(),
    {
        &self.objects[0]
    }

    /// A mutable reference to the character at roster index `i`. The state
    /// invariant is the caller's to maintain.
    pub fn get_object_mut(&mut self, i: usize) -> (c: &mut Character)
        requires
            i < old(self).objects_seq().len(),
        ensures
            *c == old(self).objects_seq()[i as int],
            final(self).objects_seq() == old(self).objects_seq().update(i as int, *final(c)),
            final(self).map_of() == old(self).map_of(),
            final(self).messages_seq() == old(self).messages_seq(),
            final(self).rng_of() == old(self).rng_of(),
    {
        &mut self.objects[i]
    }

    /// A mutable reference to the player character. The state invariant is
    /// the caller's to maintain.
    pub fn get_player_mut(&mut self) -> (c: &mut Character)
        requires
            old(self).objects_seq().len() >= 1,
        ensures
            *c == old(self).player_spec(),
            final(self).objects_seq() == old(self).objects_seq().update(0, *final(c)),
            final(self).map_of() == old(self).map_of(),
            final(self).messages_seq() == old(self).messages_seq(),
            final(self).rng_of() == old(self).rng_of(),
    {
        self.get_object_mut(0)
    }

    /// The number of messages narrated so far.
    pub fn num_messages(&self) -> (n: usize)
        ensures
            n == self.messages_seq().len(),
    {
        self.messages.len()
    }

    /// A reference to the message at log index `i`.
    pub fn get_message(&self, i: usize) -> (m: &Message)
        requires
            i < self.messages_seq().len(),
        ensures
            *m == self.messages_seq()[i as int],
    {
        &self.messages[i]
    }

    /// The tile at `pos`; out-of-bounds positions read as walls.
    pub fn get_tile(&self, pos: Pos) -> (t: Tile)
        requires
            self.wf(),
        ensures
            t == self.map_of().tile_at(pos),
    {
        self.map.get_tile(pos)
    }

    /// Whether `pos` is in the player's current field of view;
    /// out-of-bounds positions are never visible.
    pub fn is_visible(&self, pos: Pos) -> (b: bool)
        requires
            self.wf(),
        ensures
            b == self.map_of().visible_at(pos),
            !self.map_of().in_bounds(pos) ==> !b,
    {
        self.map.is_visible(pos)
    }

    /// Whether `pos` has ever been seen.
    pub fn is_explored(&self, pos: Pos) -> (b: bool)
        requires
            self.wf(),
        ensures
            b == self.map_of().explored_at(pos),
    {
        self.map.is_explored(pos)
    }

    /// The side length of the map.
    pub fn map_size(&self) -> (s: i32)
        ensures
            s == self.map_of().spec_size(),
    {
        self.map.size()
    }

    /// The roster index of the first character standing at `pos`, if any.
    pub fn object_at_unsafe(&self, pos: Pos) -> (r: Option<usize>)
        ensures
            ({
                let o = spec_first_at(self.objects_seq(), pos, -1, 0);
                match r {
                    Some(i) => o == Some(i as int),
                    None => o is None,
                }
            }),
    {
        let n = self.objects.len();
        let mut k: usize = 0;
        while k < n
            invariant
                k <= n,
                n == self.objects_seq().len(),
                spec_first_at(self.objects_seq(), pos, -1, 0) == spec_first_at(
                    self.objects_seq(),
                    pos,
                    -1,
                    k as int,
                ),
            decreases n - k,
        {
            if self.objects[k].pos == pos {
                return Some(k);
            }
            k = k + 1;
        }
        None
    }

    /// The roster index of the first character other than `excl` standing
    /// at `pos`, if any.
    fn object_at_excluding(&self, pos: Pos, excl: usize) -> (r: Option<usize>)
        ensures
            ({
                let o = spec_first_at(self.objects_seq(), pos, excl as int, 0);
                match r {
                    Some(i) => o == Some(i as int),
                    None => o is None,
                }
            }),
    {
        let n = self.objects.len();
        let mut k: usize = 0;
        while k < n
            invariant
                k <= n,
                n == self.objects_seq().len(),
                spec_first_at(self.objects_seq(), pos, excl as int, 0) == spec_first_at(
                    self.objects_seq(),
                    pos,
                    excl as int,
                    k as int,
                ),
            decreases n - k,
        {
            if k != excl && self.objects[k].pos == pos {
                return Some(k);
            }
            k = k + 1;
        }
        None
    }

    /// The roster index of the blocking character standing at `pos`, if any.
    fn blocker_at(&self, pos: Pos) -> (r: Option<usize>)
        ensures
            ({
                let o = spec_first_blocker(self.objects_seq(), pos, 0);
                match r {
                    Some(i) => o == Some(i as int),
                    None => o is None,
                }
            }),
    {
        let n = self.objects.len();
        let mut k: usize = 0;
        while k < n
            invariant
                k <= n,
                n == self.objects_seq().len(),
                spec_first_blocker(self.objects_seq(), pos, 0) == spec_first_blocker(
                    self.objects_seq(),
                    pos,
                    k as int,
                ),
            decreases n - k,
        {
            if self.objects[k].blocking && self.objects[k].pos == pos {
                return Some(k);
            }
            k = k + 1;
        }
        None
    }

    /// Whether the cell at `pos` can be walked into: not solid, and not
    /// occupied by a blocking character.
    pub fn is_walkable(&self, pos: Pos) -> (b: bool)
        requires
            self.map_of().wf(),
        ensures
            b == self.spec_walkable(pos),
    {
        if self.map.is_solid(pos) {
            return false;
        }
        match self.blocker_at(pos) {
            Some(_) => false,
            None => true,
        }
    }

    /// Whether every intermediate sampled point of the straight line
    /// between `a` and `b` is currently visible — the perception check used
    /// by pursuing characters.
    pub fn check_los(&self, a: Pos, b: Pos) -> (v: bool)
        requires
            self.wf(),
            self.map_of().in_bounds(a),
            self.map_of().in_bounds(b),
        ensures
            v == self.map_of().spec_los_visible(a, b),
    {
        self.map.los_visible(a, b)
    }

    /// Resolves a `Move` action for the living character at roster index
    /// `i`: relocation when the target cell is walkable; melee against a
    /// blocking occupant otherwise; and no effect at all when the way is
    /// barred by terrain alone — moving into a solid tile leaves the mover,
    /// and the whole state, unchanged.
    #[verifier::rlimit(100)]
    fn act_move(&mut self, i: usize, dir: Dir)
        requires
            old(self).wf(),
            i < old(self).objects_seq().len(),
            old(self).objects_seq()[i as int].alive,
        ensures
            final(self).wf(),
            final(self).map_of() == old(self).map_of(),
            final(self).objects_seq().len() == old(self).objects_seq().len(),
            forall|k: int|
                0 <= k < old(self).objects_seq().len() ==> same_identity(
                    old(self).objects_seq()[k],
                    #[trigger] final(self).objects_seq()[k],
                ),
            old(self).messages_seq().is_prefix_of(final(self).messages_seq()),
            spec_move_rel(*old(self), *final(self), i as int, dir),
    {
        let o_pos = self.objects[i].pos;
        proof {
            assert(self.objects_seq()[i as int].wf());
            assert(self.map_of().in_bounds(self.objects_seq()[i as int].pos));
            self.map_of().lemma_wf_bounds();
        }
        let v = dir.to_pos();
        let target = o_pos.add(v);
        assert(target == spec_move_target(o_pos, dir));
        if self.is_walkable(target) {
            self.move_actor(i, target);
        } else {
            match self.blocker_at(target) {
                Some(j) => {
                    proof {
                        lemma_blocker_found(self.objects_seq(), target, 0);
                        assert(self.objects_seq()[j as int].pos == target);
                        assert(self.objects_seq()[i as int].pos == o_pos);
                        assert(target != o_pos);
                        assert(j != i);
                    }
                    self.melee(i, j);
                },
                None => {
                    proof {
                        assert(*self == *old(self));
                    }
                },
            }
        }
    }

    /// Relocates the character at roster index `i` to the walkable cell
    /// `target`, touching nothing else.
    fn move_actor(&mut self, i: usize, target: Pos)
        requires
            old(self).wf(),
            i < old(self).objects_seq().len(),
            old(self).spec_walkable(target),
        ensures
            final(self).wf(),
            final(self).map_of() == old(self).map_of(),
            final(self).messages_seq() == old(self).messages_seq(),
            final(self).rng_of() == old(self).rng_of(),
            final(self).objects_seq() == old(self).objects_seq().update(
                i as int,
                Character { pos: target, ..old(self).objects_seq()[i as int] },
            ),
            forall|k: int|
                0 <= k < old(self).objects_seq().len() ==> same_identity(
                    old(self).objects_seq()[k],
                    #[trigger] final(self).objects_seq()[k],
                ),
    {
        let ghost pre = *self;
        let o = &mut self.objects[i];
        o.pos = target;
        proof {
            assert(self.objects_seq() == pre.objects_seq().update(
                i as int,
                Character { pos: target, ..pre.objects_seq()[i as int] },
            ));
            Self::lemma_wf_after_move(pre, *self, i as int, target);
        }
    }

    /// Melee: the character at roster index `i` attacks the blocking
    /// character at roster index `j`, the damage roll is narrated, and the
    /// defender's death, if it falls, is narrated too.
    fn melee(&mut self, i: usize, j: usize)
        requires
            old(self).wf(),
            i < old(self).objects_seq().len(),
            j < old(self).objects_seq().len(),
            i != j,
            old(self).objects_seq()[j as int].blocking,
        ensures
            final(self).wf(),
            final(self).map_of() == old(self).map_of(),
            old(self).messages_seq().is_prefix_of(final(self).messages_seq()),
            forall|k: int|
                0 <= k < old(self).objects_seq().len() ==> same_identity(
                    old(self).objects_seq()[k],
                    #[trigger] final(self).objects_seq()[k],
                ),
            ({
                let s0 = old(self).objects_seq();
                let d = Rng::spec_range(old(self).rng_of()@, 1, s0[i as int].spec_max_damage());
                let msgs0 = old(self).messages_seq();
                let msgs1 = final(self).messages_seq();
                &&& 1 <= d <= s0[i as int].spec_max_damage()
                &&& spec_damaged(s0[j as int], final(self).objects_seq()[j as int], d)
                &&& final(self).objects_seq() == s0.update(
                    j as int,
                    final(self).objects_seq()[j as int],
                )
                &&& final(self).rng_of()@ == Rng::spec_step(old(self).rng_of()@)
                &&& msgs1[msgs0.len() as int].text@ == spec_attack_text(
                    s0[i as int].name@,
                    s0[j as int].name@,
                    d,
                )
                &&& msgs1[msgs0.len() as int].color == Color::White
                &&& (final(self).objects_seq()[j as int].alive ==> msgs1.len() == msgs0.len() + 1)
                &&& (!final(self).objects_seq()[j as int].alive ==> {
                    &&& msgs1.len() == msgs0.len() + 2
                    &&& msgs1[msgs0.len() as int + 1].text@ == spec_death_text(s0[j as int].name@)
                    &&& msgs1[msgs0.len() as int + 1].color == Color::White
                })
            }),
    {
        let ghost pre = *self;
        let att_name = self.objects[i].name;
        let att_stats = self.objects[i].stat_block;
        let msg = {
            let defender = &mut self.objects[j];
            resolve_attack(att_name, att_stats, defender, &mut self.rng)
        };
        proof {
            Self::lemma_wf_after_damage(
                pre,
                *self,
                j as int,
                Rng::spec_range(pre.rng_of()@, 1, pre.objects_seq()[i as int].spec_max_damage()),
            );
        }
        let died = !self.objects[j].alive;
        let dname = self.objects[j].name;
        self.messages.push(msg);
        if died {
            self.messages.push(death_message(dname));
        }
        proof {
            assert(old(self).messages_seq().is_prefix_of(self.messages_seq()));
        }
    }

    /// Advances the game by one full turn: the state steps through a chain
    /// of one-character steps in the stable roster order fixed at creation
    /// — each living character observes the world, asks its controller for
    /// an action, and has that action resolved by `spec_move_rel`,
    /// `spec_get_rel` or `spec_drop_rel`, while a dead character's step
    /// changes nothing — so mutations by earlier characters are observable
    /// to later ones within the same tick. Then visibility is recomputed
    /// from the player's position and exactly the newly visible tiles join
    /// the explored set. Across the turn the roster keeps its size and
    /// identities, the message log only grows, the static tile layer is
    /// untouched, and no two blocking characters end up sharing a cell.
    pub fn update(&mut self)
        requires
            old(self).wf(),
        ensures
            final(self).wf(),
            final(self).map_of().spec_size() == old(self).map_of().spec_size(),
            final(self).objects_seq().len() == old(self).objects_seq().len(),
            forall|k: int|
                0 <= k < old(self).objects_seq().len() ==> same_identity(
                    old(self).objects_seq()[k],
                    #[trigger] final(self).objects_seq()[k],
                ),
            old(self).messages_seq().is_prefix_of(final(self).messages_seq()),
            forall|p: Pos|
                old(self).map_of().explored_at(p) ==> #[trigger] final(self).map_of().explored_at(
                    p,
                ),
            forall|p: Pos|
                tile_same_static(
                    #[trigger] final(self).map_of().tile_at(p),
                    old(self).map_of().tile_at(p),
                ),
            forall|p: Pos|
                #[trigger] final(self).map_of().visible_at(p) == final(self).map_of().spec_visible(
                    final(self).player_spec().pos,
                    FOV_RADIUS as int,
                    p,
                ),
            forall|p: Pos|
                #[trigger] final(self).map_of().explored_at(p) == (old(self).map_of().explored_at(
                    p,
                ) || final(self).map_of().visible_at(p)),
            exists|chain: Seq<GameState>|
                #[trigger] spec_turn_chain(*old(self), *final(self), chain),
    {
        let ghost g0 = *self;
        let n = self.objects.len();
        let mut i: usize = 0;
        let ghost mut chain: Seq<GameState> = seq![g0];
        while i < n
            invariant
                self.wf(),
                n == g0.objects_seq().len(),
                self.objects_seq().len() == n,
                self.map_of() == g0.map_of(),
                g0.messages_seq().is_prefix_of(self.messages_seq()),
                forall|k: int|
                    0 <= k < n ==> same_identity(
                        g0.objects_seq()[k],
                        #[trigger] self.objects_seq()[k],
                    ),
                i <= n,
                chain.len() == i + 1,
                chain[0] == g0,
                chain[i as int] == *self,
                forall|j: int| 0 <= j < i ==> spec_turn_step(#[trigger] chain[j], chain[j + 1], j),
            decreases n - i,
        {
            if self.objects[i].alive {
                let ghost pre_c = *self;
                let mut ctrl = self.objects[i].controller;
                ctrl.update(&self.objects[i], self);
                {
                    let o = &mut self.objects[i];
                    o.controller = ctrl;
                }
                proof {
                    assert(self.objects_seq() == pre_c.objects_seq().update(
                        i as int,
                        Character { controller: ctrl, ..pre_c.objects_seq()[i as int] },
                    ));
                    Self::lemma_wf_after_controller(pre_c, *self, i as int, ctrl);
                }
                let action = {
                    let oref = &self.objects[i];
                    oref.next_action(self)
                };
                let ghost pre_a = *self;
                match action {
                    Action::Idle => {},
                    Action::Move(dir) => self.act_move(i, dir),
                    Action::GetItem(idx) => self.act_get(i, idx),
                    Action::DropItem(idx) => self.act_drop(i, idx),
                }
                proof {
                    lemma_prefix_trans(
                        g0.messages_seq(),
                        pre_a.messages_seq(),
                        self.messages_seq(),
                    );
                    assert forall|k: int|
                        0 <= k < n implies same_identity(
                        g0.objects_seq()[k],
                        #[trigger] self.objects_seq()[k],
                    ) by {
                        assert(same_identity(g0.objects_seq()[k], pre_a.objects_seq()[k]));
                        assert(same_identity(pre_a.objects_seq()[k], self.objects_seq()[k]));
                    }
                    assert(spec_observe(pre_c, pre_a, i as int));
                    assert(spec_resolve(pre_a, *self, i as int));
                    assert(spec_turn_step(chain[i as int], *self, i as int));
                }
            } else {
                proof {
                    assert(spec_turn_step(chain[i as int], *self, i as int));
                }
            }
            proof {
                chain = chain.push(*self);
            }
            i = i + 1;
        }
        let player_pos = self.objects[0].pos;
        proof {
            assert(self.map_of().in_bounds(self.objects_seq()[0].pos));
        }
        let ghost before_fov = *self;
        self.map.compute_visibility(player_pos, FOV_RADIUS);
        proof {
            assert(self.objects_seq() == before_fov.objects_seq());
            assert(self.messages_seq() == before_fov.messages_seq());
            assert forall|k: int|
                0 <= k < self.objects_seq().len() implies self.map_of().in_bounds(
                (#[trigger] self.objects_seq()[k]).pos,
            ) by {
                assert(before_fov.map_of().in_bounds(before_fov.objects_seq()[k].pos));
            }
            assert(self.wf());
            assert forall|p: Pos|
                #[trigger] self.map_of().opaque_at(p) == before_fov.map_of().opaque_at(p) by {
                assert(tile_same_static(self.map_of().tile_at(p), before_fov.map_of().tile_at(p)));
            }
            lemma_fov_depends_on_opacity(
                self.map_of(),
                before_fov.map_of(),
                player_pos,
                FOV_RADIUS as int,
            );
            assert(spec_fov_step(before_fov, *self));
            assert(spec_turn_chain(g0, *self, chain));
            assert forall|p: Pos|
                #[trigger] self.map_of().explored_at(p) == (g0.map_of().explored_at(p)
                    || self.map_of().visible_at(p)) by {
                assert(before_fov.map_of().explored_at(p) == g0.map_of().explored_at(p));
            }
        }
    }

    /// Installs `a` into the player's relay controller, then synchronously
    /// advances one full turn — the sole mutating entry point after
    /// construction.
    pub fn player_action(&mut self, a: Action)
        requires
            old(self).wf(),
        ensures
            final(self).wf(),
            final(self).map_of().spec_size() == old(self).map_of().spec_size(),
            final(self).objects_seq().len() == old(self).objects_seq().len(),
            forall|k: int|
                0 <= k < old(self).objects_seq().len() ==> same_identity(
                    old(self).objects_seq()[k],
                    #[trigger] final(self).objects_seq()[k],
                ),
            old(self).messages_seq().is_prefix_of(final(self).messages_seq()),
            forall|p: Pos|
                old(self).map_of().explored_at(p) ==> #[trigger] final(self).map_of().explored_at(
                    p,
                ),
            forall|p: Pos|
                tile_same_static(
                    #[trigger] final(self).map_of().tile_at(p),
                    old(self).map_of().tile_at(p),
                ),
            forall|p: Pos|
                #[trigger] final(self).map_of().visible_at(p) == final(self).map_of().spec_visible(
                    final(self).player_spec().pos,
                    FOV_RADIUS as int,
                    p,
                ),
            forall|p: Pos|
                #[trigger] final(self).map_of().explored_at(p) == (old(self).map_of().explored_at(
                    p,
                ) || final(self).map_of().visible_at(p)),
            exists|mid: GameState, chain: Seq<GameState>|
                #[trigger] spec_install_rel(*old(self), mid, a) && #[trigger] spec_turn_chain(
                    mid,
                    *final(self),
                    chain,
                ),
    {
        let ghost pre = *self;
        {
            let o = &mut self.objects[0];
            o.controller = Controller::PlayerController { action: a };
        }
        proof {
            assert(self.objects_seq() == pre.objects_seq().update(
                0,
                Character { controller: Controller::PlayerController { action: a }, ..pre.objects_seq()[0] },
            ));
            Self::lemma_wf_after_controller(
                pre,
                *self,
                0,
                Controller::PlayerController { action: a },
            );
        }
        let ghost mid = *self;
        proof {
            assert(spec_install_rel(pre, mid, a));
        }
        self.update();
        proof {
            let chain = choose|chain: Seq<GameState>| spec_turn_chain(mid, *self, chain);
            assert(spec_turn_chain(mid, *self, chain));
            assert(spec_install_rel(pre, mid, a) && spec_turn_chain(mid, *self, chain));
        }
    }

    /// Resolves a `GetItem` action: the item at `idx` moves from the
    /// inventory of the ground entity at the actor's own cell into the
    /// actor's inventory. The ground entity is never alive — a blocking
    /// character cannot share the actor's cell — and pickup with no ground
    /// entity, or with an index that names no item, is a silent no-op.
    fn act_get(&mut self, i: usize, idx: i32)
        requires
            old(self).wf(),
            i < old(self).objects_seq().len(),
            old(self).objects_seq()[i as int].alive,
        ensures
            final(self).wf(),
            final(self).map_of() == old(self).map_of(),
            final(self).messages_seq() == old(self).messages_seq(),
            final(self).rng_of() == old(self).rng_of(),
            final(self).objects_seq().len() == old(self).objects_seq().len(),
            forall|k: int|
                0 <= k < old(self).objects_seq().len() ==> same_identity(
                    old(self).objects_seq()[k],
                    #[trigger] final(self).objects_seq()[k],
                ),
            spec_get_rel(*old(self), *final(self), i as int, idx as int),
    {
        let actor_pos = self.objects[i].pos;
        match self.object_at_excluding(actor_pos, i) {
            None => {},
            Some(j) => {
                proof {
                    lemma_occupant_found(self.objects_seq(), actor_pos, i as int, 0);
                    let s0 = self.objects_seq();
                    assert(s0[j as int].pos == actor_pos && j != i);
                    // a blocking character cannot share the actor's cell, so
                    // the occupant is inert
                    assert(s0[i as int].blocking);
                    assert(!s0[j as int].blocking);
                    assert(!s0[j as int].alive);
                }
                let src_len = self.objects[j].inventory.len();
                if 0 <= idx && (idx as usize) < src_len {
                    let ghost pre = *self;
                    let it = {
                        let src = &mut self.objects[j];
                        src.inventory.remove_item(idx)
                    };
                    let dst = &mut self.objects[i];
                    dst.inventory.add_item(it);
                    proof {
                        Self::lemma_wf_after_inventory(pre, *self, i as int, j as int);
                    }
                }
            },
        }
    }

    /// Resolves a `DropItem` action: the item at `idx` moves from the
    /// actor's inventory to the ground entity at the actor's own cell.
    /// Dropping with no ground entity present, or with an index that names
    /// no item, is a silent no-op.
    fn act_drop(&mut self, i: usize, idx: i32)
        requires
            old(self).wf(),
            i < old(self).objects_seq().len(),
            old(self).objects_seq()[i as int].alive,
        ensures
            final(self).wf(),
            final(self).map_of() == old(self).map_of(),
            final(self).messages_seq() == old(self).messages_seq(),
            final(self).rng_of() == old(self).rng_of(),
            final(self).objects_seq().len() == old(self).objects_seq().len(),
            forall|k: int|
                0 <= k < old(self).objects_seq().len() ==> same_identity(
                    old(self).objects_seq()[k],
                    #[trigger] final(self).objects_seq()[k],
                ),
            spec_drop_rel(*old(self), *final(self), i as int, idx as int),
    {
        let actor_pos = self.objects[i].pos;
        match self.object_at_excluding(actor_pos, i) {
            None => {},
            Some(j) => {
                proof {
                    lemma_occupant_found(self.objects_seq(), actor_pos, i as int, 0);
                    let s0 = self.objects_seq();
                    assert(s0[j as int].pos == actor_pos && j != i);
                }
                let src_len = self.objects[i].inventory.len();
                if 0 <= idx && (idx as usize) < src_len {
                    let ghost pre = *self;
                    let it = {
                        let src = &mut self.objects[i];
                        src.inventory.remove_item(idx)
                    };
                    let dst = &mut self.objects[j];
                    dst.inventory.add_item(it);
                    proof {
                        Self::lemma_wf_after_inventory(pre, *self, i as int, j as int);
                    }
                }
            },
        }
    }

    /// Whether a roster can inhabit `m` without breaking the state
    /// invariant: at least the player, a relay controller at index zero,
    /// every character well-formed and on the grid, and no two blocking
    /// characters sharing a cell.
    pub open spec fn roster_wf(m: GameMap, s: Seq<Character>) -> bool {
        &&& s.len() >= 1
        &&& s[0].controller is PlayerController
        &&& forall|i: int| 0 <= i < s.len() ==> (#[trigger] s[i]).wf()
        &&& forall|i: int| 0 <= i < s.len() ==> m.in_bounds((#[trigger] s[i]).pos)
        &&& forall|i: int, j: int|
            0 <= i < s.len() && 0 <= j < s.len() && i != j && (#[trigger] s[i]).blocking && (
            #[trigger] s[j]).blocking ==> s[i].pos != s[j].pos
    }

    /// Assembles a game state from a well-formed map, a roster and a seed:
    /// `Some` exactly when the roster can inhabit the map without breaking
    /// the state invariant; the log starts empty.
    pub fn from_parts(map: GameMap, objects: Vec<Character>, seed: u64) -> (g: Option<GameState>)
        requires
            map.wf(),
        ensures
            Self::roster_wf(map, objects@) <==> g is Some,
            g matches Some(g) ==> {
                &&& g.wf()
                &&& g.map_of() == map
                &&& g.objects_seq() == objects@
                &&& g.messages_seq() == Seq::<Message>::empty()
                &&& g.rng_of()@ == seed
            },
    {
        let n = objects.len();
        if n == 0 {
            return None;
        }
        match objects[0].controller {
            Controller::PlayerController { .. } => {},
            _ => {
                return None;
            },
        }
        let mut i: usize = 0;
        while i < n
            invariant
                i <= n,
                n == objects@.len(),
                map.wf(),
                forall|a: int| 0 <= a < i ==> (#[trigger] objects@[a]).wf(),
                forall|a: int| 0 <= a < i ==> map.in_bounds((#[trigger] objects@[a]).pos),
            decreases n - i,
        {
            if !objects[i].check_wf() {
                return None;
            }
            let p = objects[i].pos;
            let sz = map.size();
            if p.x < 0 || p.y < 0 || p.x >= sz || p.y >= sz {
                return None;
            }
            i = i + 1;
        }
        let mut a: usize = 0;
        while a < n
            invariant
                a <= n,
                n == objects@.len(),
                forall|x: int, y: int|
                    0 <= x < a && x < y < n && (#[trigger] objects@[x]).blocking && (
                    #[trigger] objects@[y]).blocking ==> objects@[x].pos != objects@[y].pos,
            decreases n - a,
        {
            let mut b: usize = a + 1;
            while b < n
                invariant
                    a < b <= n,
                    a < n,
                    n == objects@.len(),
                    forall|y: int|
                        a < y < b && (#[trigger] objects@[y]).blocking && objects@[a as int].blocking
                            ==> objects@[a as int].pos != objects@[y].pos,
                decreases n - b,
            {
                if objects[a].blocking && objects[b].blocking && objects[a].pos == objects[b].pos {
                    return None;
                }
                b = b + 1;
            }
            a = a + 1;
        }
        let g = GameState { map, objects, messages: Vec::new(), rng: Rng::new(seed) };
        proof {
            let s = g.objects_seq();
            assert forall|x: int, y: int|
                0 <= x < s.len() && 0 <= y < s.len() && x != y && (#[trigger] s[x]).blocking && (
                #[trigger] s[y]).blocking implies s[x].pos != s[y].pos by {
                if x < y {
                } else {
                    assert(s[y].pos != s[x].pos || s[y].pos == s[x].pos);
                }
            }
            assert(g.wf());
        }
        Some(g)
    }

    /// A uniform draw of an on-grid position.
    fn random_pos(&mut self) -> (p: Pos)
        requires
            old(self).map_of().wf(),
        ensures
            final(self).map_of() == old(self).map_of(),
            final(self).objects_seq() == old(self).objects_seq(),
            final(self).messages_seq() == old(self).messages_seq(),
            old(self).map_of().in_bounds(p),
    {
        proof {
            self.map_of().lemma_wf_bounds();
        }
        let sz = self.map.size();
        let x = self.rng.gen_range(0, sz - 1);
        let y = self.rng.gen_range(0, sz - 1);
        Pos { x, y }
    }

    /// Tries up to `tries` uniform draws for a walkable position.
    fn random_walkable(&mut self, tries: usize) -> (r: Option<Pos>)
        requires
            old(self).map_of().wf(),
        ensures
            final(self).map_of() == old(self).map_of(),
            final(self).objects_seq() == old(self).objects_seq(),
            final(self).messages_seq() == old(self).messages_seq(),
            r matches Some(p) ==> old(self).spec_walkable(p),
    {
        let mut t: usize = 0;
        while t < tries
            invariant
                self.map_of() == old(self).map_of(),
                self.objects_seq() == old(self).objects_seq(),
                self.messages_seq() == old(self).messages_seq(),
                old(self).map_of().wf(),
            decreases tries - t,
        {
            let p = self.random_pos();
            if self.is_walkable(p) {
                return Some(p);
            }
            t = t + 1;
        }
        None
    }

    /// Scans the whole grid for a walkable position; the fallback when
    /// rejection sampling runs out of tries. `None` only when no walkable
    /// cell exists at all.
    fn scan_walkable(&self) -> (r: Option<Pos>)
        requires
            self.map_of().wf(),
        ensures
            r matches Some(p) ==> self.spec_walkable(p),
            r is None ==> forall|p: Pos| !(#[trigger] self.spec_walkable(p)),
    {
        proof {
            self.map_of().lemma_wf_bounds();
        }
        let sz = self.map.size();
        let mut x: i32 = 0;
        while x < sz
            invariant
                self.map_of().wf(),
                sz == self.map_of().spec_size(),
                0 <= x <= sz,
                forall|p: Pos|
                    0 <= p.x < x && 0 <= p.y < sz ==> !(#[trigger] self.spec_walkable(p)),
            decreases sz - x,
        {
            let mut y: i32 = 0;
            while y < sz
                invariant
                    self.map_of().wf(),
                    sz == self.map_of().spec_size(),
                    0 <= x < sz,
                    0 <= y <= sz,
                    forall|p: Pos|
                        0 <= p.x < x && 0 <= p.y < sz ==> !(#[trigger] self.spec_walkable(p)),
                    forall|p: Pos| p.x == x && 0 <= p.y < y ==> !(#[trigger] self.spec_walkable(p)),
                decreases sz - y,
            {
                let p = Pos { x, y };
                if self.is_walkable(p) {
                    return Some(p);
                }
                y = y + 1;
            }
            x = x + 1;
        }
        proof {
            assert forall|p: Pos| !self.spec_walkable(p) by {
                if !(0 <= p.x < sz && 0 <= p.y < sz) {
                    self.map_of().lemma_oob_solid(p);
                }
            }
        }
        None
    }

    /// Appending a fresh blocking character on a walkable cell keeps the
    /// roster sound.
    proof fn lemma_roster_after_spawn(pre: GameState, post: GameState, c: Character)
        requires
            pre.map_of().wf(),
            post.map_of() == pre.map_of(),
            forall|i: int| 0 <= i < pre.objects_seq().len() ==> (#[trigger] pre.objects_seq()[i]).wf(),
            forall|i: int|
                0 <= i < pre.objects_seq().len() ==> pre.map_of().in_bounds(
                    (#[trigger] pre.objects_seq()[i]).pos,
                ),
            forall|i: int, j: int|
                0 <= i < pre.objects_seq().len() && 0 <= j < pre.objects_seq().len() && i != j && (
                #[trigger] pre.objects_seq()[i]).blocking && (
                #[trigger] pre.objects_seq()[j]).blocking ==> pre.objects_seq()[i].pos
                    != pre.objects_seq()[j].pos,
            pre.spec_walkable(c.pos),
            c.wf(),
            post.objects_seq() == pre.objects_seq().push(c),
        ensures
            forall|i: int| 0 <= i < post.objects_seq().len() ==> (#[trigger] post.objects_seq()[i]).wf(),
            forall|i: int|
                0 <= i < post.objects_seq().len() ==> post.map_of().in_bounds(
                    (#[trigger] post.objects_seq()[i]).pos,
                ),
            forall|i: int, j: int|
                0 <= i < post.objects_seq().len() && 0 <= j < post.objects_seq().len() && i != j
                    && (#[trigger] post.objects_seq()[i]).blocking && (
                #[trigger] post.objects_seq()[j]).blocking ==> post.objects_seq()[i].pos
                    != post.objects_seq()[j].pos,
    {
        let s0 = pre.objects_seq();
        let s1 = post.objects_seq();
        let n = s0.len() as int;
        lemma_no_blocker(s0, c.pos, 0);
        pre.map_of().lemma_oob_solid(c.pos);
        assert forall|i: int, j: int|
            0 <= i < s1.len() && 0 <= j < s1.len() && i != j && (#[trigger] s1[i]).blocking && (
            #[trigger] s1[j]).blocking implies s1[i].pos != s1[j].pos by {
            if i < n && j < n {
                assert(s1[i] == s0[i] && s1[j] == s0[j]);
            } else if i == n {
                assert(s1[j] == s0[j]);
                assert(!(s0[j].blocking && s0[j].pos == c.pos));
            } else {
                assert(s1[i] == s0[i]);
                assert(!(s0[i].blocking && s0[i].pos == c.pos));
            }
        }
    }

    /// Populates an empty roster: the player first, on a walkable tile,
    /// then up to `NPC_COUNT` hostile wolves on walkable tiles found by
    /// bounded rejection sampling with a full-map scan as fallback. Returns
    /// how many wolves were actually placed, so a caller can tell when the
    /// map had no room for the full count.
    pub fn populate(&mut self) -> (placed: usize)
        requires
            old(self).map_of().wf(),
            old(self).objects_seq().len() == 0,
            !old(self).map_of().solid_at(Pos { x: 1, y: 1 }),
        ensures
            final(self).wf(),
            final(self).map_of() == old(self).map_of(),
            final(self).messages_seq() == old(self).messages_seq(),
            final(self).objects_seq().len() == 1 + placed,
            placed <= NPC_COUNT,
            placed < NPC_COUNT ==> forall|p: Pos| !(#[trigger] final(self).spec_walkable(p)),
            final(self).player_spec().controller == (Controller::PlayerController {
                action: Action::Idle,
            }),
            final(self).player_spec().name@ == "player"@,
            final(self).player_spec().faction == crate::object::Faction::Player,
            final(self).player_spec().alive,
            !final(self).map_of().solid_at(final(self).player_spec().pos),
            forall|k: int|
                1 <= k < final(self).objects_seq().len() ==> {
                    let w = #[trigger] final(self).objects_seq()[k];
                    &&& w.name@ == "grey wolf"@
                    &&& w.controller == (Controller::AggressiveAI { last_player_pos: None })
                    &&& w.alive
                    &&& !final(self).map_of().solid_at(w.pos)
                },
    {
        let ppos = match self.random_walkable(PLACEMENT_TRIES) {
            Some(p) => p,
            None => {
                // the spawn region is walkable and the roster is empty
                let p = Pos { x: 1, y: 1 };
                assert(self.spec_walkable(p));
                p
            },
        };
        let ghost pre_p = *self;
        let player = Character::player(ppos);
        self.objects.push(player);
        proof {
            Self::lemma_roster_after_spawn(pre_p, *self, player);
            assert(self.wf());
            pre_p.map_of().lemma_oob_solid(ppos);
        }
        let mut placed: usize = 0;
        let mut w: usize = 0;
        while w < NPC_COUNT
            invariant
                self.wf(),
                self.map_of() == old(self).map_of(),
                self.messages_seq() == old(self).messages_seq(),
                self.objects_seq().len() == 1 + placed,
                placed <= w <= NPC_COUNT,
                placed == w || (forall|p: Pos| !(#[trigger] self.spec_walkable(p))),
                self.player_spec().controller == (Controller::PlayerController {
                    action: Action::Idle,
                }),
                self.player_spec().name@ == "player"@,
                self.player_spec().faction == crate::object::Faction::Player,
                self.player_spec().alive,
                !self.map_of().solid_at(self.player_spec().pos),
                forall|k: int|
                    1 <= k < self.objects_seq().len() ==> {
                        let c = #[trigger] self.objects_seq()[k];
                        &&& c.name@ == "grey wolf"@
                        &&& c.controller == (Controller::AggressiveAI { last_player_pos: None })
                        &&& c.alive
                        &&& !self.map_of().solid_at(c.pos)
                    },
            decreases NPC_COUNT - w,
        {
            let ghost at_top = *self;
            let spot = match self.random_walkable(PLACEMENT_TRIES) {
                Some(p) => Some(p),
                None => self.scan_walkable(),
            };
            match spot {
                Some(p) => {
                    proof {
                        // whichever sampler produced `p`, the cell was
                        // walkable, and walkability reads only the map and
                        // the roster, which the samplers leave alone
                        assert(at_top.spec_walkable(p)) by {
                            assert(self.map_of() == at_top.map_of());
                            assert(self.objects_seq() == at_top.objects_seq());
                        };
                    }
                    let ghost pre_w = *self;
                    let wolf = Character::wolf(p);
                    self.objects.push(wolf);
                    placed = placed + 1;
                    proof {
                        Self::lemma_roster_after_spawn(pre_w, *self, wolf);
                        assert(self.objects_seq()[0] == pre_w.objects_seq()[0]);
                        assert(self.wf());
                        pre_w.map_of().lemma_oob_solid(p);
                        assert(placed <= w + 1);
                    }
                },
                None => {},
            }
            w = w + 1;
        }
        placed
    }

    /// Builds a fresh game: a procedurally generated world map and a
    /// populated roster, all driven by the given seed — the map's tile
    /// layout is exactly the one the wall scatter produces from a generator
    /// seeded with `seed`, so the same seed always builds the same world.
    /// The roster holds the player and as many wolves as placement found
    /// room for, queryable through `num_objects`; fewer than the full count
    /// only when no walkable cell was left.
    pub fn new(seed: u64) -> (g: GameState)
        ensures
            g.wf(),
            g.map_of().spec_size() == MAP_SIZE,
            forall|p: Pos|
                g.map_of().in_bounds(p) ==> (#[trigger] g.map_of().tile_at(p)) == (if p.x == 0
                    || p.y == 0 || p.x == MAP_SIZE - 1 || p.y == MAP_SIZE - 1 || scattered(
                    MAP_SIZE as int,
                    seed,
                    (MAP_SIZE as int) * (MAP_SIZE as int) / 5,
                    p,
                ) {
                    Tile::spec_wall()
                } else {
                    Tile::spec_empty()
                }),
            forall|p: Pos| !(#[trigger] g.map_of().visible_at(p)),
            forall|p: Pos|
                g.map_of().in_bounds(p) && (p.x == 0 || p.y == 0 || p.x == MAP_SIZE - 1 || p.y
                    == MAP_SIZE - 1) ==> #[trigger] g.map_of().solid_at(p) && g.map_of().opaque_at(
                    p,
                ),
            forall|p: Pos|
                g.map_of().in_spawn_region(p) ==> !(#[trigger] g.map_of().solid_at(p))
                    && !g.map_of().opaque_at(p),
            1 <= g.objects_seq().len() <= 1 + NPC_COUNT,
            g.objects_seq().len() < 1 + NPC_COUNT ==> forall|p: Pos|
                !(#[trigger] g.spec_walkable(p)),
            g.player_spec().controller == (Controller::PlayerController { action: Action::Idle }),
            g.player_spec().name@ == "player"@,
            g.player_spec().faction == crate::object::Faction::Player,
            g.player_spec().alive,
            !g.map_of().solid_at(g.player_spec().pos),
            forall|k: int|
                1 <= k < g.objects_seq().len() ==> {
                    let w = #[trigger] g.objects_seq()[k];
                    &&& w.name@ == "grey wolf"@
                    &&& w.controller == (Controller::AggressiveAI { last_player_pos: None })
                    &&& w.alive
                    &&& !g.map_of().solid_at(w.pos)
                },
            g.messages_seq() == Seq::<Message>::empty(),
    {
        let mut rng = Rng::new(seed);
        let maybe_map = GameMap::generate(MAP_SIZE, &mut rng);
        proof {
            assert(maybe_map is Some);
        }
        let map = maybe_map.unwrap();
        proof {
            assert(map.in_spawn_region(Pos { x: 1, y: 1 }));
            assert(map.tile_at(Pos { x: 1, y: 1 }) == Tile::spec_empty());
        }
        let mut gs = GameState { map, objects: Vec::new(), messages: Vec::new(), rng };
        let placed = gs.populate();
        proof {
            assert(gs.objects_seq().len() == 1 + placed);
        }
        gs
    }

    /// Relocating a character to a walkable cell keeps the state invariant.
    proof fn lemma_wf_after_move(pre: GameState, post: GameState, i: int, target: Pos)
        requires
            pre.wf(),
            0 <= i < pre.objects_seq().len(),
            pre.spec_walkable(target),
            post.objects_seq() == pre.objects_seq().update(
                i,
                Character { pos: target, ..pre.objects_seq()[i] },
            ),
            post.map_of() == pre.map_of(),
        ensures
            post.wf(),
    {
        lemma_no_blocker(pre.objects_seq(), target, 0);
        pre.map_of().lemma_oob_solid(target);
        let s0 = pre.objects_seq();
        let s1 = post.objects_seq();
        assert forall|a: int, b: int|
            0 <= a < s1.len() && 0 <= b < s1.len() && a != b && (#[trigger] s1[a]).blocking && (
            #[trigger] s1[b]).blocking implies s1[a].pos != s1[b].pos by {
            if a != i && b != i {
                assert(s1[a] == s0[a] && s1[b] == s0[b]);
            } else if a == i {
                assert(s1[b] == s0[b]);
                assert(!(s0[b].blocking && s0[b].pos == target));
            } else {
                assert(s1[a] == s0[a]);
                assert(!(s0[a].blocking && s0[a].pos == target));
            }
        }
    }

    /// Damaging one living character keeps the state invariant.
    proof fn lemma_wf_after_damage(pre: GameState, post: GameState, j: int, d: int)
        requires
            pre.wf(),
            0 <= j < pre.objects_seq().len(),
            pre.objects_seq()[j].alive,
            post.objects_seq() == pre.objects_seq().update(j, post.objects_seq()[j]),
            spec_damaged(pre.objects_seq()[j], post.objects_seq()[j], d),
            post.objects_seq()[j].wf(),
            post.map_of() == pre.map_of(),
        ensures
            post.wf(),
    {
        let s0 = pre.objects_seq();
        let s1 = post.objects_seq();
        assert(s1[j].pos == s0[j].pos);
        assert(s1[j].controller == s0[j].controller);
        assert(s1[j].blocking ==> s0[j].blocking);
        assert forall|a: int, b: int|
            0 <= a < s1.len() && 0 <= b < s1.len() && a != b && (#[trigger] s1[a]).blocking && (
            #[trigger] s1[b]).blocking implies s1[a].pos != s1[b].pos by {
            assert(s1[a].blocking ==> s0[a].blocking && s1[a].pos == s0[a].pos);
            assert(s1[b].blocking ==> s0[b].blocking && s1[b].pos == s0[b].pos);
        }
    }

    /// Swapping one character's controller keeps the state invariant, as
    /// long as index zero keeps a player relay.
    proof fn lemma_wf_after_controller(pre: GameState, post: GameState, i: int, c: Controller)
        requires
            pre.wf(),
            0 <= i < pre.objects_seq().len(),
            post.objects_seq() == pre.objects_seq().update(
                i,
                Character { controller: c, ..pre.objects_seq()[i] },
            ),
            post.map_of() == pre.map_of(),
            i == 0 ==> c is PlayerController,
        ensures
            post.wf(),
    {
        let s0 = pre.objects_seq();
        let s1 = post.objects_seq();
        assert forall|a: int, b: int|
            0 <= a < s1.len() && 0 <= b < s1.len() && a != b && (#[trigger] s1[a]).blocking && (
            #[trigger] s1[b]).blocking implies s1[a].pos != s1[b].pos by {
            assert(s1[a].blocking == s0[a].blocking && s1[a].pos == s0[a].pos);
            assert(s1[b].blocking == s0[b].blocking && s1[b].pos == s0[b].pos);
        }
    }

    /// Moving items between the inventories of two characters keeps the
    /// state invariant.
    proof fn lemma_wf_after_inventory(pre: GameState, post: GameState, i: int, j: int)
        requires
            pre.wf(),
            0 <= i < pre.objects_seq().len(),
            0 <= j < pre.objects_seq().len(),
            i != j,
            post.objects_seq().len() == pre.objects_seq().len(),
            same_except_inventory(pre.objects_seq()[i], post.objects_seq()[i]),
            same_except_inventory(pre.objects_seq()[j], post.objects_seq()[j]),
            forall|k: int|
                0 <= k < pre.objects_seq().len() && k != i && k != j
                    ==> #[trigger] post.objects_seq()[k] == pre.objects_seq()[k],
            post.map_of() == pre.map_of(),
        ensures
            post.wf(),
    {
        let s0 = pre.objects_seq();
        let s1 = post.objects_seq();
        assert forall|a: int|
            0 <= a < s1.len() implies (#[trigger] s1[a]).wf() && post.map_of().in_bounds(s1[a].pos)
            by {
            assert(s0[a].wf());
            assert(pre.map_of().in_bounds(s0[a].pos));
        }
        assert forall|a: int, b: int|
            0 <= a < s1.len() && 0 <= b < s1.len() && a != b && (#[trigger] s1[a]).blocking && (
            #[trigger] s1[b]).blocking implies s1[a].pos != s1[b].pos by {
            assert(s1[a].blocking == s0[a].blocking && s1[a].pos == s0[a].pos);
            assert(s1[b].blocking == s0[b].blocking && s1[b].pos == s0[b].pos);
        }
    }
}

} // verus!
