//! The keys that are held down, and what they do to the steered player.
//!
//! The keys are kept in the order in which they were pressed, and a tick
//! applies every one of them in that order.
use crate::entity::{Entity, Shape2D, ShapeView, Transform2D};
use crate::game::{Game, GameView};
use crate::globals::{COORD_LIMIT, JUMP_TICKS, PLAYER_SPEED, WRAP_X};
use crate::physics::State;
use vstd::prelude::*;

verus! {

/// A key, by what it means to the game.
#[derive(Debug, Clone, Copy, PartialEq, Eq, Structural)]
pub enum Key {
    MoveLeft,
    MoveRight,
    Jump,
    /// A key without a meaning, told apart from others by its code.
    Other(u32),
}

/// Whether a key went down or came up.
#[derive(Debug, Clone, Copy, PartialEq, Eq, Structural)]
pub enum ElementState {
    Pressed,
    Released,
}

/// A change at the keyboard.
#[derive(Debug, Clone, Copy, PartialEq, Eq, Structural)]
pub struct KeyboardInput {
    pub key: Key,
    pub state: ElementState,
}

/// The set of keys that are held down, in the order in which they were
/// pressed.
#[derive(Debug)]
pub struct KeysDown {
    keys: Vec<Key>,
}

impl View for KeysDown {
    type V = Seq<Key>;

    closed spec fn view(&self) -> Seq<Key> {
        self.keys@
    }
}

impl KeysDown {
    /// No key is held twice.
    pub open spec fn wf(&self) -> bool {
        self@.no_duplicates()
    }

    /// No key is down.
    pub fn new() -> (keys_down: KeysDown)
        ensures
            keys_down@ == Seq::<Key>::empty(),
            keys_down.wf(),
    {
        KeysDown { keys: Vec::new() }
    }

    /// Whether `key` is down.
    pub fn contains(&self, key: Key) -> (held: bool)
        ensures
            held == self@.contains(key),
    {
        let mut i: usize = 0;
        while i < self.keys.len()
            invariant
                i <= self.keys.len(),
                forall|j: int| 0 <= j < i ==> self.keys@[j] != key,
            decreases self.keys.len() - i,
        {
            if self.keys[i] == key {
                return true;
            }
            i = i + 1;
        }
        false
    }

    /// Puts `key` down: it joins the end of the set unless it is in it.
    pub fn insert(&mut self, key: Key)
        requires
            old(self).wf(),
        ensures
            final(self).wf(),
            final(self)@ == if old(self)@.contains(key) {
                old(self)@
            } else {
                old(self)@.push(key)
            },
    {
        if !self.contains(key) {
            self.keys.push(key);
        }
    }

    /// Lets `key` up: it leaves the set, and the others keep their order.
    pub fn remove(&mut self, key: Key)
        requires
            old(self).wf(),
        ensures
            final(self).wf(),
            final(self)@ == old(self)@.remove_value(key),
            !final(self)@.contains(key),
    {
        let mut i: usize = 0;
        while i < self.keys.len()
            invariant
                i <= self.keys.len(),
                self.keys == old(self).keys,
                old(self)@.no_duplicates(),
                forall|j: int| 0 <= j < i ==> self.keys@[j] != key,
            decreases self.keys.len() - i,
        {
            if self.keys[i] == key {
                self.keys.remove(i);
                proof {
                    let before = old(self)@;
                    let after = before.remove(i as int);
                    before.index_of_first_ensures(key);
                    assert(before.index_of_first(key) == Some(i as int));
                    // Every key that is left was a key before, at its own place.
                    assert forall|j: int, k: int|
                        0 <= j < after.len() && 0 <= k < after.len() && j != k implies after[j]
                        != after[k] by {
                        let from_j = if j < i { j } else { j + 1 };
                        let from_k = if k < i { k } else { k + 1 };
                        assert(after[j] == before[from_j]);
                        assert(after[k] == before[from_k]);
                    }
                    assert forall|j: int| 0 <= j < after.len() implies after[j] != key by {
                        let from_j = if j < i { j } else { j + 1 };
                        assert(after[j] == before[from_j]);
                    }
                }
                return ;
            }
            i = i + 1;
        }
        proof {
            self@.index_of_first_ensures(key);
        }
    }

    /// The keys that are down, in the order in which they were pressed.
    pub fn keys(&self) -> (keys: &Vec<Key>)
        ensures
            keys@ == self@,
    {
        &self.keys
    }
}

/// What one held key makes of the player in a tick of `dt` microseconds.
///
/// A move key first takes a player that has reached the edge of the screen
/// on that side over to the opposite edge, then moves it by
/// `PLAYER_SPEED * dt`. The jump key starts a jump of `JUMP_TICKS` ticks
/// from rest and does nothing in any other state. Other keys do nothing.
pub open spec fn apply_key(player: ShapeView, key: Key, dt: int) -> ShapeView {
    match key {
        Key::MoveRight => {
            let start = if player.anchor().x >= WRAP_X {
                player.place_x(-WRAP_X)
            } else {
                player
            };
            start.translate(PLAYER_SPEED * dt, 0)
        },
        Key::MoveLeft => {
            let start = if player.anchor().x <= -WRAP_X {
                player.place_x(WRAP_X as int)
            } else {
                player
            };
            start.translate(-(PLAYER_SPEED * dt), 0)
        },
        Key::Jump => if player.state == State::Idle {
            player.with_state(State::Jumping(JUMP_TICKS))
        } else {
            player
        },
        Key::Other(_) => player,
    }
}

/// What the held keys make of the player in a tick of `dt` microseconds:
/// each key is applied in turn, the first one first.
pub open spec fn apply_keys(player: ShapeView, keys: Seq<Key>, dt: int) -> ShapeView
    decreases keys.len(),
{
    if keys.len() == 0 {
        player
    } else {
        apply_key(apply_keys(player, keys.drop_last(), dt), keys.last(), dt)
    }
}

impl GameView {
    /// The world once the keys that are down have been applied to the
    /// steered player. A world without players is left as it is.
    pub open spec fn handle_input(self) -> GameView {
        if self.players.len() == 0 {
            self
        } else {
            GameView {
                entities: self.entities.update(
                    self.steered(),
                    apply_keys(self.player(), self.keys_down, self.dt),
                ),
                ..self
            }
        }
    }
}

/// `to` is `from` moved sideways, in whatever motion state.
spec fn slid(from: ShapeView, to: ShapeView) -> bool {
    to == from.translate(to.anchor().x - from.anchor().x, 0).with_state(to.state)
}

/// A shape that has only been moved sideways from within the coordinate
/// limit, and whose anchor is to end up within twice that limit, can be
/// moved sideways once more.
proof fn lemma_slide_on(from: ShapeView, now: ShapeView, dx: int)
    requires
        from.has_anchor(),
        from.representable(),
        from.x_within(COORD_LIMIT as int),
        slid(from, now),
        -2 * COORD_LIMIT <= now.anchor().x + dx <= 2 * COORD_LIMIT,
    ensures
        now.has_anchor(),
        now.translate(dx, 0).representable(),
        now.translate(dx, 0).anchor().x == now.anchor().x + dx,
        slid(from, now.translate(dx, 0)),
{
    let by = now.anchor().x - from.anchor().x;
    let then = now.translate(dx, 0);
    assert(from.points[2].representable());
    assert forall|i: int| 0 <= i < then.points.len() implies (
    #[trigger] then.points[i]).representable() by {
        assert(from.points[i].representable());
        assert(then.points[i].x == from.points[i].x + by + dx);
    }
    assert(then =~= from.translate(then.anchor().x - from.anchor().x, 0).with_state(then.state));
}

/// Applies every key that is down to the player, in the order in which the
/// keys were pressed.
///
/// The player needs an anchor, and no x coordinate of it may be further
/// than `COORD_LIMIT` from zero, so that it stays within the range of `i64`.
pub fn match_key(player: &mut Shape2D, keys_down: &KeysDown, dt: u32)
    requires
        old(player)@.has_anchor(),
        old(player)@.x_within(COORD_LIMIT as int),
    ensures
        final(player)@ == apply_keys(old(player)@, keys_down@, dt as int),
{
    let keys = keys_down.keys();
    let step: i64 = PLAYER_SPEED * (dt as i64);
    let ghost from = player@;
    proof {
        player.lemma_view();
        assert(from.translate(0, 0) =~= from);
    }
    let mut i: usize = 0;
    while i < keys.len()
        invariant
            i <= keys.len(),
            keys@ == keys_down@,
            step == PLAYER_SPEED * dt,
            from == old(player)@,
            from.has_anchor(),
            from.representable(),
            from.x_within(COORD_LIMIT as int),
            slid(from, player@),
            -(COORD_LIMIT + step) <= player@.anchor().x <= COORD_LIMIT + step,
            player@ == apply_keys(from, keys@.take(i as int), dt as int),
        decreases keys.len() - i,
    {
        let ghost before = player@;
        match keys[i] {
            Key::MoveRight => {
                if player.x() >= WRAP_X {
                    proof {
                        lemma_slide_on(from, player@, -WRAP_X - player@.anchor().x);
                    }
                    player.set_x(-WRAP_X);
                }
                proof {
                    lemma_slide_on(from, player@, step as int);
                }
                player.shift_x(step);
            },
            Key::MoveLeft => {
                if player.x() <= -WRAP_X {
                    proof {
                        lemma_slide_on(from, player@, WRAP_X - player@.anchor().x);
                    }
                    player.set_x(WRAP_X);
                }
                proof {
                    lemma_slide_on(from, player@, -step as int);
                }
                player.shift_x(-step);
            },
            Key::Jump => {
                if player.state() == State::Idle {
                    player.set_state(State::Jumping(JUMP_TICKS));
                    assert(player@ =~= from.translate(
                        player@.anchor().x - from.anchor().x,
                        0,
                    ).with_state(player@.state));
                }
            },
            Key::Other(_) => {},
        }
        proof {
            let done = keys@.take(i as int + 1);
            assert(done.drop_last() =~= keys@.take(i as int));
            assert(done.last() == keys@[i as int]);
            assert(player@ == apply_key(before, keys@[i as int], dt as int));
        }
        i = i + 1;
    }
    assert(keys@.take(i as int) =~= keys@);
}

/// Applies the keys that are down to the steered player.
///
/// The world has to be well formed, and no x coordinate of the steered
/// player further than `COORD_LIMIT` from zero.
pub fn handle(game: &mut Game)
    requires
        old(game)@.wf(),
        old(game)@.players.len() > 0 ==> old(game)@.player().x_within(COORD_LIMIT as int),
    ensures
        final(game)@ == old(game)@.handle_input(),
{
    if game.players.len() == 0 {
        return ;
    }
    let index = game.players[0];
    assert(game@.players[0] < game@.entities.len());
    assert(game@.player() == game.entities@[index as int]@);
    let player = &mut game.entities[index];
    match_key(player, &game.keys_down, game.dt);
    assert(game@.entities =~= old(game)@.handle_input().entities);
}

/// The keys move the player sideways and may start a jump: they leave its
/// corners at their heights and its colour and collision flag as they
/// were, they keep terrain terrain, and they change no motion state but
/// rest.
pub proof fn lemma_keys_keep(player: ShapeView, keys: Seq<Key>, dt: int)
    ensures
        ({
            let moved = apply_keys(player, keys, dt);
            &&& moved.points.len() == player.points.len()
            &&& forall|i: int|
                0 <= i < player.points.len() ==> moved.points[i].y == player.points[i].y
            &&& moved.colour == player.colour
            &&& moved.collides == player.collides
            &&& player.state != State::Idle ==> moved.state == player.state
            &&& moved.state != State::Static || player.state == State::Static
        }),
    decreases keys.len(),
{
    if keys.len() > 0 {
        lemma_keys_keep(player, keys.drop_last(), dt);
    }
}

/// The keys keep a world well formed, and every entity whose heights lie
/// within `limit` within it.
pub proof fn lemma_handle_input_keeps_wf(world: GameView, limit: int)
    requires
        world.wf(),
    ensures
        world.handle_input().wf(),
        world.handle_input().entities.len() == world.entities.len(),
        forall|i: int|
            0 <= i < world.entities.len() && world.entities[i].y_within(limit) ==> (
            #[trigger] world.handle_input().entities[i]).y_within(limit),
{
    let next = world.handle_input();
    if world.players.len() > 0 {
        let index = world.steered();
        assert(world.players[0] < world.entities.len());
        lemma_keys_keep(world.player(), world.keys_down, world.dt);
        assert(3 <= world.player().points.len() <= 5);
        assert forall|i: int| 0 <= i < next.entities.len() implies {
            let entity = #[trigger] next.entities[i];
            &&& 3 <= entity.points.len() <= 5
            &&& entity.state != State::Static || entity.collides ==> entity.has_anchor()
        } by {
            assert(3 <= world.entities[i].points.len() <= 5);
        }
        assert forall|i: int|
            0 <= i < world.entities.len() && world.entities[i].y_within(limit) implies (
        #[trigger] next.entities[i]).y_within(limit) by {
            if i == index {
                assert forall|k: int| 0 <= k < next.entities[i].points.len() implies -limit <= (
                #[trigger] next.entities[i].points[k]).y <= limit by {
                    assert(next.entities[i].points[k].y == world.entities[i].points[k].y);
                }
            }
        }
    }
}

/// Keys are applied in turn: what a run of keys makes of the player is what
/// its second part makes of what its first part made of it. No key of the
/// run is left out.
pub proof fn law_keys_in_turn(player: ShapeView, first: Seq<Key>, then: Seq<Key>, dt: int)
    ensures
        apply_keys(player, first + then, dt) == apply_keys(apply_keys(player, first, dt), then, dt),
    decreases then.len(),
{
    if then.len() == 0 {
        assert(first + then =~= first);
    } else {
        law_keys_in_turn(player, first, then.drop_last(), dt);
        assert((first + then).drop_last() =~= first + then.drop_last());
        assert((first + then).last() == then.last());
    }
}

/// A single key that is down does to the player what `apply_key` says.
pub proof fn law_single_key(player: ShapeView, key: Key, dt: int)
    ensures
        apply_keys(player, seq![key], dt) == apply_key(player, key, dt),
{
    let keys = seq![key];
    assert(keys.drop_last() =~= Seq::<Key>::empty());
    assert(apply_keys(player, keys.drop_last(), dt) == player);
}

/// The jump key alone turns rest into a jump of `JUMP_TICKS` ticks, and
/// changes nothing about a player in any other state.
pub proof fn law_jump_key(player: ShapeView, dt: int)
    ensures
        player.state == State::Idle ==> apply_keys(player, seq![Key::Jump], dt)
            == player.with_state(State::Jumping(JUMP_TICKS)),
        player.state != State::Idle ==> apply_keys(player, seq![Key::Jump], dt) == player,
{
    law_single_key(player, Key::Jump, dt);
}

/// The right key alone, with the player's anchor at or beyond `WRAP_X`,
/// sets the player down at `-WRAP_X` and moves it on from there: the
/// anchor ends at `-WRAP_X + PLAYER_SPEED * dt`. The left key does the
/// same in mirror image.
pub proof fn law_wrap(player: ShapeView, dt: int)
    requires
        player.has_anchor(),
    ensures
        player.anchor().x >= WRAP_X ==> {
            let moved = apply_keys(player, seq![Key::MoveRight], dt);
            &&& moved == player.place_x(-WRAP_X).translate(PLAYER_SPEED * dt, 0)
            &&& moved.anchor().x == -WRAP_X + PLAYER_SPEED * dt
        },
        player.anchor().x <= -WRAP_X ==> {
            let moved = apply_keys(player, seq![Key::MoveLeft], dt);
            &&& moved == player.place_x(WRAP_X as int).translate(-(PLAYER_SPEED * dt), 0)
            &&& moved.anchor().x == WRAP_X - PLAYER_SPEED * dt
        },
{
    law_single_key(player, Key::MoveRight, dt);
    law_single_key(player, Key::MoveLeft, dt);
}

/// With the left and the right key both down and the player's anchor
/// strictly between the two edges, the two moves cancel, whichever key was
/// pressed first: the player is left exactly as it was.
pub proof fn law_left_and_right_cancel(player: ShapeView, dt: int)
    requires
        player.has_anchor(),
        -WRAP_X < player.anchor().x < WRAP_X,
        dt >= 0,
    ensures
        apply_keys(player, seq![Key::MoveLeft, Key::MoveRight], dt) == player,
        apply_keys(player, seq![Key::MoveRight, Key::MoveLeft], dt) == player,
{
    let step = PLAYER_SPEED * dt;
    let left_first = seq![Key::MoveLeft, Key::MoveRight];
    let right_first = seq![Key::MoveRight, Key::MoveLeft];
    assert(left_first =~= seq![Key::MoveLeft] + seq![Key::MoveRight]);
    assert(right_first =~= seq![Key::MoveRight] + seq![Key::MoveLeft]);
    law_keys_in_turn(player, seq![Key::MoveLeft], seq![Key::MoveRight], dt);
    law_keys_in_turn(player, seq![Key::MoveRight], seq![Key::MoveLeft], dt);
    law_single_key(player, Key::MoveLeft, dt);
    law_single_key(player, Key::MoveRight, dt);
    let left = player.translate(-step, 0);
    let right = player.translate(step, 0);
    law_single_key(left, Key::MoveRight, dt);
    law_single_key(right, Key::MoveLeft, dt);
    assert(left.translate(step, 0) =~= player);
    assert(right.translate(-step, 0) =~= player);
}

} // verus!
