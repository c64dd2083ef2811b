//! Motion states, the state machine that moves every entity from one tick
//! to the next, and the landing of the steered player on surfaces.
use crate::entity::{lemma_translate_twice, Entity, ShapeView, Transform2D};
use crate::game::{Game, GameView};
use crate::globals::{COORD_LIMIT, FLOOR_Y, JUMP_SPEED};
use vstd::prelude::*;

verus! {

/// The motion state of an entity.
#[derive(Debug, Clone, Copy, PartialEq, Eq, Structural)]
pub enum State {
    /// At rest: a jump may start from here.
    Idle,
    /// Rising, for the given number of further ticks.
    Jumping(u32),
    /// Dropping until something stops the fall.
    Falling,
    /// Terrain, which the state machine never moves.
    Static,
}

/// The physical attributes of an entity: its motion state and whether other
/// entities can land on it.
#[derive(Debug, Clone, Copy, PartialEq, Eq, Structural)]
pub struct Physics {
    pub state: State,
    pub collides: bool,
}

impl Physics {
    pub fn new(state: State, collides: bool) -> (physics: Physics)
        ensures
            physics.state == state,
            physics.collides == collides,
    {
        Physics { state, collides }
    }
}

impl Default for Physics {
    /// Terrain: static, and a surface to land on.
    fn default() -> (physics: Physics)
        ensures
            physics.state == State::Static,
            physics.collides,
    {
        Physics { state: State::Static, collides: true }
    }
}

impl State {
    /// An entity in this state is moved by the next tick of the state
    /// machine.
    pub open spec fn moves(self) -> bool {
        match self {
            State::Idle => true,
            State::Jumping(ticks) => ticks > 0,
            State::Falling => true,
            State::Static => false,
        }
    }

    /// What one tick of `dt` microseconds makes of `shape` when this is its
    /// motion state.
    ///
    /// A jump rises by `JUMP_SPEED * dt` and counts one tick down; when the
    /// count is used up the entity starts to fall without moving. A falling
    /// entity drops by `JUMP_SPEED * dt` and keeps falling: only a landing
    /// ends a fall. An entity at rest is pulled down in the same way and
    /// stays at rest, so that it drops when nothing carries it. Terrain is
    /// left alone.
    pub open spec fn step(self, shape: ShapeView, dt: int) -> ShapeView {
        match self {
            State::Idle => shape.translate(0, -(JUMP_SPEED * dt)),
            State::Jumping(ticks) => if ticks > 0 {
                shape.translate(0, JUMP_SPEED * dt).with_state(State::Jumping((ticks - 1) as u32))
            } else {
                shape.with_state(State::Falling)
            },
            State::Falling => shape.translate(0, -(JUMP_SPEED * dt)),
            State::Static => shape,
        }
    }

    /// Advances `shape` by one tick of `dt` microseconds as this state
    /// dictates. A shape that the tick moves needs an anchor, and must stay
    /// within the range of `i64`.
    pub fn handle<T>(&self, shape: &mut T, dt: u32) where T: Transform2D + Entity
        requires
            self.moves() ==> old(shape)@.has_anchor() && self.step(
                old(shape)@,
                dt as int,
            ).representable(),
        ensures
            final(shape)@ == self.step(old(shape)@, dt as int),
    {
        let rise: i64 = JUMP_SPEED * (dt as i64);
        match *self {
            State::Idle => {
                shape.shift_y(-rise);
            },
            State::Jumping(ticks) => {
                if ticks > 0 {
                    assert(shape@.translate(0, rise as int).representable()) by {
                        let risen = shape@.translate(0, rise as int);
                        assert(self.step(shape@, dt as int).points == risen.points);
                    }
                    shape.shift_y(rise);
                    shape.set_state(State::Jumping(ticks - 1));
                } else {
                    shape.set_state(State::Falling);
                }
            },
            State::Falling => {
                shape.shift_y(-rise);
            },
            State::Static => {},
        }
    }
}

/// The shape after `ticks` ticks of `dt` microseconds each, moved by the
/// state machine alone: no key is held and nothing is landed on.
pub open spec fn run(shape: ShapeView, dt: int, ticks: nat) -> ShapeView
    decreases ticks,
{
    if ticks == 0 {
        shape
    } else {
        let before = run(shape, dt, (ticks - 1) as nat);
        before.state.step(before, dt)
    }
}

/// While a jump of `ticks` ticks rises, after `done` of them the shape has
/// risen by `done * JUMP_SPEED * dt` and has `ticks - done` ticks to go.
pub proof fn lemma_rising(shape: ShapeView, dt: int, ticks: u32, done: nat)
    requires
        shape.state == State::Jumping(ticks),
        done <= ticks,
    ensures
        run(shape, dt, done) == shape.translate(0, done * (JUMP_SPEED * dt)).with_state(
            State::Jumping((ticks - done) as u32),
        ),
    decreases done,
{
    if done == 0 {
        assert(shape.translate(0, 0) =~= shape);
        assert(run(shape, dt, done) =~= shape.translate(0, 0).with_state(State::Jumping(ticks)));
    } else {
        let earlier = (done - 1) as nat;
        lemma_rising(shape, dt, ticks, earlier);
        lemma_translate_twice(shape, 0, earlier * (JUMP_SPEED * dt), 0, JUMP_SPEED * dt);
        assert(earlier * (JUMP_SPEED * dt) + JUMP_SPEED * dt == done * (JUMP_SPEED * dt))
            by (nonlinear_arith)
            requires
                earlier + 1 == done,
        ;
        assert(run(shape, dt, done) =~= shape.translate(0, done * (JUMP_SPEED * dt)).with_state(
            State::Jumping((ticks - done) as u32),
        ));
    }
}

/// A jump of `ticks` ticks has, after exactly `ticks` ticks, risen by
/// `ticks * JUMP_SPEED * dt` and used up its count, without having been a
/// fall on the way; the tick after that turns it into a fall at the same
/// height.
pub proof fn law_jump_ends_in_fall(shape: ShapeView, dt: int, ticks: u32)
    requires
        shape.state == State::Jumping(ticks),
    ensures
        run(shape, dt, ticks as nat) == shape.translate(0, ticks * (JUMP_SPEED * dt)).with_state(
            State::Jumping(0),
        ),
        run(shape, dt, (ticks + 1) as nat) == shape.translate(
            0,
            ticks * (JUMP_SPEED * dt),
        ).with_state(State::Falling),
        forall|done: nat|
            done <= ticks ==> (#[trigger] run(shape, dt, done)).state != State::Falling,
{
    lemma_rising(shape, dt, ticks, ticks as nat);
    assert forall|done: nat| done <= ticks implies (#[trigger] run(shape, dt, done)).state
        != State::Falling by {
        lemma_rising(shape, dt, ticks, done);
    }
    let top = run(shape, dt, ticks as nat);
    assert(run(shape, dt, (ticks + 1) as nat) == top.state.step(top, dt));
    assert(run(shape, dt, (ticks + 1) as nat) =~= shape.translate(
        0,
        ticks * (JUMP_SPEED * dt),
    ).with_state(State::Falling));
}

/// Terrain is never moved by the state machine, and never leaves its state.
pub proof fn law_terrain_stays(shape: ShapeView, dt: int, ticks: nat)
    requires
        shape.state == State::Static,
    ensures
        run(shape, dt, ticks) == shape,
    decreases ticks,
{
    if ticks > 0 {
        law_terrain_stays(shape, dt, (ticks - 1) as nat);
    }
}

/// A fall does not end by itself, and neither does rest turn into anything
/// else by itself: after any number of ticks of the state machine alone the
/// shape is in the state it was in, and has dropped by `JUMP_SPEED * dt`
/// for every tick.
pub proof fn law_drop_goes_on(shape: ShapeView, dt: int, ticks: nat)
    requires
        shape.state == State::Falling || shape.state == State::Idle,
    ensures
        run(shape, dt, ticks) == shape.translate(0, -(ticks * (JUMP_SPEED * dt))),
    decreases ticks,
{
    if ticks == 0 {
        assert(run(shape, dt, ticks) =~= shape.translate(0, 0));
    } else {
        let earlier = (ticks - 1) as nat;
        law_drop_goes_on(shape, dt, earlier);
        lemma_translate_twice(shape, 0, -(earlier * (JUMP_SPEED * dt)), 0, -(JUMP_SPEED * dt));
        assert(earlier * (JUMP_SPEED * dt) + JUMP_SPEED * dt == ticks * (JUMP_SPEED * dt))
            by (nonlinear_arith)
            requires
                earlier + 1 == ticks,
        ;
    }
}

/// The player, already moved by this tick's step of the state machine, has
/// dropped through the top of `surface`: the top lies above the player's
/// anchor but no more than `reach` above it, and the two overlap sideways.
pub open spec fn lands_on(player: ShapeView, surface: ShapeView, reach: int) -> bool {
    &&& surface.collides
    &&& player.anchor().y < surface.max_y()
    &&& player.anchor().y + reach >= surface.max_y()
    &&& player.max_x() > surface.anchor().x
    &&& player.anchor().x < surface.max_x()
}

impl GameView {
    /// The world once the state machine has advanced every entity by one
    /// tick.
    pub open spec fn advance(self) -> GameView {
        GameView {
            entities: Seq::new(
                self.entities.len(),
                |i: int| self.entities[i].state.step(self.entities[i], self.dt),
            ),
            ..self
        }
    }

    /// How far an entity rises or drops in this tick.
    pub open spec fn reach(self) -> int {
        JUMP_SPEED * self.dt
    }

    /// Entity `i` is a surface that the steered player lands on. The player
    /// does not land on itself.
    pub open spec fn is_landing(self, i: int) -> bool {
        &&& 0 <= i < self.entities.len()
        &&& i != self.steered()
        &&& lands_on(self.player(), self.entities[i], self.reach())
    }

    /// `top` is the height of the highest surface that the steered player
    /// lands on: the player lands on a surface of that height, and on none
    /// that is higher.
    pub open spec fn is_highest_landing(self, top: int) -> bool {
        &&& exists|i: int| #[trigger] self.is_landing(i) && self.entities[i].max_y() == top
        &&& forall|i: int| #[trigger] self.is_landing(i) ==> self.entities[i].max_y() <= top
    }

    /// The height of the highest surface that the steered player lands on,
    /// if it lands on any.
    pub open spec fn landing(self) -> Option<int> {
        if exists|top: int| self.is_highest_landing(top) {
            Some(choose|top: int| self.is_highest_landing(top))
        } else {
            None
        }
    }

    /// The world once the steered player has been kept from dropping through
    /// surfaces and under the floor.
    ///
    /// A player that lands is set on the highest surface it lands on, and
    /// comes to rest. After that a player whose anchor is under `FLOOR_Y` is
    /// lifted to `FLOOR_Y`, in whatever state it is. A world without players
    /// is left as it is.
    pub open spec fn resolve(self) -> GameView {
        if self.players.len() == 0 {
            self
        } else {
            let landed = match self.landing() {
                Some(top) => self.player().place_y(top).with_state(State::Idle),
                None => self.player(),
            };
            let kept = if landed.anchor().y < FLOOR_Y {
                landed.place_y(FLOOR_Y as int)
            } else {
                landed
            };
            GameView { entities: self.entities.update(self.steered(), kept), ..self }
        }
    }
}

/// The greatest height among the corners of a shape is the height of one of
/// them, so it is no further from zero than they are.
pub proof fn lemma_max_y_within(shape: ShapeView, limit: int)
    requires
        shape.points.len() > 0,
        shape.y_within(limit),
    ensures
        -limit <= shape.max_y() <= limit,
{
    let ys = shape.ys();
    ys.max_ensures();
    let i = choose|i: int| 0 <= i < ys.len() && ys[i] == ys.max();
    assert(ys[i] == shape.points[i].y);
}

/// A step of the state machine moves a shape that lies within the
/// coordinate limit by less than that limit: the outcome can be held, and
/// lies within twice the limit.
pub proof fn lemma_step_within(shape: ShapeView, dt: int)
    requires
        shape.representable(),
        shape.y_within(COORD_LIMIT as int),
        0 <= dt <= u32::MAX,
    ensures
        shape.state.step(shape, dt).representable(),
        shape.state.step(shape, dt).y_within(2 * COORD_LIMIT),
        shape.state.step(shape, dt).points.len() == shape.points.len(),
{
    let next = shape.state.step(shape, dt);
    assert forall|k: int| 0 <= k < next.points.len() implies (
    #[trigger] next.points[k]).representable() && -2 * COORD_LIMIT <= next.points[k].y <= 2
        * COORD_LIMIT by {
        assert(shape.points[k].representable());
    }
}

/// The state machine keeps a world well formed.
pub proof fn lemma_advance_keeps_wf(world: GameView)
    requires
        world.wf(),
    ensures
        world.advance().wf(),
{
    let next = world.advance();
    assert forall|i: int| 0 <= i < next.entities.len() implies {
        let entity = #[trigger] next.entities[i];
        &&& 3 <= entity.points.len() <= 5
        &&& entity.state != State::Static || entity.collides ==> entity.has_anchor()
    } by {
        assert(3 <= world.entities[i].points.len() <= 5);
    }
    if world.players.len() > 0 {
        assert(world.players[0] < world.entities.len());
    }
}

/// Resolving the collisions keeps a world well formed.
pub proof fn lemma_resolve_keeps_wf(world: GameView)
    requires
        world.wf(),
    ensures
        world.resolve().wf(),
{
    let next = world.resolve();
    if world.players.len() > 0 {
        assert(world.players[0] < world.entities.len());
        assert(3 <= world.player().points.len() <= 5);
        assert forall|i: int| 0 <= i < next.entities.len() implies {
            let entity = #[trigger] next.entities[i];
            &&& 3 <= entity.points.len() <= 5
            &&& entity.state != State::Static || entity.collides ==> entity.has_anchor()
        } by {
            assert(3 <= world.entities[i].points.len() <= 5);
        }
    }
}

/// The highest surface that the player lands on has one height only, and
/// that is the height of the landing.
pub proof fn lemma_landing_is(world: GameView, top: int)
    requires
        world.is_highest_landing(top),
    ensures
        world.landing() == Some(top),
{
    let chosen = choose|top: int| world.is_highest_landing(top);
    let i = choose|i: int| #[trigger] world.is_landing(i) && world.entities[i].max_y() == top;
    let j = choose|j: int| #[trigger] world.is_landing(j) && world.entities[j].max_y() == chosen;
    assert(world.is_landing(i) && world.is_landing(j));
}

/// Keeps the steered player from dropping through surfaces and under the
/// floor.
///
/// The world has to be well formed, and no height in it further than twice
/// `COORD_LIMIT` from zero, so that the player can be set down within the
/// range of `i64`.
pub fn collision(game: &mut Game)
    requires
        old(game)@.wf(),
        forall|i: int|
            0 <= i < old(game)@.entities.len() ==> (#[trigger] old(game)@.entities[i]).y_within(
                2 * COORD_LIMIT,
            ),
    ensures
        final(game)@ == old(game)@.resolve(),
{
    if game.players.len() == 0 {
        return ;
    }
    let index = game.players[0];
    let reach: i64 = JUMP_SPEED * (game.dt as i64);
    let ghost world = game@;
    assert(world.players[0] < world.entities.len());
    assert(world.player() == game.entities@[index as int]@);
    assert(world.player().points[2].y == world.player().anchor().y);
    let x = game.entities[index].x();
    let y = game.entities[index].y();
    let max_x = game.entities[index].max_x();
    let mut new_y: Option<i64> = None;
    let mut i: usize = 0;
    while i < game.entities.len()
        invariant
            i <= game.entities.len(),
            game@ == world,
            world.wf(),
            world.players.len() > 0,
            index == world.steered(),
            index < world.entities.len(),
            reach == world.reach(),
            x == world.player().anchor().x,
            y == world.player().anchor().y,
            max_x == world.player().max_x(),
            -2 * COORD_LIMIT <= y <= 2 * COORD_LIMIT,
            forall|j: int|
                0 <= j < world.entities.len() ==> (#[trigger] world.entities[j]).y_within(
                    2 * COORD_LIMIT,
                ),
            match new_y {
                Some(best) => {
                    &&& -2 * COORD_LIMIT <= best <= 2 * COORD_LIMIT
                    &&& exists|j: int|
                        0 <= j < i && #[trigger] world.is_landing(j) && world.entities[j].max_y()
                            == best
                    &&& forall|j: int|
                        0 <= j < i && #[trigger] world.is_landing(j) ==> world.entities[j].max_y()
                            <= best
                },
                None => forall|j: int| 0 <= j < i ==> !#[trigger] world.is_landing(j),
            },
        decreases game.entities.len() - i,
    {
        assert(world.entities[i as int] == game.entities@[i as int]@);
        if i != index {
            let entity = &game.entities[i];
            if entity.collides() && y < entity.max_y() && y + reach >= entity.max_y() && max_x
                > entity.x() && x < entity.max_x() {
                let top = entity.max_y();
                proof {
                    lemma_max_y_within(world.entities[i as int], 2 * COORD_LIMIT);
                    assert(world.is_landing(i as int));
                }
                new_y =
                match new_y {
                    Some(best) => if best >= top {
                        Some(best)
                    } else {
                        Some(top)
                    },
                    None => Some(top),
                };
            }
        }
        i = i + 1;
    }
    let ghost before = world.player();
    proof {
        game.entities@[index as int].lemma_view();
        match new_y {
            Some(best) => lemma_landing_is(world, best as int),
            None => {},
        }
    }
    let player = &mut game.entities[index];
    if let Some(top) = new_y {
        proof {
            let set = before.place_y(top as int);
            assert forall|k: int| 0 <= k < set.points.len() implies (
            #[trigger] set.points[k]).representable() by {
                assert(before.points[k].representable());
            }
        }
        player.set_y(top);
        player.set_state(State::Idle);
    }
    let ghost landed = player@;
    if player.y() < FLOOR_Y {
        proof {
            // A corner lies as far from the anchor as it did before the landing.
            let set = landed.place_y(FLOOR_Y as int);
            assert forall|k: int| 0 <= k < set.points.len() implies (
            #[trigger] set.points[k]).representable() by {
                assert(before.points[k].representable());
                assert(landed.points[k].y - landed.anchor().y == before.points[k].y
                    - before.anchor().y);
            }
        }
        player.set_y(FLOOR_Y);
    }
    assert(game@.entities =~= world.resolve().entities);
}

/// Advances every entity by one tick of the state machine, then keeps the
/// steered player from dropping through surfaces and under the floor.
///
/// The world has to be well formed, and no height in it further than
/// `COORD_LIMIT` from zero, so that every entity stays within the range of
/// `i64`.
pub fn update(game: &mut Game)
    requires
        old(game)@.wf(),
        forall|i: int|
            0 <= i < old(game)@.entities.len() ==> (#[trigger] old(game)@.entities[i]).y_within(
                COORD_LIMIT as int,
            ),
    ensures
        final(game)@ == old(game)@.advance().resolve(),
{
    let ghost world = game@;
    let dt = game.dt;
    let mut i: usize = 0;
    while i < game.entities.len()
        invariant
            i <= game.entities.len(),
            world == old(game)@,
            world.wf(),
            game.entities.len() == world.entities.len(),
            game.players == old(game).players,
            game.keys_down == old(game).keys_down,
            game.dt == old(game).dt,
            dt == game.dt,
            forall|j: int|
                0 <= j < i ==> (#[trigger] game.entities@[j])@ == world.advance().entities[j],
            forall|j: int|
                i <= j < game.entities.len() ==> (#[trigger] game.entities@[j])@
                    == world.entities[j],
            forall|j: int|
                0 <= j < world.entities.len() ==> (#[trigger] world.entities[j]).y_within(
                    COORD_LIMIT as int,
                ),
        decreases game.entities.len() - i,
    {
        let state = game.entities[i].state();
        proof {
            let shape = world.entities[i as int];
            assert(game.entities@[i as int]@ == shape);
            game.entities@[i as int].lemma_view();
            lemma_step_within(shape, dt as int);
        }
        state.handle(&mut game.entities[i], dt);
        i = i + 1;
    }
    proof {
        let advanced = world.advance();
        assert(game@.entities =~= advanced.entities);
        assert(game@ =~= advanced);
        lemma_advance_keeps_wf(world);
        assert forall|j: int| 0 <= j < advanced.entities.len() implies (
        #[trigger] advanced.entities[j]).y_within(2 * COORD_LIMIT) by {
            assert(world.entities[j].y_within(COORD_LIMIT as int));
            lemma_step_within(world.entities[j], dt as int);
        }
    }
    collision(game);
}

/// A player that lands comes to rest on the highest surface that it lands
/// on, or at `FLOOR_Y` where that surface lies lower.
pub proof fn law_lands_on_highest(world: GameView, surface: int)
    requires
        world.players.len() > 0,
        world.steered() < world.entities.len(),
        world.player().has_anchor(),
        world.is_landing(surface),
        forall|i: int| #[trigger]
            world.is_landing(i) ==> world.entities[i].max_y() <= world.entities[surface].max_y(),
    ensures
        world.landing() == Some(world.entities[surface].max_y()),
        world.resolve().player().state == State::Idle,
        world.resolve().player().anchor().y == if world.entities[surface].max_y() < FLOOR_Y {
            FLOOR_Y as int
        } else {
            world.entities[surface].max_y()
        },
{
    lemma_landing_is(world, world.entities[surface].max_y());
}

/// A player that lands nowhere keeps its state; it is lifted to `FLOOR_Y`
/// if its anchor lies lower, and else stays where it is.
pub proof fn law_floor(world: GameView)
    requires
        world.players.len() > 0,
        world.steered() < world.entities.len(),
        world.player().has_anchor(),
        forall|i: int| !#[trigger] world.is_landing(i),
    ensures
        world.landing().is_none(),
        world.resolve().player() == if world.player().anchor().y < FLOOR_Y {
            world.player().place_y(FLOOR_Y as int)
        } else {
            world.player()
        },
        world.player().anchor().y < FLOOR_Y ==> world.resolve().player().anchor().y == FLOOR_Y,
{
    assert forall|top: int| !world.is_highest_landing(top) by {
        if world.is_highest_landing(top) {
            let i = choose|i: int| #[trigger]
                world.is_landing(i) && world.entities[i].max_y() == top;
            assert(world.is_landing(i));
        }
    }
}

/// After the collisions have been resolved the steered player's anchor is
/// never under `FLOOR_Y`, and no other entity has changed.
pub proof fn law_never_under_floor(world: GameView)
    requires
        world.players.len() > 0,
        world.steered() < world.entities.len(),
        world.player().has_anchor(),
    ensures
        world.resolve().player().anchor().y >= FLOOR_Y,
        world.resolve().entities.len() == world.entities.len(),
        forall|i: int|
            0 <= i < world.entities.len() && i != world.steered() ==> world.resolve().entities[i]
                == world.entities[i],
{
}

} // verus!
