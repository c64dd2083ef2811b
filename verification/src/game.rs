//! The world: its entities, its players, the keys that are held and the
//! length of the current tick.
use crate::controls::{lemma_handle_input_keeps_wf, ElementState, Key, KeyboardInput, KeysDown};
use crate::entity::{Colour, Entity, Point, PointView, Rectangle, Shape2D, ShapeView, Triangle};
use crate::globals::{COORD_LIMIT, TICK_RATE};
use crate::physics::{lemma_advance_keeps_wf, lemma_resolve_keeps_wf, State};
use vstd::prelude::*;

verus! {

/// What is wrong with a world that cannot be set up.
#[derive(Debug, Clone, Copy, PartialEq, Eq, Structural)]
pub enum ConfigError {
    /// A player that is none of the entities.
    NoSuchEntity,
    /// An entity without an anchor that would have to be moved, landed on or
    /// steered.
    Unsupported,
}

/// The state of the game.
#[derive(Debug)]
pub struct Game {
    /// Every polygon of the world, in drawing order.
    pub entities: Vec<Shape2D>,
    /// The places in `entities` of the polygons that players steer. The
    /// first one is the player that the keyboard steers.
    pub players: Vec<usize>,
    /// The keys that are held down.
    pub keys_down: KeysDown,
    /// Length of the current tick in microseconds.
    pub dt: u32,
}

/// The model of a [`Game`].
#[verifier::ext_equal]
pub struct GameView {
    pub entities: Seq<ShapeView>,
    pub players: Seq<usize>,
    pub keys_down: Seq<Key>,
    pub dt: int,
}

/// The models of a sequence of shapes.
pub open spec fn views(shapes: Seq<Shape2D>) -> Seq<ShapeView> {
    Seq::new(shapes.len(), |i: int| shapes[i]@)
}

impl View for Game {
    type V = GameView;

    open spec fn view(&self) -> GameView {
        GameView {
            entities: views(self.entities@),
            players: self.players@,
            keys_down: self.keys_down@,
            dt: self.dt as int,
        }
    }
}

impl GameView {
    /// The place among the entities of the player that the keyboard steers.
    pub open spec fn steered(self) -> int
        recommends
            self.players.len() > 0,
    {
        self.players[0] as int
    }

    /// The player that the keyboard steers.
    pub open spec fn player(self) -> ShapeView
        recommends
            self.players.len() > 0,
            self.steered() < self.entities.len(),
    {
        self.entities[self.steered()]
    }

    /// Every player is one of the entities.
    pub open spec fn players_exist(self) -> bool {
        forall|i: int|
            0 <= i < self.players.len() ==> (#[trigger] self.players[i]) < self.entities.len()
    }

    /// Every entity can be ticked: it has three to five corners, and it has
    /// an anchor if it is the steered player, if it is no terrain or if it
    /// can be landed on.
    pub open spec fn supported(self) -> bool {
        &&& self.players.len() > 0 ==> self.player().has_anchor()
        &&& forall|i: int|
            0 <= i < self.entities.len() ==> {
                let entity = #[trigger] self.entities[i];
                &&& 3 <= entity.points.len() <= 5
                &&& entity.state != State::Static || entity.collides ==> entity.has_anchor()
            }
    }

    /// The world is well formed: its players exist and its entities can be
    /// ticked.
    pub open spec fn wf(self) -> bool {
        self.players_exist() && self.supported()
    }

    /// No coordinate of any entity is further than `COORD_LIMIT` from zero.
    pub open spec fn in_range(self) -> bool {
        forall|i: int|
            0 <= i < self.entities.len() ==> (#[trigger] self.entities[i]).within(
                COORD_LIMIT as int,
            )
    }

    /// The world one tick on: the keys that are down are applied to the
    /// steered player, then the state machine advances every entity, then
    /// the steered player is kept from dropping through surfaces and under
    /// the floor.
    pub open spec fn tick(self) -> GameView {
        self.handle_input().advance().resolve()
    }

    /// The world as it is first set up: the player, a black triangle in the
    /// bottom left corner, on a green floor that spans the screen, with a
    /// green ledge above it. No key is down and no time has passed.
    pub open spec fn initial() -> GameView {
        GameView {
            entities: seq![
                ShapeView {
                    points: seq![
                        PointView { x: -9_500_000, y: -9_000_000 },
                        PointView { x: -9_000_000, y: -10_000_000 },
                        PointView { x: -10_000_000, y: -10_000_000 },
                    ],
                    colour: Colour { r: 0, g: 0, b: 0, a: 255 },
                    state: State::Idle,
                    collides: false,
                },
                ShapeView {
                    points: seq![
                        PointView { x: -11_000_000, y: -9_500_000 },
                        PointView { x: 11_000_000, y: -9_500_000 },
                        PointView { x: -11_000_000, y: -10_500_000 },
                        PointView { x: 11_000_000, y: -10_500_000 },
                    ],
                    colour: Colour { r: 0, g: 255, b: 0, a: 255 },
                    state: State::Static,
                    collides: true,
                },
                ShapeView {
                    points: seq![
                        PointView { x: -7_000_000, y: -7_500_000 },
                        PointView { x: -5_000_000, y: -7_500_000 },
                        PointView { x: -7_000_000, y: -7_700_000 },
                        PointView { x: -5_000_000, y: -7_700_000 },
                    ],
                    colour: Colour { r: 0, g: 255, b: 0, a: 255 },
                    state: State::Static,
                    collides: true,
                },
            ],
            players: seq![0usize],
            keys_down: Seq::empty(),
            dt: 0,
        }
    }
}

impl Game {
    /// Sets up the world.
    pub fn new() -> (game: Game)
        ensures
            game@ == GameView::initial(),
            game@.wf(),
            game@.in_range(),
            game@.entities[1].upright(),
            game@.entities[2].upright(),
            game.keys_down.wf(),
    {
        let mut players: Vec<usize> = Vec::new();
        let mut entities: Vec<Shape2D> = Vec::new();

        // The player comes first, and is the one that is steered.
        players.push(entities.len());
        let player = Shape2D::Triangle(
            Triangle::new(
                Point::new(-9_500_000, -9_000_000),
                Point::new(-9_000_000, -10_000_000),
                Point::new(-10_000_000, -10_000_000),
                Colour::black(),
            ),
        );
        entities.push(player);

        let mut floor = Shape2D::Rectangle(
            Rectangle::new(
                Point::new(-11_000_000, -9_500_000),
                Point::new(11_000_000, -9_500_000),
                Point::new(-11_000_000, -10_500_000),
                Point::new(11_000_000, -10_500_000),
                Colour::green(),
            ),
        );
        floor.set_state(State::Static);

        let mut ledge = Shape2D::Rectangle(
            Rectangle::new(
                Point::new(-7_000_000, -7_500_000),
                Point::new(-5_000_000, -7_500_000),
                Point::new(-7_000_000, -7_700_000),
                Point::new(-5_000_000, -7_700_000),
                Colour::green(),
            ),
        );
        ledge.set_state(State::Static);

        entities.push(floor);
        entities.push(ledge);

        let game = Game { entities, players, keys_down: KeysDown::new(), dt: 0 };
        proof {
            let start = GameView::initial();
            assert(game@.entities =~= start.entities);
            assert(game@.players =~= start.players);
            assert(game@ =~= start);
            assert forall|i: int| 0 <= i < start.entities.len() implies (
            #[trigger] start.entities[i]).within(COORD_LIMIT as int) by {
                assert(i == 0 || i == 1 || i == 2);
            }
        }
        game
    }

    /// Sets up a world of the given entities and players, with no key down
    /// and no time passed, if it is well formed.
    pub fn with_entities(entities: Vec<Shape2D>, players: Vec<usize>) -> (made: Result<
        Game,
        ConfigError,
    >)
        ensures
            match made {
                Ok(game) => {
                    &&& game.entities == entities
                    &&& game.players == players
                    &&& game.keys_down@ == Seq::<Key>::empty()
                    &&& game.keys_down.wf()
                    &&& game.dt == 0
                    &&& game@.wf()
                },
                Err(ConfigError::NoSuchEntity) => exists|i: int|
                    0 <= i < players.len() && #[trigger] players[i] >= entities.len(),
                Err(ConfigError::Unsupported) => {
                    let world = GameView {
                        entities: views(entities@),
                        players: players@,
                        keys_down: Seq::empty(),
                        dt: 0,
                    };
                    world.players_exist() && !world.supported()
                },
            },
    {
        let game = Game { entities, players, keys_down: KeysDown::new(), dt: 0 };
        match game.validate() {
            Ok(()) => Ok(game),
            Err(error) => {
                proof {
                    if error == ConfigError::NoSuchEntity {
                        let i = choose|i: int|
                            0 <= i < game@.players.len() && !(#[trigger] game@.players[i]
                                < game@.entities.len());
                        assert(0 <= i < players.len() && players[i] >= entities.len());
                    }
                }
                Err(error)
            },
        }
    }

    /// Tells whether the world is well formed, and if not, what is wrong
    /// with it. A player that is no entity is told before an entity that
    /// cannot be ticked.
    pub fn validate(&self) -> (valid: Result<(), ConfigError>)
        ensures
            valid.is_ok() == self@.wf(),
            valid == Err::<(), ConfigError>(ConfigError::NoSuchEntity)
                <==> !self@.players_exist(),
            valid == Err::<(), ConfigError>(ConfigError::Unsupported) <==> self@.players_exist()
                && !self@.supported(),
    {
        let count = self.entities.len();
        let mut i: usize = 0;
        while i < self.players.len()
            invariant
                i <= self.players.len(),
                count == self.entities.len(),
                forall|j: int| 0 <= j < i ==> (#[trigger] self.players@[j]) < count,
            decreases self.players.len() - i,
        {
            if self.players[i] >= count {
                assert(!(self@.players[i as int] < self@.entities.len()));
                return Err(ConfigError::NoSuchEntity);
            }
            i = i + 1;
        }
        if self.players.len() > 0 && !self.entities[self.players[0]].has_anchor() {
            return Err(ConfigError::Unsupported);
        }
        assert(self@.players_exist());
        let mut i: usize = 0;
        while i < count
            invariant
                i <= count,
                count == self.entities.len(),
                self@.players_exist(),
                forall|j: int|
                    0 <= j < i ==> {
                        let entity = #[trigger] self@.entities[j];
                        &&& 3 <= entity.points.len() <= 5
                        &&& entity.state != State::Static || entity.collides
                            ==> entity.has_anchor()
                    },
            decreases count - i,
        {
            let entity = &self.entities[i];
            proof {
                entity.lemma_view();
                assert(self@.entities[i as int] == entity@);
            }
            let still = entity.state() == State::Static && !entity.collides();
            if !entity.has_anchor() && !still {
                return Err(ConfigError::Unsupported);
            }
            i = i + 1;
        }
        Ok(())
    }

    /// Whether no coordinate of any entity is further than `COORD_LIMIT`
    /// from zero.
    pub fn in_range(&self) -> (in_range: bool)
        ensures
            in_range == self@.in_range(),
    {
        let mut i: usize = 0;
        while i < self.entities.len()
            invariant
                i <= self.entities.len(),
                forall|j: int|
                    0 <= j < i ==> (#[trigger] self@.entities[j]).within(COORD_LIMIT as int),
            decreases self.entities.len() - i,
        {
            assert(self@.entities[i as int] == self.entities@[i as int]@);
            if !self.entities[i].within(COORD_LIMIT) {
                return false;
            }
            i = i + 1;
        }
        true
    }

    /// Whether the world can be ticked: whether it is well formed and no
    /// coordinate is further than `COORD_LIMIT` from zero.
    pub fn can_update(&self) -> (ok: bool)
        ensures
            ok == (self@.wf() && self@.in_range()),
    {
        self.validate().is_ok() && self.in_range()
    }

    /// Takes the time since the last tick, in microseconds, as the length of
    /// the current tick, but no less than `TICK_RATE`.
    pub fn update_dt(&mut self, elapsed: u32)
        ensures
            final(self).dt == if elapsed < TICK_RATE {
                TICK_RATE
            } else {
                elapsed
            },
            final(self).entities == old(self).entities,
            final(self).players == old(self).players,
            final(self).keys_down == old(self).keys_down,
    {
        self.dt = elapsed;
        if self.dt < TICK_RATE {
            self.dt = TICK_RATE;
        }
    }

    /// Records a change at the keyboard: a pressed key joins the keys that
    /// are down, a released key leaves them.
    pub fn keyboard_input(&mut self, input: &KeyboardInput)
        requires
            old(self).keys_down.wf(),
        ensures
            final(self).keys_down.wf(),
            final(self).keys_down@ == match input.state {
                ElementState::Pressed => if old(self).keys_down@.contains(input.key) {
                    old(self).keys_down@
                } else {
                    old(self).keys_down@.push(input.key)
                },
                ElementState::Released => old(self).keys_down@.remove_value(input.key),
            },
            final(self).entities == old(self).entities,
            final(self).players == old(self).players,
            final(self).dt == old(self).dt,
    {
        match input.state {
            ElementState::Pressed => {
                self.keys_down.insert(input.key);
            },
            ElementState::Released => {
                self.keys_down.remove(input.key);
            },
        }
    }

    /// Applies the keys that are down to the steered player.
    ///
    /// The world has to be well formed, and no x coordinate of the steered
    /// player further than `COORD_LIMIT` from zero.
    pub fn handle_user_inputs(&mut self)
        requires
            old(self)@.wf(),
            old(self)@.players.len() > 0 ==> old(self)@.player().x_within(COORD_LIMIT as int),
        ensures
            final(self)@ == old(self)@.handle_input(),
    {
        crate::controls::handle(self);
    }

    /// Runs one tick: applies the keys that are down to the steered player,
    /// advances every entity by the state machine, and keeps the steered
    /// player from dropping through surfaces and under the floor.
    ///
    /// The world has to be well formed and within `COORD_LIMIT`, so that no
    /// coordinate leaves the range of `i64` on the way: `can_update` tells
    /// whether it is.
    pub fn update(&mut self)
        requires
            old(self)@.wf(),
            old(self)@.in_range(),
        ensures
            final(self)@ == old(self)@.tick(),
            final(self)@.wf(),
    {
        proof {
            let world = self@;
            lemma_handle_input_keeps_wf(world, COORD_LIMIT as int);
            lemma_advance_keeps_wf(world.handle_input());
            lemma_resolve_keeps_wf(world.handle_input().advance());
            assert forall|i: int| 0 <= i < world.entities.len() implies (
            #[trigger] world.handle_input().entities[i]).y_within(COORD_LIMIT as int) by {
                assert(world.entities[i].within(COORD_LIMIT as int));
            }
            if world.players.len() > 0 {
                assert(world.players[0] < world.entities.len());
                assert(world.player().within(COORD_LIMIT as int));
            }
        }
        self.handle_user_inputs();
        crate::physics::update(self);
    }
}

/// A tick keeps a world well formed, and changes neither the number of its
/// entities nor its players, its keys or the length of its tick.
pub proof fn law_tick_keeps_wf(world: GameView)
    requires
        world.wf(),
    ensures
        world.tick().wf(),
        world.tick().entities.len() == world.entities.len(),
        world.tick().players == world.players,
        world.tick().keys_down == world.keys_down,
        world.tick().dt == world.dt,
{
    lemma_handle_input_keeps_wf(world, 0);
    lemma_advance_keeps_wf(world.handle_input());
    lemma_resolve_keeps_wf(world.handle_input().advance());
}

} // verus!
