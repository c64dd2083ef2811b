use azph_engine::entity::{
    Colour, Entity, Pentagon, Point, Rectangle, Shape2D, Transform2D, Triangle,
};
use azph_engine::game::Game;
use azph_engine::globals::{FLOOR_Y, JUMP_SPEED, JUMP_TICKS, TICK_RATE};
use azph_engine::physics::{collision, update, Physics, State};

const DT: u32 = 6_944;
const REACH: i64 = 69_440;

/// A triangle, one unit wide, with its anchor at `x`, `y`.
fn player(x: i64, y: i64, state: State) -> Shape2D {
    let mut shape = Shape2D::Triangle(Triangle::new(
        Point::new(x + 500_000, y + 1_000_000),
        Point::new(x + 1_000_000, y),
        Point::new(x, y),
        Colour::black(),
    ));
    shape.set_state(state);
    shape
}

/// Terrain from `left` to `right`, a tenth of a unit thick, with its top at `top`.
fn surface(left: i64, right: i64, top: i64) -> Shape2D {
    let mut shape = Shape2D::Rectangle(Rectangle::new(
        Point::new(left, top),
        Point::new(right, top),
        Point::new(left, top - 100_000),
        Point::new(right, top - 100_000),
        Colour::green(),
    ));
    shape.set_state(State::Static);
    shape
}

fn world(entities: Vec<Shape2D>, players: Vec<usize>) -> Game {
    let mut game = Game::with_entities(entities, players).expect("a well formed world");
    game.update_dt(DT);
    assert!(game.can_update());
    game
}

#[test]
fn reach_is_speed_times_tick() {
    assert_eq!(TICK_RATE, DT);
    assert_eq!(JUMP_SPEED * i64::from(DT), REACH);
}

#[test]
fn physics_new_keeps_its_arguments() {
    let physics = Physics::new(State::Falling, true);
    assert_eq!(physics.state, State::Falling);
    assert!(physics.collides);
    let physics = Physics::new(State::Jumping(7), false);
    assert_eq!(physics.state, State::Jumping(7));
    assert!(!physics.collides);
}

#[test]
fn default_physics_is_terrain() {
    let physics = Physics::default();
    assert_eq!(physics.state, State::Static);
    assert!(physics.collides);
}

#[test]
fn idle_entity_is_pulled_down_and_stays_idle() {
    let mut shape = player(0, 0, State::Idle);
    State::Idle.handle(&mut shape, DT);
    assert_eq!(shape, player(0, -REACH, State::Idle));
}

#[test]
fn jumping_entity_rises_and_counts_down() {
    let mut shape = player(0, 0, State::Jumping(3));
    State::Jumping(3).handle(&mut shape, DT);
    assert_eq!(shape, player(0, REACH, State::Jumping(2)));
    State::Jumping(1).handle(&mut shape, 1);
    assert_eq!(shape, player(0, REACH + 10, State::Jumping(0)));
}

#[test]
fn jump_that_is_used_up_turns_into_a_fall_in_place() {
    let mut shape = player(5, 6, State::Jumping(0));
    State::Jumping(0).handle(&mut shape, DT);
    assert_eq!(shape, player(5, 6, State::Falling));
}

#[test]
fn falling_entity_drops_and_keeps_falling() {
    let mut shape = player(0, 0, State::Falling);
    State::Falling.handle(&mut shape, DT);
    assert_eq!(shape, player(0, -REACH, State::Falling));
    State::Falling.handle(&mut shape, DT);
    assert_eq!(shape, player(0, -2 * REACH, State::Falling));
}

#[test]
fn static_entity_is_left_alone() {
    let mut shape = surface(0, 10, 5);
    let before = shape;
    State::Static.handle(&mut shape, DT);
    assert_eq!(shape, before);
    let mut pentagon = Shape2D::Pentagon(Pentagon::default());
    State::Static.handle(&mut pentagon, DT);
    assert_eq!(pentagon, Shape2D::Pentagon(Pentagon::default()));
}

#[test]
fn handle_goes_by_the_state_it_is_called_on() {
    let mut shape = player(0, 0, State::Idle);
    State::Jumping(2).handle(&mut shape, DT);
    assert_eq!(shape, player(0, REACH, State::Jumping(1)));
}

#[test]
fn a_tick_of_no_length_moves_nothing() {
    let mut shape = player(0, 0, State::Jumping(2));
    State::Jumping(2).handle(&mut shape, 0);
    assert_eq!(shape, player(0, 0, State::Jumping(1)));
    State::Falling.handle(&mut shape, 0);
    assert_eq!(shape, player(0, 0, State::Jumping(1)));
}

#[test]
fn longest_tick_is_handled_exactly() {
    let mut shape = player(0, 0, State::Falling);
    State::Falling.handle(&mut shape, u32::MAX);
    assert_eq!(shape.y(), -42_949_672_950);
}

#[test]
fn jump_rises_for_jump_ticks_then_falls() {
    let mut shape = player(0, 0, State::Jumping(JUMP_TICKS));
    for tick in 1..=JUMP_TICKS {
        let state = shape.state();
        state.handle(&mut shape, DT);
        assert_eq!(shape.state(), State::Jumping(JUMP_TICKS - tick));
        assert_eq!(shape.y(), i64::from(tick) * REACH);
    }
    assert_eq!(shape, player(0, 2_777_600, State::Jumping(0)));
    let state = shape.state();
    state.handle(&mut shape, DT);
    assert_eq!(shape, player(0, 2_777_600, State::Falling));
    let state = shape.state();
    state.handle(&mut shape, DT);
    assert_eq!(shape, player(0, 2_777_600 - REACH, State::Falling));
}

#[test]
fn falling_player_lands_on_the_platform_it_crosses() {
    let mut game = world(
        vec![player(0, 0, State::Falling), surface(-1_000_000, 2_000_000, 0)],
        vec![0],
    );
    update(&mut game);
    assert_eq!(game.entities[0], player(0, 0, State::Idle));
    assert_eq!(game.entities[0].y(), game.entities[1].max_y());
    assert_eq!(game.entities[1], surface(-1_000_000, 2_000_000, 0));
}

#[test]
fn resolver_sets_a_dropped_player_on_the_surface() {
    let mut game = world(
        vec![player(0, -REACH, State::Falling), surface(-1_000_000, 2_000_000, 0)],
        vec![0],
    );
    collision(&mut game);
    assert_eq!(game.entities[0], player(0, 0, State::Idle));
}

#[test]
fn player_under_the_floor_is_lifted_to_the_floor() {
    let mut game = world(vec![player(0, FLOOR_Y + 10, State::Falling)], vec![0]);
    update(&mut game);
    assert_eq!(game.entities[0].y(), -9_500_000);
    assert_eq!(game.entities[0], player(0, FLOOR_Y, State::Falling));
}

#[test]
fn floor_lifts_without_changing_the_state() {
    for state in [State::Idle, State::Jumping(4), State::Jumping(0), State::Falling, State::Static]
    {
        let mut game = world(vec![player(3, FLOOR_Y - 1, state)], vec![0]);
        collision(&mut game);
        assert_eq!(game.entities[0], player(3, FLOOR_Y, state));
    }
}

#[test]
fn player_at_or_over_the_floor_is_not_lifted() {
    let mut game = world(vec![player(0, FLOOR_Y, State::Falling)], vec![0]);
    collision(&mut game);
    assert_eq!(game.entities[0], player(0, FLOOR_Y, State::Falling));
    let mut game = world(vec![player(0, FLOOR_Y + 1, State::Falling)], vec![0]);
    collision(&mut game);
    assert_eq!(game.entities[0], player(0, FLOOR_Y + 1, State::Falling));
}

#[test]
fn player_lands_on_the_highest_surface_within_reach() {
    let low = surface(-1_000_000, 2_000_000, -30_000);
    let high = surface(-1_000_000, 2_000_000, -10_000);
    let middle = surface(-1_000_000, 2_000_000, -20_000);
    for surfaces in [[low, high, middle], [high, middle, low], [middle, low, high]] {
        let mut entities = vec![player(0, -50_000, State::Falling)];
        entities.extend(surfaces);
        let mut game = world(entities, vec![0]);
        collision(&mut game);
        assert_eq!(game.entities[0], player(0, -10_000, State::Idle));
    }
}

#[test]
fn player_need_not_come_first_among_the_entities() {
    let mut game = world(
        vec![
            surface(-1_000_000, 2_000_000, -30_000),
            player(0, -50_000, State::Falling),
            surface(-1_000_000, 2_000_000, -10_000),
        ],
        vec![1],
    );
    collision(&mut game);
    assert_eq!(game.entities[0], surface(-1_000_000, 2_000_000, -30_000));
    assert_eq!(game.entities[1], player(0, -10_000, State::Idle));
    assert_eq!(game.entities[2], surface(-1_000_000, 2_000_000, -10_000));
}

#[test]
fn only_the_first_player_is_resolved() {
    let mut game = world(
        vec![
            player(0, -50_000, State::Falling),
            player(0, -50_000, State::Falling),
            surface(-1_000_000, 2_000_000, -10_000),
        ],
        vec![1, 0],
    );
    collision(&mut game);
    assert_eq!(game.entities[0], player(0, -50_000, State::Falling));
    assert_eq!(game.entities[1], player(0, -10_000, State::Idle));
}

#[test]
fn surface_must_lie_above_the_anchor_and_within_reach() {
    let lands = |anchor: i64, top: i64| {
        let mut game = world(
            vec![player(0, anchor, State::Falling), surface(-1_000_000, 2_000_000, top)],
            vec![0],
        );
        collision(&mut game);
        game.entities[0] == player(0, top, State::Idle)
    };
    assert!(lands(-1, 0));
    assert!(lands(-REACH, 0));
    assert!(!lands(0, 0));
    assert!(!lands(1, 0));
    assert!(!lands(-REACH - 1, 0));
}

#[test]
fn surface_must_overlap_the_player_sideways() {
    let lands = |left: i64, right: i64| {
        let mut game = world(
            vec![player(0, -REACH, State::Falling), surface(left, right, 0)],
            vec![0],
        );
        collision(&mut game);
        game.entities[0] == player(0, 0, State::Idle)
    };
    assert!(lands(-5_000_000, 1));
    assert!(!lands(-5_000_000, 0));
    assert!(lands(999_999, 5_000_000));
    assert!(!lands(1_000_000, 5_000_000));
    assert!(!lands(3_000_000, 5_000_000));
    assert!(lands(400_000, 600_000));
}

#[test]
fn surface_that_does_not_collide_is_passed_through() {
    let mut mist = Shape2D::Triangle(Triangle::new(
        Point::new(0, 0),
        Point::new(2_000_000, -100_000),
        Point::new(-1_000_000, -100_000),
        Colour::green(),
    ));
    mist.set_state(State::Static);
    let mut game = world(vec![player(0, -REACH, State::Falling), mist], vec![0]);
    collision(&mut game);
    assert_eq!(game.entities[0], player(0, -REACH, State::Falling));
}

#[test]
fn surface_that_moves_can_be_landed_on() {
    let mut lift = surface(-1_000_000, 2_000_000, -REACH - 5);
    lift.set_state(State::Jumping(5));
    let mut game = world(vec![player(0, 0, State::Falling), lift], vec![0]);
    update(&mut game);
    assert_eq!(game.entities[1].max_y(), -5);
    assert_eq!(game.entities[1].state(), State::Jumping(4));
    assert_eq!(game.entities[0], player(0, -5, State::Idle));
}

#[test]
fn player_does_not_land_on_itself() {
    let mut own = Shape2D::Rectangle(Rectangle::new(
        Point::new(0, 10_000),
        Point::new(10_000, 10_000),
        Point::new(0, 0),
        Point::new(10_000, 0),
        Colour::black(),
    ));
    own.set_state(State::Falling);
    let before = own;
    assert!(own.collides());
    let mut game = world(vec![own], vec![0]);
    collision(&mut game);
    assert_eq!(game.entities[0], before);
}

#[test]
fn landing_under_the_floor_ends_at_the_floor_at_rest() {
    let mut game = world(
        vec![
            player(0, FLOOR_Y - 50_000, State::Falling),
            surface(-1_000_000, 2_000_000, FLOOR_Y - 20_000),
        ],
        vec![0],
    );
    collision(&mut game);
    assert_eq!(game.entities[0], player(0, FLOOR_Y, State::Idle));
}

#[test]
fn resolver_without_players_changes_nothing() {
    let mut game = world(
        vec![player(0, FLOOR_Y - 50_000, State::Falling), surface(-1_000_000, 2_000_000, 0)],
        vec![],
    );
    collision(&mut game);
    assert_eq!(game.entities[0], player(0, FLOOR_Y - 50_000, State::Falling));
    update(&mut game);
    assert_eq!(game.entities[0], player(0, FLOOR_Y - 50_000 - REACH, State::Falling));
    assert_eq!(game.entities[1], surface(-1_000_000, 2_000_000, 0));
}

#[test]
fn update_advances_every_entity_before_it_resolves() {
    let mut game = world(
        vec![
            player(0, 5_000_000, State::Jumping(2)),
            player(3_000_000, 5_000_000, State::Falling),
            player(6_000_000, 5_000_000, State::Idle),
            player(9_000_000, 5_000_000, State::Jumping(0)),
            surface(-1_000_000, 20_000_000, 0),
        ],
        vec![0],
    );
    update(&mut game);
    assert_eq!(game.entities[0], player(0, 5_000_000 + REACH, State::Jumping(1)));
    assert_eq!(game.entities[1], player(3_000_000, 5_000_000 - REACH, State::Falling));
    assert_eq!(game.entities[2], player(6_000_000, 5_000_000 - REACH, State::Idle));
    assert_eq!(game.entities[3], player(9_000_000, 5_000_000, State::Falling));
    assert_eq!(game.entities[4], surface(-1_000_000, 20_000_000, 0));
    assert_eq!(game.players, vec![0]);
    assert_eq!(game.dt, DT);
}

#[test]
fn idle_player_on_a_surface_stays_on_it() {
    let mut game = world(
        vec![player(0, 0, State::Idle), surface(-1_000_000, 2_000_000, 0)],
        vec![0],
    );
    for _ in 0..10 {
        update(&mut game);
        assert_eq!(game.entities[0], player(0, 0, State::Idle));
    }
}

#[test]
fn idle_player_beside_a_surface_drops_to_the_floor() {
    let mut game = world(
        vec![player(5_000_000, 0, State::Idle), surface(-1_000_000, 2_000_000, 0)],
        vec![0],
    );
    update(&mut game);
    assert_eq!(game.entities[0], player(5_000_000, -REACH, State::Idle));
    for _ in 0..200 {
        assert!(game.can_update());
        update(&mut game);
    }
    assert_eq!(game.entities[0], player(5_000_000, FLOOR_Y, State::Idle));
}
