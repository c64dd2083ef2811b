use azph_engine::controls::{ElementState, Key, KeyboardInput};
use azph_engine::entity::{
    Colour, Entity, Pentagon, Point, Rectangle, Shape2D, Transform2D, Triangle,
};
use azph_engine::game::ConfigError;
use azph_engine::globals::{COORD_LIMIT, FLOOR_Y, JUMP_TICKS, TICK_RATE, UNIT};
use azph_engine::physics::State;
use azph_engine::Game;

const REACH: i64 = 69_440;
const STEP: i64 = 55_552;

fn press(key: Key) -> KeyboardInput {
    KeyboardInput { key, state: ElementState::Pressed }
}

fn release(key: Key) -> KeyboardInput {
    KeyboardInput { key, state: ElementState::Released }
}

fn terrain(mut shape: Shape2D) -> Shape2D {
    shape.set_state(State::Static);
    shape
}

fn start_player() -> Shape2D {
    Shape2D::Triangle(Triangle::default())
}

fn start_floor() -> Shape2D {
    terrain(Shape2D::Rectangle(Rectangle::new(
        Point::new(-11_000_000, -9_500_000),
        Point::new(11_000_000, -9_500_000),
        Point::new(-11_000_000, -10_500_000),
        Point::new(11_000_000, -10_500_000),
        Colour::green(),
    )))
}

fn start_ledge() -> Shape2D {
    terrain(Shape2D::Rectangle(Rectangle::new(
        Point::new(-7_000_000, -7_500_000),
        Point::new(-5_000_000, -7_500_000),
        Point::new(-7_000_000, -7_700_000),
        Point::new(-5_000_000, -7_700_000),
        Colour::green(),
    )))
}

#[test]
fn units_are_ten_million_to_one() {
    assert_eq!(UNIT, 10_000_000);
    assert_eq!(FLOOR_Y, -9_500_000);
    assert_eq!(COORD_LIMIT, 1_000_000_000_000_000_000);
}

#[test]
fn new_game_holds_the_player_the_floor_and_the_ledge() {
    let game = Game::new();
    assert_eq!(game.entities, vec![start_player(), start_floor(), start_ledge()]);
    assert_eq!(game.players, vec![0]);
    assert!(game.keys_down.keys().is_empty());
    assert_eq!(game.dt, 0);
    assert_eq!(game.validate(), Ok(()));
    assert!(game.in_range());
    assert!(game.can_update());
}

#[test]
fn tick_is_never_shorter_than_the_tick_rate() {
    let mut game = Game::new();
    game.update_dt(0);
    assert_eq!(game.dt, 6_944);
    game.update_dt(TICK_RATE - 1);
    assert_eq!(game.dt, TICK_RATE);
    game.update_dt(TICK_RATE);
    assert_eq!(game.dt, TICK_RATE);
    game.update_dt(TICK_RATE + 1);
    assert_eq!(game.dt, 6_945);
    game.update_dt(u32::MAX);
    assert_eq!(game.dt, u32::MAX);
    assert_eq!(game.entities, Game::new().entities);
    assert_eq!(game.players, vec![0]);
}

#[test]
fn keyboard_input_keeps_track_of_the_keys_that_are_down() {
    let mut game = Game::new();
    game.keyboard_input(&press(Key::MoveLeft));
    game.keyboard_input(&press(Key::Jump));
    game.keyboard_input(&press(Key::MoveLeft));
    assert_eq!(game.keys_down.keys(), &vec![Key::MoveLeft, Key::Jump]);
    game.keyboard_input(&release(Key::MoveLeft));
    assert_eq!(game.keys_down.keys(), &vec![Key::Jump]);
    game.keyboard_input(&release(Key::MoveRight));
    assert_eq!(game.keys_down.keys(), &vec![Key::Jump]);
    game.keyboard_input(&press(Key::Other(44)));
    game.keyboard_input(&release(Key::Jump));
    assert_eq!(game.keys_down.keys(), &vec![Key::Other(44)]);
    assert_eq!(game.entities, Game::new().entities);
    assert_eq!(game.dt, 0);
}

#[test]
fn with_entities_takes_a_well_formed_world() {
    let entities = vec![start_floor(), start_player(), terrain(Shape2D::Pentagon(Pentagon::default()))];
    let game = Game::with_entities(entities.clone(), vec![1, 0, 2]).expect("a well formed world");
    assert_eq!(game.entities, entities);
    assert_eq!(game.players, vec![1, 0, 2]);
    assert!(game.keys_down.keys().is_empty());
    assert_eq!(game.dt, 0);
    assert!(game.can_update());
}

#[test]
fn with_entities_takes_an_empty_world() {
    let mut game = Game::with_entities(vec![], vec![]).expect("a well formed world");
    assert!(game.can_update());
    game.update();
    assert!(game.entities.is_empty());
}

#[test]
fn with_entities_refuses_a_player_that_is_no_entity() {
    assert_eq!(
        Game::with_entities(vec![start_player()], vec![1]).err(),
        Some(ConfigError::NoSuchEntity)
    );
    assert_eq!(
        Game::with_entities(vec![start_player()], vec![0, 0, 7]).err(),
        Some(ConfigError::NoSuchEntity)
    );
    assert_eq!(Game::with_entities(vec![], vec![0]).err(), Some(ConfigError::NoSuchEntity));
}

#[test]
fn with_entities_refuses_a_pentagon_that_would_move() {
    for state in [State::Idle, State::Jumping(0), State::Jumping(5), State::Falling] {
        let mut pentagon = Shape2D::Pentagon(Pentagon::default());
        pentagon.set_state(state);
        assert_eq!(
            Game::with_entities(vec![start_player(), pentagon], vec![0]).err(),
            Some(ConfigError::Unsupported)
        );
    }
}

#[test]
fn with_entities_refuses_a_pentagon_as_the_steered_player() {
    let pentagon = terrain(Shape2D::Pentagon(Pentagon::default()));
    assert_eq!(
        Game::with_entities(vec![start_player(), pentagon], vec![1, 0]).err(),
        Some(ConfigError::Unsupported)
    );
    assert!(Game::with_entities(vec![start_player(), pentagon], vec![0, 1]).is_ok());
}

#[test]
fn with_entities_refuses_a_pentagon_to_land_on() {
    let mut pentagon = Pentagon::default();
    pentagon.physics.state = State::Static;
    pentagon.physics.collides = true;
    assert_eq!(
        Game::with_entities(vec![start_player(), Shape2D::Pentagon(pentagon)], vec![0]).err(),
        Some(ConfigError::Unsupported)
    );
}

#[test]
fn missing_player_is_told_before_an_unsupported_entity() {
    let pentagon = Shape2D::Pentagon(Pentagon::default());
    assert_eq!(
        Game::with_entities(vec![pentagon], vec![0, 1]).err(),
        Some(ConfigError::NoSuchEntity)
    );
}

#[test]
fn validate_finds_what_was_broken_later() {
    let mut game = Game::new();
    game.players.push(3);
    assert_eq!(game.validate(), Err(ConfigError::NoSuchEntity));
    assert!(!game.can_update());
    game.players.pop();
    assert_eq!(game.validate(), Ok(()));
    game.entities.push(Shape2D::Pentagon(Pentagon::default()));
    assert_eq!(game.validate(), Err(ConfigError::Unsupported));
    assert!(!game.can_update());
}

#[test]
fn world_beyond_the_coordinate_limit_cannot_be_ticked() {
    let mut game = Game::new();
    game.entities[2].set_x(COORD_LIMIT - 2_000_000);
    assert!(game.in_range());
    assert!(game.can_update());
    game.entities[2].shift_x(1);
    assert!(!game.in_range());
    assert!(!game.can_update());
    assert_eq!(game.validate(), Ok(()));
    game.entities[2].set_x(0);
    game.entities[2].set_y(-COORD_LIMIT - 1);
    assert!(!game.in_range());
    game.entities[2].shift_y(1);
    assert!(game.in_range());
}

#[test]
fn first_tick_lifts_the_player_to_the_floor() {
    let mut game = Game::new();
    game.update_dt(0);
    game.update();
    let mut player = start_player();
    player.set_y(FLOOR_Y);
    assert_eq!(game.entities, vec![player, start_floor(), start_ledge()]);
    game.update();
    assert_eq!(game.entities, vec![player, start_floor(), start_ledge()]);
}

#[test]
fn jump_key_is_taken_up_in_the_same_tick() {
    let mut game = Game::new();
    game.update_dt(0);
    game.keyboard_input(&press(Key::Jump));
    game.update();
    assert_eq!(game.entities[0].state(), State::Jumping(39));
    assert_eq!(game.entities[0].y(), -9_500_000);
    game.update();
    assert_eq!(game.entities[0].state(), State::Jumping(38));
    assert_eq!(game.entities[0].y(), -9_500_000 + REACH);
}

#[test]
fn held_jump_key_jumps_again_only_after_landing() {
    let mut game = Game::new();
    game.update_dt(0);
    game.update();
    game.keyboard_input(&press(Key::Jump));
    for tick in 1..=JUMP_TICKS {
        game.update();
        assert_eq!(game.entities[0].state(), State::Jumping(JUMP_TICKS - tick));
        assert_eq!(game.entities[0].y(), FLOOR_Y + i64::from(tick) * REACH);
    }
    game.update();
    assert_eq!(game.entities[0].state(), State::Falling);
    assert_eq!(game.entities[0].y(), FLOOR_Y + 40 * REACH);
    for tick in 1..=40 {
        game.update();
        assert_eq!(game.entities[0].state(), State::Falling);
        assert_eq!(game.entities[0].y(), FLOOR_Y + (40 - i64::from(tick)) * REACH);
    }
    game.update();
    assert_eq!(game.entities[0].state(), State::Idle);
    assert_eq!(game.entities[0].y(), FLOOR_Y);
    game.update();
    assert_eq!(game.entities[0].state(), State::Jumping(39));
    assert_eq!(game.entities[0].y(), FLOOR_Y + REACH);
}

#[test]
fn player_walks_right_and_comes_back_on_the_left() {
    let mut game = Game::new();
    game.update_dt(0);
    game.keyboard_input(&press(Key::MoveRight));
    let mut x = -10_000_000;
    let mut wrapped = false;
    for _ in 0..400 {
        assert!(game.can_update());
        game.update();
        if x >= 11_000_000 {
            x = -11_000_000;
            wrapped = true;
        }
        x += STEP;
        assert_eq!(game.entities[0].x(), x);
        assert_eq!(game.entities[0].y(), FLOOR_Y);
        assert_eq!(game.entities[0].state(), State::Idle);
    }
    assert!(wrapped);
    assert_eq!(game.entities[1], start_floor());
    assert_eq!(game.entities[2], start_ledge());
}

#[test]
fn player_jumps_onto_the_ledge() {
    let mut game = Game::new();
    game.update_dt(0);
    game.entities[0].set_x(-6_500_000);
    game.keyboard_input(&press(Key::Jump));
    game.update();
    game.keyboard_input(&release(Key::Jump));
    let mut ticks = 0;
    while game.entities[0].state() != State::Idle {
        assert!(game.can_update());
        game.update();
        ticks += 1;
        assert!(ticks < 200);
    }
    assert_eq!(game.entities[0].y(), -7_500_000);
    assert_eq!(game.entities[0].x(), -6_500_000);
    game.update();
    assert_eq!(game.entities[0].y(), -7_500_000);
    assert_eq!(game.entities[0].state(), State::Idle);
}

#[test]
fn player_that_walks_off_the_ledge_drops_to_the_floor() {
    let mut game = Game::new();
    game.update_dt(0);
    game.entities[0].set_xy(-5_100_000, -7_500_000);
    game.keyboard_input(&press(Key::MoveRight));
    game.update();
    assert_eq!(game.entities[0].xy(), Point::new(-5_100_000 + STEP, -7_500_000));
    game.update();
    assert_eq!(game.entities[0].xy(), Point::new(-5_100_000 + 2 * STEP, -7_500_000 - REACH));
    game.keyboard_input(&release(Key::MoveRight));
    for _ in 0..100 {
        game.update();
    }
    assert_eq!(game.entities[0].xy(), Point::new(-5_100_000 + 2 * STEP, FLOOR_Y));
    assert_eq!(game.entities[0].state(), State::Idle);
}

#[test]
fn handle_user_inputs_applies_the_keys_alone() {
    let mut game = Game::new();
    game.update_dt(0);
    game.keyboard_input(&press(Key::MoveRight));
    game.keyboard_input(&press(Key::Jump));
    game.handle_user_inputs();
    let mut player = start_player();
    player.shift_x(STEP);
    player.set_state(State::Jumping(JUMP_TICKS));
    assert_eq!(game.entities, vec![player, start_floor(), start_ledge()]);
}
