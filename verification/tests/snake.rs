use tiefring::snake::start_on_space;
use tiefring::snake::Direction;
use tiefring::snake::Food;
use tiefring::snake::Input;
use tiefring::snake::LosingScene;
use tiefring::snake::PlayingScene;
use tiefring::snake::Position;
use tiefring::snake::Segment;
use tiefring::snake::Snake;
use tiefring::snake::StartingScene;
use tiefring::snake::State;
use tiefring::snake::Terrain;
use tiefring::snake::HEIGHT;
use tiefring::snake::MOVE_STEP_NANOS;
use tiefring::snake::WIDTH;

fn positions(snake: &Snake) -> Vec<(i32, i32)> {
    snake.body.iter().map(|s| (s.position.x, s.position.y)).collect()
}

#[test]
fn positions_move_one_cell() {
    let p = Position::new(3, 3);
    assert_eq!(p.moved(Direction::Up), Position::new(3, 2));
    assert_eq!(p.moved(Direction::Down), Position::new(3, 4));
    assert_eq!(p.moved(Direction::Left), Position::new(2, 3));
    assert_eq!(p.moved(Direction::Right), Position::new(4, 3));
    assert_eq!(Segment::new(1, 1).moved(Direction::Up).position, Position::new(1, 0));
}

#[test]
fn new_snake_has_two_segments_heading_right() {
    let snake = Snake::new(5, 4);
    assert_eq!(positions(&snake), vec![(5, 4), (4, 4)]);
    assert_eq!(snake.direction, Direction::Right);
    assert_eq!(snake.head().position, Position::new(5, 4));
}

#[test]
fn snake_moves_and_keeps_its_length() {
    let mut snake = Snake::new(5, 4);
    let food = Food { position: Position::new(0, 0) };
    snake.update(&food, None);
    assert_eq!(positions(&snake), vec![(6, 4), (5, 4)]);
    snake.update(&food, Some(Direction::Down));
    assert_eq!(positions(&snake), vec![(6, 5), (6, 4)]);
    assert_eq!(snake.direction, Direction::Down);
}

#[test]
fn snake_grows_when_eating() {
    let mut snake = Snake::new(5, 4);
    let food = Food { position: Position::new(6, 4) };
    snake.update(&food, None);
    assert_eq!(positions(&snake), vec![(6, 4), (5, 4), (4, 4)]);
    assert!(snake.is_eating(&food));
}

#[test]
fn snake_cannot_reverse() {
    let mut snake = Snake::new(5, 4);
    let food = Food { position: Position::new(0, 0) };
    snake.update(&food, Some(Direction::Left));
    assert_eq!(snake.direction, Direction::Right);
    assert_eq!(positions(&snake), vec![(6, 4), (5, 4)]);
}

#[test]
fn snake_bites_itself_and_leaves_the_board() {
    let mut snake = Snake::new(2, 2);
    let food = Food { position: Position::new(9, 9) };
    for _ in 0..3 {
        snake.update(&food, None);
        let food_here = Food { position: snake.head().position.moved(snake.direction) };
        snake.update(&food_here, None);
    }
    assert!(!snake.is_eating_itself());
    let grown = snake.body.len();
    assert_eq!(grown, 5);
    snake.update(&food, Some(Direction::Down));
    snake.update(&food, Some(Direction::Left));
    snake.update(&food, Some(Direction::Up));
    assert!(snake.is_eating_itself());
    assert!(!Snake::new(0, 0).is_out_of_bounds((3, 3)));
    assert!(Snake::new(3, 0).is_out_of_bounds((3, 3)));
    assert!(Snake::new(1, -1).is_out_of_bounds((3, 3)));
    assert!(Snake::new(1, 3).is_out_of_bounds((3, 3)));
}

#[test]
fn food_is_placed_on_the_first_free_cell() {
    let snake = Snake::new(1, 0);
    assert_eq!(Food::place_from_index(3, 2, &snake, 0).position, Position::new(2, 0));
    assert_eq!(Food::place_from_index(3, 2, &snake, 1).position, Position::new(2, 0));
    assert_eq!(Food::place_from_index(3, 2, &snake, 4).position, Position::new(1, 1));
    let corner = Snake::new(2, 1);
    assert_eq!(Food::place_from_index(3, 2, &corner, 4).position, Position::new(0, 0));
}

#[test]
fn generated_food_avoids_the_snake() {
    let snake = Snake::new(1, 0);
    for _ in 0..100 {
        let food = Food::generate_food(3, 1, &snake);
        assert_eq!(food.position, Position::new(2, 0));
        let food = Food::generate_food(WIDTH as usize, HEIGHT as usize, &snake);
        assert!(food.position != Position::new(1, 0) && food.position != Position::new(0, 0));
        assert!(food.position.x >= 0 && food.position.x < WIDTH as i32);
        assert!(food.position.y >= 0 && food.position.y < HEIGHT as i32);
    }
}

#[test]
fn terrain_draws_a_tile_per_cell() {
    let terrain = Terrain::new((4, 3), 5);
    assert_eq!(terrain.size, (4, 3));
    assert_eq!(terrain.tiles.len(), 12);
    assert!(terrain.tiles.iter().all(|&t| t < 5));
    let copy = terrain.duplicate();
    assert_eq!(copy.tiles, terrain.tiles);
}

#[test]
fn space_starts_a_game() {
    assert!(matches!(start_on_space(&Some(Input::Space)), Some(State::Playing)));
    assert!(start_on_space(&Some(Input::Up)).is_none());
    assert!(start_on_space(&None).is_none());
    let mut scene = StartingScene::new((WIDTH, HEIGHT), 3);
    assert_eq!(scene.terrain.tiles.len(), 600);
    assert!(matches!(scene.update(Some(Input::Space)), Some(State::Playing)));
    assert!(scene.update(Some(Input::Left)).is_none());
    let mut losing = LosingScene::new(Snake::new(1, 1), 7, Terrain::new((1, 1), 1));
    assert_eq!(losing.score, 7);
    assert!(matches!(losing.update(Some(Input::Space)), Some(State::Playing)));
    assert!(losing.update(None).is_none());
}

#[test]
fn a_new_game_starts_in_the_middle() {
    let scene = PlayingScene::new((WIDTH, HEIGHT), 3);
    assert_eq!(positions(&scene.snake), vec![(15, 10), (14, 10)]);
    assert_eq!(scene.score, 0);
    assert_eq!(scene.size, (30, 20));
    assert!(scene.food.position != Position::new(15, 10));
    assert!(scene.food.position != Position::new(14, 10));
    assert!(!scene.is_loosing());
}

#[test]
fn a_new_game_fits_a_board_two_cells_wide() {
    let scene = PlayingScene::new((2, 2), 3);
    assert_eq!(positions(&scene.snake), vec![(1, 1), (0, 1)]);
    assert!(scene.food.position.y == 0);
}

#[test]
fn the_snake_moves_once_per_step() {
    let mut scene = PlayingScene::new((WIDTH, HEIGHT), 3);
    scene.food = Food { position: Position::new(0, 0) };
    assert!(scene.update(MOVE_STEP_NANOS / 2, None).is_none());
    assert_eq!(scene.snake.head().position, Position::new(15, 10));
    assert!(scene.update(MOVE_STEP_NANOS / 2, Some(Input::Up)).is_none());
    assert_eq!(scene.snake.head().position, Position::new(15, 9));
    assert_eq!(scene.pending_input, Some(Input::Up));
    assert!(scene.update(MOVE_STEP_NANOS, None).is_none());
    assert_eq!(scene.snake.head().position, Position::new(15, 8));
}

#[test]
fn eating_scores_and_leaving_the_board_loses() {
    let mut scene = PlayingScene::new((WIDTH, HEIGHT), 3);
    scene.food = Food { position: Position::new(16, 10) };
    assert!(scene.update(MOVE_STEP_NANOS, None).is_none());
    assert_eq!(scene.score, 1);
    assert_eq!(scene.snake.body.len(), 3);
    assert!(scene.food.position != Position::new(16, 10));
    let mut state = None;
    for _ in 0..20 {
        scene.food = Food { position: Position::new(0, 0) };
        state = scene.update(MOVE_STEP_NANOS, Some(Input::Up));
        if state.is_some() {
            break;
        }
    }
    match state {
        Some(State::Losing { score, snake, terrain }) => {
            assert_eq!(score, 1);
            assert_eq!(snake.head().position, Position::new(16, -1));
            assert_eq!(terrain.tiles.len(), 600);
        }
        _ => panic!("the snake should have left the board"),
    }
}
