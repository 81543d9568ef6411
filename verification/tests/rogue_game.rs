use tiefring::rogue::components::Position;
use tiefring::rogue::game::body_draw_order;
use tiefring::rogue::game::calculate_translation_in_tiles;
use tiefring::rogue::game::cell_layers;
use tiefring::rogue::game::finish_player_turn;
use tiefring::rogue::game::move_player;
use tiefring::rogue::game::plan_update;
use tiefring::rogue::game::try_move_player;
use tiefring::rogue::game::visible_range;
use tiefring::rogue::game::Engine;
use tiefring::rogue::game::Input;
use tiefring::rogue::game::Intent;
use tiefring::rogue::game::LoopEvent;
use tiefring::rogue::game::PlayerAction;
use tiefring::rogue::game::RunState;
use tiefring::rogue::game::Update;
use tiefring::rogue::game::UpdatePlan;
use tiefring::rogue::map::DungeonMap;
use tiefring::rogue::map::Tile;

fn open_map(width: i32, height: i32) -> DungeonMap {
    let mut map = DungeonMap::walled(width, height);
    for tile in map.tiles.iter_mut() {
        *tile = Tile::floor();
    }
    map.reset_blocked();
    map
}

#[test]
fn inputs_become_intents() {
    assert_eq!(try_move_player(&Some(Input::Up)), Intent::Move(0, -1));
    assert_eq!(try_move_player(&Some(Input::Down)), Intent::Move(0, 1));
    assert_eq!(try_move_player(&Some(Input::Left)), Intent::Move(-1, 0));
    assert_eq!(try_move_player(&Some(Input::Right)), Intent::Move(1, 0));
    assert_eq!(try_move_player(&Some(Input::Space)), Intent::Wait);
    assert_eq!(try_move_player(&Some(Input::Escape)), Intent::Nothing);
    assert_eq!(try_move_player(&None), Intent::Nothing);
}

#[test]
fn update_plans_follow_the_state() {
    assert_eq!(
        plan_update(RunState::Init, &None),
        UpdatePlan::RunSchedule(RunState::WaitingForInput, Update::Refresh)
    );
    assert_eq!(
        plan_update(RunState::AiTurn, &Some(Input::Up)),
        UpdatePlan::RunSchedule(RunState::WaitingForInput, Update::Refresh)
    );
    assert_eq!(plan_update(RunState::WaitingForInput, &Some(Input::Escape)), UpdatePlan::Exit);
    assert_eq!(
        plan_update(RunState::WaitingForInput, &Some(Input::Left)),
        UpdatePlan::PlayerTurn(Intent::Move(-1, 0))
    );
    assert_eq!(
        plan_update(RunState::WaitingForInput, &None),
        UpdatePlan::PlayerTurn(Intent::Nothing)
    );
}

#[test]
fn acting_hands_the_turn_to_the_ai() {
    assert_eq!(finish_player_turn(true), (true, RunState::AiTurn, Update::NoOp));
    assert_eq!(finish_player_turn(false), (false, RunState::WaitingForInput, Update::NoOp));
}

#[test]
fn player_attacks_the_first_monster_on_the_target() {
    let map = open_map(5, 5);
    let monsters = [Position::new(0, 0), Position::new(3, 2), Position::new(3, 2)];
    assert_eq!(
        move_player(&map, Some(Position::new(2, 2)), 1, 0, &monsters),
        PlayerAction::Attack(1)
    );
}

#[test]
fn player_moves_on_free_cells_only() {
    let mut map = open_map(5, 5);
    map.blocked[7] = true;
    assert_eq!(move_player(&map, Some(Position::new(2, 2)), 0, 1, &[]), PlayerAction::Move(2, 3));
    assert_eq!(move_player(&map, Some(Position::new(2, 2)), 0, -1, &[]), PlayerAction::Stay);
    assert_eq!(move_player(&map, Some(Position::new(4, 2)), 1, 0, &[]), PlayerAction::Stay);
    assert_eq!(move_player(&map, None, 1, 0, &[]), PlayerAction::Move(0, 0));
}

#[test]
fn camera_centres_small_maps_and_follows_on_large_ones() {
    let small = DungeonMap::walled(10, 5);
    assert_eq!(calculate_translation_in_tiles(&small, &Position::new(3, 3), 640, 320), (5, 2));
    let large = DungeonMap::walled(80, 50);
    assert_eq!(calculate_translation_in_tiles(&large, &Position::new(40, 25), 640, 320), (-30, -20));
    assert_eq!(calculate_translation_in_tiles(&large, &Position::new(2, 2), 640, 320), (0, 0));
    assert_eq!(calculate_translation_in_tiles(&large, &Position::new(79, 49), 640, 320), (-60, -40));
    assert_eq!(
        calculate_translation_in_tiles(&large, &Position::new(40, 25), 3_000_000_000, 320),
        (-20_233_904, -20)
    );
}

#[test]
fn visible_range_is_cut_at_the_map() {
    assert_eq!(visible_range(-30, 20, 80), (30, 50));
    assert_eq!(visible_range(5, 20, 10), (0, 10));
    assert_eq!(visible_range(-70, 20, 80), (70, 80));
}

#[test]
fn loop_events_decide_redraw_and_exit() {
    assert_eq!(Engine::handle_event(false, LoopEvent::Quit), (false, true));
    assert_eq!(Engine::handle_event(false, LoopEvent::Resized), (true, false));
    assert_eq!(Engine::handle_event(false, LoopEvent::GameUpdated(Update::Refresh)), (true, false));
    assert_eq!(Engine::handle_event(true, LoopEvent::GameUpdated(Update::Exit)), (true, true));
    assert_eq!(Engine::handle_event(true, LoopEvent::GameUpdated(Update::NoOp)), (false, false));
    let engine = Engine::new(1280, 720);
    assert_eq!((engine.width, engine.height), (1280, 720));
}

#[test]
fn cells_show_their_tile_once_revealed_and_fog_when_out_of_sight() {
    assert_eq!(cell_layers(false, false), (false, false));
    assert_eq!(cell_layers(false, true), (false, false));
    assert_eq!(cell_layers(true, false), (true, true));
    assert_eq!(cell_layers(true, true), (true, false));
}

#[test]
fn solid_bodies_are_drawn_last_in_their_order() {
    assert_eq!(body_draw_order(&vec![true, false, true, false, false]), vec![1, 3, 4, 0, 2]);
    assert_eq!(body_draw_order(&vec![]), Vec::<usize>::new());
    assert_eq!(body_draw_order(&vec![true, true]), vec![0, 1]);
}
