use rand::rngs::StdRng;
use rand::SeedableRng;
use tiefring::rogue::components::Body;
use tiefring::rogue::components::BodyType;
use tiefring::rogue::components::Health;
use tiefring::rogue::components::Position;
use tiefring::rogue::components::Stats;
use tiefring::rogue::components::Vision;
use tiefring::rogue::map::DungeonMap;
use tiefring::rogue::map::Tile;
use tiefring::rogue::path::FourWayGridForceWalkableTarget;
use tiefring::rogue::systems::attack_action;
use tiefring::rogue::systems::direction_offset;
use tiefring::rogue::systems::move_action;
use tiefring::rogue::systems::move_random;
use tiefring::rogue::systems::move_to_player;
use tiefring::rogue::systems::update_blocked;
use tiefring::rogue::systems::update_visible;

fn open_map(width: i32, height: i32) -> DungeonMap {
    let mut map = DungeonMap::walled(width, height);
    for tile in map.tiles.iter_mut() {
        *tile = Tile::floor();
    }
    map.reset_blocked();
    map
}

#[test]
fn direction_offsets() {
    assert_eq!(direction_offset(0), (0, 1));
    assert_eq!(direction_offset(1), (0, -1));
    assert_eq!(direction_offset(2), (1, 0));
    assert_eq!(direction_offset(3), (-1, 0));
}

#[test]
fn random_move_goes_to_a_neighbour() {
    let mut rng = StdRng::seed_from_u64(7);
    let position = Position::new(5, 5);
    for _ in 0..50 {
        let (x, y) = move_random(&position, &mut rng);
        assert_eq!((x - 5).abs() + (y - 5).abs(), 1);
    }
}

#[test]
fn chasing_takes_the_second_cell_of_the_path() {
    let player = Position::new(3, 0);
    assert_eq!(move_to_player(&vec![(0, 0), (1, 0), (2, 0), (3, 0)], &player), Some((1, 0)));
    assert_eq!(move_to_player(&vec![(2, 0), (3, 0)], &player), None);
    assert_eq!(move_to_player(&vec![(0, 0)], &player), None);
    assert_eq!(move_to_player(&vec![], &player), None);
}

#[test]
fn solid_move_moves_the_block() {
    let mut map = open_map(4, 4);
    let mut position = Position::new(1, 1);
    map.blocked[5] = true;
    assert!(move_action(&mut map, &mut position, true, 2, 1));
    assert_eq!(position, Position::new(2, 1));
    assert!(!map.blocked[5]);
    assert!(map.blocked[6]);
}

#[test]
fn move_into_a_blocked_or_outside_cell_fails() {
    let mut map = open_map(4, 4);
    map.blocked[6] = true;
    let mut position = Position::new(1, 1);
    assert!(!move_action(&mut map, &mut position, true, 2, 1));
    assert!(!move_action(&mut map, &mut position, false, -1, 1));
    assert_eq!(position, Position::new(1, 1));
    assert!(map.blocked[6]);
}

#[test]
fn move_of_a_non_solid_entity_leaves_blocks_alone() {
    let mut map = open_map(3, 3);
    let mut position = Position::new(0, 0);
    assert!(move_action(&mut map, &mut position, false, 1, 0));
    assert_eq!(position, Position::new(1, 0));
    assert!(map.blocked.iter().all(|b| !b));
}

#[test]
fn attack_hurts_by_strength() {
    assert_eq!(attack_action(&Stats::new(3, 1, 1, 1)), -3);
    assert_eq!(attack_action(&Stats::new(0, 1, 1, 1)), 0);
}

#[test]
fn health_is_clamped() {
    let mut health = Health::full_health(10);
    health.apply_effect(-4);
    assert_eq!(health.hp, 6);
    assert!(!health.is_dead());
    health.apply_effect(20);
    assert_eq!(health.hp, 10);
    health.apply_effect(-15);
    assert_eq!(health.hp, 0);
    assert!(health.is_dead());
    assert_eq!(health.max_hp, 10);
}

#[test]
fn stats_give_health() {
    let stats = Stats::new(2, 3, 4, 5);
    assert_eq!(stats.max_health(), 18);
    assert_eq!(stats.dexterity, 3);
    assert_eq!(stats.magic, 5);
}

#[test]
fn bodies_use_their_sprite() {
    assert_eq!(BodyType::Hero.sprite_coordinates(), (0, 0));
    assert_eq!(BodyType::Orc.sprite_coordinates(), (1, 0));
    assert_eq!(BodyType::Deer.sprite_coordinates(), (2, 0));
    assert_eq!(BodyType::BonePile.sprite_coordinates(), (0, 1));
    assert_eq!(Body::new(BodyType::Orc).body_type, BodyType::Orc);
}

#[test]
fn vision_sees_its_positions() {
    let mut vision = Vision::new(8);
    assert_eq!(vision.view_distance, 8);
    assert!(!vision.sees(&Position::new(1, 1)));
    vision.visible_positions.push(Position::new(1, 1));
    assert!(vision.sees(&Position::new(1, 1)));
    assert!(!vision.sees(&Position::new(1, 2)));
}

#[test]
fn blocked_cells_are_walls_and_solids() {
    let mut map = open_map(3, 2);
    map.tiles[0] = Tile::wall();
    update_blocked(&mut map, &[Position::new(2, 1)]);
    assert_eq!(map.blocked, vec![true, false, false, false, false, true]);
}

#[test]
fn visible_cells_are_what_is_seen() {
    let mut map = open_map(3, 3);
    update_visible(&mut map, &[Position::new(0, 0), Position::new(1, 1)]);
    update_visible(&mut map, &[Position::new(2, 2)]);
    assert!(!map.is_visible(0, 0));
    assert!(map.is_revealed(0, 0));
    assert!(map.is_revealed(1, 1));
    assert!(map.is_visible(2, 2));
    assert!(!map.is_revealed(2, 0));
    for i in 0..map.visible_tiles.len() {
        assert!(!map.visible_tiles[i] || map.revealed_tiles[i]);
    }
}

#[test]
fn grid_graph_nodes_and_costs() {
    let mut map = open_map(4, 3);
    map.blocked[5] = true;
    map.blocked[6] = true;
    let graph = FourWayGridForceWalkableTarget::new(&map, (2, 1));
    assert_eq!(graph.node_count(), 12);
    assert_eq!(graph.point_to_index((3, 2)), 11);
    assert_eq!(graph.index_to_point(11), (3, 2));
    assert!(!graph.is_walkable(1, 1));
    assert!(graph.is_walkable(2, 1));
    assert!(!graph.is_walkable(4, 1));
    assert_eq!(graph.heuristic(0, 11), 5);
    assert_eq!(graph.heuristic(11, 0), 5);
    assert!(graph.is_nudged(0, 1));
    assert!(!graph.is_nudged(0, 4));
    assert!(graph.is_nudged(1, 5));
    let mut around = Vec::new();
    graph.neighboors(2, &mut around);
    assert_eq!(around, vec![6, 1, 3]);
    let mut corner = vec![99];
    graph.neighboors(0, &mut corner);
    assert_eq!(corner, vec![99, 4, 1]);
}

#[test]
fn every_room_is_joined_to_the_previous_one() {
    let (map, rooms, _rng) = tiefring::rogue::map::DungeonMap::dungeon(80, 50);
    for k in 1..rooms.len() {
        let (px, py) = rooms[k - 1].center();
        let (nx, ny) = rooms[k].center();
        let horizontal = (px.min(nx)..=px.max(nx)).all(|x| map.is_walkable(x, py))
            && (py.min(ny)..=py.max(ny)).all(|y| map.is_walkable(nx, y));
        let vertical = (py.min(ny)..=py.max(ny)).all(|y| map.is_walkable(px, y))
            && (px.min(nx)..=px.max(nx)).all(|x| map.is_walkable(x, ny));
        assert!(horizontal || vertical);
    }
}
