use tiefring::rogue::components::Position;
use tiefring::rogue::map::index_with_width;
use tiefring::rogue::map::DungeonMap;
use tiefring::rogue::map::MapRepresentation;
use tiefring::rogue::map::Room;
use tiefring::rogue::map::Tile;
use tiefring::rogue::map::TileType;

#[test]
fn test_index_with_width() {
    let index = index_with_width(80, 50, 0);

    assert_eq!(50, index);
}

#[test]
fn bitmask() {
    let tiles = vec![Tile::wall(); 9];

    let map_representation = MapRepresentation::new(3, 3, &tiles);
    assert_eq!(map_representation.tiles_index, [7, 7, 7, 7, 7, 7, 7, 7, 7]);
}

#[test]
fn bitmask_floor_bottom() {
    let tiles = [
        Tile::wall(),
        Tile::wall(),
        Tile::wall(),
        Tile::wall(),
        Tile::wall(),
        Tile::wall(),
        Tile::floor(),
        Tile::floor(),
        Tile::floor(),
    ];

    let map_representation = MapRepresentation::new(3, 3, &tiles);
    assert_eq!(
        map_representation.tiles_index,
        [7, 7, 7, 10, 10, 10, 5, 5, 5]
    );
}

#[test]
fn bitmask_of_tiles_that_stop_short_of_the_grid() {
    let tiles = [
        Tile::wall(),
        Tile::wall(),
        Tile::wall(),
        Tile::floor(),
        Tile::floor(),
        Tile::floor(),
    ];

    let representation = MapRepresentation::new(3, 3, &tiles);
    assert_eq!(representation.tiles_index, [10, 10, 10, 5, 5, 5]);
}

#[test]
fn index_with_width_counts_rows() {
    assert_eq!(index_with_width(80, 3, 2), 163);
    assert_eq!(index_with_width(1, 0, 7), 7);
}

#[test]
fn bitmask_single_wall_in_floor_is_isolated() {
    let mut tiles = vec![Tile::floor(); 9];
    tiles[4] = Tile::wall();
    let representation = MapRepresentation::new(3, 3, &tiles);
    assert_eq!(representation.tiles_index, [5, 5, 5, 5, 1, 5, 5, 5, 5]);
}

#[test]
fn bitmask_table_values() {
    assert_eq!(MapRepresentation::bitmask_to_sprite_index(0b00000000), 1);
    assert_eq!(MapRepresentation::bitmask_to_sprite_index(0b11111000), 10);
    assert_eq!(MapRepresentation::bitmask_to_sprite_index(0b11111111), 7);
    assert_eq!(MapRepresentation::bitmask_to_sprite_index(0b01011010), 22);
    assert_eq!(MapRepresentation::bitmask_to_sprite_index(0b01111111), 14);
    assert_eq!(MapRepresentation::bitmask_to_sprite_index(0b10000001), 1);
}

#[test]
fn representation_with_capacity_is_empty() {
    let representation = MapRepresentation::with_capacity(16);
    assert!(representation.tiles_index.is_empty());
}

#[test]
fn tiles_have_their_kind() {
    let wall = Tile::wall();
    assert_eq!(wall.tile_type, TileType::Wall);
    assert!(!wall.walkable);
    assert!(!wall.transparent);
    let floor = Tile::floor();
    assert_eq!(floor.tile_type, TileType::Floor);
    assert!(floor.walkable);
    assert!(floor.transparent);
}

#[test]
fn walled_map_is_all_wall() {
    let map = DungeonMap::walled(4, 3);
    assert_eq!(map.dimensions(), (4, 3));
    assert_eq!(map.tiles.len(), 12);
    assert!(map.tiles.iter().all(|t| *t == Tile::wall()));
    assert!(!map.is_transparent(1, 1));
    assert!(!map.is_transparent(-1, 0));
    assert!(map.is_walkable(1, 1));
    assert!(!map.is_walkable(4, 0));
    assert!(!map.is_walkable(0, -1));
    assert_eq!(map.index(3, 2), 11);
    assert_eq!(map.index_from_position(&Position::new(1, 1)), 5);
}

#[test]
fn reveal_marks_visible_and_revealed() {
    let mut map = DungeonMap::walled(5, 5);
    map.reveal_positions(&[Position::new(1, 2), Position::new(4, 4)]);
    assert!(map.is_visible(1, 2));
    assert!(map.is_revealed(1, 2));
    assert!(map.is_visible(4, 4));
    assert!(!map.is_visible(2, 1));
    map.reset_visible();
    assert!(!map.is_visible(1, 2));
    assert!(map.is_revealed(1, 2));
}

#[test]
fn reset_blocked_follows_walkability() {
    let mut map = DungeonMap::walled(2, 2);
    map.tiles[3] = Tile::floor();
    map.reset_blocked();
    assert_eq!(map.blocked, vec![true, true, true, false]);
}

#[test]
fn tile_index_outside_representation_is_none() {
    let map = DungeonMap::walled(3, 3);
    assert_eq!(map.tile_index_at_position(0, 0), None);
}

#[test]
fn rooms_overlap_and_center() {
    let a = Room::new(0, 0, 6, 6);
    let b = Room::new(6, 6, 6, 6);
    let c = Room::new(7, 0, 6, 6);
    assert!(a.overlaps(&b));
    assert!(b.overlaps(&a));
    assert!(!a.overlaps(&c));
    assert!(!c.overlaps(&a));
    assert_eq!(a.center(), (3, 3));
    assert_eq!(Room::new(1, 2, 7, 9).center(), (4, 6));
    assert_eq!(Room::new(-3, -3, 0, 0).center(), (-3, -3));
}

#[test]
fn dungeon_is_laid_out_from_the_seed() {
    let (map, rooms, _rng) = DungeonMap::dungeon(80, 50);
    assert_eq!(map.dimensions(), (80, 50));
    assert!(!rooms.is_empty());
    assert!(rooms.len() <= 40);
    for (i, room) in rooms.iter().enumerate() {
        assert!(room.left >= 0 && room.right < 80 && room.top >= 0 && room.bottom < 50);
        assert!(room.right - room.left >= 6 && room.right - room.left <= 10);
        assert!(room.bottom - room.top >= 6 && room.bottom - room.top <= 10);
        for other in rooms.iter().take(i) {
            assert!(!room.overlaps(other));
        }
    }
    let (cx, cy) = rooms[0].center();
    assert_eq!(map.starting_position, Position::new(cx, cy));
    assert!(map.is_walkable(cx, cy));
    assert_eq!(map.tile_index_at_position(cx, cy), Some(&5));
    assert_eq!(map.map_representation.tiles_index.len(), 80 * 50);
    for i in 0..map.tiles.len() {
        assert_eq!(map.blocked[i], !map.tiles[i].walkable);
        assert!(!map.revealed_tiles[i]);
        assert!(!map.visible_tiles[i]);
    }
    let (again, rooms_again, _rng) = DungeonMap::dungeon(80, 50);
    assert_eq!(again.tiles, map.tiles);
    assert_eq!(rooms_again.len(), rooms.len());
}

#[test]
fn small_dungeon_has_no_room() {
    let (map, rooms, _rng) = DungeonMap::dungeon(9, 9);
    assert!(rooms.is_empty());
    assert_eq!(map.starting_position, Position::new(0, 0));
    assert!(map.tiles.iter().all(|t| *t == Tile::wall()));
}
