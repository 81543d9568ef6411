//! The dungeon map: its tiles, what has been seen of it, which cells are
//! blocked, and the sprite chosen for each wall from its neighbours.

use crate::random::random_bool;
use crate::random::random_i32_below;
use crate::random::random_i32_between;
use crate::random::seeded_rng;
use crate::random::drawn_bool;
use crate::random::drawn_i32_between;
use crate::random::seeded_generator;
use crate::rogue::components::Position;
use rand::rngs::StdRng;
use vstd::arithmetic::div_mod::lemma_fundamental_div_mod;
use vstd::arithmetic::div_mod::lemma_fundamental_div_mod_converse;
use vstd::prelude::*;

verus! {

#[derive(Clone, Copy, PartialEq, Eq, Debug, Structural)]
pub enum TileType {
    Wall,
    Floor,
}

/// A cell of the dungeon. How it is drawn follows from its type.
#[derive(Clone, Copy, PartialEq, Eq, Debug, Structural)]
pub struct Tile {
    pub walkable: bool,
    pub transparent: bool,
    pub tile_type: TileType,
}

pub open spec fn wall_tile() -> Tile {
    Tile { walkable: false, transparent: false, tile_type: TileType::Wall }
}

pub open spec fn floor_tile() -> Tile {
    Tile { walkable: true, transparent: true, tile_type: TileType::Floor }
}

impl Tile {
    pub fn wall() -> (tile: Self)
        ensures
            tile == wall_tile(),
    {
        Self { walkable: false, transparent: false, tile_type: TileType::Wall }
    }

    pub fn floor() -> (tile: Self)
        ensures
            tile == floor_tile(),
    {
        Self { walkable: true, transparent: true, tile_type: TileType::Floor }
    }
}

/// The row-major index of cell `(x, y)` in a grid `width` cells wide.
pub open spec fn flat_index(width: int, x: int, y: int) -> int {
    width * y + x
}

/// `width * y + x` can be computed in `i32` without overflow.
pub open spec fn index_fits(width: i32, x: i32, y: i32) -> bool {
    &&& i32::MIN <= width * y <= i32::MAX
    &&& i32::MIN <= width * y + x <= i32::MAX
}

pub open spec fn in_grid(width: int, height: int, x: int, y: int) -> bool {
    0 <= x < width && 0 <= y < height
}

/// Distinct cells of a grid have distinct flat indices, and every cell's index
/// lies below `width * height`.
pub proof fn lemma_flat_index_in_grid(width: int, height: int, x: int, y: int)
    requires
        in_grid(width, height, x, y),
    ensures
        0 <= flat_index(width, x, y) < width * height,
        flat_index(width, x, y) % width == x,
        flat_index(width, x, y) / width == y,
{
    assert(0 <= width * y) by (nonlinear_arith)
        requires
            0 <= y,
            0 < width,
    ;
    assert(width * y + x < width * height) by (nonlinear_arith)
        requires
            0 <= x < width,
            0 <= y < height,
    ;
    assert(flat_index(width, x, y) == y * width + x) by (nonlinear_arith);
    lemma_fundamental_div_mod_converse(flat_index(width, x, y), width, y, x);
}

/// The cell of a grid that a flat index names.
pub proof fn lemma_cell_of_index(width: int, height: int, i: int)
    requires
        0 < width,
        0 <= i < width * height,
    ensures
        in_grid(width, height, i % width, i / width),
        flat_index(width, i % width, i / width) == i,
{
    lemma_fundamental_div_mod(i, width);
    assert(0 <= i / width < height) by (nonlinear_arith)
        requires
            0 < width,
            0 <= i < width * height,
            i == width * (i / width) + i % width,
            0 <= i % width < width,
    ;
}

pub proof fn lemma_flat_index_injective(width: int, height: int, x1: int, y1: int, x2: int, y2: int)
    requires
        in_grid(width, height, x1, y1),
        in_grid(width, height, x2, y2),
        flat_index(width, x1, y1) == flat_index(width, x2, y2),
    ensures
        x1 == x2,
        y1 == y2,
{
    lemma_flat_index_in_grid(width, height, x1, y1);
    lemma_flat_index_in_grid(width, height, x2, y2);
}

/// The flat index of cell `(x, y)` in a grid `width` cells wide, cast to
/// `usize` as the map does (a negative value wraps).
#[inline(always)]
pub fn index_with_width(width: i32, x: i32, y: i32) -> (index: usize)
    requires
        index_fits(width, x, y),
    ensures
        index == (width * y + x) as usize,
{
    (width * y + x) as usize
}

/// The cell `(x, y)` that a flat index names in a grid `width` cells wide.
fn position_with_index(index: usize, width: i32) -> (position: (i32, i32))
    requires
        0 < width,
        index <= i32::MAX,
    ensures
        position.0 == index as int % width as int,
        position.1 == index as int / width as int,
{
    let index = index as i32;
    let x = index % width;
    let y = index / width;
    (x, y)
}


/// Whether the cell `(x, y)` counts as wall when choosing a wall sprite:
/// cells outside the grid do.
pub open spec fn wall_at(tiles: Seq<Tile>, width: int, height: int, x: int, y: int) -> bool {
    !in_grid(width, height, x, y) || tiles[flat_index(width, x, y)].tile_type == TileType::Wall
}

pub open spec fn bit(b: bool) -> int {
    if b {
        1
    } else {
        0
    }
}

/// The eight-neighbour wall bitmask of cell `(x, y)`, most significant bit
/// first: north-west (counted only with north and west), north, north-east
/// (only with north and east), west, east, south-west (only with west and
/// south), south, south-east (only with south and east).
pub open spec fn wall_bitmask_spec(tiles: Seq<Tile>, width: int, height: int, x: int, y: int) -> u32 {
    let nw = wall_at(tiles, width, height, x - 1, y - 1);
    let n = wall_at(tiles, width, height, x, y - 1);
    let ne = wall_at(tiles, width, height, x + 1, y - 1);
    let w = wall_at(tiles, width, height, x - 1, y);
    let e = wall_at(tiles, width, height, x + 1, y);
    let sw = wall_at(tiles, width, height, x - 1, y + 1);
    let s = wall_at(tiles, width, height, x, y + 1);
    let se = wall_at(tiles, width, height, x + 1, y + 1);
    (128 * bit(nw && n && w) + 64 * bit(n) + 32 * bit(ne && n && e) + 16 * bit(w) + 8 * bit(e)
        + 4 * bit(sw && w && s) + 2 * bit(s) + bit(se && s && e)) as u32
}

/// The tile-set index of the wall sprite drawn for a bitmask; bitmasks
/// without a sprite of their own get the isolated-wall sprite.
pub open spec fn sprite_index_for_bitmask(bitmask: u32) -> usize {
    if bitmask == 0b00000000 {
        1
    } else if bitmask == 0b11111000 {
        10
    } else if bitmask == 0b11111111 {
        7
    } else if bitmask == 0b00011111 {
        3
    } else if bitmask == 0b00010110 {
        4
    } else if bitmask == 0b00001011 {
        2
    } else if bitmask == 0b01101000 {
        9
    } else if bitmask == 0b11010000 {
        11
    } else if bitmask == 0b01101011 {
        6
    } else if bitmask == 0b11010110 {
        8
    } else if bitmask == 0b00001000 {
        17
    } else if bitmask == 0b00000010 {
        19
    } else if bitmask == 0b00010000 {
        18
    } else if bitmask == 0b01000000 {
        21
    } else if bitmask == 0b01011010 {
        22
    } else if bitmask == 0b01000010 {
        20
    } else if bitmask == 0b00011000 {
        16
    } else if bitmask == 0b11111110 {
        12
    } else if bitmask == 0b11111011 {
        13
    } else if bitmask == 0b11011111 {
        15
    } else if bitmask == 0b01111111 {
        14
    } else {
        1
    }
}

/// The tile-set index drawn for cell `(x, y)`: floors use one sprite, walls
/// one chosen by their neighbours.
pub open spec fn tile_sprite_spec(tiles: Seq<Tile>, width: int, height: int, x: int, y: int) -> usize {
    if tiles[flat_index(width, x, y)].tile_type == TileType::Floor {
        5
    } else {
        sprite_index_for_bitmask(wall_bitmask_spec(tiles, width, height, x, y))
    }
}

/// Cell `(x, y)`, where it lies in the grid, has a tile among the first
/// `len`.
pub open spec fn has_cell(len: int, width: int, height: int, x: int, y: int) -> bool {
    in_grid(width, height, x, y) ==> flat_index(width, x, y) < len
}

/// Each of the eight neighbours of cell `(x, y)` that lies in the grid has a
/// tile among the first `len`.
pub open spec fn neighbours_present(len: int, width: int, height: int, x: int, y: int) -> bool {
    &&& has_cell(len, width, height, x - 1, y - 1)
    &&& has_cell(len, width, height, x, y - 1)
    &&& has_cell(len, width, height, x + 1, y - 1)
    &&& has_cell(len, width, height, x - 1, y)
    &&& has_cell(len, width, height, x + 1, y)
    &&& has_cell(len, width, height, x - 1, y + 1)
    &&& has_cell(len, width, height, x, y + 1)
    &&& has_cell(len, width, height, x + 1, y + 1)
}

/// Every wall tile's neighbours in the grid have tiles: the wall sprites are
/// chosen by reading them. It holds whenever the tiles cover the grid.
pub open spec fn wall_neighbours_present(tiles: Seq<Tile>, width: int, height: int) -> bool {
    forall|i: int|
        0 <= i < tiles.len() && (#[trigger] tiles[i]).tile_type == TileType::Wall ==> neighbours_present(
            tiles.len() as int,
            width,
            height,
            i % width,
            i / width,
        )
}

proof fn lemma_has_cell_in_full_grid(len: int, width: int, height: int, x: int, y: int)
    requires
        0 < width,
        width * height <= len,
    ensures
        has_cell(len, width, height, x, y),
{
    if in_grid(width, height, x, y) {
        lemma_flat_index_in_grid(width, height, x, y);
    }
}

/// Tiles that cover the grid have every neighbour of every wall.
pub proof fn lemma_full_grid_has_wall_neighbours(tiles: Seq<Tile>, width: int, height: int)
    requires
        0 < width,
        width * height <= tiles.len(),
    ensures
        wall_neighbours_present(tiles, width, height),
{
    let len = tiles.len() as int;
    assert forall|i: int|
        0 <= i < tiles.len() && (#[trigger] tiles[i]).tile_type == TileType::Wall implies neighbours_present(
        len,
        width,
        height,
        i % width,
        i / width,
    ) by {
        let x = i % width;
        let y = i / width;
        lemma_has_cell_in_full_grid(len, width, height, x - 1, y - 1);
        lemma_has_cell_in_full_grid(len, width, height, x, y - 1);
        lemma_has_cell_in_full_grid(len, width, height, x + 1, y - 1);
        lemma_has_cell_in_full_grid(len, width, height, x - 1, y);
        lemma_has_cell_in_full_grid(len, width, height, x + 1, y);
        lemma_has_cell_in_full_grid(len, width, height, x - 1, y + 1);
        lemma_has_cell_in_full_grid(len, width, height, x, y + 1);
        lemma_has_cell_in_full_grid(len, width, height, x + 1, y + 1);
    }
}

/// The tile-set index of the sprite drawn for each tile of a map.
pub struct MapRepresentation {
    pub tiles_index: Vec<usize>,
}

proof fn lemma_shift_left_one(b: u32)
    requires
        b < 256,
    ensures
        b << 1 == b * 2,
{
    assert(b < 256 ==> b << 1 == b * 2) by (bit_vector);
}

impl MapRepresentation {
    /// The sprite index of every tile of a grid `width` cells wide and
    /// `height` cells high (tiles past `width * height` are placed on further
    /// rows, with the cells below the grid counted as wall). The tiles may
    /// stop short of the grid where no wall has a neighbour past them.
    pub fn new(width: i32, height: i32, tiles: &[Tile]) -> (representation: Self)
        requires
            0 < width,
            0 <= height,
            tiles@.len() <= i32::MAX,
            wall_neighbours_present(tiles@, width as int, height as int),
        ensures
            representation.tiles_index@.len() == tiles@.len(),
            forall|i: int|
                0 <= i < tiles@.len() ==> #[trigger] representation.tiles_index@[i]
                    == tile_sprite_spec(tiles@, width as int, height as int, i % width as int, i / width as int),
    {
        let mut tiles_index: Vec<usize> = Vec::with_capacity(tiles.len());
        let mut index: usize = 0;
        while index < tiles.len()
            invariant
                0 < width,
                0 <= height,
                tiles@.len() <= i32::MAX,
                wall_neighbours_present(tiles@, width as int, height as int),
                index <= tiles@.len(),
                tiles_index@.len() == index,
                forall|i: int|
                    0 <= i < index ==> #[trigger] tiles_index@[i] == tile_sprite_spec(
                        tiles@,
                        width as int,
                        height as int,
                        i % width as int,
                        i / width as int,
                    ),
            decreases tiles@.len() - index,
        {
            let sprite = match tiles[index].tile_type {
                TileType::Floor => 5,
                TileType::Wall => MapRepresentation::wall_configuration(index, tiles, width, height),
            };
            proof {
                lemma_fundamental_div_mod(index as int, width as int);
                if tiles@[index as int].tile_type == TileType::Floor {
                    let x = index as int % width as int;
                    let y = index as int / width as int;
                    assert(flat_index(width as int, x, y) == index as int) by (nonlinear_arith)
                        requires
                            index as int == width as int * y + x,
                    ;
                }
            }
            tiles_index.push(sprite);
            index = index + 1;
        }
        Self { tiles_index }
    }

    /// An empty representation with room for `capacity` tiles.
    pub fn with_capacity(capacity: usize) -> (representation: Self)
        ensures
            representation.tiles_index@.len() == 0,
    {
        Self { tiles_index: Vec::with_capacity(capacity) }
    }

    fn wall_configuration(tile_index: usize, tiles: &[Tile], width: i32, height: i32) -> (sprite: usize)
        requires
            0 < width,
            0 <= height,
            tiles@.len() <= i32::MAX,
            wall_neighbours_present(tiles@, width as int, height as int),
            tile_index < tiles@.len(),
            tiles@[tile_index as int].tile_type == TileType::Wall,
        ensures
            sprite == sprite_index_for_bitmask(
                wall_bitmask_spec(
                    tiles@,
                    width as int,
                    height as int,
                    tile_index as int % width as int,
                    tile_index as int / width as int,
                ),
            ),
    {
        proof {
            assert(tiles@[tile_index as int].tile_type == TileType::Wall);
        }
        let bitmask = MapRepresentation::wall_bitmask(tile_index, tiles, width, height);
        MapRepresentation::bitmask_to_sprite_index(bitmask)
    }

    /// The tile-set index of the wall sprite drawn for `bitmask`.
    pub fn bitmask_to_sprite_index(bitmask: u32) -> (sprite: usize)
        ensures
            sprite == sprite_index_for_bitmask(bitmask),
    {
        match bitmask {
            0b00000000 => 1,
            0b11111000 => 10,
            0b11111111 => 7,
            0b00011111 => 3,
            0b00010110 => 4,
            0b00001011 => 2,
            0b01101000 => 9,
            0b11010000 => 11,
            0b01101011 => 6,
            0b11010110 => 8,
            0b00001000 => 17,
            0b00000010 => 19,
            0b00010000 => 18,
            0b01000000 => 21,
            0b01011010 => 22,
            0b01000010 => 20,
            0b00011000 => 16,
            0b11111110 => 12,
            0b11111011 => 13,
            0b11011111 => 15,
            0b01111111 => 14,
            _ => 1,
        }
    }

    /// Whether the neighbour `(x, y)` counts as wall.
    fn is_wall(tiles: &[Tile], width: i32, height: i32, x: i32, y: i32) -> (wall: bool)
        requires
            0 < width,
            0 <= height,
            tiles@.len() <= i32::MAX,
            has_cell(tiles@.len() as int, width as int, height as int, x as int, y as int),
        ensures
            wall == wall_at(tiles@, width as int, height as int, x as int, y as int),
    {
        if x < 0 || x >= width || y < 0 || y >= height {
            true
        } else {
            proof {
                assert(0 <= width * y) by (nonlinear_arith)
                    requires
                        0 < width,
                        0 <= y,
                ;
            }
            let index = index_with_width(width, x, y);
            tiles[index].tile_type == TileType::Wall
        }
    }

    /// The wall bitmask of the tile at `tile_index`
    /// (see <https://gamedevelopment.tutsplus.com/tutorials/how-to-use-tile-bitmasking-to-auto-tile-your-level-layouts--cms-25673>).
    fn wall_bitmask(tile_index: usize, tiles: &[Tile], width: i32, height: i32) -> (bitmask: u32)
        requires
            0 < width,
            0 <= height,
            tiles@.len() <= i32::MAX,
            tile_index < tiles@.len(),
            neighbours_present(
                tiles@.len() as int,
                width as int,
                height as int,
                tile_index as int % width as int,
                tile_index as int / width as int,
            ),
        ensures
            bitmask == wall_bitmask_spec(
                tiles@,
                width as int,
                height as int,
                tile_index as int % width as int,
                tile_index as int / width as int,
            ),
    {
        let (x, y) = position_with_index(tile_index, width);
        proof {
            assert(0 <= x < width);
            assert(0 <= y <= tile_index) by (nonlinear_arith)
                requires
                    y == tile_index as int / width as int,
                    0 < width,
            ;
        }
        let nw = MapRepresentation::is_wall(tiles, width, height, x - 1, y - 1);
        let n = MapRepresentation::is_wall(tiles, width, height, x, y - 1);
        let ne = MapRepresentation::is_wall(tiles, width, height, x + 1, y - 1);
        let w = MapRepresentation::is_wall(tiles, width, height, x - 1, y);
        let e = MapRepresentation::is_wall(tiles, width, height, x + 1, y);
        let sw = MapRepresentation::is_wall(tiles, width, height, x - 1, y + 1);
        let s = MapRepresentation::is_wall(tiles, width, height, x, y + 1);
        let se = MapRepresentation::is_wall(tiles, width, height, x + 1, y + 1);

        let mut bitmask: u32 = 0;
        if nw && n && w {
            bitmask += 1;
        }
        proof { lemma_shift_left_one(bitmask); }
        bitmask = bitmask << 1;
        if n {
            bitmask += 1;
        }
        proof { lemma_shift_left_one(bitmask); }
        bitmask = bitmask << 1;
        if ne && n && e {
            bitmask += 1;
        }
        proof { lemma_shift_left_one(bitmask); }
        bitmask = bitmask << 1;
        if w {
            bitmask += 1;
        }
        proof { lemma_shift_left_one(bitmask); }
        bitmask = bitmask << 1;
        if e {
            bitmask += 1;
        }
        proof { lemma_shift_left_one(bitmask); }
        bitmask = bitmask << 1;
        if sw && w && s {
            bitmask += 1;
        }
        proof { lemma_shift_left_one(bitmask); }
        bitmask = bitmask << 1;
        if s {
            bitmask += 1;
        }
        proof { lemma_shift_left_one(bitmask); }
        bitmask = bitmask << 1;
        if se && s && e {
            bitmask += 1;
        }
        bitmask
    }
}


/// Whether one of `positions` lies at flat index `i` of a grid `width` wide.
pub open spec fn marks_index(positions: Seq<Position>, width: int, i: int) -> bool {
    exists|k: int|
        0 <= k < positions.len() && #[trigger] flat_index(width, positions[k].x as int, positions[k].y as int)
            == i
}

pub struct DungeonMap {
    pub width: i32,
    pub height: i32,
    pub tiles: Vec<Tile>,
    pub revealed_tiles: Vec<bool>,
    pub visible_tiles: Vec<bool>,
    pub starting_position: Position,
    pub map_representation: MapRepresentation,
    pub blocked: Vec<bool>,
}

impl DungeonMap {
    pub open spec fn tile_seq(&self) -> Seq<Tile> {
        self.tiles@
    }

    pub open spec fn revealed_seq(&self) -> Seq<bool> {
        self.revealed_tiles@
    }

    pub open spec fn visible_seq(&self) -> Seq<bool> {
        self.visible_tiles@
    }

    pub open spec fn cell_count(&self) -> int {
        self.width * self.height
    }

    /// The grid is at least one cell wide and high, and every per-cell vector
    /// has one entry per cell.
    pub open spec fn wf(&self) -> bool {
        &&& 1 <= self.width
        &&& 1 <= self.height
        &&& self.width * self.height <= i32::MAX
        &&& self.tile_seq().len() == self.cell_count()
        &&& self.revealed_seq().len() == self.cell_count()
        &&& self.visible_seq().len() == self.cell_count()
        &&& self.blocked@.len() == self.cell_count()
    }

    pub open spec fn tile_at(&self, x: int, y: int) -> Tile {
        self.tile_seq()[flat_index(self.width as int, x, y)]
    }

    /// Every cell in sight has been seen: a visible cell is revealed.
    pub open spec fn sight_consistent(&self) -> bool {
        forall|i: int| 0 <= i < self.cell_count() ==> #[trigger] self.visible_seq()[i] ==> self.revealed_seq()[i]
    }

    /// The flat index of `(x, y)` can be computed and names a cell of the map.
    pub open spec fn index_ok(&self, x: i32, y: i32) -> bool {
        &&& index_fits(self.width, x, y)
        &&& 0 <= self.width * y + x < self.cell_count()
    }

    /// A map of `width` by `height` cells, all wall, none revealed, visible or
    /// blocked, with no representation computed yet.
    pub fn walled(width: i32, height: i32) -> (map: Self)
        requires
            1 <= width,
            1 <= height,
            width * height <= i32::MAX,
        ensures
            map.wf(),
            map.width == width,
            map.height == height,
            forall|i: int| 0 <= i < map.cell_count() ==> #[trigger] map.tile_seq()[i] == wall_tile(),
            forall|i: int| 0 <= i < map.cell_count() ==> !#[trigger] map.revealed_seq()[i],
            forall|i: int| 0 <= i < map.cell_count() ==> !#[trigger] map.visible_seq()[i],
            forall|i: int| 0 <= i < map.cell_count() ==> !#[trigger] map.blocked@[i],
            map.starting_position == (Position { x: 0, y: 0 }),
            map.map_representation.tiles_index@.len() == 0,
            map.sight_consistent(),
    {
        let tile_count = (width * height) as usize;
        let mut tiles: Vec<Tile> = Vec::with_capacity(tile_count);
        let mut revealed_tiles: Vec<bool> = Vec::with_capacity(tile_count);
        let mut visible_tiles: Vec<bool> = Vec::with_capacity(tile_count);
        let mut blocked: Vec<bool> = Vec::with_capacity(tile_count);
        let mut i: usize = 0;
        while i < tile_count
            invariant
                i <= tile_count,
                tiles@.len() == i,
                revealed_tiles@.len() == i,
                visible_tiles@.len() == i,
                blocked@.len() == i,
                forall|k: int| 0 <= k < i ==> #[trigger] tiles@[k] == wall_tile(),
                forall|k: int| 0 <= k < i ==> !#[trigger] revealed_tiles@[k],
                forall|k: int| 0 <= k < i ==> !#[trigger] visible_tiles@[k],
                forall|k: int| 0 <= k < i ==> !#[trigger] blocked@[k],
            decreases tile_count - i,
        {
            tiles.push(Tile::wall());
            revealed_tiles.push(false);
            visible_tiles.push(false);
            blocked.push(false);
            i = i + 1;
        }
        Self {
            width,
            height,
            tiles,
            revealed_tiles,
            visible_tiles,
            starting_position: Position::new(0, 0),
            map_representation: MapRepresentation::with_capacity(0),
            blocked,
        }
    }

    /// Marks each of `positions` as revealed and visible.
    pub fn reveal_positions(&mut self, positions: &[Position])
        requires
            old(self).wf(),
            forall|k: int| 0 <= k < positions@.len() ==> old(self).index_ok(#[trigger] positions@[k].x, positions@[k].y),
        ensures
            final(self).wf(),
            final(self).width == old(self).width,
            final(self).height == old(self).height,
            final(self).tile_seq() == old(self).tile_seq(),
            final(self).blocked@ == old(self).blocked@,
            final(self).starting_position == old(self).starting_position,
            final(self).map_representation.tiles_index@ == old(self).map_representation.tiles_index@,
            forall|i: int|
                0 <= i < old(self).cell_count() ==> #[trigger] final(self).revealed_seq()[i] == (
                old(self).revealed_seq()[i] || marks_index(positions@, old(self).width as int, i)),
            forall|i: int|
                0 <= i < old(self).cell_count() ==> #[trigger] final(self).visible_seq()[i] == (
                old(self).visible_seq()[i] || marks_index(positions@, old(self).width as int, i)),
            old(self).sight_consistent() ==> final(self).sight_consistent(),
    {
        let mut k: usize = 0;
        while k < positions.len()
            invariant
                self.wf(),
                self.width == old(self).width,
                self.height == old(self).height,
                self.tile_seq() == old(self).tile_seq(),
                self.blocked@ == old(self).blocked@,
                self.starting_position == old(self).starting_position,
                self.map_representation.tiles_index@ == old(self).map_representation.tiles_index@,
                k <= positions@.len(),
                forall|j: int| 0 <= j < positions@.len() ==> old(self).index_ok(#[trigger] positions@[j].x, positions@[j].y),
                forall|i: int|
                    0 <= i < old(self).cell_count() ==> #[trigger] self.revealed_seq()[i] == (
                    old(self).revealed_seq()[i] || marks_index(positions@.take(k as int), old(self).width as int, i)),
                forall|i: int|
                    0 <= i < old(self).cell_count() ==> #[trigger] self.visible_seq()[i] == (
                    old(self).visible_seq()[i] || marks_index(positions@.take(k as int), old(self).width as int, i)),
            decreases positions@.len() - k,
        {
            let position = &positions[k];
            let index = self.index_from_position(position);
            self.revealed_tiles.set(index, true);
            self.visible_tiles.set(index, true);
            proof {
                let w = old(self).width as int;
                let before = positions@.take(k as int);
                let after = positions@.take(k + 1);
                assert forall|i: int| 0 <= i < old(self).cell_count() implies
                    marks_index(after, w, i) == (marks_index(before, w, i) || i == index as int) by {
                    if marks_index(before, w, i) {
                        let j = choose|j: int| 0 <= j < before.len() && #[trigger] flat_index(w, before[j].x as int, before[j].y as int) == i;
                        assert(after[j] == before[j]);
                        assert(flat_index(w, after[j].x as int, after[j].y as int) == i);
                    }
                    if i == index as int {
                        assert(after[k as int] == positions@[k as int]);
                        assert(flat_index(w, after[k as int].x as int, after[k as int].y as int) == i);
                    }
                    if marks_index(after, w, i) {
                        let j = choose|j: int| 0 <= j < after.len() && #[trigger] flat_index(w, after[j].x as int, after[j].y as int) == i;
                        if j < k {
                            assert(before[j] == after[j]);
                            assert(flat_index(w, before[j].x as int, before[j].y as int) == i);
                        }
                    }
                }
            }
            k = k + 1;
        }
        assert(positions@.take(positions@.len() as int) =~= positions@);
    }

    pub fn is_visible(&self, x: i32, y: i32) -> (visible: bool)
        requires
            self.wf(),
            self.index_ok(x, y),
        ensures
            visible == self.visible_seq()[flat_index(self.width as int, x as int, y as int)],
    {
        let index = self.index(x, y);
        self.visible_tiles[index]
    }

    pub fn is_revealed(&self, x: i32, y: i32) -> (revealed: bool)
        requires
            self.wf(),
            self.index_ok(x, y),
        ensures
            revealed == self.revealed_seq()[flat_index(self.width as int, x as int, y as int)],
    {
        let index = self.index(x, y);
        self.revealed_tiles[index]
    }

    /// The sprite index of cell `(x, y)`, if the representation covers its
    /// flat index (a negative index wraps to one it does not cover).
    pub fn tile_index_at_position(&self, x: i32, y: i32) -> (sprite: Option<&usize>)
        requires
            index_fits(self.width, x, y),
        ensures
            ({
                let i = (self.width * y + x) as usize;
                &&& sprite.is_some() == (i < self.map_representation.tiles_index@.len())
                &&& sprite.is_some() ==> *sprite.unwrap() == self.map_representation.tiles_index@[i as int]
            }),
    {
        let index = index_with_width(self.width, x, y);
        if index < self.map_representation.tiles_index.len() {
            Some(&self.map_representation.tiles_index[index])
        } else {
            None
        }
    }

    /// Marks every cell as not visible.
    pub fn reset_visible(&mut self)
        requires
            old(self).wf(),
        ensures
            final(self).wf(),
            final(self).width == old(self).width,
            final(self).height == old(self).height,
            final(self).tile_seq() == old(self).tile_seq(),
            final(self).revealed_seq() == old(self).revealed_seq(),
            final(self).blocked@ == old(self).blocked@,
            final(self).starting_position == old(self).starting_position,
            final(self).map_representation.tiles_index@ == old(self).map_representation.tiles_index@,
            forall|i: int| 0 <= i < final(self).cell_count() ==> !#[trigger] final(self).visible_seq()[i],
            final(self).sight_consistent(),
    {
        let mut i: usize = 0;
        while i < self.visible_tiles.len()
            invariant
                self.wf(),
                self.width == old(self).width,
                self.height == old(self).height,
                self.tile_seq() == old(self).tile_seq(),
                self.revealed_seq() == old(self).revealed_seq(),
                self.blocked@ == old(self).blocked@,
                self.starting_position == old(self).starting_position,
                self.map_representation.tiles_index@ == old(self).map_representation.tiles_index@,
                i <= self.visible_seq().len(),
                forall|k: int| 0 <= k < i ==> !#[trigger] self.visible_seq()[k],
            decreases self.visible_seq().len() - i,
        {
            self.visible_tiles.set(i, false);
            i = i + 1;
        }
    }

    /// Blocks exactly the cells whose tile is not walkable.
    pub fn reset_blocked(&mut self)
        requires
            old(self).tile_seq().len() <= old(self).blocked@.len(),
        ensures
            final(self).width == old(self).width,
            final(self).height == old(self).height,
            final(self).tile_seq() == old(self).tile_seq(),
            final(self).revealed_seq() == old(self).revealed_seq(),
            final(self).visible_seq() == old(self).visible_seq(),
            final(self).starting_position == old(self).starting_position,
            final(self).map_representation.tiles_index@ == old(self).map_representation.tiles_index@,
            final(self).blocked@.len() == old(self).blocked@.len(),
            forall|i: int|
                0 <= i < old(self).tile_seq().len() ==> #[trigger] final(self).blocked@[i]
                    == !old(self).tile_seq()[i].walkable,
            forall|i: int|
                old(self).tile_seq().len() <= i < old(self).blocked@.len() ==> #[trigger] final(self).blocked@[i]
                    == old(self).blocked@[i],
    {
        let mut index: usize = 0;
        while index < self.tiles.len()
            invariant
                self.width == old(self).width,
                self.height == old(self).height,
                self.tile_seq() == old(self).tile_seq(),
                self.revealed_seq() == old(self).revealed_seq(),
                self.visible_seq() == old(self).visible_seq(),
                self.starting_position == old(self).starting_position,
                self.map_representation.tiles_index@ == old(self).map_representation.tiles_index@,
                self.blocked@.len() == old(self).blocked@.len(),
                self.tile_seq().len() <= self.blocked@.len(),
                index <= self.tile_seq().len(),
                forall|i: int| 0 <= i < index ==> #[trigger] self.blocked@[i] == !self.tile_seq()[i].walkable,
                forall|i: int| index <= i < self.blocked@.len() ==> #[trigger] self.blocked@[i] == old(self).blocked@[i],
            decreases self.tile_seq().len() - index,
        {
            let walkable = self.tiles[index].walkable;
            self.blocked.set(index, walkable == false);
            index = index + 1;
        }
    }

    pub fn index(&self, x: i32, y: i32) -> (index: usize)
        requires
            index_fits(self.width, x, y),
        ensures
            index == (self.width * y + x) as usize,
    {
        index_with_width(self.width, x, y)
    }

    pub fn index_from_position(&self, position: &Position) -> (index: usize)
        requires
            index_fits(self.width, position.x, position.y),
        ensures
            index == (self.width * position.y + position.x) as usize,
    {
        index_with_width(self.width, position.x, position.y)
    }

    fn in_bounds(&self, x: i32, y: i32) -> (inside: bool)
        ensures
            inside == in_grid(self.width as int, self.height as int, x as int, y as int),
    {
        !(x < 0 || y < 0 || x >= self.width || y >= self.height)
    }

    pub fn dimensions(&self) -> (dimensions: (i32, i32))
        ensures
            dimensions == (self.width, self.height),
    {
        (self.width, self.height)
    }

    /// Whether light passes through `(x, y)`; nothing outside the map is
    /// transparent.
    pub fn is_transparent(&self, x: i32, y: i32) -> (transparent: bool)
        requires
            self.wf(),
        ensures
            transparent == (in_grid(self.width as int, self.height as int, x as int, y as int)
                && self.tile_at(x as int, y as int).transparent),
    {
        if self.in_bounds(x, y) {
            proof {
                lemma_flat_index_in_grid(self.width as int, self.height as int, x as int, y as int);
            }
            let index = self.index(x, y);
            self.tiles[index].transparent
        } else {
            false
        }
    }

    /// Whether something can step on `(x, y)`: inside the map and not blocked.
    pub fn is_walkable(&self, x: i32, y: i32) -> (walkable: bool)
        requires
            self.wf(),
        ensures
            walkable == (in_grid(self.width as int, self.height as int, x as int, y as int)
                && !self.blocked@[flat_index(self.width as int, x as int, y as int)]),
    {
        if self.in_bounds(x, y) {
            proof {
                lemma_flat_index_in_grid(self.width as int, self.height as int, x as int, y as int);
            }
            let index = self.index(x, y);
            !self.blocked[index]
        } else {
            false
        }
    }
}


pub const ROOM_MAX_SIZE: i32 = 10;

pub const ROOM_MIN_SIZE: i32 = 6;

/// The seed of the generator that lays out every dungeon.
pub const DUNGEON_SEED: u64 = 42;

/// A rectangle of the map; its walls are its border cells.
#[derive(Debug)]
pub struct Room {
    pub left: i32,
    pub top: i32,
    pub right: i32,
    pub bottom: i32,
}

/// Two rooms overlap when their rectangles, borders included, share a cell.
pub open spec fn rooms_overlap(a: Room, b: Room) -> bool {
    a.left <= b.right && a.right >= b.left && a.top <= b.bottom && a.bottom >= b.top
}

/// Integer halving that rounds toward zero, as `i32` division by two does.
pub open spec fn half_toward_zero(v: int) -> int {
    if v >= 0 {
        v / 2
    } else {
        -((-v) / 2)
    }
}

pub open spec fn room_center(room: Room) -> (int, int) {
    (half_toward_zero(room.left + room.right), half_toward_zero(room.top + room.bottom))
}

/// The cells strictly inside the room's border, which become floor.
pub open spec fn room_interior_contains(room: Room, x: int, y: int) -> bool {
    room.left < x < room.right && room.top < y < room.bottom
}

/// `v` lies between `a` and `b`, whichever is smaller.
pub open spec fn span_contains(a: int, b: int, v: int) -> bool {
    (a <= v <= b) || (b <= v <= a)
}

/// The L-shaped tunnel from the centre of `prev` to the centre of `next`:
/// along the row of `prev`'s centre then the column of `next`'s, or along the
/// column of `prev`'s centre then the row of `next`'s.
pub open spec fn corridor_contains(prev: Room, next: Room, horizontal_first: bool, x: int, y: int) -> bool {
    let (px, py) = room_center(prev);
    let (nx, ny) = room_center(next);
    if horizontal_first {
        (y == py && span_contains(px, nx, x)) || (x == nx && span_contains(py, ny, y))
    } else {
        (x == px && span_contains(py, ny, y)) || (y == ny && span_contains(px, nx, x))
    }
}

/// Cell `(x, y)` is floor because of room `k`: inside it, or on the tunnel
/// that joins it to room `k - 1`.
pub open spec fn carved_by(rooms: Seq<Room>, horizontal_first: Seq<bool>, k: int, x: int, y: int) -> bool {
    room_interior_contains(rooms[k], x, y) || (k > 0 && corridor_contains(
        rooms[k - 1],
        rooms[k],
        horizontal_first[k],
        x,
        y,
    ))
}

pub open spec fn carved_before(rooms: Seq<Room>, horizontal_first: Seq<bool>, n: int, x: int, y: int) -> bool {
    exists|k: int| 0 <= k < n && #[trigger] carved_by(rooms, horizontal_first, k, x, y)
}

/// Every tile of the map is floor exactly where a room or tunnel was carved.
pub open spec fn carved_exactly(map: DungeonMap, rooms: Seq<Room>, horizontal_first: Seq<bool>, n: int) -> bool {
    forall|x: int, y: int|
        in_grid(map.width as int, map.height as int, x, y) ==> #[trigger] map.tile_at(x, y) == if carved_before(
            rooms,
            horizontal_first,
            n,
            x,
            y,
        ) {
            floor_tile()
        } else {
            wall_tile()
        }
}

/// A room as the generator places it: between the minimum and maximum size,
/// wholly inside the map.
pub open spec fn room_fits(room: Room, width: int, height: int) -> bool {
    &&& 0 <= room.left
    &&& ROOM_MIN_SIZE <= room.right - room.left <= ROOM_MAX_SIZE
    &&& room.right < width
    &&& 0 <= room.top
    &&& ROOM_MIN_SIZE <= room.bottom - room.top <= ROOM_MAX_SIZE
    &&& room.bottom < height
}

/// A cell's flat index gives back the cell: `position_with_index` undoes
/// `index_with_width` on every cell of a grid.
pub proof fn law_index_round_trip(width: int, height: int, x: int, y: int)
    requires
        in_grid(width, height, x, y),
    ensures
        flat_index(width, x, y) % width == x,
        flat_index(width, x, y) / width == y,
        0 <= flat_index(width, x, y) < width * height,
{
    lemma_flat_index_in_grid(width, height, x, y);
}

/// A flat index gives back itself through its cell: `index_with_width`
/// undoes `position_with_index` on every index that is not negative, and the
/// cell's column lies within the width.
pub proof fn law_cell_round_trip(width: int, index: int)
    requires
        0 < width,
        0 <= index,
    ensures
        0 <= index % width < width,
        0 <= index / width,
        flat_index(width, index % width, index / width) == index,
{
    lemma_fundamental_div_mod(index, width);
    assert(0 <= index / width) by (nonlinear_arith)
        requires
            0 < width,
            0 <= index,
            index == width * (index / width) + index % width,
            0 <= index % width < width,
    ;
}

/// A dungeon is fixed by its size: two maps of one size, each carved from the
/// rooms and tunnels that this size draws from the fixed seed and each
/// blocking exactly its unwalkable cells, have the same tiles and the same
/// blocked cells.
pub proof fn law_dungeon_fixed_by_size(first: DungeonMap, second: DungeonMap)
    requires
        first.wf(),
        second.wf(),
        first.width == second.width,
        first.height == second.height,
        carved_exactly(
            first,
            dungeon_draws(first.width as int, first.height as int).1,
            dungeon_draws(first.width as int, first.height as int).2,
            dungeon_draws(first.width as int, first.height as int).1.len() as int,
        ),
        carved_exactly(
            second,
            dungeon_draws(second.width as int, second.height as int).1,
            dungeon_draws(second.width as int, second.height as int).2,
            dungeon_draws(second.width as int, second.height as int).1.len() as int,
        ),
        forall|i: int| 0 <= i < first.cell_count() ==> #[trigger] first.blocked@[i] == !first.tile_seq()[i].walkable,
        forall|i: int| 0 <= i < second.cell_count() ==> #[trigger] second.blocked@[i] == !second.tile_seq()[i].walkable,
    ensures
        first.tile_seq() == second.tile_seq(),
        first.blocked@ == second.blocked@,
{
    let w = first.width as int;
    let h = first.height as int;
    assert forall|i: int| 0 <= i < first.cell_count() implies #[trigger] first.tile_seq()[i]
        == second.tile_seq()[i] by {
        lemma_cell_of_index(w, h, i);
        assert(first.tile_at(i % w, i / w) == second.tile_at(i % w, i / w));
    }
    assert(first.tile_seq() =~= second.tile_seq());
    assert forall|i: int| 0 <= i < first.cell_count() implies #[trigger] first.blocked@[i] == second.blocked@[i] by {
        assert(first.tile_seq()[i] == second.tile_seq()[i]);
    }
    assert(first.blocked@ =~= second.blocked@);
}

/// Cell `(x, y)` belongs to `room`, its border included.
pub open spec fn room_has_cell(room: Room, x: int, y: int) -> bool {
    room.left <= x <= room.right && room.top <= y <= room.bottom
}

/// Two rooms overlap exactly when their rectangles, borders included, share
/// a cell; so rooms apart along either axis never overlap.
pub proof fn law_overlap_is_a_shared_cell(a: Room, b: Room)
    requires
        a.left <= a.right,
        a.top <= a.bottom,
        b.left <= b.right,
        b.top <= b.bottom,
    ensures
        rooms_overlap(a, b) <==> exists|x: int, y: int|
            #[trigger] room_has_cell(a, x, y) && #[trigger] room_has_cell(b, x, y),
        (a.bottom < b.top || b.bottom < a.top || a.right < b.left || b.right < a.left) ==> !rooms_overlap(a, b),
{
    if rooms_overlap(a, b) {
        let x: int = if a.left <= b.left { b.left as int } else { a.left as int };
        let y: int = if a.top <= b.top { b.top as int } else { a.top as int };
        assert(room_has_cell(a, x, y) && room_has_cell(b, x, y));
    }
}

/// The tile-set index of the wall sprite chosen for each neighbour bitmask
/// (north-west, north, north-east, west, east, south-west, south, south-east,
/// most significant bit first): the twenty-one shapes the tile set draws,
/// and the isolated-wall sprite for every other bitmask.
pub proof fn law_wall_sprite_table(bitmask: u32)
    ensures
        sprite_index_for_bitmask(0b00000000) == 1,
        sprite_index_for_bitmask(0b11111000) == 10,
        sprite_index_for_bitmask(0b11111111) == 7,
        sprite_index_for_bitmask(0b00011111) == 3,
        sprite_index_for_bitmask(0b00010110) == 4,
        sprite_index_for_bitmask(0b00001011) == 2,
        sprite_index_for_bitmask(0b01101000) == 9,
        sprite_index_for_bitmask(0b11010000) == 11,
        sprite_index_for_bitmask(0b01101011) == 6,
        sprite_index_for_bitmask(0b11010110) == 8,
        sprite_index_for_bitmask(0b00001000) == 17,
        sprite_index_for_bitmask(0b00000010) == 19,
        sprite_index_for_bitmask(0b00010000) == 18,
        sprite_index_for_bitmask(0b01000000) == 21,
        sprite_index_for_bitmask(0b01011010) == 22,
        sprite_index_for_bitmask(0b01000010) == 20,
        sprite_index_for_bitmask(0b00011000) == 16,
        sprite_index_for_bitmask(0b11111110) == 12,
        sprite_index_for_bitmask(0b11111011) == 13,
        sprite_index_for_bitmask(0b11011111) == 15,
        sprite_index_for_bitmask(0b01111111) == 14,
        (bitmask != 0b00000000 && bitmask != 0b11111000 && bitmask != 0b11111111 && bitmask != 0b00011111
            && bitmask != 0b00010110 && bitmask != 0b00001011 && bitmask != 0b01101000 && bitmask != 0b11010000
            && bitmask != 0b01101011 && bitmask != 0b11010110 && bitmask != 0b00001000 && bitmask != 0b00000010
            && bitmask != 0b00010000 && bitmask != 0b01000000 && bitmask != 0b01011010 && bitmask != 0b01000010
            && bitmask != 0b00011000 && bitmask != 0b11111110 && bitmask != 0b11111011 && bitmask != 0b11011111
            && bitmask != 0b01111111) ==> sprite_index_for_bitmask(bitmask) == 1,
{
}

/// Overlap does not depend on which room is asked about the other.
pub proof fn law_overlap_symmetric(a: Room, b: Room)
    ensures
        rooms_overlap(a, b) == rooms_overlap(b, a),
{
}

proof fn lemma_center_in_room(room: Room, width: int, height: int)
    requires
        room_fits(room, width, height),
    ensures
        room_interior_contains(room, room_center(room).0, room_center(room).1),
        in_grid(width, height, room_center(room).0, room_center(room).1),
{
}

impl Room {
    pub fn new(x: i32, y: i32, width: i32, height: i32) -> (room: Self)
        requires
            i32::MIN <= x + width <= i32::MAX,
            i32::MIN <= y + height <= i32::MAX,
        ensures
            room.left == x,
            room.top == y,
            room.right == x + width,
            room.bottom == y + height,
    {
        Self { left: x, top: y, right: x + width, bottom: y + height }
    }

    pub fn overlaps(&self, other: &Room) -> (overlap: bool)
        ensures
            overlap == rooms_overlap(*self, *other),
    {
        self.left <= other.right && self.right >= other.left && self.top <= other.bottom
            && self.bottom >= other.top
    }

    pub fn center(&self) -> (center: (i32, i32))
        requires
            i32::MIN <= self.left + self.right <= i32::MAX,
            i32::MIN <= self.top + self.bottom <= i32::MAX,
        ensures
            center.0 == room_center(*self).0,
            center.1 == room_center(*self).1,
    {
        ((self.left + self.right) / 2, (self.top + self.bottom) / 2)
    }
}

/// Whether `new_room` overlaps any of `rooms`.
fn overlaps_any(rooms: &Vec<Room>, new_room: &Room) -> (overlap: bool)
    ensures
        overlap == exists|k: int| 0 <= k < rooms@.len() && rooms_overlap(*new_room, #[trigger] rooms@[k]),
{
    let mut k: usize = 0;
    while k < rooms.len()
        invariant
            k <= rooms@.len(),
            forall|j: int| 0 <= j < k ==> !rooms_overlap(*new_room, #[trigger] rooms@[j]),
        decreases rooms@.len() - k,
    {
        if new_room.overlaps(&rooms[k]) {
            return true;
        }
        k = k + 1;
    }
    false
}

/// Turns every cell inside `room`'s border into floor.
fn apply_room(room: &Room, map: &mut DungeonMap)
    requires
        old(map).wf(),
        room_fits(*room, old(map).width as int, old(map).height as int),
    ensures
        final(map).wf(),
        final(map).width == old(map).width,
        final(map).height == old(map).height,
        final(map).revealed_seq() == old(map).revealed_seq(),
        final(map).visible_seq() == old(map).visible_seq(),
        final(map).blocked@ == old(map).blocked@,
        final(map).starting_position == old(map).starting_position,
        final(map).map_representation.tiles_index@ == old(map).map_representation.tiles_index@,
        forall|x: int, y: int|
            in_grid(old(map).width as int, old(map).height as int, x, y) ==> #[trigger] final(map).tile_at(x, y)
                == if room_interior_contains(*room, x, y) {
                floor_tile()
            } else {
                old(map).tile_at(x, y)
            },
{
    let ghost w = map.width as int;
    let ghost h = map.height as int;
    let mut y = room.top + 1;
    while y <= room.bottom - 1
        invariant
            map.wf(),
            map.width == old(map).width,
            map.height == old(map).height,
            map.revealed_seq() == old(map).revealed_seq(),
            map.visible_seq() == old(map).visible_seq(),
            map.blocked@ == old(map).blocked@,
            map.starting_position == old(map).starting_position,
            map.map_representation.tiles_index@ == old(map).map_representation.tiles_index@,
            w == map.width,
            h == map.height,
            room_fits(*room, w, h),
            room.top + 1 <= y <= room.bottom,
            forall|xx: int, yy: int|
                in_grid(w, h, xx, yy) ==> #[trigger] map.tile_at(xx, yy) == if room.left < xx < room.right
                    && room.top < yy < y {
                    floor_tile()
                } else {
                    old(map).tile_at(xx, yy)
                },
        decreases room.bottom - y,
    {
        let mut x = room.left + 1;
        while x <= room.right - 1
            invariant
                map.wf(),
                map.width == old(map).width,
                map.height == old(map).height,
                map.revealed_seq() == old(map).revealed_seq(),
                map.visible_seq() == old(map).visible_seq(),
                map.blocked@ == old(map).blocked@,
                map.starting_position == old(map).starting_position,
                map.map_representation.tiles_index@ == old(map).map_representation.tiles_index@,
                w == map.width,
                h == map.height,
                room_fits(*room, w, h),
                room.top + 1 <= y <= room.bottom - 1,
                room.left + 1 <= x <= room.right,
                forall|xx: int, yy: int|
                    in_grid(w, h, xx, yy) ==> #[trigger] map.tile_at(xx, yy) == if (room.left < xx < room.right
                        && room.top < yy < y) || (yy == y && room.left < xx < x) {
                        floor_tile()
                    } else {
                        old(map).tile_at(xx, yy)
                    },
            decreases room.right - x,
        {
            proof {
                lemma_flat_index_in_grid(w, h, x as int, y as int);
            }
            let index = map.index(x, y);
            let ghost prev = *map;
            map.tiles.set(index, Tile::floor());
            proof {
                assert forall|xx: int, yy: int| in_grid(w, h, xx, yy) implies #[trigger] map.tile_at(xx, yy)
                    == if (room.left < xx < room.right && room.top < yy < y) || (yy == y && room.left < xx < x + 1) {
                    floor_tile()
                } else {
                    old(map).tile_at(xx, yy)
                } by {
                    lemma_flat_index_in_grid(w, h, xx, yy);
                    assert(prev.tile_at(xx, yy) == prev.tile_seq()[flat_index(w, xx, yy)]);
                    if flat_index(w, xx, yy) == flat_index(w, x as int, y as int) {
                        lemma_flat_index_injective(w, h, xx, yy, x as int, y as int);
                    }
                }
            }
            x = x + 1;
        }
        y = y + 1;
    }
}

/// Turns into floor the cells of row `y` between columns `x1` and `x2`.
fn create_horizontal_tunnel(x1: i32, x2: i32, y: i32, map: &mut DungeonMap)
    requires
        old(map).wf(),
        in_grid(old(map).width as int, old(map).height as int, x1 as int, y as int),
        in_grid(old(map).width as int, old(map).height as int, x2 as int, y as int),
    ensures
        final(map).wf(),
        final(map).width == old(map).width,
        final(map).height == old(map).height,
        final(map).revealed_seq() == old(map).revealed_seq(),
        final(map).visible_seq() == old(map).visible_seq(),
        final(map).blocked@ == old(map).blocked@,
        final(map).starting_position == old(map).starting_position,
        final(map).map_representation.tiles_index@ == old(map).map_representation.tiles_index@,
        forall|xx: int, yy: int|
            in_grid(old(map).width as int, old(map).height as int, xx, yy) ==> #[trigger] final(map).tile_at(xx, yy)
                == if yy == y && span_contains(x1 as int, x2 as int, xx) {
                floor_tile()
            } else {
                old(map).tile_at(xx, yy)
            },
{
    let ghost w = map.width as int;
    let ghost h = map.height as int;
    let low = if x1 < x2 { x1 } else { x2 };
    let high = if x1 < x2 { x2 } else { x1 };
    let mut x = low;
    while x < high + 1
        invariant
            map.wf(),
            map.width == old(map).width,
            map.height == old(map).height,
            map.revealed_seq() == old(map).revealed_seq(),
            map.visible_seq() == old(map).visible_seq(),
            map.blocked@ == old(map).blocked@,
            map.starting_position == old(map).starting_position,
            map.map_representation.tiles_index@ == old(map).map_representation.tiles_index@,
            w == map.width,
            h == map.height,
            0 <= low <= x <= high + 1,
            high < w,
            0 <= y < h,
            low == if x1 < x2 { x1 } else { x2 },
            high == if x1 < x2 { x2 } else { x1 },
            forall|xx: int, yy: int|
                in_grid(w, h, xx, yy) ==> #[trigger] map.tile_at(xx, yy) == if yy == y && low <= xx < x {
                    floor_tile()
                } else {
                    old(map).tile_at(xx, yy)
                },
        decreases high + 1 - x,
    {
        proof {
            lemma_flat_index_in_grid(w, h, x as int, y as int);
            assert(y as int * w == w * y as int) by (nonlinear_arith);
        }
        let ghost prev = *map;
        map.tiles.set(x as usize + y as usize * map.width as usize, Tile::floor());
        proof {
            assert forall|xx: int, yy: int| in_grid(w, h, xx, yy) implies #[trigger] map.tile_at(xx, yy)
                == if yy == y && low <= xx < x + 1 {
                floor_tile()
            } else {
                old(map).tile_at(xx, yy)
            } by {
                lemma_flat_index_in_grid(w, h, xx, yy);
                assert(prev.tile_at(xx, yy) == prev.tile_seq()[flat_index(w, xx, yy)]);
                if flat_index(w, xx, yy) == flat_index(w, x as int, y as int) {
                    lemma_flat_index_injective(w, h, xx, yy, x as int, y as int);
                }
            }
        }
        x = x + 1;
    }
}

/// Turns into floor the cells of column `x` between rows `y1` and `y2`.
fn create_vertical_tunnel(y1: i32, y2: i32, x: i32, map: &mut DungeonMap)
    requires
        old(map).wf(),
        in_grid(old(map).width as int, old(map).height as int, x as int, y1 as int),
        in_grid(old(map).width as int, old(map).height as int, x as int, y2 as int),
    ensures
        final(map).wf(),
        final(map).width == old(map).width,
        final(map).height == old(map).height,
        final(map).revealed_seq() == old(map).revealed_seq(),
        final(map).visible_seq() == old(map).visible_seq(),
        final(map).blocked@ == old(map).blocked@,
        final(map).starting_position == old(map).starting_position,
        final(map).map_representation.tiles_index@ == old(map).map_representation.tiles_index@,
        forall|xx: int, yy: int|
            in_grid(old(map).width as int, old(map).height as int, xx, yy) ==> #[trigger] final(map).tile_at(xx, yy)
                == if xx == x && span_contains(y1 as int, y2 as int, yy) {
                floor_tile()
            } else {
                old(map).tile_at(xx, yy)
            },
{
    let ghost w = map.width as int;
    let ghost h = map.height as int;
    let low = if y1 < y2 { y1 } else { y2 };
    let high = if y1 < y2 { y2 } else { y1 };
    let mut y = low;
    while y < high + 1
        invariant
            map.wf(),
            map.width == old(map).width,
            map.height == old(map).height,
            map.revealed_seq() == old(map).revealed_seq(),
            map.visible_seq() == old(map).visible_seq(),
            map.blocked@ == old(map).blocked@,
            map.starting_position == old(map).starting_position,
            map.map_representation.tiles_index@ == old(map).map_representation.tiles_index@,
            w == map.width,
            h == map.height,
            0 <= low <= y <= high + 1,
            high < h,
            0 <= x < w,
            low == if y1 < y2 { y1 } else { y2 },
            high == if y1 < y2 { y2 } else { y1 },
            forall|xx: int, yy: int|
                in_grid(w, h, xx, yy) ==> #[trigger] map.tile_at(xx, yy) == if xx == x && low <= yy < y {
                    floor_tile()
                } else {
                    old(map).tile_at(xx, yy)
                },
        decreases high + 1 - y,
    {
        proof {
            lemma_flat_index_in_grid(w, h, x as int, y as int);
            assert(y as int * w == w * y as int) by (nonlinear_arith);
        }
        let ghost prev = *map;
        map.tiles.set(x as usize + y as usize * map.width as usize, Tile::floor());
        proof {
            assert forall|xx: int, yy: int| in_grid(w, h, xx, yy) implies #[trigger] map.tile_at(xx, yy)
                == if xx == x && low <= yy < y + 1 {
                floor_tile()
            } else {
                old(map).tile_at(xx, yy)
            } by {
                lemma_flat_index_in_grid(w, h, xx, yy);
                assert(prev.tile_at(xx, yy) == prev.tile_seq()[flat_index(w, xx, yy)]);
                if flat_index(w, xx, yy) == flat_index(w, x as int, y as int) {
                    lemma_flat_index_injective(w, h, xx, yy, x as int, y as int);
                }
            }
        }
        y = y + 1;
    }
}


proof fn lemma_carved_step(rooms: Seq<Room>, choices: Seq<bool>, b: bool, k: int, x: int, y: int)
    requires
        choices.len() == k,
        0 <= k < rooms.len(),
    ensures
        carved_before(rooms, choices.push(b), k + 1, x, y) == (carved_before(rooms, choices, k, x, y)
            || carved_by(rooms, choices.push(b), k, x, y)),
{
    let extended = choices.push(b);
    if carved_before(rooms, choices, k, x, y) {
        let j = choose|j: int| 0 <= j < k && #[trigger] carved_by(rooms, choices, j, x, y);
        assert(extended[j] == choices[j]);
        if j > 0 {
            assert(extended[j] == choices[j]);
        }
        assert(carved_by(rooms, extended, j, x, y));
    }
    if carved_before(rooms, extended, k + 1, x, y) {
        let j = choose|j: int| 0 <= j < k + 1 && #[trigger] carved_by(rooms, extended, j, x, y);
        if j < k {
            assert(extended[j] == choices[j]);
            assert(carved_by(rooms, choices, j, x, y));
        }
    }
    if carved_by(rooms, extended, k, x, y) {
        assert(0 <= k < k + 1);
    }
}

/// In a dungeon carved from `rooms`, every room's inside is floor, and so is
/// every cell of the tunnel from the previous room's centre to its own: each
/// room is joined to the one before it.
pub proof fn law_rooms_are_joined(
    map: DungeonMap,
    rooms: Seq<Room>,
    horizontal_first: Seq<bool>,
    k: int,
    x: int,
    y: int,
)
    requires
        horizontal_first.len() == rooms.len(),
        carved_exactly(map, rooms, horizontal_first, rooms.len() as int),
        0 <= k < rooms.len(),
        forall|j: int| 0 <= j < rooms.len() ==> room_fits(#[trigger] rooms[j], map.width as int, map.height as int),
        room_interior_contains(rooms[k], x, y) || (k > 0 && corridor_contains(
            rooms[k - 1],
            rooms[k],
            horizontal_first[k],
            x,
            y,
        )),
    ensures
        in_grid(map.width as int, map.height as int, x, y),
        map.tile_at(x, y) == floor_tile(),
{
    if k > 0 {
        lemma_center_in_room(rooms[k - 1], map.width as int, map.height as int);
    }
    lemma_center_in_room(rooms[k], map.width as int, map.height as int);
    assert(carved_by(rooms, horizontal_first, k, x, y));
    assert(carved_before(rooms, horizontal_first, rooms.len() as int, x, y));
}

/// Whether `room` overlaps one of `rooms`.
pub open spec fn overlaps_any_spec(rooms: Seq<Room>, room: Room) -> bool {
    exists|k: int| 0 <= k < rooms.len() && rooms_overlap(room, #[trigger] rooms[k])
}

/// The rooms kept from `candidates`, in order: each candidate that overlaps
/// none of those kept before it.
pub open spec fn kept_rooms(candidates: Seq<Room>) -> Seq<Room>
    decreases candidates.len(),
{
    if candidates.len() == 0 {
        Seq::empty()
    } else {
        let kept = kept_rooms(candidates.drop_last());
        if overlaps_any_spec(kept, candidates.last()) {
            kept
        } else {
            kept.push(candidates.last())
        }
    }
}

/// The first candidate is always kept, since nothing was kept before it.
proof fn lemma_first_room_kept(candidates: Seq<Room>)
    requires
        candidates.len() >= 1,
    ensures
        kept_rooms(candidates).len() >= 1,
        kept_rooms(candidates)[0] == candidates[0],
    decreases candidates.len(),
{
    if candidates.len() == 1 {
        assert(candidates.drop_last().len() == 0);
        assert(kept_rooms(candidates.drop_last()) =~= Seq::<Room>::empty());
        assert(!overlaps_any_spec(Seq::<Room>::empty(), candidates.last()));
    } else {
        lemma_first_room_kept(candidates.drop_last());
        assert(candidates.drop_last()[0] == candidates[0]);
    }
}

/// The candidate room drawn from generator state `rng` for a map `width` by
/// `height` cells, with the state left: its width, its height, then its left
/// and top sides, each drawn uniformly from its range.
pub open spec fn drawn_candidate(rng: StdRng, width: int, height: int) -> (Room, StdRng) {
    let (w, after_width) = drawn_i32_between(rng, ROOM_MIN_SIZE, ROOM_MAX_SIZE);
    let (h, after_height) = drawn_i32_between(after_width, ROOM_MIN_SIZE, ROOM_MAX_SIZE);
    let (x, after_x) = drawn_i32_between(after_height, 0, (width - w - 1) as i32);
    let (y, after_y) = drawn_i32_between(after_x, 0, (height - h - 1) as i32);
    (Room { left: x, top: y, right: (x + w) as i32, bottom: (y + h) as i32 }, after_y)
}

/// The first `count` candidate rooms drawn from generator state `rng`, in
/// order, with the state left.
pub open spec fn drawn_candidates(rng: StdRng, width: int, height: int, count: nat) -> (Seq<Room>, StdRng)
    decreases count,
{
    if count == 0 {
        (Seq::empty(), rng)
    } else {
        let (before, after) = drawn_candidates(rng, width, height, (count - 1) as nat);
        let (room, last) = drawn_candidate(after, width, height);
        (before.push(room), last)
    }
}

/// The tunnel orientations drawn from generator state `rng` for `count`
/// rooms, with the state left: the first room has no tunnel and draws
/// nothing (its entry is `true`), each later one draws whether its tunnel
/// runs horizontally first.
pub open spec fn drawn_turns(rng: StdRng, count: nat) -> (Seq<bool>, StdRng)
    decreases count,
{
    if count == 0 {
        (Seq::empty(), rng)
    } else if count == 1 {
        (seq![true], rng)
    } else {
        let (before, after) = drawn_turns(rng, (count - 1) as nat);
        let (turn, last) = drawn_bool(after);
        (before.push(turn), last)
    }
}

/// How many candidate rooms are drawn for `max_room` attempts.
pub open spec fn attempt_count(max_room: i32) -> nat {
    if max_room < 0 {
        0
    } else {
        max_room as nat
    }
}

proof fn lemma_drawn_candidates_len(rng: StdRng, width: int, height: int, count: nat)
    ensures
        drawn_candidates(rng, width, height, count).0.len() == count,
    decreases count,
{
    if count > 0 {
        lemma_drawn_candidates_len(rng, width, height, (count - 1) as nat);
    }
}

proof fn lemma_drawn_turns_len(rng: StdRng, count: nat)
    ensures
        drawn_turns(rng, count).0.len() == count,
    decreases count,
{
    if count > 1 {
        lemma_drawn_turns_len(rng, (count - 1) as nat);
    }
}

/// What the dungeon of a map `width` by `height` cells draws from the fixed
/// seed: its candidate rooms (one per hundred cells), the rooms kept of them,
/// the tunnel orientations of those, and the generator's state left.
pub open spec fn dungeon_draws(width: int, height: int) -> (Seq<Room>, Seq<Room>, Seq<bool>, StdRng) {
    let (candidates, after_rooms) = drawn_candidates(
        seeded_generator(DUNGEON_SEED),
        width,
        height,
        (width * height / 100) as nat,
    );
    let rooms = kept_rooms(candidates);
    let (turns, after_turns) = drawn_turns(after_rooms, rooms.len());
    (candidates, rooms, turns, after_turns)
}

/// Tries `max_room` times to place a room of random size and position, and
/// keeps each one that overlaps none kept before.
fn place_rooms(width: i32, height: i32, max_room: i32, rng: &mut StdRng) -> (rooms: Vec<Room>)
    requires
        1 <= width,
        1 <= height,
        max_room <= 0 || (width > ROOM_MAX_SIZE && height > ROOM_MAX_SIZE),
    ensures
        rooms@.len() <= if max_room < 0 { 0 } else { max_room as int },
        rooms@.len() > 0 ==> width > ROOM_MAX_SIZE && height > ROOM_MAX_SIZE,
        forall|k: int| 0 <= k < rooms@.len() ==> room_fits(#[trigger] rooms@[k], width as int, height as int),
        forall|i: int, j: int|
            0 <= i < j < rooms@.len() ==> !rooms_overlap(#[trigger] rooms@[j], #[trigger] rooms@[i]),
        rooms@ == kept_rooms(
            drawn_candidates(*old(rng), width as int, height as int, attempt_count(max_room)).0,
        ),
        *final(rng) == drawn_candidates(
            *old(rng),
            width as int,
            height as int,
            attempt_count(max_room),
        ).1,
        forall|k: int|
            0 <= k < drawn_candidates(*old(rng), width as int, height as int, attempt_count(max_room)).0.len()
                ==> room_fits(
                #[trigger] drawn_candidates(*old(rng), width as int, height as int, attempt_count(max_room)).0[k],
                width as int,
                height as int,
            ),
{
    let mut rooms: Vec<Room> = Vec::new();
    let mut attempt: i32 = 0;
    let ghost mut candidates: Seq<Room> = Seq::empty();
    while attempt < max_room
        invariant
            1 <= width,
            1 <= height,
            max_room > 0 ==> width > ROOM_MAX_SIZE && height > ROOM_MAX_SIZE,
            0 <= attempt,
            attempt <= max_room || attempt == 0,
            rooms@.len() <= attempt,
            forall|k: int| 0 <= k < rooms@.len() ==> room_fits(#[trigger] rooms@[k], width as int, height as int),
            forall|i: int, j: int|
                0 <= i < j < rooms@.len() ==> !rooms_overlap(#[trigger] rooms@[j], #[trigger] rooms@[i]),
            candidates.len() == attempt,
            forall|k: int| 0 <= k < candidates.len() ==> room_fits(#[trigger] candidates[k], width as int, height as int),
            rooms@ == kept_rooms(candidates),
            (candidates, *rng) == drawn_candidates(*old(rng), width as int, height as int, attempt as nat),
        decreases max_room - attempt,
    {
        let ghost start = *rng;
        let room_width = random_i32_between(rng, ROOM_MIN_SIZE, ROOM_MAX_SIZE);
        let room_height = random_i32_between(rng, ROOM_MIN_SIZE, ROOM_MAX_SIZE);
        let x = random_i32_below(rng, 0, width - room_width);
        let y = random_i32_below(rng, 0, height - room_height);
        let new_room = Room::new(x, y, room_width, room_height);
        let ghost drawn = candidates.push(new_room);
        proof {
            assert(drawn.drop_last() =~= candidates);
            assert(drawn.last() == new_room);
            assert((new_room, *rng) == drawn_candidate(start, width as int, height as int));
            assert((drawn, *rng) == drawn_candidates(*old(rng), width as int, height as int, (attempt + 1) as nat));
        }

        if !overlaps_any(&rooms, &new_room) {
            let ghost before = rooms@;
            rooms.push(new_room);
            proof {
                assert forall|i: int, j: int| 0 <= i < j < rooms@.len() implies !rooms_overlap(
                    #[trigger] rooms@[j],
                    #[trigger] rooms@[i],
                ) by {
                    if j < before.len() {
                        assert(rooms@[j] == before[j] && rooms@[i] == before[i]);
                    } else {
                        assert(rooms@[i] == before[i]);
                    }
                }
            }
        }
        proof {
            assert(rooms@ == kept_rooms(drawn));
            assert forall|k: int| 0 <= k < drawn.len() implies room_fits(
                #[trigger] drawn[k],
                width as int,
                height as int,
            ) by {
                if k < candidates.len() {
                    assert(drawn[k] == candidates[k]);
                }
            }
            candidates = drawn;
        }
        attempt = attempt + 1;
    }
    proof {
        assert(rooms@ == kept_rooms(candidates));
    }
    rooms
}

/// Carves every room into the all-wall `map`, joining each room after the
/// first to the one before it by an L-shaped tunnel whose orientation is drawn
/// at random; the first room's centre becomes the starting position. Gives
/// back the orientations drawn.
fn carve_rooms(map: &mut DungeonMap, rooms: &Vec<Room>, rng: &mut StdRng) -> (horizontal_first: Ghost<Seq<bool>>)
    requires
        old(map).wf(),
        forall|x: int, y: int|
            in_grid(old(map).width as int, old(map).height as int, x, y) ==> #[trigger] old(map).tile_at(x, y)
                == wall_tile(),
        old(map).starting_position == (Position { x: 0, y: 0 }),
        rooms@.len() > 0 ==> 2 * old(map).width <= i32::MAX && 2 * old(map).height <= i32::MAX,
        forall|k: int|
            0 <= k < rooms@.len() ==> room_fits(#[trigger] rooms@[k], old(map).width as int, old(map).height as int),
    ensures
        final(map).wf(),
        final(map).width == old(map).width,
        final(map).height == old(map).height,
        final(map).revealed_seq() == old(map).revealed_seq(),
        final(map).visible_seq() == old(map).visible_seq(),
        final(map).blocked@ == old(map).blocked@,
        final(map).map_representation.tiles_index@ == old(map).map_representation.tiles_index@,
        horizontal_first@.len() == rooms@.len(),
        (horizontal_first@, *final(rng)) == drawn_turns(*old(rng), rooms@.len()),
        carved_exactly(*final(map), rooms@, horizontal_first@, rooms@.len() as int),
        final(map).starting_position == if rooms@.len() > 0 {
            Position { x: room_center(rooms@[0]).0 as i32, y: room_center(rooms@[0]).1 as i32 }
        } else {
            Position { x: 0, y: 0 }
        },
{
    let ghost w = map.width as int;
    let ghost h = map.height as int;
    let ghost mut choices: Seq<bool> = Seq::empty();
    let mut index: usize = 0;
    while index < rooms.len()
        invariant
            map.wf(),
            map.width == old(map).width,
            map.height == old(map).height,
            map.revealed_seq() == old(map).revealed_seq(),
            map.visible_seq() == old(map).visible_seq(),
            map.blocked@ == old(map).blocked@,
            map.map_representation.tiles_index@ == old(map).map_representation.tiles_index@,
            w == map.width,
            h == map.height,
            forall|k: int| 0 <= k < rooms@.len() ==> room_fits(#[trigger] rooms@[k], w, h),
            rooms@.len() > 0 ==> 2 * w <= i32::MAX && 2 * h <= i32::MAX,
            index <= rooms@.len(),
            choices.len() == index,
            (choices, *rng) == drawn_turns(*old(rng), index as nat),
            carved_exactly(*map, rooms@, choices, index as int),
            map.starting_position == if index > 0 {
                Position { x: room_center(rooms@[0]).0 as i32, y: room_center(rooms@[0]).1 as i32 }
            } else {
                Position { x: 0, y: 0 }
            },
        decreases rooms@.len() - index,
    {
        let ghost before = *map;
        let ghost rng_before = *rng;
        let room = &rooms[index];
        assert(room_fits(rooms@[index as int], w, h));
        apply_room(room, map);
        let (new_x, new_y) = room.center();
        proof {
            lemma_center_in_room(*room, w, h);
        }
        let ghost mut b = true;
        if index == 0 {
            map.starting_position.x = new_x;
            map.starting_position.y = new_y;
        } else {
            let prev = &rooms[index - 1];
            assert(room_fits(rooms@[index - 1], w, h));
            let (prev_x, prev_y) = prev.center();
            proof {
                lemma_center_in_room(*prev, w, h);
            }
            let horizontal = random_bool(rng);
            proof {
                b = horizontal;
            }
            if horizontal {
                create_horizontal_tunnel(prev_x, new_x, prev_y, map);
                create_vertical_tunnel(prev_y, new_y, new_x, map);
            } else {
                create_vertical_tunnel(prev_y, new_y, prev_x, map);
                create_horizontal_tunnel(prev_x, new_x, new_y, map);
            }
        }
        proof {
            let extended = choices.push(b);
            if index == 0 {
                assert(extended =~= seq![true]);
            }
            assert((extended, *rng) == drawn_turns(*old(rng), (index + 1) as nat));
            assert forall|x: int, y: int| in_grid(w, h, x, y) implies #[trigger] map.tile_at(x, y)
                == if carved_before(rooms@, extended, index + 1, x, y) {
                floor_tile()
            } else {
                wall_tile()
            } by {
                lemma_carved_step(rooms@, choices, b, index as int, x, y);
                assert(before.tile_at(x, y) == if carved_before(rooms@, choices, index as int, x, y) {
                    floor_tile()
                } else {
                    wall_tile()
                });
                assert(extended[index as int] == b);
            }
            choices = extended;
        }
        index = index + 1;
    }
    Ghost(choices)
}

impl DungeonMap {
    /// Lays out a dungeon of `width` by `height` cells from a fixed seed: up to
    /// one room per hundred cells, none overlapping, each joined to the one
    /// placed before it by an L-shaped tunnel, with the player starting at the
    /// centre of the first room. Gives back the rooms (where monsters go) and
    /// the generator, for the draws that follow.
    pub fn dungeon(width: i32, height: i32) -> (generated: (DungeonMap, Vec<Room>, StdRng))
        requires
            1 <= width,
            1 <= height,
            width * height <= i32::MAX,
            width * height < 100 || (width > ROOM_MAX_SIZE && height > ROOM_MAX_SIZE),
        ensures
            generated.0.wf(),
            generated.0.width == width,
            generated.0.height == height,
            generated.1@.len() <= width * height / 100,
            generated.1@ == dungeon_draws(width as int, height as int).1,
            generated.2 == dungeon_draws(width as int, height as int).3,
            dungeon_draws(width as int, height as int).0.len() == width * height / 100,
            forall|k: int|
                0 <= k < dungeon_draws(width as int, height as int).0.len() ==> room_fits(
                    #[trigger] dungeon_draws(width as int, height as int).0[k],
                    width as int,
                    height as int,
                ),
            width * height >= 100 ==> generated.1@.len() >= 1,
            forall|k: int|
                0 <= k < generated.1@.len() ==> room_fits(#[trigger] generated.1@[k], width as int, height as int),
            forall|i: int, j: int|
                0 <= i < j < generated.1@.len() ==> !rooms_overlap(
                    #[trigger] generated.1@[j],
                    #[trigger] generated.1@[i],
                ),
            dungeon_draws(width as int, height as int).2.len() == generated.1@.len(),
            carved_exactly(
                generated.0,
                dungeon_draws(width as int, height as int).1,
                dungeon_draws(width as int, height as int).2,
                generated.1@.len() as int,
            ),
            generated.0.starting_position == if generated.1@.len() > 0 {
                Position {
                    x: room_center(generated.1@[0]).0 as i32,
                    y: room_center(generated.1@[0]).1 as i32,
                }
            } else {
                Position { x: 0, y: 0 }
            },
            generated.1@.len() > 0 ==> generated.0.tile_at(
                generated.0.starting_position.x as int,
                generated.0.starting_position.y as int,
            ) == floor_tile(),
            forall|i: int| 0 <= i < generated.0.cell_count() ==> !#[trigger] generated.0.revealed_seq()[i],
            forall|i: int| 0 <= i < generated.0.cell_count() ==> !#[trigger] generated.0.visible_seq()[i],
            generated.0.sight_consistent(),
            forall|i: int|
                0 <= i < generated.0.cell_count() ==> #[trigger] generated.0.blocked@[i]
                    == !generated.0.tile_seq()[i].walkable,
            generated.0.map_representation.tiles_index@.len() == generated.0.cell_count(),
            forall|i: int|
                0 <= i < generated.0.cell_count() ==> #[trigger] generated.0.map_representation.tiles_index@[i]
                    == tile_sprite_spec(
                    generated.0.tile_seq(),
                    width as int,
                    height as int,
                    i % width as int,
                    i / width as int,
                ),
    {
        let mut map = DungeonMap::walled(width, height);
        proof {
            assert forall|x: int, y: int| in_grid(width as int, height as int, x, y) implies #[trigger] map.tile_at(x, y)
                == wall_tile() by {
                lemma_flat_index_in_grid(width as int, height as int, x, y);
            }
        }
        let max_room = (width * height) / 100;
        let mut rng = seeded_rng(DUNGEON_SEED);
        let rooms = place_rooms(width, height, max_room, &mut rng);
        proof {
            let candidates = dungeon_draws(width as int, height as int).0;
            assert(0 <= width * height) by (nonlinear_arith)
                requires
                    1 <= width,
                    1 <= height,
            ;
            lemma_drawn_candidates_len(seeded_generator(DUNGEON_SEED), width as int, height as int, max_room as nat);
            assert(candidates == drawn_candidates(
                seeded_generator(DUNGEON_SEED),
                width as int,
                height as int,
                attempt_count(max_room),
            ).0);
            if max_room >= 1 {
                lemma_first_room_kept(candidates);
            }
        }
        proof {
            if rooms@.len() > 0 {
                assert(2 * width <= i32::MAX && 2 * height <= i32::MAX) by (nonlinear_arith)
                    requires
                        width > 10,
                        height > 10,
                        width * height <= i32::MAX,
                ;
            }
        }
        let horizontal_first = carve_rooms(&mut map, &rooms, &mut rng);
        proof {
            lemma_drawn_turns_len(drawn_candidates(seeded_generator(DUNGEON_SEED), width as int, height as int, max_room as nat).1, rooms@.len());
        }
        let ghost carved = map;
        proof {
            lemma_full_grid_has_wall_neighbours(map.tiles@, width as int, height as int);
        }
        map.map_representation = MapRepresentation::new(width, height, map.tiles.as_slice());
        map.reset_blocked();
        proof {
            assert forall|x: int, y: int| in_grid(width as int, height as int, x, y) implies #[trigger] map.tile_at(x, y)
                == if carved_before(rooms@, horizontal_first@, rooms@.len() as int, x, y) {
                floor_tile()
            } else {
                wall_tile()
            } by {
                assert(carved.tile_at(x, y) == map.tile_at(x, y));
            }
            assert(carved_exactly(map, rooms@, horizontal_first@, rooms@.len() as int));
            assert(horizontal_first@.len() == rooms@.len());
        }
        proof {
            if rooms@.len() > 0 {
                lemma_center_in_room(rooms@[0], width as int, height as int);
                let (cx, cy) = room_center(rooms@[0]);
                assert(carved_by(rooms@, horizontal_first@, 0, cx, cy));
                assert(map.tile_at(cx, cy) == floor_tile());
            }
        }
        let generated = (map, rooms, rng);
        proof {
            assert(carved_exactly(generated.0, generated.1@, horizontal_first@, generated.1@.len() as int));
        }
        generated
    }
}

} // verus!
