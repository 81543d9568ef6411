//! The snake game: a snake crossing a grass board, growing by one segment for
//! each piece of food it eats, and losing when it leaves the board or bites
//! itself.

use crate::random::thread_random_i32_below;
use crate::random::thread_random_usize_below;
use crate::random::thread_rng;
use crate::timing::Stepper;
use std::collections::VecDeque;
use vstd::prelude::*;
use vstd::set_lib::lemma_int_range;
use vstd::set_lib::lemma_len_subset;
use vstd::set_lib::set_int_range;

verus! {

/// Board width, in cells.
pub const WIDTH: u8 = 30;

/// Board height, in cells.
pub const HEIGHT: u8 = 20;

/// Time between two moves of the snake, in nanoseconds.
pub const MOVE_STEP_NANOS: u128 = 200_000_000;

/// The keys the snake game reacts to.
#[derive(Clone, Copy, Debug, PartialEq, Eq, Structural)]
pub enum Input {
    Up,
    Right,
    Down,
    Left,
    Space,
}

#[derive(Clone, Copy, Debug, PartialEq, Eq, Structural)]
pub enum Direction {
    Up,
    Right,
    Down,
    Left,
}

#[derive(Clone, Copy, Debug, PartialEq, Eq, Structural)]
pub struct Position {
    pub x: i32,
    pub y: i32,
}

/// The cell one step from `(x, y)` in `direction`; up is toward smaller `y`.
pub open spec fn moved_spec(p: Position, direction: Direction) -> (int, int) {
    match direction {
        Direction::Up => (p.x as int, p.y - 1),
        Direction::Right => (p.x + 1, p.y as int),
        Direction::Down => (p.x as int, p.y + 1),
        Direction::Left => (p.x - 1, p.y as int),
    }
}

/// `p` can move one step in `direction` without overflow.
pub open spec fn can_move(p: Position, direction: Direction) -> bool {
    let (x, y) = moved_spec(p, direction);
    i32::MIN <= x <= i32::MAX && i32::MIN <= y <= i32::MAX
}

/// The direction a snake heading in `current` takes when asked for
/// `requested`: any turn but a reversal.
pub open spec fn turned(current: Direction, requested: Option<Direction>) -> Direction {
    match requested {
        Some(d) => if can_turn(current, d) {
            d
        } else {
            current
        },
        None => current,
    }
}

impl Position {
    pub fn new(x: i32, y: i32) -> (position: Self)
        ensures
            position == (Position { x, y }),
    {
        Self { x, y }
    }

    pub fn moved(&self, direction: Direction) -> (position: Self)
        requires
            can_move(*self, direction),
        ensures
            position.x == moved_spec(*self, direction).0,
            position.y == moved_spec(*self, direction).1,
    {
        let (x, y) = match direction {
            Direction::Up => (self.x, self.y - 1),
            Direction::Right => (self.x + 1, self.y),
            Direction::Down => (self.x, self.y + 1),
            Direction::Left => (self.x - 1, self.y),
        };
        Position { x, y }
    }
}

#[derive(Clone, Copy, Debug, PartialEq, Eq, Structural)]
pub struct Segment {
    pub position: Position,
}

impl Segment {
    pub fn new(x: i32, y: i32) -> (segment: Self)
        ensures
            segment.position == (Position { x, y }),
    {
        Self { position: Position::new(x, y) }
    }

    pub fn moved(&self, direction: Direction) -> (segment: Self)
        requires
            can_move(self.position, direction),
        ensures
            segment.position.x == moved_spec(self.position, direction).0,
            segment.position.y == moved_spec(self.position, direction).1,
    {
        Self { position: self.position.moved(direction) }
    }
}

/// A direction may replace another unless it turns the snake back on itself.
pub open spec fn can_turn(current: Direction, next: Direction) -> bool {
    !(current == Direction::Up && next == Direction::Down) && !(current == Direction::Down && next
        == Direction::Up) && !(current == Direction::Left && next == Direction::Right) && !(current
        == Direction::Right && next == Direction::Left)
}

/// A turn never sends the snake straight back the way it came.
pub proof fn law_no_reversal(current: Direction, requested: Option<Direction>)
    ensures
        can_turn(current, turned(current, requested)),
{
}

/// The direction straight back from `direction`.
pub open spec fn opposite(direction: Direction) -> Direction {
    match direction {
        Direction::Up => Direction::Down,
        Direction::Down => Direction::Up,
        Direction::Left => Direction::Right,
        Direction::Right => Direction::Left,
    }
}

/// A step in the opposite direction undoes a step: `opposite` is the way
/// back.
pub proof fn law_opposite_undoes_step(p: Position, direction: Direction)
    requires
        can_move(p, direction),
    ensures
        ({
            let (x, y) = moved_spec(p, direction);
            moved_spec(Position { x: x as i32, y: y as i32 }, opposite(direction)) == (p.x as int, p.y as int)
        }),
        opposite(direction) != direction,
{
}

/// A snake asked to go straight back keeps its direction; asked for any
/// other direction, it takes it; asked for none, it keeps going.
pub proof fn law_turns_refuse_only_reversal(current: Direction, requested: Direction)
    ensures
        turned(current, Some(opposite(current))) == current,
        requested != opposite(current) ==> turned(current, Some(requested)) == requested,
        turned(current, None) == current,
{
}

/// After a move the snake is its new head followed by its old body, minus the
/// tail segment unless it ate: it grows by one segment when it eats and keeps
/// its length otherwise, and every other segment takes the place of the one
/// before it.
pub proof fn law_snake_growth(before: Seq<Segment>, head: Segment, ate: bool)
    requires
        before.len() >= 1,
    ensures
        ({
            let after = if ate {
                seq![head] + before
            } else {
                seq![head] + before.drop_last()
            };
            &&& after.len() == before.len() + (if ate { 1int } else { 0int })
            &&& after[0] == head
            &&& forall|i: int| 1 <= i < after.len() ==> #[trigger] after[i] == before[i - 1]
        }),
{
}

/// The snake: its segments from head to tail, and where it is heading.
#[derive(Debug)]
pub struct Snake {
    pub body: VecDeque<Segment>,
    pub direction: Direction,
}

impl Snake {
    /// The snake has a head.
    pub open spec fn wf(&self) -> bool {
        self.body@.len() >= 1
    }

    pub open spec fn head_spec(&self) -> Position {
        self.body@[0].position
    }

    /// A snake of two segments with its head at `(x, y)`, heading right.
    pub fn new(x: i32, y: i32) -> (snake: Self)
        requires
            x > i32::MIN,
        ensures
            snake.wf(),
            snake.body@ == seq![Segment { position: Position { x, y } }, Segment { position: Position { x: (x - 1) as i32, y } }],
            snake.direction == Direction::Right,
    {
        let mut body = VecDeque::new();
        body.push_back(Segment::new(x, y));
        body.push_back(Segment::new(x - 1, y));
        let direction = Direction::Right;
        Snake { body, direction }
    }

    pub fn head(&self) -> (head: &Segment)
        requires
            self.wf(),
        ensures
            *head == self.body@[0],
    {
        &self.body[0]
    }

    /// Whether the head lies on another segment.
    pub fn is_eating_itself(&self) -> (eating: bool)
        requires
            self.wf(),
        ensures
            eating == exists|k: int| 1 <= k < self.body@.len() && #[trigger] self.body@[k].position == self.head_spec(),
    {
        let head = *self.head();
        let mut k: usize = 1;
        while k < self.body.len()
            invariant
                self.wf(),
                head == self.body@[0],
                1 <= k <= self.body@.len(),
                forall|j: int| 1 <= j < k ==> #[trigger] self.body@[j].position != head.position,
            decreases self.body@.len() - k,
        {
            if head.position == self.body[k].position {
                return true;
            }
            k = k + 1;
        }
        false
    }

    /// Whether the head lies outside a board of `bounds.0` by `bounds.1` cells
    /// (sizes cast to `i32`, as the game does).
    pub fn is_out_of_bounds(&self, bounds: (usize, usize)) -> (out: bool)
        requires
            self.wf(),
        ensures
            out == !(0 <= self.head_spec().x < bounds.0 as i32 && 0 <= self.head_spec().y < bounds.1 as i32),
    {
        let width = bounds.0 as i32;
        let height = bounds.1 as i32;
        let x = self.head().position.x;
        let y = self.head().position.y;
        if x < 0 || x >= width || y < 0 || y >= height {
            true
        } else {
            false
        }
    }

    pub fn is_eating(&self, food: &Food) -> (eating: bool)
        requires
            self.wf(),
        ensures
            eating == (self.head_spec() == food.position),
    {
        self.head().position == food.position
    }

    /// Turns toward `new_direction` unless that reverses the snake, moves the
    /// head one cell on, and drops the tail unless the head reached the food.
    pub fn update(&mut self, food: &Food, new_direction: Option<Direction>)
        requires
            old(self).wf(),
            can_move(old(self).head_spec(), turned(old(self).direction, new_direction)),
        ensures
            final(self).wf(),
            final(self).direction == turned(old(self).direction, new_direction),
            final(self).head_spec().x == moved_spec(old(self).head_spec(), final(self).direction).0,
            final(self).head_spec().y == moved_spec(old(self).head_spec(), final(self).direction).1,
            final(self).body@ == if final(self).head_spec() == food.position {
                seq![final(self).body@[0]] + old(self).body@
            } else {
                seq![final(self).body@[0]] + old(self).body@.drop_last()
            },
    {
        if let Some(direction) = new_direction {
            let valid_direction = match (self.direction, direction) {
                (Direction::Up, Direction::Down) => false,
                (Direction::Down, Direction::Up) => false,
                (Direction::Left, Direction::Right) => false,
                (Direction::Right, Direction::Left) => false,
                _ => true,
            };
            if valid_direction {
                self.direction = direction;
            }
        }
        let new_head = self.head().moved(self.direction);
        self.body.push_front(new_head);
        if !self.is_eating(food) {
            self.body.pop_back();
        }
        proof {
            if self.head_spec() != food.position {
                assert(self.body@ =~= seq![self.body@[0]] + old(self).body@.drop_last());
            } else {
                assert(self.body@ =~= seq![self.body@[0]] + old(self).body@);
            }
        }
    }

    /// The same snake.
    pub fn duplicate(&self) -> (copy: Self)
        ensures
            copy.body@ == self.body@,
            copy.direction == self.direction,
    {
        let mut body: VecDeque<Segment> = VecDeque::new();
        let mut k: usize = 0;
        while k < self.body.len()
            invariant
                k <= self.body@.len(),
                body@ == self.body@.take(k as int),
            decreases self.body@.len() - k,
        {
            body.push_back(self.body[k]);
            proof {
                assert(self.body@.take(k + 1) =~= self.body@.take(k as int).push(self.body@[k as int]));
            }
            k = k + 1;
        }
        proof {
            assert(self.body@.take(self.body@.len() as int) =~= self.body@);
        }
        Snake { body, direction: self.direction }
    }
}

/// A segment's flat index `y * width + x` on a board `width` cells wide.
pub open spec fn segment_index(segment: Segment, width: int) -> int {
    segment.position.y * width + segment.position.x
}

/// The flat indices occupied by `body`.
pub open spec fn body_indices(body: Seq<Segment>, width: int) -> Seq<int> {
    body.map_values(|s: Segment| segment_index(s, width))
}

/// Every segment's flat index can be computed in `i32`.
pub open spec fn body_indices_fit(body: Seq<Segment>, width: int) -> bool {
    forall|k: int|
        0 <= k < body.len() ==> i32::MIN <= (#[trigger] body[k]).position.y * width <= i32::MAX
            && i32::MIN <= segment_index(body[k], width) <= i32::MAX
}

/// The index reached by probing `steps` cells on from `start`, wrapping at `n`.
pub open spec fn probe(start: int, steps: int, n: int) -> int {
    (start + steps) % n
}

pub struct Food {
    pub position: Position,
}

proof fn lemma_probe_covers(start: int, n: int, r: int)
    requires
        0 <= start < n,
        0 <= r < n,
    ensures
        exists|s: int| 0 <= s < n && #[trigger] probe(start, s, n) == r,
{
    if r >= start {
        vstd::arithmetic::div_mod::lemma_fundamental_div_mod_converse(r, n, 0, r);
        assert(probe(start, r - start, n) == r);
    } else {
        vstd::arithmetic::div_mod::lemma_fundamental_div_mod_converse(r + n, n, 1, r);
        assert(probe(start, r - start + n, n) == r);
    }
}

/// Probing `n` cells from any start meets a free one when fewer than `n`
/// cells are occupied.
proof fn lemma_probe_finds_free(occupied: Seq<int>, start: int, n: int)
    requires
        occupied.len() < n,
        0 <= start < n,
    ensures
        exists|s: int| 0 <= s < n && !occupied.contains(#[trigger] probe(start, s, n)),
{
    if forall|s: int| 0 <= s < n ==> occupied.contains(#[trigger] probe(start, s, n)) {
        assert forall|r: int| #[trigger] set_int_range(0, n).contains(r) implies occupied.to_set().contains(r) by {
            lemma_probe_covers(start, n, r);
            let s = choose|s: int| 0 <= s < n && #[trigger] probe(start, s, n) == r;
            assert(occupied.contains(probe(start, s, n)));
        }
        lemma_int_range(0, n);
        occupied.lemma_cardinality_of_set();
        lemma_len_subset(set_int_range(0, n), occupied.to_set());
        assert(false);
    }
}

/// `food` lies on the first free cell of a `width` by `height` board that
/// probing finds from some start below the number of free cells, and on no
/// segment of `body`.
pub open spec fn food_placed(food: Food, body: Seq<Segment>, width: int, height: int) -> bool {
    &&& exists|start: int, steps: int|
        0 <= start < width * height - body.len() && 0 <= steps < width * height && {
            let index = #[trigger] probe(start, steps, width * height);
            &&& !body_indices(body, width).contains(index)
            &&& food.position.x == index % width
            &&& food.position.y == index / width
        }
    &&& forall|k: int| 0 <= k < body.len() ==> (#[trigger] body[k]).position != food.position
}

impl Food {
    /// The food placed from a drawn index: the first free cell at or after
    /// `start`, wrapping at the end of the board, found by probing cell after
    /// cell.
    pub fn place_from_index(width: usize, height: usize, snake: &Snake, start: i32) -> (food: Food)
        requires
            1 <= width <= i32::MAX,
            1 <= height <= i32::MAX,
            width * height <= i32::MAX,
            snake.body@.len() < width * height,
            0 <= start < width * height,
            body_indices_fit(snake.body@, width as int),
        ensures
            exists|steps: int|
                0 <= steps < width * height && {
                    let index = #[trigger] probe(start as int, steps, width * height);
                    &&& !body_indices(snake.body@, width as int).contains(index)
                    &&& forall|s: int|
                        0 <= s < steps ==> body_indices(snake.body@, width as int).contains(
                            #[trigger] probe(start as int, s, width * height),
                        )
                    &&& food.position.x == index % width as int
                    &&& food.position.y == index / width as int
                },
            forall|k: int| 0 <= k < snake.body@.len() ==> (#[trigger] snake.body@[k]).position != food.position,
    {
        let w = width as i32;
        let n = width as i32 * height as i32;
        let ghost occupied = body_indices(snake.body@, width as int);
        let mut indices: Vec<i32> = Vec::new();
        let mut k: usize = 0;
        while k < snake.body.len()
            invariant
                k <= snake.body@.len(),
                w == width,
                body_indices_fit(snake.body@, width as int),
                occupied == body_indices(snake.body@, width as int),
                indices@.len() == k,
                forall|j: int| 0 <= j < k ==> #[trigger] indices@[j] as int == occupied[j],
            decreases snake.body@.len() - k,
        {
            let position = snake.body[k].position;
            proof {
                assert(i32::MIN <= snake.body@[k as int].position.y * width <= i32::MAX);
            }
            indices.push(position.y * w + position.x);
            k = k + 1;
        }
        let mut index = start;
        let ghost mut steps: int = 0;
        proof {
            vstd::arithmetic::div_mod::lemma_small_mod(start as nat, n as nat);
        }
        loop
            invariant
                n == width * height,
                w == width,
                1 <= width,
                occupied.len() == snake.body@.len(),
                occupied.len() < n,
                0 <= start < n,
                indices@.len() == occupied.len(),
                forall|j: int| 0 <= j < indices@.len() ==> #[trigger] indices@[j] as int == occupied[j],
                0 <= steps < n,
                index == probe(start as int, steps, n as int),
                0 <= index < n,
                forall|s: int| 0 <= s < steps ==> occupied.contains(#[trigger] probe(start as int, s, n as int)),
            ensures
                !occupied.contains(index as int),
            decreases n - steps,
        {
            let mut found = false;
            let mut j: usize = 0;
            while j < indices.len()
                invariant
                    j <= indices@.len(),
                    indices@.len() == occupied.len(),
                    forall|i: int| 0 <= i < indices@.len() ==> #[trigger] indices@[i] as int == occupied[i],
                    found == exists|i: int| 0 <= i < j && #[trigger] indices@[i] == index,
                decreases indices@.len() - j,
            {
                if indices[j] == index {
                    found = true;
                }
                j = j + 1;
            }
            if !found {
                proof {
                    if occupied.contains(index as int) {
                        let i = choose|i: int| 0 <= i < occupied.len() && occupied[i] == index as int;
                        assert(indices@[i] == index);
                    }
                }
                break;
            }
            proof {
                let i = choose|i: int| 0 <= i < indices@.len() && #[trigger] indices@[i] == index;
                assert(occupied[i] == index as int);
                assert(occupied.contains(probe(start as int, steps, n as int)));
                if steps + 1 == n {
                    lemma_probe_finds_free(occupied, start as int, n as int);
                    let s = choose|s: int| 0 <= s < n && !occupied.contains(#[trigger] probe(start as int, s, n as int));
                    if s < steps {
                        assert(occupied.contains(probe(start as int, s, n as int)));
                    }
                }
                vstd::arithmetic::div_mod::lemma_mod_add_multiples_vanish(start + steps + 1, n as int);
                assert(probe(start as int, steps + 1, n as int) == (index + 1) % (n as int)) by {
                    vstd::arithmetic::div_mod::lemma_add_mod_noop(start + steps, 1, n as int);
                    vstd::arithmetic::div_mod::lemma_small_mod(1, n as nat);
                    if index + 1 < n {
                        vstd::arithmetic::div_mod::lemma_small_mod((index + 1) as nat, n as nat);
                    } else {
                        vstd::arithmetic::div_mod::lemma_mod_self_0(n as int);
                    }
                }
                steps = steps + 1;
            }
            index = (index + 1) % n;
        }
        let food = Food { position: Position { x: index % w, y: index / w } };
        proof {
            assert(probe(start as int, steps, width * height) == index);
            vstd::arithmetic::div_mod::lemma_fundamental_div_mod(index as int, width as int);
            assert forall|k: int| 0 <= k < snake.body@.len() implies (#[trigger] snake.body@[k]).position
                != food.position by {
                if snake.body@[k].position == food.position {
                    assert(segment_index(snake.body@[k], width as int) == (index / w) * width + index % w);
                    assert((index / w) * width + index % w == index) by (nonlinear_arith)
                        requires
                            index == width * (index / w) + index % w,
                            w == width,
                    ;
                    assert(occupied[k] == index as int);
                }
            }
        }
        food
    }

    /// Food on a free cell of a `width` by `height` board: a cell index is
    /// drawn among as many cells as are free, and the first free cell from
    /// there is taken.
    pub fn generate_food(width: usize, height: usize, snake: &Snake) -> (food: Food)
        requires
            1 <= width <= i32::MAX,
            1 <= height <= i32::MAX,
            width * height <= i32::MAX,
            snake.body@.len() < width * height,
            body_indices_fit(snake.body@, width as int),
        ensures
            exists|start: int, steps: int|
                0 <= start < width * height - snake.body@.len() && 0 <= steps < width * height && {
                    let index = #[trigger] probe(start, steps, width * height);
                    &&& !body_indices(snake.body@, width as int).contains(index)
                    &&& food.position.x == index % width as int
                    &&& food.position.y == index / width as int
                },
            forall|k: int| 0 <= k < snake.body@.len() ==> (#[trigger] snake.body@[k]).position != food.position,
    {
        let mut rng = thread_rng();
        let start = thread_random_i32_below(&mut rng, width as i32 * height as i32 - snake.body.len() as i32);
        Food::place_from_index(width, height, snake, start)
    }
}


proof fn lemma_board_size(width: int, height: int)
    requires
        0 <= width <= 255,
        0 <= height <= 255,
    ensures
        0 <= width * height <= 65025,
        width * height >= width * (if height >= 1 { 1int } else { 0int }),
{
    assert(0 <= width * height <= 65025) by (nonlinear_arith)
        requires
            0 <= width <= 255,
            0 <= height <= 255,
    ;
    assert(width * height >= width * (if height >= 1 { 1int } else { 0int })) by (nonlinear_arith)
        requires
            0 <= width <= 255,
            0 <= height <= 255,
    ;
}

/// The grass under the board: for each cell, which grass tile is drawn.
#[derive(Debug)]
pub struct Terrain {
    pub size: (usize, usize),
    pub tiles: Vec<usize>,
}

impl Terrain {
    /// A board of `width` by `height` cells, each given one of `tile_count`
    /// grass tiles at random.
    pub fn new(size: (usize, usize), tile_count: usize) -> (terrain: Self)
        requires
            size.0 * size.1 <= usize::MAX,
            size.0 * size.1 > 0 ==> tile_count > 0,
        ensures
            terrain.size == size,
            terrain.tiles@.len() == size.0 * size.1,
            forall|i: int| 0 <= i < terrain.tiles@.len() ==> #[trigger] terrain.tiles@[i] < tile_count,
    {
        let (width, height) = size;
        let mut rng = thread_rng();
        let capacity = width * height;
        let mut tiles: Vec<usize> = Vec::with_capacity(capacity);
        let mut i: usize = 0;
        while i < capacity
            invariant
                i <= capacity,
                capacity > 0 ==> tile_count > 0,
                tiles@.len() == i,
                forall|k: int| 0 <= k < i ==> #[trigger] tiles@[k] < tile_count,
            decreases capacity - i,
        {
            tiles.push(thread_random_usize_below(&mut rng, tile_count));
            i = i + 1;
        }
        Self { size: (width, height), tiles }
    }

    /// The same terrain.
    pub fn duplicate(&self) -> (copy: Self)
        ensures
            copy.size == self.size,
            copy.tiles@ == self.tiles@,
    {
        let mut tiles: Vec<usize> = Vec::with_capacity(self.tiles.len());
        let mut k: usize = 0;
        while k < self.tiles.len()
            invariant
                k <= self.tiles@.len(),
                tiles@ == self.tiles@.take(k as int),
            decreases self.tiles@.len() - k,
        {
            tiles.push(self.tiles[k]);
            proof {
                assert(self.tiles@.take(k + 1) =~= self.tiles@.take(k as int).push(self.tiles@[k as int]));
            }
            k = k + 1;
        }
        proof {
            assert(self.tiles@.take(self.tiles@.len() as int) =~= self.tiles@);
        }
        Self { size: self.size, tiles }
    }
}

/// The scene the game switches to.
pub enum State {
    Playing,
    Losing { score: u32, snake: Snake, terrain: Terrain },
    Starting,
}

/// Space starts a game; nothing else does.
pub fn start_on_space(input: &Option<Input>) -> (state: Option<State>)
    ensures
        state matches Some(State::Playing) <==> *input == Some(Input::Space),
        state is None <==> *input != Some(Input::Space),
{
    if let Some(Input::Space) = input {
        Some(State::Playing)
    } else {
        None
    }
}

/// The title screen: a grass board and an invitation to press space.
pub struct StartingScene {
    pub size: (u8, u8),
    pub terrain: Terrain,
}

impl StartingScene {
    pub fn new(size: (u8, u8), grass_tile_count: usize) -> (scene: Self)
        requires
            grass_tile_count > 0,
        ensures
            scene.size == size,
            scene.terrain.size == (size.0 as usize, size.1 as usize),
    {
        let (width, height) = size;
        proof {
            lemma_board_size(width as int, height as int);
        }
        let terrain = Terrain::new((width as usize, height as usize), grass_tile_count);
        Self { size: (width, height), terrain }
    }

    pub fn update(&mut self, input: Option<Input>) -> (state: Option<State>)
        ensures
            state matches Some(State::Playing) <==> input == Some(Input::Space),
            state is None <==> input != Some(Input::Space),
    {
        start_on_space(&input)
    }
}

/// The end screen: the last snake, the score, and an invitation to play again.
pub struct LosingScene {
    pub snake: Snake,
    pub score: u32,
    pub terrain: Terrain,
}

impl LosingScene {
    pub fn new(snake: Snake, score: u32, terrain: Terrain) -> (scene: Self)
        ensures
            scene.snake == snake,
            scene.score == score,
            scene.terrain == terrain,
    {
        Self { snake, score, terrain }
    }

    pub fn update(&mut self, input: Option<Input>) -> (state: Option<State>)
        ensures
            state matches Some(State::Playing) <==> input == Some(Input::Space),
            state is None <==> input != Some(Input::Space),
    {
        start_on_space(&input)
    }
}

/// The direction an input asks for, if it is an arrow.
pub open spec fn input_direction(input: Option<Input>) -> Option<Direction> {
    match input {
        Some(Input::Up) => Some(Direction::Up),
        Some(Input::Down) => Some(Direction::Down),
        Some(Input::Left) => Some(Direction::Left),
        Some(Input::Right) => Some(Direction::Right),
        _ => None,
    }
}

/// Each arrow key asks for the direction it names: a step that way moves a
/// cell one column left or right, or one row up (toward row 0) or down; any
/// other key asks for no turn.
pub proof fn law_arrow_keys_name_their_direction(p: Position, input: Input)
    ensures
        match input {
            Input::Left => input_direction(Some(input)) is Some && moved_spec(p, input_direction(Some(input))->0)
                == (p.x - 1, p.y as int),
            Input::Right => input_direction(Some(input)) is Some && moved_spec(p, input_direction(Some(input))->0)
                == (p.x + 1, p.y as int),
            Input::Up => input_direction(Some(input)) is Some && moved_spec(p, input_direction(Some(input))->0)
                == (p.x as int, p.y - 1),
            Input::Down => input_direction(Some(input)) is Some && moved_spec(p, input_direction(Some(input))->0)
                == (p.x as int, p.y + 1),
            Input::Space => input_direction(Some(input)) is None,
        },
        input_direction(None) is None,
{
}

/// Whether the arrow `input` points straight back against `heading`.
pub open spec fn points_back(heading: Direction, input: Input) -> bool {
    ||| heading == Direction::Up && input == Input::Down
    ||| heading == Direction::Down && input == Input::Up
    ||| heading == Direction::Left && input == Input::Right
    ||| heading == Direction::Right && input == Input::Left
}

/// A game in progress.
pub struct PlayingScene {
    pub size: (usize, usize),
    pub snake: Snake,
    pub food: Food,
    pub stepper: Stepper,
    pub score: u32,
    pub pending_input: Option<Input>,
    pub terrain: Terrain,
}

impl PlayingScene {
    /// Sizes fit the board, the snake has a head, and time moves in steps.
    pub open spec fn wf(&self) -> bool {
        &&& 1 <= self.size.0 <= 255
        &&& 1 <= self.size.1 <= 255
        &&& self.snake.wf()
        &&& self.stepper.step == MOVE_STEP_NANOS
    }

    /// A fresh game on a `width` by `height` board: a two-segment snake in
    /// the middle, heading right, food on a free cell, score zero.
    pub fn new(size: (u8, u8), grass_tile_count: usize) -> (scene: Self)
        requires
            2 <= size.0,
            1 <= size.1,
            size.0 * size.1 >= 3,
            grass_tile_count > 0,
        ensures
            scene.wf(),
            scene.size == (size.0 as usize, size.1 as usize),
            scene.snake.body@.len() == 2,
            scene.snake.body@[0].position.x == size.0 / 2,
            scene.snake.body@[0].position.y == size.1 / 2,
            scene.snake.body@[1].position.x == size.0 / 2 - 1,
            scene.snake.body@[1].position.y == size.1 / 2,
            scene.snake.direction == Direction::Right,
            scene.score == 0,
            scene.pending_input is None,
            scene.stepper.dt == 0,
    {
        let width = size.0 as usize;
        let height = size.1 as usize;
        proof {
            lemma_board_size(width as int, height as int);
        }
        let snake = Snake::new(width as i32 / 2, height as i32 / 2);
        proof {
            let w = width as int;
            assert forall|k: int| 0 <= k < snake.body@.len() implies i32::MIN <= (#[trigger] snake.body@[k]).position.y * w
                <= i32::MAX && i32::MIN <= segment_index(snake.body@[k], w) <= i32::MAX by {
                let y = snake.body@[k].position.y as int;
                assert(0 <= y * w <= 65025) by (nonlinear_arith)
                    requires
                        0 <= y <= 255,
                        0 <= w <= 255,
                ;
            }
        }
        let food = Food::generate_food(width, height, &snake);
        let stepper = Stepper::new(MOVE_STEP_NANOS);
        let score: u32 = 0;
        let terrain = Terrain::new((width, height), grass_tile_count);
        Self { size: (width, height), snake, food, stepper, score, pending_input: None, terrain }
    }

    /// On the next step, an arrow key that does not point straight back
    /// turns the snake toward the side it names and moves its head one cell
    /// that way; one that points back, or no arrow, keeps it going straight.
    pub proof fn law_arrow_moves_head(&self, input: Input)
        ensures
            ({
                let head = self.snake.head_spec();
                let next = self.next_head(Some(input));
                if input == Input::Space || points_back(self.snake.direction, input) {
                    next == moved_spec(head, self.snake.direction)
                } else {
                    match input {
                        Input::Left => next == (head.x - 1, head.y as int),
                        Input::Right => next == (head.x + 1, head.y as int),
                        Input::Up => next == (head.x as int, head.y - 1),
                        Input::Down => next == (head.x as int, head.y + 1),
                        Input::Space => true,
                    }
                }
            }),
            self.next_head(None) == moved_spec(self.snake.head_spec(), self.snake.direction),
    {
    }

    /// The direction the snake takes on its next move with `pending` input.
    pub open spec fn next_direction(&self, pending: Option<Input>) -> Direction {
        turned(self.snake.direction, input_direction(pending))
    }

    /// Where the head goes on the next move with `pending` input.
    pub open spec fn next_head(&self, pending: Option<Input>) -> (int, int) {
        moved_spec(self.snake.head_spec(), self.next_direction(pending))
    }

    /// A move with `pending` input can be made without overflow, and when it
    /// eats, the board still has a free cell for new food (otherwise placing
    /// food cannot succeed).
    pub open spec fn move_ok(&self, pending: Option<Input>) -> bool {
        let (hx, hy) = self.next_head(pending);
        &&& can_move(self.snake.head_spec(), self.next_direction(pending))
        &&& self.score < u32::MAX
        &&& body_indices_fit(self.snake.body@, self.size.0 as int)
        &&& i32::MIN <= hy * self.size.0 <= i32::MAX
        &&& i32::MIN <= hy * self.size.0 + hx <= i32::MAX
        &&& (hx == self.food.position.x && hy == self.food.position.y) ==> self.snake.body@.len() + 1 < self.size.0
            * self.size.1
        &&& (hx != self.food.position.x || hy != self.food.position.y) ==> self.snake.body@.len() < self.size.0
            * self.size.1
    }

    /// One move: the snake turns toward the pending arrow, if any, and moves;
    /// when it reaches the food, new food is placed and the score rises.
    pub fn move_snake(&mut self)
        requires
            old(self).wf(),
            old(self).move_ok(old(self).pending_input),
        ensures
            final(self).wf(),
            final(self).size == old(self).size,
            final(self).pending_input == old(self).pending_input,
            final(self).stepper == old(self).stepper,
            final(self).terrain == old(self).terrain,
            final(self).snake.direction == old(self).next_direction(old(self).pending_input),
            final(self).snake.head_spec().x == old(self).next_head(old(self).pending_input).0,
            final(self).snake.head_spec().y == old(self).next_head(old(self).pending_input).1,
            final(self).snake.body@ == if final(self).snake.head_spec() == old(self).food.position {
                seq![final(self).snake.body@[0]] + old(self).snake.body@
            } else {
                seq![final(self).snake.body@[0]] + old(self).snake.body@.drop_last()
            },
            final(self).score == if final(self).snake.head_spec() == old(self).food.position {
                old(self).score + 1
            } else {
                old(self).score as int
            },
            final(self).snake.head_spec() != old(self).food.position ==> final(self).food == old(self).food,
            final(self).snake.head_spec() == old(self).food.position ==> food_placed(
                final(self).food,
                final(self).snake.body@,
                final(self).size.0 as int,
                final(self).size.1 as int,
            ),
    {
        let direction = match self.pending_input {
            Some(Input::Up) => Some(Direction::Up),
            Some(Input::Down) => Some(Direction::Down),
            Some(Input::Left) => Some(Direction::Left),
            Some(Input::Right) => Some(Direction::Right),
            _ => None,
        };
        self.snake.update(&self.food, direction);
        proof {
            let w = self.size.0 as int;
            let old_body = old(self).snake.body@;
            assert forall|k: int| 0 <= k < self.snake.body@.len() implies i32::MIN <= (
            #[trigger] self.snake.body@[k]).position.y * w <= i32::MAX && i32::MIN <= segment_index(
                self.snake.body@[k],
                w,
            ) <= i32::MAX by {
                if k > 0 {
                    assert(self.snake.body@[k] == old_body[k - 1]);
                }
            }
        }
        if self.snake.is_eating(&self.food) {
            self.generate_food();
            self.score = self.score + 1;
        }
    }

    /// Whether the game is lost: the snake bit itself or left the board.
    pub fn is_loosing(&self) -> (lost: bool)
        requires
            self.wf(),
        ensures
            lost == ((exists|k: int|
                1 <= k < self.snake.body@.len() && #[trigger] self.snake.body@[k].position
                    == self.snake.head_spec()) || !(0 <= self.snake.head_spec().x < self.size.0 as i32 && 0
                <= self.snake.head_spec().y < self.size.1 as i32)),
    {
        self.snake.is_eating_itself() || self.snake.is_out_of_bounds(self.size)
    }

    /// One frame of play: an input becomes the pending one; once a step of
    /// time has accumulated, the snake moves; a lost game hands over its
    /// score, snake and terrain to the end screen.
    pub fn update(&mut self, dt: u128, input: Option<Input>) -> (state: Option<State>)
        requires
            old(self).wf(),
            old(self).stepper.dt + dt <= u128::MAX,
            old(self).stepper.dt + dt >= MOVE_STEP_NANOS ==> old(self).move_ok(
                if input.is_some() { input } else { old(self).pending_input },
            ),
        ensures
            final(self).wf(),
            final(self).pending_input == if input.is_some() { input } else { old(self).pending_input },
            final(self).stepper.dt == if old(self).stepper.dt + dt >= MOVE_STEP_NANOS {
                ((old(self).stepper.dt + dt) % MOVE_STEP_NANOS as int) as u128
            } else {
                (old(self).stepper.dt + dt) as u128
            },
            final(self).size == old(self).size,
            final(self).terrain == old(self).terrain,
            final(self).stepper.step == old(self).stepper.step,
            old(self).stepper.dt + dt < MOVE_STEP_NANOS ==> final(self).snake == old(self).snake
                && final(self).score == old(self).score && final(self).food == old(self).food,
            old(self).stepper.dt + dt >= MOVE_STEP_NANOS ==> {
                let ate = final(self).snake.head_spec() == old(self).food.position;
                &&& final(self).snake.direction == old(self).next_direction(final(self).pending_input)
                &&& final(self).snake.head_spec().x == old(self).next_head(final(self).pending_input).0
                &&& final(self).snake.head_spec().y == old(self).next_head(final(self).pending_input).1
                &&& final(self).snake.body@ == if ate {
                    seq![final(self).snake.body@[0]] + old(self).snake.body@
                } else {
                    seq![final(self).snake.body@[0]] + old(self).snake.body@.drop_last()
                }
                &&& final(self).score == if ate {
                    old(self).score + 1
                } else {
                    old(self).score as int
                }
                &&& if ate {
                    food_placed(
                        final(self).food,
                        final(self).snake.body@,
                        final(self).size.0 as int,
                        final(self).size.1 as int,
                    )
                } else {
                    final(self).food == old(self).food
                }
            },
            match state {
                Some(State::Losing { score, snake, terrain }) => score == final(self).score && snake.body@
                    == final(self).snake.body@ && snake.direction == final(self).snake.direction && terrain.size
                    == final(self).terrain.size && terrain.tiles@ == final(self).terrain.tiles@,
                Some(_) => false,
                None => true,
            },
            state is Some <==> ((exists|k: int|
                1 <= k < final(self).snake.body@.len() && #[trigger] final(self).snake.body@[k].position
                    == final(self).snake.head_spec()) || !(0 <= final(self).snake.head_spec().x
                < final(self).size.0 as i32 && 0 <= final(self).snake.head_spec().y < final(self).size.1 as i32)),
    {
        if input.is_some() {
            self.pending_input = input;
        }
        let should_update = self.stepper.advance(dt);
        if should_update {
            self.move_snake();
        }
        if self.is_loosing() {
            Some(State::Losing { score: self.score, snake: self.snake.duplicate(), terrain: self.terrain.duplicate() })
        } else {
            None
        }
    }

    fn generate_food(&mut self)
        requires
            old(self).wf(),
            old(self).snake.body@.len() < old(self).size.0 * old(self).size.1,
            body_indices_fit(old(self).snake.body@, old(self).size.0 as int),
        ensures
            final(self).size == old(self).size,
            final(self).snake == old(self).snake,
            final(self).stepper == old(self).stepper,
            final(self).score == old(self).score,
            final(self).pending_input == old(self).pending_input,
            final(self).terrain == old(self).terrain,
            food_placed(final(self).food, old(self).snake.body@, old(self).size.0 as int, old(self).size.1 as int),
    {
        proof {
            lemma_board_size(self.size.0 as int, self.size.1 as int);
        }
        self.food = Food::generate_food(self.size.0, self.size.1, &self.snake);
    }
}

} // verus!
