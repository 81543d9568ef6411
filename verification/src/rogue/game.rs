//! The roguelike's turn logic: which state follows which, what the player's
//! input does, and where the camera looks.

use crate::rogue::components::Position;
use crate::rogue::map::flat_index;
use crate::rogue::map::in_grid;
use crate::rogue::map::DungeonMap;
use vstd::prelude::*;

verus! {

/// Size in pixels of a map cell on screen.
pub const TILE_SIZE_PX: i32 = 32;

#[derive(Debug, PartialEq, Eq, Clone, Copy, Structural)]
pub enum RunState {
    Init,
    WaitingForInput,
    AiTurn,
}

/// What the game asks of the window after an update.
#[derive(Debug, PartialEq, Eq, Clone, Copy, Structural)]
pub enum Update {
    Refresh,
    Exit,
    NoOp,
}

/// The keys the roguelike reacts to.
#[derive(Debug, PartialEq, Eq, Clone, Copy, Structural)]
pub enum Input {
    Up,
    Down,
    Right,
    Left,
    Escape,
    Space,
}

/// What an input asks the player's character to do.
#[derive(Debug, PartialEq, Eq, Clone, Copy, Structural)]
pub enum Intent {
    /// Step (or attack) by this offset.
    Move(i32, i32),
    /// Let the turn pass.
    Wait,
    /// Nothing: the turn does not pass.
    Nothing,
}

pub open spec fn intent_spec(input: Option<Input>) -> Intent {
    match input {
        Some(Input::Up) => Intent::Move(0, -1i32),
        Some(Input::Down) => Intent::Move(0, 1),
        Some(Input::Left) => Intent::Move(-1i32, 0),
        Some(Input::Right) => Intent::Move(1, 0),
        Some(Input::Space) => Intent::Wait,
        _ => Intent::Nothing,
    }
}

/// The arrows move, space waits, anything else does nothing.
pub fn try_move_player(input: &Option<Input>) -> (intent: Intent)
    ensures
        intent == intent_spec(*input),
{
    match input {
        Some(Input::Up) => Intent::Move(0, -1),
        Some(Input::Down) => Intent::Move(0, 1),
        Some(Input::Left) => Intent::Move(-1, 0),
        Some(Input::Right) => Intent::Move(1, 0),
        Some(Input::Space) => Intent::Wait,
        _ => Intent::Nothing,
    }
}

/// What an update of the game does in a given state.
#[derive(Debug, PartialEq, Eq, Clone, Copy, Structural)]
pub enum UpdatePlan {
    /// Run the systems once, enter the state, answer with the update.
    RunSchedule(RunState, Update),
    /// Leave the game.
    Exit,
    /// Let the player act on the intent; see `finish_player_turn`.
    PlayerTurn(Intent),
}

pub open spec fn plan_update_spec(state: RunState, input: Option<Input>) -> UpdatePlan {
    match state {
        RunState::Init => UpdatePlan::RunSchedule(RunState::WaitingForInput, Update::Refresh),
        RunState::AiTurn => UpdatePlan::RunSchedule(RunState::WaitingForInput, Update::Refresh),
        RunState::WaitingForInput => if input == Some(Input::Escape) {
            UpdatePlan::Exit
        } else {
            UpdatePlan::PlayerTurn(intent_spec(input))
        },
    }
}

/// While the player is awaited, only escape leaves the game: space lets the
/// turn pass, each arrow asks for a step of one cell toward the side it
/// names (up is toward row 0), and no input asks nothing. Outside that state
/// the systems run and the player is awaited next.
pub proof fn law_waiting_player_plans(input: Option<Input>)
    ensures
        (plan_update_spec(RunState::WaitingForInput, input) == UpdatePlan::Exit) <==> input == Some(Input::Escape),
        plan_update_spec(RunState::WaitingForInput, Some(Input::Space)) == UpdatePlan::PlayerTurn(Intent::Wait),
        plan_update_spec(RunState::WaitingForInput, Some(Input::Left)) == UpdatePlan::PlayerTurn(Intent::Move(-1i32, 0)),
        plan_update_spec(RunState::WaitingForInput, Some(Input::Right)) == UpdatePlan::PlayerTurn(Intent::Move(1, 0)),
        plan_update_spec(RunState::WaitingForInput, Some(Input::Up)) == UpdatePlan::PlayerTurn(Intent::Move(0, -1i32)),
        plan_update_spec(RunState::WaitingForInput, Some(Input::Down)) == UpdatePlan::PlayerTurn(Intent::Move(0, 1)),
        plan_update_spec(RunState::WaitingForInput, None) == UpdatePlan::PlayerTurn(Intent::Nothing),
        plan_update_spec(RunState::Init, input) == UpdatePlan::RunSchedule(RunState::WaitingForInput, Update::Refresh),
        plan_update_spec(RunState::AiTurn, input) == UpdatePlan::RunSchedule(RunState::WaitingForInput, Update::Refresh),
{
}

/// One update of the game: the first update and each AI turn run the systems
/// and hand control to the player; while waiting, escape leaves and any other
/// input is the player's turn.
pub fn plan_update(state: RunState, input: &Option<Input>) -> (plan: UpdatePlan)
    ensures
        plan == plan_update_spec(state, *input),
{
    match state {
        RunState::Init => UpdatePlan::RunSchedule(RunState::WaitingForInput, Update::Refresh),
        RunState::WaitingForInput => {
            if let Some(Input::Escape) = input {
                UpdatePlan::Exit
            } else {
                UpdatePlan::PlayerTurn(try_move_player(input))
            }
        },
        RunState::AiTurn => UpdatePlan::RunSchedule(RunState::WaitingForInput, Update::Refresh),
    }
}

/// After the player's turn: when the player acted, the systems run and the
/// AI plays next; either way the window need not redraw yet.
pub fn finish_player_turn(acted: bool) -> (outcome: (bool, RunState, Update))
    ensures
        outcome == if acted {
            (true, RunState::AiTurn, Update::NoOp)
        } else {
            (false, RunState::WaitingForInput, Update::NoOp)
        },
{
    if acted {
        (true, RunState::AiTurn, Update::NoOp)
    } else {
        (false, RunState::WaitingForInput, Update::NoOp)
    }
}

/// What the player's move turns into.
#[derive(Debug, PartialEq, Eq, Clone, Copy, Structural)]
pub enum PlayerAction {
    /// Attack the monster at this index of the monsters given.
    Attack(usize),
    /// Move to this cell.
    Move(i32, i32),
    /// Nothing can be done there.
    Stay,
}

/// The cell the player aims at: the player's cell moved by the offset, or the
/// origin when there is no player.
pub open spec fn move_target(player: Option<Position>, dx: i32, dy: i32) -> (int, int) {
    match player {
        Some(p) => (p.x + dx, p.y + dy),
        None => (0, 0),
    }
}

/// The player's move by `(dx, dy)`: an attack on the first monster standing
/// on the target cell, else a move when the cell is walkable, else nothing.
pub fn move_player(map: &DungeonMap, player: Option<Position>, dx: i32, dy: i32, monsters: &[Position]) -> (action: PlayerAction)
    requires
        map.wf(),
        player matches Some(p) ==> i32::MIN <= p.x + dx <= i32::MAX && i32::MIN <= p.y + dy <= i32::MAX,
    ensures
        ({
            let (tx, ty) = move_target(player, dx, dy);
            match action {
                PlayerAction::Attack(k) => k < monsters@.len() && monsters@[k as int].x == tx && monsters@[k as int].y
                    == ty && forall|j: int|
                    0 <= j < k ==> !(#[trigger] monsters@[j].x == tx && monsters@[j].y == ty),
                PlayerAction::Move(x, y) => x == tx && y == ty && (forall|j: int|
                    0 <= j < monsters@.len() ==> !(#[trigger] monsters@[j].x == tx && monsters@[j].y == ty))
                    && in_grid(map.width as int, map.height as int, tx, ty) && !map.blocked@[flat_index(
                    map.width as int,
                    tx,
                    ty,
                )],
                PlayerAction::Stay => (forall|j: int|
                    0 <= j < monsters@.len() ==> !(#[trigger] monsters@[j].x == tx && monsters@[j].y == ty))
                    && !(in_grid(map.width as int, map.height as int, tx, ty) && !map.blocked@[flat_index(
                    map.width as int,
                    tx,
                    ty,
                )]),
            }
        }),
{
    let mut x: i32 = 0;
    let mut y: i32 = 0;
    if let Some(position) = player {
        x = position.x + dx;
        y = position.y + dy;
    }
    let position = Position { x, y };
    let mut k: usize = 0;
    while k < monsters.len()
        invariant
            k <= monsters@.len(),
            position == (Position { x, y }),
            (x as int, y as int) == move_target(player, dx, dy),
            forall|j: int| 0 <= j < k ==> !(#[trigger] monsters@[j].x == x && monsters@[j].y == y),
        decreases monsters@.len() - k,
    {
        if monsters[k] == position {
            return PlayerAction::Attack(k);
        }
        k = k + 1;
    }
    if map.is_walkable(x, y) {
        PlayerAction::Move(x, y)
    } else {
        PlayerAction::Stay
    }
}

pub open spec fn clamp_spec(v: int, low: int, high: int) -> int {
    if v < low {
        low
    } else if v > high {
        high
    } else {
        v
    }
}

/// Integer division rounding toward zero, as `i32` division does.
pub open spec fn div_toward_zero(a: int, b: int) -> int {
    if a >= 0 {
        a / b
    } else {
        -((-a) / b)
    }
}

/// The canvas extent in whole cells, from its size in pixels read as an `i32`
/// (a size past `i32::MAX` wraps to a negative number, as the cast does).
pub open spec fn cells_across(pixels: u32) -> int {
    div_toward_zero((pixels as i32) as int, TILE_SIZE_PX as int)
}

/// The camera offset, in cells, along one axis: a map smaller than the
/// canvas is centred; a larger one follows the player, without showing past
/// its edges.
pub open spec fn axis_translation(map_extent: int, canvas_extent: int, player: int) -> int {
    if map_extent < canvas_extent {
        (canvas_extent - map_extent) / 2
    } else {
        clamp_spec(div_toward_zero(canvas_extent, 2) - player, canvas_extent - map_extent, 0)
    }
}

/// The offset along one axis can be computed in `i32`: the player's distance
/// from the canvas's middle, and how far the map reaches past the canvas.
pub open spec fn translation_fits(map_extent: int, canvas_extent: int, player: int) -> bool {
    &&& i32::MIN <= div_toward_zero(canvas_extent, 2) - player <= i32::MAX
    &&& i32::MIN <= canvas_extent - map_extent
}

fn translation_along(map_extent: i32, canvas_extent: i32, player: i32) -> (offset: i32)
    requires
        0 <= map_extent,
        translation_fits(map_extent as int, canvas_extent as int, player as int),
    ensures
        offset == axis_translation(map_extent as int, canvas_extent as int, player as int),
{
    if map_extent < canvas_extent {
        (canvas_extent - map_extent) / 2
    } else {
        let offset = canvas_extent / 2 - player;
        let low = canvas_extent - map_extent;
        if offset < low {
            low
        } else if offset > 0 {
            0
        } else {
            offset
        }
    }
}

/// The camera offset, in cells, that keeps the player in view on a canvas of
/// `canvas_width` by `canvas_height` pixels.
pub fn calculate_translation_in_tiles(map: &DungeonMap, player: &Position, canvas_width: u32, canvas_height: u32) -> (offset: (i32, i32))
    requires
        map.wf(),
        translation_fits(map.width as int, cells_across(canvas_width), player.x as int),
        translation_fits(map.height as int, cells_across(canvas_height), player.y as int),
    ensures
        offset.0 == axis_translation(map.width as int, cells_across(canvas_width), player.x as int),
        offset.1 == axis_translation(map.height as int, cells_across(canvas_height), player.y as int),
{
    let canvas_width = canvas_width as i32 / TILE_SIZE_PX;
    let canvas_height = canvas_height as i32 / TILE_SIZE_PX;
    let dx = translation_along(map.width, canvas_width, player.x);
    let dy = translation_along(map.height, canvas_height, player.y);
    (dx, dy)
}

/// The cells drawn along one axis, from the first on screen to past the last:
/// `cell_count` cells from where the camera offset puts the screen's edge,
/// cut at the map's extent.
pub fn visible_range(offset: i32, cell_count: i32, map_extent: i32) -> (range: (i32, i32))
    requires
        offset != i32::MIN,
        0 <= cell_count,
        -offset + cell_count <= i32::MAX,
        cell_count <= i32::MAX,
    ensures
        range.0 == if -offset > 0 { -offset } else { 0 },
        range.1 == if range.0 + cell_count < map_extent { range.0 + cell_count } else { map_extent as int },
{
    let min = if -offset > 0 { -offset } else { 0 };
    let max = if min + cell_count < map_extent { min + cell_count } else { map_extent };
    (min, max)
}

/// What is drawn over a cell of the map: its tile once the cell has been
/// revealed, and fog over it while it is revealed but out of sight.
pub fn cell_layers(revealed: bool, visible: bool) -> (layers: (bool, bool))
    ensures
        layers.0 == revealed,
        layers.1 == (revealed && !visible),
{
    (revealed, revealed && !visible)
}

/// The positions in `flags` that hold `value`, in increasing order.
pub open spec fn positions_of(flags: Seq<bool>, value: bool) -> Seq<usize>
    decreases flags.len(),
{
    if flags.len() == 0 {
        Seq::empty()
    } else {
        let before = positions_of(flags.drop_last(), value);
        if flags.last() == value {
            before.push((flags.len() - 1) as usize)
        } else {
            before
        }
    }
}

/// Appends to `order` the positions of `flags` that hold `value`.
fn push_positions_of(flags: &Vec<bool>, value: bool, order: &mut Vec<usize>)
    ensures
        final(order)@ == old(order)@ + positions_of(flags@, value),
{
    let mut index: usize = 0;
    while index < flags.len()
        invariant
            index <= flags@.len(),
            order@ == old(order)@ + positions_of(flags@.take(index as int), value),
        decreases flags@.len() - index,
    {
        proof {
            assert(flags@.take(index + 1).drop_last() =~= flags@.take(index as int));
        }
        if flags[index] == value {
            order.push(index);
        }
        proof {
            let taken = flags@.take(index + 1);
            assert(taken.last() == flags@[index as int]);
            assert(order@ =~= old(order)@ + positions_of(taken, value));
        }
        index = index + 1;
    }
    proof {
        assert(flags@.take(flags@.len() as int) =~= flags@);
    }
}

/// The order in which bodies are drawn, by their positions in `solid`: the
/// bodies that are not solid first, then the solid ones over them, each in
/// the order given.
pub fn body_draw_order(solid: &Vec<bool>) -> (order: Vec<usize>)
    ensures
        order@ == positions_of(solid@, false) + positions_of(solid@, true),
{
    let mut order: Vec<usize> = Vec::new();
    push_positions_of(solid, false, &mut order);
    push_positions_of(solid, true, &mut order);
    proof {
        assert(Seq::<usize>::empty() + positions_of(solid@, false) =~= positions_of(solid@, false));
    }
    order
}

/// The main loop's bookkeeping: whether the next redraw must render the game
/// again, or may show the last frame.
pub struct Engine {
    pub width: i32,
    pub height: i32,
}

/// What the main loop hears from the window.
#[derive(Debug, PartialEq, Eq, Clone, Copy, Structural)]
pub enum LoopEvent {
    Quit,
    Resized,
    GameUpdated(Update),
}

impl Engine {
    pub fn new(width: i32, height: i32) -> (engine: Self)
        ensures
            engine.width == width,
            engine.height == height,
    {
        Self { width, height }
    }

    /// How an event changes the redraw flag, and whether the loop must end:
    /// quitting ends it; a resize or a refresh asks for a full redraw; a
    /// game asking to exit ends it; a turn with nothing to show does not.
    pub fn handle_event(redraw: bool, event: LoopEvent) -> (outcome: (bool, bool))
        ensures
            outcome == match event {
                LoopEvent::Quit => (redraw, true),
                LoopEvent::Resized => (true, false),
                LoopEvent::GameUpdated(Update::Refresh) => (true, false),
                LoopEvent::GameUpdated(Update::Exit) => (redraw, true),
                LoopEvent::GameUpdated(Update::NoOp) => (false, false),
            },
    {
        match event {
            LoopEvent::Quit => (redraw, true),
            LoopEvent::Resized => (true, false),
            LoopEvent::GameUpdated(update) => match update {
                Update::Refresh => (true, false),
                Update::Exit => (redraw, true),
                Update::NoOp => (false, false),
            },
        }
    }
}

} // verus!
