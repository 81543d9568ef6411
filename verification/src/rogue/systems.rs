//! What each of the roguelike's systems does to one entity.

use crate::random::drawn_i32_between;
use crate::random::random_i32_below;
use crate::rogue::components::Health;
use crate::rogue::components::Position;
use crate::rogue::components::Stats;
use crate::rogue::map::flat_index;
use crate::rogue::map::in_grid;
use crate::rogue::map::index_fits;
use crate::rogue::map::lemma_flat_index_in_grid;
use crate::rogue::map::DungeonMap;
use rand::rngs::StdRng;
use vstd::prelude::*;

verus! {

/// The step taken for a direction drawn from `0..4`: down, up, right, left.
pub open spec fn direction_offset_spec(direction: i32) -> (i32, i32) {
    if direction == 0 {
        (0, 1)
    } else if direction == 1 {
        (0, -1i32)
    } else if direction == 2 {
        (1, 0)
    } else {
        (-1i32, 0)
    }
}

pub fn direction_offset(direction: i32) -> (offset: (i32, i32))
    requires
        0 <= direction < 4,
    ensures
        offset == direction_offset_spec(direction),
{
    match direction {
        0 => (0, 1),
        1 => (0, -1),
        2 => (1, 0),
        _ => (-1, 0),
    }
}

/// Where a randomly wandering monster at `position` tries to go: one of its
/// four neighbours, drawn at random.
pub fn move_random(position: &Position, rng: &mut StdRng) -> (target: (i32, i32))
    requires
        i32::MIN < position.x < i32::MAX,
        i32::MIN < position.y < i32::MAX,
    ensures
        ({
            let (direction, after) = drawn_i32_between(*old(rng), 0, 3);
            &&& 0 <= direction < 4
            &&& target == (
                (position.x + direction_offset_spec(direction).0) as i32,
                (position.y + direction_offset_spec(direction).1) as i32,
            )
            &&& *final(rng) == after
        }),
{
    let direction = random_i32_below(rng, 0, 4);
    let (dx, dy) = direction_offset(direction);
    let x = position.x + dx;
    let y = position.y + dy;
    assert(direction_offset_spec(direction) == (dx, dy));
    (x, y)
}

/// The step a monster chasing the player takes along `path` (which starts
/// on the monster): the path's second cell, unless that is the player's own
/// cell or the path is too short.
pub fn move_to_player(path: &Vec<(i32, i32)>, player: &Position) -> (step: Option<(i32, i32)>)
    ensures
        step == if path@.len() >= 2 && !(path@[1].0 == player.x && path@[1].1 == player.y) {
            Some(path@[1])
        } else {
            None
        },
{
    if path.len() >= 2 {
        let (x, y) = path[1];
        let new_position = Position { x, y };
        if *player != new_position {
            return Some((x, y));
        }
    }
    None
}

/// Resolves a move of the entity at `position` to `(x, y)`: it happens only
/// when that cell is walkable, and a solid entity frees the cell it leaves and
/// blocks the one it enters. Gives back whether the entity moved.
pub fn move_action(map: &mut DungeonMap, position: &mut Position, solid: bool, x: i32, y: i32) -> (moved: bool)
    requires
        old(map).wf(),
        solid ==> old(map).index_ok(old(position).x, old(position).y),
    ensures
        final(map).wf(),
        final(map).width == old(map).width,
        final(map).height == old(map).height,
        final(map).tile_seq() == old(map).tile_seq(),
        final(map).revealed_seq() == old(map).revealed_seq(),
        final(map).visible_seq() == old(map).visible_seq(),
        old(map).sight_consistent() ==> final(map).sight_consistent(),
        moved == (in_grid(old(map).width as int, old(map).height as int, x as int, y as int)
            && !old(map).blocked@[flat_index(old(map).width as int, x as int, y as int)]),
        *final(position) == if moved { Position { x, y } } else { *old(position) },
        final(map).blocked@ == if moved && solid {
            old(map).blocked@.update(
                flat_index(old(map).width as int, old(position).x as int, old(position).y as int),
                false,
            ).update(flat_index(old(map).width as int, x as int, y as int), true)
        } else {
            old(map).blocked@
        },
{
    if map.is_walkable(x, y) {
        if solid {
            proof {
                lemma_flat_index_in_grid(map.width as int, map.height as int, x as int, y as int);
            }
            let previous_index = map.index_from_position(position);
            let new_index = map.index(x, y);
            map.blocked.set(previous_index, false);
            map.blocked.set(new_index, true);
        }
        position.x = x;
        position.y = y;
        true
    } else {
        false
    }
}

/// The health change an attack by an entity with `stats` inflicts.
pub fn attack_action(stats: &Stats) -> (amount: i32)
    requires
        stats.strength != i32::MIN,
    ensures
        amount == -stats.strength,
{
    -stats.strength
}

pub open spec fn clamp_health(hp: int, max_hp: int) -> int {
    if hp < 0 {
        if 0 > max_hp { max_hp } else { 0 }
    } else if hp > max_hp {
        max_hp
    } else {
        hp
    }
}

/// Health effects never leave health below zero or above the maximum (when
/// the maximum is not negative).
pub proof fn law_health_stays_in_bounds(hp: int, max_hp: int)
    requires
        0 <= max_hp,
    ensures
        0 <= clamp_health(hp, max_hp) <= max_hp,
{
}

impl Health {
    /// Applies a health effect: positive amounts heal, negative ones hurt;
    /// the result is raised to zero, then lowered to the maximum.
    pub fn apply_effect(&mut self, amount: i32)
        requires
            i32::MIN <= old(self).hp + amount <= i32::MAX,
        ensures
            final(self).max_hp == old(self).max_hp,
            final(self).hp == clamp_health(old(self).hp + amount, old(self).max_hp as int),
    {
        let raised = if self.hp + amount < 0 { 0 } else { self.hp + amount };
        self.hp = if raised > self.max_hp { self.max_hp } else { raised };
    }

    /// Whether the entity dies: no health left.
    pub fn is_dead(&self) -> (dead: bool)
        ensures
            dead == (self.hp <= 0),
    {
        self.hp <= 0
    }
}

/// Blocks exactly the unwalkable tiles and the cells of `solid_positions`.
pub fn update_blocked(map: &mut DungeonMap, solid_positions: &[Position])
    requires
        old(map).wf(),
        forall|k: int|
            0 <= k < solid_positions@.len() ==> old(map).index_ok(
                #[trigger] solid_positions@[k].x,
                solid_positions@[k].y,
            ),
    ensures
        final(map).wf(),
        final(map).width == old(map).width,
        final(map).height == old(map).height,
        final(map).tile_seq() == old(map).tile_seq(),
        final(map).revealed_seq() == old(map).revealed_seq(),
        final(map).visible_seq() == old(map).visible_seq(),
        old(map).sight_consistent() ==> final(map).sight_consistent(),
        forall|i: int|
            0 <= i < old(map).cell_count() ==> #[trigger] final(map).blocked@[i] == (!old(map).tile_seq()[i].walkable
                || exists|k: int|
                0 <= k < solid_positions@.len() && flat_index(
                    old(map).width as int,
                    (#[trigger] solid_positions@[k]).x as int,
                    solid_positions@[k].y as int,
                ) == i),
{
    map.reset_blocked();
    let mut k: usize = 0;
    while k < solid_positions.len()
        invariant
            map.wf(),
            map.width == old(map).width,
            map.height == old(map).height,
            map.tile_seq() == old(map).tile_seq(),
            map.revealed_seq() == old(map).revealed_seq(),
            map.visible_seq() == old(map).visible_seq(),
            k <= solid_positions@.len(),
            forall|j: int|
                0 <= j < solid_positions@.len() ==> old(map).index_ok(
                    #[trigger] solid_positions@[j].x,
                    solid_positions@[j].y,
                ),
            forall|i: int|
                0 <= i < old(map).cell_count() ==> #[trigger] map.blocked@[i] == (!old(map).tile_seq()[i].walkable
                    || exists|j: int|
                    0 <= j < k && flat_index(
                        old(map).width as int,
                        (#[trigger] solid_positions@[j]).x as int,
                        solid_positions@[j].y as int,
                    ) == i),
        decreases solid_positions@.len() - k,
    {
        let index = map.index_from_position(&solid_positions[k]);
        map.blocked.set(index, true);
        proof {
            let w = old(map).width as int;
            assert forall|i: int| 0 <= i < old(map).cell_count() implies #[trigger] map.blocked@[i] == (
            !old(map).tile_seq()[i].walkable || exists|j: int|
                0 <= j < k + 1 && flat_index(
                    w,
                    (#[trigger] solid_positions@[j]).x as int,
                    solid_positions@[j].y as int,
                ) == i) by {
                if i == index as int {
                    assert(flat_index(w, solid_positions@[k as int].x as int, solid_positions@[k as int].y as int) == i);
                }
            }
        }
        k = k + 1;
    }
}

/// Refreshes what the player sees: nothing stays visible but `seen`, which
/// becomes visible and revealed.
pub fn update_visible(map: &mut DungeonMap, seen: &[Position])
    requires
        old(map).wf(),
        forall|k: int| 0 <= k < seen@.len() ==> old(map).index_ok(#[trigger] seen@[k].x, seen@[k].y),
    ensures
        final(map).wf(),
        final(map).width == old(map).width,
        final(map).height == old(map).height,
        final(map).tile_seq() == old(map).tile_seq(),
        final(map).blocked@ == old(map).blocked@,
        forall|i: int|
            0 <= i < old(map).cell_count() ==> #[trigger] final(map).visible_seq()[i]
                == crate::rogue::map::marks_index(seen@, old(map).width as int, i),
        forall|i: int|
            0 <= i < old(map).cell_count() ==> #[trigger] final(map).revealed_seq()[i] == (
            old(map).revealed_seq()[i] || crate::rogue::map::marks_index(seen@, old(map).width as int, i)),
        final(map).sight_consistent(),
{
    map.reset_visible();
    map.reveal_positions(seen);
}

} // verus!
