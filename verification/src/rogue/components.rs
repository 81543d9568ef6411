//! Plain data carried by the roguelike's entities.

use vstd::prelude::*;

verus! {

/// A display name.
pub struct Name(pub String);

/// A cell of the map.
#[derive(Debug, Clone, Copy, PartialEq, Eq, Structural)]
pub struct Position {
    pub x: i32,
    pub y: i32,
}

impl Position {
    pub fn new(x: i32, y: i32) -> (position: Self)
        ensures
            position == (Position { x, y }),
    {
        Self { x, y }
    }
}

/// What an entity looks like.
pub struct Body {
    pub body_type: BodyType,
}

impl Body {
    pub fn new(body_type: BodyType) -> (body: Self)
        ensures
            body.body_type == body_type,
    {
        Self { body_type }
    }
}

#[derive(Debug, PartialEq, Eq, Clone, Copy, Structural)]
pub enum BodyType {
    Hero,
    Orc,
    Deer,
    BonePile,
}

impl BodyType {
    /// The column and row, in the characters tile set, of the sprite drawn for
    /// this kind of body.
    pub fn sprite_coordinates(&self) -> (coordinates: (u32, u32))
        ensures
            coordinates == (match *self {
                BodyType::Hero => (0u32, 0u32),
                BodyType::Orc => (1u32, 0u32),
                BodyType::Deer => (2u32, 0u32),
                BodyType::BonePile => (0u32, 1u32),
            }),
    {
        match self {
            BodyType::Hero => (0, 0),
            BodyType::Orc => (1, 0),
            BodyType::Deer => (2, 0),
            BodyType::BonePile => (0, 1),
        }
    }
}

/// Marks the entity the player controls.
pub struct Player;

/// Marks the entities the player fights.
pub struct Monster;

/// Marks monsters that wander at random.
pub struct MoveRandom;

/// Marks monsters that walk towards the player when they see it.
pub struct MoveClose;

/// The cells an entity currently sees, and how far it can see.
pub struct Vision {
    pub visible_positions: Vec<Position>,
    pub view_distance: i32,
}

impl Vision {
    pub fn new(view_distance: i32) -> (vision: Self)
        ensures
            vision.visible_positions@.len() == 0,
            vision.view_distance == view_distance,
    {
        Self { visible_positions: Vec::new(), view_distance }
    }

    /// Whether `position` is among the cells currently seen.
    pub fn sees(&self, position: &Position) -> (seen: bool)
        ensures
            seen == self.visible_positions@.contains(*position),
    {
        let mut i: usize = 0;
        while i < self.visible_positions.len()
            invariant
                i <= self.visible_positions@.len(),
                forall|k: int| 0 <= k < i ==> self.visible_positions@[k] != *position,
            decreases self.visible_positions@.len() - i,
        {
            if self.visible_positions[i] == *position {
                assert(self.visible_positions@[i as int] == *position);
                return true;
            }
            i = i + 1;
        }
        false
    }
}

/// Marks entities that block the cell they stand on.
pub struct Solid;

pub struct Health {
    pub hp: i32,
    pub max_hp: i32,
}

impl Health {
    pub fn full_health(max_hp: i32) -> (health: Self)
        ensures
            health.hp == max_hp,
            health.max_hp == max_hp,
    {
        Self { hp: max_hp, max_hp }
    }
}

pub struct Stats {
    pub strength: i32,
    pub dexterity: i32,
    pub constitution: i32,
    pub magic: i32,
}

impl Stats {
    pub fn new(strength: i32, dexterity: i32, constitution: i32, magic: i32) -> (stats: Self)
        ensures
            stats.strength == strength,
            stats.dexterity == dexterity,
            stats.constitution == constitution,
            stats.magic == magic,
    {
        Self { strength, dexterity, constitution, magic }
    }

    /// The health that the constitution gives: ten, plus two per point.
    pub fn max_health(&self) -> (max: i32)
        requires
            i32::MIN <= 2 * self.constitution,
            10 + 2 * self.constitution <= i32::MAX,
        ensures
            max == 10 + 2 * self.constitution,
    {
        10 + self.constitution * 2
    }
}

} // verus!
