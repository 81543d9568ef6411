//! Game logic and rendering bookkeeping for the Tīefring 2D renderer and the
//! games built on it (a roguelike, a snake game, a particle demo).

pub mod random;
pub mod rogue;
pub mod timing;
pub mod snake;
pub mod graphics;
pub mod glyphs;
pub mod buffers;
pub mod particles;
