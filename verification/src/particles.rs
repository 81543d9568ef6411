//! The particle demo's shared clock and the lifetime of its particles.

use crate::graphics::SizeInPx;
use crate::timing::duration_as_nanos;
use crate::timing::elapsed_since;
use crate::timing::instant_now;
use std::time::Instant;
use vstd::prelude::*;

verus! {

/// Lifetime of a particle, in seconds.
pub const PARTICLE_LIFE_SECONDS: u64 = 5;

/// What the game loop and the window share: the canvas size, when the world
/// was last updated, and the time between the two last updates (nanoseconds).
pub struct Shared {
    pub size: SizeInPx,
    pub last_update: Instant,
    pub elapsed_between_redraw: u128,
}

impl Default for Shared {
    fn default() -> (shared: Self)
        ensures
            shared.size == (SizeInPx { width: 0, height: 0 }),
            shared.elapsed_between_redraw == 0,
    {
        Self { size: SizeInPx { width: 0, height: 0 }, last_update: instant_now(), elapsed_between_redraw: 0 }
    }
}

impl Shared {
    pub fn new(width: u32, height: u32) -> (shared: Self)
        ensures
            shared.size == (SizeInPx { width, height }),
            shared.elapsed_between_redraw == 0,
    {
        Shared { size: SizeInPx::new(width, height), last_update: instant_now(), elapsed_between_redraw: 0 }
    }

    /// Notes an update of the world: the time since the previous one is kept,
    /// and now becomes the time of the last update. The clock decides both,
    /// so only the size is stated to stay.
    pub fn record_update(&mut self)
        ensures
            final(self).size == old(self).size,
    {
        let elapsed = duration_as_nanos(&elapsed_since(&self.last_update));
        let now = instant_now();
        self.record_update_at(now, elapsed);
    }

    /// Notes an update of the world at `now`, `elapsed` nanoseconds after the
    /// previous one.
    pub fn record_update_at(&mut self, now: Instant, elapsed: u128)
        ensures
            final(self).size == old(self).size,
            final(self).last_update == now,
            final(self).elapsed_between_redraw == elapsed,
    {
        self.elapsed_between_redraw = elapsed;
        self.last_update = now;
    }
}

/// Asks the game loop for a new particle.
pub struct SpawnCommand;

/// What is left of a particle's life after `elapsed` nanoseconds: nothing
/// (it disappears) once the time exceeds what it had left.
pub fn remaining_lifetime(current_lifetime: u128, elapsed: u128) -> (remaining: Option<u128>)
    ensures
        remaining == if current_lifetime < elapsed {
            None::<u128>
        } else {
            Some((current_lifetime - elapsed) as u128)
        },
{
    if current_lifetime < elapsed {
        None
    } else {
        Some(current_lifetime - elapsed)
    }
}

} // verus!
