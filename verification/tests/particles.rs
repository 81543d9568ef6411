use tiefring::graphics::SizeInPx;
use tiefring::particles::remaining_lifetime;
use tiefring::particles::Shared;
use tiefring::particles::PARTICLE_LIFE_SECONDS;

#[test]
fn particles_lose_life_then_vanish() {
    assert_eq!(remaining_lifetime(5_000, 1_000), Some(4_000));
    assert_eq!(remaining_lifetime(1_000, 1_000), Some(0));
    assert_eq!(remaining_lifetime(999, 1_000), None);
    assert_eq!(PARTICLE_LIFE_SECONDS, 5);
}

#[test]
fn shared_state_starts_still() {
    let shared = Shared::new(800, 600);
    assert_eq!(shared.size, SizeInPx::new(800, 600));
    assert_eq!(shared.elapsed_between_redraw, 0);
    let default = Shared::default();
    assert_eq!(default.size, SizeInPx::new(0, 0));
}

#[test]
fn recording_an_update_keeps_the_size() {
    let mut shared = Shared::new(20, 10);
    shared.record_update();
    assert_eq!(shared.size, SizeInPx::new(20, 10));
}

#[test]
fn an_update_at_a_given_time_is_recorded() {
    let mut shared = Shared::new(20, 10);
    let now = std::time::Instant::now();
    shared.record_update_at(now, 16_000_000);
    assert_eq!(shared.last_update, now);
    assert_eq!(shared.elapsed_between_redraw, 16_000_000);
    assert_eq!(shared.size, SizeInPx::new(20, 10));
}
