use ripple_board::registry::{Registry, RippleHandle, RIPPLE_LIFETIME_NANOS};

const SECOND: u64 = 1_000_000_000;

#[test]
fn lifetime_is_fifteen_seconds() {
    assert_eq!(RIPPLE_LIFETIME_NANOS, 15 * SECOND);
}

#[test]
fn new_registry_is_empty() {
    let registry: Registry<(f64, f64)> = Registry::new();
    assert_eq!(registry.len(), 0);
    assert!(registry.is_empty());
    assert_eq!(registry.spawned_count(), 0);
    assert!(registry.iterate_active().is_empty());
}

#[test]
fn spawn_starts_a_ripple_of_age_zero() {
    let mut registry: Registry<(f64, f64)> = Registry::new();
    let handle = registry.spawn((3.5, -2.0));
    assert_eq!(handle, RippleHandle { id: 0 });
    assert_eq!(registry.len(), 1);
    assert!(!registry.is_empty());
    assert_eq!(registry.iterate_active(), vec![((3.5, -2.0), 0)]);
}

#[test]
fn handles_count_up_and_are_not_reused() {
    let mut registry: Registry<(f64, f64)> = Registry::new();
    let first = registry.spawn((0.0, 0.0));
    let second = registry.spawn((1.0, 1.0));
    assert_eq!(first.id, 0);
    assert_eq!(second.id, 1);
    registry.advance_all(RIPPLE_LIFETIME_NANOS);
    assert!(registry.is_empty());
    let third = registry.spawn((2.0, 2.0));
    assert_eq!(third.id, 2);
    assert_ne!(third, first);
    assert_ne!(third, second);
    assert_eq!(registry.spawned_count(), 3);
}

#[test]
fn advancing_makes_every_ripple_older() {
    let mut registry: Registry<(f64, f64)> = Registry::new();
    registry.spawn((1.0, 2.0));
    registry.advance_all(SECOND);
    registry.spawn((3.0, 4.0));
    registry.advance_all(250_000_000);
    assert_eq!(
        registry.iterate_active(),
        vec![((1.0, 2.0), 1_250_000_000), ((3.0, 4.0), 250_000_000)]
    );
}

#[test]
fn a_frame_of_no_time_changes_nothing() {
    let mut registry: Registry<(f64, f64)> = Registry::new();
    registry.spawn((1.0, 2.0));
    registry.advance_all(7);
    registry.advance_all(0);
    assert_eq!(registry.iterate_active(), vec![((1.0, 2.0), 7)]);
}

#[test]
fn ripple_lives_until_one_nanosecond_before_its_lifetime() {
    let mut registry: Registry<(f64, f64)> = Registry::new();
    registry.spawn((0.0, 0.0));
    registry.advance_all(RIPPLE_LIFETIME_NANOS - 1);
    assert_eq!(registry.iterate_active(), vec![((0.0, 0.0), 14_999_999_999)]);
    registry.advance_all(1);
    assert!(registry.iterate_active().is_empty());
}

#[test]
fn ripple_expires_when_its_age_reaches_the_lifetime() {
    let mut registry: Registry<(f64, f64)> = Registry::new();
    registry.spawn((0.0, 0.0));
    registry.advance_all(RIPPLE_LIFETIME_NANOS);
    assert_eq!(registry.len(), 0);
}

#[test]
fn ripple_expires_when_its_age_passes_the_lifetime() {
    let mut registry: Registry<(f64, f64)> = Registry::new();
    registry.spawn((0.0, 0.0));
    registry.advance_all(14 * SECOND);
    registry.advance_all(2 * SECOND);
    assert_eq!(registry.len(), 0);
}

#[test]
fn the_longest_frame_expires_everything() {
    let mut registry: Registry<(f64, f64)> = Registry::new();
    registry.spawn((0.0, 0.0));
    registry.advance_all(5);
    registry.spawn((1.0, 0.0));
    registry.advance_all(u64::MAX);
    assert!(registry.is_empty());
}

#[test]
fn expired_ripple_is_absent_on_and_after_the_frame_it_expires() {
    let mut registry: Registry<(f64, f64)> = Registry::new();
    registry.spawn((0.0, 0.0));
    let frame = 10_000_000;
    for n in 1..=1499u64 {
        let active = registry.begin_frame(frame);
        assert_eq!(active, vec![((0.0, 0.0), n * frame)]);
    }
    for _ in 0..10 {
        let active = registry.begin_frame(frame);
        assert!(active.is_empty());
        assert!(registry.is_empty());
    }
}

#[test]
fn only_the_expired_leave_and_the_rest_keep_their_order() {
    let mut registry: Registry<(f64, f64)> = Registry::new();
    registry.spawn((1.0, 0.0));
    registry.advance_all(10 * SECOND);
    registry.spawn((2.0, 0.0));
    registry.advance_all(2 * SECOND);
    registry.spawn((3.0, 0.0));
    registry.advance_all(3 * SECOND);
    assert_eq!(
        registry.iterate_active(),
        vec![((2.0, 0.0), 5 * SECOND), ((3.0, 0.0), 3 * SECOND)]
    );
    registry.advance_all(10 * SECOND);
    assert_eq!(registry.iterate_active(), vec![((3.0, 0.0), 13 * SECOND)]);
}

#[test]
fn two_frames_leave_what_one_frame_of_their_sum_leaves() {
    let mut split: Registry<(f64, f64)> = Registry::new();
    let mut whole: Registry<(f64, f64)> = Registry::new();
    for registry in [&mut split, &mut whole] {
        registry.spawn((1.0, 0.0));
        registry.advance_all(9 * SECOND);
        registry.spawn((2.0, 0.0));
        registry.advance_all(4 * SECOND);
        registry.spawn((3.0, 0.0));
    }
    split.advance_all(1_500_000_000);
    split.advance_all(1_500_000_000);
    whole.advance_all(3 * SECOND);
    assert_eq!(split.iterate_active(), whole.iterate_active());
    assert_eq!(whole.iterate_active(), vec![((2.0, 0.0), 7 * SECOND), ((3.0, 0.0), 3 * SECOND)]);
}

#[test]
fn click_outside_every_cell_leaves_the_registry_unchanged() {
    let mut registry: Registry<(f64, f64)> = Registry::new();
    registry.spawn((1.0, 1.0));
    registry.advance_all(SECOND);
    let before = registry.iterate_active();
    let spawned = registry.spawn_on_click((500.0, 500.0), false);
    assert_eq!(spawned, None);
    assert_eq!(registry.len(), 1);
    assert_eq!(registry.spawned_count(), 1);
    assert_eq!(registry.iterate_active(), before);
}

#[test]
fn click_outside_on_an_empty_registry_spawns_nothing() {
    let mut registry: Registry<(f64, f64)> = Registry::new();
    assert_eq!(registry.spawn_on_click((0.0, 0.0), false), None);
    assert!(registry.is_empty());
}

#[test]
fn click_inside_a_cell_spawns_one_ripple_there() {
    let mut registry: Registry<(f64, f64)> = Registry::new();
    let spawned = registry.spawn_on_click((12.0, -7.5), true);
    assert_eq!(spawned, Some(RippleHandle { id: 0 }));
    assert_eq!(registry.iterate_active(), vec![((12.0, -7.5), 0)]);
}

#[test]
fn frame_advances_before_it_lists() {
    let mut registry: Registry<(f64, f64)> = Registry::new();
    registry.spawn((1.0, 0.0));
    registry.advance_all(14 * SECOND);
    registry.spawn((2.0, 0.0));
    let active = registry.begin_frame(SECOND);
    assert_eq!(active, vec![((2.0, 0.0), SECOND)]);
    assert_eq!(registry.iterate_active(), active);
}

#[test]
fn frame_without_ripples_lists_nothing() {
    let mut registry: Registry<(f64, f64)> = Registry::new();
    for _ in 0..3 {
        assert!(registry.begin_frame(16_666_667).is_empty());
        assert!(registry.is_empty());
    }
}

#[test]
fn registry_carries_any_position_type() {
    let mut registry: Registry<(i32, i32)> = Registry::new();
    registry.spawn((-4, 9));
    registry.advance_all(3);
    assert_eq!(registry.iterate_active(), vec![((-4, 9), 3)]);
}
