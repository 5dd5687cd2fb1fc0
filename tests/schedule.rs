use bevy_liquidfun::schedule::{PhysicsClock, PhysicsUpdateStep, NANOS_PER_SECOND};

const MS: u64 = 1_000_000;

#[test]
fn three_frames_of_time_run_three_passes() {
    // A step of 1/60 s and a frame of 3/60 s = 50 ms.
    let mut clock = PhysicsClock::new(60, NANOS_PER_SECOND);
    let passes = clock.advance(50 * MS);
    assert_eq!(passes, 3);
    assert_eq!(clock.accumulator(), 0);
    assert_eq!(clock.leftover_nanos(), 0);
}

#[test]
fn half_a_step_runs_no_pass_and_is_kept() {
    // 0.5/60 s is 8_333_333.3 ns; the frame is measured in whole nanoseconds.
    let mut clock = PhysicsClock::new(60, NANOS_PER_SECOND);
    let half = NANOS_PER_SECOND / 120;
    assert_eq!(clock.advance(half), 0);
    assert_eq!(clock.leftover_nanos(), half);
    assert_eq!(clock.accumulator(), half as u128 * 60);
}

#[test]
fn sixty_frames_of_a_sixtieth_make_sixty_passes() {
    let mut clock = PhysicsClock::new(60, NANOS_PER_SECOND);
    let mut total = 0;
    // Frames of 16_666_667 ns, 16_666_667 ns and 16_666_666 ns add up to 50 ms.
    for i in 0..60u64 {
        total += clock.advance(if i % 3 == 2 { 16_666_666 } else { 16_666_667 });
    }
    assert_eq!(total, 60);
    assert_eq!(clock.accumulator(), 0);
}

#[test]
fn leftover_carries_into_next_frame() {
    // 100 steps per second: one step is 10 ms.
    let mut clock = PhysicsClock::new(100, NANOS_PER_SECOND);
    assert_eq!(clock.advance(25 * MS), 2);
    assert_eq!(clock.leftover_nanos(), 5 * MS);
    assert_eq!(clock.advance(7 * MS), 1);
    assert_eq!(clock.leftover_nanos(), 2 * MS);
}

#[test]
fn frame_delta_is_clamped() {
    let mut clock = PhysicsClock::new(100, 35 * MS);
    assert_eq!(clock.advance(1_000 * MS), 3);
    assert_eq!(clock.leftover_nanos(), 5 * MS);
    assert_eq!(clock.max_frame_delta(), 35 * MS);
    assert_eq!(clock.steps_per_second(), 100);
}

#[test]
fn zero_delta_runs_nothing() {
    let mut clock = PhysicsClock::new(60, NANOS_PER_SECOND);
    assert_eq!(clock.advance(0), 0);
    assert_eq!(clock.accumulator(), 0);
}

#[test]
fn largest_delta_does_not_overflow() {
    let mut clock = PhysicsClock::new(NANOS_PER_SECOND, u64::MAX);
    assert_eq!(clock.advance(u64::MAX), u64::MAX);
    assert_eq!(clock.accumulator(), 0);
    let mut clock = PhysicsClock::new(1, u64::MAX);
    assert_eq!(clock.advance(u64::MAX), u64::MAX / NANOS_PER_SECOND);
    assert_eq!(clock.leftover_nanos(), u64::MAX % NANOS_PER_SECOND);
}

#[test]
fn phases_run_in_order() {
    let mut order = vec![PhysicsUpdateStep::ClearEvents];
    let mut p = PhysicsUpdateStep::ClearEvents;
    while let Some(n) = p.next() {
        order.push(n);
        p = n;
    }
    assert_eq!(
        order,
        vec![
            PhysicsUpdateStep::ClearEvents,
            PhysicsUpdateStep::UserCode,
            PhysicsUpdateStep::SyncToPhysicsWorld,
            PhysicsUpdateStep::ApplyForces,
            PhysicsUpdateStep::Step,
            PhysicsUpdateStep::SyncFromPhysicsWorld,
        ]
    );
}
