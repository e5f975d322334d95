use logic_sim::clock::TickClock;

#[test]
fn ten_hz_after_one_second_and_a_twentieth() {
    // 10 Hz for 1.05 s with nothing carried: exactly 10 ticks are due and
    // exactly half a tick is carried forward.
    let mut clock = TickClock::new(10);
    let ticks = clock.advance(1_050_000);
    assert_eq!(ticks, 10);
    assert_eq!(clock.remainder_micros(), 500_000);
    assert_eq!(clock.frequency(), 10);
}

#[test]
fn sub_tick_elapsed_accumulates_without_loss() {
    let mut clock = TickClock::new(10);
    assert_eq!(clock.advance(40_000), 0); // 0.4 of a tick
    assert_eq!(clock.remainder_micros(), 400_000);
    assert_eq!(clock.advance(40_000), 0); // 0.8
    assert_eq!(clock.remainder_micros(), 800_000);
    assert_eq!(clock.advance(40_000), 1); // 1.2: one tick, 0.2 carried
    assert_eq!(clock.remainder_micros(), 200_000);
}

#[test]
fn split_frames_never_drift() {
    let mut whole = TickClock::new(37);
    let mut split = TickClock::new(37);
    let t_whole = whole.advance(1_234_567);
    let t_split = split.advance(1_000_000) + split.advance(234_567);
    assert_eq!(t_whole, t_split);
    assert_eq!(whole.remainder_micros(), split.remainder_micros());
}

#[test]
fn frequency_change_keeps_the_carried_remainder() {
    let mut clock = TickClock::new(10);
    assert_eq!(clock.advance(50_000), 0);
    assert_eq!(clock.remainder_micros(), 500_000);
    clock.set_frequency(100);
    assert_eq!(clock.frequency(), 100);
    assert_eq!(clock.remainder_micros(), 500_000);
    // Half a tick carried plus 0.5 of a tick at 100 Hz: exactly one tick.
    assert_eq!(clock.advance(5_000), 1);
    assert_eq!(clock.remainder_micros(), 0);
}

#[test]
fn zero_elapsed_yields_zero_ticks() {
    let mut clock = TickClock::new(60);
    assert_eq!(clock.advance(0), 0);
    assert_eq!(clock.remainder_micros(), 0);
}

#[test]
fn one_exact_period_yields_one_tick() {
    let mut clock = TickClock::new(100);
    assert_eq!(clock.advance(10_000), 1);
    assert_eq!(clock.remainder_micros(), 0);
}
