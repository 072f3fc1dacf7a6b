use lib::timer::{
    cpu_hz, max_suppressed_ticks, ms_to_ticks, ticks_per_second, ticks_to_ms, Deadline, Timer,
};

#[test]
fn clock_constants() {
    assert_eq!(cpu_hz(), 8_000_000);
    assert_eq!(ticks_per_second(), 1_000);
    assert_eq!(max_suppressed_ticks(), 2097);
}

#[test]
fn ms_and_tick_conversions() {
    assert_eq!(ms_to_ticks(0), 0);
    assert_eq!(ms_to_ticks(1), 1);
    assert_eq!(ms_to_ticks(250), 250);
    assert_eq!(ms_to_ticks(4_294_967), 4_294_967);
    assert_eq!(ms_to_ticks(u32::MAX), 4_294_968);
    assert_eq!(ticks_to_ms(10), 10);
    assert_eq!(ticks_to_ms(u32::MAX), 4_294_967);
}

#[test]
fn deadline_survives_wraparound() {
    let now = u32::MAX - 5;
    let d = Deadline::after_ticks(now, 10);
    assert_eq!(d.tick(), 4);
    assert!(!d.is_reached(now));
    assert_eq!(d.remaining_ticks(now), 10);
    assert!(!d.is_reached(u32::MAX));
    assert_eq!(d.remaining_ticks(u32::MAX), 5);
    assert!(d.is_reached(4));
    assert_eq!(d.remaining_ticks(4), 0);
    assert!(d.is_reached(100));
    assert_eq!(d.remaining_ms(0), 4);
}

#[test]
fn deadline_reached_window_is_half_the_range() {
    let d = Deadline::at_tick(0);
    assert!(d.is_reached(0));
    assert!(d.is_reached(u32::MAX / 2 - 1));
    assert!(!d.is_reached(u32::MAX / 2));
    assert_eq!(d.remaining_ticks(u32::MAX), 1);
    assert_eq!(Deadline::after_ms(100, 5).tick(), 105);
}

#[test]
fn tick_interval_reload_values() {
    let mut timer = Timer::new();
    assert_eq!(timer.program_tick_interval(0), 7_999);
    assert_eq!(timer.program_tick_interval(1), 7_999);
    assert_eq!(timer.program_tick_interval(3), 23_999);
    assert_eq!(timer.program_tick_interval(100_000), 2097 * 8000 - 1);
}

#[test]
fn systick_advances_by_stretched_period() {
    let mut timer = Timer::new();
    assert_eq!(timer.on_systick(), None);
    assert_eq!(timer.tick_count(), 1);
    assert_eq!(timer.begin_tickless_idle(Deadline::at_tick(1)), None);
    assert_eq!(timer.begin_tickless_idle(Deadline::at_tick(2)), None);
    assert_eq!(timer.begin_tickless_idle(Deadline::at_tick(51)), Some(50 * 8000 - 1));
    assert_eq!(timer.on_systick(), Some(7_999));
    assert_eq!(timer.tick_count(), 51);
    assert_eq!(timer.on_systick(), None);
    assert_eq!(timer.tick_count(), 52);
    assert_eq!(timer.begin_tickless_idle(Deadline::at_tick(52 + 10_000)), Some(2097 * 8000 - 1));
}
