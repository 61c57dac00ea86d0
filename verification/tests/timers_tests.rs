use chip8::timers::Timers;

#[test]
fn no_decrement_before_a_full_tick() {
    let mut t = Timers::new();
    t.delay_timer = 5;
    t.sound_timer = 2;
    t.update(10_000);
    assert_eq!(t.delay_timer, 5);
    assert_eq!(t.sound_timer, 2);
}

#[test]
fn one_decrement_per_accumulated_tick() {
    let mut t = Timers::new();
    t.delay_timer = 5;
    t.update(10_000);
    // 17_000 microseconds in total: one tick, 333 left over
    t.update(7_000);
    assert_eq!(t.delay_timer, 4);
    assert_eq!(t.accumulated_micros, 333);
}

#[test]
fn many_small_updates_equal_one_large_one() {
    let mut a = Timers::new();
    a.delay_timer = 60;
    for _ in 0..100 {
        a.update(10_000);
    }
    let mut b = Timers::new();
    b.delay_timer = 60;
    b.update(1_000_000);
    assert_eq!(a.delay_timer, b.delay_timer);
    assert_eq!(a.accumulated_micros, b.accumulated_micros);
}

#[test]
fn a_long_stretch_drains_multiple_ticks() {
    let mut t = Timers::new();
    t.delay_timer = 10;
    t.sound_timer = 10;
    // 50_001 microseconds: exactly three ticks of 16_667
    t.update(50_001);
    assert_eq!(t.delay_timer, 7);
    assert_eq!(t.sound_timer, 7);
    assert_eq!(t.accumulated_micros, 0);
}

#[test]
fn timers_never_go_below_zero() {
    let mut t = Timers::new();
    t.delay_timer = 1;
    t.sound_timer = 0;
    t.update(1_000_000);
    assert_eq!(t.delay_timer, 0);
    assert_eq!(t.sound_timer, 0);
}
