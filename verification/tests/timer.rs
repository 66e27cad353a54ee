use invaders::timer::FireTimer;

#[test]
fn timer_is_ready_when_a_period_completes() {
    let mut t = FireTimer::new(100_000);
    assert!(!t.tick(60_000));
    assert_eq!(t.elapsed_us, 60_000);
    assert!(t.tick(60_000));
    assert_eq!(t.elapsed_us, 20_000);
    assert!(!t.tick(15_625));
    assert_eq!(t.elapsed_us, 35_625);
}

#[test]
fn timer_takes_off_every_full_period() {
    let mut t = FireTimer::new(100_000);
    assert!(t.tick(250_000));
    assert_eq!(t.elapsed_us, 50_000);
}

#[test]
fn timer_with_zero_period_is_always_ready() {
    let mut t = FireTimer::new(0);
    assert!(t.tick(0));
    assert_eq!(t.elapsed_us, 0);
    assert!(t.tick(7));
    assert_eq!(t.elapsed_us, 0);
}
