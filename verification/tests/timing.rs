use firework::time::{Ticker, Timer};

#[test]
fn timer_reports_deltas_and_counts_frames() {
    let mut t = Timer::new();
    assert_eq!(t.delta(), 0);
    assert_eq!(t.frame_cnt(), 0);
    assert_eq!(t.mark_frame(100), 100);
    assert_eq!(t.mark_frame(250), 150);
    assert_eq!(t.mark_frame(250), 0);
    assert_eq!(t.delta(), 0);
    assert_eq!(t.frame_cnt(), 3);
}

#[test]
fn ticker_fires_once_a_period_has_accumulated() {
    let mut k = Ticker::new(50);
    assert_eq!(k.period, 20);
    assert!(k.ticker(10).is_none());
    assert_eq!(k.ticker(25), Some(25));
    assert!(k.ticker(30).is_none());
    assert!(k.ticker(44).is_none());
    assert_eq!(k.ticker(45), Some(20));
}

#[test]
fn ticker_fires_exactly_at_the_period() {
    let mut k = Ticker::new(1);
    assert_eq!(k.period, 1000);
    assert!(k.ticker(999).is_none());
    assert_eq!(k.ticker(1000), Some(1000));
}

#[test]
fn ticker_cadence_is_wall_clock_not_frames() {
    // many fast polls fire no more often than the period allows
    let mut k = Ticker::new(50);
    let mut fired = 0u32;
    for now in (0..1000u64).step_by(5) {
        if k.ticker(now).is_some() {
            fired += 1;
        }
    }
    // 1000 ms at 50 Hz is at most 50 firings
    assert!(fired <= 50);
    assert!(fired >= 40);
}
