use blinky_rt::time::{TickDuration, TickInstant, Ticker};

#[test]
fn millis_round_down_to_whole_ticks() {
    assert_eq!(TickDuration::millis(0).ticks(), 0);
    assert_eq!(TickDuration::millis(1).ticks(), 32);
    assert_eq!(TickDuration::millis(100).ticks(), 3276);
    assert_eq!(TickDuration::millis(500).ticks(), 16384);
    assert_eq!(TickDuration::millis(1000).ticks(), 32768);
}

#[test]
fn an_instant_plus_a_duration_wraps_at_the_end_of_the_range() {
    let at = TickInstant::from_ticks(5);
    assert_eq!(at.plus(TickDuration::from_ticks(7)).ticks(), 12);
    let late = TickInstant::from_ticks(u64::MAX);
    assert_eq!(late.plus(TickDuration::from_ticks(2)).ticks(), 1);
}

#[test]
fn reached_is_the_order_of_nearby_instants() {
    let end = TickInstant::from_ticks(1000);
    assert!(!TickInstant::from_ticks(999).has_reached(end));
    assert!(TickInstant::from_ticks(1000).has_reached(end));
    assert!(TickInstant::from_ticks(1001).has_reached(end));
}

#[test]
fn reached_goes_the_shorter_way_round() {
    // One tick after the largest count the clock is back at zero.
    assert!(TickInstant::from_ticks(0).has_reached(TickInstant::from_ticks(u64::MAX)));
    assert!(!TickInstant::from_ticks(u64::MAX).has_reached(TickInstant::from_ticks(0)));
    // Half the range ahead is the first distance that counts as behind.
    let half: u64 = 1 << 63;
    assert!(TickInstant::from_ticks(half - 1).has_reached(TickInstant::from_ticks(0)));
    assert!(!TickInstant::from_ticks(half).has_reached(TickInstant::from_ticks(0)));
}

#[test]
fn an_instant_splits_into_epoch_and_counter() {
    let at = TickInstant::from_ticks(0x3_00_00_05);
    assert_eq!(at.epoch(), 3);
    assert_eq!(at.counter(), 5);
    let last = TickInstant::from_ticks(0xFF_FF_FF);
    assert_eq!(last.epoch(), 0);
    assert_eq!(last.counter(), 0xFF_FF_FF);
}

#[test]
fn a_stable_read_joins_count_and_counter() {
    assert_eq!(Ticker::now(0, 0, 0), Some(TickInstant::from_ticks(0)));
    assert_eq!(Ticker::now(3, 5, 3), Some(TickInstant::from_ticks(0x3_00_00_05)));
    assert_eq!(
        Ticker::now(u32::MAX, 0xFF_FF_FF, u32::MAX),
        Some(TickInstant::from_ticks(0x00FF_FFFF_FFFF_FFFF))
    );
}

#[test]
fn a_read_across_a_wrap_is_refused() {
    assert_eq!(Ticker::now(3, 5, 4), None);
    assert_eq!(Ticker::now(3, 0xFF_FF_FF, 4), None);
    assert_eq!(Ticker::now(u32::MAX, 1, 0), None);
}

#[test]
fn successive_reads_never_go_back() {
    // The counter runs 0xFFFFFE, 0xFFFFFF, then wraps to 0, 1 while the
    // overflow count goes from 0 to 1.
    let reads = [
        Ticker::now(0, 0xFF_FF_FE, 0),
        Ticker::now(0, 0xFF_FF_FF, 0),
        Ticker::now(0, 0, 1),
        Ticker::now(1, 0, 1),
        Ticker::now(1, 1, 1),
    ];
    let mut last = 0u64;
    let mut accepted = 0;
    for read in reads {
        if let Some(at) = read {
            assert!(at.ticks() >= last);
            last = at.ticks();
            accepted += 1;
        }
    }
    assert_eq!(accepted, 4);
    assert_eq!(last, 0x1_00_00_01);
}

#[test]
fn the_ticker_counts_wraps() {
    let mut ticker = Ticker::new();
    assert_eq!(ticker.ovf_count(), 0);
    assert_eq!(ticker.instant(7).ticks(), 7);
    ticker.overflow();
    ticker.overflow();
    assert_eq!(ticker.ovf_count(), 2);
    assert_eq!(ticker.instant(7).ticks(), 0x2_00_00_07);
}

#[test]
fn the_overflow_count_wraps_too() {
    let mut ticker = Ticker { ovf_count: u32::MAX };
    ticker.overflow();
    assert_eq!(ticker.ovf_count(), 0);
}
