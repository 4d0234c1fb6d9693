use percentile_kit::ring::{live_window_samples, slot_index, window_count, window_start};
use percentile_kit::sample_bits::NAN_BITS;

#[test]
fn slots_and_window_bounds() {
    assert_eq!(slot_index(0, 4), 0);
    assert_eq!(slot_index(9, 4), 1);
    assert_eq!(window_start(3, 4), 0);
    assert_eq!(window_start(10, 4), 6);
    assert_eq!(window_count(3, 4), 3);
    assert_eq!(window_count(10, 4), 4);
}

#[test]
fn window_is_read_in_ticket_order() {
    // Ring of 4 after tickets 0..6 wrote 10..15: slots hold 14, 15, 12, 13.
    let slots = [14, 15, 12, 13];
    assert_eq!(live_window_samples(&slots, 6), vec![12, 13, 14, 15]);
}

#[test]
fn sentinel_slots_are_dropped() {
    let slots = [7, NAN_BITS, 9, NAN_BITS];
    assert_eq!(live_window_samples(&slots, 3), vec![7, 9]);
    assert_eq!(live_window_samples(&slots, 0), Vec::<u64>::new());
    assert_eq!(live_window_samples(&[], 5), Vec::<u64>::new());
}
