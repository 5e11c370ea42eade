use rs1030::stream::{StreamTally, StreamWindow};
use rs1030::UplinkTiming;

#[test]
fn stream_window_lets_each_frame_through_once() {
    let t = UplinkTiming::default();
    let mut w = StreamWindow::new(&t);
    // 665 samples for a long frame, plus P6 offset 70, guard 10 and 32.
    assert_eq!(w.overlap, 777);
    assert_eq!(w.base_idx, 0);
    assert!(w.is_new(0));
    let mut accepted = Vec::new();
    // First chunk: bursts at 100 and 900.
    for p1 in [100usize, 900] {
        if w.is_new(p1) {
            accepted.push(p1);
            w.record(p1);
        }
    }
    assert_eq!(w.trim(1000), 223);
    assert_eq!(w.base_idx, 223);
    assert_eq!(w.local_index(900), 677);
    assert_eq!(w.local_index(5), 0);
    // Second scan sees 900 again in the overlap, then a new burst at 1500.
    for p1 in [900usize, 1500] {
        if w.is_new(p1) {
            accepted.push(p1);
            w.record(p1);
        }
    }
    assert_eq!(accepted, vec![100, 900, 1500]);
    assert_eq!(w.last_detection_p1, Some(1500));
    assert_eq!(w.trim(500), 0);
    assert_eq!(w.base_idx, 223);
}

#[test]
fn stream_tally_counts_each_frame_once() {
    let t = UplinkTiming::default();
    let mut w = StreamWindow::new(&t);
    let mut tally = StreamTally::new();
    assert_eq!(tally.decoded_count(), 0);
    for (p1, uf) in [(100usize, 0u8), (900, 20), (900, 20), (50, 4), (1500, 20)] {
        if w.is_new(p1) {
            tally.count_frame(&mut w, p1, uf);
        }
    }
    tally.count(31);
    assert_eq!(tally.decoded_count(), 4);
    assert_eq!(tally.count_of(0), 1);
    assert_eq!(tally.count_of(20), 2);
    assert_eq!(tally.count_of(4), 0);
    assert_eq!(tally.count_of(31), 1);
    let sum: usize = (0u8..32).map(|uf| tally.count_of(uf)).sum();
    assert_eq!(sum, tally.decoded_count());
    assert_eq!(w.last_detection_p1, Some(1500));
}
