use vnc_client::stats::{most_common_encoding, ConnectionStatsTracker};

#[test]
fn most_common_ignores_pseudo_encodings() {
    let encodings = vec![16, 16, -239, 16, -240];
    assert_eq!(most_common_encoding(&encodings), 16);
}

#[test]
fn most_common_empty_defaults_to_unknown() {
    assert_eq!(most_common_encoding(&[]), -1);
}

#[test]
fn most_common_all_pseudo_defaults_to_unknown() {
    assert_eq!(most_common_encoding(&[-239, -240]), -1);
}

#[test]
fn first_of_the_most_frequent_wins() {
    assert_eq!(most_common_encoding(&[5, 7, 7, 5]), 5);
    assert_eq!(most_common_encoding(&[16, 5, 5]), 5);
}

#[test]
fn sample_reports_the_difference() {
    let mut tracker = ConnectionStatsTracker::new(1_000);
    tracker.record_frame(7);
    tracker.record_frame(7);
    let stats = tracker.sample(640, 480, 3_000, 100, 50);
    assert_eq!((stats.width, stats.height), (640, 480));
    assert_eq!(stats.frames, 2);
    assert_eq!((stats.rx_bytes, stats.tx_bytes), (100, 50));
    assert_eq!(stats.elapsed, 2_000);
    let again = tracker.sample(640, 480, 4_000, 150, 50);
    assert_eq!((again.frames, again.rx_bytes, again.tx_bytes), (0, 50, 0));
}
