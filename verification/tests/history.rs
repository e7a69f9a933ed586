use rin::msg::history::{record_reading, LIDAR_HISTORY_LEN};

#[test]
fn history_grows_until_its_bound() {
    let mut h: Vec<u32> = vec![];
    for i in 0..3 {
        record_reading(&mut h, i, 3);
    }
    assert_eq!(h, vec![0, 1, 2]);
}

#[test]
fn history_drops_the_oldest_reading_past_its_bound() {
    let mut h: Vec<u32> = vec![0, 1, 2];
    record_reading(&mut h, 3, 3);
    assert_eq!(h, vec![1, 2, 3]);
    record_reading(&mut h, 4, 3);
    assert_eq!(h, vec![2, 3, 4]);
}

#[test]
fn lidar_history_keeps_the_last_hundred() {
    let mut h: Vec<u32> = vec![];
    for i in 0..250u32 {
        record_reading(&mut h, i, LIDAR_HISTORY_LEN);
    }
    assert_eq!(h.len(), 100);
    assert_eq!(h[0], 150);
    assert_eq!(h[99], 249);
}
