use sensor_uplink::throttle::StreamThrottle;

#[test]
fn throttle_count_trigger() {
    let mut t: StreamThrottle<u32> = StreamThrottle::new(100, 30, 0);
    for i in 0..99u32 {
        assert_eq!(t.push(i, 5), None);
    }
    let batch = t.push(99, 5).unwrap();
    assert_eq!(batch, (0..100u32).collect::<Vec<u32>>());
    assert_eq!(t.pending(), 0);
    assert_eq!(t.deadline(), 35);
}

#[test]
fn throttle_timeout_trigger() {
    let mut t: StreamThrottle<u32> = StreamThrottle::new(100, 30, 0);
    assert_eq!(t.push(1, 1), None);
    assert_eq!(t.push(2, 2), None);
    assert_eq!(t.tick(29), None);
    assert_eq!(t.tick(30), Some(vec![1, 2]));
    assert_eq!(t.deadline(), 60);
    assert_eq!(t.tick(31), None);
    assert_eq!(t.tick(1000), None);
}

#[test]
fn throttle_empty_timeout() {
    let mut t: StreamThrottle<u32> = StreamThrottle::new(10, 30, 0);
    for now in (0..10_000u64).step_by(7) {
        assert_eq!(t.tick(now), None);
    }
    assert!(t.is_open());
    assert_eq!(t.pending(), 0);
}

#[test]
fn throttle_termination() {
    let mut t: StreamThrottle<u32> = StreamThrottle::new(10, 30, 0);
    t.push(7, 1);
    t.push(8, 2);
    assert_eq!(t.finish(), Some(vec![7, 8]));
    assert!(!t.is_open());
    assert_eq!(t.finish(), None);
    assert_eq!(t.push(9, 3), None);
    assert_eq!(t.tick(1000), None);

    let mut e: StreamThrottle<u32> = StreamThrottle::new(10, 30, 0);
    assert_eq!(e.finish(), None);
    assert!(!e.is_open());
}

#[test]
fn throttle_capacity_one_and_saturated_deadline() {
    let mut t: StreamThrottle<u32> = StreamThrottle::new(1, u64::MAX, 5);
    assert_eq!(t.deadline(), u64::MAX);
    assert_eq!(t.push(3, 9), Some(vec![3]));
    assert_eq!(t.push(4, 9), Some(vec![4]));
}

#[test]
fn throttle_count_trigger_tops_up_waiting_batch() {
    let mut t: StreamThrottle<u32> = StreamThrottle::new(4, 30, 0);
    assert_eq!(t.push(1, 0), None);
    assert_eq!(t.push(2, 0), None);
    assert_eq!(t.push(3, 10), None);
    assert_eq!(t.push(4, 10), Some(vec![1, 2, 3, 4]));
    assert_eq!(t.deadline(), 40);
    assert_eq!(t.push(5, 11), None);
    assert_eq!(t.finish(), Some(vec![5]));
    assert_eq!(t.tick(100), None);
}
