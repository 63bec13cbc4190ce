use sensor_uplink::bus::Bus;
use sensor_uplink::measurement::{Measurement, Reading};

fn co2(at: u64, v: u16) -> Reading {
    Reading::new(at, Measurement::Co2(v))
}

#[test]
fn bus_fan_out_in_order() {
    let mut bus = Bus::new(50, 2);
    let a = bus.subscribe().unwrap();
    let b = bus.subscribe().unwrap();
    let mut seen_a = Vec::new();
    for i in 0..200u16 {
        bus.publish(co2(i as u64, i));
        seen_a.push(bus.next(a).unwrap());
        assert_eq!(bus.next(a), None);
    }
    let expected: Vec<Reading> = (0..200u16).map(|i| co2(i as u64, i)).collect();
    assert_eq!(seen_a, expected);
    // the slow subscriber only sees what is still retained
    assert_eq!(bus.next(b), Some(co2(150, 150)));
}

#[test]
fn bus_lossy_oldest() {
    let mut bus = Bus::new(3, 2);
    let slow = bus.subscribe().unwrap();
    let fast = bus.subscribe().unwrap();
    for i in 0..5u16 {
        bus.publish(co2(i as u64, i));
        assert_eq!(bus.next(fast), Some(co2(i as u64, i)));
    }
    assert_eq!(bus.next(slow), Some(co2(2, 2)));
    assert_eq!(bus.next(slow), Some(co2(3, 3)));
    assert_eq!(bus.next(slow), Some(co2(4, 4)));
    assert_eq!(bus.next(slow), None);
    assert_eq!(bus.next(fast), None);
}

#[test]
fn bus_no_loss_within_capacity() {
    let mut bus = Bus::new(3, 1);
    let s = bus.subscribe().unwrap();
    for i in 0..3u16 {
        bus.publish(co2(i as u64, i));
    }
    for i in 0..3u16 {
        assert_eq!(bus.next(s), Some(co2(i as u64, i)));
    }
    assert_eq!(bus.next(s), None);
}

#[test]
fn bus_subscriber_limit_and_late_subscriber() {
    let mut bus = Bus::new(4, 2);
    bus.publish(co2(0, 400));
    let a = bus.subscribe().unwrap();
    assert_eq!(a, 0);
    assert_eq!(bus.next(a), None);
    assert_eq!(bus.subscribe(), Some(1));
    assert_eq!(bus.subscribe(), None);
    assert_eq!(bus.subscribers(), 2);
    assert!(bus.can_publish());
}
