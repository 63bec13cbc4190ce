use sensor_uplink::bus::Bus;
use sensor_uplink::connection::{ConnectionManager, ConnectionState, LinkEvent};
use sensor_uplink::measurement::{Measurement, Reading, TICKS_PER_SECOND};
use sensor_uplink::throttle::StreamThrottle;
use sensor_uplink::uplink::{collect_batches, deliver, Delivery, BUFFER_LEN};
use sensor_uplink::wire::{decode, EncodeError, WireEntry};

#[test]
fn end_to_end_three_readings() {
    let s = TICKS_PER_SECOND;
    let mut bus = Bus::new(50, 2);
    let indicator = bus.subscribe().unwrap();
    let uplink = bus.subscribe().unwrap();
    let mut batcher: StreamThrottle<Reading> = StreamThrottle::new(100, 30 * s, 0);
    let mut conn = ConnectionManager::new(5 * s);
    conn.step(LinkEvent::Tick, 0);
    conn.step(LinkEvent::Associated, 0);

    let t = [s, 2 * s, 3 * s];
    bus.publish(Reading::new(t[0], Measurement::Temperature(21.5f32.to_bits())));
    bus.publish(Reading::new(t[1], Measurement::Humidity(40.2f32.to_bits())));
    bus.publish(Reading::new(t[2], Measurement::Co2(550)));

    let mut batches = Vec::new();
    while let Some(r) = bus.next(uplink) {
        if let Some(b) = batcher.push(r, r.at) {
            batches.push((r.at, b));
        }
    }
    let mut now = 3 * s;
    while now < 60 * s {
        if let Some(b) = batcher.tick(now) {
            batches.push((now, b));
            break;
        }
        now += s;
    }
    assert!(batches.len() == 1);
    let (emitted_at, batch) = batches.pop().unwrap();
    assert_eq!(emitted_at, 30 * s);
    assert_eq!(batch.len(), 3);

    let bytes = match deliver(&batch, emitted_at, conn.state, BUFFER_LEN).unwrap() {
        Delivery::Send(b) => b,
        Delivery::Drop => panic!("connected transport must send"),
    };
    let got = decode(&bytes).unwrap();
    assert_eq!(
        got,
        vec![
            WireEntry { time_since_seconds: 29, measurement: Measurement::Temperature(21.5f32.to_bits()) },
            WireEntry { time_since_seconds: 28, measurement: Measurement::Humidity(40.2f32.to_bits()) },
            WireEntry { time_since_seconds: 27, measurement: Measurement::Co2(550) },
        ]
    );
    // the indicator subscriber still sees all three readings
    assert_eq!(bus.next(indicator).unwrap().at, t[0]);
}

#[test]
fn uplink_drops_while_disconnected() {
    let batch = vec![Reading::new(0, Measurement::Co2(700))];
    assert!(matches!(deliver(&batch, 0, ConnectionState::Connecting, BUFFER_LEN), Ok(Delivery::Drop)));
    assert!(matches!(
        deliver(&batch, 0, ConnectionState::Faulted { retry_at: 9 }, BUFFER_LEN),
        Ok(Delivery::Drop)
    ));
    assert!(matches!(deliver(&batch, 0, ConnectionState::Connected, 12), Err(EncodeError::EncodingOverflow)));
    match deliver(&batch, 2 * TICKS_PER_SECOND, ConnectionState::Connected, 13) {
        Ok(Delivery::Send(b)) => assert_eq!(b, vec![1, 0, 0, 0, 2, 0, 0, 0, 2, 0xbc, 0x02, 0, 0]),
        _ => panic!("expected a send"),
    }
}

#[test]
fn uplink_full_batch_fits_buffer() {
    let batch: Vec<Reading> = (0..100u16).map(|i| Reading::new(0, Measurement::Co2(i))).collect();
    assert!(matches!(deliver(&batch, 0, ConnectionState::Connected, BUFFER_LEN), Ok(Delivery::Send(_))));
}

#[test]
fn uplink_collect_batches_in_order() {
    let mut bus = Bus::new(5, 1);
    let sub = bus.subscribe().unwrap();
    let mut batcher: StreamThrottle<Reading> = StreamThrottle::new(3, 100, 0);
    for i in 0..8u16 {
        bus.publish(Reading::new(i as u64, Measurement::Co2(i)));
    }
    // the subscriber lagged: readings 0..3 were overwritten
    let batches = collect_batches(&mut bus, sub, &mut batcher, 50);
    let co2: Vec<Vec<u16>> = batches
        .iter()
        .map(|b| b.iter().map(|r| match r.measurement {
            Measurement::Co2(c) => c,
            _ => u16::MAX,
        }).collect())
        .collect();
    assert_eq!(co2, vec![vec![3, 4, 5]]);
    assert_eq!(batcher.pending(), 2);
    assert_eq!(bus.next(sub), None);
    assert!(collect_batches(&mut bus, sub, &mut batcher, 149).is_empty());
    let later = collect_batches(&mut bus, sub, &mut batcher, 150);
    assert_eq!(later.len(), 1);
    assert_eq!(later[0].len(), 2);
    assert_eq!(later[0][1].measurement, Measurement::Co2(7));
    assert_eq!(batcher.pending(), 0);
}
