use sensor_uplink::connection::{ConnectionManager, ConnectionState, LinkAction, LinkEvent};

#[test]
fn connection_startup_and_connect() {
    let mut m = ConnectionManager::new(5000);
    assert_eq!(m.state, ConnectionState::Disconnected { retry_at: 0 });
    assert_eq!(m.step(LinkEvent::Tick, 0), LinkAction::Connect);
    assert_eq!(m.state, ConnectionState::Connecting);
    assert!(!m.is_connected());
    assert_eq!(m.step(LinkEvent::Associated, 10), LinkAction::Idle);
    assert!(m.is_connected());
    assert_eq!(m.step(LinkEvent::Tick, 20), LinkAction::Idle);
    assert_eq!(m.step(LinkEvent::LinkLost, 30), LinkAction::WaitUntil(5030));
    assert_eq!(m.state, ConnectionState::Disconnected { retry_at: 5030 });
    assert_eq!(m.step(LinkEvent::Tick, 30), LinkAction::WaitUntil(5030));
    assert_eq!(m.step(LinkEvent::Tick, 5029), LinkAction::WaitUntil(5030));
    assert_eq!(m.step(LinkEvent::LinkLost, 5029), LinkAction::Idle);
    assert_eq!(m.step(LinkEvent::Tick, 5030), LinkAction::Connect);
}

#[test]
fn connection_backoff() {
    let mut m = ConnectionManager::new(5000);
    m.step(LinkEvent::Tick, 0);
    assert_eq!(m.step(LinkEvent::Failed, 100), LinkAction::WaitUntil(5100));
    assert_eq!(m.state, ConnectionState::Faulted { retry_at: 5100 });
    assert_eq!(m.step(LinkEvent::Tick, 101), LinkAction::WaitUntil(5100));
    assert_eq!(m.step(LinkEvent::Tick, 5099), LinkAction::WaitUntil(5100));
    assert_eq!(m.step(LinkEvent::Associated, 5099), LinkAction::Idle);
    assert!(!m.is_connected());
    assert_eq!(m.step(LinkEvent::Tick, 5100), LinkAction::Connect);
    assert_eq!(m.state, ConnectionState::Connecting);
}

#[test]
fn connection_fault_from_connected() {
    let mut m = ConnectionManager::new(7);
    m.step(LinkEvent::Tick, 0);
    m.step(LinkEvent::Associated, 1);
    assert_eq!(m.step(LinkEvent::Failed, u64::MAX - 2), LinkAction::WaitUntil(u64::MAX));
    assert_eq!(m.step(LinkEvent::LinkLost, u64::MAX - 1), LinkAction::Idle);
    assert_eq!(m.state, ConnectionState::Faulted { retry_at: u64::MAX });
}
