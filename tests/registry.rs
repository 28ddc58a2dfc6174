use echo_registry::{AcceptAction, AcceptEvent, EchoServer, PortRegistry};

#[test]
fn registry_starts_empty_and_records_one_port() {
    let mut reg = PortRegistry::new();
    for p in [0u16, 1, 80, 5000, 5001, 12345, u16::MAX] {
        assert!(!reg.contains(p));
    }
    reg.insert(5000);
    assert!(reg.contains(5000));
    assert!(!reg.contains(5001));
    assert!(!reg.contains(4999));
}

#[test]
fn registry_insert_is_idempotent() {
    let mut reg = PortRegistry::new();
    reg.insert(7);
    reg.insert(7);
    assert!(reg.contains(7));
    assert!(!reg.contains(8));
}

#[test]
fn registry_observe_reports_earlier_sightings() {
    let mut reg = PortRegistry::new();
    assert!(!reg.observe(40000));
    assert!(reg.observe(40000));
    assert!(!reg.observe(40001));
    assert!(reg.contains(40000));
    assert!(reg.contains(40001));
}

#[test]
fn registry_interleaved_check_then_insert_both_see_absent() {
    let mut reg = PortRegistry::new();
    let first_saw = reg.contains(6000);
    let second_saw = reg.contains(6000);
    assert!(!first_saw);
    assert!(!second_saw);
    if !first_saw {
        reg.insert(6000);
    }
    if !second_saw {
        reg.insert(6000);
    }
    assert!(reg.contains(6000));
}

#[test]
fn registry_serial_check_then_insert_sees_first_insert() {
    let mut reg = PortRegistry::new();
    assert!(!reg.observe(6001));
    assert!(reg.observe(6001));
}

#[test]
fn server_serves_every_accepted_connection() {
    let mut srv = EchoServer::new();
    assert!(!srv.has_seen(5000));
    assert_eq!(
        srv.on_accept(AcceptEvent::Accepted(5000)),
        AcceptAction::Serve { peer_port: 5000, seen_before: false }
    );
    assert_eq!(
        srv.on_accept(AcceptEvent::Accepted(5000)),
        AcceptAction::Serve { peer_port: 5000, seen_before: true }
    );
    assert_eq!(
        srv.on_accept(AcceptEvent::Accepted(5001)),
        AcceptAction::Serve { peer_port: 5001, seen_before: false }
    );
    assert!(srv.has_seen(5000));
    assert!(srv.has_seen(5001));
    assert!(!srv.has_seen(5002));
    assert!(!srv.is_stopped());
}

#[test]
fn server_stops_on_accept_failure() {
    let mut srv = EchoServer::new();
    srv.on_accept(AcceptEvent::Accepted(100));
    assert_eq!(srv.on_accept(AcceptEvent::Failed), AcceptAction::Shutdown);
    assert!(srv.is_stopped());
    assert_eq!(srv.on_accept(AcceptEvent::Accepted(200)), AcceptAction::Shutdown);
    assert!(!srv.has_seen(200));
    assert!(srv.has_seen(100));
}
