use echo_registry::{Action, EchoSession, Event, Phase, READ_CHUNK};

fn send_bytes(action: Action) -> Vec<u8> {
    match action {
        Action::Send(d) => d,
        other => panic!("expected a write, got {:?}", other),
    }
}

/// Feeds `payload` in reads of at most `read_len` bytes, then closes; returns
/// every byte the session asked to write back.
fn echo_all(payload: &[u8], read_len: usize) -> (Vec<u8>, EchoSession) {
    let (mut s, first) = EchoSession::start();
    assert_eq!(first, Action::Receive(READ_CHUNK));
    let mut out = Vec::new();
    for piece in payload.chunks(read_len) {
        let sent = send_bytes(s.step(Event::Received(piece.to_vec())));
        assert!(sent.len() <= READ_CHUNK);
        out.extend_from_slice(&sent);
        assert_eq!(s.step(Event::Sent), Action::Receive(READ_CHUNK));
    }
    assert_eq!(s.step(Event::Received(Vec::new())), Action::Release);
    (out, s)
}

#[test]
fn read_chunk_is_1024() {
    assert_eq!(READ_CHUNK, 1024);
}

#[test]
fn echo_ping() {
    let (mut s, first) = EchoSession::start();
    assert_eq!(first, Action::Receive(1024));
    assert_eq!(s.phase(), Phase::Reading);
    assert_eq!(s.step(Event::Received(b"ping".to_vec())), Action::Send(b"ping".to_vec()));
    assert_eq!(s.phase(), Phase::Writing);
    assert_eq!(s.step(Event::Sent), Action::Receive(1024));
    assert_eq!(s.step(Event::Received(Vec::new())), Action::Release);
    assert_eq!(s.phase(), Phase::Closed);
    assert!(s.is_finished());
}

#[test]
fn echo_identity_arbitrary_bytes() {
    let payload: Vec<u8> = (0..=255u8).collect();
    let (out, s) = echo_all(&payload, 37);
    assert_eq!(out, payload);
    assert_eq!(s.phase(), Phase::Closed);
}

#[test]
fn echo_large_payload_in_chunks() {
    let payload: Vec<u8> = (0..5000u32).map(|i| (i * 7 % 251) as u8).collect();
    let (out, s) = echo_all(&payload, READ_CHUNK);
    assert_eq!(out.len(), 5000);
    assert_eq!(out, payload);
    assert_eq!(s.phase(), Phase::Closed);
}

#[test]
fn echo_several_small_writes_in_order() {
    let (mut s, _) = EchoSession::start();
    let mut out = Vec::new();
    for msg in [&b"a"[..], b"bc", b"def", b"ghij"] {
        out.extend(send_bytes(s.step(Event::Received(msg.to_vec()))));
        s.step(Event::Sent);
    }
    assert_eq!(out, b"abcdefghij".to_vec());
}

#[test]
fn close_without_data_releases_at_once() {
    let (mut s, _) = EchoSession::start();
    assert_eq!(s.step(Event::Received(Vec::new())), Action::Release);
    assert_eq!(s.phase(), Phase::Closed);
    assert_eq!(s.step(Event::Received(b"late".to_vec())), Action::Release);
    assert_eq!(s.phase(), Phase::Closed);
}

#[test]
fn two_sessions_stay_independent() {
    let (mut a, _) = EchoSession::start();
    let (mut b, _) = EchoSession::start();
    assert_eq!(a.step(Event::Received(b"ping".to_vec())), Action::Send(b"ping".to_vec()));
    assert_eq!(b.step(Event::Received(b"pong".to_vec())), Action::Send(b"pong".to_vec()));
    assert_eq!(a.step(Event::Sent), Action::Receive(READ_CHUNK));
    assert_eq!(a.step(Event::Received(Vec::new())), Action::Release);
    assert_eq!(a.phase(), Phase::Closed);
    assert_eq!(b.phase(), Phase::Writing);
    assert_eq!(b.step(Event::Sent), Action::Receive(READ_CHUNK));
    assert_eq!(b.step(Event::Received(b"more".to_vec())), Action::Send(b"more".to_vec()));
}

#[test]
fn failed_read_ends_the_session() {
    let (mut s, _) = EchoSession::start();
    assert_eq!(s.step(Event::ReceiveFailed), Action::Release);
    assert_eq!(s.phase(), Phase::Failed);
    assert!(s.is_finished());
    assert_eq!(s.step(Event::Received(b"x".to_vec())), Action::Release);
    assert_eq!(s.phase(), Phase::Failed);
}

#[test]
fn failed_write_ends_the_session() {
    let (mut s, _) = EchoSession::start();
    s.step(Event::Received(b"abc".to_vec()));
    assert_eq!(s.step(Event::SendFailed), Action::Release);
    assert_eq!(s.phase(), Phase::Failed);
}

#[test]
fn out_of_order_event_is_a_fault() {
    let (mut s, _) = EchoSession::start();
    assert_eq!(s.step(Event::Sent), Action::Release);
    assert_eq!(s.phase(), Phase::Failed);
    let (mut t, _) = EchoSession::start();
    t.step(Event::Received(b"abc".to_vec()));
    assert_eq!(t.step(Event::Received(b"def".to_vec())), Action::Release);
    assert_eq!(t.phase(), Phase::Failed);
}
