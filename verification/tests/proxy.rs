use voice_proxy::packet::SessionSecret;
use voice_proxy::proxy::{handle_datagram, DispatchAction, NetAddr, SessionTable};
use voice_proxy::session::{relay_step, BackendEvent, RelayStep, TerminateReason,
    MAX_DATAGRAM_SIZE, SESSION_TIMEOUT_SECS};

fn datagram(packet_type: u8, secret_low_byte: u8) -> Vec<u8> {
    let mut buf: Vec<u8> = vec![0x4E, 0x90, 0x04, 0xE9, packet_type];
    let mut secret = [0u8; 16];
    secret[15] = secret_low_byte;
    buf.extend_from_slice(&secret);
    buf.extend_from_slice(&[0, 0, 0, 0, 0, 0, 0, 0]);
    buf
}

fn addr(port: u16) -> NetAddr {
    NetAddr { is_v6: false, ip: 0x7F000001, port }
}

#[test]
fn test_session_creation_idempotent() {
    let mut table = SessionTable::new();
    let first = addr(40001);
    let second = addr(40002);
    let bytes = datagram(1, 5);

    // First datagram: a miss; the dispatch loop must construct a session,
    // then register it at the sender's address.
    match handle_datagram(&mut table, &bytes[..], first) {
        DispatchAction::OpenSession(secret) => {
            assert_eq!(secret.value, 5);
            table.insert(secret, first);
        },
        _ => panic!("expected a table miss"),
    }
    assert_eq!(table.len(), 1);

    // Second datagram, same secret, another address: no second session;
    // the one session moves to the most recent sender.
    match handle_datagram(&mut table, &bytes[..], second) {
        DispatchAction::Forward(secret) => {
            assert_eq!(secret.value, 5);
        },
        _ => panic!("expected a table hit"),
    }
    assert_eq!(table.len(), 1);
    let secret = SessionSecret { value: 5 };
    assert_eq!(table.get_client(&secret), Some(second));
}

#[test]
fn test_dispatch_discards_bad_magic() {
    let mut table = SessionTable::new();
    let mut bytes = datagram(1, 5);
    bytes[0] = 0;
    bytes[1] = 0;
    bytes[2] = 0x44;
    bytes[3] = 0x44;
    assert!(matches!(
        handle_datagram(&mut table, &bytes[..], addr(40001)),
        DispatchAction::Discard
    ));
    assert_eq!(table.len(), 0);
}

#[test]
fn test_unsupported_type_still_routed() {
    // Packet type 2 is not understood, but the secret routes: the dispatch
    // decision is to open a session, exactly as for a recognized type.
    let mut table = SessionTable::new();
    let bytes = datagram(2, 9);
    match handle_datagram(&mut table, &bytes[..], addr(40003)) {
        DispatchAction::OpenSession(secret) => assert_eq!(secret.value, 9),
        _ => panic!("expected a table miss"),
    }
}

#[test]
fn test_removed_secret_gets_fresh_session() {
    let mut table = SessionTable::new();
    let secret = SessionSecret { value: 77 };
    table.insert(secret, addr(50000));
    assert!(table.contains(&secret));

    // The session's task times out and removes its own entry.
    table.remove(&secret);
    assert!(!table.contains(&secret));
    assert_eq!(table.len(), 0);

    // The next datagram with the same secret is a brand-new session.
    let bytes = datagram(1, 77);
    assert!(matches!(
        handle_datagram(&mut table, &bytes[..], addr(50001)),
        DispatchAction::OpenSession(s) if s.value == 77
    ));
}

#[test]
fn test_table_update_keeps_one_entry() {
    let mut table = SessionTable::new();
    let secret = SessionSecret { value: 1 };
    table.insert(secret, addr(1000));
    table.insert(secret, addr(2000));
    assert_eq!(table.len(), 1);
    assert_eq!(table.get_client(&secret), Some(addr(2000)));
}

#[test]
fn test_table_get_missing() {
    let table = SessionTable::new();
    let secret = SessionSecret { value: 42 };
    assert_eq!(table.get_client(&secret), None);
}

#[test]
fn test_relay_step_timeout_terminates() {
    assert!(matches!(
        relay_step(BackendEvent::TimerElapsed),
        RelayStep::Terminate(TerminateReason::TimedOut)
    ));
}

#[test]
fn test_relay_step_forwards_verbatim() {
    let bytes = vec![1, 2, 3, 4, 5];
    match relay_step(BackendEvent::Datagram(bytes.clone())) {
        RelayStep::ForwardToClient(sent) => assert_eq!(sent, bytes),
        _ => panic!("expected a forward"),
    }
}

#[test]
fn test_relay_step_would_block_retries() {
    assert!(matches!(relay_step(BackendEvent::WouldBlock), RelayStep::AwaitAgain));
}

#[test]
fn test_relay_step_read_error_terminates() {
    assert!(matches!(
        relay_step(BackendEvent::ReadError),
        RelayStep::Terminate(TerminateReason::IoError)
    ));
}

#[test]
fn test_relay_constants() {
    assert_eq!(MAX_DATAGRAM_SIZE, 1500);
    assert_eq!(SESSION_TIMEOUT_SECS, 20);
}
