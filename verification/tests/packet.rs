use voice_proxy::packet::{encode_datagram, FramingError, SessionSecret, VoicePacket,
    VoicePacketWrapper};
use voice_proxy::ping::PingPacket;

/// Builds the 29-byte header: magic, packet type, secret, zero reserved
/// field.
fn header(packet_type: u8, secret: [u8; 16]) -> Vec<u8> {
    let mut buf: Vec<u8> = Vec::new();
    buf.extend_from_slice(&[0x4E, 0x90, 0x04, 0xE9]);
    buf.push(packet_type);
    buf.extend_from_slice(&secret);
    buf.extend_from_slice(&[0, 0, 0, 0, 0, 0, 0, 0]);
    buf
}

fn create_valid_packet() -> Result<VoicePacketWrapper, FramingError> {
    let mut buffer = header(1, [0; 16]);
    buffer.extend_from_slice(&[0, 0, 0, 0, 0, 0, 0, 0]);
    VoicePacketWrapper::try_from(&buffer[..])
}

fn create_unsupported_packet() -> Result<VoicePacketWrapper, FramingError> {
    let buffer = header(2, [0; 16]);
    VoicePacketWrapper::try_from(&buffer[..])
}

fn create_malformed_packet() -> Result<VoicePacketWrapper, FramingError> {
    let buffer = vec![0x00, 0x00, 0x44, 0x44];
    VoicePacketWrapper::try_from(&buffer[..])
}

#[test]
fn test_valid_packet() {
    let packet = create_valid_packet();
    assert!(packet.is_ok_and(|wrapper| wrapper.packet.is_some()));
}

#[test]
fn test_unsupported_packet() {
    let packet = create_unsupported_packet();
    assert!(packet.is_ok_and(|wrapper| wrapper.packet.is_none()));
}

#[test]
fn test_malformed_packet() {
    let packet = create_malformed_packet();
    assert!(packet.is_err());
}

#[test]
fn test_zero_header_decodes_zero_ping() {
    // Header with type 1, all-zero secret, zero reserved field, and only
    // the eight-byte zero timestamp as payload.
    let mut buffer = header(1, [0; 16]);
    buffer.extend_from_slice(&[0, 0, 0, 0, 0, 0, 0, 0]);
    let wrapper = VoicePacketWrapper::try_from(&buffer[..]).unwrap();
    assert_eq!(wrapper.secret.value, 0);
    match wrapper.packet {
        Some(VoicePacket::Ping(p)) => {
            assert_eq!(p.timestamp, 0);
            assert!(p.server_ip.is_none());
            assert!(p.server_port.is_none());
        },
        _ => panic!("expected a ping payload"),
    }
}

#[test]
fn test_unsupported_type_keeps_secret() {
    let mut secret = [0u8; 16];
    secret[15] = 9;
    let buffer = header(2, secret);
    let wrapper = VoicePacketWrapper::try_from(&buffer[..]).unwrap();
    assert_eq!(wrapper.secret.value, 9);
    assert!(wrapper.packet.is_none());
}

#[test]
fn test_bad_magic_yields_no_wrapper() {
    let mut buffer = header(1, [7; 16]);
    buffer[0] = 0x00;
    buffer[1] = 0x00;
    buffer[2] = 0x44;
    buffer[3] = 0x44;
    buffer.extend_from_slice(&[0, 0, 0, 0, 0, 0, 0, 0]);
    let r = VoicePacketWrapper::try_from(&buffer[..]);
    assert_eq!(r.err(), Some(FramingError::BadMagic));
}

#[test]
fn test_truncated_header_rejected() {
    // Magic alone is not enough: the header runs to byte 29.
    let buffer = vec![0x4E, 0x90, 0x04, 0xE9, 1, 0, 0];
    let r = VoicePacketWrapper::try_from(&buffer[..]);
    assert_eq!(r.err(), Some(FramingError::Truncated));

    let short = vec![0x4E, 0x90];
    let r = VoicePacketWrapper::try_from(&short[..]);
    assert_eq!(r.err(), Some(FramingError::Truncated));
}

#[test]
fn test_ping_timestamp_only() {
    let payload = vec![0x01, 0x02, 0x03, 0x04, 0x05, 0x06, 0x07, 0x08];
    let p = PingPacket::read_from(&payload[..], 0).unwrap();
    assert_eq!(p.timestamp, 0x0102030405060708);
    assert!(p.server_ip.is_none());
    assert!(p.server_port.is_none());
}

#[test]
fn test_ping_full_fields() {
    let mut payload = vec![0, 0, 0, 0, 0, 0, 0, 42];
    let address = "127.0.0.1".as_bytes();
    payload.push(0);
    payload.push(address.len() as u8);
    payload.extend_from_slice(address);
    payload.push(0x63);
    payload.push(0xDD);
    let p = PingPacket::read_from(&payload[..], 0).unwrap();
    assert_eq!(p.timestamp, 42);
    assert_eq!(p.server_ip.as_deref(), Some("127.0.0.1"));
    assert_eq!(p.server_port, Some(0x63DD));
}

#[test]
fn test_ping_encode_roundtrip() {
    let ping = PingPacket {
        timestamp: 99_000_000,
        server_ip: Some(String::from("voice.example.test")),
        server_port: Some(25565),
    };
    let bytes = ping.encode().unwrap();
    let back = PingPacket::read_from(&bytes[..], 0).unwrap();
    assert_eq!(back.timestamp, 99_000_000);
    assert_eq!(back.server_ip.as_deref(), Some("voice.example.test"));
    assert_eq!(back.server_port, Some(25565));
}

#[test]
fn test_ping_encode_roundtrip_non_ascii() {
    let ping = PingPacket {
        timestamp: 1,
        server_ip: Some(String::from("h\u{e9}bergeur.example")),
        server_port: Some(443),
    };
    let bytes = ping.encode().unwrap();
    let back = PingPacket::read_from(&bytes[..], 0).unwrap();
    assert_eq!(back.server_ip.as_deref(), Some("h\u{e9}bergeur.example"));
}

#[test]
fn test_ping_encode_rejects_half_present_fields() {
    let ping = PingPacket { timestamp: 5, server_ip: None, server_port: Some(80) };
    assert!(ping.encode().is_none());
}

#[test]
fn test_encode_datagram_roundtrip() {
    let secret = SessionSecret { value: 0x0102030405060708090A0B0C0D0E0F10 };
    let ping = PingPacket { timestamp: 7, server_ip: None, server_port: None };
    let bytes = encode_datagram(&secret, &ping).unwrap();
    let wrapper = VoicePacketWrapper::try_from(&bytes[..]).unwrap();
    assert_eq!(wrapper.secret.value, 0x0102030405060708090A0B0C0D0E0F10);
    match wrapper.packet {
        Some(VoicePacket::Ping(p)) => {
            assert_eq!(p.timestamp, 7);
            assert!(p.server_ip.is_none());
            assert!(p.server_port.is_none());
        },
        _ => panic!("expected a ping payload"),
    }
}

#[test]
fn test_ping_invalid_utf8_degrades_to_absent() {
    let mut buffer = header(1, [3; 16]);
    buffer.extend_from_slice(&[0, 0, 0, 0, 0, 0, 0, 1]);
    buffer.extend_from_slice(&[0, 2, 0xFF, 0xFE]);
    buffer.extend_from_slice(&[0, 80]);
    let wrapper = VoicePacketWrapper::try_from(&buffer[..]).unwrap();
    assert!(wrapper.packet.is_none());
    assert_eq!(wrapper.secret.value, u128::from_be_bytes([3; 16]));
}

#[test]
fn test_ping_negative_length_degrades_to_absent() {
    let mut buffer = header(1, [0; 16]);
    buffer.extend_from_slice(&[0, 0, 0, 0, 0, 0, 0, 1]);
    buffer.extend_from_slice(&[0x80, 0x00, 1, 2]);
    let wrapper = VoicePacketWrapper::try_from(&buffer[..]).unwrap();
    assert!(wrapper.packet.is_none());
}

#[test]
fn test_ping_truncated_address_degrades_to_absent() {
    let mut buffer = header(1, [0; 16]);
    buffer.extend_from_slice(&[0, 0, 0, 0, 0, 0, 0, 1]);
    buffer.extend_from_slice(&[0, 5, b'a', b'b']);
    let wrapper = VoicePacketWrapper::try_from(&buffer[..]).unwrap();
    assert!(wrapper.packet.is_none());
}
