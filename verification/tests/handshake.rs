use wake_proxy::filter::handshake::{check_handshake, is_valid_handshake, Handshake, HandshakeError};

fn varint(mut v: u32) -> Vec<u8> {
    let mut out = Vec::new();
    loop {
        let group = (v & 0x7f) as u8;
        v >>= 7;
        if v == 0 {
            out.push(group);
            return out;
        }
        out.push(group | 0x80);
    }
}

/// A handshake packet: its body framed by its length.
fn packet(body: &[u8]) -> Vec<u8> {
    let mut out = varint(body.len() as u32);
    out.extend_from_slice(body);
    out
}

fn body(id: u32, version: u32, address: &[u8], port: u16, next_state: u32) -> Vec<u8> {
    let mut out = varint(id);
    out.extend(varint(version));
    out.extend(varint(address.len() as u32));
    out.extend_from_slice(address);
    out.extend_from_slice(&port.to_be_bytes());
    out.extend(varint(next_state));
    out
}

#[test]
fn handshake_valid_login() {
    let data = packet(&body(0, 765, b"mc.example.org", 25565, 2));
    let h = check_handshake(&data).unwrap();
    assert_eq!(
        h,
        Handshake {
            packet_length: (data.len() - 1) as i32,
            packet_id: 0,
            protocol_version: 765,
            server_address: "mc.example.org".to_string(),
            server_port: 25565,
            next_state: 2,
        }
    );
    assert!(is_valid_handshake(&data));
}

#[test]
fn handshake_valid_status_with_unicode_address() {
    let data = packet(&body(0, 47, "服务器.cn".as_bytes(), 1, 1));
    let h = check_handshake(&data).unwrap();
    assert_eq!(h.server_address, "服务器.cn");
    assert_eq!(h.server_port, 1);
    assert_eq!(h.next_state, 1);
    assert!(is_valid_handshake(&data));
}

#[test]
fn handshake_exact_bytes() {
    let data = [0x07, 0x00, 0x2f, 0x01, 0x61, 0x63, 0xdd, 0x01];
    let h = check_handshake(&data).unwrap();
    assert_eq!(h.packet_length, 7);
    assert_eq!(h.protocol_version, 47);
    assert_eq!(h.server_address, "a");
    assert_eq!(h.server_port, 0x63dd);
}

#[test]
fn handshake_empty_address() {
    let data = packet(&body(0, 4, b"", 80, 1));
    assert_eq!(check_handshake(&data).unwrap().server_address, "");
}

#[test]
fn handshake_errors_in_field_order() {
    assert_eq!(check_handshake(&[]), Err(HandshakeError::PacketLength));
    assert_eq!(check_handshake(&[0x80]), Err(HandshakeError::PacketLength));
    assert_eq!(check_handshake(&[0x05, 0x00]), Err(HandshakeError::LengthMismatch));
    // A negative packet length never matches.
    assert_eq!(
        check_handshake(&[0xff, 0xff, 0xff, 0xff, 0x0f]),
        Err(HandshakeError::LengthMismatch)
    );
    assert_eq!(check_handshake(&[0x00]), Err(HandshakeError::PacketId));
    assert_eq!(check_handshake(&packet(&[0x01, 0x00])), Err(HandshakeError::NotHandshake));
    assert_eq!(check_handshake(&packet(&[0x00])), Err(HandshakeError::ProtocolVersion));
    assert_eq!(check_handshake(&packet(&[0x00, 0x2f])), Err(HandshakeError::AddressLength));
    assert_eq!(
        check_handshake(&packet(&[0x00, 0x2f, 0x05, b'a'])),
        Err(HandshakeError::AddressTruncated)
    );
    assert_eq!(
        check_handshake(&packet(&[0x00, 0x2f, 0x01, 0xff, 0x63, 0xdd, 0x01])),
        Err(HandshakeError::AddressNotUtf8)
    );
    assert_eq!(
        check_handshake(&packet(&[0x00, 0x2f, 0x01, b'a', 0x63])),
        Err(HandshakeError::ServerPort)
    );
    assert_eq!(
        check_handshake(&packet(&[0x00, 0x2f, 0x01, b'a', 0x63, 0xdd])),
        Err(HandshakeError::NextState)
    );
    assert_eq!(
        check_handshake(&packet(&body(0, 47, b"a", 25565, 3))),
        Err(HandshakeError::InvalidNextState)
    );
    assert_eq!(
        check_handshake(&packet(&body(0, 47, b"a", 25565, 0))),
        Err(HandshakeError::InvalidNextState)
    );
}

#[test]
fn handshake_trailing_data_inside_length() {
    let mut b = body(0, 47, b"a", 25565, 1);
    b.push(0x00);
    assert_eq!(check_handshake(&packet(&b)), Err(HandshakeError::TrailingData));
    assert!(!is_valid_handshake(&packet(&b)));
}

#[test]
fn handshake_negative_address_length() {
    // Address length -1 at position 4: the position plus the length wraps.
    let wraps = packet(&[0x00, 0x2f, 0xff, 0xff, 0xff, 0xff, 0x0f, 0x63, 0xdd, 0x01]);
    assert_eq!(check_handshake(&wraps), Err(HandshakeError::AddressLengthWraps));
    assert!(!is_valid_handshake(&wraps));
    let short = [0x07, 0x00, 0x2f, 0xff, 0xff, 0xff, 0xff, 0x0f];
    assert_eq!(check_handshake(&short), Err(HandshakeError::AddressLengthWraps));
    assert!(!is_valid_handshake(&short));
    // Address length -100 at position 8: out of bounds.
    let far = packet(&[0x00, 0x2f, 0x9c, 0xff, 0xff, 0xff, 0x0f, 0x63, 0xdd, 0x01]);
    assert_eq!(check_handshake(&far), Err(HandshakeError::AddressTruncated));
    assert!(!is_valid_handshake(&far));
}

#[test]
fn handshake_rejects_appended_bytes() {
    let data = packet(&body(0, 765, b"play.example", 25565, 2));
    assert!(is_valid_handshake(&data));
    for extra in [&[0x00][..], &[0x01, 0x02][..], &[0xff; 9][..]] {
        let mut longer = data.clone();
        longer.extend_from_slice(extra);
        assert_eq!(check_handshake(&longer), Err(HandshakeError::LengthMismatch));
    }
}

#[test]
fn handshake_rejects_every_proper_prefix() {
    let data = packet(&body(0, 765, b"play.example", 25565, 2));
    for k in 0..data.len() {
        assert!(check_handshake(&data[..k]).is_err(), "prefix of length {k} accepted");
    }
}

#[test]
fn handshake_two_byte_length_prefix() {
    let address = vec![b'x'; 200];
    let data = packet(&body(0, 765, &address, 25565, 2));
    assert_eq!(data[0] & 0x80, 0x80);
    let h = check_handshake(&data).unwrap();
    assert_eq!(h.packet_length as usize, data.len() - 2);
    assert_eq!(h.server_address.len(), 200);
}

#[test]
fn handshake_port_does_not_matter() {
    for port in [0u16, 1, 80, 25565, 65535] {
        let data = packet(&body(0, 765, b"mc.example.org", port, 2));
        let h = check_handshake(&data).unwrap();
        assert_eq!(h.server_port, port);
        assert_eq!(h.protocol_version, 765);
    }
}

#[test]
fn handshake_protocol_version_does_not_matter() {
    // Versions of one, two and five VarInt bytes, negative ones included.
    for version in [0u32, 47, 127, 128, 765, 16383, 0xffff_ffff, 0x8000_0000] {
        let data = packet(&body(0, version, b"a", 25565, 1));
        let h = check_handshake(&data).unwrap();
        assert_eq!(h.protocol_version, version as i32);
        assert!(is_valid_handshake(&data));
    }
}

#[test]
fn handshake_port_and_version_together_do_not_matter() {
    let base = packet(&body(0, 765, b"mc.example.org", 25565, 2));
    assert!(is_valid_handshake(&base));
    // Same-size versions (two VarInt bytes) and any port.
    for (version, port) in [(128u32, 0u16), (16383, 65535), (200, 1)] {
        let data = packet(&body(0, version, b"mc.example.org", port, 2));
        assert_eq!(data.len(), base.len());
        let h = check_handshake(&data).unwrap();
        assert_eq!((h.protocol_version, h.server_port), (version as i32, port));
    }
}
