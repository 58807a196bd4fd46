use wake_proxy::protocol::cursor::ByteCursor;
use wake_proxy::protocol::varint::{read_varint, MAX_VARINT_BYTES};

fn decode(bytes: &[u8]) -> (Option<(i32, usize)>, usize) {
    let mut cursor = ByteCursor::new(bytes);
    let r = read_varint(&mut cursor);
    (r, cursor.position())
}

#[test]
fn varint_single_byte_values() {
    assert_eq!(decode(&[0x00]), (Some((0, 1)), 1));
    assert_eq!(decode(&[0x01]), (Some((1, 1)), 1));
    assert_eq!(decode(&[0x7f]), (Some((127, 1)), 1));
}

#[test]
fn varint_multi_byte_values() {
    assert_eq!(decode(&[0x80, 0x01]), (Some((128, 2)), 2));
    assert_eq!(decode(&[0xff, 0x01]), (Some((255, 2)), 2));
    assert_eq!(decode(&[0xdd, 0xc7, 0x01]), (Some((25565, 3)), 3));
    assert_eq!(decode(&[0xff, 0xff, 0x7f]), (Some((2097151, 3)), 3));
    assert_eq!(decode(&[0xff, 0xff, 0xff, 0xff, 0x07]), (Some((i32::MAX, 5)), 5));
}

#[test]
fn varint_negative_values_wrap_to_i32() {
    assert_eq!(decode(&[0xff, 0xff, 0xff, 0xff, 0x0f]), (Some((-1, 5)), 5));
    assert_eq!(decode(&[0x80, 0x80, 0x80, 0x80, 0x08]), (Some((i32::MIN, 5)), 5));
    // The high bits of the fifth group fall outside 32 bits and are dropped.
    assert_eq!(decode(&[0xff, 0xff, 0xff, 0xff, 0x7f]), (Some((-1, 5)), 5));
}

#[test]
fn varint_stops_at_first_terminator() {
    assert_eq!(decode(&[0x05, 0x80, 0x80]), (Some((5, 1)), 1));
}

#[test]
fn varint_too_long_is_rejected_after_six_bytes() {
    assert_eq!(MAX_VARINT_BYTES, 5);
    assert_eq!(decode(&[0x80, 0x80, 0x80, 0x80, 0x80, 0x01]), (None, 6));
    assert_eq!(decode(&[0x80, 0x80, 0x80, 0x80, 0x80, 0x80, 0x80, 0x01]), (None, 6));
}

#[test]
fn varint_truncated_data_is_rejected() {
    assert_eq!(decode(&[]), (None, 0));
    assert_eq!(decode(&[0x80]), (None, 1));
    assert_eq!(decode(&[0xff, 0xff, 0xff, 0xff, 0xff]), (None, 5));
}

#[test]
fn varint_reads_from_cursor_position() {
    let data = [0x2a, 0x80, 0x01, 0x07];
    let mut cursor = ByteCursor::new(&data);
    assert_eq!(read_varint(&mut cursor), Some((42, 1)));
    assert_eq!(read_varint(&mut cursor), Some((128, 2)));
    assert_eq!(read_varint(&mut cursor), Some((7, 1)));
    assert_eq!(cursor.position(), 4);
    assert_eq!(read_varint(&mut cursor), None);
    assert_eq!(cursor.position(), 4);
}

#[test]
fn varint_past_the_end_reads_nothing() {
    let data = [0x01];
    let mut cursor = ByteCursor::new(&data);
    cursor.set_position(9);
    assert_eq!(read_varint(&mut cursor), None);
    assert_eq!(cursor.position(), 9);
}

#[test]
fn varint_value_ignores_following_bytes() {
    assert_eq!(decode(&[0xac, 0x02]), (Some((300, 2)), 2));
    assert_eq!(decode(&[0xac, 0x02, 0xff, 0x00, 0x13]), (Some((300, 2)), 2));
    // Cut inside the VarInt: nothing is found.
    assert_eq!(decode(&[0xac]), (None, 1));
}

#[test]
fn cursor_reads_bytes_and_big_endian_words() {
    let data = [0x63, 0xdd, 0x01];
    let mut cursor = ByteCursor::new(&data);
    assert_eq!(cursor.read_u16_be(), Some(0x63dd));
    assert_eq!(cursor.position(), 2);
    assert_eq!(cursor.read_u16_be(), None);
    assert_eq!(cursor.position(), 2);
    assert_eq!(cursor.read_u8(), Some(0x01));
    assert_eq!(cursor.read_u8(), None);
    assert_eq!(cursor.position(), 3);
    assert_eq!(cursor.get_ref(), &data[..]);
}

/// The shortest VarInt encoding of `v`'s 32 bits.
fn encode(v: i32) -> Vec<u8> {
    let mut u = v as u32;
    let mut out = Vec::new();
    loop {
        let group = (u & 0x7f) as u8;
        u >>= 7;
        if u == 0 {
            out.push(group);
            return out;
        }
        out.push(group | 0x80);
    }
}

#[test]
fn varint_round_trip() {
    let values = [0, 1, 127, 128, 255, 300, 25565, 2097151, 2097152, i32::MAX, -1, -2, i32::MIN];
    for v in values {
        for rest in [&[][..], &[0x00][..], &[0xff, 0xff][..]] {
            let mut bytes = encode(v);
            let k = bytes.len();
            assert!((1..=5).contains(&k));
            bytes.extend_from_slice(rest);
            assert_eq!(decode(&bytes), (Some((v, k)), k), "value {v}");
        }
    }
    assert_eq!(encode(-1).len(), 5);
    assert_eq!(encode(127).len(), 1);
    assert_eq!(encode(128).len(), 2);
}
