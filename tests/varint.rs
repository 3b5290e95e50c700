use minecraft_protocol::reader::ByteReader;
use minecraft_protocol::varint::{VarInt, VarIntError};

fn encode(v: i32) -> Vec<u8> {
    let mut out = Vec::new();
    VarInt(v).write_sync(&mut out);
    out
}

fn decode(bytes: &[u8]) -> Result<(VarInt, usize), VarIntError> {
    let mut r = ByteReader::new(bytes.to_vec());
    let v = VarInt::read_sync(&mut r)?;
    Ok((v, r.position()))
}

#[test]
fn varint_boundary_values() {
    assert_eq!(encode(0), vec![0x00]);
    assert_eq!(encode(127), vec![0x7F]);
    assert_eq!(encode(128), vec![0x80, 0x01]);
    assert_eq!(encode(-1), vec![0xFF, 0xFF, 0xFF, 0xFF, 0x0F]);
    assert_eq!(encode(255), vec![0xFF, 0x01]);
    assert_eq!(encode(25565), vec![0xDD, 0xC7, 0x01]);
    assert_eq!(encode(2147483647), vec![0xFF, 0xFF, 0xFF, 0xFF, 0x07]);
    assert_eq!(encode(-2147483648), vec![0x80, 0x80, 0x80, 0x80, 0x08]);
}

#[test]
fn varint_round_trip_samples() {
    let samples = [0, 1, 2, 127, 128, 255, 300, 16383, 16384, 2097151, 2097152, 268435455,
        268435456, i32::MAX, -1, -2, -128, -129, i32::MIN, 123456789, -987654321];
    for v in samples {
        let bytes = encode(v);
        assert!(bytes.len() <= 5);
        let mut with_tail = bytes.clone();
        with_tail.extend_from_slice(&[0xAB, 0xCD]);
        assert_eq!(decode(&with_tail), Ok((VarInt(v), bytes.len())));
    }
}

#[test]
fn varint_overflow_is_position_error() {
    assert_eq!(decode(&[0x80, 0x80, 0x80, 0x80, 0x80, 0x01]), Err(VarIntError::Position));
    assert_eq!(decode(&[0xFF, 0xFF, 0xFF, 0xFF, 0xFF, 0x00]), Err(VarIntError::Position));
}

#[test]
fn varint_truncated_is_eof() {
    assert_eq!(decode(&[]), Err(VarIntError::UnexpectedEof));
    assert_eq!(decode(&[0x80, 0x80]), Err(VarIntError::UnexpectedEof));
}

#[test]
fn varint_high_bits_of_fifth_byte_are_dropped() {
    assert_eq!(decode(&[0xFF, 0xFF, 0xFF, 0xFF, 0x7F]), Ok((VarInt(-1), 5)));
}

#[test]
fn varint_error_offsets() {
    let mut r = ByteReader::new(vec![0x80, 0x80, 0x80, 0x80, 0x80, 0x01]);
    assert_eq!(VarInt::read_sync(&mut r), Err(VarIntError::Position));
    assert_eq!(r.position(), 5);
    let mut r = ByteReader::new(vec![0x80, 0x80, 0x80]);
    assert_eq!(VarInt::read_sync(&mut r), Err(VarIntError::UnexpectedEof));
    assert_eq!(r.position(), 3);
}
