use minecraft_protocol::packet_builder::PacketBuilder;
use minecraft_protocol::packet_reader::PacketReader;
use minecraft_protocol::reader::ByteReader;
use minecraft_protocol::ser::{Deserialize, SerializationError, Serialize};
use minecraft_protocol::varint::{VarInt, VarIntError};

fn wire<T: Serialize + ?Sized>(v: &T) -> Vec<u8> {
    let mut out = Vec::new();
    v.serialize(&mut out).unwrap();
    out
}

fn read<T: Deserialize>(bytes: &[u8]) -> Result<T, SerializationError> {
    T::deserialize(&mut ByteReader::new(bytes.to_vec()))
}

#[test]
fn string_round_trip() {
    for s in ["", "hello", "Grüße, мир", "日本語テキスト", "emoji \u{1F600} end"] {
        let s = s.to_string();
        let bytes = wire(&s);
        assert_eq!(bytes[0] as usize, s.len());
        assert_eq!(read::<String>(&bytes).unwrap(), s);
    }
}

#[test]
fn string_wire_form() {
    assert_eq!(wire(&"abc".to_string()), vec![3, b'a', b'b', b'c']);
}

#[test]
fn string_invalid_utf8() {
    assert_eq!(read::<String>(&[2, 0xC3, 0x28]), Err(SerializationError::FromUtf8Error));
    assert_eq!(read::<String>(&[1, 0xFF]), Err(SerializationError::FromUtf8Error));
}

#[test]
fn string_short_body_is_eof() {
    assert_eq!(read::<String>(&[5, b'a', b'b']), Err(SerializationError::UnexpectedEof));
}

#[test]
fn negative_length_is_refused() {
    assert_eq!(
        read::<Vec<u8>>(&[0xFF, 0xFF, 0xFF, 0xFF, 0x0F]),
        Err(SerializationError::VarIntError(VarIntError::NegativeValue))
    );
}

#[test]
fn buffer_round_trip() {
    let b: Vec<u8> = vec![0, 1, 2, 0xFF];
    let bytes = wire(&b);
    assert_eq!(bytes, vec![4, 0, 1, 2, 0xFF]);
    assert_eq!(read::<Vec<u8>>(&bytes).unwrap(), b);
}

#[test]
fn slice_field() {
    let b: &[u8] = &[5, 6];
    assert_eq!(wire(b), vec![2, 5, 6]);
    let empty: &[u8] = &[];
    assert_eq!(wire(empty), vec![0]);
}

#[test]
fn bool_wire_form() {
    assert_eq!(wire(&true), vec![1]);
    assert_eq!(wire(&false), vec![0]);
    assert_eq!(read::<bool>(&[0]).unwrap(), false);
    assert_eq!(read::<bool>(&[1]).unwrap(), true);
    assert_eq!(read::<bool>(&[7]).unwrap(), true);
    assert_eq!(read::<bool>(&[]), Err(SerializationError::UnexpectedEof));
}

#[test]
fn integers_are_big_endian() {
    assert_eq!(wire(&0x1234u16), vec![0x12, 0x34]);
    assert_eq!(wire(&0x01020304u32), vec![1, 2, 3, 4]);
    assert_eq!(wire(&0x0102030405060708u64), vec![1, 2, 3, 4, 5, 6, 7, 8]);
    assert_eq!(wire(&0xABu8), vec![0xAB]);
    assert_eq!(wire(&-1i8), vec![0xFF]);
    assert_eq!(wire(&-2i16), vec![0xFF, 0xFE]);
    assert_eq!(wire(&-1i32), vec![0xFF; 4]);
    assert_eq!(wire(&i64::MIN), vec![0x80, 0, 0, 0, 0, 0, 0, 0]);
    assert_eq!(read::<u16>(&[0x12, 0x34]).unwrap(), 0x1234);
    assert_eq!(read::<i16>(&[0xFF, 0xFE]).unwrap(), -2);
    assert_eq!(read::<i32>(&[0x80, 0, 0, 0]).unwrap(), i32::MIN);
    assert_eq!(read::<i64>(&[0xFF; 8]).unwrap(), -1);
    assert_eq!(read::<u64>(&[0xFF; 8]).unwrap(), u64::MAX);
    assert_eq!(read::<i8>(&[0x7F]).unwrap(), 127);
    assert_eq!(read::<u32>(&[1, 2, 3]), Err(SerializationError::UnexpectedEof));
}

#[test]
fn varint_field() {
    assert_eq!(wire(&VarInt(300)), vec![0xAC, 0x02]);
    assert_eq!(read::<VarInt>(&[0xAC, 0x02]).unwrap(), VarInt(300));
    assert_eq!(
        read::<VarInt>(&[0x80]),
        Err(SerializationError::VarIntError(VarIntError::UnexpectedEof))
    );
}

#[test]
fn builder_and_reader_agree() {
    let packet = PacketBuilder::new(VarInt(0x0F))
        .write(VarInt(758))
        .write("localhost".to_string())
        .write(25565u16)
        .write_option(Some(42i64))
        .write_option::<u8>(None)
        .write(true)
        .write_buffer(&[9, 8, 7])
        .build();
    assert_eq!(packet.packet_id, VarInt(0x0F));
    let mut r = PacketReader::new(&packet);
    assert_eq!(r.read::<VarInt>().unwrap(), VarInt(758));
    assert_eq!(r.read::<String>().unwrap(), "localhost");
    assert_eq!(r.read::<u16>().unwrap(), 25565);
    assert_eq!(r.read_option::<i64>().unwrap(), Some(42));
    assert_eq!(r.read_option::<u8>().unwrap(), None);
    assert_eq!(r.read::<bool>().unwrap(), true);
    let mut buf = [0u8; 5];
    assert_eq!(r.read_exact(&mut buf), 3);
    assert_eq!(buf, [9, 8, 7, 0, 0]);
    assert_eq!(r.read_exact(&mut buf), 0);
}

#[test]
fn reader_bool_any_nonzero_is_true() {
    let packet = PacketBuilder::new(VarInt(0)).write_buffer(&[2, 0]).build();
    let mut r = PacketReader::new(&packet);
    assert_eq!(r.read::<bool>(), Ok(true));
    assert_eq!(r.read::<bool>(), Ok(false));
    assert_eq!(r.read::<bool>(), Err(SerializationError::UnexpectedEof));
}

#[test]
fn builder_payload_bytes() {
    let packet = PacketBuilder::new(VarInt(1)).write_option(Some(true)).write(-1i16).build();
    assert_eq!(packet.payload, vec![1, 1, 0xFF, 0xFF]);
}
