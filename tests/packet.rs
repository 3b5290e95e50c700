use minecraft_protocol::packet::{PacketError, RawPacket, UncompressedPacket};
use minecraft_protocol::reader::ByteReader;
use minecraft_protocol::varint::{VarInt, VarIntError};

fn packet(id: i32, payload: &[u8]) -> UncompressedPacket {
    UncompressedPacket { packet_id: VarInt(id), payload: payload.to_vec() }
}

#[test]
fn raw_packet_round_trip() {
    for (id, payload) in [(0, vec![]), (0x26, vec![1, 2, 3]), (-5, vec![0xFF; 300]), (300, vec![7])] {
        let raw = packet(id, &payload).to_raw_packet().unwrap();
        let back = raw.as_uncompressed().unwrap();
        assert_eq!(back.packet_id, VarInt(id));
        assert_eq!(back.payload, payload);
    }
}

#[test]
fn raw_packet_bytes() {
    let raw = packet(0x01, &[0xAA, 0xBB]).to_raw_packet().unwrap();
    assert_eq!(raw.data, vec![0x01, 0xAA, 0xBB]);
    assert_eq!(raw.to_frame().unwrap(), vec![0x03, 0x01, 0xAA, 0xBB]);
}

#[test]
fn empty_body_has_no_id() {
    let raw = RawPacket { data: vec![] };
    assert_eq!(raw.as_uncompressed().unwrap_err(), PacketError::VarIntError(VarIntError::UnexpectedEof));
}

#[test]
fn frame_read_back() {
    let frame = vec![0x03, 0x01, 0xAA, 0xBB, 0x09];
    let mut r = ByteReader::new(frame);
    let raw = RawPacket::read_sync(&mut r).unwrap();
    assert_eq!(raw.data, vec![0x01, 0xAA, 0xBB]);
    assert_eq!(r.position(), 4);
}

#[test]
fn truncated_frame_is_eof() {
    let payload: Vec<u8> = (0..50u8).collect();
    let raw = packet(0x10, &payload).to_raw_packet().unwrap();
    let mut frame = raw.to_frame().unwrap();
    frame.pop();
    let mut r = ByteReader::new(frame);
    assert_eq!(RawPacket::read_sync(&mut r).unwrap_err(), PacketError::UnexpectedEof);
}

#[test]
fn negative_frame_length_is_refused() {
    let mut r = ByteReader::new(vec![0xFF, 0xFF, 0xFF, 0xFF, 0x0F, 0x00]);
    assert_eq!(
        RawPacket::read_sync(&mut r).unwrap_err(),
        PacketError::VarIntError(VarIntError::NegativeValue)
    );
}

#[test]
fn threshold_boundary() {
    // the id 0x05 takes one byte, so the packet bytes are 1 + payload length
    let t = 64;
    let below = packet(0x05, &vec![9u8; 62]).compress(t).unwrap();
    assert_eq!(below.data[0], 0);
    assert_eq!(below.data.len(), 1 + 63);
    let at = packet(0x05, &vec![9u8; 63]).compress(t).unwrap();
    assert_eq!(at.data[0], 64);
    assert_ne!(at.data[1..].to_vec(), {
        let mut b = vec![0x05];
        b.extend_from_slice(&[9u8; 63]);
        b
    });
}

#[test]
fn compression_round_trip() {
    let payload: Vec<u8> = (0..1000u32).map(|i| (i % 7) as u8).collect();
    for t in [0, 1, 256, 1001, 2000] {
        let p = packet(0x21, &payload);
        let raw = p.compress_to_raw(Some(t)).unwrap();
        let back = raw.try_uncompress(Some(t)).unwrap();
        assert_eq!(back.packet_id, VarInt(0x21));
        assert_eq!(back.payload, payload);
    }
    let raw = packet(0x21, &payload).compress(16).unwrap().to_raw_packet();
    // declared size: 1001 = 0xE9 0x07
    assert_eq!(&raw.data[..2], &[0xE9, 0x07]);
    assert!(raw.data.len() < 1001);
}

#[test]
fn without_threshold_nothing_is_compressed() {
    let raw = packet(0x02, &[1, 2]).compress_to_raw(None).unwrap();
    assert_eq!(raw.data, vec![0x02, 1, 2]);
    let back = raw.try_uncompress(None).unwrap();
    assert_eq!(back.payload, vec![1, 2]);
}

#[test]
fn compressed_length_mismatch() {
    let mut raw = packet(0x21, &vec![3u8; 100]).compress(10).unwrap().to_raw_packet();
    // claim 100 instead of 101 decompressed bytes
    raw.data[0] = 100;
    assert_eq!(raw.try_uncompress(Some(10)).unwrap_err(), PacketError::LengthMismatch);
}

#[test]
fn compressed_garbage_is_refused() {
    let raw = RawPacket { data: vec![0x05, 1, 2, 3, 4, 5] };
    assert_eq!(raw.try_uncompress(Some(1)).unwrap_err(), PacketError::DecompressError);
}

#[test]
fn negative_declared_size_is_refused() {
    let raw = RawPacket { data: vec![0xFF, 0xFF, 0xFF, 0xFF, 0x0F, 0x01] };
    assert_eq!(
        raw.try_uncompress(Some(1)).unwrap_err(),
        PacketError::VarIntError(VarIntError::NegativeValue)
    );
}

#[test]
fn convert_reads_whole_payload() {
    let p = packet(0, &[0x00, 0x00, 0x01, 0x00]);
    assert_eq!(p.convert::<u32>().unwrap(), 256);
    let long = packet(0, &[0x00, 0x00, 0x01, 0x00, 0x07]);
    assert_eq!(long.convert::<u32>().unwrap_err(), minecraft_protocol::ser::SerializationError::TrailingBytes);
}

#[test]
fn frame_error_offsets() {
    let mut r = ByteReader::new(vec![0xFF, 0xFF, 0xFF, 0xFF, 0x0F, 0x00]);
    assert!(RawPacket::read_sync(&mut r).is_err());
    assert_eq!(r.position(), 5);
    let mut r = ByteReader::new(vec![0x04, 1, 2]);
    assert_eq!(RawPacket::read_sync(&mut r).unwrap_err(), PacketError::UnexpectedEof);
    assert_eq!(r.position(), 1);
}
