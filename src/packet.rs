use vstd::prelude::*;

use crate::reader::{append_bytes, copy_range, ByteReader};
use crate::ser::{Deserialize, SerializationError};
use crate::varint::{
    lemma_varint_len, lemma_varint_round_trip, parse_varint, varint_bytes, varint_error_offset, VarInt,
    VarIntError,
};

verus! {

/// Why a frame or packet could not be built or taken apart.
#[derive(Debug, Clone, Copy, PartialEq, Eq, Structural)]
pub enum PacketError {
    /// A length or id could not be read, or a length was negative.
    VarIntError(VarIntError),
    /// The input ended inside a frame.
    UnexpectedEof,
    /// A frame body is longer than a length prefix can state.
    TooLong,
    /// A compressed body could not be inflated within one byte past its declared size.
    DecompressError,
    /// A compressed body did not decompress to its declared size.
    LengthMismatch,
}

/// A frame body with the compression prefix: zero and the plain body, or the
/// body's size and the body compressed.
#[derive(Debug, Clone)]
pub struct CompressedPacket {
    pub data: Vec<u8>,
}

/// A packet id and the bytes of its payload.
#[derive(Debug, Clone)]
pub struct UncompressedPacket {
    pub packet_id: VarInt,
    pub payload: Vec<u8>,
}

/// The body of one frame, as it stands between length prefixes on the wire.
#[derive(Debug, Clone)]
pub struct RawPacket {
    pub data: Vec<u8>,
}

/// What `miniz_oxide` makes of `b` as a zlib stream with at most `max` bytes of output.
pub uninterp spec fn zlib_inflate(b: Seq<u8>, max: nat) -> Option<Seq<u8>>;

/// The zlib stream that `miniz_oxide` makes of `b` at the default level.
pub uninterp spec fn zlib_deflate(b: Seq<u8>) -> Seq<u8>;

/// Relies on `miniz_oxide::inflate::decompress_to_vec_zlib_with_limit`: it fails where the
/// stream is invalid or its output would pass `max` bytes.
#[verifier::external_body]
fn inflate(b: &[u8], max: usize) -> (r: Option<Vec<u8>>)
    ensures
        r is Some <==> zlib_inflate(b@, max as nat) is Some,
        r is Some ==> r->Some_0@ == zlib_inflate(b@, max as nat)->Some_0 && r->Some_0@.len()
            <= max,
{
    miniz_oxide::inflate::decompress_to_vec_zlib_with_limit(b, max).ok()
}

/// Relies on `miniz_oxide::deflate::compress_to_vec_zlib`: a zlib stream that decompresses
/// to exactly its input.
#[verifier::external_body]
fn deflate(b: &[u8]) -> (r: Vec<u8>)
    ensures
        r@ == zlib_deflate(b@),
        zlib_inflate(r@, b@.len() + 1) == Some(b@),
{
    miniz_oxide::deflate::compress_to_vec_zlib(b, 6)
}

/// The bytes of a packet: its id as a VarInt, then its payload.
pub open spec fn packet_body(id: i32, payload: Seq<u8>) -> Seq<u8> {
    varint_bytes(id) + payload
}

/// The id and payload that the packet bytes `b` hold.
pub open spec fn parse_body(b: Seq<u8>) -> Result<(i32, Seq<u8>), PacketError> {
    match parse_varint(b, 0) {
        Ok((id, n)) => Ok((id, b.subrange(n as int, b.len() as int))),
        Err(e) => Err(PacketError::VarIntError(e)),
    }
}

/// The id and payload that a frame body holds under compression.
pub open spec fn parse_compressed_body(b: Seq<u8>) -> Result<(i32, Seq<u8>), PacketError> {
    match parse_varint(b, 0) {
        Ok((dl, n)) => {
            let rest = b.subrange(n as int, b.len() as int);
            if dl < 0 {
                Err(PacketError::VarIntError(VarIntError::NegativeValue))
            } else if dl == 0 {
                parse_body(rest)
            } else {
                match zlib_inflate(rest, (dl + 1) as nat) {
                    Some(d) => if d.len() == dl {
                        parse_body(d)
                    } else {
                        Err(PacketError::LengthMismatch)
                    },
                    None => Err(PacketError::DecompressError),
                }
            }
        },
        Err(e) => Err(PacketError::VarIntError(e)),
    }
}

/// The compressed form of the packet bytes `body` under threshold `t`.
pub open spec fn compressed_form(body: Seq<u8>, t: int) -> Option<Seq<u8>> {
    if body.len() < t {
        Some(varint_bytes(0) + body)
    } else if body.len() <= i32::MAX {
        Some(varint_bytes(body.len() as i32) + zlib_deflate(body))
    } else {
        None
    }
}

/// A frame: the length of `data` as a VarInt, then `data`.
pub open spec fn frame_bytes(data: Seq<u8>) -> Option<Seq<u8>> {
    if data.len() <= i32::MAX {
        Some(varint_bytes(data.len() as i32) + data)
    } else {
        None
    }
}

/// The body of the frame at `s[at]` and the number of bytes the frame takes.
pub open spec fn parse_frame(s: Seq<u8>, at: int) -> Result<(Seq<u8>, nat), PacketError> {
    match parse_varint(s, at) {
        Ok((l, n)) => if l < 0 {
            Err(PacketError::VarIntError(VarIntError::NegativeValue))
        } else if at + n + l > s.len() {
            Err(PacketError::UnexpectedEof)
        } else {
            Ok((s.subrange(at + n, at + n + l), n + l as nat))
        },
        Err(e) => Err(PacketError::VarIntError(e)),
    }
}

/// A packet turned into bytes and read back gives the same id and payload.
pub proof fn lemma_packet_round_trip(id: i32, payload: Seq<u8>)
    ensures
        parse_body(packet_body(id, payload)) == Ok::<(i32, Seq<u8>), PacketError>((id, payload)),
{
    lemma_varint_round_trip(id, payload);
    let b = packet_body(id, payload);
    assert(b.subrange(varint_bytes(id).len() as int, b.len() as int) =~= payload);
}

/// Under threshold `t`, a packet one byte shorter than `t` is sent with the prefix zero,
/// and a packet of exactly `t` bytes with its size as the prefix, which is not zero.
pub proof fn lemma_compression_threshold(id: i32, payload: Seq<u8>, t: int)
    requires
        packet_body(id, payload).len() <= i32::MAX,
    ensures
        packet_body(id, payload).len() == t - 1 ==> parse_varint(
            compressed_form(packet_body(id, payload), t)->Some_0,
            0,
        )->Ok_0.0 == 0,
        packet_body(id, payload).len() == t ==> parse_varint(
            compressed_form(packet_body(id, payload), t)->Some_0,
            0,
        )->Ok_0.0 == t && t != 0,
{
    let body = packet_body(id, payload);
    lemma_varint_len(id);
    lemma_varint_round_trip(0, body);
    lemma_varint_round_trip(body.len() as i32, zlib_deflate(body));
}

/// A compressed packet reads back as the packet, wherever the compressed stream
/// inflates back to the packet bytes, as every stream that `deflate` makes does.
pub proof fn lemma_compressed_round_trip(id: i32, payload: Seq<u8>, t: int)
    requires
        packet_body(id, payload).len() <= i32::MAX,
        zlib_inflate(zlib_deflate(packet_body(id, payload)), packet_body(id, payload).len() + 1)
            == Some(packet_body(id, payload)),
    ensures
        parse_compressed_body(compressed_form(packet_body(id, payload), t)->Some_0) == Ok::<
            (i32, Seq<u8>),
            PacketError,
        >((id, payload)),
{
    let body = packet_body(id, payload);
    let d = compressed_form(body, t)->Some_0;
    lemma_packet_round_trip(id, payload);
    lemma_varint_len(id);
    if body.len() < t {
        lemma_varint_round_trip(0, body);
        assert(d.subrange(varint_bytes(0).len() as int, d.len() as int) =~= body);
    } else {
        let l = body.len() as i32;
        lemma_varint_round_trip(l, zlib_deflate(body));
        assert(d.subrange(varint_bytes(l).len() as int, d.len() as int) =~= zlib_deflate(body));
    }
}

/// A frame cut one byte short is refused as ending early.
pub proof fn lemma_truncated_frame(data: Seq<u8>)
    requires
        1 <= data.len() <= i32::MAX,
    ensures
        parse_frame(frame_bytes(data)->Some_0.drop_last(), 0) == Err::<(Seq<u8>, nat), PacketError>(
            PacketError::UnexpectedEof,
        ),
{
    let l = data.len() as i32;
    let cut = frame_bytes(data)->Some_0.drop_last();
    assert(cut =~= varint_bytes(l) + data.drop_last());
    lemma_varint_round_trip(l, data.drop_last());
}

/// Where the reader stands after the frame at `s[at]` failed: as the length prefix
/// left it, or just past the prefix where the prefix was read.
pub open spec fn frame_error_offset(s: Seq<u8>, at: int) -> int {
    match parse_varint(s, at) {
        Ok((_, n)) => at + n,
        Err(e) => varint_error_offset(s, at, e),
    }
}

/// Takes the packet apart that the bytes `b` hold.
fn split_body(b: &[u8]) -> (r: Result<UncompressedPacket, PacketError>)
    ensures
        match parse_body(b@) {
            Ok((id, p)) => r is Ok && r->Ok_0.packet_id.0 == id && r->Ok_0.payload@ == p,
            Err(e) => r == Err::<UncompressedPacket, PacketError>(e),
        },
{
    let mut reader = ByteReader::new(copy_range(b, 0, b.len()));
    assert(b@.subrange(0, b@.len() as int) =~= b@);
    let packet_id = match VarInt::read_sync(&mut reader) {
        Ok(v) => v,
        Err(e) => {
            return Err(PacketError::VarIntError(e));
        },
    };
    let pos = reader.position();
    let payload = copy_range(b, pos, b.len());
    Ok(UncompressedPacket { packet_id, payload })
}

impl RawPacket {
    /// Reads one frame from `reader`: a VarInt length, then that many bytes.
    pub fn read_sync(reader: &mut ByteReader) -> (r: Result<RawPacket, PacketError>)
        requires
            old(reader).wf(),
        ensures
            final(reader).wf(),
            final(reader).source() == old(reader).source(),
            match parse_frame(old(reader).source(), old(reader).offset()) {
                Ok((d, n)) => r is Ok && r->Ok_0.data@ == d && final(reader).offset()
                    == old(reader).offset() + n,
                Err(e) => r == Err::<RawPacket, PacketError>(e) && final(reader).offset()
                    == frame_error_offset(old(reader).source(), old(reader).offset()),
            },
    {
        let len = match VarInt::read_sync(reader) {
            Ok(v) => v,
            Err(e) => {
                return Err(PacketError::VarIntError(e));
            },
        };
        if len.0 < 0 {
            return Err(PacketError::VarIntError(VarIntError::NegativeValue));
        }
        match reader.read_bytes(len.0 as usize) {
            Some(data) => Ok(RawPacket { data }),
            None => Err(PacketError::UnexpectedEof),
        }
    }

    /// The frame that carries this body: its length as a VarInt, then the body.
    pub fn to_frame(&self) -> (r: Result<Vec<u8>, PacketError>)
        ensures
            match frame_bytes(self.data@) {
                Some(f) => r is Ok && r->Ok_0@ == f,
                None => r == Err::<Vec<u8>, PacketError>(PacketError::TooLong),
            },
    {
        if self.data.len() > i32::MAX as usize {
            return Err(PacketError::TooLong);
        }
        let mut out: Vec<u8> = Vec::new();
        VarInt(self.data.len() as i32).write_sync(&mut out);
        append_bytes(&mut out, self.data.as_slice());
        Ok(out)
    }

    /// Reads the body as a packet id and a payload, with no compression.
    pub fn as_uncompressed(&self) -> (r: Result<UncompressedPacket, PacketError>)
        ensures
            match parse_body(self.data@) {
                Ok((id, p)) => r is Ok && r->Ok_0.packet_id.0 == id && r->Ok_0.payload@ == p,
                Err(e) => r == Err::<UncompressedPacket, PacketError>(e),
            },
    {
        split_body(self.data.as_slice())
    }

    /// Reads the body as a packet: under compression where a threshold is given,
    /// plain otherwise.
    pub fn try_uncompress(&self, threshold: Option<i32>) -> (r: Result<
        UncompressedPacket,
        PacketError,
    >)
        ensures
            match (if threshold is Some {
                parse_compressed_body(self.data@)
            } else {
                parse_body(self.data@)
            }) {
                Ok((id, p)) => r is Ok && r->Ok_0.packet_id.0 == id && r->Ok_0.payload@ == p,
                Err(e) => r == Err::<UncompressedPacket, PacketError>(e),
            },
    {
        if threshold.is_none() {
            return self.as_uncompressed();
        }
        let mut reader = ByteReader::new(copy_range(self.data.as_slice(), 0, self.data.len()));
        assert(self.data@.subrange(0, self.data@.len() as int) =~= self.data@);
        let data_length = match VarInt::read_sync(&mut reader) {
            Ok(v) => v,
            Err(e) => {
                return Err(PacketError::VarIntError(e));
            },
        };
        let pos = reader.position();
        let rest = copy_range(self.data.as_slice(), pos, self.data.len());
        if data_length.0 < 0 {
            Err(PacketError::VarIntError(VarIntError::NegativeValue))
        } else if data_length.0 == 0 {
            split_body(rest.as_slice())
        } else {
            let expected = data_length.0 as usize;
            match inflate(rest.as_slice(), expected + 1) {
                Some(d) => if d.len() == expected {
                    split_body(d.as_slice())
                } else {
                    Err(PacketError::LengthMismatch)
                },
                None => Err(PacketError::DecompressError),
            }
        }
    }
}

impl UncompressedPacket {
    /// The frame body of this packet with no compression: the id as a VarInt, then the payload.
    pub fn to_raw_packet(&self) -> (r: Result<RawPacket, PacketError>)
        ensures
            r is Ok,
            r->Ok_0.data@ == packet_body(self.packet_id.0, self.payload@),
    {
        let mut buf: Vec<u8> = Vec::new();
        self.packet_id.write_sync(&mut buf);
        append_bytes(&mut buf, self.payload.as_slice());
        Ok(RawPacket { data: buf })
    }

    /// Reads the payload as one record of type `T`, which must take all of it.
    pub fn convert<T: Deserialize>(&self) -> (r: Result<T, SerializationError>)
        ensures
            T::read_error(self.payload@, 0) is Some ==> r == Err::<T, SerializationError>(
                T::read_error(self.payload@, 0)->Some_0,
            ),
            r is Ok ==> T::read_error(self.payload@, 0) is None && T::reads_as(
                self.payload@,
                0,
                r->Ok_0,
                self.payload@.len(),
            ),
            T::read_error(self.payload@, 0) is None && r == Err::<T, SerializationError>(
                SerializationError::TrailingBytes,
            ) ==> exists|
                v: T,
                n: nat,
            | T::reads_as(self.payload@, 0, v, n) && n < self.payload@.len(),
            T::read_error(self.payload@, 0) is None ==> r is Ok || r == Err::<
                T,
                SerializationError,
            >(SerializationError::TrailingBytes),
            (exists|v: T, n: nat| T::reads_as(self.payload@, 0, v, n) && n < self.payload@.len())
                ==> r is Err,
    {
        let mut reader = ByteReader::new(copy_range(self.payload.as_slice(), 0, self.payload.len()));
        assert(self.payload@.subrange(0, self.payload@.len() as int) =~= self.payload@);
        let v = T::deserialize(&mut reader)?;
        if reader.remaining() != 0 {
            return Err(SerializationError::TrailingBytes);
        }
        proof {
            let p = self.payload@;
            assert forall|v2: T, n2: nat| T::reads_as(p, 0, v2, n2) implies n2 == p.len() by {
                T::lemma_read_unique(p, 0, v, p.len(), v2, n2);
            }
        }
        Ok(v)
    }

    /// The frame body of this packet under compression with threshold `threshold`:
    /// packets of at least `threshold` bytes are compressed.
    pub fn compress(&self, threshold: i32) -> (r: Result<CompressedPacket, PacketError>)
        ensures
            match compressed_form(packet_body(self.packet_id.0, self.payload@), threshold as int) {
                Some(d) => r is Ok && r->Ok_0.data@ == d,
                None => r == Err::<CompressedPacket, PacketError>(PacketError::TooLong),
            },
            r is Ok && packet_body(self.packet_id.0, self.payload@).len() >= threshold ==> zlib_inflate(
                r->Ok_0.data@.subrange(
                    varint_bytes(packet_body(self.packet_id.0, self.payload@).len() as i32).len() as int,
                    r->Ok_0.data@.len() as int,
                ),
                packet_body(self.packet_id.0, self.payload@).len() + 1,
            ) == Some(packet_body(self.packet_id.0, self.payload@)),
    {
        let raw_packet = self.to_raw_packet()?;
        let body = raw_packet.data;
        let mut data: Vec<u8> = Vec::new();
        if threshold < 0 || body.len() >= threshold as usize {
            if body.len() > i32::MAX as usize {
                return Err(PacketError::TooLong);
            }
            VarInt(body.len() as i32).write_sync(&mut data);
            let ghost prefix = data@;
            let packed = deflate(body.as_slice());
            append_bytes(&mut data, packed.as_slice());
            assert(data@.subrange(prefix.len() as int, data@.len() as int) =~= packed@);
        } else {
            VarInt(0).write_sync(&mut data);
            append_bytes(&mut data, body.as_slice());
        }
        Ok(CompressedPacket { data })
    }

    /// The frame body of this packet, compressed where a threshold is given.
    pub fn compress_to_raw(&self, threshold: Option<i32>) -> (r: Result<RawPacket, PacketError>)
        ensures
            match threshold {
                Some(t) => match compressed_form(packet_body(self.packet_id.0, self.payload@), t as int) {
                    Some(d) => r is Ok && r->Ok_0.data@ == d,
                    None => r == Err::<RawPacket, PacketError>(PacketError::TooLong),
                },
                None => r is Ok && r->Ok_0.data@ == packet_body(self.packet_id.0, self.payload@),
            },
            r is Ok && threshold is Some && packet_body(self.packet_id.0, self.payload@).len()
                >= threshold->Some_0 ==> zlib_inflate(
                r->Ok_0.data@.subrange(
                    varint_bytes(packet_body(self.packet_id.0, self.payload@).len() as i32).len() as int,
                    r->Ok_0.data@.len() as int,
                ),
                packet_body(self.packet_id.0, self.payload@).len() + 1,
            ) == Some(packet_body(self.packet_id.0, self.payload@)),
    {
        match threshold {
            Some(t) => Ok(self.compress(t)?.to_raw_packet()),
            None => self.to_raw_packet(),
        }
    }
}

impl CompressedPacket {
    /// The same bytes as a frame body.
    pub fn to_raw_packet(self) -> (r: RawPacket)
        ensures
            r.data@ == self.data@,
    {
        RawPacket { data: self.data }
    }
}

} // verus!
