use vstd::prelude::*;

use crate::packet::UncompressedPacket;
use crate::packet_io::PacketIO;
use crate::reader::append_bytes;
use crate::varint::VarInt;

verus! {

/// The bytes that writing `v` appends: its wire form, or nothing where it has none.
pub open spec fn written<T: PacketIO>(v: T) -> Seq<u8> {
    match v.io_wire() {
        Some(b) => b,
        None => seq![],
    }
}

/// Collects the payload of a packet field by field.
pub struct PacketBuilder {
    pub packet_id: VarInt,
    pub data: Vec<u8>,
}

impl PacketBuilder {
    pub fn new(packet_id: VarInt) -> (r: PacketBuilder)
        ensures
            r.packet_id == packet_id,
            r.data@ == Seq::<u8>::empty(),
    {
        PacketBuilder { packet_id, data: vec![] }
    }

    /// The packet with the fields written so far as its payload.
    pub fn build(self) -> (r: UncompressedPacket)
        ensures
            r.packet_id == self.packet_id,
            r.payload@ == self.data@,
    {
        UncompressedPacket { packet_id: self.packet_id, payload: self.data }
    }

    /// Appends the wire form of `data`; a value without one leaves the payload as it was.
    pub fn write<T: PacketIO>(self, data: T) -> (r: Self)
        ensures
            r.packet_id == self.packet_id,
            r.data@ == self.data@ + written(data),
    {
        let mut b = self;
        let ghost w = data.io_wire();
        let _ = data.write_to(&mut b.data);
        assert(w is None ==> b.data@ =~= self.data@ + written(data));
        b
    }

    /// Appends a present flag, then the value where there is one.
    pub fn write_option<T: PacketIO>(self, data: Option<T>) -> (r: Self)
        ensures
            r.packet_id == self.packet_id,
            r.data@ == match data {
                Some(t) => self.data@ + seq![1u8] + written(t),
                None => self.data@ + seq![0u8],
            },
    {
        let mut b = self;
        match data {
            Some(t) => {
                let _ = true.write_to(&mut b.data);
                let ghost mid = b.data@;
                let ghost w = t.io_wire();
                let _ = t.write_to(&mut b.data);
                assert(w is None ==> b.data@ =~= mid + written(t));
            },
            None => {
                let _ = false.write_to(&mut b.data);
            },
        }
        b
    }

    /// Appends `buf` as it is, with no length prefix.
    pub fn write_buffer(self, buf: &[u8]) -> (r: Self)
        ensures
            r.packet_id == self.packet_id,
            r.data@ == self.data@ + buf@,
    {
        let mut b = self;
        append_bytes(&mut b.data, buf);
        b
    }
}

} // verus!
