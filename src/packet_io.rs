use vstd::prelude::*;

use crate::reader::ByteReader;
use crate::ser::{
    lemma_byte_radix_values, lemma_fixed_reads_back, lemma_string_reads_back, twos, Deserialize,
    SerializationError, Serialize,
};
use crate::varint::{lemma_varint_round_trip, lemma_varint_shift, VarInt};

verus! {

/// A field type that packet builders write and packet readers read.
pub trait PacketIO: Sized + View {
    /// The bytes this value is written as, or `None` where it has no wire form.
    spec fn io_wire(&self) -> Option<Seq<u8>>;

    /// Reading at `data[at]` fails with this error; `None` where it succeeds.
    spec fn io_error(data: Seq<u8>, at: int) -> Option<SerializationError>;

    /// Reading at `data[at]` gives `v` and takes `n` bytes.
    spec fn io_reads_as(data: Seq<u8>, at: int, v: Self, n: nat) -> bool;

    /// A read at one place fixes the value and the number of bytes it takes.
    proof fn lemma_io_read_unique(data: Seq<u8>, at: int, v1: Self, n1: nat, v2: Self, n2: nat)
        requires
            Self::io_reads_as(data, at, v1, n1),
            Self::io_reads_as(data, at, v2, n2),
        ensures
            n1 == n2,
            v1@ == v2@,
    ;

    /// A value's wire form, whatever stands before and after it, reads back as the
    /// value and takes exactly its bytes.
    proof fn lemma_io_round_trip(v: Self, pre: Seq<u8>, rest: Seq<u8>)
        requires
            v.io_wire() is Some,
        ensures
            Self::io_error(pre + v.io_wire()->Some_0 + rest, pre.len() as int) is None,
            Self::io_reads_as(
                pre + v.io_wire()->Some_0 + rest,
                pre.len() as int,
                v,
                v.io_wire()->Some_0.len(),
            ),
    ;

    /// Appends the wire form of this value to `out`.
    fn write_to(self, out: &mut Vec<u8>) -> (r: Result<(), SerializationError>)
        ensures
            match self.io_wire() {
                Some(b) => r is Ok && final(out)@ == old(out)@ + b,
                None => r is Err && final(out)@ == old(out)@,
            },
    ;

    /// Reads one value from `reader`, consuming exactly its bytes.
    fn read_from(reader: &mut ByteReader) -> (r: Result<Self, SerializationError>)
        requires
            old(reader).wf(),
        ensures
            final(reader).wf(),
            final(reader).source() == old(reader).source(),
            match Self::io_error(old(reader).source(), old(reader).offset()) {
                Some(e) => r == Err::<Self, SerializationError>(e),
                None => r is Ok && old(reader).offset() <= final(reader).offset()
                    && Self::io_reads_as(
                    old(reader).source(),
                    old(reader).offset(),
                    r->Ok_0,
                    (final(reader).offset() - old(reader).offset()) as nat,
                ),
            },
    ;
}

impl PacketIO for bool {
    open spec fn io_wire(&self) -> Option<Seq<u8>> {
        self.wire()
    }

    open spec fn io_error(data: Seq<u8>, at: int) -> Option<SerializationError> {
        <bool as Deserialize>::read_error(data, at)
    }

    open spec fn io_reads_as(data: Seq<u8>, at: int, v: Self, n: nat) -> bool {
        <bool as Deserialize>::reads_as(data, at, v, n)
    }

    proof fn lemma_io_read_unique(data: Seq<u8>, at: int, v1: Self, n1: nat, v2: Self, n2: nat) {
    }

    proof fn lemma_io_round_trip(v: Self, pre: Seq<u8>, rest: Seq<u8>) {
        let w = v.io_wire()->Some_0;
        assert((pre + w + rest)[pre.len() as int] == w[0]);
    }

    fn write_to(self, out: &mut Vec<u8>) -> (r: Result<(), SerializationError>) {
        self.serialize(out)
    }

    fn read_from(reader: &mut ByteReader) -> (r: Result<Self, SerializationError>) {
        <bool as Deserialize>::deserialize(reader)
    }
}

impl PacketIO for VarInt {
    open spec fn io_wire(&self) -> Option<Seq<u8>> {
        self.wire()
    }

    open spec fn io_error(data: Seq<u8>, at: int) -> Option<SerializationError> {
        <VarInt as Deserialize>::read_error(data, at)
    }

    open spec fn io_reads_as(data: Seq<u8>, at: int, v: Self, n: nat) -> bool {
        <VarInt as Deserialize>::reads_as(data, at, v, n)
    }

    proof fn lemma_io_read_unique(data: Seq<u8>, at: int, v1: Self, n1: nat, v2: Self, n2: nat) {
    }

    proof fn lemma_io_round_trip(v: Self, pre: Seq<u8>, rest: Seq<u8>) {
        let w = v.io_wire()->Some_0;
        assert(pre + w + rest =~= pre + (w + rest));
        lemma_varint_shift(pre, w + rest, 0);
        lemma_varint_round_trip(v.0, rest);
    }

    fn write_to(self, out: &mut Vec<u8>) -> (r: Result<(), SerializationError>) {
        self.serialize(out)
    }

    fn read_from(reader: &mut ByteReader) -> (r: Result<Self, SerializationError>) {
        <VarInt as Deserialize>::deserialize(reader)
    }
}

impl PacketIO for String {
    open spec fn io_wire(&self) -> Option<Seq<u8>> {
        self.wire()
    }

    open spec fn io_error(data: Seq<u8>, at: int) -> Option<SerializationError> {
        <String as Deserialize>::read_error(data, at)
    }

    open spec fn io_reads_as(data: Seq<u8>, at: int, v: Self, n: nat) -> bool {
        <String as Deserialize>::reads_as(data, at, v, n)
    }

    proof fn lemma_io_read_unique(data: Seq<u8>, at: int, v1: Self, n1: nat, v2: Self, n2: nat) {
    }

    proof fn lemma_io_round_trip(v: Self, pre: Seq<u8>, rest: Seq<u8>) {
        lemma_string_reads_back(v, pre, rest);
    }

    fn write_to(self, out: &mut Vec<u8>) -> (r: Result<(), SerializationError>) {
        self.serialize(out)
    }

    fn read_from(reader: &mut ByteReader) -> (r: Result<Self, SerializationError>) {
        <String as Deserialize>::deserialize(reader)
    }
}

impl PacketIO for u8 {
    open spec fn io_wire(&self) -> Option<Seq<u8>> {
        self.wire()
    }

    open spec fn io_error(data: Seq<u8>, at: int) -> Option<SerializationError> {
        <u8 as Deserialize>::read_error(data, at)
    }

    open spec fn io_reads_as(data: Seq<u8>, at: int, v: Self, n: nat) -> bool {
        <u8 as Deserialize>::reads_as(data, at, v, n)
    }

    proof fn lemma_io_read_unique(data: Seq<u8>, at: int, v1: Self, n1: nat, v2: Self, n2: nat) {
    }

    proof fn lemma_io_round_trip(v: Self, pre: Seq<u8>, rest: Seq<u8>) {
        lemma_byte_radix_values();
        lemma_fixed_reads_back(v as nat, 1, pre, rest);
    }

    fn write_to(self, out: &mut Vec<u8>) -> (r: Result<(), SerializationError>) {
        self.serialize(out)
    }

    fn read_from(reader: &mut ByteReader) -> (r: Result<Self, SerializationError>) {
        <u8 as Deserialize>::deserialize(reader)
    }
}

impl PacketIO for u16 {
    open spec fn io_wire(&self) -> Option<Seq<u8>> {
        self.wire()
    }

    open spec fn io_error(data: Seq<u8>, at: int) -> Option<SerializationError> {
        <u16 as Deserialize>::read_error(data, at)
    }

    open spec fn io_reads_as(data: Seq<u8>, at: int, v: Self, n: nat) -> bool {
        <u16 as Deserialize>::reads_as(data, at, v, n)
    }

    proof fn lemma_io_read_unique(data: Seq<u8>, at: int, v1: Self, n1: nat, v2: Self, n2: nat) {
    }

    proof fn lemma_io_round_trip(v: Self, pre: Seq<u8>, rest: Seq<u8>) {
        lemma_byte_radix_values();
        lemma_fixed_reads_back(v as nat, 2, pre, rest);
    }

    fn write_to(self, out: &mut Vec<u8>) -> (r: Result<(), SerializationError>) {
        self.serialize(out)
    }

    fn read_from(reader: &mut ByteReader) -> (r: Result<Self, SerializationError>) {
        <u16 as Deserialize>::deserialize(reader)
    }
}

impl PacketIO for u32 {
    open spec fn io_wire(&self) -> Option<Seq<u8>> {
        self.wire()
    }

    open spec fn io_error(data: Seq<u8>, at: int) -> Option<SerializationError> {
        <u32 as Deserialize>::read_error(data, at)
    }

    open spec fn io_reads_as(data: Seq<u8>, at: int, v: Self, n: nat) -> bool {
        <u32 as Deserialize>::reads_as(data, at, v, n)
    }

    proof fn lemma_io_read_unique(data: Seq<u8>, at: int, v1: Self, n1: nat, v2: Self, n2: nat) {
    }

    proof fn lemma_io_round_trip(v: Self, pre: Seq<u8>, rest: Seq<u8>) {
        lemma_byte_radix_values();
        lemma_fixed_reads_back(v as nat, 4, pre, rest);
    }

    fn write_to(self, out: &mut Vec<u8>) -> (r: Result<(), SerializationError>) {
        self.serialize(out)
    }

    fn read_from(reader: &mut ByteReader) -> (r: Result<Self, SerializationError>) {
        <u32 as Deserialize>::deserialize(reader)
    }
}

impl PacketIO for u64 {
    open spec fn io_wire(&self) -> Option<Seq<u8>> {
        self.wire()
    }

    open spec fn io_error(data: Seq<u8>, at: int) -> Option<SerializationError> {
        <u64 as Deserialize>::read_error(data, at)
    }

    open spec fn io_reads_as(data: Seq<u8>, at: int, v: Self, n: nat) -> bool {
        <u64 as Deserialize>::reads_as(data, at, v, n)
    }

    proof fn lemma_io_read_unique(data: Seq<u8>, at: int, v1: Self, n1: nat, v2: Self, n2: nat) {
    }

    proof fn lemma_io_round_trip(v: Self, pre: Seq<u8>, rest: Seq<u8>) {
        lemma_byte_radix_values();
        lemma_fixed_reads_back(v as nat, 8, pre, rest);
    }

    fn write_to(self, out: &mut Vec<u8>) -> (r: Result<(), SerializationError>) {
        self.serialize(out)
    }

    fn read_from(reader: &mut ByteReader) -> (r: Result<Self, SerializationError>) {
        <u64 as Deserialize>::deserialize(reader)
    }
}

impl PacketIO for i8 {
    open spec fn io_wire(&self) -> Option<Seq<u8>> {
        self.wire()
    }

    open spec fn io_error(data: Seq<u8>, at: int) -> Option<SerializationError> {
        <i8 as Deserialize>::read_error(data, at)
    }

    open spec fn io_reads_as(data: Seq<u8>, at: int, v: Self, n: nat) -> bool {
        <i8 as Deserialize>::reads_as(data, at, v, n)
    }

    proof fn lemma_io_read_unique(data: Seq<u8>, at: int, v1: Self, n1: nat, v2: Self, n2: nat) {
    }

    proof fn lemma_io_round_trip(v: Self, pre: Seq<u8>, rest: Seq<u8>) {
        lemma_byte_radix_values();
        lemma_fixed_reads_back(twos(v as int, 1), 1, pre, rest);
    }

    fn write_to(self, out: &mut Vec<u8>) -> (r: Result<(), SerializationError>) {
        self.serialize(out)
    }

    fn read_from(reader: &mut ByteReader) -> (r: Result<Self, SerializationError>) {
        <i8 as Deserialize>::deserialize(reader)
    }
}

impl PacketIO for i16 {
    open spec fn io_wire(&self) -> Option<Seq<u8>> {
        self.wire()
    }

    open spec fn io_error(data: Seq<u8>, at: int) -> Option<SerializationError> {
        <i16 as Deserialize>::read_error(data, at)
    }

    open spec fn io_reads_as(data: Seq<u8>, at: int, v: Self, n: nat) -> bool {
        <i16 as Deserialize>::reads_as(data, at, v, n)
    }

    proof fn lemma_io_read_unique(data: Seq<u8>, at: int, v1: Self, n1: nat, v2: Self, n2: nat) {
    }

    proof fn lemma_io_round_trip(v: Self, pre: Seq<u8>, rest: Seq<u8>) {
        lemma_byte_radix_values();
        lemma_fixed_reads_back(twos(v as int, 2), 2, pre, rest);
    }

    fn write_to(self, out: &mut Vec<u8>) -> (r: Result<(), SerializationError>) {
        self.serialize(out)
    }

    fn read_from(reader: &mut ByteReader) -> (r: Result<Self, SerializationError>) {
        <i16 as Deserialize>::deserialize(reader)
    }
}

impl PacketIO for i32 {
    open spec fn io_wire(&self) -> Option<Seq<u8>> {
        self.wire()
    }

    open spec fn io_error(data: Seq<u8>, at: int) -> Option<SerializationError> {
        <i32 as Deserialize>::read_error(data, at)
    }

    open spec fn io_reads_as(data: Seq<u8>, at: int, v: Self, n: nat) -> bool {
        <i32 as Deserialize>::reads_as(data, at, v, n)
    }

    proof fn lemma_io_read_unique(data: Seq<u8>, at: int, v1: Self, n1: nat, v2: Self, n2: nat) {
    }

    proof fn lemma_io_round_trip(v: Self, pre: Seq<u8>, rest: Seq<u8>) {
        lemma_byte_radix_values();
        lemma_fixed_reads_back(twos(v as int, 4), 4, pre, rest);
    }

    fn write_to(self, out: &mut Vec<u8>) -> (r: Result<(), SerializationError>) {
        self.serialize(out)
    }

    fn read_from(reader: &mut ByteReader) -> (r: Result<Self, SerializationError>) {
        <i32 as Deserialize>::deserialize(reader)
    }
}

impl PacketIO for i64 {
    open spec fn io_wire(&self) -> Option<Seq<u8>> {
        self.wire()
    }

    open spec fn io_error(data: Seq<u8>, at: int) -> Option<SerializationError> {
        <i64 as Deserialize>::read_error(data, at)
    }

    open spec fn io_reads_as(data: Seq<u8>, at: int, v: Self, n: nat) -> bool {
        <i64 as Deserialize>::reads_as(data, at, v, n)
    }

    proof fn lemma_io_read_unique(data: Seq<u8>, at: int, v1: Self, n1: nat, v2: Self, n2: nat) {
    }

    proof fn lemma_io_round_trip(v: Self, pre: Seq<u8>, rest: Seq<u8>) {
        lemma_byte_radix_values();
        lemma_fixed_reads_back(twos(v as int, 8), 8, pre, rest);
    }

    fn write_to(self, out: &mut Vec<u8>) -> (r: Result<(), SerializationError>) {
        self.serialize(out)
    }

    fn read_from(reader: &mut ByteReader) -> (r: Result<Self, SerializationError>) {
        <i64 as Deserialize>::deserialize(reader)
    }
}

} // verus!
