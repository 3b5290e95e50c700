use vstd::prelude::*;

use crate::packet::UncompressedPacket;
use crate::packet_io::PacketIO;
use crate::reader::{copy_range, ByteReader};
use crate::ser::SerializationError;

verus! {

/// A present value written after a set flag, whatever stands around the two, reads back
/// as the flag and then the value, which takes exactly its bytes.
pub proof fn lemma_option_round_trip<T: PacketIO>(t: T, pre: Seq<u8>, rest: Seq<u8>)
    requires
        t.io_wire() is Some,
    ensures
        ({
            let d = pre + seq![1u8] + t.io_wire()->Some_0 + rest;
            &&& bool::io_error(d, pre.len() as int) is None
            &&& d[pre.len() as int] != 0
            &&& T::io_error(d, pre.len() + 1int) is None
            &&& forall|v: T, n: nat| #[trigger]
                T::io_reads_as(d, pre.len() + 1int, v, n) ==> v@ == t@ && n == t.io_wire()->Some_0.len()
        }),
{
    let w = t.io_wire()->Some_0;
    let d = pre + seq![1u8] + w + rest;
    assert(d[pre.len() as int] == 1u8);
    let pre1 = pre + seq![1u8];
    assert(pre1 + w + rest =~= d);
    T::lemma_io_round_trip(t, pre1, rest);
    assert forall|v: T, n: nat| #[trigger]
        T::io_reads_as(d, pre.len() + 1int, v, n) implies v@ == t@ && n == w.len() by {
        T::lemma_io_read_unique(d, pre.len() + 1int, t, w.len(), v, n);
    }
}

/// A flag left clear, whatever stands around it, reads back as no value.
pub proof fn lemma_option_none_round_trip(pre: Seq<u8>, rest: Seq<u8>)
    ensures
        ({
            let d = pre + seq![0u8] + rest;
            bool::io_error(d, pre.len() as int) is None && d[pre.len() as int] == 0
        }),
{
    assert((pre + seq![0u8] + rest)[pre.len() as int] == 0u8);
}

/// Reads the fields of a packet's payload in order.
pub struct PacketReader {
    stream: ByteReader,
}

impl PacketReader {
    /// The payload being read.
    pub closed spec fn source(&self) -> Seq<u8> {
        self.stream.source()
    }

    /// How many bytes of the payload have been read.
    pub closed spec fn offset(&self) -> int {
        self.stream.offset()
    }

    pub open spec fn wf(&self) -> bool {
        0 <= self.offset() <= self.source().len()
    }

    pub fn new(packet: &UncompressedPacket) -> (r: Self)
        ensures
            r.wf(),
            r.source() == packet.payload@,
            r.offset() == 0,
    {
        let data = copy_range(packet.payload.as_slice(), 0, packet.payload.len());
        assert(packet.payload@.subrange(0, packet.payload@.len() as int) =~= packet.payload@);
        PacketReader { stream: ByteReader::new(data) }
    }

    /// Reads the next field as a `T`.
    pub fn read<T: PacketIO>(&mut self) -> (r: Result<T, SerializationError>)
        requires
            old(self).wf(),
        ensures
            final(self).wf(),
            final(self).source() == old(self).source(),
            match T::io_error(old(self).source(), old(self).offset()) {
                Some(e) => r == Err::<T, SerializationError>(e),
                None => r is Ok && old(self).offset() <= final(self).offset() && T::io_reads_as(
                    old(self).source(),
                    old(self).offset(),
                    r->Ok_0,
                    (final(self).offset() - old(self).offset()) as nat,
                ),
            },
    {
        T::read_from(&mut self.stream)
    }

    /// Reads a present flag, then a `T` where the flag is set.
    pub fn read_option<T: PacketIO>(&mut self) -> (r: Result<Option<T>, SerializationError>)
        requires
            old(self).wf(),
        ensures
            final(self).wf(),
            final(self).source() == old(self).source(),
            match bool::io_error(old(self).source(), old(self).offset()) {
                Some(e) => r == Err::<Option<T>, SerializationError>(e),
                None => if old(self).source()[old(self).offset()] == 0 {
                    r == Ok::<Option<T>, SerializationError>(None) && final(self).offset()
                        == old(self).offset() + 1
                } else {
                    match T::io_error(old(self).source(), old(self).offset() + 1) {
                        Some(e) => r == Err::<Option<T>, SerializationError>(e),
                        None => r is Ok && r->Ok_0 is Some
                            && old(self).offset() + 1 <= final(self).offset()
                            && T::io_reads_as(
                            old(self).source(),
                            old(self).offset() + 1,
                            r->Ok_0->Some_0,
                            (final(self).offset() - old(self).offset() - 1) as nat,
                        ),
                    }
                },
            },
    {
        let has_item: bool = bool::read_from(&mut self.stream)?;
        if has_item {
            let v = T::read_from(&mut self.stream)?;
            Ok(Some(v))
        } else {
            Ok(None)
        }
    }

    /// Copies as many of the next bytes as `buf` holds, or as are left, into `buf`.
    pub fn read_exact(&mut self, buf: &mut [u8]) -> (r: usize)
        requires
            old(self).wf(),
        ensures
            final(self).wf(),
            final(self).source() == old(self).source(),
            r == if old(buf)@.len() < old(self).source().len() - old(self).offset() {
                old(buf)@.len() as int
            } else {
                old(self).source().len() - old(self).offset()
            },
            final(self).offset() == old(self).offset() + r,
            final(buf)@.len() == old(buf)@.len(),
            final(buf)@.subrange(0, r as int) == old(self).source().subrange(
                old(self).offset(),
                old(self).offset() + r,
            ),
            final(buf)@.subrange(r as int, old(buf)@.len() as int) == old(buf)@.subrange(
                r as int,
                old(buf)@.len() as int,
            ),
    {
        let n = if buf.len() < self.stream.remaining() {
            buf.len()
        } else {
            self.stream.remaining()
        };
        let ghost start = self.offset();
        let ghost src = self.source();
        let mut i: usize = 0;
        while i < n
            invariant
                self.wf(),
                self.source() == src,
                src == old(self).source(),
                n <= buf@.len(),
                buf@.len() == old(buf)@.len(),
                start == old(self).offset(),
                start + n <= src.len(),
                i <= n,
                self.offset() == start + i,
                forall|j: int| 0 <= j < i ==> #[trigger] buf@[j] == src[start + j],
                forall|j: int| n <= j < buf@.len() ==> #[trigger] buf@[j] == old(buf)@[j],
            decreases n - i,
        {
            let b = match self.stream.read_byte() {
                Some(b) => b,
                None => 0,
            };
            buf[i] = b;
            i = i + 1;
        }
        assert(buf@.subrange(0, n as int) =~= src.subrange(start, start + n));
        assert(buf@.subrange(n as int, buf@.len() as int) =~= old(buf)@.subrange(
            n as int,
            buf@.len() as int,
        ));
        n
    }
}

} // verus!
