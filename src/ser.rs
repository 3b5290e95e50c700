use vstd::prelude::*;
use vstd::utf8::*;

use crate::reader::{append_bytes, ByteReader};
use crate::varint::{
    lemma_varint_round_trip, lemma_varint_shift, parse_varint, varint_bytes, VarInt, VarIntError,
};

verus! {

/// Why a value could not be written or read.
#[derive(Debug, Clone, Copy, PartialEq, Eq, Structural)]
pub enum SerializationError {
    /// A VarInt in the input could not be read, or gave a negative length.
    VarIntError(VarIntError),
    /// The input ended before the value did.
    UnexpectedEof,
    /// A string field held bytes that are not UTF-8.
    FromUtf8Error,
    /// A string or buffer is longer than a length prefix can state.
    TooLong,
    /// A record was read and bytes of its payload were left over.
    TrailingBytes,
}

/// A type with a wire form.
pub trait Serialize {
    /// The bytes this value is written as, or `None` where it has no wire form.
    spec fn wire(&self) -> Option<Seq<u8>>;

    /// Appends the wire form of this value to `out`.
    fn serialize(&self, out: &mut Vec<u8>) -> (r: Result<(), SerializationError>)
        ensures
            match self.wire() {
                Some(b) => r is Ok && final(out)@ == old(out)@ + b,
                None => r == Err::<(), SerializationError>(SerializationError::TooLong)
                    && final(out)@ == old(out)@,
            },
    ;
}

/// A type that can be read back from its wire form.
pub trait Deserialize: Sized + View {
    /// Reading at `data[at]` fails with this error; `None` where it succeeds.
    spec fn read_error(data: Seq<u8>, at: int) -> Option<SerializationError>;

    /// Reading at `data[at]` gives `v` and takes `n` bytes.
    spec fn reads_as(data: Seq<u8>, at: int, v: Self, n: nat) -> bool;

    /// A read at one place fixes the value and the number of bytes it takes.
    proof fn lemma_read_unique(data: Seq<u8>, at: int, v1: Self, n1: nat, v2: Self, n2: nat)
        requires
            Self::reads_as(data, at, v1, n1),
            Self::reads_as(data, at, v2, n2),
        ensures
            n1 == n2,
            v1@ == v2@,
    ;

    /// Reads one value from `reader`, consuming exactly its bytes.
    fn deserialize(reader: &mut ByteReader) -> (r: Result<Self, SerializationError>)
        requires
            old(reader).wf(),
        ensures
            final(reader).wf(),
            final(reader).source() == old(reader).source(),
            match Self::read_error(old(reader).source(), old(reader).offset()) {
                Some(e) => r == Err::<Self, SerializationError>(e),
                None => r is Ok && old(reader).offset() <= final(reader).offset() && Self::reads_as(
                    old(reader).source(),
                    old(reader).offset(),
                    r->Ok_0,
                    (final(reader).offset() - old(reader).offset()) as nat,
                ),
            },
    ;
}

/// What a length prefix at `data[at]` gives: the length and the prefix's size.
pub open spec fn parse_length(data: Seq<u8>, at: int) -> Result<(nat, nat), SerializationError> {
    match parse_varint(data, at) {
        Ok((l, n)) => if l < 0 {
            Err(SerializationError::VarIntError(VarIntError::NegativeValue))
        } else {
            Ok((l as nat, n))
        },
        Err(e) => Err(SerializationError::VarIntError(e)),
    }
}

/// The `len` bytes that follow a length prefix of `n` bytes at `data[at]`, if there are that many.
pub open spec fn prefixed_body(data: Seq<u8>, at: int) -> Result<Seq<u8>, SerializationError> {
    match parse_length(data, at) {
        Ok((len, n)) => if at + n + len <= data.len() {
            Ok(data.subrange(at + n, at + n + len))
        } else {
            Err(SerializationError::UnexpectedEof)
        },
        Err(e) => Err(e),
    }
}

/// A length-prefixed field: the VarInt length of `body`, then `body`.
pub open spec fn prefixed(body: Seq<u8>) -> Option<Seq<u8>> {
    if body.len() <= i32::MAX {
        Some(varint_bytes(body.len() as i32) + body)
    } else {
        None
    }
}

/// A length-prefixed field reads back as its body, whatever follows it.
pub proof fn lemma_prefixed_round_trip(body: Seq<u8>, rest: Seq<u8>)
    requires
        body.len() <= i32::MAX,
    ensures
        prefixed_body(prefixed(body)->Some_0 + rest, 0) == Ok::<Seq<u8>, SerializationError>(body),
        parse_length(prefixed(body)->Some_0 + rest, 0)->Ok_0.1 + body.len() == prefixed(
            body,
        )->Some_0.len(),
{
    let l = body.len() as i32;
    let data = prefixed(body)->Some_0 + rest;
    assert(data =~= varint_bytes(l) + (body + rest));
    lemma_varint_round_trip(l, body + rest);
    let n = varint_bytes(l).len();
    assert(data.subrange(n as int, n + body.len() as int) =~= body);
}

/// A string written as a field reads back as the same string, whatever follows it.
pub proof fn lemma_string_round_trip(s: String, rest: Seq<u8>)
    requires
        s.wire() is Some,
    ensures
        String::read_error(s.wire()->Some_0 + rest, 0) is None,
        forall|v: String, n: nat|
            #[trigger] String::reads_as(s.wire()->Some_0 + rest, 0, v, n) ==> v@ == s@ && n
                == s.wire()->Some_0.len(),
{
    let b = encode_utf8(s@);
    lemma_prefixed_round_trip(b, rest);
    encode_utf8_valid_utf8(s@);
    encode_utf8_decode_utf8(s@);
}

/// A string field whose bytes are not UTF-8 is refused with `FromUtf8Error`.
pub proof fn lemma_string_invalid_utf8(body: Seq<u8>, rest: Seq<u8>)
    requires
        body.len() <= i32::MAX,
        !valid_utf8(body),
    ensures
        String::read_error(prefixed(body)->Some_0 + rest, 0) == Some(
            SerializationError::FromUtf8Error,
        ),
{
    lemma_prefixed_round_trip(body, rest);
}

/// `256^w`.
pub open spec fn byte_radix(w: nat) -> nat
    decreases w,
{
    if w == 0 {
        1
    } else {
        256 * byte_radix((w - 1) as nat)
    }
}

/// The low `w` bytes of `v`, most significant first.
pub open spec fn be_bytes(v: nat, w: nat) -> Seq<u8>
    decreases w,
{
    if w == 0 {
        seq![]
    } else {
        be_bytes(v / 256, (w - 1) as nat).push((v % 256) as u8)
    }
}

/// The number that `b` spells in base 256, most significant byte first.
pub open spec fn be_value(b: Seq<u8>) -> nat
    decreases b.len(),
{
    if b.len() == 0 {
        0
    } else {
        be_value(b.drop_last()) * 256 + b.last() as nat
    }
}

/// `v` as a `w`-byte two's complement pattern.
pub open spec fn twos(v: int, w: nat) -> nat {
    if v >= 0 {
        v as nat
    } else {
        (v + byte_radix(w)) as nat
    }
}

/// The signed value of the `w`-byte two's complement pattern `u`.
pub open spec fn untwos(u: nat, w: nat) -> int {
    if 2 * u < byte_radix(w) {
        u as int
    } else {
        u - byte_radix(w)
    }
}

/// Reading `w` fixed bytes at `data[at]` fails only where fewer are left.
pub open spec fn fixed_error(data: Seq<u8>, at: int, w: nat) -> Option<SerializationError> {
    if 0 <= at && at + w <= data.len() {
        None
    } else {
        Some(SerializationError::UnexpectedEof)
    }
}

/// The `w` bytes at `data[at]` read as an unsigned big-endian number.
pub open spec fn fixed_value(data: Seq<u8>, at: int, w: nat) -> nat {
    be_value(data.subrange(at, at + w))
}

proof fn lemma_byte_radix_mono(a: nat, b: nat)
    requires
        a <= b,
    ensures
        byte_radix(a) <= byte_radix(b),
    decreases b,
{
    if a < b {
        lemma_byte_radix_mono(a, (b - 1) as nat);
    }
}

pub proof fn lemma_byte_radix_values()
    ensures
        byte_radix(1) == 0x100,
        byte_radix(2) == 0x1_0000,
        byte_radix(4) == 0x1_0000_0000,
        byte_radix(8) == 0x1_0000_0000_0000_0000,
{
    reveal_with_fuel(byte_radix, 9);
}

/// Appends the low `w` bytes of `v`, most significant first.
fn write_be(v: u64, w: usize, out: &mut Vec<u8>)
    ensures
        final(out)@ == old(out)@ + be_bytes(v as nat, w as nat),
    decreases w,
{
    if w > 0 {
        write_be(v / 256, w - 1, out);
        out.push((v % 256) as u8);
        assert(be_bytes(v as nat, w as nat) == be_bytes((v / 256) as nat, (w - 1) as nat).push(
            (v % 256) as u8,
        ));
    }
}

/// Reads `w` bytes as a big-endian number.
fn read_be(reader: &mut ByteReader, w: usize) -> (r: Result<u64, SerializationError>)
    requires
        old(reader).wf(),
        w <= 8,
    ensures
        final(reader).wf(),
        final(reader).source() == old(reader).source(),
        match fixed_error(old(reader).source(), old(reader).offset(), w as nat) {
            Some(e) => r == Err::<u64, SerializationError>(e),
            None => r is Ok && r->Ok_0 as nat == fixed_value(
                old(reader).source(),
                old(reader).offset(),
                w as nat,
            ) && r->Ok_0 < byte_radix(w as nat) && final(reader).offset() == old(reader).offset()
                + w,
        },
{
    let b = match reader.read_bytes(w) {
        Some(b) => b,
        None => {
            return Err(SerializationError::UnexpectedEof);
        },
    };
    let mut val: u64 = 0;
    let mut i: usize = 0;
    proof {
        lemma_byte_radix_values();
        assert(b@.subrange(0, 0).len() == 0);
    }
    while i < w
        invariant
            i <= w <= 8,
            b@.len() == w,
            val as nat == be_value(b@.subrange(0, i as int)),
            val < byte_radix(i as nat),
            byte_radix(8) == 0x1_0000_0000_0000_0000,
        decreases w - i,
    {
        proof {
            lemma_byte_radix_mono((i + 1) as nat, 8);
            assert(b@.subrange(0, i + 1).drop_last() =~= b@.subrange(0, i as int));
            assert(val * 256 + b@[i as int] < byte_radix((i + 1) as nat)) by (nonlinear_arith)
                requires
                    val < byte_radix(i as nat),
                    byte_radix((i + 1) as nat) == 256 * byte_radix(i as nat),
                    b@[i as int] < 256,
            ;
        }
        val = val * 256 + b[i] as u64;
        i = i + 1;
    }
    assert(b@.subrange(0, w as int) =~= b@);
    Ok(val)
}

/// A length-prefixed field reads the same whatever stands before it.
pub proof fn lemma_prefixed_shift(pre: Seq<u8>, s: Seq<u8>)
    ensures
        parse_length(pre + s, pre.len() as int) == parse_length(s, 0),
        prefixed_body(pre + s, pre.len() as int) == prefixed_body(s, 0),
{
    lemma_varint_shift(pre, s, 0);
    match parse_length(s, 0) {
        Ok((len, n)) => {
            if n + len <= s.len() {
                assert((pre + s).subrange(pre.len() + n as int, pre.len() + n + len as int)
                    =~= s.subrange(n as int, n + len as int));
            }
        },
        Err(_) => {},
    }
}

/// A string's wire form, with anything around it, reads back as the string and takes
/// exactly its bytes.
pub proof fn lemma_string_reads_back(s: String, pre: Seq<u8>, rest: Seq<u8>)
    requires
        s.wire() is Some,
    ensures
        String::read_error(pre + s.wire()->Some_0 + rest, pre.len() as int) is None,
        String::reads_as(pre + s.wire()->Some_0 + rest, pre.len() as int, s, s.wire()->Some_0.len()),
{
    let w = s.wire()->Some_0;
    assert(pre + w + rest =~= pre + (w + rest));
    lemma_prefixed_shift(pre, w + rest);
    lemma_prefixed_round_trip(encode_utf8(s@), rest);
    encode_utf8_valid_utf8(s@);
    encode_utf8_decode_utf8(s@);
}

/// Big-endian bytes of a number that fits read back as the number.
pub proof fn lemma_be_round_trip(v: nat, w: nat)
    requires
        v < byte_radix(w),
    ensures
        be_bytes(v, w).len() == w,
        be_value(be_bytes(v, w)) == v,
    decreases w,
{
    if w > 0 {
        let q = v / 256;
        assert(q < byte_radix((w - 1) as nat)) by (nonlinear_arith)
            requires
                v < byte_radix(w),
                byte_radix(w) == 256 * byte_radix((w - 1) as nat),
                q == v / 256,
        ;
        lemma_be_round_trip(q, (w - 1) as nat);
        assert(be_bytes(v, w).drop_last() =~= be_bytes(q, (w - 1) as nat));
        assert(q * 256 + v % 256 == v);
    }
}

/// A fixed-width field, with anything around it, reads back as its number.
pub proof fn lemma_fixed_reads_back(v: nat, w: nat, pre: Seq<u8>, rest: Seq<u8>)
    requires
        v < byte_radix(w),
    ensures
        fixed_error(pre + be_bytes(v, w) + rest, pre.len() as int, w) is None,
        fixed_value(pre + be_bytes(v, w) + rest, pre.len() as int, w) == v,
        be_bytes(v, w).len() == w,
{
    lemma_be_round_trip(v, w);
    let d = pre + be_bytes(v, w) + rest;
    assert(d.subrange(pre.len() as int, pre.len() + w as int) =~= be_bytes(v, w));
}

/// Reads a length prefix and the bytes it announces.
fn read_prefixed(reader: &mut ByteReader) -> (r: Result<Vec<u8>, SerializationError>)
    requires
        old(reader).wf(),
    ensures
        final(reader).wf(),
        final(reader).source() == old(reader).source(),
        match prefixed_body(old(reader).source(), old(reader).offset()) {
            Ok(b) => r is Ok && r->Ok_0@ == b && final(reader).offset() == old(reader).offset()
                + parse_length(old(reader).source(), old(reader).offset())->Ok_0.1 + b.len(),
            Err(e) => r == Err::<Vec<u8>, SerializationError>(e),
        },
{
    let len = match VarInt::read_sync(reader) {
        Ok(v) => v,
        Err(e) => {
            return Err(SerializationError::VarIntError(e));
        },
    };
    if len.0 < 0 {
        return Err(SerializationError::VarIntError(VarIntError::NegativeValue));
    }
    match reader.read_bytes(len.0 as usize) {
        Some(b) => Ok(b),
        None => Err(SerializationError::UnexpectedEof),
    }
}

/// Writes the length of `body` as a VarInt, then `body`.
fn write_prefixed(body: &[u8], out: &mut Vec<u8>) -> (r: Result<(), SerializationError>)
    ensures
        match prefixed(body@) {
            Some(b) => r is Ok && final(out)@ == old(out)@ + b,
            None => r == Err::<(), SerializationError>(SerializationError::TooLong)
                && final(out)@ == old(out)@,
        },
{
    if body.len() > i32::MAX as usize {
        return Err(SerializationError::TooLong);
    }
    VarInt(body.len() as i32).write_sync(out);
    append_bytes(out, body);
    Ok(())
}

/// Relies on `String::from_utf8`: it accepts exactly the valid UTF-8 byte sequences,
/// and the string it builds holds the characters those bytes encode.
#[verifier::external_body]
fn string_from_utf8(b: Vec<u8>) -> (r: Option<String>)
    ensures
        r is Some <==> valid_utf8(b@),
        r is Some ==> r->Some_0@ == decode_utf8(b@),
{
    String::from_utf8(b).ok()
}

impl Serialize for VarInt {
    open spec fn wire(&self) -> Option<Seq<u8>> {
        Some(varint_bytes(self.0))
    }

    fn serialize(&self, out: &mut Vec<u8>) -> (r: Result<(), SerializationError>) {
        self.write_sync(out);
        Ok(())
    }
}

impl Deserialize for VarInt {
    open spec fn read_error(data: Seq<u8>, at: int) -> Option<SerializationError> {
        match parse_varint(data, at) {
            Ok(_) => None,
            Err(e) => Some(SerializationError::VarIntError(e)),
        }
    }

    open spec fn reads_as(data: Seq<u8>, at: int, v: Self, n: nat) -> bool {
        parse_varint(data, at) == Ok::<(i32, nat), VarIntError>((v.0, n))
    }

    proof fn lemma_read_unique(data: Seq<u8>, at: int, v1: Self, n1: nat, v2: Self, n2: nat) {
    }

    fn deserialize(reader: &mut ByteReader) -> (r: Result<Self, SerializationError>) {
        match VarInt::read_sync(reader) {
            Ok(v) => Ok(v),
            Err(e) => Err(SerializationError::VarIntError(e)),
        }
    }
}

impl Serialize for String {
    open spec fn wire(&self) -> Option<Seq<u8>> {
        prefixed(encode_utf8(self@))
    }

    fn serialize(&self, out: &mut Vec<u8>) -> (r: Result<(), SerializationError>) {
        write_prefixed(self.as_str().as_bytes(), out)
    }
}

impl Deserialize for String {
    open spec fn read_error(data: Seq<u8>, at: int) -> Option<SerializationError> {
        match prefixed_body(data, at) {
            Ok(b) => if valid_utf8(b) {
                None
            } else {
                Some(SerializationError::FromUtf8Error)
            },
            Err(e) => Some(e),
        }
    }

    open spec fn reads_as(data: Seq<u8>, at: int, v: Self, n: nat) -> bool {
        &&& prefixed_body(data, at) is Ok
        &&& v@ == decode_utf8(prefixed_body(data, at)->Ok_0)
        &&& n == parse_length(data, at)->Ok_0.1 + prefixed_body(data, at)->Ok_0.len()
    }

    proof fn lemma_read_unique(data: Seq<u8>, at: int, v1: Self, n1: nat, v2: Self, n2: nat) {
    }

    fn deserialize(reader: &mut ByteReader) -> (r: Result<Self, SerializationError>) {
        let b = read_prefixed(reader)?;
        match string_from_utf8(b) {
            Some(s) => Ok(s),
            None => Err(SerializationError::FromUtf8Error),
        }
    }
}

impl Serialize for Vec<u8> {
    open spec fn wire(&self) -> Option<Seq<u8>> {
        prefixed(self@)
    }

    fn serialize(&self, out: &mut Vec<u8>) -> (r: Result<(), SerializationError>) {
        write_prefixed(self.as_slice(), out)
    }
}

impl Deserialize for Vec<u8> {
    open spec fn read_error(data: Seq<u8>, at: int) -> Option<SerializationError> {
        match prefixed_body(data, at) {
            Ok(_) => None,
            Err(e) => Some(e),
        }
    }

    open spec fn reads_as(data: Seq<u8>, at: int, v: Self, n: nat) -> bool {
        &&& prefixed_body(data, at) is Ok
        &&& v@ == prefixed_body(data, at)->Ok_0
        &&& n == parse_length(data, at)->Ok_0.1 + v@.len()
    }

    proof fn lemma_read_unique(data: Seq<u8>, at: int, v1: Self, n1: nat, v2: Self, n2: nat) {
    }

    fn deserialize(reader: &mut ByteReader) -> (r: Result<Self, SerializationError>) {
        read_prefixed(reader)
    }
}

impl Serialize for [u8] {
    open spec fn wire(&self) -> Option<Seq<u8>> {
        prefixed(self@)
    }

    fn serialize(&self, out: &mut Vec<u8>) -> (r: Result<(), SerializationError>) {
        write_prefixed(self, out)
    }
}

impl Serialize for bool {
    open spec fn wire(&self) -> Option<Seq<u8>> {
        Some(seq![if *self { 1u8 } else { 0u8 }])
    }

    fn serialize(&self, out: &mut Vec<u8>) -> (r: Result<(), SerializationError>) {
        if *self {
            out.push(1);
        } else {
            out.push(0);
        }
        Ok(())
    }
}

impl Deserialize for bool {
    open spec fn read_error(data: Seq<u8>, at: int) -> Option<SerializationError> {
        if 0 <= at < data.len() {
            None
        } else {
            Some(SerializationError::UnexpectedEof)
        }
    }

    open spec fn reads_as(data: Seq<u8>, at: int, v: Self, n: nat) -> bool {
        0 <= at < data.len() && n == 1 && v == (data[at] != 0)
    }

    proof fn lemma_read_unique(data: Seq<u8>, at: int, v1: Self, n1: nat, v2: Self, n2: nat) {
    }

    fn deserialize(reader: &mut ByteReader) -> (r: Result<Self, SerializationError>) {
        match reader.read_byte() {
            Some(b) => Ok(b != 0),
            None => Err(SerializationError::UnexpectedEof),
        }
    }
}

impl Serialize for u8 {
    open spec fn wire(&self) -> Option<Seq<u8>> {
        Some(be_bytes(*self as nat, 1))
    }

    fn serialize(&self, out: &mut Vec<u8>) -> (r: Result<(), SerializationError>) {
        write_be(*self as u64, 1, out);
        Ok(())
    }
}

impl Deserialize for u8 {
    open spec fn read_error(data: Seq<u8>, at: int) -> Option<SerializationError> {
        fixed_error(data, at, 1)
    }

    open spec fn reads_as(data: Seq<u8>, at: int, v: Self, n: nat) -> bool {
        fixed_error(data, at, 1) is None && n == 1 && v as nat == fixed_value(data, at, 1)
    }

    proof fn lemma_read_unique(data: Seq<u8>, at: int, v1: Self, n1: nat, v2: Self, n2: nat) {
    }

    fn deserialize(reader: &mut ByteReader) -> (r: Result<Self, SerializationError>) {
        proof {
            lemma_byte_radix_values();
        }
        let u = read_be(reader, 1)?;
        Ok(u as u8)
    }
}

impl Serialize for u16 {
    open spec fn wire(&self) -> Option<Seq<u8>> {
        Some(be_bytes(*self as nat, 2))
    }

    fn serialize(&self, out: &mut Vec<u8>) -> (r: Result<(), SerializationError>) {
        write_be(*self as u64, 2, out);
        Ok(())
    }
}

impl Deserialize for u16 {
    open spec fn read_error(data: Seq<u8>, at: int) -> Option<SerializationError> {
        fixed_error(data, at, 2)
    }

    open spec fn reads_as(data: Seq<u8>, at: int, v: Self, n: nat) -> bool {
        fixed_error(data, at, 2) is None && n == 2 && v as nat == fixed_value(data, at, 2)
    }

    proof fn lemma_read_unique(data: Seq<u8>, at: int, v1: Self, n1: nat, v2: Self, n2: nat) {
    }

    fn deserialize(reader: &mut ByteReader) -> (r: Result<Self, SerializationError>) {
        proof {
            lemma_byte_radix_values();
        }
        let u = read_be(reader, 2)?;
        Ok(u as u16)
    }
}

impl Serialize for u32 {
    open spec fn wire(&self) -> Option<Seq<u8>> {
        Some(be_bytes(*self as nat, 4))
    }

    fn serialize(&self, out: &mut Vec<u8>) -> (r: Result<(), SerializationError>) {
        write_be(*self as u64, 4, out);
        Ok(())
    }
}

impl Deserialize for u32 {
    open spec fn read_error(data: Seq<u8>, at: int) -> Option<SerializationError> {
        fixed_error(data, at, 4)
    }

    open spec fn reads_as(data: Seq<u8>, at: int, v: Self, n: nat) -> bool {
        fixed_error(data, at, 4) is None && n == 4 && v as nat == fixed_value(data, at, 4)
    }

    proof fn lemma_read_unique(data: Seq<u8>, at: int, v1: Self, n1: nat, v2: Self, n2: nat) {
    }

    fn deserialize(reader: &mut ByteReader) -> (r: Result<Self, SerializationError>) {
        proof {
            lemma_byte_radix_values();
        }
        let u = read_be(reader, 4)?;
        Ok(u as u32)
    }
}

impl Serialize for u64 {
    open spec fn wire(&self) -> Option<Seq<u8>> {
        Some(be_bytes(*self as nat, 8))
    }

    fn serialize(&self, out: &mut Vec<u8>) -> (r: Result<(), SerializationError>) {
        write_be(*self as u64, 8, out);
        Ok(())
    }
}

impl Deserialize for u64 {
    open spec fn read_error(data: Seq<u8>, at: int) -> Option<SerializationError> {
        fixed_error(data, at, 8)
    }

    open spec fn reads_as(data: Seq<u8>, at: int, v: Self, n: nat) -> bool {
        fixed_error(data, at, 8) is None && n == 8 && v as nat == fixed_value(data, at, 8)
    }

    proof fn lemma_read_unique(data: Seq<u8>, at: int, v1: Self, n1: nat, v2: Self, n2: nat) {
    }

    fn deserialize(reader: &mut ByteReader) -> (r: Result<Self, SerializationError>) {
        proof {
            lemma_byte_radix_values();
        }
        let u = read_be(reader, 8)?;
        Ok(u as u64)
    }
}

impl Serialize for i8 {
    open spec fn wire(&self) -> Option<Seq<u8>> {
        Some(be_bytes(twos(*self as int, 1), 1))
    }

    fn serialize(&self, out: &mut Vec<u8>) -> (r: Result<(), SerializationError>) {
        proof {
            lemma_byte_radix_values();
        }
        let u: u64 = if *self >= 0 {
            *self as u64
        } else {
            (*self as i128 + 0x100) as u64
        };
        write_be(u, 1, out);
        Ok(())
    }
}

impl Deserialize for i8 {
    open spec fn read_error(data: Seq<u8>, at: int) -> Option<SerializationError> {
        fixed_error(data, at, 1)
    }

    open spec fn reads_as(data: Seq<u8>, at: int, v: Self, n: nat) -> bool {
        fixed_error(data, at, 1) is None && n == 1 && v as int == untwos(
            fixed_value(data, at, 1),
            1,
        )
    }

    proof fn lemma_read_unique(data: Seq<u8>, at: int, v1: Self, n1: nat, v2: Self, n2: nat) {
    }

    fn deserialize(reader: &mut ByteReader) -> (r: Result<Self, SerializationError>) {
        proof {
            lemma_byte_radix_values();
        }
        let u = read_be(reader, 1)?;
        if u < 0x80 {
            Ok(u as i8)
        } else {
            Ok((u as i128 - 0x100) as i8)
        }
    }
}

impl Serialize for i16 {
    open spec fn wire(&self) -> Option<Seq<u8>> {
        Some(be_bytes(twos(*self as int, 2), 2))
    }

    fn serialize(&self, out: &mut Vec<u8>) -> (r: Result<(), SerializationError>) {
        proof {
            lemma_byte_radix_values();
        }
        let u: u64 = if *self >= 0 {
            *self as u64
        } else {
            (*self as i128 + 0x1_0000) as u64
        };
        write_be(u, 2, out);
        Ok(())
    }
}

impl Deserialize for i16 {
    open spec fn read_error(data: Seq<u8>, at: int) -> Option<SerializationError> {
        fixed_error(data, at, 2)
    }

    open spec fn reads_as(data: Seq<u8>, at: int, v: Self, n: nat) -> bool {
        fixed_error(data, at, 2) is None && n == 2 && v as int == untwos(
            fixed_value(data, at, 2),
            2,
        )
    }

    proof fn lemma_read_unique(data: Seq<u8>, at: int, v1: Self, n1: nat, v2: Self, n2: nat) {
    }

    fn deserialize(reader: &mut ByteReader) -> (r: Result<Self, SerializationError>) {
        proof {
            lemma_byte_radix_values();
        }
        let u = read_be(reader, 2)?;
        if u < 0x8000 {
            Ok(u as i16)
        } else {
            Ok((u as i128 - 0x1_0000) as i16)
        }
    }
}

impl Serialize for i32 {
    open spec fn wire(&self) -> Option<Seq<u8>> {
        Some(be_bytes(twos(*self as int, 4), 4))
    }

    fn serialize(&self, out: &mut Vec<u8>) -> (r: Result<(), SerializationError>) {
        proof {
            lemma_byte_radix_values();
        }
        let u: u64 = if *self >= 0 {
            *self as u64
        } else {
            (*self as i128 + 0x1_0000_0000) as u64
        };
        write_be(u, 4, out);
        Ok(())
    }
}

impl Deserialize for i32 {
    open spec fn read_error(data: Seq<u8>, at: int) -> Option<SerializationError> {
        fixed_error(data, at, 4)
    }

    open spec fn reads_as(data: Seq<u8>, at: int, v: Self, n: nat) -> bool {
        fixed_error(data, at, 4) is None && n == 4 && v as int == untwos(
            fixed_value(data, at, 4),
            4,
        )
    }

    proof fn lemma_read_unique(data: Seq<u8>, at: int, v1: Self, n1: nat, v2: Self, n2: nat) {
    }

    fn deserialize(reader: &mut ByteReader) -> (r: Result<Self, SerializationError>) {
        proof {
            lemma_byte_radix_values();
        }
        let u = read_be(reader, 4)?;
        if u < 0x8000_0000 {
            Ok(u as i32)
        } else {
            Ok((u as i128 - 0x1_0000_0000) as i32)
        }
    }
}

impl Serialize for i64 {
    open spec fn wire(&self) -> Option<Seq<u8>> {
        Some(be_bytes(twos(*self as int, 8), 8))
    }

    fn serialize(&self, out: &mut Vec<u8>) -> (r: Result<(), SerializationError>) {
        proof {
            lemma_byte_radix_values();
        }
        let u: u64 = if *self >= 0 {
            *self as u64
        } else {
            (*self as i128 + 0x1_0000_0000_0000_0000) as u64
        };
        write_be(u, 8, out);
        Ok(())
    }
}

impl Deserialize for i64 {
    open spec fn read_error(data: Seq<u8>, at: int) -> Option<SerializationError> {
        fixed_error(data, at, 8)
    }

    open spec fn reads_as(data: Seq<u8>, at: int, v: Self, n: nat) -> bool {
        fixed_error(data, at, 8) is None && n == 8 && v as int == untwos(
            fixed_value(data, at, 8),
            8,
        )
    }

    proof fn lemma_read_unique(data: Seq<u8>, at: int, v1: Self, n1: nat, v2: Self, n2: nat) {
    }

    fn deserialize(reader: &mut ByteReader) -> (r: Result<Self, SerializationError>) {
        proof {
            lemma_byte_radix_values();
        }
        let u = read_be(reader, 8)?;
        if u < 0x8000_0000_0000_0000 {
            Ok(u as i64)
        } else {
            Ok((u as i128 - 0x1_0000_0000_0000_0000) as i64)
        }
    }
}

} // verus!
