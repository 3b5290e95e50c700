use vstd::prelude::*;

use crate::reader::ByteReader;

verus! {

/// Why a VarInt could not be read.
#[derive(Debug, Clone, Copy, PartialEq, Eq, Structural)]
pub enum VarIntError {
    /// Five bytes were read and the last still had its continuation bit set.
    Position,
    /// The source ended before the VarInt did.
    UnexpectedEof,
    /// A length was decoded that is below zero.
    NegativeValue,
}

/// A 32-bit signed integer in the protocol's variable-length form.
#[derive(Clone, Copy, Debug, PartialEq, Eq, Structural)]
pub struct VarInt(pub i32);

pub const SEGMENT_BITS: u32 = 0x7F;

pub const CONTINUE_BIT: u8 = 0x80;

/// The unsigned 32-bit pattern of `v`.
pub open spec fn bits_of(v: i32) -> nat {
    if v >= 0 {
        v as nat
    } else {
        (v + 0x1_0000_0000) as nat
    }
}

/// The signed value whose 32-bit pattern is `u`.
pub open spec fn from_bits(u: nat) -> i32
    recommends
        u < 0x1_0000_0000,
{
    if u < 0x8000_0000 {
        u as i32
    } else {
        (u - 0x1_0000_0000) as i32
    }
}

/// Seven-bit groups of `u`, least significant first, each but the last with bit 7 set.
pub open spec fn encode_groups(u: nat) -> Seq<u8>
    decreases u,
{
    if u < 128 {
        seq![u as u8]
    } else {
        seq![(u % 128 + 128) as u8] + encode_groups(u / 128)
    }
}

/// The wire form of a VarInt.
pub open spec fn varint_bytes(v: i32) -> Seq<u8> {
    encode_groups(bits_of(v))
}

/// Reads the groups that start at `s[i]` with at most `groups` bytes allowed:
/// the sum of the groups and how many bytes they took.
pub open spec fn parse_groups(s: Seq<u8>, i: int, groups: nat) -> Result<(nat, nat), VarIntError>
    decreases groups,
{
    if i < 0 || i >= s.len() {
        Err(VarIntError::UnexpectedEof)
    } else if s[i] < 128 {
        Ok((s[i] as nat, 1))
    } else if groups <= 1 {
        Err(VarIntError::Position)
    } else {
        match parse_groups(s, i + 1, (groups - 1) as nat) {
            Ok((v, n)) => Ok((((s[i] - 128) + 128 * v) as nat, n + 1)),
            Err(e) => Err(e),
        }
    }
}

/// `r` with `lo` added below its value scaled by `scale`, and `k` more bytes taken.
pub open spec fn extend_groups(r: Result<(nat, nat), VarIntError>, lo: nat, scale: nat, k: nat) -> Result<(nat, nat), VarIntError> {
    match r {
        Ok((v, n)) => Ok((lo + scale * v, n + k)),
        Err(e) => Err(e),
    }
}

/// The VarInt that starts at `s[i]` and the number of bytes it takes.
pub open spec fn parse_varint(s: Seq<u8>, i: int) -> Result<(i32, nat), VarIntError> {
    match parse_groups(s, i, 5) {
        Ok((u, n)) => Ok((from_bits(u % 0x1_0000_0000), n)),
        Err(e) => Err(e),
    }
}

pub open spec fn radix(g: nat) -> nat
    decreases g,
{
    if g == 0 {
        1
    } else {
        128 * radix((g - 1) as nat)
    }
}

proof fn lemma_groups_parse(u: nat, g: nat, s: Seq<u8>, i: int)
    requires
        g >= 1,
        u < radix(g),
        0 <= i,
        i + encode_groups(u).len() <= s.len(),
        s.subrange(i, i + encode_groups(u).len()) == encode_groups(u),
    ensures
        parse_groups(s, i, g) == Ok::<(nat, nat), VarIntError>((u, encode_groups(u).len())),
        encode_groups(u).len() <= g,
    decreases u,
{
    let e = encode_groups(u);
    assert(s[i] == e[0]) by {
        assert(s.subrange(i, i + e.len())[0] == s[i]);
    }
    if u >= 128 {
        let q = u / 128;
        let tail = encode_groups(q);
        assert(e == seq![(u % 128 + 128) as u8] + tail);
        if g == 1 {
            assert(radix(1) == 128) by {
                reveal_with_fuel(radix, 2);
            }
        }
        assert(q < radix((g - 1) as nat)) by (nonlinear_arith)
            requires
                u < radix(g),
                radix(g) == 128 * radix((g - 1) as nat),
                q == u / 128,
        ;
        assert(s.subrange(i + 1, i + 1 + tail.len()) =~= tail) by {
            assert forall|j: int| 0 <= j < tail.len() implies s.subrange(i + 1, i + 1 + tail.len())[j]
                == tail[j] by {
                assert(s.subrange(i, i + e.len())[j + 1] == e[j + 1]);
            }
        }
        lemma_groups_parse(q, (g - 1) as nat, s, i + 1);
        assert(u % 128 + 128 * q == u);
    }
}

/// A VarInt takes at most five bytes on the wire.
pub proof fn lemma_varint_len(v: i32)
    ensures
        1 <= varint_bytes(v).len() <= 5,
{
    let u = bits_of(v);
    assert(radix(5) == 0x8_0000_0000) by {
        reveal_with_fuel(radix, 6);
    }
    let e = encode_groups(u);
    assert(e.subrange(0, e.len() as int) =~= e);
    lemma_groups_parse(u, 5, e, 0);
}

/// Decoding the encoding of any 32-bit value gives the value back, whatever follows it.
pub proof fn lemma_varint_round_trip(v: i32, rest: Seq<u8>)
    ensures
        parse_varint(varint_bytes(v) + rest, 0) == Ok::<(i32, nat), VarIntError>(
            (v, varint_bytes(v).len()),
        ),
{
    let u = bits_of(v);
    let e = encode_groups(u);
    let s = e + rest;
    assert(radix(5) == 0x8_0000_0000) by {
        reveal_with_fuel(radix, 6);
    }
    assert(s.subrange(0, e.len() as int) =~= e);
    lemma_groups_parse(u, 5, s, 0);
    assert(u % 0x1_0000_0000 == u);
}

/// Five bytes in a row with the continuation bit set are refused, whatever the sixth holds.
pub proof fn lemma_varint_overflow(s: Seq<u8>)
    requires
        s.len() == 6,
        forall|j: int| 0 <= j < 5 ==> s[j] >= 128,
    ensures
        parse_varint(s, 0) == Err::<(i32, nat), VarIntError>(VarIntError::Position),
{
    reveal_with_fuel(parse_groups, 6);
}

/// Where the reader stands after a VarInt at `s[i]` failed with `e`: five bytes on
/// after an overflow, at the end of the input after running out of it.
pub open spec fn varint_error_offset(s: Seq<u8>, i: int, e: VarIntError) -> int {
    if e == VarIntError::Position {
        i + 5
    } else {
        s.len() as int
    }
}

proof fn lemma_groups_shift(pre: Seq<u8>, s: Seq<u8>, i: int, g: nat)
    requires
        0 <= i,
    ensures
        parse_groups(pre + s, pre.len() + i, g) == parse_groups(s, i, g),
    decreases g,
{
    if i < s.len() {
        assert((pre + s)[pre.len() + i] == s[i]);
        if g > 1 {
            lemma_groups_shift(pre, s, i + 1, (g - 1) as nat);
        }
    }
}

/// A VarInt reads the same whatever stands before it.
pub proof fn lemma_varint_shift(pre: Seq<u8>, s: Seq<u8>, i: int)
    requires
        0 <= i,
    ensures
        parse_varint(pre + s, pre.len() + i) == parse_varint(s, i),
{
    lemma_groups_shift(pre, s, i, 5);
}

impl View for VarInt {
    type V = i32;

    open spec fn view(&self) -> i32 {
        self.0
    }
}

impl VarInt {
    /// Reads one VarInt from `reader`.
    pub fn read_sync(reader: &mut ByteReader) -> (r: Result<VarInt, VarIntError>)
        requires
            old(reader).wf(),
        ensures
            final(reader).wf(),
            final(reader).source() == old(reader).source(),
            final(reader).offset() <= old(reader).offset() + 5,
            match parse_varint(old(reader).source(), old(reader).offset()) {
                Ok((v, n)) => r == Ok::<VarInt, VarIntError>(VarInt(v)) && final(reader).offset()
                    == old(reader).offset() + n,
                Err(e) => r == Err::<VarInt, VarIntError>(e) && final(reader).offset()
                    == varint_error_offset(old(reader).source(), old(reader).offset(), e),
            },
    {
        let ghost s = reader.source();
        let ghost start = reader.offset();
        let mut acc: u64 = 0;
        let mut mult: u64 = 1;
        let mut k: usize = 0;
        proof {
            reveal_with_fuel(radix, 5);
        }
        loop
            invariant
                reader.wf(),
                reader.source() == s,
                s == old(reader).source(),
                start == old(reader).offset(),
                k <= 4,
                reader.offset() == start + k,
                mult == radix(k as nat),
                acc < mult,
                mult <= radix(4),
                radix(4) == 0x1000_0000,
                parse_groups(s, start, 5) == extend_groups(
                    parse_groups(s, start + k, (5 - k) as nat),
                    acc as nat,
                    mult as nat,
                    k as nat,
                ),
            decreases 4 - k,
        {
            let b = match reader.read_byte() {
                Some(b) => b,
                None => {
                    return Err(VarIntError::UnexpectedEof);
                },
            };
            let seg: u64 = (b % 128) as u64;
            assert(acc + mult * seg < mult * 128) by (nonlinear_arith)
                requires
                    acc < mult,
                    seg < 128,
            ;
            assert(mult * 128 <= 0x8_0000_0000) by (nonlinear_arith)
                requires
                    mult <= 0x1000_0000,
            ;
            assert(mult * seg <= mult * 128) by (nonlinear_arith)
                requires
                    seg < 128,
            ;
            if b < CONTINUE_BIT {
                let u: u64 = acc + mult * seg;
                let low: u32 = (u % 0x1_0000_0000) as u32;
                let v: i32 = if low < 0x8000_0000 {
                    low as i32
                } else {
                    ((low - 0x8000_0000) as i32) + i32::MIN
                };
                return Ok(VarInt(v));
            }
            if k == 4 {
                return Err(VarIntError::Position);
            }
            assert(parse_groups(s, start + k, (5 - k) as nat) == extend_groups(
                parse_groups(s, start + k + 1, (4 - k) as nat),
                seg as nat,
                128,
                1,
            ));
            proof {
                match parse_groups(s, start + k + 1, (4 - k) as nat) {
                    Ok((v, n)) => {
                        assert(acc + mult * ((b - 128) + 128 * v) == (acc + mult * seg) + (mult
                            * 128) * v) by (nonlinear_arith)
                            requires
                                seg == b - 128,
                        ;
                    },
                    Err(e) => {},
                }
            }
            proof {
                reveal_with_fuel(radix, 5);
                assert(mult * 128 <= radix(4)) by {
                    if k == 0 {
                    } else if k == 1 {
                    } else if k == 2 {
                    } else {
                    }
                }
            }
            acc = acc + mult * seg;
            mult = mult * 128;
            k = k + 1;
        }
    }

    /// Appends the wire form of this VarInt to `out`.
    pub fn write_sync(&self, out: &mut Vec<u8>)
        ensures
            final(out)@ == old(out)@ + varint_bytes(self.0),
    {
        let mut value: u32 = if self.0 >= 0 {
            self.0 as u32
        } else {
            ((self.0 - i32::MIN) as u32) + 0x8000_0000
        };
        loop
            invariant
                old(out)@ + varint_bytes(self.0) == out@ + encode_groups(value as nat),
            decreases value,
        {
            if value <= SEGMENT_BITS {
                out.push(value as u8);
                return;
            }
            out.push(((value % 128) + 128) as u8);
            assert(encode_groups(value as nat) == seq![((value % 128) + 128) as u8]
                + encode_groups((value / 128) as nat));
            value = value / 128;
        }
    }
}

} // verus!
