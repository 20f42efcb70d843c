//! Byte order: the per-message endianness flag and the byte images of the
//! fixed-width integers under either order.

use crate::error::DbusParseError;
use vstd::bytes::*;
use vstd::prelude::*;
use vstd::slice::slice_subrange;

verus! {

/// Byte order of a whole message, fixed by its first header byte.
#[derive(Clone, Copy, Debug, PartialEq, Eq, Structural)]
pub enum MessageEndianness {
    LittleEndian,
    BigEndian,
}

impl MessageEndianness {
    /// The byte that announces this order on the wire: `l` or `B`.
    pub open spec fn spec_wire_byte(self) -> u8 {
        match self {
            MessageEndianness::LittleEndian => 0x6c,
            MessageEndianness::BigEndian => 0x42,
        }
    }

    pub fn wire_byte(self) -> (r: u8)
        ensures
            r == self.spec_wire_byte(),
    {
        match self {
            MessageEndianness::LittleEndian => 0x6c,
            MessageEndianness::BigEndian => 0x42,
        }
    }

    /// Reads the endianness flag from its wire byte; every byte other than
    /// `l` and `B` is refused.
    pub fn try_from(value: u8) -> (r: Result<Self, DbusParseError>)
        ensures
            r == Self::spec_try_from(value),
    {
        if value == 0x6c {
            Ok(MessageEndianness::LittleEndian)
        } else if value == 0x42 {
            Ok(MessageEndianness::BigEndian)
        } else {
            Err(DbusParseError::InvalidEndianness)
        }
    }

    pub open spec fn spec_try_from(value: u8) -> Result<Self, DbusParseError> {
        if value == 0x6c {
            Ok(MessageEndianness::LittleEndian)
        } else if value == 0x42 {
            Ok(MessageEndianness::BigEndian)
        } else {
            Err(DbusParseError::InvalidEndianness)
        }
    }
}

impl Default for MessageEndianness {
    fn default() -> (r: Self)
        ensures
            r == MessageEndianness::LittleEndian,
    {
        MessageEndianness::LittleEndian
    }
}

/// The two-byte image of `x` under byte order `e`.
pub open spec fn spec_u16_bytes(e: MessageEndianness, x: u16) -> Seq<u8> {
    match e {
        MessageEndianness::LittleEndian => spec_u16_to_le_bytes(x),
        MessageEndianness::BigEndian => spec_u16_to_le_bytes(x).reverse(),
    }
}

/// The four-byte image of `x` under byte order `e`.
pub open spec fn spec_u32_bytes(e: MessageEndianness, x: u32) -> Seq<u8> {
    match e {
        MessageEndianness::LittleEndian => spec_u32_to_le_bytes(x),
        MessageEndianness::BigEndian => spec_u32_to_le_bytes(x).reverse(),
    }
}

/// The eight-byte image of `x` under byte order `e`.
pub open spec fn spec_u64_bytes(e: MessageEndianness, x: u64) -> Seq<u8> {
    match e {
        MessageEndianness::LittleEndian => spec_u64_to_le_bytes(x),
        MessageEndianness::BigEndian => spec_u64_to_le_bytes(x).reverse(),
    }
}

/// The integer whose two-byte image under `e` is `s`.
pub open spec fn spec_u16_from_bytes(e: MessageEndianness, s: Seq<u8>) -> u16
    recommends
        s.len() == 2,
{
    match e {
        MessageEndianness::LittleEndian => spec_u16_from_le_bytes(s),
        MessageEndianness::BigEndian => spec_u16_from_le_bytes(s.reverse()),
    }
}

/// The integer whose four-byte image under `e` is `s`.
pub open spec fn spec_u32_from_bytes(e: MessageEndianness, s: Seq<u8>) -> u32
    recommends
        s.len() == 4,
{
    match e {
        MessageEndianness::LittleEndian => spec_u32_from_le_bytes(s),
        MessageEndianness::BigEndian => spec_u32_from_le_bytes(s.reverse()),
    }
}

/// The integer whose eight-byte image under `e` is `s`.
pub open spec fn spec_u64_from_bytes(e: MessageEndianness, s: Seq<u8>) -> u64
    recommends
        s.len() == 8,
{
    match e {
        MessageEndianness::LittleEndian => spec_u64_from_le_bytes(s),
        MessageEndianness::BigEndian => spec_u64_from_le_bytes(s.reverse()),
    }
}

proof fn lemma_reverse_reverse<A>(s: Seq<A>)
    ensures
        s.reverse().reverse() == s,
{
    assert(s.reverse().reverse() =~= s);
}

/// Writing an integer and reading it back under the same order is the
/// identity, and each image has its fixed width.
pub proof fn lemma_u16_bytes(e: MessageEndianness, x: u16)
    ensures
        spec_u16_bytes(e, x).len() == 2,
        spec_u16_from_bytes(e, spec_u16_bytes(e, x)) == x,
{
    lemma_auto_spec_u16_to_from_le_bytes();
    if e is BigEndian {
        lemma_reverse_reverse(spec_u16_to_le_bytes(x));
    }
}

pub proof fn lemma_u32_bytes(e: MessageEndianness, x: u32)
    ensures
        spec_u32_bytes(e, x).len() == 4,
        spec_u32_from_bytes(e, spec_u32_bytes(e, x)) == x,
{
    lemma_auto_spec_u32_to_from_le_bytes();
    if e is BigEndian {
        lemma_reverse_reverse(spec_u32_to_le_bytes(x));
    }
}

pub proof fn lemma_u64_bytes(e: MessageEndianness, x: u64)
    ensures
        spec_u64_bytes(e, x).len() == 8,
        spec_u64_from_bytes(e, spec_u64_bytes(e, x)) == x,
{
    lemma_auto_spec_u64_to_from_le_bytes();
    if e is BigEndian {
        lemma_reverse_reverse(spec_u64_to_le_bytes(x));
    }
}

/// Appends the two-byte image of `x` under `e`.
pub fn push_u16(out: &mut Vec<u8>, e: MessageEndianness, x: u16)
    ensures
        final(out)@ == old(out)@ + spec_u16_bytes(e, x),
{
    let b = u16_to_le_bytes(x);
    match e {
        MessageEndianness::LittleEndian => {
            out.push(b[0]);
            out.push(b[1]);
        },
        MessageEndianness::BigEndian => {
            out.push(b[1]);
            out.push(b[0]);
        },
    }
    proof {
        assert(out@ =~= old(out)@ + spec_u16_bytes(e, x));
    }
}

/// Appends the four-byte image of `x` under `e`.
pub fn push_u32(out: &mut Vec<u8>, e: MessageEndianness, x: u32)
    ensures
        final(out)@ == old(out)@ + spec_u32_bytes(e, x),
{
    let b = u32_to_le_bytes(x);
    match e {
        MessageEndianness::LittleEndian => {
            out.push(b[0]);
            out.push(b[1]);
            out.push(b[2]);
            out.push(b[3]);
        },
        MessageEndianness::BigEndian => {
            out.push(b[3]);
            out.push(b[2]);
            out.push(b[1]);
            out.push(b[0]);
        },
    }
    proof {
        assert(out@ =~= old(out)@ + spec_u32_bytes(e, x));
    }
}

/// Appends the eight-byte image of `x` under `e`.
pub fn push_u64(out: &mut Vec<u8>, e: MessageEndianness, x: u64)
    ensures
        final(out)@ == old(out)@ + spec_u64_bytes(e, x),
{
    let b = u64_to_le_bytes(x);
    match e {
        MessageEndianness::LittleEndian => {
            let mut i: usize = 0;
            while i < 8
                invariant
                    i <= 8,
                    b@.len() == 8,
                    out@ == old(out)@ + b@.subrange(0, i as int),
                decreases 8 - i,
            {
                out.push(b[i]);
                proof {
                    assert(out@ =~= old(out)@ + b@.subrange(0, i + 1));
                }
                i = i + 1;
            }
            proof {
                assert(b@.subrange(0, 8) =~= b@);
            }
        },
        MessageEndianness::BigEndian => {
            let mut i: usize = 8;
            while i > 0
                invariant
                    i <= 8,
                    b@.len() == 8,
                    out@ == old(out)@ + b@.subrange(i as int, 8).reverse(),
                decreases i,
            {
                i = i - 1;
                out.push(b[i]);
                proof {
                    assert(out@ =~= old(out)@ + b@.subrange(i as int, 8).reverse());
                }
            }
            proof {
                assert(b@.subrange(0, 8) =~= b@);
            }
        },
    }
}

/// Reads the two bytes at `pos` as an integer under `e`.
pub fn read_u16(data: &[u8], pos: usize, e: MessageEndianness) -> (r: u16)
    requires
        pos + 2 <= data@.len(),
    ensures
        r == spec_u16_from_bytes(e, data@.subrange(pos as int, pos + 2)),
{
    let total = data.len();
    let s = slice_subrange(data, pos, pos + 2);
    match e {
        MessageEndianness::LittleEndian => u16_from_le_bytes(s),
        MessageEndianness::BigEndian => {
            let mut rev: Vec<u8> = Vec::new();
            rev.push(s[1]);
            rev.push(s[0]);
            proof {
                assert(rev@ =~= s@.reverse());
            }
            u16_from_le_bytes(rev.as_slice())
        },
    }
}

/// Reads the four bytes at `pos` as an integer under `e`.
pub fn read_u32(data: &[u8], pos: usize, e: MessageEndianness) -> (r: u32)
    requires
        pos + 4 <= data@.len(),
    ensures
        r == spec_u32_from_bytes(e, data@.subrange(pos as int, pos + 4)),
{
    let total = data.len();
    let s = slice_subrange(data, pos, pos + 4);
    match e {
        MessageEndianness::LittleEndian => u32_from_le_bytes(s),
        MessageEndianness::BigEndian => {
            let mut rev: Vec<u8> = Vec::new();
            rev.push(s[3]);
            rev.push(s[2]);
            rev.push(s[1]);
            rev.push(s[0]);
            proof {
                assert(rev@ =~= s@.reverse());
            }
            u32_from_le_bytes(rev.as_slice())
        },
    }
}

/// Reads the eight bytes at `pos` as an integer under `e`.
pub fn read_u64(data: &[u8], pos: usize, e: MessageEndianness) -> (r: u64)
    requires
        pos + 8 <= data@.len(),
    ensures
        r == spec_u64_from_bytes(e, data@.subrange(pos as int, pos + 8)),
{
    let total = data.len();
    let s = slice_subrange(data, pos, pos + 8);
    match e {
        MessageEndianness::LittleEndian => u64_from_le_bytes(s),
        MessageEndianness::BigEndian => {
            let mut rev: Vec<u8> = Vec::new();
            let mut i: usize = 8;
            while i > 0
                invariant
                    i <= 8,
                    s@.len() == 8,
                    rev@ == s@.subrange(i as int, 8).reverse(),
                decreases i,
            {
                i = i - 1;
                rev.push(s[i]);
                proof {
                    assert(rev@ =~= s@.subrange(i as int, 8).reverse());
                }
            }
            proof {
                assert(s@.subrange(0, 8) =~= s@);
            }
            u64_from_le_bytes(rev.as_slice())
        },
    }
}

} // verus!
