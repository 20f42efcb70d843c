//! The wire image of values: alignment padding, payload layouts, and what a
//! legal value is. Everything here is measured from the message-body origin;
//! `pos` is the offset at which the next byte would stand.

use crate::endian::{spec_u16_bytes, spec_u32_bytes, spec_u64_bytes, MessageEndianness};
use crate::signature::{spec_render_signature, SignatureType};
use crate::types::{spec_flat_type, valid_array_elem, valid_complete, valid_signature, SpecType};
use crate::utf8::is_utf8;
use crate::value::{
    align_of_type, is_basic_type_value, spec_type_of, spec_valid_object_path, SpecValue,
};
use vstd::prelude::*;

verus! {

broadcast use {vstd::seq::group_seq_axioms, vstd::std_specs::vec::group_vec_axioms};

/// The most bytes an array payload may take: 2^26.
pub const DBUS_ARRAY_MAX_LENGTH: usize = 0x4000000;

/// How many zero bytes lead from `pos` to the next multiple of `a`.
pub open spec fn pad_at(pos: int, a: int) -> int
    recommends
        1 <= a,
        0 <= pos,
{
    (a - pos % a) % a
}

pub open spec fn zero_bytes(n: int) -> Seq<u8> {
    Seq::new(n as nat, |i: int| 0u8)
}

/// The wire form of a signature: length byte, ASCII tokens, NUL.
pub open spec fn spec_sig_wire(toks: Seq<SignatureType>) -> Seq<u8>
    recommends
        toks.len() <= 255,
{
    seq![toks.len() as u8] + spec_render_signature(toks) + seq![0u8]
}

/// The image of `v` when its first byte would stand at `pos`: padding up to
/// the value's alignment, then the payload.
pub open spec fn spec_enc_value(v: SpecValue, e: MessageEndianness, pos: int) -> Seq<u8>
    decreases v, 1int,
{
    let a = align_of_type(spec_type_of(v));
    zero_bytes(pad_at(pos, a)) + spec_enc_payload(v, e, pos + pad_at(pos, a))
}

/// The payload of `v` at the aligned offset `pos`.
pub open spec fn spec_enc_payload(v: SpecValue, e: MessageEndianness, pos: int) -> Seq<u8>
    decreases v, 0int,
{
    match v {
        SpecValue::Byte(x) => seq![x],
        SpecValue::Boolean(b) => spec_u32_bytes(
            e,
            if b {
                1
            } else {
                0
            },
        ),
        SpecValue::Uint16(x) => spec_u16_bytes(e, x),
        SpecValue::Int16(x) => spec_u16_bytes(e, x as u16),
        SpecValue::Uint32(x) => spec_u32_bytes(e, x),
        SpecValue::Int32(x) => spec_u32_bytes(e, x as u32),
        SpecValue::Uint64(x) => spec_u64_bytes(e, x),
        SpecValue::Int64(x) => spec_u64_bytes(e, x as u64),
        SpecValue::Double(bits) => spec_u64_bytes(e, bits),
        SpecValue::UnixFd(x) => spec_u32_bytes(e, x),
        SpecValue::String(bs) => spec_u32_bytes(e, bs.len() as u32) + bs + seq![0u8],
        SpecValue::ObjectPath(bs) => spec_u32_bytes(e, bs.len() as u32) + bs + seq![0u8],
        SpecValue::Signature(toks) => spec_sig_wire(toks),
        SpecValue::Variant(t, inner) => {
            let sw = spec_sig_wire(spec_flat_type(t));
            sw + spec_enc_value(*inner, e, pos + sw.len())
        },
        SpecValue::Struct(fields) => spec_enc_list(fields, e, pos),
        SpecValue::DictEntry(k, val) => {
            let ek = spec_enc_value(*k, e, pos);
            ek + spec_enc_value(*val, e, pos + ek.len())
        },
        SpecValue::Array(t, items) => {
            let ip = pad_at(pos + 4, align_of_type(t));
            let payload = spec_enc_list(items, e, pos + 4 + ip);
            spec_u32_bytes(e, payload.len() as u32) + zero_bytes(ip) + payload
        },
    }
}

/// The images of the values of `items`, laid out one after the other from
/// `pos`, each aligning itself.
pub open spec fn spec_enc_list(items: Seq<SpecValue>, e: MessageEndianness, pos: int) -> Seq<u8>
    decreases items, 0int,
{
    if items.len() == 0 {
        Seq::empty()
    } else {
        let first = spec_enc_value(items[0], e, pos);
        first + spec_enc_list(items.drop_first(), e, pos + first.len())
    }
}

/// Every item of `items` has type `t`.
pub open spec fn all_have_type(items: Seq<SpecValue>, t: SpecType) -> bool {
    forall|i: int| 0 <= i < items.len() ==> spec_type_of(#[trigger] items[i]) == t
}

/// A legal value for an encoding that starts at `pos` under order `e`:
/// strings carry UTF-8 and fit a 32-bit length, paths obey the path
/// grammar, signatures are legal, variants carry exactly the type of their
/// payload, structs are non-empty, arrays are homogeneous and their payload
/// at this offset fits the 2^26 bound.
pub open spec fn spec_wf_value(v: SpecValue, e: MessageEndianness, pos: int) -> bool
    decreases v, 1int,
{
    let a = align_of_type(spec_type_of(v));
    let p = pos + pad_at(pos, a);
    match v {
        SpecValue::String(bs) => bs.len() < 0x1_0000_0000 && is_utf8(bs),
        SpecValue::ObjectPath(bs) => bs.len() < 0x1_0000_0000 && is_utf8(bs)
            && spec_valid_object_path(bs),
        SpecValue::Signature(toks) => valid_signature(toks),
        SpecValue::Variant(t, inner) => {
            &&& valid_complete(t)
            &&& spec_flat_type(t).len() <= 255
            &&& spec_type_of(*inner) == t
            &&& spec_wf_value(*inner, e, p + spec_sig_wire(spec_flat_type(t)).len())
        },
        SpecValue::Struct(fields) => {
            &&& fields.len() >= 1
            &&& (forall|i: int| 0 <= i < fields.len() ==> !(#[trigger] fields[i] is DictEntry))
            &&& spec_wf_list(fields, e, p)
        },
        SpecValue::DictEntry(k, val) => {
            &&& is_basic_type_value(*k)
            &&& !(*val is DictEntry)
            &&& spec_wf_value(*k, e, p)
            &&& spec_wf_value(*val, e, p + spec_enc_value(*k, e, p).len())
        },
        SpecValue::Array(t, items) => {
            let ip = pad_at(p + 4, align_of_type(t));
            &&& valid_array_elem(t)
            &&& all_have_type(items, t)
            &&& spec_wf_list(items, e, p + 4 + ip)
            &&& spec_enc_list(items, e, p + 4 + ip).len() <= DBUS_ARRAY_MAX_LENGTH
        },
        _ => true,
    }
}

/// Each item is legal at the offset where it would stand.
pub open spec fn spec_wf_list(items: Seq<SpecValue>, e: MessageEndianness, pos: int) -> bool
    decreases items, 0int,
{
    if items.len() == 0 {
        true
    } else {
        spec_wf_value(items[0], e, pos) && spec_wf_list(
            items.drop_first(),
            e,
            pos + spec_enc_value(items[0], e, pos).len(),
        )
    }
}

/// A legal value's whole image, padding included, takes at least one byte.
pub proof fn lemma_enc_value_min(v: SpecValue, e: MessageEndianness, pos: int)
    requires
        spec_wf_value(v, e, pos),
    ensures
        spec_enc_value(v, e, pos).len() >= 1,
    decreases v, 1int,
{
    let a = align_of_type(spec_type_of(v));
    let p = pos + pad_at(pos, a);
    match v {
        SpecValue::Boolean(b) => {
            crate::endian::lemma_u32_bytes(
                e,
                if b {
                    1
                } else {
                    0
                },
            );
        },
        SpecValue::Uint16(x) => {
            crate::endian::lemma_u16_bytes(e, x);
        },
        SpecValue::Int16(x) => {
            crate::endian::lemma_u16_bytes(e, x as u16);
        },
        SpecValue::Uint32(x) => {
            crate::endian::lemma_u32_bytes(e, x);
        },
        SpecValue::Int32(x) => {
            crate::endian::lemma_u32_bytes(e, x as u32);
        },
        SpecValue::UnixFd(x) => {
            crate::endian::lemma_u32_bytes(e, x);
        },
        SpecValue::Uint64(x) => {
            crate::endian::lemma_u64_bytes(e, x);
        },
        SpecValue::Int64(x) => {
            crate::endian::lemma_u64_bytes(e, x as u64);
        },
        SpecValue::Double(bits) => {
            crate::endian::lemma_u64_bytes(e, bits);
        },
        SpecValue::String(bs) => {
            crate::endian::lemma_u32_bytes(e, bs.len() as u32);
        },
        SpecValue::ObjectPath(bs) => {
            crate::endian::lemma_u32_bytes(e, bs.len() as u32);
        },
        SpecValue::Array(t, items) => {
            let ip = pad_at(p + 4, align_of_type(t));
            crate::endian::lemma_u32_bytes(e, spec_enc_list(items, e, p + 4 + ip).len() as u32);
        },
        SpecValue::Struct(fields) => {
            assert(spec_wf_list(fields, e, p));
            assert(spec_wf_value(fields[0], e, p));
            lemma_enc_value_min(fields[0], e, p);
            assert(spec_enc_list(fields, e, p).len() >= spec_enc_value(fields[0], e, p).len());
        },
        SpecValue::DictEntry(k, _) => {
            lemma_enc_value_min(*k, e, p);
            assert(spec_enc_payload(v, e, p).len() >= spec_enc_value(*k, e, p).len());
        },
        _ => {},
    }
}

} // verus!
