//! Further laws of the codec: byte-order symmetry, alignment of every
//! image, honesty of array length prefixes, and refusal of oversized
//! arrays.

use crate::codec::{
    pad_at, spec_enc_list, spec_enc_payload, spec_enc_value, spec_sig_wire, spec_wf_value,
    zero_bytes, DBUS_ARRAY_MAX_LENGTH,
};
use crate::dec::spec_dec_value;
use crate::endian::{
    lemma_u16_bytes, lemma_u32_bytes, lemma_u64_bytes, spec_u32_bytes, spec_u32_from_bytes,
    MessageEndianness,
};
use crate::error::DbusParseError;
use crate::roundtrip::lemma_rt_value;
use crate::types::SpecType;
use crate::value::{align_of_type, spec_type_of, SpecValue};
use vstd::prelude::*;

verus! {

broadcast use {vstd::seq::group_seq_axioms, vstd::std_specs::vec::group_vec_axioms};

/// An image is as long under one byte order as under the other.
pub proof fn lemma_enc_len_order(v: SpecValue, pos: int)
    ensures
        spec_enc_value(v, MessageEndianness::LittleEndian, pos).len() == spec_enc_value(
            v,
            MessageEndianness::BigEndian,
            pos,
        ).len(),
    decreases v, 1int,
{
    let le = MessageEndianness::LittleEndian;
    let be = MessageEndianness::BigEndian;
    let a = align_of_type(spec_type_of(v));
    let p = pos + pad_at(pos, a);
    match v {
        SpecValue::Boolean(b) => {
            let w: u32 = if b {
                1
            } else {
                0
            };
            lemma_u32_bytes(le, w);
            lemma_u32_bytes(be, w);
        },
        SpecValue::Uint16(x) => {
            lemma_u16_bytes(le, x);
            lemma_u16_bytes(be, x);
        },
        SpecValue::Int16(x) => {
            lemma_u16_bytes(le, x as u16);
            lemma_u16_bytes(be, x as u16);
        },
        SpecValue::Uint32(x) => {
            lemma_u32_bytes(le, x);
            lemma_u32_bytes(be, x);
        },
        SpecValue::Int32(x) => {
            lemma_u32_bytes(le, x as u32);
            lemma_u32_bytes(be, x as u32);
        },
        SpecValue::UnixFd(x) => {
            lemma_u32_bytes(le, x);
            lemma_u32_bytes(be, x);
        },
        SpecValue::Uint64(x) => {
            lemma_u64_bytes(le, x);
            lemma_u64_bytes(be, x);
        },
        SpecValue::Int64(x) => {
            lemma_u64_bytes(le, x as u64);
            lemma_u64_bytes(be, x as u64);
        },
        SpecValue::Double(bits) => {
            lemma_u64_bytes(le, bits);
            lemma_u64_bytes(be, bits);
        },
        SpecValue::String(bs) => {
            lemma_u32_bytes(le, bs.len() as u32);
            lemma_u32_bytes(be, bs.len() as u32);
        },
        SpecValue::ObjectPath(bs) => {
            lemma_u32_bytes(le, bs.len() as u32);
            lemma_u32_bytes(be, bs.len() as u32);
        },
        SpecValue::Variant(t, inner) => {
            let sw = spec_sig_wire(crate::types::spec_flat_type(t));
            lemma_enc_len_order(*inner, p + sw.len());
        },
        SpecValue::Struct(fields) => {
            lemma_enc_list_len_order(fields, p);
        },
        SpecValue::DictEntry(k, val) => {
            lemma_enc_len_order(*k, p);
            let ek = spec_enc_value(*k, le, p);
            lemma_enc_len_order(*val, p + ek.len());
        },
        SpecValue::Array(t, items) => {
            let ip = pad_at(p + 4, align_of_type(t));
            lemma_enc_list_len_order(items, p + 4 + ip);
            let payload = spec_enc_list(items, le, p + 4 + ip);
            lemma_u32_bytes(le, payload.len() as u32);
            lemma_u32_bytes(be, payload.len() as u32);
        },
        _ => {},
    }
}

pub proof fn lemma_enc_list_len_order(items: Seq<SpecValue>, pos: int)
    ensures
        spec_enc_list(items, MessageEndianness::LittleEndian, pos).len() == spec_enc_list(
            items,
            MessageEndianness::BigEndian,
            pos,
        ).len(),
    decreases items, 0int,
{
    if items.len() > 0 {
        let le = MessageEndianness::LittleEndian;
        lemma_enc_len_order(items[0], pos);
        lemma_enc_list_len_order(items.drop_first(), pos + spec_enc_value(items[0], le, pos).len());
    }
}

/// Byte-order symmetry: what the little-endian image decodes to under
/// little-endian, the big-endian image decodes to under big-endian.
pub proof fn lemma_endianness_symmetry(v: SpecValue)
    requires
        spec_wf_value(v, MessageEndianness::LittleEndian, 0),
        spec_wf_value(v, MessageEndianness::BigEndian, 0),
    ensures
        spec_dec_value(
            spec_enc_value(v, MessageEndianness::LittleEndian, 0),
            0,
            spec_type_of(v),
            MessageEndianness::LittleEndian,
        ) == spec_dec_value(
            spec_enc_value(v, MessageEndianness::BigEndian, 0),
            0,
            spec_type_of(v),
            MessageEndianness::BigEndian,
        ),
{
    let le = MessageEndianness::LittleEndian;
    let be = MessageEndianness::BigEndian;
    let dl = spec_enc_value(v, le, 0);
    let db = spec_enc_value(v, be, 0);
    assert(dl.subrange(0, dl.len() as int) =~= dl);
    assert(db.subrange(0, db.len() as int) =~= db);
    lemma_rt_value(v, le, dl, 0);
    lemma_rt_value(v, be, db, 0);
    lemma_enc_len_order(v, 0);
}

/// Padding reaches the next multiple of the alignment.
pub proof fn lemma_pad_aligns(pos: int, a: int)
    requires
        0 <= pos,
        1 <= a,
    ensures
        (pos + pad_at(pos, a)) % a == 0,
        0 <= pad_at(pos, a) < a,
{
    let r = pos % a;
    assert(0 <= r < a);
    assert(pad_at(pos, a) == (a - r) % a);
    if r == 0 {
        assert((a - r) % a == 0) by (nonlinear_arith)
            requires
                1 <= a,
                r == 0,
        ;
    } else {
        assert((a - r) % a == a - r) by (nonlinear_arith)
            requires
                1 <= a,
                0 < r < a,
        ;
        assert((pos + (a - r)) % a == 0) by (nonlinear_arith)
            requires
                0 <= pos,
                1 <= a,
                r == pos % a,
                0 < r < a,
        ;
    }
}

/// Alignment: every image is zero padding up to the value's alignment,
/// followed by the payload at an offset the alignment divides. Since the
/// encoders lay every nested value down through this same image, the
/// property holds of each nested value against the body origin.
pub proof fn lemma_alignment(v: SpecValue, e: MessageEndianness, pos: int)
    requires
        0 <= pos,
    ensures
        spec_enc_value(v, e, pos) == zero_bytes(pad_at(pos, align_of_type(spec_type_of(v))))
            + spec_enc_payload(v, e, pos + pad_at(pos, align_of_type(spec_type_of(v)))),
        (pos + pad_at(pos, align_of_type(spec_type_of(v)))) % align_of_type(spec_type_of(v)) == 0,
        forall|i: int| 0 <= i < pad_at(pos, align_of_type(spec_type_of(v)))
            ==> #[trigger] spec_enc_value(v, e, pos)[i] == 0,
{
    let a = align_of_type(spec_type_of(v));
    assert(1 <= a);
    lemma_pad_aligns(pos, a);
    let pad = pad_at(pos, a);
    assert(forall|i: int| 0 <= i < pad ==> #[trigger] (zero_bytes(pad) + spec_enc_payload(
        v,
        e,
        pos + pad,
    ))[i] == 0);
}

/// Length honesty: an array's four-byte prefix carries exactly the byte
/// length of its element payload, counting neither the prefix nor the
/// interior padding.
pub proof fn lemma_length_honesty(t: SpecType, items: Seq<SpecValue>, e: MessageEndianness, pos: int)
    requires
        0 <= pos,
        spec_wf_value(SpecValue::Array(t, items), e, pos),
    ensures
        ({
            let p = pos + pad_at(pos, 4);
            let ip = pad_at(p + 4, align_of_type(t));
            let payload = spec_enc_list(items, e, p + 4 + ip);
            &&& spec_enc_payload(SpecValue::Array(t, items), e, p) == spec_u32_bytes(
                e,
                payload.len() as u32,
            ) + zero_bytes(ip) + payload
            &&& spec_u32_from_bytes(e, spec_u32_bytes(e, payload.len() as u32)) == payload.len()
        }),
{
    let p = pos + pad_at(pos, 4);
    let ip = pad_at(p + 4, align_of_type(t));
    let payload = spec_enc_list(items, e, p + 4 + ip);
    lemma_u32_bytes(e, payload.len() as u32);
}

/// Overflow refusal: a declared array payload length above 2^26 is decoded
/// to `ArrayLengthOverflow`, whatever else the buffer holds.
pub proof fn lemma_overflow_refusal(
    data: Seq<u8>,
    pos: int,
    el: SpecType,
    e: MessageEndianness,
)
    requires
        0 <= pos,
        pos + pad_at(pos, 4) + 4 <= data.len(),
        spec_u32_from_bytes(
            e,
            data.subrange(pos + pad_at(pos, 4), pos + pad_at(pos, 4) + 4),
        ) > DBUS_ARRAY_MAX_LENGTH,
    ensures
        spec_dec_value(data, pos, SpecType::Array(Box::new(el)), e) == Err::<
            (SpecValue, int),
            _,
        >(DbusParseError::ArrayLengthOverflow),
{
}

} // verus!
