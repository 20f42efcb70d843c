//! The fundamental round-trip law: decoding an encoding yields the value
//! back and consumes exactly its image, whatever bytes follow.

use crate::codec::{
    all_have_type, lemma_enc_value_min, pad_at, spec_enc_list, spec_enc_payload, spec_enc_value,
    spec_sig_wire, spec_wf_list, spec_wf_value, zero_bytes,
};
use crate::endian::{
    lemma_u16_bytes, lemma_u32_bytes, lemma_u64_bytes, spec_u16_bytes, spec_u16_from_bytes,
    spec_u32_bytes, spec_u32_from_bytes, spec_u64_bytes, spec_u64_from_bytes, MessageEndianness,
};
use crate::error::DbusParseError;
use crate::signature::{lemma_tokens_of_render, spec_render_signature, SignatureType};
use crate::types::{
    lemma_sub_index, lemma_sub_sub, lemma_take_all_single, spec_flat_type, spec_take_all,
    SpecType,
};
use crate::dec::{spec_dec_fields, spec_dec_items, spec_dec_string_body, spec_dec_value};
use crate::value::{align_of_type, spec_type_of, spec_types_of_list, SpecValue};
use vstd::prelude::*;

verus! {

broadcast use {vstd::seq::group_seq_axioms, vstd::std_specs::vec::group_vec_axioms};

/// The image of `v`, encoded from `pos`, stands in `data` at `pos`.
pub open spec fn enc_fits(v: SpecValue, e: MessageEndianness, data: Seq<u8>, pos: int) -> bool {
    &&& 0 <= pos
    &&& pos + spec_enc_value(v, e, pos).len() <= data.len()
    &&& data.subrange(pos, pos + spec_enc_value(v, e, pos).len()) == spec_enc_value(v, e, pos)
}

/// Every alignment is at least 1, and padding is short and non-negative.
proof fn lemma_align_pad(t: SpecType, pos: int)
    requires
        0 <= pos,
    ensures
        1 <= align_of_type(t) <= 8,
        0 <= pad_at(pos, align_of_type(t)) < align_of_type(t),
{
}

/// Inside a region that is padding followed by a payload, the payload
/// stands right after the padding.
proof fn lemma_region(data: Seq<u8>, pos: int, pad: int, payload: Seq<u8>)
    requires
        0 <= pos,
        0 <= pad,
        pos + pad + payload.len() <= data.len(),
        data.subrange(pos, pos + pad + payload.len()) == zero_bytes(pad) + payload,
    ensures
        data.subrange(pos + pad, pos + pad + payload.len()) == payload,
{
    let whole = zero_bytes(pad) + payload;
    lemma_sub_sub(data, pos, whole, pad, pad + payload.len());
    assert(whole.subrange(pad, pad + payload.len()) =~= payload);
}

/// Decoding the encoding of a legal value, in place, yields the value and
/// stops right after its image.
pub proof fn lemma_rt_value(v: SpecValue, e: MessageEndianness, data: Seq<u8>, pos: int)
    requires
        spec_wf_value(v, e, pos),
        enc_fits(v, e, data, pos),
    ensures
        spec_dec_value(data, pos, spec_type_of(v), e) == Ok::<_, DbusParseError>((
            v,
            pos + spec_enc_value(v, e, pos).len(),
        )),
    decreases v, 1int,
{
    let t = spec_type_of(v);
    let a = align_of_type(t);
    lemma_align_pad(t, pos);
    let pad = pad_at(pos, a);
    let p = pos + pad;
    let payload = spec_enc_payload(v, e, p);
    assert(spec_enc_value(v, e, pos) == zero_bytes(pad) + payload);
    lemma_region(data, pos, pad, payload);
    match v {
        SpecValue::Byte(x) => {
            assert(payload =~= seq![x]);
            lemma_sub_index(data, p, payload, 0);
        },
        SpecValue::Boolean(b) => {
            let w: u32 = if b {
                1
            } else {
                0
            };
            lemma_u32_bytes(e, w);
            assert(data.subrange(p, p + 4) == spec_u32_bytes(e, w));
        },
        SpecValue::Uint16(x) => {
            lemma_u16_bytes(e, x);
            assert(data.subrange(p, p + 2) == spec_u16_bytes(e, x));
        },
        SpecValue::Int16(x) => {
            lemma_u16_bytes(e, x as u16);
            assert(data.subrange(p, p + 2) == spec_u16_bytes(e, x as u16));
            assert(x as u16 as i16 == x) by (bit_vector);
        },
        SpecValue::Uint32(x) => {
            lemma_u32_bytes(e, x);
            assert(data.subrange(p, p + 4) == spec_u32_bytes(e, x));
        },
        SpecValue::Int32(x) => {
            lemma_u32_bytes(e, x as u32);
            assert(data.subrange(p, p + 4) == spec_u32_bytes(e, x as u32));
            assert(x as u32 as i32 == x) by (bit_vector);
        },
        SpecValue::UnixFd(x) => {
            lemma_u32_bytes(e, x);
            assert(data.subrange(p, p + 4) == spec_u32_bytes(e, x));
        },
        SpecValue::Uint64(x) => {
            lemma_u64_bytes(e, x);
            assert(data.subrange(p, p + 8) == spec_u64_bytes(e, x));
        },
        SpecValue::Int64(x) => {
            lemma_u64_bytes(e, x as u64);
            assert(data.subrange(p, p + 8) == spec_u64_bytes(e, x as u64));
            assert(x as u64 as i64 == x) by (bit_vector);
        },
        SpecValue::Double(bits) => {
            lemma_u64_bytes(e, bits);
            assert(data.subrange(p, p + 8) == spec_u64_bytes(e, bits));
        },
        SpecValue::String(_) => {
            lemma_rt_string(v, e, data, pos);
        },
        SpecValue::ObjectPath(_) => {
            lemma_rt_string(v, e, data, pos);
        },
        SpecValue::Signature(_) => {
            lemma_rt_signature(v, e, data, pos);
        },
        SpecValue::Variant(_, _) => {
            lemma_rt_variant(v, e, data, pos);
        },
        SpecValue::Struct(_) => {
            lemma_rt_struct(v, e, data, pos);
        },
        SpecValue::DictEntry(_, _) => {
            lemma_rt_dict(v, e, data, pos);
        },
        SpecValue::Array(_, _) => {
            lemma_rt_array(v, e, data, pos);
        },
    }
}

/// Strings and object paths: length word, bytes, NUL.
proof fn lemma_rt_string(v: SpecValue, e: MessageEndianness, data: Seq<u8>, pos: int)
    requires
        v is String || v is ObjectPath,
        spec_wf_value(v, e, pos),
        enc_fits(v, e, data, pos),
    ensures
        spec_dec_value(data, pos, spec_type_of(v), e) == Ok::<_, DbusParseError>((
            v,
            pos + spec_enc_value(v, e, pos).len(),
        )),
    decreases v, 0int,
{
    let t = spec_type_of(v);
    let pad = pad_at(pos, 4);
    let p = pos + pad;
    let payload = spec_enc_payload(v, e, p);
    assert(spec_enc_value(v, e, pos) == zero_bytes(pad) + payload);
    lemma_region(data, pos, pad, payload);
    let bs = match v {
        SpecValue::String(bs) => bs,
        SpecValue::ObjectPath(bs) => bs,
        _ => Seq::empty(),
    };
    let lw = spec_u32_bytes(e, bs.len() as u32);
    lemma_u32_bytes(e, bs.len() as u32);
    assert(payload == lw + bs + seq![0u8]);
    lemma_sub_sub(data, p, payload, 0, 4);
    assert(payload.subrange(0, 4) =~= lw);
    assert(data.subrange(p, p + 4) == lw);
    assert(spec_u32_from_bytes(e, lw) == bs.len() as u32);
    lemma_sub_sub(data, p, payload, 4, 4 + bs.len() as int);
    assert(payload.subrange(4, 4 + bs.len() as int) =~= bs);
    lemma_sub_index(data, p, payload, 4 + bs.len() as int);
    assert(payload[4 + bs.len() as int] == 0);
    assert(spec_dec_string_body(data, p, e) == Ok::<_, DbusParseError>((
        bs,
        p + 5 + bs.len() as int,
    )));
}

/// Signature values: length byte, token bytes, NUL, then the grammar.
proof fn lemma_rt_signature(v: SpecValue, e: MessageEndianness, data: Seq<u8>, pos: int)
    requires
        v is Signature,
        spec_wf_value(v, e, pos),
        enc_fits(v, e, data, pos),
    ensures
        spec_dec_value(data, pos, spec_type_of(v), e) == Ok::<_, DbusParseError>((
            v,
            pos + spec_enc_value(v, e, pos).len(),
        )),
    decreases v, 0int,
{
    let p = pos;
    let payload = spec_enc_payload(v, e, p);
    assert(pad_at(pos, 1) == 0);
    assert(spec_enc_value(v, e, pos) == zero_bytes(0) + payload);
    assert(zero_bytes(0) =~= Seq::<u8>::empty());
    assert(zero_bytes(0) + payload =~= payload);
    assert(data.subrange(pos, pos + payload.len()) == spec_enc_value(v, e, pos));
    assert(spec_enc_value(v, e, pos) =~= payload);
    let toks = v->Signature_0;
    let rend = spec_render_signature(toks);
    assert(payload == seq![toks.len() as u8] + rend + seq![0u8]);
    lemma_sub_index(data, p, payload, 0);
    assert(data[p] == toks.len() as u8);
    assert((toks.len() as u8) as int == toks.len() as int);
    let n = toks.len() as int;
    lemma_sub_sub(data, p, payload, 1, 1 + n);
    assert(payload.subrange(1, 1 + n) =~= rend);
    lemma_sub_index(data, p, payload, 1 + n);
    assert(payload[1 + n] == 0);
    lemma_tokens_of_render(toks);
}

/// Variants: an embedded one-type signature, then the payload it names.
proof fn lemma_rt_variant(v: SpecValue, e: MessageEndianness, data: Seq<u8>, pos: int)
    requires
        v is Variant,
        spec_wf_value(v, e, pos),
        enc_fits(v, e, data, pos),
    ensures
        spec_dec_value(data, pos, spec_type_of(v), e) == Ok::<_, DbusParseError>((
            v,
            pos + spec_enc_value(v, e, pos).len(),
        )),
    decreases v, 0int,
{
    let t = v->Variant_0;
    let inner = v->Variant_1;
    let p = pos;
    let payload = spec_enc_payload(v, e, p);
    assert(pad_at(pos, 1) == 0);
    assert(spec_enc_value(v, e, pos) == zero_bytes(0) + payload);
    assert(zero_bytes(0) + payload =~= payload);
    assert(spec_enc_value(v, e, pos) =~= payload);
    let ft = spec_flat_type(t);
    let sw = spec_sig_wire(ft);
    let rend = spec_render_signature(ft);
    let n = ft.len() as int;
    let ei = spec_enc_value(*inner, e, p + sw.len());
    assert(payload == sw + ei);
    assert(sw == seq![ft.len() as u8] + rend + seq![0u8]);
    assert(sw.len() == n + 2);
    lemma_sub_index(data, p, payload, 0);
    assert(payload[0] == sw[0]);
    assert(data[p] == ft.len() as u8);
    assert((ft.len() as u8) as int == n);
    lemma_sub_sub(data, p, payload, 1, 1 + n);
    assert(payload.subrange(1, 1 + n) =~= rend);
    lemma_sub_index(data, p, payload, 1 + n);
    assert(payload[1 + n] == sw[1 + n]);
    assert(sw[1 + n] == 0);
    lemma_tokens_of_render(ft);
    lemma_take_all_single(t);
    lemma_sub_sub(data, p, payload, sw.len() as int, payload.len() as int);
    assert(payload.subrange(sw.len() as int, payload.len() as int) =~= ei);
    assert(data.subrange(p + sw.len(), p + sw.len() + ei.len()) == ei) by {
        assert(p + sw.len() + ei.len() == p + payload.len());
    }
    lemma_rt_value(*inner, e, data, p + sw.len());
    assert(spec_type_of(*inner) == t);
}

/// Structs: each field in order from the 8-aligned start.
proof fn lemma_rt_struct(v: SpecValue, e: MessageEndianness, data: Seq<u8>, pos: int)
    requires
        v is Struct,
        spec_wf_value(v, e, pos),
        enc_fits(v, e, data, pos),
    ensures
        spec_dec_value(data, pos, spec_type_of(v), e) == Ok::<_, DbusParseError>((
            v,
            pos + spec_enc_value(v, e, pos).len(),
        )),
    decreases v, 0int,
{
    let fields = v->Struct_0;
    let t = spec_type_of(v);
    lemma_align_pad(t, pos);
    let pad = pad_at(pos, 8);
    let p = pos + pad;
    let payload = spec_enc_payload(v, e, p);
    assert(spec_enc_value(v, e, pos) == zero_bytes(pad) + payload);
    lemma_region(data, pos, pad, payload);
    assert(payload == spec_enc_list(fields, e, p));
    lemma_rt_list_fields(fields, e, data, p);
    assert(spec_dec_fields(data, p, spec_types_of_list(fields), e) == Ok::<
        _,
        DbusParseError,
    >((fields, p + payload.len())));
}

/// Dict entries: the key, then the value, from the 8-aligned start.
proof fn lemma_rt_dict(v: SpecValue, e: MessageEndianness, data: Seq<u8>, pos: int)
    requires
        v is DictEntry,
        spec_wf_value(v, e, pos),
        enc_fits(v, e, data, pos),
    ensures
        spec_dec_value(data, pos, spec_type_of(v), e) == Ok::<_, DbusParseError>((
            v,
            pos + spec_enc_value(v, e, pos).len(),
        )),
    decreases v, 0int,
{
    let k = v->DictEntry_0;
    let val = v->DictEntry_1;
    let pad = pad_at(pos, 8);
    let p = pos + pad;
    let payload = spec_enc_payload(v, e, p);
    assert(spec_enc_value(v, e, pos) == zero_bytes(pad) + payload);
    lemma_region(data, pos, pad, payload);
    let ek = spec_enc_value(*k, e, p);
    let ev = spec_enc_value(*val, e, p + ek.len());
    assert(payload == ek + ev);
    lemma_sub_sub(data, p, payload, 0, ek.len() as int);
    assert(payload.subrange(0, ek.len() as int) =~= ek);
    lemma_rt_value(*k, e, data, p);
    lemma_sub_sub(data, p, payload, ek.len() as int, payload.len() as int);
    assert(payload.subrange(ek.len() as int, payload.len() as int) =~= ev);
    lemma_rt_value(*val, e, data, p + ek.len());
}

/// Arrays: length word, interior padding, then the elements, exactly.
proof fn lemma_rt_array(v: SpecValue, e: MessageEndianness, data: Seq<u8>, pos: int)
    requires
        v is Array,
        spec_wf_value(v, e, pos),
        enc_fits(v, e, data, pos),
    ensures
        spec_dec_value(data, pos, spec_type_of(v), e) == Ok::<_, DbusParseError>((
            v,
            pos + spec_enc_value(v, e, pos).len(),
        )),
    decreases v, 0int,
{
    let t = v->Array_0;
    let items = v->Array_1;
    let pad = pad_at(pos, 4);
    let p = pos + pad;
    let payload = spec_enc_payload(v, e, p);
    assert(spec_enc_value(v, e, pos) == zero_bytes(pad) + payload);
    lemma_region(data, pos, pad, payload);
    lemma_align_pad(t, p + 4);
    let ip = pad_at(p + 4, align_of_type(t));
    let start = p + 4 + ip;
    let body = spec_enc_list(items, e, start);
    let lw = spec_u32_bytes(e, body.len() as u32);
    lemma_u32_bytes(e, body.len() as u32);
    assert(payload == lw + zero_bytes(ip) + body);
    lemma_sub_sub(data, p, payload, 0, 4);
    assert(payload.subrange(0, 4) =~= lw);
    assert(data.subrange(p, p + 4) == lw);
    assert(spec_u32_from_bytes(e, lw) == body.len() as u32);
    assert((body.len() as u32) as int == body.len() as int);
    lemma_sub_sub(data, p, payload, 4 + ip, payload.len() as int);
    assert(payload.subrange(4 + ip, payload.len() as int) =~= body);
    lemma_rt_list_items(items, t, e, data, start);
    assert(spec_dec_items(data, start, start + body.len(), t, e) == Ok::<
        _,
        DbusParseError,
    >(items));
}

/// A run of elements of one type decodes back, one after the other.
proof fn lemma_rt_list_items(
    items: Seq<SpecValue>,
    t: SpecType,
    e: MessageEndianness,
    data: Seq<u8>,
    pos: int,
)
    requires
        0 <= pos,
        all_have_type(items, t),
        spec_wf_list(items, e, pos),
        pos + spec_enc_list(items, e, pos).len() <= data.len(),
        data.subrange(pos, pos + spec_enc_list(items, e, pos).len()) == spec_enc_list(
            items,
            e,
            pos,
        ),
    ensures
        spec_dec_items(data, pos, pos + spec_enc_list(items, e, pos).len(), t, e) == Ok::<
            _,
            DbusParseError,
        >(items),
    decreases items, 5int,
{
    let whole = spec_enc_list(items, e, pos);
    if items.len() == 0 {
        assert(whole.len() == 0);
        assert(items =~= Seq::<SpecValue>::empty());
    } else {
        let first = spec_enc_value(items[0], e, pos);
        let rest = items.drop_first();
        let rl = spec_enc_list(rest, e, pos + first.len());
        assert(whole == first + rl);
        lemma_sub_sub(data, pos, whole, 0, first.len() as int);
        assert(whole.subrange(0, first.len() as int) =~= first);
        lemma_rt_value(items[0], e, data, pos);
        assert(spec_type_of(items[0]) == t);
        lemma_enc_value_min(items[0], e, pos);
        let p2 = pos + first.len();
        lemma_sub_sub(data, pos, whole, first.len() as int, whole.len() as int);
        assert(whole.subrange(first.len() as int, whole.len() as int) =~= rl);
        assert(all_have_type(rest, t)) by {
            assert(forall|i: int| 0 <= i < rest.len() ==> #[trigger] rest[i] == items[i + 1]);
        }
        lemma_rt_list_items(rest, t, e, data, p2);
        assert(seq![items[0]] + rest =~= items);
    }
}

/// A run of fields decodes back against its own type list.
pub proof fn lemma_rt_list_fields(
    fields: Seq<SpecValue>,
    e: MessageEndianness,
    data: Seq<u8>,
    pos: int,
)
    requires
        0 <= pos,
        spec_wf_list(fields, e, pos),
        pos + spec_enc_list(fields, e, pos).len() <= data.len(),
        data.subrange(pos, pos + spec_enc_list(fields, e, pos).len()) == spec_enc_list(
            fields,
            e,
            pos,
        ),
    ensures
        spec_dec_fields(data, pos, spec_types_of_list(fields), e) == Ok::<_, DbusParseError>((
            fields,
            pos + spec_enc_list(fields, e, pos).len(),
        )),
    decreases fields, 5int,
{
    let whole = spec_enc_list(fields, e, pos);
    let fts = spec_types_of_list(fields);
    if fields.len() == 0 {
        assert(fts.len() == 0);
        assert(fields =~= Seq::<SpecValue>::empty());
    } else {
        let first = spec_enc_value(fields[0], e, pos);
        let rest = fields.drop_first();
        let rl = spec_enc_list(rest, e, pos + first.len());
        assert(whole == first + rl);
        assert(fts[0] == spec_type_of(fields[0]));
        assert(fts.drop_first() =~= spec_types_of_list(rest));
        lemma_sub_sub(data, pos, whole, 0, first.len() as int);
        assert(whole.subrange(0, first.len() as int) =~= first);
        lemma_rt_value(fields[0], e, data, pos);
        let p2 = pos + first.len();
        lemma_sub_sub(data, pos, whole, first.len() as int, whole.len() as int);
        assert(whole.subrange(first.len() as int, whole.len() as int) =~= rl);
        lemma_rt_list_fields(rest, e, data, p2);
        assert(seq![fields[0]] + rest =~= fields);
    }
}

/// The round-trip law: for every legal value `v` and byte order `e`,
/// decoding the encoding of `v` at its own type yields `v` back, with
/// nothing left over.
pub proof fn lemma_round_trip(v: SpecValue, e: MessageEndianness)
    requires
        spec_wf_value(v, e, 0),
    ensures
        spec_dec_value(spec_enc_value(v, e, 0), 0, spec_type_of(v), e) == Ok::<
            _,
            DbusParseError,
        >((v, spec_enc_value(v, e, 0).len() as int)),
{
    let data = spec_enc_value(v, e, 0);
    assert(data.subrange(0, data.len() as int) =~= data);
    lemma_rt_value(v, e, data, 0);
}

} // verus!
