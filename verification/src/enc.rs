//! The executable encoder: lays a value down exactly as the image functions
//! of the codec describe it.

use crate::codec::{pad_at, spec_enc_list, spec_enc_payload, spec_enc_value, spec_sig_wire,
    spec_wf_list, spec_wf_value, zero_bytes};
use crate::endian::{push_u16, push_u32, push_u64, spec_u32_bytes, MessageEndianness};
use crate::signature::{spec_render_signature, token_byte, SignatureType};
use crate::types::{flat_tokens_into, spec_flat_type, CompleteType};
use crate::value::{
    align_of_type, lemma_value_model_list, spec_type_of, value_model, value_model_list,
    DbusArray, DbusDictEntry, DbusObjectPath, DbusSignature, DbusString, DbusStruct,
    DbusTypeContainer, DbusVariant, SpecValue,
};
use vstd::prelude::*;

verus! {

broadcast use {vstd::seq::group_seq_axioms, vstd::std_specs::vec::group_vec_axioms};

/// The alignment of the type this value inhabits.
pub fn value_align(v: &DbusTypeContainer) -> (r: usize)
    ensures
        r as int == align_of_type(spec_type_of(v@)),
        1 <= r <= 8,
{
    match v {
        DbusTypeContainer::Byte(_) => 1,
        DbusTypeContainer::Signature(_) => 1,
        DbusTypeContainer::Variant(_) => 1,
        DbusTypeContainer::Uint16(_) => 2,
        DbusTypeContainer::Int16(_) => 2,
        DbusTypeContainer::Boolean(_) => 4,
        DbusTypeContainer::Uint32(_) => 4,
        DbusTypeContainer::Int32(_) => 4,
        DbusTypeContainer::UnixFd(_) => 4,
        DbusTypeContainer::String(_) => 4,
        DbusTypeContainer::ObjectPath(_) => 4,
        DbusTypeContainer::Array(_) => 4,
        DbusTypeContainer::Uint64(_) => 8,
        DbusTypeContainer::Int64(_) => 8,
        DbusTypeContainer::Double(_) => 8,
        DbusTypeContainer::Struct(_) => 8,
        DbusTypeContainer::DictEntry(_) => 8,
    }
}

/// The alignment of values of this type.
pub fn elem_align(t: &CompleteType) -> (r: usize)
    ensures
        r as int == align_of_type(t@),
        1 <= r <= 8,
{
    match t {
        CompleteType::Byte => 1,
        CompleteType::Signature => 1,
        CompleteType::Variant => 1,
        CompleteType::Uint16 => 2,
        CompleteType::Int16 => 2,
        CompleteType::Boolean => 4,
        CompleteType::Uint32 => 4,
        CompleteType::Int32 => 4,
        CompleteType::UnixFd => 4,
        CompleteType::String => 4,
        CompleteType::ObjectPath => 4,
        CompleteType::Array(_) => 4,
        CompleteType::Uint64 => 8,
        CompleteType::Int64 => 8,
        CompleteType::Double => 8,
        CompleteType::Struct(_) => 8,
        CompleteType::DictEntry(_, _) => 8,
    }
}

/// Padding from `pos` up to the next multiple of `a`.
pub fn pad_of(pos: usize, a: usize) -> (r: usize)
    requires
        1 <= a <= 8,
    ensures
        r as int == pad_at(pos as int, a as int),
        r < a,
{
    (a - pos % a) % a
}

/// Appends `n` zero bytes.
pub fn push_zeros(out: &mut Vec<u8>, n: usize)
    ensures
        final(out)@ == old(out)@ + zero_bytes(n as int),
{
    let mut i: usize = 0;
    while i < n
        invariant
            i <= n,
            out@ == old(out)@ + zero_bytes(i as int),
        decreases n - i,
    {
        out.push(0);
        proof {
            assert(out@ =~= old(out)@ + zero_bytes(i + 1));
        }
        i = i + 1;
    }
}

/// Appends the wire form of a signature: length byte, tokens, NUL.
pub fn push_sig_wire(out: &mut Vec<u8>, toks: &Vec<SignatureType>)
    requires
        toks@.len() <= 255,
    ensures
        final(out)@ == old(out)@ + spec_sig_wire(toks@),
{
    let n = toks.len();
    out.push(n as u8);
    let mut i: usize = 0;
    while i < n
        invariant
            i <= n,
            n == toks@.len(),
            out@ == old(out)@ + seq![n as u8] + spec_render_signature(toks@).subrange(0, i as int),
        decreases n - i,
    {
        out.push(token_byte(toks[i]));
        proof {
            assert(out@ =~= old(out)@ + seq![n as u8] + spec_render_signature(toks@).subrange(
                0,
                i + 1,
            ));
        }
        i = i + 1;
    }
    out.push(0);
    proof {
        assert(spec_render_signature(toks@).subrange(0, n as int) =~= spec_render_signature(
            toks@,
        ));
        assert(out@ =~= old(out)@ + spec_sig_wire(toks@));
    }
}

/// Appends the bytes of `bs`.
fn push_bytes(out: &mut Vec<u8>, bs: &Vec<u8>)
    ensures
        final(out)@ == old(out)@ + bs@,
{
    let n = bs.len();
    let mut i: usize = 0;
    while i < n
        invariant
            i <= n,
            n == bs@.len(),
            out@ == old(out)@ + bs@.subrange(0, i as int),
        decreases n - i,
    {
        out.push(bs[i]);
        proof {
            assert(out@ =~= old(out)@ + bs@.subrange(0, i + 1));
        }
        i = i + 1;
    }
    proof {
        assert(bs@.subrange(0, n as int) =~= bs@);
    }
}

/// Appends the image of `v` whose first byte stands at `pos`, and returns
/// the position just past it.
pub fn enc_into(v: &DbusTypeContainer, e: MessageEndianness, pos: usize, out: &mut Vec<u8>) -> (
    newpos: usize)
    requires
        spec_wf_value(v@, e, pos as int),
        pos + spec_enc_value(v@, e, pos as int).len() <= usize::MAX,
    ensures
        final(out)@ == old(out)@ + spec_enc_value(v@, e, pos as int),
        newpos as int == pos + spec_enc_value(v@, e, pos as int).len(),
    decreases *v, 0int,
{
    match v {
        DbusTypeContainer::String(s) => enc_string_into(s, e, pos, out),
        DbusTypeContainer::ObjectPath(s) => enc_path_into(s, e, pos, out),
        DbusTypeContainer::Signature(sg) => enc_sig_into(sg, e, pos, out),
        DbusTypeContainer::Variant(bv) => {
            proof {
                assert(v@ == SpecValue::Variant(
                    (**bv).var_type@,
                    Box::new(value_model((**bv).value)),
                ));
            }
            enc_variant_into(bv, e, pos, out)
        },
        DbusTypeContainer::Struct(st) => {
            proof {
                assert(v@ == SpecValue::Struct(value_model_list(st.0@)));
            }
            enc_struct_into(st, e, pos, out)
        },
        DbusTypeContainer::DictEntry(de) => {
            proof {
                assert(v@ == SpecValue::DictEntry(
                    Box::new(value_model((**de).key)),
                    Box::new(value_model((**de).value)),
                ));
            }
            enc_dict_into(de, e, pos, out)
        },
        DbusTypeContainer::Array(arr) => {
            proof {
                assert(v@ == SpecValue::Array(arr.elem_type@, value_model_list(arr.items@)));
            }
            enc_array_into(arr, e, pos, out)
        },
        _ => enc_scalar_into(v, e, pos, out),
    }
}

/// The fixed-width cases of [`enc_into`].
fn enc_scalar_into(v: &DbusTypeContainer, e: MessageEndianness, pos: usize, out: &mut Vec<u8>) -> (
    newpos: usize)
    requires
        !(v@ is String) && !(v@ is ObjectPath) && !(v@ is Signature) && !(v@ is Variant) && !(v@
            is Struct) && !(v@ is DictEntry) && !(v@ is Array),
        pos + spec_enc_value(v@, e, pos as int).len() <= usize::MAX,
    ensures
        final(out)@ == old(out)@ + spec_enc_value(v@, e, pos as int),
        newpos as int == pos + spec_enc_value(v@, e, pos as int).len(),
{
    let ghost whole = spec_enc_value(v@, e, pos as int);
    let a = value_align(v);
    let pad = pad_of(pos, a);
    let ghost payload = spec_enc_payload(v@, e, pos + pad);
    proof {
        assert(whole == zero_bytes(pad as int) + payload);
    }
    push_zeros(out, pad);
    let p = pos + pad;
    let newpos: usize;
    match v {
        DbusTypeContainer::Byte(x) => {
            proof {
                assert(payload =~= seq![*x]);
            }
            out.push(*x);
            newpos = p + 1;
        },
        DbusTypeContainer::Boolean(b) => {
            let w: u32 = if *b {
                1
            } else {
                0
            };
            proof {
                crate::endian::lemma_u32_bytes(e, w);
            }
            push_u32(out, e, w);
            newpos = p + 4;
        },
        DbusTypeContainer::Uint16(x) => {
            proof {
                crate::endian::lemma_u16_bytes(e, *x);
            }
            push_u16(out, e, *x);
            newpos = p + 2;
        },
        DbusTypeContainer::Int16(x) => {
            proof {
                crate::endian::lemma_u16_bytes(e, *x as u16);
            }
            push_u16(out, e, *x as u16);
            newpos = p + 2;
        },
        DbusTypeContainer::Uint32(x) => {
            proof {
                crate::endian::lemma_u32_bytes(e, *x);
            }
            push_u32(out, e, *x);
            newpos = p + 4;
        },
        DbusTypeContainer::Int32(x) => {
            proof {
                crate::endian::lemma_u32_bytes(e, *x as u32);
            }
            push_u32(out, e, *x as u32);
            newpos = p + 4;
        },
        DbusTypeContainer::UnixFd(x) => {
            proof {
                crate::endian::lemma_u32_bytes(e, *x);
            }
            push_u32(out, e, *x);
            newpos = p + 4;
        },
        DbusTypeContainer::Uint64(x) => {
            proof {
                crate::endian::lemma_u64_bytes(e, *x);
            }
            push_u64(out, e, *x);
            newpos = p + 8;
        },
        DbusTypeContainer::Int64(x) => {
            proof {
                crate::endian::lemma_u64_bytes(e, *x as u64);
            }
            push_u64(out, e, *x as u64);
            newpos = p + 8;
        },
        DbusTypeContainer::Double(bits) => {
            proof {
                crate::endian::lemma_u64_bytes(e, *bits);
            }
            push_u64(out, e, *bits);
            newpos = p + 8;
        },
        _ => {
            newpos = p;
        },
    }
    proof {
        assert(out@ =~= old(out)@ + whole);
    }
    newpos
}

/// The string case of [`enc_into`]: length word, bytes, NUL.
fn enc_string_into(s: &DbusString, e: MessageEndianness, pos: usize, out: &mut Vec<u8>) -> (
    newpos: usize)
    requires
        spec_wf_value(SpecValue::String(s@), e, pos as int),
        pos + spec_enc_value(SpecValue::String(s@), e, pos as int).len() <= usize::MAX,
    ensures
        final(out)@ == old(out)@ + spec_enc_value(SpecValue::String(s@), e, pos as int),
        newpos as int == pos + spec_enc_value(SpecValue::String(s@), e, pos as int).len(),
{
    let ghost vs = SpecValue::String(s@);
    let ghost whole = spec_enc_value(vs, e, pos as int);
    let pad = pad_of(pos, 4);
    let ghost payload = spec_enc_payload(vs, e, pos + pad);
    proof {
        crate::endian::lemma_u32_bytes(e, s.0@.len() as u32);
        assert(whole == zero_bytes(pad as int) + payload);
        assert(payload == spec_u32_bytes(e, s.0@.len() as u32) + s.0@ + seq![0u8]);
    }
    push_zeros(out, pad);
    let p = pos + pad;
    push_u32(out, e, s.0.len() as u32);
    push_bytes(out, &s.0);
    out.push(0);
    proof {
        assert(out@ =~= old(out)@ + whole);
    }
    p + 4 + s.0.len() + 1
}

/// The object-path case of [`enc_into`]: same layout as a string.
fn enc_path_into(s: &DbusObjectPath, e: MessageEndianness, pos: usize, out: &mut Vec<u8>) -> (
    newpos: usize)
    requires
        spec_wf_value(SpecValue::ObjectPath(s@), e, pos as int),
        pos + spec_enc_value(SpecValue::ObjectPath(s@), e, pos as int).len() <= usize::MAX,
    ensures
        final(out)@ == old(out)@ + spec_enc_value(SpecValue::ObjectPath(s@), e, pos as int),
        newpos as int == pos + spec_enc_value(SpecValue::ObjectPath(s@), e, pos as int).len(),
{
    let ghost vs = SpecValue::ObjectPath(s@);
    let ghost whole = spec_enc_value(vs, e, pos as int);
    let pad = pad_of(pos, 4);
    let ghost payload = spec_enc_payload(vs, e, pos + pad);
    proof {
        crate::endian::lemma_u32_bytes(e, s.0@.len() as u32);
        assert(whole == zero_bytes(pad as int) + payload);
        assert(payload == spec_u32_bytes(e, s.0@.len() as u32) + s.0@ + seq![0u8]);
    }
    push_zeros(out, pad);
    let p = pos + pad;
    push_u32(out, e, s.0.len() as u32);
    push_bytes(out, &s.0);
    out.push(0);
    proof {
        assert(out@ =~= old(out)@ + whole);
    }
    p + 4 + s.0.len() + 1
}

/// The signature-value case of [`enc_into`].
fn enc_sig_into(sg: &DbusSignature, e: MessageEndianness, pos: usize, out: &mut Vec<u8>) -> (
    newpos: usize)
    requires
        spec_wf_value(SpecValue::Signature(sg@), e, pos as int),
        pos + spec_enc_value(SpecValue::Signature(sg@), e, pos as int).len() <= usize::MAX,
    ensures
        final(out)@ == old(out)@ + spec_enc_value(SpecValue::Signature(sg@), e, pos as int),
        newpos as int == pos + spec_enc_value(SpecValue::Signature(sg@), e, pos as int).len(),
{
    let ghost vs = SpecValue::Signature(sg@);
    let ghost whole = spec_enc_value(vs, e, pos as int);
    proof {
        assert(pad_at(pos as int, 1) == 0);
        assert(zero_bytes(0) =~= Seq::<u8>::empty());
        assert(whole == zero_bytes(0) + spec_sig_wire(sg@));
        assert(whole =~= spec_sig_wire(sg@));
    }
    let toks = &sg.0.0;
    push_sig_wire(out, toks);
    pos + 2 + toks.len()
}

/// The variant case of [`enc_into`]: the embedded one-type signature, then
/// the payload it names.
fn enc_variant_into(bv: &Box<DbusVariant>, e: MessageEndianness, pos: usize, out: &mut Vec<u8>) -> (
    newpos: usize)
    requires
        spec_wf_value(
            SpecValue::Variant((**bv).var_type@, Box::new(value_model((**bv).value))),
            e,
            pos as int,
        ),
        pos + spec_enc_value(
            SpecValue::Variant((**bv).var_type@, Box::new(value_model((**bv).value))),
            e,
            pos as int,
        ).len() <= usize::MAX,
    ensures
        final(out)@ == old(out)@ + spec_enc_value(
            SpecValue::Variant((**bv).var_type@, Box::new(value_model((**bv).value))),
            e,
            pos as int,
        ),
        newpos as int == pos + spec_enc_value(
            SpecValue::Variant((**bv).var_type@, Box::new(value_model((**bv).value))),
            e,
            pos as int,
        ).len(),
    decreases **bv, 0int,
{
    let ghost vs = SpecValue::Variant((**bv).var_type@, Box::new(value_model((**bv).value)));
    let ghost whole = spec_enc_value(vs, e, pos as int);
    let ghost payload = spec_enc_payload(vs, e, pos as int);
    let mut ft: Vec<SignatureType> = Vec::new();
    flat_tokens_into(&(**bv).var_type, &mut ft);
    proof {
        assert(ft@ =~= spec_flat_type((**bv).var_type@));
        assert(pad_at(pos as int, 1) == 0);
        assert(zero_bytes(0) =~= Seq::<u8>::empty());
        assert(whole == zero_bytes(0) + payload);
        assert(whole =~= payload);
        assert(payload == spec_sig_wire(ft@) + spec_enc_value(
            value_model((**bv).value),
            e,
            pos + spec_sig_wire(ft@).len(),
        ));
        assert(spec_sig_wire(ft@).len() == 2 + ft@.len());
    }
    push_sig_wire(out, &ft);
    let sw_len = 2 + ft.len();
    let newpos = enc_into(&(**bv).value, e, pos + sw_len, out);
    proof {
        assert(out@ =~= old(out)@ + whole);
    }
    newpos
}

/// The struct case of [`enc_into`]: the fields in order from the 8-aligned
/// start.
fn enc_struct_into(st: &DbusStruct, e: MessageEndianness, pos: usize, out: &mut Vec<u8>) -> (
    newpos: usize)
    requires
        spec_wf_value(SpecValue::Struct(value_model_list(st.0@)), e, pos as int),
        pos + spec_enc_value(SpecValue::Struct(value_model_list(st.0@)), e, pos as int).len()
            <= usize::MAX,
    ensures
        final(out)@ == old(out)@ + spec_enc_value(
            SpecValue::Struct(value_model_list(st.0@)),
            e,
            pos as int,
        ),
        newpos as int == pos + spec_enc_value(
            SpecValue::Struct(value_model_list(st.0@)),
            e,
            pos as int,
        ).len(),
    decreases *st, 0int,
{
    let ghost vs = SpecValue::Struct(value_model_list(st.0@));
    let ghost whole = spec_enc_value(vs, e, pos as int);
    let pad = pad_of(pos, 8);
    proof {
        assert(whole == zero_bytes(pad as int) + spec_enc_list(
            value_model_list(st.0@),
            e,
            pos + pad,
        ));
    }
    push_zeros(out, pad);
    let newpos = enc_items(&st.0, e, pos + pad, out);
    proof {
        assert(out@ =~= old(out)@ + whole);
    }
    newpos
}

/// The dict-entry case of [`enc_into`]: key, then value, from the 8-aligned
/// start.
fn enc_dict_into(de: &Box<DbusDictEntry>, e: MessageEndianness, pos: usize, out: &mut Vec<u8>) -> (
    newpos: usize)
    requires
        spec_wf_value(
            SpecValue::DictEntry(
                Box::new(value_model((**de).key)),
                Box::new(value_model((**de).value)),
            ),
            e,
            pos as int,
        ),
        pos + spec_enc_value(
            SpecValue::DictEntry(
                Box::new(value_model((**de).key)),
                Box::new(value_model((**de).value)),
            ),
            e,
            pos as int,
        ).len() <= usize::MAX,
    ensures
        final(out)@ == old(out)@ + spec_enc_value(
            SpecValue::DictEntry(
                Box::new(value_model((**de).key)),
                Box::new(value_model((**de).value)),
            ),
            e,
            pos as int,
        ),
        newpos as int == pos + spec_enc_value(
            SpecValue::DictEntry(
                Box::new(value_model((**de).key)),
                Box::new(value_model((**de).value)),
            ),
            e,
            pos as int,
        ).len(),
    decreases **de, 0int,
{
    let ghost vs = SpecValue::DictEntry(
        Box::new(value_model((**de).key)),
        Box::new(value_model((**de).value)),
    );
    let ghost whole = spec_enc_value(vs, e, pos as int);
    let pad = pad_of(pos, 8);
    let p = pos + pad;
    let ghost ek = spec_enc_value(value_model((**de).key), e, p as int);
    proof {
        assert(whole == zero_bytes(pad as int) + spec_enc_payload(vs, e, p as int));
        assert(spec_enc_payload(vs, e, p as int) == ek + spec_enc_value(
            value_model((**de).value),
            e,
            p + ek.len(),
        ));
    }
    push_zeros(out, pad);
    let mid = enc_into(&(**de).key, e, p, out);
    let newpos = enc_into(&(**de).value, e, mid, out);
    proof {
        assert(out@ =~= old(out)@ + whole);
    }
    newpos
}

/// The array case of [`enc_into`]: length word, interior padding, elements.
fn enc_array_into(arr: &DbusArray, e: MessageEndianness, pos: usize, out: &mut Vec<u8>) -> (
    newpos: usize)
    requires
        spec_wf_value(
            SpecValue::Array(arr.elem_type@, value_model_list(arr.items@)),
            e,
            pos as int,
        ),
        pos + spec_enc_value(
            SpecValue::Array(arr.elem_type@, value_model_list(arr.items@)),
            e,
            pos as int,
        ).len() <= usize::MAX,
    ensures
        final(out)@ == old(out)@ + spec_enc_value(
            SpecValue::Array(arr.elem_type@, value_model_list(arr.items@)),
            e,
            pos as int,
        ),
        newpos as int == pos + spec_enc_value(
            SpecValue::Array(arr.elem_type@, value_model_list(arr.items@)),
            e,
            pos as int,
        ).len(),
    decreases *arr, 0int,
{
    let ghost vs = SpecValue::Array(arr.elem_type@, value_model_list(arr.items@));
    let ghost whole = spec_enc_value(vs, e, pos as int);
    let pad = pad_of(pos, 4);
    let p = pos + pad;
    let ghost ip_s = pad_at(p + 4, align_of_type(arr.elem_type@));
    let ghost body_s = spec_enc_list(value_model_list(arr.items@), e, p + 4 + ip_s);
    proof {
        crate::endian::lemma_u32_bytes(e, body_s.len() as u32);
        assert(whole == zero_bytes(pad as int) + spec_enc_payload(vs, e, p as int));
        assert(spec_enc_payload(vs, e, p as int) == spec_u32_bytes(e, body_s.len() as u32)
            + zero_bytes(ip_s) + body_s);
    }
    push_zeros(out, pad);
    let ea = elem_align(&arr.elem_type);
    let ip = pad_of(p + 4, ea);
    proof {
        assert(ip as int == ip_s);
    }
    let mut body: Vec<u8> = Vec::new();
    let bstart = p + 4 + ip;
    let bend = enc_items(&arr.items, e, bstart, &mut body);
    proof {
        assert(body@ =~= body_s);
    }
    push_u32(out, e, body.len() as u32);
    push_zeros(out, ip);
    push_bytes(out, &body);
    proof {
        assert(out@ =~= old(out)@ + whole);
    }
    bend
}

/// Appends the images of the items, one after the other from `pos`.
pub fn enc_items(items: &Vec<DbusTypeContainer>, e: MessageEndianness, pos: usize, out: &mut Vec<
    u8,
>) -> (newpos: usize)
    requires
        spec_wf_list(value_model_list(items@), e, pos as int),
        pos + spec_enc_list(value_model_list(items@), e, pos as int).len() <= usize::MAX,
    ensures
        final(out)@ == old(out)@ + spec_enc_list(value_model_list(items@), e, pos as int),
        newpos as int == pos + spec_enc_list(value_model_list(items@), e, pos as int).len(),
    decreases *items, 0int,
{
    let ghost ml = value_model_list(items@);
    let n = items.len();
    let mut cur: usize = pos;
    let mut i: usize = 0;
    proof {
        lemma_value_model_list(items@);
        assert(ml.skip(0) =~= ml);
        assert(out@.subrange(0, old(out)@.len() as int) =~= old(out)@);
        assert(out@.subrange(old(out)@.len() as int, out@.len() as int) =~= Seq::<u8>::empty());
    }
    while i < n
        invariant
            i <= n,
            n == items@.len(),
            ml == value_model_list(items@),
            ml.len() == n,
            forall|j: int| 0 <= j < n ==> ml[j] == value_model(#[trigger] items@[j]),
            out@.len() >= old(out)@.len(),
            out@.subrange(0, old(out)@.len() as int) == old(out)@,
            spec_enc_list(ml, e, pos as int) == out@.subrange(
                old(out)@.len() as int,
                out@.len() as int,
            ) + spec_enc_list(ml.skip(i as int), e, cur as int),
            cur as int == pos + (out@.len() - old(out)@.len()),
            spec_wf_list(ml.skip(i as int), e, cur as int),
            pos + spec_enc_list(ml, e, pos as int).len() <= usize::MAX,
        decreases n - i,
    {
        let ghost s = ml.skip(i as int);
        let ghost first = spec_enc_value(s[0], e, cur as int);
        proof {
            assert(s.len() > 0);
            assert(s[0] == ml[i as int]);
            assert(s.drop_first() =~= ml.skip(i + 1));
            assert(spec_enc_list(s, e, cur as int) == first + spec_enc_list(
                ml.skip(i + 1),
                e,
                cur + first.len(),
            ));
            assert(decreases_to!(*items => items@));
            assert(decreases_to!(items@ => items@[i as int]));
        }
        let ghost out_before = out@;
        cur = enc_into(&items[i], e, cur, out);
        proof {
            assert(out@ =~= out_before + first);
            assert(out@.subrange(0, old(out)@.len() as int) =~= old(out)@);
            assert(out@.subrange(old(out)@.len() as int, out@.len() as int) =~= out_before.subrange(
                old(out)@.len() as int,
                out_before.len() as int,
            ) + first);
            assert(spec_enc_list(ml, e, pos as int) =~= out@.subrange(
                old(out)@.len() as int,
                out@.len() as int,
            ) + spec_enc_list(ml.skip(i + 1), e, cur as int));
        }
        i = i + 1;
    }
    proof {
        assert(ml.skip(n as int) =~= Seq::<SpecValue>::empty());
        assert(spec_enc_list(ml.skip(n as int), e, cur as int) =~= Seq::<u8>::empty());
        assert(out@ =~= old(out)@ + spec_enc_list(ml, e, pos as int));
    }
    cur
}

/// Encodes one value whose first byte would stand at `start_offset` in the
/// message body, exactly as the codec's image functions describe it.
pub fn encode_value(v: &DbusTypeContainer, e: MessageEndianness, start_offset: usize) -> (r: Vec<
    u8,
>)
    requires
        spec_wf_value(v@, e, start_offset as int),
        start_offset + spec_enc_value(v@, e, start_offset as int).len() <= usize::MAX,
    ensures
        r@ == spec_enc_value(v@, e, start_offset as int),
{
    let mut out: Vec<u8> = Vec::new();
    enc_into(v, e, start_offset, &mut out);
    out
}

} // verus!
