//! The executable decoder: reads exactly what the decode functions of the
//! codec describe, value by value.

use crate::codec::{pad_at, DBUS_ARRAY_MAX_LENGTH};
use crate::dec::{spec_dec_fields, spec_dec_items, spec_dec_string_body, spec_dec_value};
use crate::enc::{elem_align, pad_of};
use crate::endian::{read_u16, read_u32, read_u64, MessageEndianness};
use crate::error::DbusParseError;
use crate::signature::{byte_token, spec_tokens_of, Signature, SignatureType};
use crate::types::{
    lemma_tokens_of_bad, lemma_tokens_of_push, lemma_type_model_list, take_all, type_model,
    type_model_list, CompleteType, SpecType,
};
use crate::utf8::check_utf8;
use crate::value::{
    align_of_type, lemma_value_model_list_push, spec_valid_object_path, validate_object_path,
    value_model, value_model_list, DbusArray, DbusDictEntry, DbusObjectPath, DbusSignature,
    DbusString, DbusStruct, DbusTypeContainer, DbusVariant, SpecValue,
};
use vstd::prelude::*;
use vstd::slice::{slice_subrange, slice_to_vec};

verus! {

broadcast use {vstd::seq::group_seq_axioms, vstd::std_specs::vec::group_vec_axioms};

/// The executable result agrees with the decode function, model for model.
pub open spec fn dec_result_matches(
    data: Seq<u8>,
    pos: int,
    t: SpecType,
    e: MessageEndianness,
    r: Result<(DbusTypeContainer, usize), DbusParseError>,
) -> bool {
    match r {
        Ok((v, p2)) => spec_dec_value(data, pos, t, e) == Ok::<(SpecValue, int), DbusParseError>(
            (value_model(v), p2 as int),
        ) && pos <= p2 <= data.len(),
        Err(k) => spec_dec_value(data, pos, t, e) == Err::<(SpecValue, int), DbusParseError>(k),
    }
}

/// Reads a signature riding in the buffer: length byte, token bytes, NUL.
fn read_sig_tokens(data: &[u8], p: usize) -> (r: Result<(Vec<SignatureType>, usize), DbusParseError>)
    requires
        p <= data@.len(),
    ensures
        (match r {
            Ok((toks, q)) => {
                &&& p + 1 <= data@.len()
                &&& p + 2 + (data@[p as int] as int) <= data@.len()
                &&& q as int == p + 2 + (data@[p as int] as int)
                &&& data@[p + 1 + (data@[p as int] as int)] == 0
                &&& spec_tokens_of(data@.subrange(p + 1, p + 1 + (data@[p as int] as int)))
                    == Some(toks@)
                &&& toks@.len() <= 255
            },
            Err(k) => ({
                if p + 1 > data@.len() {
                    k == DbusParseError::NeedMoreBytes
                } else if p + 2 + (data@[p as int] as int) > data@.len() {
                    k == DbusParseError::NeedMoreBytes
                } else if data@[p + 1 + (data@[p as int] as int)] != 0 {
                    k == DbusParseError::MissingNulTerminator
                } else {
                    k == DbusParseError::InvalidSignatureToken && spec_tokens_of(
                        data@.subrange(p + 1, p + 1 + (data@[p as int] as int)),
                    ) is None
                }
            }),
        }),
{
    let total = data.len();
    if total - p < 1 {
        return Err(DbusParseError::NeedMoreBytes);
    }
    let n = *vstd::slice::slice_index_get(data, p) as usize;
    if total - p < n + 2 {
        return Err(DbusParseError::NeedMoreBytes);
    }
    if *vstd::slice::slice_index_get(data, p + 1 + n) != 0 {
        return Err(DbusParseError::MissingNulTerminator);
    }
    let mut toks: Vec<SignatureType> = Vec::new();
    let ghost region = data@.subrange(p + 1, p + 1 + n);
    let mut i: usize = 0;
    while i < n
        invariant
            i <= n,
            n <= 255,
            p + 2 + n <= data@.len(),
            data@.len() <= usize::MAX,
            n as int == data@[p as int] as int,
            data@[p + 1 + n as int] == 0,
            region == data@.subrange(p + 1, p + 1 + n as int),
            spec_tokens_of(region.subrange(0, i as int)) == Some(toks@),
            toks@.len() == i,
        decreases n - i,
    {
        let b = *vstd::slice::slice_index_get(data, p + 1 + i);
        proof {
            assert(region[i as int] == data@[p + 1 + i]);
        }
        match byte_token(b) {
            None => {
                proof {
                    lemma_tokens_of_bad(region, i as int);
                }
                return Err(DbusParseError::InvalidSignatureToken);
            },
            Some(t) => {
                proof {
                    lemma_tokens_of_push(region.subrange(0, i as int), b);
                    assert(region.subrange(0, i as int).push(b) =~= region.subrange(0, i + 1));
                }
                toks.push(t);
            },
        }
        i = i + 1;
    }
    proof {
        assert(region.subrange(0, n as int) =~= region);
    }
    Ok((toks, p + 2 + n))
}

/// Decodes one value of type `t` at `pos`, as the decode functions of the
/// codec describe it.
pub fn decode_value_at(
    data: &[u8],
    pos: usize,
    t: &CompleteType,
    e: MessageEndianness,
) -> (r: Result<(DbusTypeContainer, usize), DbusParseError>)
    requires
        pos <= data@.len(),
    ensures
        dec_result_matches(data@, pos as int, t@, e, r),
    decreases data@.len() - pos, t@, 1int,
{
    match t {
        CompleteType::String => decode_string_at(data, pos, e),
        CompleteType::ObjectPath => decode_path_at(data, pos, e),
        CompleteType::Signature => decode_sig_at(data, pos, t, e),
        CompleteType::Variant => decode_variant_at(data, pos, t, e),
        CompleteType::Struct(fields) => decode_struct_at(data, pos, t, fields, e),
        CompleteType::DictEntry(k, val) => decode_dict_at(data, pos, t, k, val, e),
        CompleteType::Array(el) => decode_array_at(data, pos, t, el, e),
        _ => decode_scalar_at(data, pos, t, e),
    }
}

/// The fixed-width cases of [`decode_value_at`].
#[verifier::rlimit(100)]
#[verifier::spinoff_prover]
fn decode_scalar_at(data: &[u8], pos: usize, t: &CompleteType, e: MessageEndianness) -> (r: Result<
    (DbusTypeContainer, usize),
    DbusParseError,
>)
    requires
        pos <= data@.len(),
        !(t@ is String) && !(t@ is ObjectPath) && !(t@ is Signature) && !(t@ is Variant) && !(t@
            is Struct) && !(t@ is DictEntry) && !(t@ is Array),
    ensures
        dec_result_matches(data@, pos as int, t@, e, r),
{
    let total = data.len();
    let a = elem_align(t);
    let pad = pad_of(pos, a);
    if total - pos < pad {
        return Err(DbusParseError::NeedMoreBytes);
    }
    let p = pos + pad;
    match t {
        CompleteType::Byte => {
            if total - p < 1 {
                return Err(DbusParseError::NeedMoreBytes);
            }
            let x = *vstd::slice::slice_index_get(data, p);
            Ok((DbusTypeContainer::Byte(x), p + 1))
        },
        CompleteType::Boolean => {
            if total - p < 4 {
                return Err(DbusParseError::NeedMoreBytes);
            }
            let x = read_u32(data, p, e);
            if x == 0 {
                Ok((DbusTypeContainer::Boolean(false), p + 4))
            } else if x == 1 {
                Ok((DbusTypeContainer::Boolean(true), p + 4))
            } else {
                Err(DbusParseError::InvalidBoolean)
            }
        },
        CompleteType::Uint16 => {
            if total - p < 2 {
                return Err(DbusParseError::NeedMoreBytes);
            }
            let x = read_u16(data, p, e);
            Ok((DbusTypeContainer::Uint16(x), p + 2))
        },
        CompleteType::Int16 => {
            if total - p < 2 {
                return Err(DbusParseError::NeedMoreBytes);
            }
            let x = read_u16(data, p, e);
            Ok((DbusTypeContainer::Int16(x as i16), p + 2))
        },
        CompleteType::Uint32 => {
            if total - p < 4 {
                return Err(DbusParseError::NeedMoreBytes);
            }
            let x = read_u32(data, p, e);
            Ok((DbusTypeContainer::Uint32(x), p + 4))
        },
        CompleteType::Int32 => {
            if total - p < 4 {
                return Err(DbusParseError::NeedMoreBytes);
            }
            let x = read_u32(data, p, e);
            Ok((DbusTypeContainer::Int32(x as i32), p + 4))
        },
        CompleteType::UnixFd => {
            if total - p < 4 {
                return Err(DbusParseError::NeedMoreBytes);
            }
            let x = read_u32(data, p, e);
            Ok((DbusTypeContainer::UnixFd(x), p + 4))
        },
        CompleteType::Uint64 => {
            if total - p < 8 {
                return Err(DbusParseError::NeedMoreBytes);
            }
            let x = read_u64(data, p, e);
            Ok((DbusTypeContainer::Uint64(x), p + 8))
        },
        CompleteType::Int64 => {
            if total - p < 8 {
                return Err(DbusParseError::NeedMoreBytes);
            }
            let x = read_u64(data, p, e);
            Ok((DbusTypeContainer::Int64(x as i64), p + 8))
        },
        CompleteType::Double => {
            if total - p < 8 {
                return Err(DbusParseError::NeedMoreBytes);
            }
            let x = read_u64(data, p, e);
            Ok((DbusTypeContainer::Double(x), p + 8))
        },
        _ => Err(DbusParseError::NeedMoreBytes),
    }
}

/// Reads the body shared by strings and object paths; `p` is the 4-aligned
/// start of the length word.
fn read_string_body(data: &[u8], p: usize, e: MessageEndianness) -> (r: Result<
    (Vec<u8>, usize),
    DbusParseError,
>)
    requires
        p <= data@.len(),
    ensures
        (match r {
            Ok((bs, q)) => spec_dec_string_body(data@, p as int, e) == Ok::<
                (Seq<u8>, int),
                DbusParseError,
            >((bs@, q as int)) && q <= data@.len(),
            Err(k) => spec_dec_string_body(data@, p as int, e) == Err::<(Seq<u8>, int), _>(k),
        }),
{
    let total = data.len();
    if total - p < 4 {
        return Err(DbusParseError::NeedMoreBytes);
    }
    let n = read_u32(data, p, e) as usize;
    if total - p < 4 {
        return Err(DbusParseError::NeedMoreBytes);
    }
    if total - (p + 4) < 1 || total - (p + 4) - 1 < n {
        return Err(DbusParseError::NeedMoreBytes);
    }
    if *vstd::slice::slice_index_get(data, p + 4 + n) != 0 {
        return Err(DbusParseError::MissingNulTerminator);
    }
    let bytes = slice_subrange(data, p + 4, p + 4 + n);
    if !check_utf8(bytes) {
        return Err(DbusParseError::InvalidUtf8);
    }
    Ok((slice_to_vec(bytes), p + 5 + n))
}

/// The string case of [`decode_value_at`].
fn decode_string_at(data: &[u8], pos: usize, e: MessageEndianness) -> (r: Result<
    (DbusTypeContainer, usize),
    DbusParseError,
>)
    requires
        pos <= data@.len(),
    ensures
        dec_result_matches(data@, pos as int, SpecType::String, e, r),
{
    let total = data.len();
    let pad = pad_of(pos, 4);
    if total - pos < pad {
        return Err(DbusParseError::NeedMoreBytes);
    }
    let p = pos + pad;
    match read_string_body(data, p, e) {
        Err(k) => Err(k),
        Ok((bs, q)) => Ok((DbusTypeContainer::String(DbusString(bs)), q)),
    }
}

/// The object-path case of [`decode_value_at`].
fn decode_path_at(data: &[u8], pos: usize, e: MessageEndianness) -> (r: Result<
    (DbusTypeContainer, usize),
    DbusParseError,
>)
    requires
        pos <= data@.len(),
    ensures
        dec_result_matches(data@, pos as int, SpecType::ObjectPath, e, r),
{
    let total = data.len();
    let pad = pad_of(pos, 4);
    if total - pos < pad {
        return Err(DbusParseError::NeedMoreBytes);
    }
    let p = pos + pad;
    match read_string_body(data, p, e) {
        Err(k) => Err(k),
        Ok((bs, q)) => {
            if validate_object_path(bs.as_slice()) {
                Ok((DbusTypeContainer::ObjectPath(DbusObjectPath(bs)), q))
            } else {
                Err(DbusParseError::MalformedObjectPath)
            }
        },
    }
}

/// The signature-value case of [`decode_value_at`].
fn decode_sig_at(data: &[u8], pos: usize, t: &CompleteType, e: MessageEndianness) -> (r: Result<
    (DbusTypeContainer, usize),
    DbusParseError,
>)
    requires
        pos <= data@.len(),
        t@ is Signature,
    ensures
        dec_result_matches(data@, pos as int, t@, e, r),
{
    proof {
        assert(pad_at(pos as int, 1) == 0);
    }
    match read_sig_tokens(data, pos) {
        Err(k) => Err(k),
        Ok((toks, q)) => {
            match take_all(&toks, 0) {
                None => Err(DbusParseError::MalformedSignature),
                Some(_) => Ok((
                    DbusTypeContainer::Signature(DbusSignature(Signature(toks))),
                    q,
                )),
            }
        },
    }
}

/// The variant case of [`decode_value_at`]: the embedded signature must
/// hold exactly one complete type, which then drives the payload.
fn decode_variant_at(data: &[u8], pos: usize, t: &CompleteType, e: MessageEndianness) -> (r: Result<
    (DbusTypeContainer, usize),
    DbusParseError,
>)
    requires
        pos <= data@.len(),
        t@ is Variant,
    ensures
        dec_result_matches(data@, pos as int, t@, e, r),
    decreases data@.len() - pos, t@, 0int,
{
    proof {
        assert(pad_at(pos as int, 1) == 0);
    }
    match read_sig_tokens(data, pos) {
        Err(k) => Err(k),
        Ok((toks, q)) => {
            match take_all(&toks, 0) {
                None => Err(DbusParseError::MalformedSignature),
                Some(mut ts) => {
                    proof {
                        lemma_type_model_list(ts@);
                    }
                    if ts.len() != 1 {
                        return Err(DbusParseError::MalformedSignature);
                    }
                    let t0 = ts.remove(0);
                    proof {
                        let sts = crate::types::spec_take_all(toks@, 0).unwrap();
                        assert(sts.len() == 1);
                        assert(sts[0] == t0@);
                    }
                    match decode_value_at(data, q, &t0, e) {
                        Err(k) => Err(k),
                        Ok((v1, p2)) => {
                            let res = DbusTypeContainer::Variant(
                                Box::new(DbusVariant { var_type: t0, value: v1 }),
                            );
                            proof {
                                assert(value_model(res) == SpecValue::Variant(
                                    type_model(res->Variant_0.var_type),
                                    Box::new(value_model(res->Variant_0.value)),
                                ));
                            }
                            Ok((res, p2))
                        },
                    }
                },
            }
        },
    }
}

/// The struct case of [`decode_value_at`]: the fields in order from the
/// 8-aligned start.
fn decode_struct_at(
    data: &[u8],
    pos: usize,
    t: &CompleteType,
    fields: &Vec<CompleteType>,
    e: MessageEndianness,
) -> (r: Result<(DbusTypeContainer, usize), DbusParseError>)
    requires
        pos <= data@.len(),
        *t == CompleteType::Struct(*fields),
    ensures
        dec_result_matches(data@, pos as int, t@, e, r),
    decreases data@.len() - pos, t@, 0int,
{
    let total = data.len();
    let pad = pad_of(pos, 8);
    if total - pos < pad {
        return Err(DbusParseError::NeedMoreBytes);
    }
    let p = pos + pad;
    let ghost fsm = type_model_list(fields@);
    proof {
        lemma_type_model_list(fields@);
        assert(t@ == SpecType::Struct(fsm));
        assert(fsm.skip(0) =~= fsm);
    }
    let n = fields.len();
    let mut out: Vec<DbusTypeContainer> = Vec::new();
    let mut cur: usize = p;
    let mut i: usize = 0;
    while i < n
        invariant
            i <= n,
            n == fields@.len(),
            fsm == type_model_list(fields@),
            fsm.len() == n,
            forall|j: int| 0 <= j < n ==> fsm[j] == type_model(#[trigger] fields@[j]),
            *t == CompleteType::Struct(*fields),
            t@ == SpecType::Struct(fsm),
            p <= cur <= data@.len(),
            pos <= data@.len(),
            p as int == pos + pad_at(pos as int, 8),
            spec_dec_fields(data@, p as int, fsm, e) == (match spec_dec_fields(
                data@,
                cur as int,
                fsm.skip(i as int),
                e,
            ) {
                Ok((rest, q)) => Ok::<(Seq<SpecValue>, int), DbusParseError>(
                    (value_model_list(out@) + rest, q),
                ),
                Err(k) => Err(k),
            }),
        decreases n - i,
    {
        let ghost s = fsm.skip(i as int);
        proof {
            assert(s.len() > 0);
            assert(s[0] == fsm[i as int]);
            assert(s.drop_first() =~= fsm.skip(i + 1));
            assert(decreases_to!(t@ => t@->Struct_0));
            assert(t@->Struct_0 == fsm);
            assert(decreases_to!(fsm => fsm[i as int]));
            assert(fsm[i as int] == fields@[i as int]@);
        }
        match decode_value_at(data, cur, &fields[i], e) {
            Err(k) => {
                proof {
                    assert(spec_dec_fields(data@, cur as int, s, e) == Err::<
                        (Seq<SpecValue>, int),
                        DbusParseError,
                    >(k));
                }
                return Err(k);
            },
            Ok((v, p2)) => {
                proof {
                    let rec = spec_dec_fields(data@, p2 as int, fsm.skip(i + 1), e);
                    assert(spec_dec_fields(data@, cur as int, s, e) == (match rec {
                        Ok((rest, q)) => Ok::<(Seq<SpecValue>, int), DbusParseError>(
                            (seq![value_model(v)] + rest, q),
                        ),
                        Err(k2) => Err(k2),
                    }));
                    lemma_value_model_list_push(out@, v);
                    match rec {
                        Ok((rest, q)) => {
                            assert(value_model_list(out@) + (seq![value_model(v)] + rest)
                                =~= value_model_list(out@.push(v)) + rest);
                        },
                        Err(_) => {},
                    }
                }
                out.push(v);
                cur = p2;
            },
        }
        i = i + 1;
    }
    proof {
        assert(fsm.skip(n as int) =~= Seq::<SpecType>::empty());
        assert(spec_dec_fields(data@, cur as int, fsm.skip(n as int), e) == Ok::<
            (Seq<SpecValue>, int),
            DbusParseError,
        >((Seq::empty(), cur as int)));
        assert(value_model_list(out@) + Seq::<SpecValue>::empty() =~= value_model_list(out@));
    }
    let res = DbusTypeContainer::Struct(DbusStruct(out));
    proof {
        assert(value_model(res) == SpecValue::Struct(value_model_list(res->Struct_0.0@)));
    }
    Ok((res, cur))
}

/// The dict-entry case of [`decode_value_at`]: key, then value.
fn decode_dict_at(
    data: &[u8],
    pos: usize,
    t: &CompleteType,
    k: &Box<CompleteType>,
    val: &Box<CompleteType>,
    e: MessageEndianness,
) -> (r: Result<(DbusTypeContainer, usize), DbusParseError>)
    requires
        pos <= data@.len(),
        *t == CompleteType::DictEntry(*k, *val),
    ensures
        dec_result_matches(data@, pos as int, t@, e, r),
    decreases data@.len() - pos, t@, 0int,
{
    let total = data.len();
    let pad = pad_of(pos, 8);
    if total - pos < pad {
        return Err(DbusParseError::NeedMoreBytes);
    }
    let p = pos + pad;
    proof {
        assert(t@ == SpecType::DictEntry(Box::new((**k)@), Box::new((**val)@)));
    }
    match decode_value_at(data, p, k, e) {
        Err(err) => Err(err),
        Ok((kv, p2)) => {
            match decode_value_at(data, p2, val, e) {
                Err(err) => Err(err),
                Ok((vv, p3)) => {
                    let res = DbusTypeContainer::DictEntry(
                        Box::new(DbusDictEntry { key: kv, value: vv }),
                    );
                    proof {
                        assert(value_model(res) == SpecValue::DictEntry(
                            Box::new(value_model(res->DictEntry_0.key)),
                            Box::new(value_model(res->DictEntry_0.value)),
                        ));
                    }
                    Ok((res, p3))
                },
            }
        },
    }
}

/// The array case of [`decode_value_at`]: length word, interior padding,
/// then exactly that many payload bytes of elements.
fn decode_array_at(
    data: &[u8],
    pos: usize,
    t: &CompleteType,
    el: &Box<CompleteType>,
    e: MessageEndianness,
) -> (r: Result<(DbusTypeContainer, usize), DbusParseError>)
    requires
        pos <= data@.len(),
        *t == CompleteType::Array(*el),
    ensures
        dec_result_matches(data@, pos as int, t@, e, r),
    decreases data@.len() - pos, t@, 0int,
{
    let total = data.len();
    let pad = pad_of(pos, 4);
    if total - pos < pad {
        return Err(DbusParseError::NeedMoreBytes);
    }
    let p = pos + pad;
    proof {
        assert(t@ == SpecType::Array(Box::new((**el)@)));
    }
    if total - p < 4 {
        return Err(DbusParseError::NeedMoreBytes);
    }
    let n = read_u32(data, p, e) as usize;
    if n > DBUS_ARRAY_MAX_LENGTH {
        return Err(DbusParseError::ArrayLengthOverflow);
    }
    let ea = elem_align(el);
    let ip = pad_of(p + 4, ea);
    if total - (p + 4) < ip || total - (p + 4) - ip < n {
        return Err(DbusParseError::NeedMoreBytes);
    }
    let start = p + 4 + ip;
    let end = start + n;
    let mut out: Vec<DbusTypeContainer> = Vec::new();
    let mut cur: usize = start;
    proof {
        let r0 = spec_dec_items(data@, start as int, end as int, (**el)@, e);
        assert(value_model_list(out@) =~= Seq::<SpecValue>::empty());
        match r0 {
            Ok(rest) => {
                assert(value_model_list(out@) + rest =~= rest);
            },
            Err(_) => {},
        }
    }
    while cur < end
        invariant
            start <= cur <= end,
            end <= data@.len(),
            pos <= data@.len(),
            pos < start,
            *t == CompleteType::Array(*el),
            t@ == SpecType::Array(Box::new((**el)@)),
            p as int == pos + pad_at(pos as int, 4),
            p + 4 <= data@.len(),
            n as int == crate::endian::spec_u32_from_bytes(
                e,
                data@.subrange(p as int, p + 4),
            ) as int,
            n <= DBUS_ARRAY_MAX_LENGTH,
            ip as int == pad_at(p + 4, align_of_type((**el)@)),
            start == p + 4 + ip,
            end == start + n,
            spec_dec_items(data@, start as int, end as int, (**el)@, e) == (match spec_dec_items(
                data@,
                cur as int,
                end as int,
                (**el)@,
                e,
            ) {
                Ok(rest) => Ok::<Seq<SpecValue>, DbusParseError>(value_model_list(out@) + rest),
                Err(k) => Err(k),
            }),
        decreases end - cur,
    {
        match decode_value_at(data, cur, el, e) {
            Err(k) => {
                proof {
                    assert(spec_dec_items(data@, cur as int, end as int, (**el)@, e) == Err::<
                        Seq<SpecValue>,
                        DbusParseError,
                    >(k));
                }
                return Err(k);
            },
            Ok((v, p2)) => {
                if !(cur < p2 && p2 <= end) {
                    proof {
                        assert(spec_dec_items(data@, cur as int, end as int, (**el)@, e) == Err::<
                            Seq<SpecValue>,
                            DbusParseError,
                        >(DbusParseError::NeedMoreBytes));
                    }
                    return Err(DbusParseError::NeedMoreBytes);
                }
                proof {
                    let rec = spec_dec_items(data@, p2 as int, end as int, (**el)@, e);
                    assert(spec_dec_items(data@, cur as int, end as int, (**el)@, e) == (
                    match rec {
                        Ok(rest) => Ok::<Seq<SpecValue>, DbusParseError>(
                            seq![value_model(v)] + rest,
                        ),
                        Err(k2) => Err(k2),
                    }));
                    lemma_value_model_list_push(out@, v);
                    match rec {
                        Ok(rest) => {
                            assert(value_model_list(out@) + (seq![value_model(v)] + rest)
                                =~= value_model_list(out@.push(v)) + rest);
                        },
                        Err(_) => {},
                    }
                }
                out.push(v);
                cur = p2;
            },
        }
    }
    proof {
        assert(spec_dec_items(data@, cur as int, end as int, (**el)@, e) == Ok::<
            Seq<SpecValue>,
            DbusParseError,
        >(Seq::empty()));
        assert(value_model_list(out@) + Seq::<SpecValue>::empty() =~= value_model_list(out@));
    }
    let elem_type = (**el).clone();
    let res = DbusTypeContainer::Array(DbusArray { elem_type, items: out });
    proof {
        assert(value_model(res) == SpecValue::Array(
            res->Array_0.elem_type@,
            value_model_list(res->Array_0.items@),
        ));
    }
    Ok((res, end))
}

/// What decoding a buffer against a whole signature yields: the signature's
/// complete types drive one value each, in order.
pub open spec fn spec_decode_values(
    data: Seq<u8>,
    sig: Seq<SignatureType>,
    e: MessageEndianness,
) -> Result<(Seq<SpecValue>, int), DbusParseError> {
    match crate::types::spec_take_all(sig, 0) {
        None => Err(DbusParseError::MalformedSignature),
        Some(ts) => spec_dec_fields(data, 0, ts, e),
    }
}

/// Decodes one value per complete type of `types`, in order from `pos`.
pub fn decode_seq(
    data: &[u8],
    pos: usize,
    types: &Vec<CompleteType>,
    e: MessageEndianness,
) -> (r: Result<(Vec<DbusTypeContainer>, usize), DbusParseError>)
    requires
        pos <= data@.len(),
    ensures
        (match r {
            Ok((vals, q)) => spec_dec_fields(data@, pos as int, type_model_list(types@), e)
                == Ok::<(Seq<SpecValue>, int), DbusParseError>(
                (value_model_list(vals@), q as int),
            ) && q <= data@.len(),
            Err(k) => spec_dec_fields(data@, pos as int, type_model_list(types@), e) == Err::<
                (Seq<SpecValue>, int),
                _,
            >(k),
        }),
{
    let ghost fsm = type_model_list(types@);
    proof {
        lemma_type_model_list(types@);
        assert(fsm.skip(0) =~= fsm);
    }
    let n = types.len();
    let mut out: Vec<DbusTypeContainer> = Vec::new();
    let mut cur: usize = pos;
    let mut i: usize = 0;
    while i < n
        invariant
            i <= n,
            n == types@.len(),
            fsm == type_model_list(types@),
            fsm.len() == n,
            forall|j: int| 0 <= j < n ==> fsm[j] == type_model(#[trigger] types@[j]),
            pos <= cur <= data@.len(),
            spec_dec_fields(data@, pos as int, fsm, e) == (match spec_dec_fields(
                data@,
                cur as int,
                fsm.skip(i as int),
                e,
            ) {
                Ok((rest, q)) => Ok::<(Seq<SpecValue>, int), DbusParseError>(
                    (value_model_list(out@) + rest, q),
                ),
                Err(k) => Err(k),
            }),
        decreases n - i,
    {
        let ghost s = fsm.skip(i as int);
        proof {
            assert(s.len() > 0);
            assert(s[0] == fsm[i as int]);
            assert(s.drop_first() =~= fsm.skip(i + 1));
        }
        match decode_value_at(data, cur, &types[i], e) {
            Err(k) => {
                proof {
                    assert(spec_dec_fields(data@, cur as int, s, e) == Err::<
                        (Seq<SpecValue>, int),
                        DbusParseError,
                    >(k));
                }
                return Err(k);
            },
            Ok((v, p2)) => {
                proof {
                    let rec = spec_dec_fields(data@, p2 as int, fsm.skip(i + 1), e);
                    assert(spec_dec_fields(data@, cur as int, s, e) == (match rec {
                        Ok((rest, q)) => Ok::<(Seq<SpecValue>, int), DbusParseError>(
                            (seq![value_model(v)] + rest, q),
                        ),
                        Err(k2) => Err(k2),
                    }));
                    lemma_value_model_list_push(out@, v);
                    match rec {
                        Ok((rest, q)) => {
                            assert(value_model_list(out@) + (seq![value_model(v)] + rest)
                                =~= value_model_list(out@.push(v)) + rest);
                        },
                        Err(_) => {},
                    }
                }
                out.push(v);
                cur = p2;
            },
        }
        i = i + 1;
    }
    proof {
        assert(fsm.skip(n as int) =~= Seq::<SpecType>::empty());
        assert(value_model_list(out@) + Seq::<SpecValue>::empty() =~= value_model_list(out@));
    }
    Ok((out, cur))
}

/// Decodes a buffer against a signature: each complete type yields one
/// value; returns the values and how many bytes they took.
pub fn decode_value(data: &[u8], sig: &Signature, e: MessageEndianness) -> (r: Result<
    (Vec<DbusTypeContainer>, usize),
    DbusParseError,
>)
    ensures
        (match r {
            Ok((vals, q)) => spec_decode_values(data@, sig@, e) == Ok::<
                (Seq<SpecValue>, int),
                DbusParseError,
            >((value_model_list(vals@), q as int)),
            Err(k) => spec_decode_values(data@, sig@, e) == Err::<(Seq<SpecValue>, int), _>(k),
        }),
{
    match take_all(&sig.0, 0) {
        None => Err(DbusParseError::MalformedSignature),
        Some(types) => decode_seq(data, 0, &types, e),
    }
}

impl Signature {
    /// Decodes a buffer against this signature, one value per complete
    /// type.
    pub fn parse_buffer(&self, data: &[u8], e: MessageEndianness) -> (r: Result<
        (Vec<DbusTypeContainer>, usize),
        DbusParseError,
    >)
        ensures
            (match r {
                Ok((vals, q)) => spec_decode_values(data@, self@, e) == Ok::<
                    (Seq<SpecValue>, int),
                    DbusParseError,
                >((value_model_list(vals@), q as int)),
                Err(k) => spec_decode_values(data@, self@, e) == Err::<
                    (Seq<SpecValue>, int),
                    _,
                >(k),
            }),
    {
        decode_value(data, self, e)
    }
}

} // verus!
