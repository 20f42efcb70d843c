//! What decoding yields, stated as total functions over byte sequences: for
//! every buffer, position and complete type, either the value and the
//! position just past it, or the exact failure.

use crate::codec::{pad_at, DBUS_ARRAY_MAX_LENGTH};
use crate::endian::{spec_u16_from_bytes, spec_u32_from_bytes, spec_u64_from_bytes,
    MessageEndianness};
use crate::error::DbusParseError;
use crate::signature::{spec_tokens_of, SignatureType};
use crate::types::{spec_take_all, SpecType};
use crate::utf8::is_utf8;
use crate::value::{align_of_type, spec_type_of, spec_types_of_list, spec_valid_object_path, SpecValue};
use vstd::prelude::*;

verus! {

broadcast use {vstd::seq::group_seq_axioms, vstd::std_specs::vec::group_vec_axioms};

/// Decodes one value of type `t` whose first byte (or padding) stands at
/// `pos`. Padding bytes are skipped, not inspected. Returns the value and
/// the position just past it.
pub open spec fn spec_dec_value(
    data: Seq<u8>,
    pos: int,
    t: SpecType,
    e: MessageEndianness,
) -> Result<(SpecValue, int), DbusParseError>
    recommends
        0 <= pos <= data.len(),
    decreases data.len() - pos, t, 1int,
{
    let p = pos + pad_at(pos, align_of_type(t));
    if p > data.len() {
        Err(DbusParseError::NeedMoreBytes)
    } else {
        match t {
            SpecType::Byte => {
                if p + 1 > data.len() {
                    Err(DbusParseError::NeedMoreBytes)
                } else {
                    Ok((SpecValue::Byte(data[p]), p + 1))
                }
            },
            SpecType::Boolean => {
                if p + 4 > data.len() {
                    Err(DbusParseError::NeedMoreBytes)
                } else {
                    let x = spec_u32_from_bytes(e, data.subrange(p, p + 4));
                    if x == 0 {
                        Ok((SpecValue::Boolean(false), p + 4))
                    } else if x == 1 {
                        Ok((SpecValue::Boolean(true), p + 4))
                    } else {
                        Err(DbusParseError::InvalidBoolean)
                    }
                }
            },
            SpecType::Uint16 => {
                if p + 2 > data.len() {
                    Err(DbusParseError::NeedMoreBytes)
                } else {
                    Ok((SpecValue::Uint16(spec_u16_from_bytes(e, data.subrange(p, p + 2))), p + 2))
                }
            },
            SpecType::Int16 => {
                if p + 2 > data.len() {
                    Err(DbusParseError::NeedMoreBytes)
                } else {
                    Ok((
                        SpecValue::Int16(spec_u16_from_bytes(e, data.subrange(p, p + 2)) as i16),
                        p + 2,
                    ))
                }
            },
            SpecType::Uint32 => {
                if p + 4 > data.len() {
                    Err(DbusParseError::NeedMoreBytes)
                } else {
                    Ok((SpecValue::Uint32(spec_u32_from_bytes(e, data.subrange(p, p + 4))), p + 4))
                }
            },
            SpecType::Int32 => {
                if p + 4 > data.len() {
                    Err(DbusParseError::NeedMoreBytes)
                } else {
                    Ok((
                        SpecValue::Int32(spec_u32_from_bytes(e, data.subrange(p, p + 4)) as i32),
                        p + 4,
                    ))
                }
            },
            SpecType::UnixFd => {
                if p + 4 > data.len() {
                    Err(DbusParseError::NeedMoreBytes)
                } else {
                    Ok((SpecValue::UnixFd(spec_u32_from_bytes(e, data.subrange(p, p + 4))), p + 4))
                }
            },
            SpecType::Uint64 => {
                if p + 8 > data.len() {
                    Err(DbusParseError::NeedMoreBytes)
                } else {
                    Ok((SpecValue::Uint64(spec_u64_from_bytes(e, data.subrange(p, p + 8))), p + 8))
                }
            },
            SpecType::Int64 => {
                if p + 8 > data.len() {
                    Err(DbusParseError::NeedMoreBytes)
                } else {
                    Ok((
                        SpecValue::Int64(spec_u64_from_bytes(e, data.subrange(p, p + 8)) as i64),
                        p + 8,
                    ))
                }
            },
            SpecType::Double => {
                if p + 8 > data.len() {
                    Err(DbusParseError::NeedMoreBytes)
                } else {
                    Ok((SpecValue::Double(spec_u64_from_bytes(e, data.subrange(p, p + 8))), p + 8))
                }
            },
            SpecType::String => {
                match spec_dec_string_body(data, p, e) {
                    Err(k) => Err(k),
                    Ok((bs, q)) => Ok((SpecValue::String(bs), q)),
                }
            },
            SpecType::ObjectPath => {
                match spec_dec_string_body(data, p, e) {
                    Err(k) => Err(k),
                    Ok((bs, q)) => {
                        if spec_valid_object_path(bs) {
                            Ok((SpecValue::ObjectPath(bs), q))
                        } else {
                            Err(DbusParseError::MalformedObjectPath)
                        }
                    },
                }
            },
            SpecType::Signature => {
                if p + 1 > data.len() {
                    Err(DbusParseError::NeedMoreBytes)
                } else {
                    let n = data[p] as int;
                    if p + 2 + n > data.len() {
                        Err(DbusParseError::NeedMoreBytes)
                    } else if data[p + 1 + n] != 0 {
                        Err(DbusParseError::MissingNulTerminator)
                    } else {
                        match spec_tokens_of(data.subrange(p + 1, p + 1 + n)) {
                            None => Err(DbusParseError::InvalidSignatureToken),
                            Some(toks) => {
                                if spec_take_all(toks, 0) is Some {
                                    Ok((SpecValue::Signature(toks), p + 2 + n))
                                } else {
                                    Err(DbusParseError::MalformedSignature)
                                }
                            },
                        }
                    }
                }
            },
            SpecType::Variant => {
                if p + 1 > data.len() {
                    Err(DbusParseError::NeedMoreBytes)
                } else {
                    let n = data[p] as int;
                    if p + 2 + n > data.len() {
                        Err(DbusParseError::NeedMoreBytes)
                    } else if data[p + 1 + n] != 0 {
                        Err(DbusParseError::MissingNulTerminator)
                    } else {
                        match spec_tokens_of(data.subrange(p + 1, p + 1 + n)) {
                            None => Err(DbusParseError::InvalidSignatureToken),
                            Some(toks) => match spec_take_all(toks, 0) {
                                None => Err(DbusParseError::MalformedSignature),
                                Some(ts) => {
                                    if ts.len() == 1 {
                                        match spec_dec_value(data, p + 2 + n, ts[0], e) {
                                            Err(k) => Err(k),
                                            Ok((v, q)) => Ok((
                                                SpecValue::Variant(ts[0], Box::new(v)),
                                                q,
                                            )),
                                        }
                                    } else {
                                        Err(DbusParseError::MalformedSignature)
                                    }
                                },
                            },
                        }
                    }
                }
            },
            SpecType::Array(el) => {
                if p + 4 > data.len() {
                    Err(DbusParseError::NeedMoreBytes)
                } else {
                    let n = spec_u32_from_bytes(e, data.subrange(p, p + 4)) as int;
                    if n > DBUS_ARRAY_MAX_LENGTH {
                        Err(DbusParseError::ArrayLengthOverflow)
                    } else {
                        let ip = pad_at(p + 4, align_of_type(*el));
                        if p + 4 + ip + n > data.len() {
                            Err(DbusParseError::NeedMoreBytes)
                        } else {
                            match spec_dec_items(data, p + 4 + ip, p + 4 + ip + n, *el, e) {
                                Err(k) => Err(k),
                                Ok(items) => Ok((SpecValue::Array(*el, items), p + 4 + ip + n)),
                            }
                        }
                    }
                }
            },
            SpecType::Struct(fields) => {
                match spec_dec_fields(data, p, fields, e) {
                    Err(k) => Err(k),
                    Ok((vs, q)) => Ok((SpecValue::Struct(vs), q)),
                }
            },
            SpecType::DictEntry(k, val) => {
                match spec_dec_value(data, p, *k, e) {
                    Err(err) => Err(err),
                    Ok((kv, p2)) => {
                        if p <= p2 <= data.len() {
                            match spec_dec_value(data, p2, *val, e) {
                                Err(err) => Err(err),
                                Ok((vv, p3)) => Ok((
                                    SpecValue::DictEntry(Box::new(kv), Box::new(vv)),
                                    p3,
                                )),
                            }
                        } else {
                            Err(DbusParseError::NeedMoreBytes)
                        }
                    },
                }
            },
        }
    }
}

/// The body shared by strings and object paths: length, bytes, NUL, UTF-8.
/// `p` is already aligned to 4.
pub open spec fn spec_dec_string_body(data: Seq<u8>, p: int, e: MessageEndianness) -> Result<
    (Seq<u8>, int),
    DbusParseError,
> {
    if p + 4 > data.len() {
        Err(DbusParseError::NeedMoreBytes)
    } else {
        let n = spec_u32_from_bytes(e, data.subrange(p, p + 4)) as int;
        if p + 5 + n > data.len() {
            Err(DbusParseError::NeedMoreBytes)
        } else if data[p + 4 + n] != 0 {
            Err(DbusParseError::MissingNulTerminator)
        } else {
            let bs = data.subrange(p + 4, p + 4 + n);
            if is_utf8(bs) {
                Ok((bs, p + 5 + n))
            } else {
                Err(DbusParseError::InvalidUtf8)
            }
        }
    }
}

/// Decodes elements of type `el` from `pos` until exactly `end`; an element
/// that would cross `end`, or a gap that no element can fill, is a
/// truncated-payload failure.
pub open spec fn spec_dec_items(
    data: Seq<u8>,
    pos: int,
    end: int,
    el: SpecType,
    e: MessageEndianness,
) -> Result<Seq<SpecValue>, DbusParseError>
    recommends
        0 <= pos <= end <= data.len(),
    decreases data.len() - pos, el, 2int,
{
    if pos == end {
        Ok(Seq::empty())
    } else if pos > end || end > data.len() {
        Err(DbusParseError::NeedMoreBytes)
    } else {
        match spec_dec_value(data, pos, el, e) {
            Err(k) => Err(k),
            Ok((v, p2)) => {
                if pos < p2 <= end {
                    match spec_dec_items(data, p2, end, el, e) {
                        Err(k) => Err(k),
                        Ok(rest) => Ok(seq![v] + rest),
                    }
                } else {
                    Err(DbusParseError::NeedMoreBytes)
                }
            },
        }
    }
}

/// Decodes one value per field type, in order.
pub open spec fn spec_dec_fields(
    data: Seq<u8>,
    pos: int,
    fs: Seq<SpecType>,
    e: MessageEndianness,
) -> Result<(Seq<SpecValue>, int), DbusParseError>
    recommends
        0 <= pos <= data.len(),
    decreases data.len() - pos, fs, 2int,
{
    if fs.len() == 0 {
        Ok((Seq::empty(), pos))
    } else {
        match spec_dec_value(data, pos, fs[0], e) {
            Err(k) => Err(k),
            Ok((v, p2)) => {
                if pos <= p2 <= data.len() {
                    match spec_dec_fields(data, p2, fs.drop_first(), e) {
                        Err(k) => Err(k),
                        Ok((rest, q)) => Ok((seq![v] + rest, q)),
                    }
                } else {
                    Err(DbusParseError::NeedMoreBytes)
                }
            },
        }
    }
}

/// Whatever decoding returns inhabits the very type it was asked for: the
/// value's own complete type matches the declared one.
pub proof fn lemma_dec_well_typed(data: Seq<u8>, pos: int, t: SpecType, e: MessageEndianness)
    requires
        0 <= pos,
    ensures
        spec_dec_value(data, pos, t, e) matches Ok((v, p2)) ==> spec_type_of(v) == t,
    decreases data.len() - pos, t, 1int,
{
    let p = pos + pad_at(pos, align_of_type(t));
    if p <= data.len() {
        match t {
            SpecType::Struct(fields) => {
                lemma_dec_fields_typed(data, p, fields, e);
            },
            SpecType::DictEntry(k, val) => {
                lemma_dec_well_typed(data, p, *k, e);
                if let Ok((_, p2)) = spec_dec_value(data, p, *k, e) {
                    if p <= p2 <= data.len() {
                        lemma_dec_well_typed(data, p2, *val, e);
                    }
                }
            },
            _ => {},
        }
    }
}

/// Decoded fields carry exactly the field types, in order.
pub proof fn lemma_dec_fields_typed(
    data: Seq<u8>,
    pos: int,
    fs: Seq<SpecType>,
    e: MessageEndianness,
)
    requires
        0 <= pos,
    ensures
        spec_dec_fields(data, pos, fs, e) matches Ok((vs, q)) ==> spec_types_of_list(vs) == fs,
    decreases data.len() - pos, fs, 2int,
{
    if fs.len() == 0 {
        if let Ok((vs, _)) = spec_dec_fields(data, pos, fs, e) {
            assert(spec_types_of_list(vs) =~= fs);
        }
    } else {
        lemma_dec_well_typed(data, pos, fs[0], e);
        if let Ok((v, p2)) = spec_dec_value(data, pos, fs[0], e) {
            if pos <= p2 <= data.len() {
                lemma_dec_fields_typed(data, p2, fs.drop_first(), e);
                if let Ok((rest, _)) = spec_dec_fields(data, p2, fs.drop_first(), e) {
                    let vs = seq![v] + rest;
                    assert(vs[0] == v);
                    assert(vs.drop_first() =~= rest);
                    assert(spec_types_of_list(vs) == seq![spec_type_of(v)] + spec_types_of_list(
                        rest,
                    ));
                    assert(spec_types_of_list(vs) =~= fs);
                }
            }
        }
    }
}


} // verus!
