//! Whole messages: header, padding, body; encoding recomputes nothing the
//! header does not already state, so a conforming message round-trips
//! byte for byte.

use crate::codec::{pad_at, spec_enc_list, spec_enc_value, spec_wf_list, spec_wf_value,
    zero_bytes};
use crate::dec::spec_dec_fields;
use crate::decode::decode_seq;
use crate::enc::{enc_items, pad_of, push_zeros};
use crate::endian::MessageEndianness;
use crate::error::DbusParseError;
use crate::header::{
    hf_model, spec_dec_fixed, spec_dec_header, spec_enc_fixed, spec_entry_type,
    spec_fields_value, spec_flags_wf, spec_fold_fields, spec_empty_fields, spec_header_entries,
    FixedHeaderPart, Header, HeaderFields, MessageType, SpecHeaderFields,
};
use crate::roundtrip::{lemma_rt_list_fields, lemma_rt_value};
use crate::types::{lemma_sub_sub, spec_take_all, SpecType};
use crate::value::{
    spec_type_of, spec_types_of_list, value_model_list, DbusTypeContainer, SpecValue,
};
use vstd::prelude::*;

verus! {

broadcast use {vstd::seq::group_seq_axioms, vstd::std_specs::vec::group_vec_axioms};

/// One whole message: its header and its decoded body values.
#[derive(Debug, PartialEq)]
pub struct Message {
    pub header: Header,
    pub message: Vec<DbusTypeContainer>,
}

/// The fields a message of this type must carry.
pub open spec fn spec_required_fields_ok(mt: MessageType, hf: SpecHeaderFields) -> bool {
    match mt {
        MessageType::MethodCall => hf.path is Some && hf.member is Some,
        MessageType::Signal => hf.path is Some && hf.member is Some && hf.interface is Some,
        MessageType::Error => hf.error_name is Some && hf.reply_serial is Some,
        MessageType::MethodReturn => hf.reply_serial is Some,
        MessageType::Invalid => false,
    }
}

/// Where the body begins: after the field array and its padding to 8.
pub open spec fn spec_body_start(hf: SpecHeaderFields, e: MessageEndianness) -> int {
    let hlen = 12 + spec_enc_value(spec_fields_value(hf), e, 12).len();
    hlen + pad_at(hlen as int, 8)
}

/// The whole wire image of a message.
pub open spec fn spec_enc_message(
    fh: FixedHeaderPart,
    hf: SpecHeaderFields,
    body: Seq<SpecValue>,
) -> Seq<u8> {
    let e = fh.endianness;
    let fv = spec_enc_value(spec_fields_value(hf), e, 12);
    let hlen = 12 + fv.len();
    let pad = pad_at(hlen as int, 8);
    spec_enc_fixed(fh) + fv + zero_bytes(pad) + spec_enc_list(body, e, hlen + pad)
}

/// A conforming message, but for the fields its type demands: protocol 1,
/// a nonzero serial, known flags, a legal field record, and a body that
/// matches the signature field with an honest length.
pub open spec fn spec_wf_message_core(
    fh: FixedHeaderPart,
    hf: SpecHeaderFields,
    body: Seq<SpecValue>,
) -> bool {
    let e = fh.endianness;
    let b = spec_body_start(hf, e);
    &&& fh.protocol_version == 1
    &&& fh.msg_serial != 0
    &&& spec_flags_wf(fh.flags)
    &&& fh.message_type != MessageType::Invalid
    &&& spec_wf_value(spec_fields_value(hf), e, 12)
    &&& (match hf.signature {
        None => body.len() == 0 && fh.msg_len == 0,
        Some(toks) => {
            &&& spec_take_all(toks, 0) == Some(spec_types_of_list(body))
            &&& spec_wf_list(body, e, b)
            &&& fh.msg_len as int == spec_enc_list(body, e, b).len()
        },
    })
}

/// A conforming message.
pub open spec fn spec_wf_message(
    fh: FixedHeaderPart,
    hf: SpecHeaderFields,
    body: Seq<SpecValue>,
) -> bool {
    spec_wf_message_core(fh, hf, body) && spec_required_fields_ok(fh.message_type, hf)
}

/// Reads one whole message from the front of the buffer: header, required
/// fields, padding, then exactly `msg_len` bytes of body driven by the
/// signature field. Bytes past the message are left alone.
pub open spec fn spec_dec_message(data: Seq<u8>) -> Result<
    ((FixedHeaderPart, SpecHeaderFields, Seq<SpecValue>), int),
    DbusParseError,
> {
    match spec_dec_header(data) {
        Err(k) => Err(k),
        Ok(((fh, hf), hp)) => {
            let e = fh.endianness;
            if !spec_required_fields_ok(fh.message_type, hf) {
                Err(DbusParseError::MissingRequiredHeaderField)
            } else {
                let b = hp + pad_at(hp, 8);
                if b > data.len() {
                    Err(DbusParseError::NeedMoreBytes)
                } else {
                    let bl = fh.msg_len as int;
                    match hf.signature {
                        None => {
                            if bl == 0 {
                                Ok(((fh, hf, Seq::empty()), b))
                            } else {
                                Err(DbusParseError::MissingRequiredHeaderField)
                            }
                        },
                        Some(toks) => match spec_take_all(toks, 0) {
                            None => Err(DbusParseError::MalformedSignature),
                            Some(ts) => {
                                if b + bl > data.len() {
                                    Err(DbusParseError::NeedMoreBytes)
                                } else {
                                    match spec_dec_fields(data, b, ts, e) {
                                        Err(k) => Err(k),
                                        Ok((vals, q)) => {
                                            if q == b + bl {
                                                Ok(((fh, hf, vals), q))
                                            } else if q < b + bl {
                                                Err(DbusParseError::TrailingBytes)
                                            } else {
                                                Err(DbusParseError::NeedMoreBytes)
                                            }
                                        },
                                    }
                                }
                            },
                        },
                    }
                }
            }
        },
    }
}

/// The fixed part of an image is twelve bytes long.
proof fn lemma_enc_fixed_len(fh: FixedHeaderPart)
    ensures
        spec_enc_fixed(fh).len() == 12,
{
    crate::endian::lemma_u32_bytes(fh.endianness, fh.msg_len);
    crate::endian::lemma_u32_bytes(fh.endianness, fh.msg_serial);
}

/// Reading back a conforming fixed header from the front of a longer
/// buffer yields it.
proof fn lemma_fixed_roundtrip_prefix(fh: FixedHeaderPart, data: Seq<u8>)
    requires
        fh.protocol_version == 1,
        spec_flags_wf(fh.flags),
        fh.message_type != MessageType::Invalid,
        data.len() >= 12,
        data.subrange(0, 12) == spec_enc_fixed(fh),
    ensures
        spec_dec_fixed(data) == Ok::<(FixedHeaderPart, int), DbusParseError>((fh, 12)),
{
    let fb = spec_enc_fixed(fh);
    lemma_enc_fixed_len(fh);
    crate::endian::lemma_u32_bytes(fh.endianness, fh.msg_len);
    crate::endian::lemma_u32_bytes(fh.endianness, fh.msg_serial);
    crate::types::lemma_sub_index(data, 0, fb, 0);
    crate::types::lemma_sub_index(data, 0, fb, 1);
    crate::types::lemma_sub_index(data, 0, fb, 2);
    crate::types::lemma_sub_index(data, 0, fb, 3);
    lemma_sub_sub(data, 0, fb, 4, 8);
    lemma_sub_sub(data, 0, fb, 8, 12);
    assert(fb.subrange(4, 8) =~= crate::endian::spec_u32_bytes(fh.endianness, fh.msg_len));
    assert(fb.subrange(8, 12) =~= crate::endian::spec_u32_bytes(fh.endianness, fh.msg_serial));
    assert(crate::header::MessageFlags(fh.flags.0 & crate::header::MESSAGE_FLAGS_MASK)
        == fh.flags);
}

/// The message round-trip law: decoding the image of a conforming message
/// yields the message back and consumes the whole image.
#[verifier::rlimit(100)]
#[verifier::spinoff_prover]
pub proof fn lemma_message_round_trip(
    fh: FixedHeaderPart,
    hf: SpecHeaderFields,
    body: Seq<SpecValue>,
)
    requires
        spec_wf_message(fh, hf, body),
    ensures
        spec_dec_message(spec_enc_message(fh, hf, body)) == Ok::<
            ((FixedHeaderPart, SpecHeaderFields, Seq<SpecValue>), int),
            DbusParseError,
        >(((fh, hf, body), spec_enc_message(fh, hf, body).len() as int)),
{
    let e = fh.endianness;
    let fvv = spec_fields_value(hf);
    let fb = spec_enc_fixed(fh);
    let fvb = spec_enc_value(fvv, e, 12);
    let hlen = 12 + fvb.len() as int;
    let pad = pad_at(hlen, 8);
    let b = hlen + pad;
    let bb = spec_enc_list(body, e, b);
    let data = spec_enc_message(fh, hf, body);
    lemma_enc_fixed_len(fh);
    assert(data == fb + fvb + zero_bytes(pad) + bb);
    assert(data.len() == b + bb.len());
    assert(0 <= pad) by {
        crate::laws::lemma_pad_aligns(hlen, 8);
    }
    assert(data.subrange(0, 12) =~= fb);
    lemma_fixed_roundtrip_prefix(fh, data);
    assert(data.subrange(12, hlen) =~= fvb);
    assert(spec_type_of(fvv) == SpecType::Array(Box::new(spec_entry_type())));
    lemma_rt_value(fvv, e, data, 12);
    assert(crate::dec::spec_dec_value(data, 12, SpecType::Array(Box::new(spec_entry_type())), e)
        == Ok::<(SpecValue, int), DbusParseError>((fvv, hlen)));
    crate::header::lemma_fold_entries(hf);
    assert(spec_dec_header(data) == Ok::<((FixedHeaderPart, SpecHeaderFields), int),
        DbusParseError>(((fh, hf), hlen)));
    match hf.signature {
        None => {
            assert(body =~= Seq::<SpecValue>::empty());
            assert(bb.len() == 0);
            assert(data.len() == b);
        },
        Some(toks) => {
            let ts = spec_take_all(toks, 0).unwrap();
            assert(ts == spec_types_of_list(body));
            assert(data.subrange(b, b + bb.len()) =~= bb);
            lemma_rt_list_fields(body, e, data, b);
            assert(spec_dec_fields(data, b, ts, e) == Ok::<(Seq<SpecValue>, int),
                DbusParseError>((body, b + bb.len())));
            assert(b + fh.msg_len as int == data.len());
        },
    }
}

/// Every field the message type demands is present.
pub fn required_fields_present(mt: MessageType, fields: &HeaderFields) -> (r: bool)
    ensures
        r == spec_required_fields_ok(mt, hf_model(*fields)),
{
    match mt {
        MessageType::MethodCall => fields.path.is_some() && fields.member.is_some(),
        MessageType::Signal => fields.path.is_some() && fields.member.is_some()
            && fields.interface.is_some(),
        MessageType::Error => fields.error_name.is_some() && fields.reply_serial.is_some(),
        MessageType::MethodReturn => fields.reply_serial.is_some(),
        MessageType::Invalid => false,
    }
}

/// Writes the whole wire image of a message; refused when a field the
/// message type demands is absent.
pub fn encode_message(m: &Message) -> (r: Result<Vec<u8>, DbusParseError>)
    requires
        spec_wf_message_core(
            m.header.fixed,
            hf_model(m.header.fields),
            value_model_list(m.message@),
        ),
        spec_enc_message(
            m.header.fixed,
            hf_model(m.header.fields),
            value_model_list(m.message@),
        ).len() <= usize::MAX,
    ensures
        (match r {
            Ok(bytes) => spec_required_fields_ok(m.header.fixed.message_type, hf_model(
                m.header.fields,
            )) && bytes@ == spec_enc_message(
                m.header.fixed,
                hf_model(m.header.fields),
                value_model_list(m.message@),
            ),
            Err(k) => k == DbusParseError::MissingRequiredHeaderField
                && !spec_required_fields_ok(m.header.fixed.message_type, hf_model(m.header.fields)),
        }),
{
    if !required_fields_present(m.header.fixed.message_type, &m.header.fields) {
        return Err(DbusParseError::MissingRequiredHeaderField);
    }
    let e = m.header.fixed.endianness;
    let ghost hm = hf_model(m.header.fields);
    let ghost fvb = spec_enc_value(spec_fields_value(hm), e, 12);
    let ghost whole = spec_enc_message(m.header.fixed, hm, value_model_list(m.message@));
    proof {
        lemma_enc_fixed_len(m.header.fixed);
        assert(whole == spec_enc_fixed(m.header.fixed) + fvb + zero_bytes(
            pad_at(12 + fvb.len() as int, 8),
        ) + spec_enc_list(value_model_list(m.message@), e, spec_body_start(hm, e)));
    }
    let mut out = m.header.marshal();
    let hlen = out.len();
    let pad = pad_of(hlen, 8);
    push_zeros(&mut out, pad);
    let b = hlen + pad;
    proof {
        if hm.signature is None {
            assert(value_model_list(m.message@).len() == 0);
            assert(value_model_list(m.message@) =~= Seq::<SpecValue>::empty());
        }
    }
    enc_items(&m.message, e, b, &mut out);
    proof {
        assert(out@ =~= whole);
    }
    Ok(out)
}

/// Reads one whole message from the front of the buffer and says how many
/// bytes it took; bytes past the message are left alone.
pub fn decode_message(data: &[u8]) -> (r: Result<(Message, usize), DbusParseError>)
    ensures
        (match r {
            Ok((m, q)) => spec_dec_message(data@) == Ok::<
                ((FixedHeaderPart, SpecHeaderFields, Seq<SpecValue>), int),
                DbusParseError,
            >((
                (m.header.fixed, hf_model(m.header.fields), value_model_list(m.message@)),
                q as int,
            )) && q <= data@.len(),
            Err(k) => spec_dec_message(data@) == Err::<
                ((FixedHeaderPart, SpecHeaderFields, Seq<SpecValue>), int),
                _,
            >(k),
        }),
{
    let (header, hp) = match Header::unmarshal(data) {
        Ok(x) => x,
        Err(k) => {
            return Err(k);
        },
    };
    if !required_fields_present(header.fixed.message_type, &header.fields) {
        return Err(DbusParseError::MissingRequiredHeaderField);
    }
    let e = header.fixed.endianness;
    let total = data.len();
    let pad = pad_of(hp, 8);
    if total - hp < pad {
        return Err(DbusParseError::NeedMoreBytes);
    }
    let b = hp + pad;
    let bl = header.fixed.msg_len as usize;
    match &header.fields.signature {
        None => {
            if bl == 0 {
                let message: Vec<DbusTypeContainer> = Vec::new();
                proof {
                    assert(value_model_list(message@) =~= Seq::<SpecValue>::empty());
                }
                Ok((Message { header, message }, b))
            } else {
                Err(DbusParseError::MissingRequiredHeaderField)
            }
        },
        Some(sg) => {
            match crate::types::take_all(&sg.0.0, 0) {
                None => Err(DbusParseError::MalformedSignature),
                Some(ts) => {
                    if total - b < bl {
                        return Err(DbusParseError::NeedMoreBytes);
                    }
                    match decode_seq(data, b, &ts, e) {
                        Err(k) => Err(k),
                        Ok((vals, q)) => {
                            if q == b + bl {
                                Ok((Message { header, message: vals }, q))
                            } else if q < b + bl {
                                Err(DbusParseError::TrailingBytes)
                            } else {
                                Err(DbusParseError::NeedMoreBytes)
                            }
                        },
                    }
                },
            }
        },
    }
}

impl Header {
    /// Decodes a body buffer against this header's signature field: with a
    /// signature, one value per complete type; without one, the buffer
    /// must be empty.
    pub fn parse_message(self, buf: &[u8]) -> (r: Result<(Message, usize), DbusParseError>)
        ensures
            (match hf_model(self.fields).signature {
                None => (match r {
                    Ok((m, q)) => buf@.len() == 0 && q == 0 && m.message@.len() == 0,
                    Err(k) => buf@.len() != 0 && k == DbusParseError::TrailingBytes,
                }),
                Some(toks) => (match r {
                    Ok((m, q)) => crate::decode::spec_decode_values(buf@, toks, self.fixed.endianness)
                        == Ok::<(Seq<SpecValue>, int), DbusParseError>(
                        (value_model_list(m.message@), q as int),
                    ),
                    Err(k) => crate::decode::spec_decode_values(buf@, toks, self.fixed.endianness)
                        == Err::<(Seq<SpecValue>, int), _>(k),
                }),
            }),
    {
        let e = self.fixed.endianness;
        match &self.fields.signature {
            None => {
                if buf.len() == 0 {
                    let message: Vec<DbusTypeContainer> = Vec::new();
                    Ok((Message { header: self, message }, 0))
                } else {
                    Err(DbusParseError::TrailingBytes)
                }
            },
            Some(sg) => {
                match crate::decode::decode_value(buf, &sg.0, e) {
                    Err(k) => Err(k),
                    Ok((vals, q)) => Ok((Message { header: self, message: vals }, q)),
                }
            },
        }
    }
}

} // verus!
