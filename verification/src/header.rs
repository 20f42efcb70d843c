//! The message header: the fixed twelve-byte prefix and the typed record of
//! header fields, carried on the wire as an array of byte-keyed variants.

use crate::endian::{spec_u32_bytes, spec_u32_from_bytes, MessageEndianness};
use crate::error::DbusParseError;
use crate::signature::{Signature, SignatureType};
use crate::types::{CompleteType, SpecType};
use crate::value::{
    value_model, value_model_list, DbusArray, DbusDictEntry, DbusObjectPath, DbusSignature,
    DbusString, DbusTypeContainer, DbusVariant, SpecValue,
};
use vstd::prelude::*;
use vstd::slice::slice_to_vec;

verus! {

broadcast use {vstd::seq::group_seq_axioms, vstd::std_specs::vec::group_vec_axioms};

/// What a message does: call, reply, error or signal.
#[derive(Clone, Copy, Debug, PartialEq, Eq, Structural)]
pub enum MessageType {
    Invalid,
    MethodCall,
    MethodReturn,
    Error,
    Signal,
}

impl Default for MessageType {
    fn default() -> (r: Self)
        ensures
            r == MessageType::Invalid,
    {
        MessageType::Invalid
    }
}

/// The byte a message type rides as.
pub open spec fn spec_message_type_byte(mt: MessageType) -> u8 {
    match mt {
        MessageType::Invalid => 0,
        MessageType::MethodCall => 1,
        MessageType::MethodReturn => 2,
        MessageType::Error => 3,
        MessageType::Signal => 4,
    }
}

/// The message type a byte names; 0 and unknown bytes are refused.
pub open spec fn spec_message_type_of(b: u8) -> Option<MessageType> {
    if b == 1 {
        Some(MessageType::MethodCall)
    } else if b == 2 {
        Some(MessageType::MethodReturn)
    } else if b == 3 {
        Some(MessageType::Error)
    } else if b == 4 {
        Some(MessageType::Signal)
    } else {
        None
    }
}

impl MessageType {
    pub fn wire_byte(self) -> (r: u8)
        ensures
            r == spec_message_type_byte(self),
    {
        match self {
            MessageType::Invalid => 0,
            MessageType::MethodCall => 1,
            MessageType::MethodReturn => 2,
            MessageType::Error => 3,
            MessageType::Signal => 4,
        }
    }

    /// Reads a message type from its wire byte.
    pub fn try_from(value: u8) -> (r: Result<Self, DbusParseError>)
        ensures
            (match spec_message_type_of(value) {
                Some(mt) => r == Ok::<_, DbusParseError>(mt),
                None => r == Err::<Self, _>(DbusParseError::InvalidMessageType),
            }),
    {
        if value == 1 {
            Ok(MessageType::MethodCall)
        } else if value == 2 {
            Ok(MessageType::MethodReturn)
        } else if value == 3 {
            Ok(MessageType::Error)
        } else if value == 4 {
            Ok(MessageType::Signal)
        } else {
            Err(DbusParseError::InvalidMessageType)
        }
    }
}

/// The bit for a call that wants no reply.
pub const NO_REPLY_EXPECTED: u8 = 2;

/// The bit that forbids starting a service to deliver the message.
pub const NO_AUTO_START: u8 = 4;

/// The bit that allows interactive authorization.
pub const ALLOW_INTERACTIVE_AUTHORIZATION: u8 = 8;

/// The bits a conforming message may set.
pub const MESSAGE_FLAGS_MASK: u8 = 14;

/// The flag byte of a message; unknown bits are dropped when one is read.
#[derive(Clone, Copy, Debug, PartialEq, Eq, Structural)]
pub struct MessageFlags(pub u8);

/// A flag byte that holds only known bits.
pub open spec fn spec_flags_wf(f: MessageFlags) -> bool {
    f.0 & MESSAGE_FLAGS_MASK == f.0
}

impl Default for MessageFlags {
    fn default() -> (r: Self)
        ensures
            r == MessageFlags(0),
    {
        MessageFlags(0)
    }
}

impl From<u8> for MessageFlags {
    /// Keeps the known bits and silently drops the rest.
    fn from(value: u8) -> (r: Self)
        ensures
            r == MessageFlags(value & MESSAGE_FLAGS_MASK),
    {
        MessageFlags(value & MESSAGE_FLAGS_MASK)
    }
}

impl vstd::std_specs::convert::FromSpecImpl<u8> for MessageFlags {
    open spec fn obeys_from_spec() -> bool {
        true
    }

    open spec fn from_spec(value: u8) -> Self {
        MessageFlags(value & MESSAGE_FLAGS_MASK)
    }
}

/// Which header field a dict key names.
#[derive(Clone, Copy, Debug, PartialEq, Eq, Hash, Structural)]
pub enum HeaderField {
    Invalid,
    Path,
    Interface,
    Member,
    ErrorName,
    ReplySerial,
    Destination,
    Sender,
    Signature,
    UnixFdCount,
}

impl Default for HeaderField {
    fn default() -> (r: Self)
        ensures
            r == HeaderField::Invalid,
    {
        HeaderField::Invalid
    }
}

/// The known field a code byte names.
pub open spec fn spec_header_field_of(b: u8) -> Option<HeaderField> {
    if b == 1 {
        Some(HeaderField::Path)
    } else if b == 2 {
        Some(HeaderField::Interface)
    } else if b == 3 {
        Some(HeaderField::Member)
    } else if b == 4 {
        Some(HeaderField::ErrorName)
    } else if b == 5 {
        Some(HeaderField::ReplySerial)
    } else if b == 6 {
        Some(HeaderField::Destination)
    } else if b == 7 {
        Some(HeaderField::Sender)
    } else if b == 8 {
        Some(HeaderField::Signature)
    } else if b == 9 {
        Some(HeaderField::UnixFdCount)
    } else {
        None
    }
}

impl HeaderField {
    /// Reads a field code from its wire byte; unknown codes are refused
    /// here, though the header decoder skips them instead.
    pub fn try_from(value: u8) -> (r: Result<Self, DbusParseError>)
        ensures
            (match spec_header_field_of(value) {
                Some(f) => r == Ok::<_, DbusParseError>(f),
                None => r == Err::<Self, _>(DbusParseError::InvalidHeaderField),
            }),
    {
        if value == 1 {
            Ok(HeaderField::Path)
        } else if value == 2 {
            Ok(HeaderField::Interface)
        } else if value == 3 {
            Ok(HeaderField::Member)
        } else if value == 4 {
            Ok(HeaderField::ErrorName)
        } else if value == 5 {
            Ok(HeaderField::ReplySerial)
        } else if value == 6 {
            Ok(HeaderField::Destination)
        } else if value == 7 {
            Ok(HeaderField::Sender)
        } else if value == 8 {
            Ok(HeaderField::Signature)
        } else if value == 9 {
            Ok(HeaderField::UnixFdCount)
        } else {
            Err(DbusParseError::InvalidHeaderField)
        }
    }
}

/// The fixed twelve-byte prefix of every message.
#[derive(Clone, Copy, Debug, PartialEq, Eq, Structural)]
pub struct FixedHeaderPart {
    pub endianness: MessageEndianness,
    pub message_type: MessageType,
    pub flags: MessageFlags,
    pub protocol_version: u8,
    pub msg_len: u32,
    pub msg_serial: u32,
}

/// The twelve bytes of the fixed header; the four multi-byte fields follow
/// the message's own byte order.
pub open spec fn spec_enc_fixed(h: FixedHeaderPart) -> Seq<u8> {
    seq![
        h.endianness.spec_wire_byte(),
        spec_message_type_byte(h.message_type),
        h.flags.0,
        h.protocol_version,
    ] + spec_u32_bytes(h.endianness, h.msg_len) + spec_u32_bytes(h.endianness, h.msg_serial)
}

/// Reads the fixed header from the front of a buffer.
pub open spec fn spec_dec_fixed(data: Seq<u8>) -> Result<(FixedHeaderPart, int), DbusParseError> {
    if data.len() < 12 {
        Err(DbusParseError::NeedMoreBytes)
    } else {
        match MessageEndianness::spec_try_from(data[0]) {
            Err(k) => Err(k),
            Ok(e) => match spec_message_type_of(data[1]) {
                None => Err(DbusParseError::InvalidMessageType),
                Some(mt) => {
                    if data[3] != 1 {
                        Err(DbusParseError::UnsupportedProtocolVersion)
                    } else {
                        Ok((
                            FixedHeaderPart {
                                endianness: e,
                                message_type: mt,
                                flags: MessageFlags(data[2] & MESSAGE_FLAGS_MASK),
                                protocol_version: 1,
                                msg_len: spec_u32_from_bytes(e, data.subrange(4, 8)),
                                msg_serial: spec_u32_from_bytes(e, data.subrange(8, 12)),
                            },
                            12,
                        ))
                    }
                },
            },
        }
    }
}

impl FixedHeaderPart {
    /// Writes the twelve fixed bytes.
    pub fn marshal(&self) -> (r: Vec<u8>)
        ensures
            r@ == spec_enc_fixed(*self),
    {
        let mut out: Vec<u8> = Vec::new();
        out.push(self.endianness.wire_byte());
        out.push(self.message_type.wire_byte());
        out.push(self.flags.0);
        out.push(self.protocol_version);
        crate::endian::push_u32(&mut out, self.endianness, self.msg_len);
        crate::endian::push_u32(&mut out, self.endianness, self.msg_serial);
        proof {
            assert(out@ =~= spec_enc_fixed(*self));
        }
        out
    }

    /// Reads the twelve fixed bytes from the front of `data`.
    pub fn unmarshal(data: &[u8]) -> (r: Result<(FixedHeaderPart, usize), DbusParseError>)
        ensures
            (match r {
                Ok((h, q)) => spec_dec_fixed(data@) == Ok::<(FixedHeaderPart, int), DbusParseError>((
                    h,
                    q as int,
                )),
                Err(k) => spec_dec_fixed(data@) == Err::<(FixedHeaderPart, int), DbusParseError>(k),
            }),
    {
        if data.len() < 12 {
            return Err(DbusParseError::NeedMoreBytes);
        }
        let e = match MessageEndianness::try_from(*vstd::slice::slice_index_get(data, 0)) {
            Ok(e) => e,
            Err(k) => {
                return Err(k);
            },
        };
        let mt = match MessageType::try_from(*vstd::slice::slice_index_get(data, 1)) {
            Ok(mt) => mt,
            Err(k) => {
                return Err(k);
            },
        };
        if *vstd::slice::slice_index_get(data, 3) != 1 {
            return Err(DbusParseError::UnsupportedProtocolVersion);
        }
        let flags = MessageFlags(*vstd::slice::slice_index_get(data, 2) & MESSAGE_FLAGS_MASK);
        let msg_len = crate::endian::read_u32(data, 4, e);
        let msg_serial = crate::endian::read_u32(data, 8, e);
        Ok((
            FixedHeaderPart {
                endianness: e,
                message_type: mt,
                flags,
                protocol_version: 1,
                msg_len,
                msg_serial,
            },
            12,
        ))
    }
}

/// Reading back the twelve bytes of a conforming fixed header yields it.
pub proof fn lemma_fixed_roundtrip(h: FixedHeaderPart)
    requires
        h.protocol_version == 1,
        spec_flags_wf(h.flags),
        h.message_type != MessageType::Invalid,
    ensures
        spec_dec_fixed(spec_enc_fixed(h)) == Ok::<(FixedHeaderPart, int), DbusParseError>((
            h,
            12,
        )),
{
    let data = spec_enc_fixed(h);
    crate::endian::lemma_u32_bytes(h.endianness, h.msg_len);
    crate::endian::lemma_u32_bytes(h.endianness, h.msg_serial);
    assert(data.len() == 12);
    assert(data[0] == h.endianness.spec_wire_byte());
    assert(data[1] == spec_message_type_byte(h.message_type));
    assert(data[2] == h.flags.0);
    assert(data[3] == 1);
    assert(data.subrange(4, 8) =~= spec_u32_bytes(h.endianness, h.msg_len));
    assert(data.subrange(8, 12) =~= spec_u32_bytes(h.endianness, h.msg_serial));
    assert(MessageFlags(h.flags.0 & MESSAGE_FLAGS_MASK) == h.flags);
}

/// The typed record of header fields; each is optional, and which must be
/// present depends on the message type.
#[derive(Debug, PartialEq)]
pub struct HeaderFields {
    pub path: Option<DbusObjectPath>,
    pub interface: Option<DbusString>,
    pub member: Option<DbusString>,
    pub error_name: Option<DbusString>,
    pub reply_serial: Option<u32>,
    pub destination: Option<DbusString>,
    pub sender: Option<DbusString>,
    pub signature: Option<DbusSignature>,
    pub unix_fds: Option<u32>,
}

impl Default for HeaderFields {
    fn default() -> (r: Self)
        ensures
            hf_model(r) == spec_empty_fields(),
    {
        HeaderFields {
            path: None,
            interface: None,
            member: None,
            error_name: None,
            reply_serial: None,
            destination: None,
            sender: None,
            signature: None,
            unix_fds: None,
        }
    }
}

/// The mathematical form of the field record.
pub struct SpecHeaderFields {
    pub path: Option<Seq<u8>>,
    pub interface: Option<Seq<u8>>,
    pub member: Option<Seq<u8>>,
    pub error_name: Option<Seq<u8>>,
    pub reply_serial: Option<u32>,
    pub destination: Option<Seq<u8>>,
    pub sender: Option<Seq<u8>>,
    pub signature: Option<Seq<SignatureType>>,
    pub unix_fds: Option<u32>,
}

pub open spec fn spec_empty_fields() -> SpecHeaderFields {
    SpecHeaderFields {
        path: None,
        interface: None,
        member: None,
        error_name: None,
        reply_serial: None,
        destination: None,
        sender: None,
        signature: None,
        unix_fds: None,
    }
}

pub open spec fn hf_model(h: HeaderFields) -> SpecHeaderFields {
    SpecHeaderFields {
        path: match h.path {
            Some(p) => Some(p@),
            None => None,
        },
        interface: match h.interface {
            Some(s) => Some(s@),
            None => None,
        },
        member: match h.member {
            Some(s) => Some(s@),
            None => None,
        },
        error_name: match h.error_name {
            Some(s) => Some(s@),
            None => None,
        },
        reply_serial: h.reply_serial,
        destination: match h.destination {
            Some(s) => Some(s@),
            None => None,
        },
        sender: match h.sender {
            Some(s) => Some(s@),
            None => None,
        },
        signature: match h.signature {
            Some(s) => Some(s@),
            None => None,
        },
        unix_fds: h.unix_fds,
    }
}

impl View for HeaderFields {
    type V = SpecHeaderFields;

    open spec fn view(&self) -> SpecHeaderFields {
        hf_model(*self)
    }
}

/// One wire entry of the header-field array: a byte key and a variant.
pub open spec fn spec_field_entry(code: u8, t: SpecType, v: SpecValue) -> SpecValue {
    SpecValue::DictEntry(
        Box::new(SpecValue::Byte(code)),
        Box::new(SpecValue::Variant(t, Box::new(v))),
    )
}

/// The entry a field of code `c` contributes, if it is present.
pub open spec fn spec_opt_entry(h: SpecHeaderFields, c: int) -> Seq<SpecValue> {
    if c == 1 {
        match h.path {
            Some(bs) => seq![spec_field_entry(1, SpecType::ObjectPath, SpecValue::ObjectPath(bs))],
            None => Seq::empty(),
        }
    } else if c == 2 {
        match h.interface {
            Some(bs) => seq![spec_field_entry(2, SpecType::String, SpecValue::String(bs))],
            None => Seq::empty(),
        }
    } else if c == 3 {
        match h.member {
            Some(bs) => seq![spec_field_entry(3, SpecType::String, SpecValue::String(bs))],
            None => Seq::empty(),
        }
    } else if c == 4 {
        match h.error_name {
            Some(bs) => seq![spec_field_entry(4, SpecType::String, SpecValue::String(bs))],
            None => Seq::empty(),
        }
    } else if c == 5 {
        match h.reply_serial {
            Some(x) => seq![spec_field_entry(5, SpecType::Uint32, SpecValue::Uint32(x))],
            None => Seq::empty(),
        }
    } else if c == 6 {
        match h.destination {
            Some(bs) => seq![spec_field_entry(6, SpecType::String, SpecValue::String(bs))],
            None => Seq::empty(),
        }
    } else if c == 7 {
        match h.sender {
            Some(bs) => seq![spec_field_entry(7, SpecType::String, SpecValue::String(bs))],
            None => Seq::empty(),
        }
    } else if c == 8 {
        match h.signature {
            Some(toks) => seq![
                spec_field_entry(8, SpecType::Signature, SpecValue::Signature(toks)),
            ],
            None => Seq::empty(),
        }
    } else if c == 9 {
        match h.unix_fds {
            Some(x) => seq![spec_field_entry(9, SpecType::Uint32, SpecValue::Uint32(x))],
            None => Seq::empty(),
        }
    } else {
        Seq::empty()
    }
}

/// The entries of the fields with codes `c` and up, in code order.
pub open spec fn spec_entries_from(h: SpecHeaderFields, c: int) -> Seq<SpecValue>
    decreases 10 - c,
{
    if c < 1 || c > 9 {
        Seq::empty()
    } else {
        spec_opt_entry(h, c) + spec_entries_from(h, c + 1)
    }
}

/// All wire entries of the record, in code order.
pub open spec fn spec_header_entries(h: SpecHeaderFields) -> Seq<SpecValue> {
    spec_entries_from(h, 1)
}

/// The type of one header-field entry on the wire: `{yv}`.
pub open spec fn spec_entry_type() -> SpecType {
    SpecType::DictEntry(Box::new(SpecType::Byte), Box::new(SpecType::Variant))
}

/// The value the whole field array rides as: `a{yv}`.
pub open spec fn spec_fields_value(h: SpecHeaderFields) -> SpecValue {
    SpecValue::Array(spec_entry_type(), spec_header_entries(h))
}

/// Folds one decoded entry into the record: a known code lands in its
/// field, a repeated code is refused, an unknown code is skipped, and an
/// entry that is not a byte-keyed variant of the field's type is a
/// mismatch.
pub open spec fn spec_fold_one(entry: SpecValue, acc: SpecHeaderFields) -> Result<
    SpecHeaderFields,
    DbusParseError,
> {
    match entry {
        SpecValue::DictEntry(k, v) => match (*k, *v) {
            (SpecValue::Byte(code), SpecValue::Variant(_, inner)) => {
                if code == 1 {
                    match *inner {
                        SpecValue::ObjectPath(bs) => {
                            if acc.path is Some {
                                Err(DbusParseError::InvalidHeaderField)
                            } else {
                                Ok(SpecHeaderFields { path: Some(bs), ..acc })
                            }
                        },
                        _ => Err(DbusParseError::TypeMismatch),
                    }
                } else if code == 2 {
                    match *inner {
                        SpecValue::String(bs) => {
                            if acc.interface is Some {
                                Err(DbusParseError::InvalidHeaderField)
                            } else {
                                Ok(SpecHeaderFields { interface: Some(bs), ..acc })
                            }
                        },
                        _ => Err(DbusParseError::TypeMismatch),
                    }
                } else if code == 3 {
                    match *inner {
                        SpecValue::String(bs) => {
                            if acc.member is Some {
                                Err(DbusParseError::InvalidHeaderField)
                            } else {
                                Ok(SpecHeaderFields { member: Some(bs), ..acc })
                            }
                        },
                        _ => Err(DbusParseError::TypeMismatch),
                    }
                } else if code == 4 {
                    match *inner {
                        SpecValue::String(bs) => {
                            if acc.error_name is Some {
                                Err(DbusParseError::InvalidHeaderField)
                            } else {
                                Ok(SpecHeaderFields { error_name: Some(bs), ..acc })
                            }
                        },
                        _ => Err(DbusParseError::TypeMismatch),
                    }
                } else if code == 5 {
                    match *inner {
                        SpecValue::Uint32(x) => {
                            if acc.reply_serial is Some {
                                Err(DbusParseError::InvalidHeaderField)
                            } else {
                                Ok(SpecHeaderFields { reply_serial: Some(x), ..acc })
                            }
                        },
                        _ => Err(DbusParseError::TypeMismatch),
                    }
                } else if code == 6 {
                    match *inner {
                        SpecValue::String(bs) => {
                            if acc.destination is Some {
                                Err(DbusParseError::InvalidHeaderField)
                            } else {
                                Ok(SpecHeaderFields { destination: Some(bs), ..acc })
                            }
                        },
                        _ => Err(DbusParseError::TypeMismatch),
                    }
                } else if code == 7 {
                    match *inner {
                        SpecValue::String(bs) => {
                            if acc.sender is Some {
                                Err(DbusParseError::InvalidHeaderField)
                            } else {
                                Ok(SpecHeaderFields { sender: Some(bs), ..acc })
                            }
                        },
                        _ => Err(DbusParseError::TypeMismatch),
                    }
                } else if code == 8 {
                    match *inner {
                        SpecValue::Signature(toks) => {
                            if acc.signature is Some {
                                Err(DbusParseError::InvalidHeaderField)
                            } else {
                                Ok(SpecHeaderFields { signature: Some(toks), ..acc })
                            }
                        },
                        _ => Err(DbusParseError::TypeMismatch),
                    }
                } else if code == 9 {
                    match *inner {
                        SpecValue::Uint32(x) => {
                            if acc.unix_fds is Some {
                                Err(DbusParseError::InvalidHeaderField)
                            } else {
                                Ok(SpecHeaderFields { unix_fds: Some(x), ..acc })
                            }
                        },
                        _ => Err(DbusParseError::TypeMismatch),
                    }
                } else {
                    Ok(acc)
                }
            },
            _ => Err(DbusParseError::TypeMismatch),
        },
        _ => Err(DbusParseError::TypeMismatch),
    }
}

/// Folds decoded entries into the record, one after the other.
pub open spec fn spec_fold_fields(
    entries: Seq<SpecValue>,
    acc: SpecHeaderFields,
) -> Result<SpecHeaderFields, DbusParseError>
    decreases entries.len(),
{
    if entries.len() == 0 {
        Ok(acc)
    } else {
        match spec_fold_one(entries[0], acc) {
            Err(k) => Err(k),
            Ok(a2) => spec_fold_fields(entries.drop_first(), a2),
        }
    }
}

/// The accumulator agrees with `h` on every code below `c` and is empty
/// from `c` on.
pub open spec fn acc_matches(h: SpecHeaderFields, acc: SpecHeaderFields, c: int) -> bool {
    &&& (if c > 1 {
        acc.path == h.path
    } else {
        acc.path is None
    })
    &&& (if c > 2 {
        acc.interface == h.interface
    } else {
        acc.interface is None
    })
    &&& (if c > 3 {
        acc.member == h.member
    } else {
        acc.member is None
    })
    &&& (if c > 4 {
        acc.error_name == h.error_name
    } else {
        acc.error_name is None
    })
    &&& (if c > 5 {
        acc.reply_serial == h.reply_serial
    } else {
        acc.reply_serial is None
    })
    &&& (if c > 6 {
        acc.destination == h.destination
    } else {
        acc.destination is None
    })
    &&& (if c > 7 {
        acc.sender == h.sender
    } else {
        acc.sender is None
    })
    &&& (if c > 8 {
        acc.signature == h.signature
    } else {
        acc.signature is None
    })
    &&& (if c > 9 {
        acc.unix_fds == h.unix_fds
    } else {
        acc.unix_fds is None
    })
}

/// Folding the entries of a record back always restores the record.
pub proof fn lemma_fold_entries_from(h: SpecHeaderFields, acc: SpecHeaderFields, c: int)
    requires
        1 <= c <= 10,
        acc_matches(h, acc, c),
    ensures
        spec_fold_fields(spec_entries_from(h, c), acc) == Ok::<_, DbusParseError>(h),
    decreases 10 - c,
{
    if c == 10 {
        assert(spec_entries_from(h, c).len() == 0);
        assert(acc == h);
    } else {
        let oe = spec_opt_entry(h, c);
        let rest = spec_entries_from(h, c + 1);
        if oe.len() == 0 {
            assert(spec_entries_from(h, c) =~= rest);
            lemma_fold_entries_from(h, acc, c + 1);
        } else {
            let es = spec_entries_from(h, c);
            assert(es == oe + rest);
            assert(es[0] == oe[0]);
            assert(es.drop_first() =~= rest);
            let acc2 = (if c == 1 {
                SpecHeaderFields { path: h.path, ..acc }
            } else if c == 2 {
                SpecHeaderFields { interface: h.interface, ..acc }
            } else if c == 3 {
                SpecHeaderFields { member: h.member, ..acc }
            } else if c == 4 {
                SpecHeaderFields { error_name: h.error_name, ..acc }
            } else if c == 5 {
                SpecHeaderFields { reply_serial: h.reply_serial, ..acc }
            } else if c == 6 {
                SpecHeaderFields { destination: h.destination, ..acc }
            } else if c == 7 {
                SpecHeaderFields { sender: h.sender, ..acc }
            } else if c == 8 {
                SpecHeaderFields { signature: h.signature, ..acc }
            } else {
                SpecHeaderFields { unix_fds: h.unix_fds, ..acc }
            });
            assert(spec_fold_fields(es, acc) == spec_fold_fields(rest, acc2));
            assert(acc_matches(h, acc2, c + 1));
            lemma_fold_entries_from(h, acc2, c + 1);
        }
    }
}

/// Folding the entries a record writes yields the record back.
pub proof fn lemma_fold_entries(h: SpecHeaderFields)
    ensures
        spec_fold_fields(spec_header_entries(h), spec_empty_fields()) == Ok::<
            _,
            DbusParseError,
        >(h),
{
    lemma_fold_entries_from(h, spec_empty_fields(), 1);
}

/// Appends one header-field entry: a byte key and a variant.
fn push_entry(
    items: &mut Vec<DbusTypeContainer>,
    code: u8,
    var_type: CompleteType,
    value: DbusTypeContainer,
)
    ensures
        value_model_list(final(items)@) == value_model_list(old(items)@) + seq![
            spec_field_entry(code, var_type@, value@),
        ],
{
    let ghost tm = var_type@;
    let ghost vm = value@;
    let variant = DbusTypeContainer::Variant(Box::new(DbusVariant { var_type, value }));
    proof {
        assert(value_model(variant) == SpecValue::Variant(tm, Box::new(vm)));
    }
    let entry = DbusTypeContainer::DictEntry(
        Box::new(DbusDictEntry { key: DbusTypeContainer::Byte(code), value: variant }),
    );
    proof {
        assert(value_model(entry) == SpecValue::DictEntry(
            Box::new(value_model(DbusTypeContainer::Byte(code))),
            Box::new(value_model(variant)),
        ));
        assert(value_model(DbusTypeContainer::Byte(code)) == SpecValue::Byte(code));
        assert(value_model(entry) == spec_field_entry(code, tm, vm));
        crate::value::lemma_value_model_list_push(items@, entry);
    }
    items.push(entry);
}

/// Appends the entries of codes 1 to 5 that are present.
fn build_entries_lo(h: &HeaderFields, items: &mut Vec<DbusTypeContainer>)
    ensures
        value_model_list(final(items)@) == value_model_list(old(items)@) + spec_opt_entry(
            hf_model(*h),
            1,
        ) + spec_opt_entry(hf_model(*h), 2) + spec_opt_entry(hf_model(*h), 3) + spec_opt_entry(
            hf_model(*h),
            4,
        ) + spec_opt_entry(hf_model(*h), 5),
{
    let ghost hm = hf_model(*h);
    let ghost base = value_model_list(items@);
    if let Some(x) = &h.path {
        push_entry(items, 1, CompleteType::ObjectPath, DbusTypeContainer::ObjectPath(x.clone()));
    }
    proof {
        assert(value_model_list(items@) =~= base + spec_opt_entry(hm, 1));
    }
    let ghost d1 = value_model_list(items@);
    if let Some(x) = &h.interface {
        push_entry(items, 2, CompleteType::String, DbusTypeContainer::String(x.clone()));
    }
    proof {
        assert(value_model_list(items@) =~= d1 + spec_opt_entry(hm, 2));
    }
    let ghost d2 = value_model_list(items@);
    if let Some(x) = &h.member {
        push_entry(items, 3, CompleteType::String, DbusTypeContainer::String(x.clone()));
    }
    proof {
        assert(value_model_list(items@) =~= d2 + spec_opt_entry(hm, 3));
    }
    let ghost d3 = value_model_list(items@);
    if let Some(x) = &h.error_name {
        push_entry(items, 4, CompleteType::String, DbusTypeContainer::String(x.clone()));
    }
    proof {
        assert(value_model_list(items@) =~= d3 + spec_opt_entry(hm, 4));
    }
    let ghost d4 = value_model_list(items@);
    if let Some(x) = &h.reply_serial {
        push_entry(items, 5, CompleteType::Uint32, DbusTypeContainer::Uint32(*x));
    }
    proof {
        assert(value_model_list(items@) =~= d4 + spec_opt_entry(hm, 5));
        assert(value_model_list(items@) =~= base + spec_opt_entry(hm, 1) + spec_opt_entry(hm, 2)
            + spec_opt_entry(hm, 3) + spec_opt_entry(hm, 4) + spec_opt_entry(hm, 5));
    }
}

/// Appends the entries of codes 6 to 9 that are present.
fn build_entries_hi(h: &HeaderFields, items: &mut Vec<DbusTypeContainer>)
    ensures
        value_model_list(final(items)@) == value_model_list(old(items)@) + spec_opt_entry(
            hf_model(*h),
            6,
        ) + spec_opt_entry(hf_model(*h), 7) + spec_opt_entry(hf_model(*h), 8) + spec_opt_entry(
            hf_model(*h),
            9,
        ),
{
    let ghost hm = hf_model(*h);
    let ghost base = value_model_list(items@);
    if let Some(x) = &h.destination {
        push_entry(items, 6, CompleteType::String, DbusTypeContainer::String(x.clone()));
    }
    proof {
        assert(value_model_list(items@) =~= base + spec_opt_entry(hm, 6));
    }
    let ghost d6 = value_model_list(items@);
    if let Some(x) = &h.sender {
        push_entry(items, 7, CompleteType::String, DbusTypeContainer::String(x.clone()));
    }
    proof {
        assert(value_model_list(items@) =~= d6 + spec_opt_entry(hm, 7));
    }
    let ghost d7 = value_model_list(items@);
    if let Some(x) = &h.signature {
        push_entry(items, 8, CompleteType::Signature, DbusTypeContainer::Signature(x.clone()));
    }
    proof {
        assert(value_model_list(items@) =~= d7 + spec_opt_entry(hm, 8));
    }
    let ghost d8 = value_model_list(items@);
    if let Some(x) = &h.unix_fds {
        push_entry(items, 9, CompleteType::Uint32, DbusTypeContainer::Uint32(*x));
    }
    proof {
        assert(value_model_list(items@) =~= d8 + spec_opt_entry(hm, 9));
        assert(value_model_list(items@) =~= base + spec_opt_entry(hm, 6) + spec_opt_entry(hm, 7)
            + spec_opt_entry(hm, 8) + spec_opt_entry(hm, 9));
    }
}

/// Nine concatenations nest the same whichever way they lean.
proof fn lemma_reassoc9<A>(
    e1: Seq<A>,
    e2: Seq<A>,
    e3: Seq<A>,
    e4: Seq<A>,
    e5: Seq<A>,
    e6: Seq<A>,
    e7: Seq<A>,
    e8: Seq<A>,
    e9: Seq<A>,
)
    ensures
        e1 + (e2 + (e3 + (e4 + (e5 + (e6 + (e7 + (e8 + (e9 + Seq::<A>::empty())))))))) == Seq::<
            A,
        >::empty() + e1 + e2 + e3 + e4 + e5 + e6 + e7 + e8 + e9,
{
    assert(e1 + (e2 + (e3 + (e4 + (e5 + (e6 + (e7 + (e8 + (e9 + Seq::<A>::empty()))))))))
        =~= Seq::<A>::empty() + e1 + e2 + e3 + e4 + e5 + e6 + e7 + e8 + e9);
}

/// The entries of a record are its nine optional singletons, in order.
proof fn lemma_entries_assemble(hm: SpecHeaderFields)
    ensures
        spec_entries_from(hm, 1) == Seq::<SpecValue>::empty() + spec_opt_entry(hm, 1)
            + spec_opt_entry(hm, 2) + spec_opt_entry(hm, 3) + spec_opt_entry(hm, 4)
            + spec_opt_entry(hm, 5) + spec_opt_entry(hm, 6) + spec_opt_entry(hm, 7)
            + spec_opt_entry(hm, 8) + spec_opt_entry(hm, 9),
{
    assert(spec_entries_from(hm, 10) == Seq::<SpecValue>::empty());
    assert(spec_entries_from(hm, 9) == spec_opt_entry(hm, 9) + spec_entries_from(hm, 10));
    assert(spec_entries_from(hm, 8) == spec_opt_entry(hm, 8) + spec_entries_from(hm, 9));
    assert(spec_entries_from(hm, 7) == spec_opt_entry(hm, 7) + spec_entries_from(hm, 8));
    assert(spec_entries_from(hm, 6) == spec_opt_entry(hm, 6) + spec_entries_from(hm, 7));
    assert(spec_entries_from(hm, 5) == spec_opt_entry(hm, 5) + spec_entries_from(hm, 6));
    assert(spec_entries_from(hm, 4) == spec_opt_entry(hm, 4) + spec_entries_from(hm, 5));
    assert(spec_entries_from(hm, 3) == spec_opt_entry(hm, 3) + spec_entries_from(hm, 4));
    assert(spec_entries_from(hm, 2) == spec_opt_entry(hm, 2) + spec_entries_from(hm, 3));
    assert(spec_entries_from(hm, 1) == spec_opt_entry(hm, 1) + spec_entries_from(hm, 2));
    lemma_reassoc9(
        spec_opt_entry(hm, 1),
        spec_opt_entry(hm, 2),
        spec_opt_entry(hm, 3),
        spec_opt_entry(hm, 4),
        spec_opt_entry(hm, 5),
        spec_opt_entry(hm, 6),
        spec_opt_entry(hm, 7),
        spec_opt_entry(hm, 8),
        spec_opt_entry(hm, 9),
    );
}

/// Builds the wire entries of the record, in code order.
#[verifier::rlimit(100)]
#[verifier::spinoff_prover]
pub fn build_field_entries(h: &HeaderFields) -> (r: Vec<DbusTypeContainer>)
    ensures
        value_model_list(r@) == spec_header_entries(h@),
{
    let ghost hm = hf_model(*h);
    let mut items: Vec<DbusTypeContainer> = Vec::new();
    proof {
        assert(value_model_list(items@) =~= Seq::<SpecValue>::empty());
    }
    build_entries_lo(h, &mut items);
    build_entries_hi(h, &mut items);
    proof {
        lemma_entries_assemble(hm);
    }
    items
}

/// Folds one decoded entry into the record, as [`spec_fold_one`] does.
#[verifier::rlimit(100)]
#[verifier::spinoff_prover]
fn fold_one(entry: &DbusTypeContainer, acc: HeaderFields) -> (r: Result<
    HeaderFields,
    DbusParseError,
>)
    ensures
        (match r {
            Ok(a2) => spec_fold_one(value_model(*entry), hf_model(acc)) == Ok::<
                _,
                DbusParseError,
            >(hf_model(a2)),
            Err(k) => spec_fold_one(value_model(*entry), hf_model(acc)) == Err::<
                SpecHeaderFields,
                _,
            >(k),
        }),
{
    let de = match entry {
        DbusTypeContainer::DictEntry(de) => de,
        _ => {
            return Err(DbusParseError::TypeMismatch);
        },
    };
    proof {
        assert(value_model(*entry) == SpecValue::DictEntry(
            Box::new(value_model((**de).key)),
            Box::new(value_model((**de).value)),
        ));
    }
    let code: u8 = match &(**de).key {
        DbusTypeContainer::Byte(c) => *c,
        _ => {
            return Err(DbusParseError::TypeMismatch);
        },
    };
    let bv = match &(**de).value {
        DbusTypeContainer::Variant(bv) => bv,
        _ => {
            return Err(DbusParseError::TypeMismatch);
        },
    };
    proof {
        assert(value_model((**de).value) == SpecValue::Variant(
            (**bv).var_type@,
            Box::new(value_model((**bv).value)),
        ));
    }
    let inner = &(**bv).value;
    if code == 1 {
        match inner {
            DbusTypeContainer::ObjectPath(p) => {
                if acc.path.is_some() {
                    Err(DbusParseError::InvalidHeaderField)
                } else {
                    Ok(HeaderFields { path: Some(p.clone()), ..acc })
                }
            },
            _ => Err(DbusParseError::TypeMismatch),
        }
    } else if code == 2 {
        match inner {
            DbusTypeContainer::String(x) => {
                if acc.interface.is_some() {
                    Err(DbusParseError::InvalidHeaderField)
                } else {
                    Ok(HeaderFields { interface: Some(x.clone()), ..acc })
                }
            },
            _ => Err(DbusParseError::TypeMismatch),
        }
    } else if code == 3 {
        match inner {
            DbusTypeContainer::String(x) => {
                if acc.member.is_some() {
                    Err(DbusParseError::InvalidHeaderField)
                } else {
                    Ok(HeaderFields { member: Some(x.clone()), ..acc })
                }
            },
            _ => Err(DbusParseError::TypeMismatch),
        }
    } else if code == 4 {
        match inner {
            DbusTypeContainer::String(x) => {
                if acc.error_name.is_some() {
                    Err(DbusParseError::InvalidHeaderField)
                } else {
                    Ok(HeaderFields { error_name: Some(x.clone()), ..acc })
                }
            },
            _ => Err(DbusParseError::TypeMismatch),
        }
    } else if code == 5 {
        match inner {
            DbusTypeContainer::Uint32(x) => {
                if acc.reply_serial.is_some() {
                    Err(DbusParseError::InvalidHeaderField)
                } else {
                    Ok(HeaderFields { reply_serial: Some(*x), ..acc })
                }
            },
            _ => Err(DbusParseError::TypeMismatch),
        }
    } else if code == 6 {
        match inner {
            DbusTypeContainer::String(x) => {
                if acc.destination.is_some() {
                    Err(DbusParseError::InvalidHeaderField)
                } else {
                    Ok(HeaderFields { destination: Some(x.clone()), ..acc })
                }
            },
            _ => Err(DbusParseError::TypeMismatch),
        }
    } else if code == 7 {
        match inner {
            DbusTypeContainer::String(x) => {
                if acc.sender.is_some() {
                    Err(DbusParseError::InvalidHeaderField)
                } else {
                    Ok(HeaderFields { sender: Some(x.clone()), ..acc })
                }
            },
            _ => Err(DbusParseError::TypeMismatch),
        }
    } else if code == 8 {
        match inner {
            DbusTypeContainer::Signature(x) => {
                if acc.signature.is_some() {
                    Err(DbusParseError::InvalidHeaderField)
                } else {
                    Ok(HeaderFields { signature: Some(x.clone()), ..acc })
                }
            },
            _ => Err(DbusParseError::TypeMismatch),
        }
    } else if code == 9 {
        match inner {
            DbusTypeContainer::Uint32(x) => {
                if acc.unix_fds.is_some() {
                    Err(DbusParseError::InvalidHeaderField)
                } else {
                    Ok(HeaderFields { unix_fds: Some(*x), ..acc })
                }
            },
            _ => Err(DbusParseError::TypeMismatch),
        }
    } else {
        Ok(acc)
    }
}

/// Folds decoded entries into the typed record.
pub fn fold_header_fields(entries: &Vec<DbusTypeContainer>) -> (r: Result<
    HeaderFields,
    DbusParseError,
>)
    ensures
        (match r {
            Ok(hf) => spec_fold_fields(value_model_list(entries@), spec_empty_fields()) == Ok::<
                _,
                DbusParseError,
            >(hf_model(hf)),
            Err(k) => spec_fold_fields(value_model_list(entries@), spec_empty_fields()) == Err::<
                SpecHeaderFields,
                _,
            >(k),
        }),
{
    let ghost ml = value_model_list(entries@);
    let n = entries.len();
    let mut acc = HeaderFields::default();
    let mut i: usize = 0;
    proof {
        crate::value::lemma_value_model_list(entries@);
        assert(ml.skip(0) =~= ml);
    }
    while i < n
        invariant
            i <= n,
            n == entries@.len(),
            ml == value_model_list(entries@),
            ml.len() == n,
            forall|j: int| 0 <= j < n ==> ml[j] == value_model(#[trigger] entries@[j]),
            spec_fold_fields(ml, spec_empty_fields()) == spec_fold_fields(
                ml.skip(i as int),
                hf_model(acc),
            ),
        decreases n - i,
    {
        let ghost s = ml.skip(i as int);
        proof {
            assert(s.len() > 0);
            assert(s[0] == ml[i as int]);
            assert(s.drop_first() =~= ml.skip(i + 1));
        }
        match fold_one(&entries[i], acc) {
            Err(k) => {
                return Err(k);
            },
            Ok(a2) => {
                acc = a2;
            },
        }
        i = i + 1;
    }
    proof {
        assert(ml.skip(n as int) =~= Seq::<SpecValue>::empty());
    }
    Ok(acc)
}

/// The whole header: the fixed prefix and the typed field record.
#[derive(Debug, PartialEq)]
pub struct Header {
    pub fixed: FixedHeaderPart,
    pub fields: HeaderFields,
}

/// Reads the fixed header and the field array from the front of a buffer;
/// the position returned is the end of the array, before the padding that
/// closes the header.
pub open spec fn spec_dec_header(data: Seq<u8>) -> Result<
    ((FixedHeaderPart, SpecHeaderFields), int),
    DbusParseError,
> {
    match spec_dec_fixed(data) {
        Err(k) => Err(k),
        Ok((fh, _)) => {
            match crate::dec::spec_dec_value(
                data,
                12,
                SpecType::Array(Box::new(spec_entry_type())),
                fh.endianness,
            ) {
                Err(k) => Err(k),
                Ok((av, hp)) => match av {
                    SpecValue::Array(_, entries) => match spec_fold_fields(
                        entries,
                        spec_empty_fields(),
                    ) {
                        Err(k) => Err(k),
                        Ok(hf) => Ok(((fh, hf), hp)),
                    },
                    _ => Err(DbusParseError::TypeMismatch),
                },
            }
        },
    }
}

impl Header {
    /// Reads the fixed header and the field array; returns the header and
    /// the end of the array.
    pub fn unmarshal(data: &[u8]) -> (r: Result<(Header, usize), DbusParseError>)
        ensures
            (match r {
                Ok((h, q)) => spec_dec_header(data@) == Ok::<
                    ((FixedHeaderPart, SpecHeaderFields), int),
                    DbusParseError,
                >(((h.fixed, hf_model(h.fields)), q as int)) && q <= data@.len(),
                Err(k) => spec_dec_header(data@) == Err::<
                    ((FixedHeaderPart, SpecHeaderFields), int),
                    _,
                >(k),
            }),
    {
        let (fixed, _) = match FixedHeaderPart::unmarshal(data) {
            Ok(x) => x,
            Err(k) => {
                return Err(k);
            },
        };
        let entry_type = CompleteType::DictEntry(
            Box::new(CompleteType::Byte),
            Box::new(CompleteType::Variant),
        );
        proof {
            assert(entry_type@ == SpecType::DictEntry(
                Box::new(crate::types::type_model(CompleteType::Byte)),
                Box::new(crate::types::type_model(CompleteType::Variant)),
            ));
            assert(entry_type@ == spec_entry_type());
        }
        let arr_type = CompleteType::Array(Box::new(entry_type));
        proof {
            assert(arr_type@ == SpecType::Array(Box::new(spec_entry_type())));
        }
        let (av, hp) = match crate::decode::decode_value_at(data, 12, &arr_type, fixed.endianness) {
            Ok(x) => x,
            Err(k) => {
                return Err(k);
            },
        };
        let arr = match av {
            DbusTypeContainer::Array(arr) => arr,
            _ => {
                return Err(DbusParseError::TypeMismatch);
            },
        };
        proof {
            assert(value_model(DbusTypeContainer::Array(arr)) == SpecValue::Array(
                arr.elem_type@,
                value_model_list(arr.items@),
            ));
        }
        match fold_header_fields(&arr.items) {
            Err(k) => Err(k),
            Ok(fields) => Ok((Header { fixed, fields }, hp)),
        }
    }

    /// Writes the fixed header and the field array, without the padding
    /// that closes the header.
    pub fn marshal(&self) -> (r: Vec<u8>)
        requires
            crate::codec::spec_wf_value(
                spec_fields_value(hf_model(self.fields)),
                self.fixed.endianness,
                12,
            ),
            12 + crate::codec::spec_enc_value(
                spec_fields_value(hf_model(self.fields)),
                self.fixed.endianness,
                12,
            ).len() <= usize::MAX,
        ensures
            r@ == spec_enc_fixed(self.fixed) + crate::codec::spec_enc_value(
                spec_fields_value(hf_model(self.fields)),
                self.fixed.endianness,
                12,
            ),
    {
        let mut out = self.fixed.marshal();
        let entries = build_field_entries(&self.fields);
        let entry_type = CompleteType::DictEntry(
            Box::new(CompleteType::Byte),
            Box::new(CompleteType::Variant),
        );
        proof {
            assert(entry_type@ == SpecType::DictEntry(
                Box::new(crate::types::type_model(CompleteType::Byte)),
                Box::new(crate::types::type_model(CompleteType::Variant)),
            ));
            assert(entry_type@ == spec_entry_type());
        }
        let fvv = DbusTypeContainer::Array(DbusArray { elem_type: entry_type, items: entries });
        proof {
            assert(fvv@ == SpecValue::Array(
                fvv->Array_0.elem_type@,
                value_model_list(fvv->Array_0.items@),
            ));
            assert(fvv@ == spec_fields_value(hf_model(self.fields)));
        }
        crate::enc::enc_into(&fvv, self.fixed.endianness, 12, &mut out);
        out
    }
}

} // verus!
