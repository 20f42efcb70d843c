//! End-to-end checks of the codec: the concrete byte layouts of the wire
//! format, the error taxonomy, and round trips through encode and decode.

use dbus_codec::decode::{decode_value, decode_value_at};
use dbus_codec::enc::encode_value;
use dbus_codec::header::Header;
use dbus_codec::message::{decode_message, encode_message, Message};
use dbus_codec::signature::render_signature;
use dbus_codec::types::parse_signature;
use dbus_codec::{
    CompleteType, DbusArray, DbusBoolean, DbusObjectPath, DbusParseError, DbusSignature,
    DbusString, DbusStruct, DbusTypeContainer, DbusVariant, FixedHeaderPart, HeaderFields,
    MessageEndianness, MessageFlags, MessageType, Signature, SignatureType,
};

const LE_BOOL: [u8; 4] = [1, 0, 0, 0];
const BE_BOOL: [u8; 4] = [0, 0, 0, 1];

fn text(s: &str) -> DbusString {
    DbusString(s.as_bytes().to_vec())
}

fn path(p: &str) -> DbusObjectPath {
    DbusObjectPath(p.as_bytes().to_vec())
}

fn sig(toks: Vec<SignatureType>) -> DbusSignature {
    DbusSignature(Signature::new(toks))
}

fn fixed(
    e: MessageEndianness,
    mt: MessageType,
    msg_len: u32,
    msg_serial: u32,
) -> FixedHeaderPart {
    FixedHeaderPart {
        endianness: e,
        message_type: mt,
        flags: MessageFlags(0),
        protocol_version: 1,
        msg_len,
        msg_serial,
    }
}

#[test]
fn marshal_bool() {
    let b = DbusBoolean::from(true);
    let b_bytes_le = b.marshal(MessageEndianness::LittleEndian);
    assert_eq!(LE_BOOL.to_vec(), b_bytes_le);

    let b_bytes_be = b.marshal(MessageEndianness::BigEndian);
    assert_eq!(BE_BOOL.to_vec(), b_bytes_be);
}

#[test]
fn unmarshal_bool() {
    let (b, _) = DbusBoolean::unmarshal(&LE_BOOL, MessageEndianness::LittleEndian).unwrap();
    assert_eq!(b.value(), true);

    let (b, _) = DbusBoolean::unmarshal(&BE_BOOL, MessageEndianness::BigEndian).unwrap();
    assert_eq!(b.value(), true);
}

#[test]
fn empty_method_call_round_trips() {
    let msg = Message {
        header: Header {
            fixed: fixed(MessageEndianness::LittleEndian, MessageType::MethodCall, 0, 1),
            fields: HeaderFields {
                path: Some(path("/")),
                member: Some(text("x")),
                ..HeaderFields::default()
            },
        },
        message: vec![],
    };
    let bytes = encode_message(&msg).unwrap();
    assert_eq!(&bytes[0..12], &[0x6c, 1, 0, 1, 0, 0, 0, 0, 1, 0, 0, 0]);
    assert_eq!(bytes.len() % 8, 0);
    let (back, used) = decode_message(&bytes).unwrap();
    assert_eq!(used, bytes.len());
    assert_eq!(back, msg);
}

#[test]
fn uint32_body_big_endian() {
    let body_bytes = encode_value(
        &DbusTypeContainer::Uint32(0x01020304),
        MessageEndianness::BigEndian,
        0,
    );
    assert_eq!(body_bytes, vec![1, 2, 3, 4]);

    let msg = Message {
        header: Header {
            fixed: fixed(MessageEndianness::BigEndian, MessageType::MethodCall, 4, 9),
            fields: HeaderFields {
                path: Some(path("/")),
                member: Some(text("m")),
                signature: Some(sig(vec![SignatureType::Uint32])),
                ..HeaderFields::default()
            },
        },
        message: vec![DbusTypeContainer::Uint32(0x01020304)],
    };
    let bytes = encode_message(&msg).unwrap();
    assert_eq!(&bytes[bytes.len() - 4..], &[1, 2, 3, 4]);
    let (back, used) = decode_message(&bytes).unwrap();
    assert_eq!(used, bytes.len());
    assert_eq!(back.header.fixed.msg_len, 4);
    assert_eq!(back, msg);
}

#[test]
fn string_hi_little_endian() {
    let v = DbusTypeContainer::String(text("hi"));
    let bytes = encode_value(&v, MessageEndianness::LittleEndian, 0);
    assert_eq!(bytes, vec![2, 0, 0, 0, 0x68, 0x69, 0]);
    let (back, used) = decode_value_at(
        &bytes,
        0,
        &CompleteType::String,
        MessageEndianness::LittleEndian,
    )
    .unwrap();
    assert_eq!(used, 7);
    assert_eq!(back, v);
}

#[test]
fn signature_of_dict_of_variants() {
    let parsed = parse_signature(b"a{sv}").unwrap();
    assert_eq!(
        parsed,
        Signature::new(vec![
            SignatureType::Array,
            SignatureType::DictStart,
            SignatureType::String,
            SignatureType::Variant,
            SignatureType::DictEnd,
        ])
    );
    assert_eq!(render_signature(&parsed), b"a{sv}".to_vec());
}

#[test]
fn array_of_two_uint32() {
    let v = DbusTypeContainer::Array(DbusArray {
        elem_type: CompleteType::Uint32,
        items: vec![DbusTypeContainer::Uint32(1), DbusTypeContainer::Uint32(2)],
    });
    let bytes = encode_value(&v, MessageEndianness::LittleEndian, 0);
    assert_eq!(bytes, vec![8, 0, 0, 0, 1, 0, 0, 0, 2, 0, 0, 0]);
    let arr_type = CompleteType::Array(Box::new(CompleteType::Uint32));
    let (back, used) =
        decode_value_at(&bytes, 0, &arr_type, MessageEndianness::LittleEndian).unwrap();
    assert_eq!(used, 12);
    assert_eq!(back, v);
}

#[test]
fn variant_wrapping_string() {
    let v = DbusTypeContainer::Variant(Box::new(DbusVariant {
        var_type: CompleteType::String,
        value: DbusTypeContainer::String(text("ok")),
    }));
    let bytes = encode_value(&v, MessageEndianness::LittleEndian, 0);
    assert_eq!(
        bytes,
        vec![1, 0x73, 0, 0, 2, 0, 0, 0, 0x6f, 0x6b, 0]
    );
    let (back, used) =
        decode_value_at(&bytes, 0, &CompleteType::Variant, MessageEndianness::LittleEndian)
            .unwrap();
    assert_eq!(used, 11);
    assert_eq!(back, v);
}

#[test]
fn endianness_symmetry_on_a_struct() {
    let make = || {
        DbusTypeContainer::Struct(DbusStruct(vec![
            DbusTypeContainer::Uint16(0xbeef),
            DbusTypeContainer::String(text("sym")),
        ]))
    };
    let t = CompleteType::Struct(vec![CompleteType::Uint16, CompleteType::String]);
    let le = MessageEndianness::LittleEndian;
    let be = MessageEndianness::BigEndian;
    let le_bytes = encode_value(&make(), le, 0);
    let be_bytes = encode_value(&make(), be, 0);
    let (from_le, le_used) = decode_value_at(&le_bytes, 0, &t, le).unwrap();
    let (from_be, be_used) = decode_value_at(&be_bytes, 0, &t, be).unwrap();
    assert_eq!(from_le, from_be);
    assert_eq!(le_used, be_used);
}

#[test]
fn object_path_grammar() {
    assert!(DbusObjectPath::try_from(b"/".to_vec()).is_ok());
    assert!(DbusObjectPath::try_from(b"/a".to_vec()).is_ok());
    assert!(DbusObjectPath::try_from(b"/org/freedesktop/DBus_1".to_vec()).is_ok());
    let bad = [
        &b""[..],
        &b"a"[..],
        &b"/a/"[..],
        &b"//"[..],
        &b"/a//b"[..],
        &b"/a-b"[..],
        &b"/a b"[..],
    ];
    for p in bad.iter() {
        assert_eq!(
            DbusObjectPath::try_from(p.to_vec()),
            Err(DbusParseError::MalformedObjectPath)
        );
    }
}

#[test]
fn malformed_object_path_on_decode() {
    // length 2, "a/", NUL: does not start with a slash
    let bytes = [2, 0, 0, 0, 0x61, 0x2f, 0];
    let r = decode_value_at(
        &bytes,
        0,
        &CompleteType::ObjectPath,
        MessageEndianness::LittleEndian,
    );
    assert_eq!(r, Err(DbusParseError::MalformedObjectPath));
}

#[test]
fn array_length_overflow_refused() {
    // declared payload length 2^26 + 1
    let bytes = [1, 0, 0, 4, 0, 0, 0, 0];
    let arr_type = CompleteType::Array(Box::new(CompleteType::Byte));
    let r = decode_value_at(&bytes, 0, &arr_type, MessageEndianness::LittleEndian);
    assert_eq!(r, Err(DbusParseError::ArrayLengthOverflow));

    // exactly 2^26 passes the bound and then runs out of input
    let boundary = [0, 0, 0, 4, 0, 0, 0, 0];
    let r = decode_value_at(&boundary, 0, &arr_type, MessageEndianness::LittleEndian);
    assert_eq!(r, Err(DbusParseError::NeedMoreBytes));
}

#[test]
fn invalid_boolean_word() {
    let bytes = [2, 0, 0, 0];
    let r = decode_value_at(&bytes, 0, &CompleteType::Boolean, MessageEndianness::LittleEndian);
    assert_eq!(r, Err(DbusParseError::InvalidBoolean));
}

#[test]
fn invalid_utf8_in_string() {
    let bytes = [1, 0, 0, 0, 0xff, 0];
    let r = decode_value_at(&bytes, 0, &CompleteType::String, MessageEndianness::LittleEndian);
    assert_eq!(r, Err(DbusParseError::InvalidUtf8));
}

#[test]
fn missing_nul_terminator() {
    let bytes = [1, 0, 0, 0, 0x61, 1];
    let r = decode_value_at(&bytes, 0, &CompleteType::String, MessageEndianness::LittleEndian);
    assert_eq!(r, Err(DbusParseError::MissingNulTerminator));
}

#[test]
fn signature_parse_errors() {
    assert_eq!(parse_signature(b"z"), Err(DbusParseError::InvalidSignatureToken));
    assert_eq!(parse_signature(b"a"), Err(DbusParseError::MalformedSignature));
    assert_eq!(parse_signature(b"("), Err(DbusParseError::MalformedSignature));
    assert_eq!(parse_signature(b"()"), Err(DbusParseError::MalformedSignature));
    assert_eq!(parse_signature(b"{ss}"), Err(DbusParseError::MalformedSignature));
    assert!(parse_signature(b"").is_ok());
    assert!(parse_signature(b"a(ii)t").is_ok());
}

#[test]
fn fixed_header_errors() {
    let mut bytes = vec![0x78, 1, 0, 1, 0, 0, 0, 0, 1, 0, 0, 0, 0, 0, 0, 0];
    assert_eq!(decode_message(&bytes), Err(DbusParseError::InvalidEndianness));
    bytes[0] = 0x6c;
    bytes[1] = 0;
    assert_eq!(decode_message(&bytes), Err(DbusParseError::InvalidMessageType));
    bytes[1] = 1;
    bytes[3] = 2;
    assert_eq!(
        decode_message(&bytes),
        Err(DbusParseError::UnsupportedProtocolVersion)
    );
}

#[test]
fn missing_required_header_field() {
    let msg = Message {
        header: Header {
            fixed: fixed(MessageEndianness::LittleEndian, MessageType::MethodCall, 0, 1),
            fields: HeaderFields {
                path: Some(path("/")),
                ..HeaderFields::default()
            },
        },
        message: vec![],
    };
    assert_eq!(encode_message(&msg), Err(DbusParseError::MissingRequiredHeaderField));
}

#[test]
fn duplicate_header_field_refused() {
    let entry = |p: &str| {
        DbusTypeContainer::DictEntry(Box::new(dbus_codec::DbusDictEntry {
            key: DbusTypeContainer::Byte(1),
            value: DbusTypeContainer::Variant(Box::new(DbusVariant {
                var_type: CompleteType::ObjectPath,
                value: DbusTypeContainer::ObjectPath(path(p)),
            })),
        }))
    };
    let arr = DbusTypeContainer::Array(DbusArray {
        elem_type: CompleteType::DictEntry(
            Box::new(CompleteType::Byte),
            Box::new(CompleteType::Variant),
        ),
        items: vec![entry("/"), entry("/")],
    });
    let mut bytes = fixed(MessageEndianness::LittleEndian, MessageType::MethodCall, 0, 1).marshal();
    bytes.extend(encode_value(&arr, MessageEndianness::LittleEndian, 12));
    assert_eq!(Header::unmarshal(&bytes), Err(DbusParseError::InvalidHeaderField));
}

#[test]
fn trailing_and_missing_body_bytes() {
    let msg = Message {
        header: Header {
            fixed: fixed(MessageEndianness::LittleEndian, MessageType::MethodCall, 4, 2),
            fields: HeaderFields {
                path: Some(path("/")),
                member: Some(text("m")),
                signature: Some(sig(vec![SignatureType::Uint32])),
                ..HeaderFields::default()
            },
        },
        message: vec![DbusTypeContainer::Uint32(7)],
    };
    let bytes = encode_message(&msg).unwrap();

    // claim a longer body than the signature consumes
    let mut longer = bytes.clone();
    longer[4] = 8;
    longer.extend([0, 0, 0, 0]);
    assert_eq!(decode_message(&longer), Err(DbusParseError::TrailingBytes));

    // cut the body short
    let short = &bytes[..bytes.len() - 2];
    assert_eq!(decode_message(short), Err(DbusParseError::NeedMoreBytes));
}

#[test]
fn projections_reject_other_variants() {
    let v = DbusTypeContainer::Byte(7);
    assert_eq!(v.as_byte(), Ok(7));
    assert_eq!(v.as_boolean(), Err(DbusParseError::TypeMismatch));
    assert_eq!(v.as_uint32(), Err(DbusParseError::TypeMismatch));
    assert!(v.as_string().is_err());
}

#[test]
fn signature_value_round_trips() {
    let g = sig(vec![SignatureType::Array, SignatureType::Uint32]);
    let v = DbusTypeContainer::Signature(g);
    let bytes = encode_value(&v, MessageEndianness::LittleEndian, 0);
    assert_eq!(bytes, vec![2, 0x61, 0x75, 0]);
    let (back, used) =
        decode_value_at(&bytes, 0, &CompleteType::Signature, MessageEndianness::LittleEndian)
            .unwrap();
    assert_eq!(used, 4);
    assert_eq!(back, v);
}

#[test]
fn dict_array_round_trips() {
    let entry = |k: u8, x: u32| {
        DbusTypeContainer::DictEntry(Box::new(dbus_codec::DbusDictEntry {
            key: DbusTypeContainer::Byte(k),
            value: DbusTypeContainer::Variant(Box::new(DbusVariant {
                var_type: CompleteType::Uint32,
                value: DbusTypeContainer::Uint32(x),
            })),
        }))
    };
    let elem_type = CompleteType::DictEntry(
        Box::new(CompleteType::Byte),
        Box::new(CompleteType::Variant),
    );
    let v = DbusTypeContainer::Array(DbusArray {
        elem_type,
        items: vec![entry(1, 10), entry(2, 20)],
    });
    let bytes = encode_value(&v, MessageEndianness::LittleEndian, 0);
    let arr_type = CompleteType::Array(Box::new(CompleteType::DictEntry(
        Box::new(CompleteType::Byte),
        Box::new(CompleteType::Variant),
    )));
    let (back, used) =
        decode_value_at(&bytes, 0, &arr_type, MessageEndianness::LittleEndian).unwrap();
    assert_eq!(used, bytes.len());
    assert_eq!(back, v);
}

#[test]
fn full_header_round_trips() {
    let msg = Message {
        header: Header {
            fixed: fixed(MessageEndianness::LittleEndian, MessageType::Error, 0, 5),
            fields: HeaderFields {
                error_name: Some(text("org.freedesktop.DBus.Error.Failed")),
                reply_serial: Some(4),
                destination: Some(text("org.freedesktop.DBus")),
                sender: Some(text(":1.7")),
                unix_fds: Some(0),
                ..HeaderFields::default()
            },
        },
        message: vec![],
    };
    let bytes = encode_message(&msg).unwrap();
    let (back, used) = decode_message(&bytes).unwrap();
    assert_eq!(used, bytes.len());
    assert_eq!(back, msg);
}

#[test]
fn decode_values_by_signature() {
    let sig2 = Signature::new(vec![SignatureType::Byte, SignatureType::Uint16]);
    // byte at 0, then pad to 2, then the word
    let bytes = [9, 0, 0x34, 0x12];
    let (vals, used) =
        decode_value(&bytes, &sig2, MessageEndianness::LittleEndian).unwrap();
    assert_eq!(used, 4);
    assert_eq!(
        vals,
        vec![DbusTypeContainer::Byte(9), DbusTypeContainer::Uint16(0x1234)]
    );
}

#[test]
fn alignment_pads_are_zero_and_skipped() {
    // a uint64 encoded from offset 4 carries four zero pad bytes first
    let v = DbusTypeContainer::Uint64(0x0102030405060708);
    let bytes = encode_value(&v, MessageEndianness::LittleEndian, 4);
    assert_eq!(&bytes[0..4], &[0, 0, 0, 0]);
    assert_eq!(bytes.len(), 12);
    // decoding from the same offset in a buffer that starts at 4 works out
    let mut buf = vec![9, 9, 9, 9];
    buf.extend(&bytes);
    let (back, used) =
        decode_value_at(&buf, 4, &CompleteType::Uint64, MessageEndianness::LittleEndian).unwrap();
    assert_eq!(used, buf.len());
    assert_eq!(back, v);
}

#[test]
fn nested_containers_round_trip() {
    // a struct holding a dict of variants and a plain array of bytes
    let entry = DbusTypeContainer::DictEntry(Box::new(dbus_codec::DbusDictEntry {
        key: DbusTypeContainer::String(text("answer")),
        value: DbusTypeContainer::Variant(Box::new(DbusVariant {
            var_type: CompleteType::Int64,
            value: DbusTypeContainer::Int64(-42),
        })),
    }));
    let dict_elem = CompleteType::DictEntry(
        Box::new(CompleteType::String),
        Box::new(CompleteType::Variant),
    );
    let v = DbusTypeContainer::Struct(DbusStruct(vec![
        DbusTypeContainer::Array(DbusArray {
            elem_type: dict_elem,
            items: vec![entry],
        }),
        DbusTypeContainer::Array(DbusArray {
            elem_type: CompleteType::Byte,
            items: vec![DbusTypeContainer::Byte(1), DbusTypeContainer::Byte(2)],
        }),
        DbusTypeContainer::Boolean(true),
    ]));
    let t = CompleteType::Struct(vec![
        CompleteType::Array(Box::new(CompleteType::DictEntry(
            Box::new(CompleteType::String),
            Box::new(CompleteType::Variant),
        ))),
        CompleteType::Array(Box::new(CompleteType::Byte)),
        CompleteType::Boolean,
    ]);
    for e in [MessageEndianness::LittleEndian, MessageEndianness::BigEndian] {
        let bytes = encode_value(&v, e, 0);
        let (back, used) = decode_value_at(&bytes, 0, &t, e).unwrap();
        assert_eq!(used, bytes.len());
        assert_eq!(back, v);
    }
}

#[test]
fn signature_idempotence_on_samples() {
    for ascii in [&b"a{sv}"[..], b"", b"u", b"a(ii)tb", b"aau", b"(a{ys}v)", b"ooga{y(d)}"] {
        let parsed = parse_signature(ascii).unwrap();
        assert_eq!(render_signature(&parsed), ascii.to_vec());
        assert_eq!(parse_signature(&render_signature(&parsed)).unwrap(), parsed);
    }
}

#[test]
fn typed_wrappers_round_trip() {
    let e = MessageEndianness::LittleEndian;
    let s = text("wrapped");
    let bytes = s.marshal(e, 0);
    let (s2, used) = DbusString::unmarshal(&bytes, e).unwrap();
    assert_eq!(used, bytes.len());
    assert_eq!(s2, text("wrapped"));

    let p = path("/wrapped/up");
    let bytes = p.marshal(e, 0);
    let (p2, used) = DbusObjectPath::unmarshal(&bytes, e).unwrap();
    assert_eq!(used, bytes.len());
    assert_eq!(p2, path("/wrapped/up"));

    let g = sig(vec![SignatureType::Uint64]);
    let bytes = g.marshal();
    let (g2, used) = DbusSignature::unmarshal(&bytes, e).unwrap();
    assert_eq!(used, bytes.len());
    assert_eq!(g2, sig(vec![SignatureType::Uint64]));

    let v = DbusVariant {
        var_type: CompleteType::Byte,
        value: DbusTypeContainer::Byte(0x5a),
    };
    let bytes = v.marshal(e, 0);
    let (v2, used) = DbusVariant::unmarshal(&bytes, e).unwrap();
    assert_eq!(used, bytes.len());
    assert_eq!(v2.into_inner(), DbusTypeContainer::Byte(0x5a));
}

#[test]
fn dict_into_array_keeps_pairs() {
    let dict = dbus_codec::DbusDict::new(vec![
        dbus_codec::DbusDictEntry {
            key: DbusTypeContainer::Byte(1),
            value: DbusTypeContainer::Uint32(100),
        },
        dbus_codec::DbusDictEntry {
            key: DbusTypeContainer::Byte(2),
            value: DbusTypeContainer::Uint32(200),
        },
    ]);
    let arr = dict.into_array(CompleteType::Byte, CompleteType::Uint32);
    assert_eq!(arr.items.len(), 2);
    let bytes = encode_value(
        &DbusTypeContainer::Array(arr),
        MessageEndianness::LittleEndian,
        0,
    );
    let arr_type = CompleteType::Array(Box::new(CompleteType::DictEntry(
        Box::new(CompleteType::Byte),
        Box::new(CompleteType::Uint32),
    )));
    let (back, used) =
        decode_value_at(&bytes, 0, &arr_type, MessageEndianness::LittleEndian).unwrap();
    assert_eq!(used, bytes.len());
    match back {
        DbusTypeContainer::Array(a) => assert_eq!(a.items.len(), 2),
        _ => panic!("not an array"),
    }
}
