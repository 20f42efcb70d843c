//! The value model: one tagged union over every basic and container type,
//! together with the small carrier types it is built from.

use crate::error::DbusParseError;
use crate::signature::{Signature, SignatureType};
use crate::types::{type_model, CompleteType, SpecType};
use vstd::prelude::*;

verus! {

broadcast use {vstd::seq::group_seq_axioms, vstd::std_specs::vec::group_vec_axioms};

/// A boolean, carried on the wire as a 32-bit word that is 0 or 1.
#[derive(Clone, Copy, Debug, PartialEq, Eq, Structural)]
pub struct DbusBoolean(pub bool);

impl DbusBoolean {
    pub fn value(self) -> (r: bool)
        ensures
            r == self.0,
    {
        self.0
    }
}

impl From<bool> for DbusBoolean {
    fn from(v: bool) -> (r: Self)
        ensures
            r == DbusBoolean(v),
    {
        DbusBoolean(v)
    }
}

impl vstd::std_specs::convert::FromSpecImpl<bool> for DbusBoolean {
    open spec fn obeys_from_spec() -> bool {
        true
    }

    open spec fn from_spec(v: bool) -> Self {
        DbusBoolean(v)
    }
}

/// Text: the UTF-8 bytes of the string, without the closing NUL.
#[derive(Debug, PartialEq, Eq)]
pub struct DbusString(pub Vec<u8>);

impl Clone for DbusString {
    fn clone(&self) -> (r: Self)
        ensures
            r@ == self@,
    {
        DbusString(vstd::slice::slice_to_vec(self.0.as_slice()))
    }
}

impl View for DbusString {
    type V = Seq<u8>;

    open spec fn view(&self) -> Seq<u8> {
        self.0@
    }
}

/// An object path: the ASCII bytes of a `/`-rooted name.
#[derive(Debug, PartialEq, Eq)]
pub struct DbusObjectPath(pub Vec<u8>);

impl Clone for DbusObjectPath {
    fn clone(&self) -> (r: Self)
        ensures
            r@ == self@,
    {
        DbusObjectPath(vstd::slice::slice_to_vec(self.0.as_slice()))
    }
}

impl View for DbusObjectPath {
    type V = Seq<u8>;

    open spec fn view(&self) -> Seq<u8> {
        self.0@
    }
}

/// A signature value: a parsed flat signature riding inside a message.
#[derive(Debug, PartialEq, Eq)]
pub struct DbusSignature(pub Signature);

impl Clone for DbusSignature {
    fn clone(&self) -> (r: Self)
        ensures
            r@ == self@,
    {
        DbusSignature(Signature(vstd::slice::slice_to_vec(self.0.0.as_slice())))
    }
}

impl View for DbusSignature {
    type V = Seq<SignatureType>;

    open spec fn view(&self) -> Seq<SignatureType> {
        self.0@
    }
}

/// An array value: the element type (so an empty array still knows it) and
/// the elements in order.
#[derive(Debug, PartialEq)]
pub struct DbusArray {
    pub elem_type: CompleteType,
    pub items: Vec<DbusTypeContainer>,
}

/// A struct value: its fields in order.
#[derive(Debug, PartialEq)]
pub struct DbusStruct(pub Vec<DbusTypeContainer>);

/// One key-value pair of a dict; legal only as an array element.
#[derive(Debug, PartialEq)]
pub struct DbusDictEntry {
    pub key: DbusTypeContainer,
    pub value: DbusTypeContainer,
}

/// A variant: a self-describing value carrying its own single complete type.
#[derive(Debug, PartialEq)]
pub struct DbusVariant {
    pub var_type: CompleteType,
    pub value: DbusTypeContainer,
}

impl DbusVariant {
    pub fn into_inner(self) -> (r: DbusTypeContainer)
        ensures
            r == self.value,
    {
        self.value
    }
}

/// Any single decoded value.
#[derive(Debug, PartialEq)]
pub enum DbusTypeContainer {
    Boolean(bool),
    Byte(u8),
    Uint16(u16),
    Int16(i16),
    Uint32(u32),
    Int32(i32),
    Uint64(u64),
    Int64(i64),
    /// The IEEE-754 bit pattern of the double.
    Double(u64),
    UnixFd(u32),
    Signature(DbusSignature),
    String(DbusString),
    ObjectPath(DbusObjectPath),
    Array(DbusArray),
    Struct(DbusStruct),
    DictEntry(Box<DbusDictEntry>),
    Variant(Box<DbusVariant>),
}

/// The mathematical form of a value.
pub enum SpecValue {
    Boolean(bool),
    Byte(u8),
    Uint16(u16),
    Int16(i16),
    Uint32(u32),
    Int32(i32),
    Uint64(u64),
    Int64(i64),
    Double(u64),
    UnixFd(u32),
    Signature(Seq<SignatureType>),
    String(Seq<u8>),
    ObjectPath(Seq<u8>),
    Array(SpecType, Seq<SpecValue>),
    Struct(Seq<SpecValue>),
    DictEntry(Box<SpecValue>, Box<SpecValue>),
    Variant(SpecType, Box<SpecValue>),
}

pub open spec fn value_model_list(items: Seq<DbusTypeContainer>) -> Seq<SpecValue>
    decreases items,
{
    if items.len() == 0 {
        Seq::empty()
    } else {
        seq![value_model(items[0])] + value_model_list(items.drop_first())
    }
}

pub open spec fn value_model(v: DbusTypeContainer) -> SpecValue
    decreases v,
{
    match v {
        DbusTypeContainer::Boolean(b) => SpecValue::Boolean(b),
        DbusTypeContainer::Byte(x) => SpecValue::Byte(x),
        DbusTypeContainer::Uint16(x) => SpecValue::Uint16(x),
        DbusTypeContainer::Int16(x) => SpecValue::Int16(x),
        DbusTypeContainer::Uint32(x) => SpecValue::Uint32(x),
        DbusTypeContainer::Int32(x) => SpecValue::Int32(x),
        DbusTypeContainer::Uint64(x) => SpecValue::Uint64(x),
        DbusTypeContainer::Int64(x) => SpecValue::Int64(x),
        DbusTypeContainer::Double(x) => SpecValue::Double(x),
        DbusTypeContainer::UnixFd(x) => SpecValue::UnixFd(x),
        DbusTypeContainer::Signature(s) => SpecValue::Signature(s@),
        DbusTypeContainer::String(s) => SpecValue::String(s@),
        DbusTypeContainer::ObjectPath(s) => SpecValue::ObjectPath(s@),
        DbusTypeContainer::Array(a) => SpecValue::Array(
            type_model(a.elem_type),
            value_model_list(a.items@),
        ),
        DbusTypeContainer::Struct(st) => SpecValue::Struct(value_model_list(st.0@)),
        DbusTypeContainer::DictEntry(de) => SpecValue::DictEntry(
            Box::new(value_model((*de).key)),
            Box::new(value_model((*de).value)),
        ),
        DbusTypeContainer::Variant(bv) => SpecValue::Variant(
            type_model((*bv).var_type),
            Box::new(value_model((*bv).value)),
        ),
    }
}

impl View for DbusTypeContainer {
    type V = SpecValue;

    open spec fn view(&self) -> SpecValue {
        value_model(*self)
    }
}

/// The model of a value list keeps its length and maps its items.
pub proof fn lemma_value_model_list(items: Seq<DbusTypeContainer>)
    ensures
        value_model_list(items).len() == items.len(),
        forall|i: int| 0 <= i < items.len() ==> value_model_list(items)[i] == value_model(
            items[i],
        ),
    decreases items,
{
    if items.len() > 0 {
        lemma_value_model_list(items.drop_first());
    }
}

/// The complete type a value inhabits.
pub open spec fn spec_type_of(v: SpecValue) -> SpecType
    decreases v, 1int,
{
    match v {
        SpecValue::Boolean(_) => SpecType::Boolean,
        SpecValue::Byte(_) => SpecType::Byte,
        SpecValue::Uint16(_) => SpecType::Uint16,
        SpecValue::Int16(_) => SpecType::Int16,
        SpecValue::Uint32(_) => SpecType::Uint32,
        SpecValue::Int32(_) => SpecType::Int32,
        SpecValue::Uint64(_) => SpecType::Uint64,
        SpecValue::Int64(_) => SpecType::Int64,
        SpecValue::Double(_) => SpecType::Double,
        SpecValue::UnixFd(_) => SpecType::UnixFd,
        SpecValue::Signature(_) => SpecType::Signature,
        SpecValue::String(_) => SpecType::String,
        SpecValue::ObjectPath(_) => SpecType::ObjectPath,
        SpecValue::Array(t, _) => SpecType::Array(Box::new(t)),
        SpecValue::Struct(fields) => SpecType::Struct(spec_types_of_list(fields)),
        SpecValue::DictEntry(k, val) => SpecType::DictEntry(
            Box::new(spec_type_of(*k)),
            Box::new(spec_type_of(*val)),
        ),
        SpecValue::Variant(_, _) => SpecType::Variant,
    }
}

pub open spec fn spec_types_of_list(vs: Seq<SpecValue>) -> Seq<SpecType>
    decreases vs, 0int,
{
    if vs.len() == 0 {
        Seq::empty()
    } else {
        seq![spec_type_of(vs[0])] + spec_types_of_list(vs.drop_first())
    }
}

/// The byte at which a value of type `t` may begin must be a multiple of
/// this.
pub open spec fn align_of_type(t: SpecType) -> int {
    match t {
        SpecType::Byte | SpecType::Signature | SpecType::Variant => 1,
        SpecType::Int16 | SpecType::Uint16 => 2,
        SpecType::Boolean | SpecType::Int32 | SpecType::Uint32 | SpecType::UnixFd
            | SpecType::String | SpecType::ObjectPath | SpecType::Array(_) => 4,
        SpecType::Int64 | SpecType::Uint64 | SpecType::Double | SpecType::Struct(_)
            | SpecType::DictEntry(_, _) => 8,
    }
}

/// A byte an object-path component may use: `[A-Za-z0-9_]`.
pub open spec fn is_path_elem_byte(b: u8) -> bool {
    (0x41 <= b <= 0x5a) || (0x61 <= b <= 0x7a) || (0x30 <= b <= 0x39) || b == 0x5f
}

/// The object-path grammar: starts with `/`; is exactly `/`, or has
/// non-empty `/`-separated components of `[A-Za-z0-9_]+` and no trailing
/// `/`.
pub open spec fn spec_valid_object_path(s: Seq<u8>) -> bool {
    &&& s.len() >= 1
    &&& s[0] == 0x2f
    &&& (s.len() == 1 || s[s.len() - 1] != 0x2f)
    &&& (forall|i: int| 0 <= i < s.len() ==> (s[i] == 0x2f || is_path_elem_byte(#[trigger] s[i])))
    &&& (forall|i: int|
        0 <= i < s.len() - 1 ==> !(#[trigger] s[i] == 0x2f && s[i + 1] == 0x2f))
}

/// Decides the object-path grammar: accepts exactly the paths of
/// [`spec_valid_object_path`].
pub fn validate_object_path(data: &[u8]) -> (r: bool)
    ensures
        r == spec_valid_object_path(data@),
{
    let n = data.len();
    if n == 0 {
        return false;
    }
    let first = *vstd::slice::slice_index_get(data, 0);
    if first != 0x2f {
        return false;
    }
    if n > 1 {
        let last = *vstd::slice::slice_index_get(data, n - 1);
        if last == 0x2f {
            return false;
        }
    }
    let mut i: usize = 0;
    while i < n
        invariant
            i <= n,
            n == data@.len(),
            forall|j: int| 0 <= j < i ==> (data@[j] == 0x2f || is_path_elem_byte(
                #[trigger] data@[j],
            )),
            forall|j: int| 0 <= j < i - 1 ==> !(#[trigger] data@[j] == 0x2f && data@[j + 1]
                == 0x2f),
        decreases n - i,
    {
        let b = *vstd::slice::slice_index_get(data, i);
        if !(b == 0x2f || (0x41 <= b && b <= 0x5a) || (0x61 <= b && b <= 0x7a) || (0x30 <= b && b
            <= 0x39) || b == 0x5f) {
            return false;
        }
        if i > 0 {
            let prev = *vstd::slice::slice_index_get(data, i - 1);
            if prev == 0x2f && b == 0x2f {
                return false;
            }
        }
        i = i + 1;
    }
    true
}

impl DbusBoolean {
    /// The four-byte word this boolean rides as: 1 or 0 under `e`.
    pub fn marshal(self, e: crate::endian::MessageEndianness) -> (r: Vec<u8>)
        ensures
            r@ == crate::endian::spec_u32_bytes(
                e,
                if self.0 {
                    1u32
                } else {
                    0u32
                },
            ),
    {
        let mut out: Vec<u8> = Vec::new();
        let w: u32 = if self.0 {
            1
        } else {
            0
        };
        crate::endian::push_u32(&mut out, e, w);
        proof {
            assert(out@ =~= crate::endian::spec_u32_bytes(e, w));
        }
        out
    }

    /// Reads a boolean word from the front of `data`: 0 is false, 1 is
    /// true, anything else is refused.
    pub fn unmarshal(data: &[u8], e: crate::endian::MessageEndianness) -> (r: Result<
        (DbusBoolean, usize),
        DbusParseError,
    >)
        ensures
            data@.len() < 4 ==> r == Err::<(DbusBoolean, usize), _>(DbusParseError::NeedMoreBytes),
            data@.len() >= 4 ==> ({
                let w = crate::endian::spec_u32_from_bytes(e, data@.subrange(0, 4));
                if w == 0 {
                    r == Ok::<_, DbusParseError>((DbusBoolean(false), 4usize))
                } else if w == 1 {
                    r == Ok::<_, DbusParseError>((DbusBoolean(true), 4usize))
                } else {
                    r == Err::<(DbusBoolean, usize), _>(DbusParseError::InvalidBoolean)
                }
            }),
    {
        if data.len() < 4 {
            return Err(DbusParseError::NeedMoreBytes);
        }
        let w = crate::endian::read_u32(data, 0, e);
        if w == 0 {
            Ok((DbusBoolean(false), 4))
        } else if w == 1 {
            Ok((DbusBoolean(true), 4))
        } else {
            Err(DbusParseError::InvalidBoolean)
        }
    }
}

/// A value of basic type: fit to key a dict entry.
pub open spec fn is_basic_type_value(v: SpecValue) -> bool {
    crate::types::is_basic_type(spec_type_of(v))
}

/// Pushing a value onto a list appends its model to the list's model.
pub proof fn lemma_value_model_list_push(items: Seq<DbusTypeContainer>, v: DbusTypeContainer)
    ensures
        value_model_list(items.push(v)) == value_model_list(items) + seq![value_model(v)],
    decreases items,
{
    reveal_with_fuel(value_model_list, 3);
    if items.len() == 0 {
        assert(items.push(v)[0] == v);
        assert(items.push(v).drop_first() =~= Seq::<DbusTypeContainer>::empty());
        assert(value_model_list(items.push(v)) =~= value_model_list(items) + seq![value_model(
            v,
        )]);
    } else {
        assert(items.push(v)[0] == items[0]);
        assert(items.push(v).drop_first() =~= items.drop_first().push(v));
        lemma_value_model_list_push(items.drop_first(), v);
        assert(value_model_list(items.push(v)) == seq![value_model(items[0])] + value_model_list(
            items.drop_first().push(v),
        ));
        assert(value_model_list(items) == seq![value_model(items[0])] + value_model_list(
            items.drop_first(),
        ));
        assert(value_model_list(items.push(v)) =~= value_model_list(items) + seq![value_model(
            v,
        )]);
    }
}

impl DbusTypeContainer {
    /// Projects onto a boolean; any other variant is a mismatch.
    pub fn as_boolean(&self) -> (r: Result<bool, DbusParseError>)
        ensures
            (match self@ {
                SpecValue::Boolean(b) => r == Ok::<_, DbusParseError>(b),
                _ => r == Err::<bool, _>(DbusParseError::TypeMismatch),
            }),
    {
        match self {
            DbusTypeContainer::Boolean(b) => Ok(*b),
            _ => Err(DbusParseError::TypeMismatch),
        }
    }

    /// Projects onto a byte; any other variant is a mismatch.
    pub fn as_byte(&self) -> (r: Result<u8, DbusParseError>)
        ensures
            (match self@ {
                SpecValue::Byte(x) => r == Ok::<_, DbusParseError>(x),
                _ => r == Err::<u8, _>(DbusParseError::TypeMismatch),
            }),
    {
        match self {
            DbusTypeContainer::Byte(x) => Ok(*x),
            _ => Err(DbusParseError::TypeMismatch),
        }
    }

    /// Projects onto a 32-bit unsigned word; any other variant is a
    /// mismatch.
    pub fn as_uint32(&self) -> (r: Result<u32, DbusParseError>)
        ensures
            (match self@ {
                SpecValue::Uint32(x) => r == Ok::<_, DbusParseError>(x),
                _ => r == Err::<u32, _>(DbusParseError::TypeMismatch),
            }),
    {
        match self {
            DbusTypeContainer::Uint32(x) => Ok(*x),
            _ => Err(DbusParseError::TypeMismatch),
        }
    }

    /// Projects onto the text bytes of a string value.
    pub fn as_string(&self) -> (r: Result<&DbusString, DbusParseError>)
        ensures
            (match r {
                Ok(s) => self@ == SpecValue::String(s@),
                Err(k) => !(self@ is String) && k == DbusParseError::TypeMismatch,
            }),
    {
        match self {
            DbusTypeContainer::String(s) => Ok(s),
            _ => Err(DbusParseError::TypeMismatch),
        }
    }

    /// Projects onto an object path value.
    pub fn as_object_path(&self) -> (r: Result<&DbusObjectPath, DbusParseError>)
        ensures
            (match r {
                Ok(s) => self@ == SpecValue::ObjectPath(s@),
                Err(k) => !(self@ is ObjectPath) && k == DbusParseError::TypeMismatch,
            }),
    {
        match self {
            DbusTypeContainer::ObjectPath(s) => Ok(s),
            _ => Err(DbusParseError::TypeMismatch),
        }
    }

    /// Projects onto a variant, exposing its inner value.
    pub fn as_variant(&self) -> (r: Result<&DbusVariant, DbusParseError>)
        ensures
            (match r {
                Ok(v) => self@ == SpecValue::Variant(v.var_type@, Box::new(value_model(v.value))),
                Err(k) => !(self@ is Variant) && k == DbusParseError::TypeMismatch,
            }),
    {
        match self {
            DbusTypeContainer::Variant(bv) => {
                proof {
                    assert(self@ == SpecValue::Variant(
                        (**bv).var_type@,
                        Box::new(value_model((**bv).value)),
                    ));
                }
                Ok(&**bv)
            },
            _ => Err(DbusParseError::TypeMismatch),
        }
    }

    /// Projects onto an array value.
    pub fn as_array(&self) -> (r: Result<&DbusArray, DbusParseError>)
        ensures
            (match r {
                Ok(a) => self@ == SpecValue::Array(a.elem_type@, value_model_list(a.items@)),
                Err(k) => !(self@ is Array) && k == DbusParseError::TypeMismatch,
            }),
    {
        match self {
            DbusTypeContainer::Array(a) => Ok(a),
            _ => Err(DbusParseError::TypeMismatch),
        }
    }

    /// Projects onto a struct value.
    pub fn as_struct(&self) -> (r: Result<&DbusStruct, DbusParseError>)
        ensures
            (match r {
                Ok(st) => self@ == SpecValue::Struct(value_model_list(st.0@)),
                Err(k) => !(self@ is Struct) && k == DbusParseError::TypeMismatch,
            }),
    {
        match self {
            DbusTypeContainer::Struct(st) => Ok(st),
            _ => Err(DbusParseError::TypeMismatch),
        }
    }
}

impl DbusObjectPath {
    /// Accepts exactly the byte strings that satisfy the object-path
    /// grammar, and wraps them unchanged.
    pub fn try_from(value: Vec<u8>) -> (r: Result<DbusObjectPath, DbusParseError>)
        ensures
            spec_valid_object_path(value@) ==> (r matches Ok(p) && p@ == value@),
            !spec_valid_object_path(value@) ==> r == Err::<DbusObjectPath, _>(
                DbusParseError::MalformedObjectPath,
            ),
    {
        if validate_object_path(value.as_slice()) {
            Ok(DbusObjectPath(value))
        } else {
            Err(DbusParseError::MalformedObjectPath)
        }
    }
}

impl From<Vec<u8>> for DbusString {
    /// Wraps UTF-8 text bytes unchecked; the codec checks on decode.
    fn from(v: Vec<u8>) -> (r: Self)
        ensures
            r@ == v@,
    {
        DbusString(v)
    }
}

impl vstd::std_specs::convert::FromSpecImpl<Vec<u8>> for DbusString {
    open spec fn obeys_from_spec() -> bool {
        true
    }

    open spec fn from_spec(v: Vec<u8>) -> Self {
        DbusString(v)
    }
}

impl DbusString {
    /// Hands the text bytes back.
    pub fn into_bytes(self) -> (r: Vec<u8>)
        ensures
            r@ == self@,
    {
        self.0
    }
}

impl From<Signature> for DbusSignature {
    fn from(value: Signature) -> (r: Self)
        ensures
            r@ == value@,
    {
        DbusSignature(value)
    }
}

impl vstd::std_specs::convert::FromSpecImpl<Signature> for DbusSignature {
    open spec fn obeys_from_spec() -> bool {
        true
    }

    open spec fn from_spec(value: Signature) -> Self {
        DbusSignature(value)
    }
}

impl DbusSignature {
    /// Hands the parsed signature back.
    pub fn into_signature(self) -> (r: Signature)
        ensures
            r@ == self@,
    {
        self.0
    }

    /// The wire form of this signature value: length byte, tokens, NUL.
    pub fn marshal(&self) -> (r: Vec<u8>)
        requires
            self@.len() <= 255,
        ensures
            r@ == crate::codec::spec_sig_wire(self@),
    {
        let mut out: Vec<u8> = Vec::new();
        crate::enc::push_sig_wire(&mut out, &self.0.0);
        proof {
            assert(out@ =~= crate::codec::spec_sig_wire(self@));
        }
        out
    }
}

/// A dict: key-value pairs carried on the wire as an array of dict
/// entries.
#[derive(Debug, PartialEq)]
pub struct DbusDict(pub Vec<DbusDictEntry>);

impl DbusDict {
    pub fn new(inner: Vec<DbusDictEntry>) -> (r: Self)
        ensures
            r.0@ == inner@,
    {
        DbusDict(inner)
    }

    /// Turns the pairs into the array value that rides on the wire; the
    /// key and value types must be given so an empty dict still knows
    /// them. Pair `j` of the dict becomes element `j` of the array.
    pub fn into_array(self, key_type: CompleteType, value_type: CompleteType) -> (r: DbusArray)
        ensures
            r.elem_type@ == SpecType::DictEntry(Box::new(key_type@), Box::new(value_type@)),
            value_model_list(r.items@).len() == self.0@.len(),
            forall|j: int| 0 <= j < self.0@.len() ==> value_model_list(r.items@)[j]
                == SpecValue::DictEntry(
                Box::new(value_model((#[trigger] self.0@[j]).key)),
                Box::new(value_model(self.0@[j].value)),
            ),
    {
        let ghost orig = self.0@;
        let ghost km = key_type@;
        let ghost vm = value_type@;
        let elem_type = CompleteType::DictEntry(Box::new(key_type), Box::new(value_type));
        proof {
            assert(elem_type@ == SpecType::DictEntry(Box::new(km), Box::new(vm)));
        }
        let mut items: Vec<DbusTypeContainer> = Vec::new();
        let mut entries = self.0;
        let n = entries.len();
        let mut i: usize = 0;
        proof {
            assert(entries@ =~= orig.skip(0));
            assert(value_model_list(items@) =~= Seq::<SpecValue>::empty());
        }
        while i < n
            invariant
                i <= n,
                n == orig.len(),
                entries@ == orig.skip(i as int),
                value_model_list(items@).len() == i,
                forall|j: int| 0 <= j < i ==> value_model_list(items@)[j] == SpecValue::DictEntry(
                    Box::new(value_model((#[trigger] orig[j]).key)),
                    Box::new(value_model(orig[j].value)),
                ),
            decreases n - i,
        {
            let entry = entries.remove(0);
            proof {
                assert(entry == orig[i as int]);
                assert(entries@ =~= orig.skip(i + 1));
            }
            let wrapped = DbusTypeContainer::DictEntry(Box::new(entry));
            proof {
                assert(value_model(wrapped) == SpecValue::DictEntry(
                    Box::new(value_model(orig[i as int].key)),
                    Box::new(value_model(orig[i as int].value)),
                ));
                lemma_value_model_list(items@);
                lemma_value_model_list_push(items@, wrapped);
            }
            items.push(wrapped);
            i = i + 1;
        }
        DbusArray { elem_type, items }
    }
}

impl DbusString {
    /// The wire image of this string from `start_offset`: padding to 4,
    /// length word, text bytes, NUL.
    pub fn marshal(&self, e: crate::endian::MessageEndianness, start_offset: usize) -> (r: Vec<
        u8,
    >)
        requires
            crate::codec::spec_wf_value(SpecValue::String(self@), e, start_offset as int),
            start_offset + crate::codec::spec_enc_value(
                SpecValue::String(self@),
                e,
                start_offset as int,
            ).len() <= usize::MAX,
        ensures
            r@ == crate::codec::spec_enc_value(SpecValue::String(self@), e, start_offset as int),
    {
        let v = DbusTypeContainer::String(self.clone());
        crate::enc::encode_value(&v, e, start_offset)
    }

    /// Reads a string from the front of `data`.
    pub fn unmarshal(data: &[u8], e: crate::endian::MessageEndianness) -> (r: Result<
        (DbusString, usize),
        DbusParseError,
    >)
        ensures
            (match r {
                Ok((s, q)) => crate::dec::spec_dec_value(data@, 0, SpecType::String, e) == Ok::<
                    (SpecValue, int),
                    DbusParseError,
                >((SpecValue::String(s@), q as int)),
                Err(k) => crate::dec::spec_dec_value(data@, 0, SpecType::String, e) == Err::<
                    (SpecValue, int),
                    _,
                >(k),
            }),
    {
        match crate::decode::decode_value_at(data, 0, &CompleteType::String, e) {
            Err(k) => Err(k),
            Ok((v, q)) => match v {
                DbusTypeContainer::String(s) => Ok((s, q)),
                _ => Err(DbusParseError::TypeMismatch),
            },
        }
    }
}

impl DbusObjectPath {
    /// The wire image of this path from `start_offset`; laid out as a
    /// string.
    pub fn marshal(&self, e: crate::endian::MessageEndianness, start_offset: usize) -> (r: Vec<
        u8,
    >)
        requires
            crate::codec::spec_wf_value(SpecValue::ObjectPath(self@), e, start_offset as int),
            start_offset + crate::codec::spec_enc_value(
                SpecValue::ObjectPath(self@),
                e,
                start_offset as int,
            ).len() <= usize::MAX,
        ensures
            r@ == crate::codec::spec_enc_value(
                SpecValue::ObjectPath(self@),
                e,
                start_offset as int,
            ),
    {
        let v = DbusTypeContainer::ObjectPath(self.clone());
        crate::enc::encode_value(&v, e, start_offset)
    }

    /// Reads an object path from the front of `data`, holding it to the
    /// path grammar.
    pub fn unmarshal(data: &[u8], e: crate::endian::MessageEndianness) -> (r: Result<
        (DbusObjectPath, usize),
        DbusParseError,
    >)
        ensures
            (match r {
                Ok((s, q)) => crate::dec::spec_dec_value(data@, 0, SpecType::ObjectPath, e)
                    == Ok::<(SpecValue, int), DbusParseError>((
                    SpecValue::ObjectPath(s@),
                    q as int,
                )),
                Err(k) => crate::dec::spec_dec_value(data@, 0, SpecType::ObjectPath, e) == Err::<
                    (SpecValue, int),
                    _,
                >(k),
            }),
    {
        match crate::decode::decode_value_at(data, 0, &CompleteType::ObjectPath, e) {
            Err(k) => Err(k),
            Ok((v, q)) => match v {
                DbusTypeContainer::ObjectPath(s) => Ok((s, q)),
                _ => Err(DbusParseError::TypeMismatch),
            },
        }
    }
}

impl DbusSignature {
    /// Reads a signature value from the front of `data`: length byte,
    /// tokens, NUL, and the grammar.
    pub fn unmarshal(data: &[u8], e: crate::endian::MessageEndianness) -> (r: Result<
        (DbusSignature, usize),
        DbusParseError,
    >)
        ensures
            (match r {
                Ok((s, q)) => crate::dec::spec_dec_value(data@, 0, SpecType::Signature, e)
                    == Ok::<(SpecValue, int), DbusParseError>((
                    SpecValue::Signature(s@),
                    q as int,
                )),
                Err(k) => crate::dec::spec_dec_value(data@, 0, SpecType::Signature, e) == Err::<
                    (SpecValue, int),
                    _,
                >(k),
            }),
    {
        match crate::decode::decode_value_at(data, 0, &CompleteType::Signature, e) {
            Err(k) => Err(k),
            Ok((v, q)) => match v {
                DbusTypeContainer::Signature(s) => Ok((s, q)),
                _ => Err(DbusParseError::TypeMismatch),
            },
        }
    }
}

impl DbusVariant {
    /// The wire image of this variant from `start_offset`: its one-type
    /// signature, then the payload.
    pub fn marshal(self, e: crate::endian::MessageEndianness, start_offset: usize) -> (r: Vec<u8>)
        requires
            crate::codec::spec_wf_value(
                SpecValue::Variant(self.var_type@, Box::new(value_model(self.value))),
                e,
                start_offset as int,
            ),
            start_offset + crate::codec::spec_enc_value(
                SpecValue::Variant(self.var_type@, Box::new(value_model(self.value))),
                e,
                start_offset as int,
            ).len() <= usize::MAX,
        ensures
            r@ == crate::codec::spec_enc_value(
                SpecValue::Variant(self.var_type@, Box::new(value_model(self.value))),
                e,
                start_offset as int,
            ),
    {
        let ghost vm = SpecValue::Variant(self.var_type@, Box::new(value_model(self.value)));
        let v = DbusTypeContainer::Variant(Box::new(self));
        proof {
            assert(v@ == SpecValue::Variant(
                v->Variant_0.var_type@,
                Box::new(value_model(v->Variant_0.value)),
            ));
        }
        crate::enc::encode_value(&v, e, start_offset)
    }

    /// Reads a variant from the front of `data`: the embedded signature
    /// must name exactly one complete type, which drives the payload.
    pub fn unmarshal(data: &[u8], e: crate::endian::MessageEndianness) -> (r: Result<
        (DbusVariant, usize),
        DbusParseError,
    >)
        ensures
            (match r {
                Ok((v, q)) => crate::dec::spec_dec_value(data@, 0, SpecType::Variant, e) == Ok::<
                    (SpecValue, int),
                    DbusParseError,
                >((SpecValue::Variant(v.var_type@, Box::new(value_model(v.value))), q as int)),
                Err(k) => crate::dec::spec_dec_value(data@, 0, SpecType::Variant, e) == Err::<
                    (SpecValue, int),
                    _,
                >(k),
            }),
    {
        match crate::decode::decode_value_at(data, 0, &CompleteType::Variant, e) {
            Err(k) => Err(k),
            Ok((v, q)) => match v {
                DbusTypeContainer::Variant(bv) => {
                    proof {
                        assert(value_model(DbusTypeContainer::Variant(bv)) == SpecValue::Variant(
                            (*bv).var_type@,
                            Box::new(value_model((*bv).value)),
                        ));
                    }
                    Ok((*bv, q))
                },
                _ => Err(DbusParseError::TypeMismatch),
            },
        }
    }
}

} // verus!
