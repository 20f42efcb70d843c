//! Complete types: the recursive grammar behind a flat signature. A complete
//! type is a basic token, `a` followed by a complete type (or by a dict
//! entry), a parenthesised non-empty list of complete types, or `v`.

use crate::error::DbusParseError;
use crate::signature::{
    spec_byte_token, spec_render_signature, spec_tokens_of, byte_token, lemma_tokens_of_render,
    Signature, SignatureType,
};
use vstd::prelude::*;

verus! {

broadcast use {vstd::seq::group_seq_axioms, vstd::std_specs::vec::group_vec_axioms};

/// The mathematical form of a complete type; `Struct` and `DictEntry` hold
/// their parts directly.
pub enum SpecType {
    Byte,
    Boolean,
    Int16,
    Uint16,
    Int32,
    Uint32,
    Int64,
    Uint64,
    Double,
    UnixFd,
    String,
    ObjectPath,
    Signature,
    Variant,
    Array(Box<SpecType>),
    Struct(Seq<SpecType>),
    DictEntry(Box<SpecType>, Box<SpecType>),
}

/// One complete type as a tree, the executable counterpart of [`SpecType`].
#[derive(Debug, PartialEq)]
pub enum CompleteType {
    Byte,
    Boolean,
    Int16,
    Uint16,
    Int32,
    Uint32,
    Int64,
    Uint64,
    Double,
    UnixFd,
    String,
    ObjectPath,
    Signature,
    Variant,
    Array(Box<CompleteType>),
    Struct(Vec<CompleteType>),
    DictEntry(Box<CompleteType>, Box<CompleteType>),
}

pub open spec fn type_model_list(ts: Seq<CompleteType>) -> Seq<SpecType>
    decreases ts,
{
    if ts.len() == 0 {
        Seq::empty()
    } else {
        seq![type_model(ts[0])] + type_model_list(ts.drop_first())
    }
}

pub open spec fn type_model(t: CompleteType) -> SpecType
    decreases t,
{
    match t {
        CompleteType::Byte => SpecType::Byte,
        CompleteType::Boolean => SpecType::Boolean,
        CompleteType::Int16 => SpecType::Int16,
        CompleteType::Uint16 => SpecType::Uint16,
        CompleteType::Int32 => SpecType::Int32,
        CompleteType::Uint32 => SpecType::Uint32,
        CompleteType::Int64 => SpecType::Int64,
        CompleteType::Uint64 => SpecType::Uint64,
        CompleteType::Double => SpecType::Double,
        CompleteType::UnixFd => SpecType::UnixFd,
        CompleteType::String => SpecType::String,
        CompleteType::ObjectPath => SpecType::ObjectPath,
        CompleteType::Signature => SpecType::Signature,
        CompleteType::Variant => SpecType::Variant,
        CompleteType::Array(el) => SpecType::Array(Box::new(type_model(*el))),
        CompleteType::Struct(fields) => SpecType::Struct(type_model_list(fields@)),
        CompleteType::DictEntry(k, v) => SpecType::DictEntry(
            Box::new(type_model(*k)),
            Box::new(type_model(*v)),
        ),
    }
}

impl View for CompleteType {
    type V = SpecType;

    open spec fn view(&self) -> SpecType {
        type_model(*self)
    }
}

/// A basic type: one that a single non-container token names. Only these may
/// key a dict entry.
pub open spec fn is_basic_type(t: SpecType) -> bool {
    match t {
        SpecType::Byte | SpecType::Boolean | SpecType::Int16 | SpecType::Uint16
            | SpecType::Int32 | SpecType::Uint32 | SpecType::Int64 | SpecType::Uint64
            | SpecType::Double | SpecType::UnixFd | SpecType::String | SpecType::ObjectPath
            | SpecType::Signature => true,
        _ => false,
    }
}

/// A well-formed complete type: a dict entry never stands alone, only
/// directly under an array, with a basic key; a struct has at least one
/// field.
pub open spec fn valid_complete(t: SpecType) -> bool
    decreases t, 1int,
{
    match t {
        SpecType::Array(el) => valid_array_elem(*el),
        SpecType::Struct(fields) => fields.len() >= 1 && valid_type_list(fields),
        SpecType::DictEntry(_, _) => false,
        _ => true,
    }
}

/// What may follow `a`: a complete type, or a dict entry with a basic key
/// and a complete-type value.
pub open spec fn valid_array_elem(el: SpecType) -> bool
    decreases el, 2int,
{
    match el {
        SpecType::DictEntry(k, v) => is_basic_type(*k) && valid_complete(*v),
        _ => valid_complete(el),
    }
}

pub open spec fn valid_type_list(ts: Seq<SpecType>) -> bool
    decreases ts, 0int,
{
    if ts.len() == 0 {
        true
    } else {
        valid_complete(ts[0]) && valid_type_list(ts.drop_first())
    }
}

/// The flat token image of one complete type.
pub open spec fn spec_flat_type(t: SpecType) -> Seq<SignatureType>
    decreases t, 1int,
{
    match t {
        SpecType::Byte => seq![SignatureType::Byte],
        SpecType::Boolean => seq![SignatureType::Boolean],
        SpecType::Int16 => seq![SignatureType::Int16],
        SpecType::Uint16 => seq![SignatureType::Uint16],
        SpecType::Int32 => seq![SignatureType::Int32],
        SpecType::Uint32 => seq![SignatureType::Uint32],
        SpecType::Int64 => seq![SignatureType::Int64],
        SpecType::Uint64 => seq![SignatureType::Uint64],
        SpecType::Double => seq![SignatureType::Double],
        SpecType::UnixFd => seq![SignatureType::UnixFd],
        SpecType::String => seq![SignatureType::String],
        SpecType::ObjectPath => seq![SignatureType::ObjectPath],
        SpecType::Signature => seq![SignatureType::Signature],
        SpecType::Variant => seq![SignatureType::Variant],
        SpecType::Array(el) => seq![SignatureType::Array] + spec_flat_type(*el),
        SpecType::Struct(fields) => seq![SignatureType::StructStart] + spec_flat_type_list(fields)
            + seq![SignatureType::StructEnd],
        SpecType::DictEntry(k, v) => seq![SignatureType::DictStart] + spec_flat_type(*k)
            + spec_flat_type(*v) + seq![SignatureType::DictEnd],
    }
}

pub open spec fn spec_flat_type_list(ts: Seq<SpecType>) -> Seq<SignatureType>
    decreases ts, 0int,
{
    if ts.len() == 0 {
        Seq::empty()
    } else {
        spec_flat_type(ts[0]) + spec_flat_type_list(ts.drop_first())
    }
}

/// Every complete type takes at least one token.
pub proof fn lemma_flat_type_len(t: SpecType)
    ensures
        spec_flat_type(t).len() >= 1,
{
}

/// The basic type one token names, `None` for container tokens.
pub open spec fn spec_basic_of_token(tok: SignatureType) -> Option<SpecType> {
    match tok {
        SignatureType::Byte => Some(SpecType::Byte),
        SignatureType::Boolean => Some(SpecType::Boolean),
        SignatureType::Int16 => Some(SpecType::Int16),
        SignatureType::Uint16 => Some(SpecType::Uint16),
        SignatureType::Int32 => Some(SpecType::Int32),
        SignatureType::Uint32 => Some(SpecType::Uint32),
        SignatureType::Int64 => Some(SpecType::Int64),
        SignatureType::Uint64 => Some(SpecType::Uint64),
        SignatureType::Double => Some(SpecType::Double),
        SignatureType::UnixFd => Some(SpecType::UnixFd),
        SignatureType::String => Some(SpecType::String),
        SignatureType::ObjectPath => Some(SpecType::ObjectPath),
        SignatureType::Signature => Some(SpecType::Signature),
        _ => None,
    }
}

/// Reads one complete type from `toks` at `pos`. Returns the type and the
/// index just past it, or `None` where no complete type starts at `pos`.
pub open spec fn spec_take_type(toks: Seq<SignatureType>, pos: int) -> Option<(SpecType, int)>
    decreases toks.len() - pos, 1int,
{
    if pos < 0 || pos >= toks.len() {
        None
    } else {
        match toks[pos] {
            SignatureType::Variant => Some((SpecType::Variant, pos + 1)),
            SignatureType::Array => {
                if pos + 1 < toks.len() && toks[pos + 1] == SignatureType::DictStart {
                    // `a{` key value `}` with a basic, single-token key
                    if pos + 2 < toks.len() {
                        match spec_basic_of_token(toks[pos + 2]) {
                            None => None,
                            Some(k) => match spec_take_type(toks, pos + 3) {
                                None => None,
                                Some((v, p)) => {
                                    if p < toks.len() && toks[p] == SignatureType::DictEnd {
                                        Some((
                                            SpecType::Array(Box::new(SpecType::DictEntry(
                                                Box::new(k),
                                                Box::new(v),
                                            ))),
                                            p + 1,
                                        ))
                                    } else {
                                        None
                                    }
                                },
                            },
                        }
                    } else {
                        None
                    }
                } else {
                    match spec_take_type(toks, pos + 1) {
                        None => None,
                        Some((el, p)) => Some((SpecType::Array(Box::new(el)), p)),
                    }
                }
            },
            SignatureType::StructStart => {
                match spec_take_fields(toks, pos + 1) {
                    None => None,
                    Some((fields, p)) => {
                        if fields.len() >= 1 && p < toks.len() && toks[p]
                            == SignatureType::StructEnd {
                            Some((SpecType::Struct(fields), p + 1))
                        } else {
                            None
                        }
                    },
                }
            },
            SignatureType::StructEnd | SignatureType::DictStart | SignatureType::DictEnd => None,
            tok => match spec_basic_of_token(tok) {
                None => None,
                Some(t) => Some((t, pos + 1)),
            },
        }
    }
}

/// Reads complete types until the next token is `)`. Returns the list and
/// the index of the `)`.
pub open spec fn spec_take_fields(toks: Seq<SignatureType>, pos: int) -> Option<
    (Seq<SpecType>, int),
>
    decreases toks.len() - pos, 2int,
{
    if pos < 0 || pos >= toks.len() {
        None
    } else if toks[pos] == SignatureType::StructEnd {
        Some((Seq::empty(), pos))
    } else {
        match spec_take_type(toks, pos) {
            None => None,
            Some((t, p)) => {
                if pos < p <= toks.len() {
                    match spec_take_fields(toks, p) {
                        None => None,
                        Some((rest, q)) => Some((seq![t] + rest, q)),
                    }
                } else {
                    None
                }
            },
        }
    }
}

/// Reads complete types until the tokens end; the whole sequence must be
/// consumed exactly.
pub open spec fn spec_take_all(toks: Seq<SignatureType>, pos: int) -> Option<Seq<SpecType>>
    decreases toks.len() - pos, 2int,
{
    if pos == toks.len() {
        Some(Seq::empty())
    } else {
        match spec_take_type(toks, pos) {
            None => None,
            Some((t, p)) => {
                if pos < p <= toks.len() {
                    match spec_take_all(toks, p) {
                        None => None,
                        Some(rest) => Some(seq![t] + rest),
                    }
                } else {
                    None
                }
            },
        }
    }
}

/// A legal flat signature: its tokens split into a sequence of complete
/// types, and at most 255 tokens fit in the wire form.
pub open spec fn valid_signature(toks: Seq<SignatureType>) -> bool {
    toks.len() <= 255 && spec_take_all(toks, 0) is Some
}

/// A basic type flattens to its single token, and that token names it.
pub proof fn lemma_basic_token(t: SpecType)
    requires
        is_basic_type(t),
    ensures
        spec_flat_type(t).len() == 1,
        spec_basic_of_token(spec_flat_type(t)[0]) == Some(t),
{
}

/// The first token of a valid complete type is never a closing token nor `{`.
pub proof fn lemma_flat_first(t: SpecType)
    requires
        valid_complete(t),
    ensures
        spec_flat_type(t)[0] != SignatureType::StructEnd,
        spec_flat_type(t)[0] != SignatureType::DictStart,
        spec_flat_type(t)[0] != SignatureType::DictEnd,
{
}

/// A subrange taken out of a region that equals `whole` equals the matching
/// subrange of `whole`.
pub proof fn lemma_sub_sub<A>(s: Seq<A>, pos: int, whole: Seq<A>, off: int, m: int)
    requires
        0 <= pos,
        pos + whole.len() <= s.len(),
        s.subrange(pos, pos + whole.len()) == whole,
        0 <= off <= m <= whole.len(),
    ensures
        s.subrange(pos + off, pos + m) == whole.subrange(off, m),
{
    assert(s.subrange(pos + off, pos + m) =~= whole.subrange(off, m)) by {
        assert forall|i: int| 0 <= i < m - off implies #[trigger] s.subrange(pos + off, pos + m)[i]
            == whole.subrange(off, m)[i] by {
            assert(s.subrange(pos, pos + whole.len())[off + i] == s[pos + off + i]);
        }
    }
}

/// The byte at `pos + off` of a region that equals `whole` is `whole[off]`.
pub proof fn lemma_sub_index<A>(s: Seq<A>, pos: int, whole: Seq<A>, off: int)
    requires
        0 <= pos,
        pos + whole.len() <= s.len(),
        s.subrange(pos, pos + whole.len()) == whole,
        0 <= off < whole.len(),
    ensures
        s[pos + off] == whole[off],
{
    assert(s.subrange(pos, pos + whole.len())[off] == s[pos + off]);
}

/// Where one complete type starts, the parser consumes at least one token
/// and never runs past the end.
pub proof fn lemma_take_type_bounds(toks: Seq<SignatureType>, pos: int)
    ensures
        spec_take_type(toks, pos) matches Some((t, p)) ==> pos < p <= toks.len(),
    decreases toks.len() - pos, 1int,
{
    if 0 <= pos < toks.len() {
        match toks[pos] {
            SignatureType::Array => {
                if pos + 1 < toks.len() && toks[pos + 1] == SignatureType::DictStart {
                    if pos + 2 < toks.len() {
                        lemma_take_type_bounds(toks, pos + 3);
                    }
                } else {
                    lemma_take_type_bounds(toks, pos + 1);
                }
            },
            SignatureType::StructStart => {
                lemma_take_fields_bounds(toks, pos + 1);
            },
            _ => {},
        }
    }
}

pub proof fn lemma_take_fields_bounds(toks: Seq<SignatureType>, pos: int)
    ensures
        spec_take_fields(toks, pos) matches Some((fs, p)) ==> pos <= p < toks.len(),
    decreases toks.len() - pos, 2int,
{
    if 0 <= pos < toks.len() {
        if toks[pos] != SignatureType::StructEnd {
            lemma_take_type_bounds(toks, pos);
            if let Some((t, p)) = spec_take_type(toks, pos) {
                if pos < p <= toks.len() {
                    lemma_take_fields_bounds(toks, p);
                }
            }
        }
    }
}

/// Parsing the flat image of a valid complete type yields that type and
/// stops right after it, whatever follows.
/// The dict-entry case of [`lemma_take_flat`]: `a{` key value `}`.
#[verifier::rlimit(100)]
#[verifier::spinoff_prover]
proof fn lemma_take_flat_dict(k: SpecType, v: SpecType, toks: Seq<SignatureType>, pos: int)
    requires
        is_basic_type(k),
        valid_complete(v),
        0 <= pos,
        pos + spec_flat_type(SpecType::Array(Box::new(SpecType::DictEntry(Box::new(k), Box::new(v))))).len() <= toks.len(),
        toks.subrange(
            pos,
            pos + spec_flat_type(SpecType::Array(Box::new(SpecType::DictEntry(Box::new(k), Box::new(v))))).len(),
        ) == spec_flat_type(SpecType::Array(Box::new(SpecType::DictEntry(Box::new(k), Box::new(v))))),
    ensures
        spec_take_type(toks, pos) == Some((
            SpecType::Array(Box::new(SpecType::DictEntry(Box::new(k), Box::new(v)))),
            pos + spec_flat_type(SpecType::Array(Box::new(SpecType::DictEntry(Box::new(k), Box::new(v))))).len(),
        )),
    decreases v, 9int,
{
    let t = SpecType::Array(Box::new(SpecType::DictEntry(Box::new(k), Box::new(v))));
    let ft = spec_flat_type(t);
    let fv = spec_flat_type(v);
    lemma_basic_token(k);
    let fk = spec_flat_type(k);
    let tk = fk[0];
    assert(fk =~= seq![tk]);
    let fe = spec_flat_type(SpecType::DictEntry(Box::new(k), Box::new(v)));
    assert(fe == seq![SignatureType::DictStart] + fk + fv + seq![SignatureType::DictEnd]);
    assert(ft == seq![SignatureType::Array] + fe);
    assert(ft =~= seq![SignatureType::Array, SignatureType::DictStart, tk] + fv
        + seq![SignatureType::DictEnd]);
    lemma_sub_index(toks, pos, ft, 0);
    lemma_sub_index(toks, pos, ft, 1);
    lemma_sub_index(toks, pos, ft, 2);
    assert(toks[pos] == SignatureType::Array);
    assert(toks[pos + 1] == SignatureType::DictStart);
    assert(toks[pos + 2] == tk);
    lemma_sub_sub(toks, pos, ft, 3, 3 + fv.len() as int);
    assert(ft.subrange(3, 3 + fv.len() as int) =~= fv);
    lemma_take_flat(v, toks, pos + 3);
    let p = pos + 3 + fv.len();
    lemma_sub_index(toks, pos, ft, 3 + fv.len() as int);
    assert(ft[3 + fv.len() as int] == SignatureType::DictEnd);
    assert(toks[p] == SignatureType::DictEnd);
}

/// The plain-array case of [`lemma_take_flat`]: `a` followed by a complete
/// type that is not a dict entry.
proof fn lemma_take_flat_array(el: SpecType, toks: Seq<SignatureType>, pos: int)
    requires
        valid_complete(el),
        !(el is DictEntry),
        0 <= pos,
        pos + spec_flat_type(SpecType::Array(Box::new(el))).len() <= toks.len(),
        toks.subrange(pos, pos + spec_flat_type(SpecType::Array(Box::new(el))).len())
            == spec_flat_type(SpecType::Array(Box::new(el))),
    ensures
        spec_take_type(toks, pos) == Some((
            SpecType::Array(Box::new(el)),
            pos + spec_flat_type(SpecType::Array(Box::new(el))).len(),
        )),
    decreases el, 9int,
{
    let t = SpecType::Array(Box::new(el));
    let ft = spec_flat_type(t);
    let fe = spec_flat_type(el);
    lemma_flat_first(el);
    lemma_flat_type_len(el);
    assert(ft == seq![SignatureType::Array] + fe);
    lemma_sub_index(toks, pos, ft, 0);
    lemma_sub_index(toks, pos, ft, 1);
    assert(ft[1] == fe[0]);
    assert(toks[pos + 1] != SignatureType::DictStart);
    lemma_sub_sub(toks, pos, ft, 1, 1 + fe.len() as int);
    assert(ft.subrange(1, 1 + fe.len() as int) =~= fe);
    lemma_take_flat(el, toks, pos + 1);
}

/// The struct case of [`lemma_take_flat`].
proof fn lemma_take_flat_struct(fields: Seq<SpecType>, toks: Seq<SignatureType>, pos: int)
    requires
        fields.len() >= 1,
        valid_type_list(fields),
        0 <= pos,
        pos + spec_flat_type(SpecType::Struct(fields)).len() <= toks.len(),
        toks.subrange(pos, pos + spec_flat_type(SpecType::Struct(fields)).len())
            == spec_flat_type(SpecType::Struct(fields)),
    ensures
        spec_take_type(toks, pos) == Some((
            SpecType::Struct(fields),
            pos + spec_flat_type(SpecType::Struct(fields)).len(),
        )),
    decreases fields, 9int,
{
    let t = SpecType::Struct(fields);
    let ft = spec_flat_type(t);
    let fl = spec_flat_type_list(fields);
    assert(ft == seq![SignatureType::StructStart] + fl + seq![SignatureType::StructEnd]);
    lemma_sub_index(toks, pos, ft, 0);
    assert(toks[pos] == SignatureType::StructStart);
    lemma_sub_sub(toks, pos, ft, 1, 1 + fl.len() as int);
    assert(ft.subrange(1, 1 + fl.len() as int) =~= fl);
    lemma_sub_index(toks, pos, ft, 1 + fl.len() as int);
    assert(ft[1 + fl.len() as int] == SignatureType::StructEnd);
    lemma_take_fields_flat(fields, toks, pos + 1);
}

/// Parsing the flat image of a valid complete type yields that type and
/// stops right after it, whatever follows.
pub proof fn lemma_take_flat(t: SpecType, toks: Seq<SignatureType>, pos: int)
    requires
        valid_complete(t),
        0 <= pos,
        pos + spec_flat_type(t).len() <= toks.len(),
        toks.subrange(pos, pos + spec_flat_type(t).len()) == spec_flat_type(t),
    ensures
        spec_take_type(toks, pos) == Some((t, pos + spec_flat_type(t).len())),
    decreases t, 4int,
{
    let ft = spec_flat_type(t);
    lemma_sub_index(toks, pos, ft, 0);
    match t {
        SpecType::Array(el) => {
            match *el {
                SpecType::DictEntry(k, v) => {
                    lemma_take_flat_dict(*k, *v, toks, pos);
                },
                _ => {
                    lemma_take_flat_array(*el, toks, pos);
                },
            }
        },
        SpecType::Struct(fields) => {
            lemma_take_flat_struct(fields, toks, pos);
        },
        _ => {
            if is_basic_type(t) {
                lemma_basic_token(t);
            }
        },
    }
}

/// Parsing the flat image of a valid field list, closed by `)`, yields the
/// list and stops at the `)`.
pub proof fn lemma_take_fields_flat(fs: Seq<SpecType>, toks: Seq<SignatureType>, pos: int)
    requires
        valid_type_list(fs),
        0 <= pos,
        pos + spec_flat_type_list(fs).len() < toks.len(),
        toks.subrange(pos, pos + spec_flat_type_list(fs).len()) == spec_flat_type_list(fs),
        toks[pos + spec_flat_type_list(fs).len()] == SignatureType::StructEnd,
    ensures
        spec_take_fields(toks, pos) == Some((fs, pos + spec_flat_type_list(fs).len())),
    decreases fs, 2int,
{
    let fl = spec_flat_type_list(fs);
    if fs.len() == 0 {
        assert(fl.len() == 0);
        assert(toks[pos] == SignatureType::StructEnd);
        assert(fs =~= Seq::<SpecType>::empty());
    } else {
        let f0 = spec_flat_type(fs[0]);
        let rest = fs.drop_first();
        let rl = spec_flat_type_list(rest);
        assert(fl == f0 + rl);
        lemma_flat_type_len(fs[0]);
        lemma_flat_first(fs[0]);
        lemma_sub_index(toks, pos, fl, 0);
        assert(fl[0] == f0[0]);
        assert(toks[pos] != SignatureType::StructEnd);
        lemma_sub_sub(toks, pos, fl, 0, f0.len() as int);
        assert(fl.subrange(0, f0.len() as int) =~= f0);
        lemma_take_flat(fs[0], toks, pos);
        let p = pos + f0.len();
        lemma_sub_sub(toks, pos, fl, f0.len() as int, fl.len() as int);
        assert(fl.subrange(f0.len() as int, fl.len() as int) =~= rl);
        lemma_take_fields_flat(rest, toks, p);
        assert(seq![fs[0]] + rest =~= fs);
    }
}

/// Parsing the concatenated flat images of a valid type list, with nothing
/// after them, yields exactly that list.
pub proof fn lemma_take_all_flat(ts: Seq<SpecType>, toks: Seq<SignatureType>, pos: int)
    requires
        valid_type_list(ts),
        0 <= pos,
        pos + spec_flat_type_list(ts).len() == toks.len(),
        toks.subrange(pos, toks.len() as int) == spec_flat_type_list(ts),
    ensures
        spec_take_all(toks, pos) == Some(ts),
    decreases toks.len() - pos,
{
    let fl = spec_flat_type_list(ts);
    if ts.len() == 0 {
        assert(fl.len() == 0);
        assert(pos == toks.len());
        assert(ts =~= Seq::<SpecType>::empty());
    } else {
        let f0 = spec_flat_type(ts[0]);
        let rest = ts.drop_first();
        let rl = spec_flat_type_list(rest);
        assert(fl == f0 + rl);
        lemma_flat_type_len(ts[0]);
        lemma_sub_sub(toks, pos, fl, 0, f0.len() as int);
        assert(fl.subrange(0, f0.len() as int) =~= f0);
        lemma_take_flat(ts[0], toks, pos);
        let p = pos + f0.len();
        assert(pos < p <= toks.len());
        lemma_sub_sub(toks, pos, fl, f0.len() as int, fl.len() as int);
        assert(fl.subrange(f0.len() as int, fl.len() as int) =~= rl);
        lemma_take_all_flat(rest, toks, p);
        assert(seq![ts[0]] + rest =~= ts);
    }
}

/// The flat image of one valid complete type, alone, parses to that type
/// alone.
pub proof fn lemma_take_all_single(t: SpecType)
    requires
        valid_complete(t),
    ensures
        spec_take_all(spec_flat_type(t), 0) == Some(seq![t]),
{
    let toks = spec_flat_type(t);
    let ts = seq![t];
    assert(ts.drop_first() =~= Seq::<SpecType>::empty());
    assert(spec_flat_type_list(ts) == spec_flat_type(t) + spec_flat_type_list(ts.drop_first()));
    assert(spec_flat_type_list(ts) =~= toks);
    assert(ts[0] == t);
    assert(valid_type_list(Seq::<SpecType>::empty()));
    assert(valid_type_list(ts));
    assert(toks.subrange(0, toks.len() as int) =~= toks);
    lemma_take_all_flat(ts, toks, 0);
}


/// The model of a type list keeps its length.
pub proof fn lemma_type_model_list_len(ts: Seq<CompleteType>)
    ensures
        type_model_list(ts).len() == ts.len(),
    decreases ts,
{
    if ts.len() > 0 {
        lemma_type_model_list_len(ts.drop_first());
    }
}

/// The executable counterpart of [`spec_basic_of_token`].
pub fn basic_of_token(tok: SignatureType) -> (r: Option<CompleteType>)
    ensures
        (match r {
            None => spec_basic_of_token(tok) is None,
            Some(ct) => spec_basic_of_token(tok) == Some(ct@),
        }),
{
    match tok {
        SignatureType::Byte => Some(CompleteType::Byte),
        SignatureType::Boolean => Some(CompleteType::Boolean),
        SignatureType::Int16 => Some(CompleteType::Int16),
        SignatureType::Uint16 => Some(CompleteType::Uint16),
        SignatureType::Int32 => Some(CompleteType::Int32),
        SignatureType::Uint32 => Some(CompleteType::Uint32),
        SignatureType::Int64 => Some(CompleteType::Int64),
        SignatureType::Uint64 => Some(CompleteType::Uint64),
        SignatureType::Double => Some(CompleteType::Double),
        SignatureType::UnixFd => Some(CompleteType::UnixFd),
        SignatureType::String => Some(CompleteType::String),
        SignatureType::ObjectPath => Some(CompleteType::ObjectPath),
        SignatureType::Signature => Some(CompleteType::Signature),
        _ => None,
    }
}

/// Reads one complete type from `toks` at `pos`, as [`spec_take_type`] does.
pub fn take_type(toks: &Vec<SignatureType>, pos: usize) -> (r: Option<(CompleteType, usize)>)
    ensures
        (match r {
            None => spec_take_type(toks@, pos as int) is None,
            Some((ct, p)) => spec_take_type(toks@, pos as int) == Some((ct@, p as int)),
        }),
    decreases toks@.len() - pos, 1int,
{
    if pos >= toks.len() {
        return None;
    }
    match toks[pos] {
        SignatureType::Variant => Some((CompleteType::Variant, pos + 1)),
        SignatureType::Array => {
            if pos + 1 < toks.len() && toks[pos + 1] == SignatureType::DictStart {
                if pos + 2 < toks.len() {
                    match basic_of_token(toks[pos + 2]) {
                        None => None,
                        Some(k) => match take_type(toks, pos + 3) {
                            None => None,
                            Some((v, p)) => {
                                if p < toks.len() && toks[p] == SignatureType::DictEnd {
                                    let entry = CompleteType::DictEntry(Box::new(k), Box::new(v));
                                    proof {
                                        assert(entry@ == SpecType::DictEntry(
                                            Box::new(type_model(k)),
                                            Box::new(type_model(v)),
                                        ));
                                    }
                                    let arr = CompleteType::Array(Box::new(entry));
                                    proof {
                                        assert(arr@ == SpecType::Array(Box::new(entry@)));
                                    }
                                    Some((arr, p + 1))
                                } else {
                                    None
                                }
                            },
                        },
                    }
                } else {
                    None
                }
            } else {
                match take_type(toks, pos + 1) {
                    None => None,
                    Some((el, p)) => Some((CompleteType::Array(Box::new(el)), p)),
                }
            }
        },
        SignatureType::StructStart => {
            match take_fields(toks, pos + 1) {
                None => None,
                Some((fields, p)) => {
                    proof {
                        lemma_type_model_list_len(fields@);
                    }
                    if fields.len() >= 1 && p < toks.len() && toks[p] == SignatureType::StructEnd {
                        Some((CompleteType::Struct(fields), p + 1))
                    } else {
                        None
                    }
                },
            }
        },
        SignatureType::StructEnd | SignatureType::DictStart | SignatureType::DictEnd => None,
        tok => match basic_of_token(tok) {
            None => None,
            Some(t) => Some((t, pos + 1)),
        },
    }
}

/// Reads complete types up to the next `)`, as [`spec_take_fields`] does.
pub fn take_fields(toks: &Vec<SignatureType>, pos: usize) -> (r: Option<(Vec<CompleteType>, usize)>)
    ensures
        (match r {
            None => spec_take_fields(toks@, pos as int) is None,
            Some((fs, p)) => spec_take_fields(toks@, pos as int) == Some((
                type_model_list(fs@),
                p as int,
            )),
        }),
    decreases toks@.len() - pos, 2int,
{
    if pos >= toks.len() {
        return None;
    }
    if toks[pos] == SignatureType::StructEnd {
        let fields: Vec<CompleteType> = Vec::new();
        return Some((fields, pos));
    }
    match take_type(toks, pos) {
        None => None,
        Some((t, p)) => {
            proof {
                lemma_take_type_bounds(toks@, pos as int);
            }
            match take_fields(toks, p) {
                None => None,
                Some((mut rest, q)) => {
                    let ghost old_rest = rest@;
                    rest.insert(0, t);
                    proof {
                        assert(rest@ == seq![t] + old_rest);
                        assert(rest@[0] == t);
                        assert(rest@.drop_first() =~= old_rest);
                        assert(type_model_list(rest@) == seq![type_model(t)] + type_model_list(
                            old_rest,
                        ));
                    }
                    Some((rest, q))
                },
            }
        },
    }
}

/// Reads complete types until the tokens end, as [`spec_take_all`] does.
pub fn take_all(toks: &Vec<SignatureType>, pos: usize) -> (r: Option<Vec<CompleteType>>)
    requires
        pos <= toks@.len(),
    ensures
        (match r {
            None => spec_take_all(toks@, pos as int) is None,
            Some(ts) => spec_take_all(toks@, pos as int) == Some(type_model_list(ts@)),
        }),
    decreases toks@.len() - pos,
{
    if pos == toks.len() {
        let ts: Vec<CompleteType> = Vec::new();
        return Some(ts);
    }
    match take_type(toks, pos) {
        None => None,
        Some((t, p)) => {
            proof {
                lemma_take_type_bounds(toks@, pos as int);
            }
            match take_all(toks, p) {
                None => None,
                Some(mut rest) => {
                    let ghost old_rest = rest@;
                    rest.insert(0, t);
                    proof {
                        assert(rest@ == seq![t] + old_rest);
                        assert(rest@[0] == t);
                        assert(rest@.drop_first() =~= old_rest);
                        assert(type_model_list(rest@) == seq![type_model(t)] + type_model_list(
                            old_rest,
                        ));
                    }
                    Some(rest)
                },
            }
        },
    }
}

/// Splits a flat signature into its complete types; `None` where the grammar
/// is broken.
pub fn parse_type_list(sig: &Signature) -> (r: Option<Vec<CompleteType>>)
    ensures
        (match r {
            None => spec_take_all(sig@, 0) is None,
            Some(ts) => spec_take_all(sig@, 0) == Some(type_model_list(ts@)),
        }),
{
    take_all(&sig.0, 0)
}

/// A byte outside the alphabet anywhere makes the whole image unreadable.
pub proof fn lemma_tokens_of_bad(s: Seq<u8>, i: int)
    requires
        0 <= i < s.len(),
        spec_byte_token(s[i]) is None,
    ensures
        spec_tokens_of(s) is None,
    decreases s.len(),
{
    if s.len() > 0 {
        if spec_byte_token(s[0]) is Some {
            assert(i > 0);
            lemma_tokens_of_bad(s.drop_first(), i - 1);
        }
    }
}

/// Reading tokens commutes with appending one byte.
pub proof fn lemma_tokens_of_push(s: Seq<u8>, b: u8)
    ensures
        (match (spec_tokens_of(s), spec_byte_token(b)) {
            (Some(ts), Some(t)) => spec_tokens_of(s.push(b)) == Some(ts.push(t)),
            (None, _) => spec_tokens_of(s.push(b)) is None,
            (_, None) => spec_tokens_of(s.push(b)) is None,
        }),
    decreases s.len(),
{
    if s.len() == 0 {
        reveal_with_fuel(spec_tokens_of, 2);
        assert(s.push(b).len() == 1);
        assert(s.push(b)[0] == b);
        assert(s.push(b).drop_first() =~= Seq::<u8>::empty());
        if let Some(t) = spec_byte_token(b) {
            assert(spec_tokens_of(s.push(b)) == Some(seq![t] + Seq::<SignatureType>::empty()));
            assert(seq![t] + Seq::<SignatureType>::empty() =~= Seq::<SignatureType>::empty().push(
                t,
            ));
            assert(spec_tokens_of(s) == Some(Seq::<SignatureType>::empty()));
        }
    } else {
        assert(s.push(b)[0] == s[0]);
        assert(s.push(b).drop_first() =~= s.drop_first().push(b));
        lemma_tokens_of_push(s.drop_first(), b);
        match (spec_tokens_of(s), spec_byte_token(b)) {
            (Some(ts), Some(t)) => {
                let rest = spec_tokens_of(s.drop_first()).unwrap();
                assert(ts == seq![spec_byte_token(s[0]).unwrap()] + rest);
                assert(spec_tokens_of(s.push(b)) == Some(
                    seq![spec_byte_token(s[0]).unwrap()] + rest.push(t),
                ));
                assert(seq![spec_byte_token(s[0]).unwrap()] + rest.push(t) =~= ts.push(t));
            },
            _ => {},
        }
    }
}

/// What parsing an ASCII signature yields: its token sequence, or the first
/// reason it is no signature. An image longer than 255 bytes cannot ride in
/// a signature value, so it is refused outright.
pub open spec fn spec_parse_signature(s: Seq<u8>) -> Result<Seq<SignatureType>, DbusParseError> {
    if s.len() > 255 {
        Err(DbusParseError::MalformedSignature)
    } else {
        match spec_tokens_of(s) {
            None => Err(DbusParseError::InvalidSignatureToken),
            Some(toks) => if spec_take_all(toks, 0) is Some {
                Ok(toks)
            } else {
                Err(DbusParseError::MalformedSignature)
            },
        }
    }
}

/// Parses a signature from its ASCII form: every byte must name a token and
/// the tokens must form complete types.
pub fn parse_signature(ascii: &[u8]) -> (r: Result<Signature, DbusParseError>)
    ensures
        (match r {
            Ok(sig) => spec_parse_signature(ascii@) == Ok::<_, DbusParseError>(sig@),
            Err(k) => spec_parse_signature(ascii@) == Err::<Seq<SignatureType>, _>(k),
        }),
{
    let n = ascii.len();
    if n > 255 {
        return Err(DbusParseError::MalformedSignature);
    }
    let mut toks: Vec<SignatureType> = Vec::new();
    let mut i: usize = 0;
    while i < n
        invariant
            i <= n,
            n <= 255,
            n == ascii@.len(),
            spec_tokens_of(ascii@.subrange(0, i as int)) == Some(toks@),
        decreases n - i,
    {
        let b = *vstd::slice::slice_index_get(ascii, i);
        match byte_token(b) {
            None => {
                proof {
                    lemma_tokens_of_bad(ascii@, i as int);
                }
                return Err(DbusParseError::InvalidSignatureToken);
            },
            Some(t) => {
                proof {
                    lemma_tokens_of_push(ascii@.subrange(0, i as int), b);
                    assert(ascii@.subrange(0, i as int).push(b) =~= ascii@.subrange(0, i + 1));
                }
                toks.push(t);
            },
        }
        i = i + 1;
    }
    proof {
        assert(ascii@.subrange(0, n as int) =~= ascii@);
    }
    match take_all(&toks, 0) {
        None => Err(DbusParseError::MalformedSignature),
        Some(_) => Ok(Signature(toks)),
    }
}

/// Rendering a legal signature and parsing the image back yields the same
/// signature: `parse_signature(render_signature(s)) == s`.
pub proof fn lemma_parse_render_signature(toks: Seq<SignatureType>)
    requires
        valid_signature(toks),
    ensures
        spec_parse_signature(spec_render_signature(toks)) == Ok::<_, DbusParseError>(toks),
{
    lemma_tokens_of_render(toks);
}

impl Clone for CompleteType {
    /// A deep copy with the same model.
    fn clone(&self) -> (r: Self)
        ensures
            r@ == self@,
        decreases *self,
    {
        match self {
            CompleteType::Byte => CompleteType::Byte,
            CompleteType::Boolean => CompleteType::Boolean,
            CompleteType::Int16 => CompleteType::Int16,
            CompleteType::Uint16 => CompleteType::Uint16,
            CompleteType::Int32 => CompleteType::Int32,
            CompleteType::Uint32 => CompleteType::Uint32,
            CompleteType::Int64 => CompleteType::Int64,
            CompleteType::Uint64 => CompleteType::Uint64,
            CompleteType::Double => CompleteType::Double,
            CompleteType::UnixFd => CompleteType::UnixFd,
            CompleteType::String => CompleteType::String,
            CompleteType::ObjectPath => CompleteType::ObjectPath,
            CompleteType::Signature => CompleteType::Signature,
            CompleteType::Variant => CompleteType::Variant,
            CompleteType::Array(el) => {
                let c = (**el).clone();
                let r = CompleteType::Array(Box::new(c));
                proof {
                    assert(r@ == SpecType::Array(Box::new(c@)));
                }
                r
            },
            CompleteType::Struct(fields) => {
                let n = fields.len();
                let mut out: Vec<CompleteType> = Vec::new();
                let mut i: usize = 0;
                while i < n
                    invariant
                        i <= n,
                        n == fields@.len(),
                        *self == CompleteType::Struct(*fields),
                        out@.len() == i,
                        forall|j: int| 0 <= j < i ==> (#[trigger] out@[j])@ == fields@[j]@,
                    decreases n - i,
                {
                    proof {
                        assert(decreases_to!(*self => self->Struct_0));
                        assert(self->Struct_0 == *fields);
                        assert(decreases_to!(*fields => fields@));
                        assert(decreases_to!(fields@ => fields@[i as int]));
                    }
                    let c = fields[i].clone();
                    out.push(c);
                    i = i + 1;
                }
                let r = CompleteType::Struct(out);
                proof {
                    lemma_model_list_pointwise(out@, fields@);
                    assert(r@ == SpecType::Struct(type_model_list(out@)));
                    assert((*self)@ == SpecType::Struct(type_model_list(fields@)));
                }
                r
            },
            CompleteType::DictEntry(k, v) => {
                let ck = (**k).clone();
                let cv = (**v).clone();
                let r = CompleteType::DictEntry(Box::new(ck), Box::new(cv));
                proof {
                    assert(r@ == SpecType::DictEntry(Box::new(ck@), Box::new(cv@)));
                }
                r
            },
        }
    }
}

/// Two type lists whose members have equal models have equal list models.
pub proof fn lemma_model_list_pointwise(xs: Seq<CompleteType>, ys: Seq<CompleteType>)
    requires
        xs.len() == ys.len(),
        forall|j: int| 0 <= j < xs.len() ==> (#[trigger] xs[j])@ == ys[j]@,
    ensures
        type_model_list(xs) == type_model_list(ys),
    decreases xs,
{
    if xs.len() > 0 {
        assert(forall|j: int| 0 <= j < xs.drop_first().len() ==> (#[trigger] xs.drop_first()[j])@
            == ys.drop_first()[j]@) by {
            assert(forall|j: int| 0 <= j < xs.drop_first().len() ==> xs.drop_first()[j] == xs[j
                + 1] && ys.drop_first()[j] == ys[j + 1]);
        }
        lemma_model_list_pointwise(xs.drop_first(), ys.drop_first());
    }
}

/// Appends the flat token image of one complete type.
pub fn flat_tokens_into(t: &CompleteType, out: &mut Vec<SignatureType>)
    ensures
        final(out)@ == old(out)@ + spec_flat_type(t@),
    decreases *t,
{
    match t {
        CompleteType::Byte => out.push(SignatureType::Byte),
        CompleteType::Boolean => out.push(SignatureType::Boolean),
        CompleteType::Int16 => out.push(SignatureType::Int16),
        CompleteType::Uint16 => out.push(SignatureType::Uint16),
        CompleteType::Int32 => out.push(SignatureType::Int32),
        CompleteType::Uint32 => out.push(SignatureType::Uint32),
        CompleteType::Int64 => out.push(SignatureType::Int64),
        CompleteType::Uint64 => out.push(SignatureType::Uint64),
        CompleteType::Double => out.push(SignatureType::Double),
        CompleteType::UnixFd => out.push(SignatureType::UnixFd),
        CompleteType::String => out.push(SignatureType::String),
        CompleteType::ObjectPath => out.push(SignatureType::ObjectPath),
        CompleteType::Signature => out.push(SignatureType::Signature),
        CompleteType::Variant => out.push(SignatureType::Variant),
        CompleteType::Array(el) => {
            out.push(SignatureType::Array);
            flat_tokens_into(el, out);
            proof {
                assert(out@ =~= old(out)@ + spec_flat_type(t@));
            }
        },
        CompleteType::Struct(fields) => {
            out.push(SignatureType::StructStart);
            let n = fields.len();
            let mut i: usize = 0;
            proof {
                assert(fields@.skip(0) =~= fields@);
            }
            while i < n
                invariant
                    i <= n,
                    n == fields@.len(),
                    *t == CompleteType::Struct(*fields),
                    out@ == old(out)@ + seq![SignatureType::StructStart] + spec_flat_type_list(
                        type_model_list(fields@),
                    ).subrange(
                        0,
                        spec_flat_type_list(type_model_list(fields@)).len() - spec_flat_type_list(
                            type_model_list(fields@.skip(i as int)),
                        ).len(),
                    ),
                    spec_flat_type_list(type_model_list(fields@.skip(i as int))).len()
                        <= spec_flat_type_list(type_model_list(fields@)).len(),
                    spec_flat_type_list(type_model_list(fields@)) == spec_flat_type_list(
                        type_model_list(fields@),
                    ).subrange(
                        0,
                        spec_flat_type_list(type_model_list(fields@)).len() - spec_flat_type_list(
                            type_model_list(fields@.skip(i as int)),
                        ).len(),
                    ) + spec_flat_type_list(type_model_list(fields@.skip(i as int))),
                decreases n - i,
            {
                proof {
                    assert(decreases_to!(*t => t->Struct_0));
                    assert(t->Struct_0 == *fields);
                    assert(decreases_to!(*fields => fields@));
                    assert(decreases_to!(fields@ => fields@[i as int]));
                }
                flat_tokens_into(&fields[i], out);
                proof {
                    lemma_flat_skip_step(fields@, i as int);
                }
                i = i + 1;
            }
            proof {
                assert(fields@.skip(n as int) =~= Seq::<CompleteType>::empty());
            }
            out.push(SignatureType::StructEnd);
            proof {
                assert(out@ =~= old(out)@ + spec_flat_type(t@));
            }
        },
        CompleteType::DictEntry(k, v) => {
            out.push(SignatureType::DictStart);
            flat_tokens_into(k, out);
            flat_tokens_into(v, out);
            out.push(SignatureType::DictEnd);
            proof {
                assert(t@ == SpecType::DictEntry(Box::new((**k)@), Box::new((**v)@)));
                assert(out@ =~= old(out)@ + spec_flat_type(t@));
            }
        },
    }
}

/// One step of flattening a field list: the next field's tokens join the
/// done prefix.
proof fn lemma_flat_skip_step(fields: Seq<CompleteType>, i: int)
    requires
        0 <= i < fields.len(),
    ensures
        spec_flat_type_list(type_model_list(fields.skip(i))) == spec_flat_type(fields[i]@)
            + spec_flat_type_list(type_model_list(fields.skip(i + 1))),
{
    let s = fields.skip(i);
    assert(s.len() > 0);
    assert(s[0] == fields[i]);
    assert(s.drop_first() =~= fields.skip(i + 1));
    assert(type_model_list(s) == seq![type_model(s[0])] + type_model_list(s.drop_first()));
    let ml = type_model_list(s);
    assert(ml[0] == type_model(fields[i]));
    assert(ml.drop_first() =~= type_model_list(fields.skip(i + 1)));
    assert(spec_flat_type_list(ml) == spec_flat_type(ml[0]) + spec_flat_type_list(ml.drop_first()));
}

/// The model of a type list maps its members pointwise.
pub proof fn lemma_type_model_list(ts: Seq<CompleteType>)
    ensures
        type_model_list(ts).len() == ts.len(),
        forall|i: int| 0 <= i < ts.len() ==> type_model_list(ts)[i] == type_model(ts[i]),
    decreases ts,
{
    if ts.len() > 0 {
        lemma_type_model_list(ts.drop_first());
    }
}

} // verus!
