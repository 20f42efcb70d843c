//! The D-Bus type alphabet and flat signatures: sequences of tokens, read
//! from and written to their ASCII wire form.

use crate::error::DbusParseError;
use vstd::prelude::*;

verus! {

broadcast use {vstd::seq::group_seq_axioms, vstd::std_specs::vec::group_vec_axioms};

/// One character of the D-Bus type alphabet.
#[derive(Clone, Copy, Debug, PartialEq, Eq, Structural)]
pub enum SignatureType {
    /// `y`
    Byte,
    /// `b`
    Boolean,
    /// `n`
    Int16,
    /// `q`
    Uint16,
    /// `i`
    Int32,
    /// `u`
    Uint32,
    /// `x`
    Int64,
    /// `t`
    Uint64,
    /// `d`
    Double,
    /// `h`
    UnixFd,
    /// `s`
    String,
    /// `o`
    ObjectPath,
    /// `g`
    Signature,
    /// `a`
    Array,
    /// `v`
    Variant,
    /// `(`
    StructStart,
    /// `)`
    StructEnd,
    /// `{`
    DictStart,
    /// `}`
    DictEnd,
}

/// The ASCII byte that carries this token on the wire.
pub open spec fn spec_token_byte(t: SignatureType) -> u8 {
    match t {
        SignatureType::Byte => 0x79,  // y
        SignatureType::Boolean => 0x62,  // b
        SignatureType::Int16 => 0x6e,  // n
        SignatureType::Uint16 => 0x71,  // q
        SignatureType::Int32 => 0x69,  // i
        SignatureType::Uint32 => 0x75,  // u
        SignatureType::Int64 => 0x78,  // x
        SignatureType::Uint64 => 0x74,  // t
        SignatureType::Double => 0x64,  // d
        SignatureType::UnixFd => 0x68,  // h
        SignatureType::String => 0x73,  // s
        SignatureType::ObjectPath => 0x6f,  // o
        SignatureType::Signature => 0x67,  // g
        SignatureType::Array => 0x61,  // a
        SignatureType::Variant => 0x76,  // v
        SignatureType::StructStart => 0x28,  // (
        SignatureType::StructEnd => 0x29,  // )
        SignatureType::DictStart => 0x7b,  // {
        SignatureType::DictEnd => 0x7d,  // }
    }
}

/// The token a byte stands for; `None` outside the alphabet.
pub open spec fn spec_byte_token(b: u8) -> Option<SignatureType> {
    if b == 0x79 {
        Some(SignatureType::Byte)
    } else if b == 0x62 {
        Some(SignatureType::Boolean)
    } else if b == 0x6e {
        Some(SignatureType::Int16)
    } else if b == 0x71 {
        Some(SignatureType::Uint16)
    } else if b == 0x69 {
        Some(SignatureType::Int32)
    } else if b == 0x75 {
        Some(SignatureType::Uint32)
    } else if b == 0x78 {
        Some(SignatureType::Int64)
    } else if b == 0x74 {
        Some(SignatureType::Uint64)
    } else if b == 0x64 {
        Some(SignatureType::Double)
    } else if b == 0x68 {
        Some(SignatureType::UnixFd)
    } else if b == 0x73 {
        Some(SignatureType::String)
    } else if b == 0x6f {
        Some(SignatureType::ObjectPath)
    } else if b == 0x67 {
        Some(SignatureType::Signature)
    } else if b == 0x61 {
        Some(SignatureType::Array)
    } else if b == 0x76 {
        Some(SignatureType::Variant)
    } else if b == 0x28 {
        Some(SignatureType::StructStart)
    } else if b == 0x29 {
        Some(SignatureType::StructEnd)
    } else if b == 0x7b {
        Some(SignatureType::DictStart)
    } else if b == 0x7d {
        Some(SignatureType::DictEnd)
    } else {
        None
    }
}

/// Reading a token's byte back yields the token.
pub proof fn lemma_token_byte_inverse(t: SignatureType)
    ensures
        spec_byte_token(spec_token_byte(t)) == Some(t),
{
}

pub fn token_byte(t: SignatureType) -> (r: u8)
    ensures
        r == spec_token_byte(t),
{
    match t {
        SignatureType::Byte => 0x79,
        SignatureType::Boolean => 0x62,
        SignatureType::Int16 => 0x6e,
        SignatureType::Uint16 => 0x71,
        SignatureType::Int32 => 0x69,
        SignatureType::Uint32 => 0x75,
        SignatureType::Int64 => 0x78,
        SignatureType::Uint64 => 0x74,
        SignatureType::Double => 0x64,
        SignatureType::UnixFd => 0x68,
        SignatureType::String => 0x73,
        SignatureType::ObjectPath => 0x6f,
        SignatureType::Signature => 0x67,
        SignatureType::Array => 0x61,
        SignatureType::Variant => 0x76,
        SignatureType::StructStart => 0x28,
        SignatureType::StructEnd => 0x29,
        SignatureType::DictStart => 0x7b,
        SignatureType::DictEnd => 0x7d,
    }
}

pub fn byte_token(b: u8) -> (r: Option<SignatureType>)
    ensures
        r == spec_byte_token(b),
{
    if b == 0x79 {
        Some(SignatureType::Byte)
    } else if b == 0x62 {
        Some(SignatureType::Boolean)
    } else if b == 0x6e {
        Some(SignatureType::Int16)
    } else if b == 0x71 {
        Some(SignatureType::Uint16)
    } else if b == 0x69 {
        Some(SignatureType::Int32)
    } else if b == 0x75 {
        Some(SignatureType::Uint32)
    } else if b == 0x78 {
        Some(SignatureType::Int64)
    } else if b == 0x74 {
        Some(SignatureType::Uint64)
    } else if b == 0x64 {
        Some(SignatureType::Double)
    } else if b == 0x68 {
        Some(SignatureType::UnixFd)
    } else if b == 0x73 {
        Some(SignatureType::String)
    } else if b == 0x6f {
        Some(SignatureType::ObjectPath)
    } else if b == 0x67 {
        Some(SignatureType::Signature)
    } else if b == 0x61 {
        Some(SignatureType::Array)
    } else if b == 0x76 {
        Some(SignatureType::Variant)
    } else if b == 0x28 {
        Some(SignatureType::StructStart)
    } else if b == 0x29 {
        Some(SignatureType::StructEnd)
    } else if b == 0x7b {
        Some(SignatureType::DictStart)
    } else if b == 0x7d {
        Some(SignatureType::DictEnd)
    } else {
        None
    }
}

/// A flat signature: the ordered token sequence that describes zero or more
/// complete types.
#[derive(Debug, PartialEq, Eq)]
pub struct Signature(pub Vec<SignatureType>);

impl Clone for Signature {
    fn clone(&self) -> (r: Self)
        ensures
            r@ == self@,
    {
        Signature(vstd::slice::slice_to_vec(self.0.as_slice()))
    }
}

impl View for Signature {
    type V = Seq<SignatureType>;

    open spec fn view(&self) -> Seq<SignatureType> {
        self.0@
    }
}

impl Signature {
    pub fn new(signature: Vec<SignatureType>) -> (r: Self)
        ensures
            r@ == signature@,
    {
        Signature(signature)
    }
}

/// The ASCII image of a token sequence.
pub open spec fn spec_render_signature(toks: Seq<SignatureType>) -> Seq<u8> {
    Seq::new(toks.len(), |i: int| spec_token_byte(toks[i]))
}

/// Writes the signature in its ASCII form, one byte per token.
pub fn render_signature(sig: &Signature) -> (r: Vec<u8>)
    ensures
        r@ == spec_render_signature(sig@),
{
    let mut out: Vec<u8> = Vec::new();
    let n = sig.0.len();
    let mut i: usize = 0;
    while i < n
        invariant
            i <= n,
            n == sig.0@.len(),
            out@ == spec_render_signature(sig@).subrange(0, i as int),
        decreases n - i,
    {
        out.push(token_byte(sig.0[i]));
        proof {
            assert(out@ =~= spec_render_signature(sig@).subrange(0, i + 1));
        }
        i = i + 1;
    }
    proof {
        assert(spec_render_signature(sig@).subrange(0, n as int) =~= spec_render_signature(sig@));
    }
    out
}

/// The token sequence of an ASCII image, or `None` at the first byte outside
/// the alphabet.
pub open spec fn spec_tokens_of(s: Seq<u8>) -> Option<Seq<SignatureType>>
    decreases s.len(),
{
    if s.len() == 0 {
        Some(Seq::empty())
    } else {
        match spec_byte_token(s[0]) {
            None => None,
            Some(t) => match spec_tokens_of(s.drop_first()) {
                None => None,
                Some(rest) => Some(seq![t] + rest),
            },
        }
    }
}

/// Rendering tokens and reading them back yields the tokens.
pub proof fn lemma_tokens_of_render(toks: Seq<SignatureType>)
    ensures
        spec_tokens_of(spec_render_signature(toks)) == Some(toks),
    decreases toks.len(),
{
    let s = spec_render_signature(toks);
    if toks.len() == 0 {
        assert(spec_tokens_of(s) == Some(Seq::<SignatureType>::empty()));
        assert(Seq::<SignatureType>::empty() =~= toks);
    } else {
        lemma_token_byte_inverse(toks[0]);
        lemma_tokens_of_render(toks.drop_first());
        assert(s.drop_first() =~= spec_render_signature(toks.drop_first()));
        assert(seq![toks[0]] + toks.drop_first() =~= toks);
    }
}

impl SignatureType {
    /// Reads a token from its ASCII byte; bytes outside the alphabet are
    /// refused.
    pub fn try_from(value: u8) -> (r: Result<Self, crate::error::DbusParseError>)
        ensures
            (match spec_byte_token(value) {
                Some(t) => r == Ok::<_, crate::error::DbusParseError>(t),
                None => r == Err::<Self, _>(crate::error::DbusParseError::InvalidSignatureToken),
            }),
    {
        match byte_token(value) {
            Some(t) => Ok(t),
            None => Err(crate::error::DbusParseError::InvalidSignatureToken),
        }
    }
}

} // verus!
