//! UTF-8 well-formedness of byte sequences, checked without decoding:
//! strings and object paths must carry valid UTF-8 on the wire.

use vstd::prelude::*;

verus! {

broadcast use {vstd::seq::group_seq_axioms, vstd::std_specs::vec::group_vec_axioms};

/// A continuation byte `10xxxxxx`.
pub open spec fn is_cont_byte(b: u8) -> bool {
    0x80 <= b <= 0xbf
}

/// How many bytes the scalar starting with `b0` takes, by the shortest-form
/// rules; 0 where no scalar may start with `b0`.
pub open spec fn utf8_seq_len(b0: u8) -> int {
    if b0 < 0x80 {
        1
    } else if 0xc2 <= b0 <= 0xdf {
        2
    } else if 0xe0 <= b0 <= 0xef {
        3
    } else if 0xf0 <= b0 <= 0xf4 {
        4
    } else {
        0
    }
}

/// The bytes after `b0` complete one scalar: continuation bytes, with the
/// ranges that exclude overlong forms and surrogates.
pub open spec fn utf8_tail_ok(s: Seq<u8>) -> bool
    recommends
        s.len() >= 1,
{
    let b0 = s[0];
    if b0 < 0x80 {
        true
    } else if 0xc2 <= b0 <= 0xdf {
        s.len() >= 2 && is_cont_byte(s[1])
    } else if b0 == 0xe0 {
        s.len() >= 3 && 0xa0 <= s[1] <= 0xbf && is_cont_byte(s[2])
    } else if 0xe1 <= b0 <= 0xec || b0 == 0xee || b0 == 0xef {
        s.len() >= 3 && is_cont_byte(s[1]) && is_cont_byte(s[2])
    } else if b0 == 0xed {
        s.len() >= 3 && 0x80 <= s[1] <= 0x9f && is_cont_byte(s[2])
    } else if b0 == 0xf0 {
        s.len() >= 4 && 0x90 <= s[1] <= 0xbf && is_cont_byte(s[2]) && is_cont_byte(s[3])
    } else if 0xf1 <= b0 <= 0xf3 {
        s.len() >= 4 && is_cont_byte(s[1]) && is_cont_byte(s[2]) && is_cont_byte(s[3])
    } else if b0 == 0xf4 {
        s.len() >= 4 && 0x80 <= s[1] <= 0x8f && is_cont_byte(s[2]) && is_cont_byte(s[3])
    } else {
        false
    }
}

/// The whole sequence is a chain of well-formed scalars.
pub open spec fn is_utf8(s: Seq<u8>) -> bool
    decreases s.len(),
{
    if s.len() == 0 {
        true
    } else {
        let k = utf8_seq_len(s[0]);
        k >= 1 && utf8_tail_ok(s) && k <= s.len() && is_utf8(s.skip(k))
    }
}

proof fn lemma_skip_skip(s: Seq<u8>, i: int, k: int)
    requires
        0 <= i,
        0 <= k,
        i + k <= s.len(),
    ensures
        s.skip(i).skip(k) == s.skip(i + k),
{
    assert(s.skip(i).skip(k) =~= s.skip(i + k));
}

/// Checks UTF-8 well-formedness of a byte slice.
pub fn check_utf8(data: &[u8]) -> (r: bool)
    ensures
        r == is_utf8(data@),
{
    let n = data.len();
    proof {
        assert(data@.skip(0) =~= data@);
    }
    let mut i: usize = 0;
    while i < n
        invariant
            i <= n,
            n == data@.len(),
            is_utf8(data@) == is_utf8(data@.skip(i as int)),
        decreases n - i,
    {
        let ghost rest = data@.skip(i as int);
        let b0 = *vstd::slice::slice_index_get(data, i);
        proof {
            assert(rest[0] == data@[i as int]);
        }
        let k: usize;
        if b0 < 0x80 {
            k = 1;
        } else if 0xc2 <= b0 && b0 <= 0xdf {
            if n - i < 2 {
                return false;
            }
            let b1 = *vstd::slice::slice_index_get(data, i + 1);
            proof {
                assert(rest[1] == data@[i + 1]);
            }
            if !(0x80 <= b1 && b1 <= 0xbf) {
                return false;
            }
            k = 2;
        } else if 0xe0 <= b0 && b0 <= 0xef {
            if n - i < 3 {
                return false;
            }
            let b1 = *vstd::slice::slice_index_get(data, i + 1);
            let b2 = *vstd::slice::slice_index_get(data, i + 2);
            proof {
                assert(rest[1] == data@[i + 1]);
                assert(rest[2] == data@[i + 2]);
            }
            let lo: u8 = if b0 == 0xe0 {
                0xa0
            } else {
                0x80
            };
            let hi: u8 = if b0 == 0xed {
                0x9f
            } else {
                0xbf
            };
            if !(lo <= b1 && b1 <= hi) {
                return false;
            }
            if !(0x80 <= b2 && b2 <= 0xbf) {
                return false;
            }
            k = 3;
        } else if 0xf0 <= b0 && b0 <= 0xf4 {
            if n - i < 4 {
                return false;
            }
            let b1 = *vstd::slice::slice_index_get(data, i + 1);
            let b2 = *vstd::slice::slice_index_get(data, i + 2);
            let b3 = *vstd::slice::slice_index_get(data, i + 3);
            proof {
                assert(rest[1] == data@[i + 1]);
                assert(rest[2] == data@[i + 2]);
                assert(rest[3] == data@[i + 3]);
            }
            let lo: u8 = if b0 == 0xf0 {
                0x90
            } else {
                0x80
            };
            let hi: u8 = if b0 == 0xf4 {
                0x8f
            } else {
                0xbf
            };
            if !(lo <= b1 && b1 <= hi) {
                return false;
            }
            if !(0x80 <= b2 && b2 <= 0xbf) {
                return false;
            }
            if !(0x80 <= b3 && b3 <= 0xbf) {
                return false;
            }
            k = 4;
        } else {
            return false;
        }
        proof {
            assert(utf8_seq_len(rest[0]) == k as int);
            assert(utf8_tail_ok(rest));
            lemma_skip_skip(data@, i as int, k as int);
            assert(is_utf8(rest) == is_utf8(data@.skip(i + k)));
        }
        i = i + k;
    }
    proof {
        assert(data@.skip(n as int) =~= Seq::<u8>::empty());
    }
    true
}

} // verus!
