//! Byte-level facts about string contents: NUL bytes and byte-wise order.

use vstd::prelude::*;
use vstd::utf8::encode_utf8;

verus! {

/// The UTF-8 bytes of a string content.
pub open spec fn bytes_of(s: Seq<char>) -> Seq<u8> {
    encode_utf8(s)
}

/// Different contents have different bytes.
pub proof fn lemma_bytes_injective(s: Seq<char>, t: Seq<char>)
    ensures
        bytes_of(s) == bytes_of(t) <==> s == t,
{
    vstd::utf8::encode_utf8_decode_utf8(s);
    vstd::utf8::encode_utf8_decode_utf8(t);
}

/// No byte of `b` is NUL.
pub open spec fn nul_free(b: Seq<u8>) -> bool {
    forall|i: int| 0 <= i < b.len() ==> b[i] != 0u8
}

/// `p` is the position of the first NUL byte of `b`.
pub open spec fn is_first_nul(b: Seq<u8>, p: int) -> bool {
    &&& 0 <= p < b.len()
    &&& b[p] == 0u8
    &&& forall|i: int| 0 <= i < p ==> b[i] != 0u8
}

/// A byte string has at most one first NUL position.
pub proof fn lemma_first_nul_unique(b: Seq<u8>, p: int, q: int)
    requires
        is_first_nul(b, p),
        is_first_nul(b, q),
    ensures
        p == q,
{
}

/// Position of the first NUL byte of `b`, if it has one.
pub fn first_nul(b: &[u8]) -> (r: Option<usize>)
    ensures
        match r {
            Some(p) => is_first_nul(b@, p as int),
            None => nul_free(b@),
        },
{
    let mut i: usize = 0;
    while i < b.len()
        invariant
            i <= b@.len(),
            forall|j: int| 0 <= j < i ==> b@[j] != 0u8,
        decreases b@.len() - i,
    {
        if b[i] == 0u8 {
            return Some(i);
        }
        i = i + 1;
    }
    None
}

} // verus!
