//! Strings and their UTF-8 bytes.

use vstd::prelude::*;
use vstd::string::*;
use vstd::utf8::*;

verus! {

/// The UTF-8 bytes of a string are determined by its characters, and determine them.
pub proof fn lemma_utf8_injective(a: Seq<char>, b: Seq<char>)
    requires
        encode_utf8(a) == encode_utf8(b),
    ensures
        a == b,
{
    vstd::utf8::encode_utf8_decode_utf8(a);
    vstd::utf8::encode_utf8_decode_utf8(b);
}

/// The UTF-8 bytes of two strings put together are the bytes of the one and then of the other.
pub proof fn lemma_utf8_concat(a: Seq<char>, b: Seq<char>)
    ensures
        encode_utf8(a + b) == encode_utf8(a) + encode_utf8(b),
    decreases a.len(),
{
    if a.len() == 0 {
        assert(a + b =~= b);
        assert(encode_utf8(a) + encode_utf8(b) =~= encode_utf8(b));
    } else {
        lemma_utf8_concat(a.drop_first(), b);
        assert((a + b).drop_first() =~= a.drop_first() + b);
        let first = vstd::utf8::encode_scalar(a[0] as u32);
        assert(encode_utf8(a) + encode_utf8(b) =~= first + (encode_utf8(a.drop_first())
            + encode_utf8(b)));
    }
}

/// The part of a UTF-8 string from byte `start` to byte `end`, where both are character
/// boundaries in order.
pub open spec fn str_part(bytes: Seq<u8>, start: int, end: int) -> Option<Seq<u8>> {
    if 0 <= start <= end <= bytes.len() && is_char_boundary(bytes, start) && is_char_boundary(
        bytes,
        end,
    ) {
        Some(bytes.subrange(start, end))
    } else {
        None
    }
}

/// Interprets bytes as a string with `core::str::from_utf8`: that succeeds exactly on valid UTF-8,
/// and the string then has these bytes.
#[verifier::external_body]
pub(crate) fn str_from_utf8(bytes: &[u8]) -> (res: Option<&str>)
    ensures
        res is Some <==> valid_utf8(bytes@),
        res matches Some(s) ==> s.spec_bytes() == bytes@,
{
    core::str::from_utf8(bytes).ok()
}

/// A suffix at a boundary of a prefix at a boundary has the same boundaries.
proof fn lemma_boundary_prefix(bytes: Seq<u8>, mid: int, end: int)
    requires
        valid_utf8(bytes),
        0 <= mid <= end <= bytes.len(),
        is_char_boundary(bytes, end),
    ensures
        is_char_boundary(bytes.subrange(0, end), mid) <==> is_char_boundary(bytes, mid),
{
    vstd::utf8::valid_utf8_split(bytes, end);
    let p = bytes.subrange(0, end);
    if mid < end {
        vstd::utf8::is_char_boundary_iff_not_is_continuation_byte(bytes, mid);
        vstd::utf8::is_char_boundary_iff_not_is_continuation_byte(p, mid);
    } else {
        vstd::utf8::is_char_boundary_start_end_of_seq(p);
    }
}

/// The part of `s` from byte `start` to byte `end`, if both are character boundaries in order.
pub fn str_get(s: &str, start: usize, end: usize) -> (res: Option<&str>)
    ensures
        match str_part(s.spec_bytes(), start as int, end as int) {
            Some(part) => res is Some && res->0.spec_bytes() == part,
            None => res is None,
        },
{
    proof {
        vstd::utf8::encode_utf8_valid_utf8(s@);
    }
    let bytes: &[u8] = s.as_bytes();
    if start > end || end > bytes.len() {
        return None;
    }
    if !s.is_char_boundary(start) || !s.is_char_boundary(end) {
        return None;
    }
    let prefix: &str = s.split_at(end).0;
    proof {
        lemma_boundary_prefix(s.spec_bytes(), start as int, end as int);
    }
    let part: &str = prefix.split_at(start).1;
    assert(part.spec_bytes() =~= s.spec_bytes().subrange(start as int, end as int));
    Some(part)
}

/// Whether two strings have the same characters.
pub fn str_eq(a: &str, b: &str) -> (res: bool)
    ensures
        res == (a@ == b@),
{
    let res = bytes_eq(a.as_bytes(), b.as_bytes());
    proof {
        if a.spec_bytes() == b.spec_bytes() {
            lemma_utf8_injective(a@, b@);
        }
    }
    res
}

/// Whether two byte strings are the same.
pub fn bytes_eq(a: &[u8], b: &[u8]) -> (res: bool)
    ensures
        res == (a@ == b@),
{
    if a.len() != b.len() {
        return false;
    }
    let mut i: usize = 0;
    while i < a.len()
        invariant
            i <= a.len(),
            a.len() == b.len(),
            forall|j: int| 0 <= j < i ==> a@[j] == b@[j],
        decreases a.len() - i,
    {
        if a[i] != b[i] {
            return false;
        }
        i = i + 1;
    }
    assert(a@ =~= b@);
    true
}

/// Appends `s` to `out`.
pub fn push_str(out: &mut String, s: &str)
    ensures
        final(out)@ == old(out)@ + s@,
        encode_utf8(final(out)@) == encode_utf8(old(out)@) + encode_utf8(s@),
{
    proof {
        lemma_utf8_concat(out@, s@);
    }
    out.append(s);
}

} // verus!
