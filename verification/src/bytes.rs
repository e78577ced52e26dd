//! Byte strings and texts: comparison, appending and substring search.

use vstd::prelude::*;
use vstd::string::*;
use vstd::utf8::{
    decode_utf8, decode_utf8_split, encode_utf8, encode_utf8_decode_utf8, encode_utf8_valid_utf8,
    is_char_boundary, is_char_boundary_iff_not_is_continuation_byte,
    is_char_boundary_start_end_of_seq, length_of_first_scalar, pop_first_scalar, valid_utf8,
    valid_utf8_split,
};

verus! {

/// `needle` stands in `hay` at offset `at`.
pub open spec fn occurs_at<T>(needle: Seq<T>, hay: Seq<T>, at: int) -> bool {
    &&& 0 <= at
    &&& at + needle.len() <= hay.len()
    &&& hay.subrange(at, at + needle.len()) == needle
}

/// `needle` is a contiguous part of `hay`.
pub open spec fn occurs_in<T>(needle: Seq<T>, hay: Seq<T>) -> bool {
    exists|at: int| occurs_at(needle, hay, at)
}

/// The encoding of two texts in a row is their encodings in a row.
pub proof fn lemma_encode_concat(a: Seq<char>, b: Seq<char>)
    ensures
        encode_utf8(a + b) == encode_utf8(a) + encode_utf8(b),
    decreases a.len(),
{
    if a.len() > 0 {
        assert((a + b).drop_first() == a.drop_first() + b);
        lemma_encode_concat(a.drop_first(), b);
    }
}

/// Where an encoded text begins with another encoded text, that one ends
/// between two characters of the first.
proof fn lemma_prefix_ends_at_boundary(whole: Seq<u8>, part: Seq<u8>)
    requires
        valid_utf8(whole),
        valid_utf8(part),
        part.len() <= whole.len(),
        whole.subrange(0, part.len() as int) == part,
    ensures
        is_char_boundary(whole, part.len() as int),
    decreases part.len(),
{
    if part.len() > 0 {
        // Both begin with the same character, so what is left of the one
        // still begins with what is left of the other.
        let whole_rest = pop_first_scalar(whole);
        let part_rest = pop_first_scalar(part);
        assert(whole_rest.subrange(0, part_rest.len() as int) == part_rest);
        lemma_prefix_ends_at_boundary(whole_rest, part_rest);
    }
}

/// A text holds another as a contiguous part exactly where its encoding
/// holds the encoding of the other.
pub proof fn lemma_occurs_encoded(needle: Seq<char>, hay: Seq<char>)
    ensures
        occurs_in(encode_utf8(needle), encode_utf8(hay)) <==> occurs_in(needle, hay),
{
    let part = encode_utf8(needle);
    let whole = encode_utf8(hay);
    encode_utf8_valid_utf8(needle);
    encode_utf8_valid_utf8(hay);
    encode_utf8_decode_utf8(needle);
    encode_utf8_decode_utf8(hay);
    if occurs_in(needle, hay) {
        let at = choose|at: int| occurs_at(needle, hay, at);
        let front = hay.subrange(0, at);
        let back = hay.subrange(at + needle.len(), hay.len() as int);
        assert(hay == front + needle + back);
        lemma_encode_concat(front + needle, back);
        lemma_encode_concat(front, needle);
        let start = encode_utf8(front).len() as int;
        assert(whole.subrange(start, start + part.len()) == part);
        assert(occurs_at(part, whole, start));
    }
    if occurs_in(part, whole) {
        if needle.len() == 0 {
            assert(hay.subrange(0, 0) == needle);
            assert(occurs_at(needle, hay, 0));
        } else {
            let start = choose|start: int| occurs_at(part, whole, start);
            assert(part.len() > 0);
            // The part begins with the first byte of a character.
            assert(is_char_boundary(whole, start)) by {
                is_char_boundary_start_end_of_seq(part);
                is_char_boundary_iff_not_is_continuation_byte(part, 0);
                is_char_boundary_iff_not_is_continuation_byte(whole, start);
            }
            valid_utf8_split(whole, start);
            decode_utf8_split(whole, start);
            let head = whole.subrange(0, start);
            let tail = whole.subrange(start, whole.len() as int);
            assert(tail.subrange(0, part.len() as int) == part);
            lemma_prefix_ends_at_boundary(tail, part);
            valid_utf8_split(tail, part.len() as int);
            decode_utf8_split(tail, part.len() as int);
            let at = decode_utf8(head).len() as int;
            assert(hay.subrange(at, at + needle.len()) == needle);
            assert(occurs_at(needle, hay, at));
        }
    }
}

/// Whether two byte strings are equal.
pub fn same_bytes(a: &[u8], b: &[u8]) -> (same: bool)
    ensures
        same == (a@ == b@),
{
    if a.len() != b.len() {
        return false;
    }
    let mut i: usize = 0;
    while i < a.len()
        invariant
            a@.len() == b@.len(),
            i <= a@.len(),
            a@.subrange(0, i as int) == b@.subrange(0, i as int),
        decreases a@.len() - i,
    {
        if a[i] != b[i] {
            return false;
        }
        i += 1;
    }
    assert(a@ == a@.subrange(0, i as int));
    assert(b@ == b@.subrange(0, i as int));
    true
}

/// Whether `a` is the UTF-8 encoding of `text`.
pub fn is_text(a: &[u8], text: &str) -> (same: bool)
    ensures
        same == (a@ == encode_utf8(text@)),
{
    same_bytes(a, text.as_bytes())
}

/// Whether two texts are equal.
pub fn same_text(a: &str, b: &str) -> (same: bool)
    ensures
        same == (a@ == b@),
{
    proof {
        encode_utf8_decode_utf8(a@);
        encode_utf8_decode_utf8(b@);
    }
    same_bytes(a.as_bytes(), b.as_bytes())
}

/// Appends `bytes` to `out`.
pub fn append_bytes(out: &mut Vec<u8>, bytes: &[u8])
    ensures
        final(out)@ == old(out)@ + bytes@,
{
    out.extend_from_slice(bytes);
}

/// Appends the UTF-8 encoding of `text` to `out`.
pub fn append_text(out: &mut Vec<u8>, text: &str)
    ensures
        final(out)@ == old(out)@ + encode_utf8(text@),
{
    append_bytes(out, text.as_bytes());
}

/// Whether `needle` stands in `hay` at offset `at`.
fn matches_at(hay: &[u8], needle: &[u8], at: usize) -> (hit: bool)
    requires
        at + needle@.len() <= hay@.len(),
    ensures
        hit == occurs_at(needle@, hay@, at as int),
{
    let len: usize = hay.len();
    let mut j: usize = 0;
    while j < needle.len()
        invariant
            len == hay@.len(),
            at + needle@.len() <= hay@.len(),
            j <= needle@.len(),
            hay@.subrange(at as int, at + j) == needle@.subrange(0, j as int),
        decreases needle@.len() - j,
    {
        if hay[at + j] != needle[j] {
            return false;
        }
        j += 1;
    }
    assert(needle@ == needle@.subrange(0, j as int));
    true
}

/// Whether `needle` is a contiguous part of `hay`. The empty string is part
/// of every string.
pub fn contains_bytes(hay: &[u8], needle: &[u8]) -> (found: bool)
    ensures
        found == occurs_in(needle@, hay@),
{
    if needle.len() > hay.len() {
        return false;
    }
    let last: usize = hay.len() - needle.len();
    let mut at: usize = 0;
    loop
        invariant
            last == hay@.len() - needle@.len(),
            at <= last,
            forall|k: int| 0 <= k < at ==> !occurs_at(needle@, hay@, k),
        decreases last - at,
    {
        if matches_at(hay, needle, at) {
            return true;
        }
        if at == last {
            return false;
        }
        at += 1;
    }
}

} // verus!
