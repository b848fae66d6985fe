//! Small helpers on strings that the lexer and the parser share.

use vstd::prelude::*;
use vstd::string::StringSliceAdditionalSpecFns;
use vstd::utf8::{
    encode_utf8, encode_utf8_decode_utf8, encode_utf8_valid_utf8, is_ascii_chars,
    is_ascii_chars_encode_utf8, is_char_boundary, is_char_boundary_iff_not_is_continuation_byte,
    pop_first_scalar, valid_utf8,
};

verus! {

/// Two strings with the same UTF-8 encoding hold the same characters.
pub proof fn lemma_same_bytes_same_text(a: Seq<char>, b: Seq<char>)
    requires
        encode_utf8(a) == encode_utf8(b),
    ensures
        a == b,
{
    encode_utf8_decode_utf8(a);
    encode_utf8_decode_utf8(b);
}

/// Whether two strings hold the same characters.
pub fn same_text(a: &str, b: &str) -> (same: bool)
    ensures
        same == (a@ == b@),
{
    let x = a.as_bytes();
    let y = b.as_bytes();
    if x.len() != y.len() {
        return false;
    }
    let mut i: usize = 0;
    while i < x.len()
        invariant
            i <= x.len(),
            x.len() == y.len(),
            x@ == a.spec_bytes(),
            y@ == b.spec_bytes(),
            forall|j: int| 0 <= j < i ==> x@[j] == y@[j],
        decreases x.len() - i,
    {
        if x[i] != y[i] {
            return false;
        }
        i += 1;
    }
    proof {
        assert(x@ =~= y@);
        lemma_same_bytes_same_text(a@, b@);
    }
    true
}

/// The bytes from `start` up to `end`, each read as a character.
pub open spec fn text_between(bytes: Seq<u8>, start: int, end: int) -> Seq<char> {
    Seq::new((end - start) as nat, |i: int| bytes[start + i] as char)
}

/// In well-formed UTF-8, a character ends behind each byte of a run of ASCII
/// bytes at the start.
proof fn lemma_boundary_behind_ascii_run(bytes: Seq<u8>, count: int)
    requires
        valid_utf8(bytes),
        0 <= count <= bytes.len(),
        forall|i: int| 0 <= i < count ==> bytes[i] < 128,
    ensures
        is_char_boundary(bytes, count),
    decreases count,
{
    if count > 0 {
        let rest = pop_first_scalar(bytes);
        assert(bytes[0] < 128);
        assert(rest =~= bytes.subrange(1, bytes.len() as int));
        assert forall|i: int| 0 <= i < count - 1 implies rest[i] < 128 by {
            assert(rest[i] == bytes[i + 1]);
        }
        lemma_boundary_behind_ascii_run(rest, count - 1);
    }
}

/// ASCII bytes are the encoding of the characters that they are read as.
proof fn lemma_ascii_bytes_encode_their_text(bytes: Seq<u8>, start: int, end: int)
    requires
        0 <= start <= end <= bytes.len(),
        forall|i: int| start <= i < end ==> bytes[i] < 128,
    ensures
        encode_utf8(text_between(bytes, start, end)) == bytes.subrange(start, end),
{
    let text = text_between(bytes, start, end);
    assert(is_ascii_chars(text));
    is_ascii_chars_encode_utf8(text);
    assert forall|i: int| 0 <= i < text.len() implies encode_utf8(text)[i] == bytes.subrange(
        start,
        end,
    )[i] by {
        assert(text[i] as u8 == encode_utf8(text)[i]);
    }
    assert(encode_utf8(text) =~= bytes.subrange(start, end));
}

/// The part of a text from byte `start` up to byte `end`, where every byte of
/// the part is ASCII.
pub fn ascii_part(text: &str, start: usize, end: usize) -> (part: String)
    requires
        start <= end <= text.spec_bytes().len(),
        forall|i: int| start <= i < end ==> text.spec_bytes()[i] < 128,
    ensures
        part@ == text_between(text.spec_bytes(), start as int, end as int),
{
    if start == end {
        let part = String::new();
        assert(part@ =~= text_between(text.spec_bytes(), start as int, end as int));
        return part;
    }
    let ghost bytes = text.spec_bytes();
    proof {
        encode_utf8_valid_utf8(text@);
        is_char_boundary_iff_not_is_continuation_byte(bytes, start as int);
    }
    let (_, tail) = text.split_at(start);
    proof {
        encode_utf8_valid_utf8(tail@);
        assert forall|i: int| 0 <= i < end - start implies tail.spec_bytes()[i] < 128 by {
            assert(tail.spec_bytes()[i] == bytes[start + i]);
        }
        lemma_boundary_behind_ascii_run(tail.spec_bytes(), end - start);
    }
    let (run, _) = tail.split_at(end - start);
    proof {
        assert(run.spec_bytes() =~= bytes.subrange(start as int, end as int));
        lemma_ascii_bytes_encode_their_text(bytes, start as int, end as int);
        lemma_same_bytes_same_text(run@, text_between(bytes, start as int, end as int));
    }
    run.to_owned()
}

} // verus!
