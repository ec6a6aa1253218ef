//! How positions and occurrences in a text relate to positions and occurrences
//! in its UTF-8 encoding.
//!
//! The executable code scans bytes; the contracts speak of characters. The
//! lemmas here carry facts from one side to the other.

use vstd::prelude::*;
use vstd::utf8::*;
use crate::substring::{occurs_at, occurs_in};

verus! {

/// Byte offset, in the encoding of `text`, at which its character `i` starts.
pub open spec fn byte_offset(text: Seq<char>, i: int) -> int {
    encode_utf8(text.take(i)).len() as int
}

/// The encoding of a concatenation is the concatenation of the encodings.
pub proof fn lemma_encode_concat(a: Seq<char>, b: Seq<char>)
    ensures
        encode_utf8(a + b) == encode_utf8(a) + encode_utf8(b),
    decreases a.len(),
{
    if a.len() == 0 {
    } else {
        lemma_encode_concat(a.drop_first(), b);
        assert((a + b).drop_first() =~= a.drop_first() + b);
    }
}

/// Two valid encodings, joined, decode to the two texts, joined.
pub proof fn lemma_decode_concat(x: Seq<u8>, y: Seq<u8>)
    requires
        valid_utf8(x),
        valid_utf8(y),
    ensures
        valid_utf8(x + y),
        decode_utf8(x + y) == decode_utf8(x) + decode_utf8(y),
{
    let a = decode_utf8(x);
    let b = decode_utf8(y);
    decode_utf8_encode_utf8(x);
    decode_utf8_encode_utf8(y);
    lemma_encode_concat(a, b);
    encode_utf8_decode_utf8(a + b);
    encode_utf8_valid_utf8(a + b);
}

/// What follows a valid encoding inside a valid encoding is a valid encoding.
pub proof fn lemma_valid_rest(bytes: Seq<u8>, k: int)
    requires
        0 <= k <= bytes.len(),
        valid_utf8(bytes),
        valid_utf8(bytes.subrange(0, k)),
    ensures
        valid_utf8(bytes.subrange(k, bytes.len() as int)),
{
    if !valid_utf8(bytes.subrange(k, bytes.len() as int)) {
        partial_valid_partial_invalid_utf8(bytes, k);
    }
}

/// The encoding of a slice of `text` is the slice of the encoding between the
/// byte offsets of its ends.
pub proof fn lemma_encode_subrange(text: Seq<char>, i: int, j: int)
    requires
        0 <= i <= j <= text.len(),
    ensures
        0 <= byte_offset(text, i) <= byte_offset(text, j) <= encode_utf8(text).len(),
        byte_offset(text, j) == byte_offset(text, i) + encode_utf8(text.subrange(i, j)).len(),
        encode_utf8(text.subrange(i, j)) == encode_utf8(text).subrange(
            byte_offset(text, i),
            byte_offset(text, j),
        ),
{
    let head = text.take(i);
    let mid = text.subrange(i, j);
    let tail = text.skip(j);
    assert(text.take(j) =~= head + mid);
    assert(text =~= text.take(j) + tail);
    lemma_encode_concat(head, mid);
    lemma_encode_concat(text.take(j), tail);
}

/// The offsets of the two ends of a text.
pub proof fn lemma_byte_offset_ends(text: Seq<char>)
    ensures
        byte_offset(text, 0) == 0,
        byte_offset(text, text.len() as int) == encode_utf8(text).len(),
{
    assert(text.take(text.len() as int) =~= text);
}

/// A character boundary of the encoding is the byte offset of a character, or
/// the end. Splitting the bytes there splits the text there.
pub proof fn lemma_boundary_is_offset(text: Seq<char>, k: int)
    requires
        is_char_boundary(encode_utf8(text), k),
    ensures
        ({
            let bytes = encode_utf8(text);
            let i = decode_utf8(bytes.subrange(0, k)).len() as int;
            &&& 0 <= k <= bytes.len()
            &&& 0 <= i <= text.len()
            &&& byte_offset(text, i) == k
            &&& text.take(i) == decode_utf8(bytes.subrange(0, k))
            &&& text.skip(i) == decode_utf8(bytes.subrange(k, bytes.len() as int))
        }),
{
    let bytes = encode_utf8(text);
    encode_utf8_valid_utf8(text);
    encode_utf8_decode_utf8(text);
    valid_utf8_split(bytes, k);
    decode_utf8_split(bytes, k);
    let head = decode_utf8(bytes.subrange(0, k));
    assert(text.take(head.len() as int) =~= head);
    decode_utf8_encode_utf8(bytes.subrange(0, k));
}

/// A text that is not empty has an encoding that is not empty, and its first
/// byte starts a character.
pub proof fn lemma_encode_nonempty(text: Seq<char>)
    requires
        text.len() > 0,
    ensures
        encode_utf8(text).len() > 0,
        !is_continuation_byte(encode_utf8(text)[0]),
{
    encode_utf8_first_scalar(text);
}

/// Later characters start at later bytes.
pub proof fn lemma_byte_offset_increases(text: Seq<char>, i: int, j: int)
    requires
        0 <= i < j <= text.len(),
    ensures
        byte_offset(text, i) < byte_offset(text, j),
{
    lemma_encode_subrange(text, i, j);
    lemma_encode_nonempty(text.subrange(i, j));
}

/// An occurrence in the text is an occurrence in the encoding, at the byte
/// offset of the place.
pub proof fn lemma_occurrence_encodes(text: Seq<char>, pattern: Seq<char>, at: int)
    requires
        occurs_at(text, pattern, at),
    ensures
        occurs_at(encode_utf8(text), encode_utf8(pattern), byte_offset(text, at)),
{
    lemma_encode_subrange(text, at, at + pattern.len());
}

/// An occurrence of an encoded pattern in the encoding starts at a character,
/// and the pattern stands in the text there.
pub proof fn lemma_occurrence_decodes(text: Seq<char>, pattern: Seq<char>, k: int)
    requires
        pattern.len() > 0,
        occurs_at(encode_utf8(text), encode_utf8(pattern), k),
    ensures
        ({
            let i = decode_utf8(encode_utf8(text).subrange(0, k)).len() as int;
            &&& byte_offset(text, i) == k
            &&& occurs_at(text, pattern, i)
        }),
{
    let bytes = encode_utf8(text);
    let pat = encode_utf8(pattern);
    let i = decode_utf8(bytes.subrange(0, k)).len() as int;
    encode_utf8_valid_utf8(text);
    encode_utf8_valid_utf8(pattern);
    lemma_encode_nonempty(pattern);
    assert(bytes[k] == pat[0]);
    is_char_boundary_iff_not_is_continuation_byte(bytes, k);
    lemma_boundary_is_offset(text, k);
    valid_utf8_split(bytes, k);
    let rest = bytes.subrange(k, bytes.len() as int);
    assert(rest.subrange(0, pat.len() as int) =~= pat);
    lemma_valid_rest(rest, pat.len() as int);
    let after = rest.subrange(pat.len() as int, rest.len() as int);
    assert(rest =~= pat + after);
    lemma_decode_concat(pat, after);
    encode_utf8_decode_utf8(pattern);
    assert(text.skip(i) == pattern + decode_utf8(after));
    assert(text.subrange(i, i + pattern.len()) =~= text.skip(i).take(pattern.len() as int));
    assert(text.skip(i).take(pattern.len() as int) =~= pattern);
}

/// A pattern stands in a text exactly when its encoding stands in the
/// encoding of the text.
pub proof fn lemma_occurs_in_encoding(text: Seq<char>, pattern: Seq<char>)
    ensures
        occurs_in(encode_utf8(text), encode_utf8(pattern)) <==> occurs_in(text, pattern),
{
    if occurs_in(text, pattern) {
        let at = choose|at: int| occurs_at(text, pattern, at);
        lemma_occurrence_encodes(text, pattern, at);
    }
    if occurs_in(encode_utf8(text), encode_utf8(pattern)) {
        if pattern.len() == 0 {
            assert(text.subrange(0, 0) =~= pattern);
            assert(occurs_at(text, pattern, 0));
        } else {
            let k = choose|k: int| occurs_at(encode_utf8(text), encode_utf8(pattern), k);
            lemma_occurrence_decodes(text, pattern, k);
        }
    }
}

/// An ASCII character is encoded as one byte, its code.
pub proof fn lemma_encode_ascii(c: char)
    requires
        c as u32 <= 0x7f,
    ensures
        encode_utf8(seq![c]) == seq![c as u8],
{
    reveal_with_fuel(encode_utf8, 2);
    let code = c as u32;
    assert(leading_byte_width_1(code) == code as u8) by (bit_vector)
        requires
            code <= 0x7f,
    ;
}

/// Where the text holds an ASCII character, the encoding holds its code, in
/// one byte.
pub proof fn lemma_ascii_char_byte(text: Seq<char>, i: int)
    requires
        0 <= i < text.len(),
        text[i] as u32 <= 0x7f,
    ensures
        0 <= byte_offset(text, i) < encode_utf8(text).len(),
        byte_offset(text, i + 1) == byte_offset(text, i) + 1,
        encode_utf8(text)[byte_offset(text, i)] == text[i] as u8,
{
    lemma_encode_subrange(text, i, i + 1);
    assert(text.subrange(i, i + 1) =~= seq![text[i]]);
    lemma_encode_ascii(text[i]);
    assert(encode_utf8(text).subrange(byte_offset(text, i), byte_offset(text, i + 1))[0]
        == encode_utf8(text)[byte_offset(text, i)]);
}

/// Where the encoding holds an ASCII byte, a character starts, and it is the
/// character with that code.
pub proof fn lemma_ascii_byte_char(text: Seq<char>, k: int)
    requires
        0 <= k < encode_utf8(text).len(),
        encode_utf8(text)[k] <= 0x7f,
    ensures
        ({
            let bytes = encode_utf8(text);
            let i = decode_utf8(bytes.subrange(0, k)).len() as int;
            &&& is_char_boundary(bytes, k)
            &&& 0 <= i < text.len()
            &&& byte_offset(text, i) == k
            &&& text[i] == bytes[k] as char
        }),
{
    let bytes = encode_utf8(text);
    let i = decode_utf8(bytes.subrange(0, k)).len() as int;
    let b = bytes[k];
    encode_utf8_valid_utf8(text);
    is_char_boundary_iff_not_is_continuation_byte(bytes, k);
    lemma_boundary_is_offset(text, k);
    valid_utf8_split(bytes, k);
    assert(codepoint_width_1(b) == b as u32) by (bit_vector)
        requires
            b <= 0x7f,
    ;
    assert(text.skip(i).len() > 0);
    assert(text.skip(i)[0] == text[i]);
}

/// After a leading ASCII byte the next character starts.
pub proof fn lemma_boundary_after_ascii(bytes: Seq<u8>)
    requires
        valid_utf8(bytes),
        bytes.len() > 0,
        bytes[0] <= 0x7f,
    ensures
        is_char_boundary(bytes, 1),
{
    reveal_with_fuel(is_char_boundary, 2);
}

} // verus!
