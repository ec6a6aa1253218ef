//! The lines of a text.
//!
//! A line ends at a line feed, or at the end of the text. The line feed is not
//! part of the line, and neither is a carriage return that stands directly
//! before it. A carriage return anywhere else is an ordinary character. After
//! the last line feed, what is left is a line only if it is not empty.

use vstd::prelude::*;
use vstd::string::StringSliceAdditionalSpecFns;
use vstd::utf8::{
    encode_utf8_decode_utf8, encode_utf8_valid_utf8, is_char_boundary_start_end_of_seq,
};
use crate::encoding::{
    byte_offset, lemma_ascii_byte_char, lemma_ascii_char_byte, lemma_boundary_after_ascii,
    lemma_boundary_is_offset, lemma_byte_offset_ends, lemma_byte_offset_increases,
};
use crate::substring::{occurs_at, occurs_in};

verus! {

/// The byte that encodes a line feed.
const LINE_FEED: u8 = 0x0a;

/// The byte that encodes a carriage return.
const CARRIAGE_RETURN: u8 = 0x0d;

/// Number of characters before the first line feed of `text`; its length if it
/// has none.
pub open spec fn first_line_len(text: Seq<char>) -> nat
    decreases text.len(),
{
    if text.len() == 0 || text[0] == '\n' {
        0
    } else {
        1 + first_line_len(text.drop_first())
    }
}

/// `line` without the carriage return at its end, if it has one.
pub open spec fn without_cr(line: Seq<char>) -> Seq<char> {
    if line.len() > 0 && line.last() == '\r' {
        line.drop_last()
    } else {
        line
    }
}

/// The first line of `text`. Where the text has no line feed, it is the whole
/// text, a carriage return at its end included.
pub open spec fn first_line(text: Seq<char>) -> Seq<char> {
    let n = first_line_len(text) as int;
    if n >= text.len() {
        text
    } else {
        without_cr(text.take(n))
    }
}

/// What follows the first line of `text` and its line feed.
pub open spec fn after_first_line(text: Seq<char>) -> Seq<char> {
    let n = first_line_len(text) as int;
    if n >= text.len() {
        Seq::empty()
    } else {
        text.skip(n + 1)
    }
}

/// The lines of `text`, in order.
pub open spec fn lines(text: Seq<char>) -> Seq<Seq<char>>
    decreases text.len(),
{
    if text.len() == 0 {
        Seq::empty()
    } else {
        seq![first_line(text)] + lines(after_first_line(text))
    }
}

/// The first line ends at the first line feed: no character before `n` is a
/// line feed, and `n` is the end of the text or the place of a line feed.
pub open spec fn is_first_line_end(text: Seq<char>, n: int) -> bool {
    &&& 0 <= n <= text.len()
    &&& forall|j: int| 0 <= j < n ==> text[j] != '\n'
    &&& n < text.len() ==> text[n] == '\n'
}

/// `first_line_len` is the one place that `is_first_line_end` describes.
pub proof fn lemma_first_line_len(text: Seq<char>, n: int)
    ensures
        is_first_line_end(text, first_line_len(text) as int),
        is_first_line_end(text, n) ==> n == first_line_len(text),
    decreases text.len(),
{
    if text.len() == 0 || text[0] == '\n' {
    } else {
        let rest = text.drop_first();
        lemma_first_line_len(rest, n - 1);
        let m = first_line_len(rest) as int;
        assert forall|j: int| 0 <= j < m + 1 implies text[j] != '\n' by {
            if j > 0 {
                assert(text[j] == rest[j - 1]);
            }
        }
        if is_first_line_end(text, n) {
            assert forall|j: int| 0 <= j < n - 1 implies rest[j] != '\n' by {
                assert(rest[j] == text[j + 1]);
            }
        }
    }
}

/// Every line of a text is a contiguous run of its characters.
pub proof fn lemma_lines_are_slices(text: Seq<char>, k: int)
    requires
        0 <= k < lines(text).len(),
    ensures
        occurs_in(text, lines(text)[k]),
    decreases text.len(),
{
    let n = first_line_len(text) as int;
    if k == 0 {
        let line = first_line(text);
        if n >= text.len() {
            assert(text.subrange(0, text.len() as int) =~= text);
            assert(occurs_at(text, line, 0));
        } else {
            assert(text.subrange(0, line.len() as int) =~= line);
            assert(occurs_at(text, line, 0));
        }
    } else {
        let rest = after_first_line(text);
        let line = lines(rest)[k - 1];
        lemma_lines_are_slices(rest, k - 1);
        let at = choose|at: int| occurs_at(rest, line, at);
        assert(text.subrange(n + 1 + at, n + 1 + at + line.len()) =~= rest.subrange(
            at,
            at + line.len(),
        ));
        assert(occurs_at(text, line, n + 1 + at));
    }
}

/// No line holds a line feed.
pub proof fn lemma_lines_hold_no_line_feed(text: Seq<char>, k: int, j: int)
    requires
        0 <= k < lines(text).len(),
        0 <= j < lines(text)[k].len(),
    ensures
        lines(text)[k][j] != '\n',
    decreases text.len(),
{
    let n = first_line_len(text) as int;
    lemma_first_line_len(text, n);
    if k == 0 {
    } else {
        lemma_lines_hold_no_line_feed(after_first_line(text), k - 1, j);
    }
}

/// Place of the first byte `wanted` in `bytes`, or the length of `bytes` if
/// there is none.
fn find_byte(bytes: &[u8], wanted: u8) -> (k: usize)
    ensures
        k <= bytes@.len(),
        forall|j: int| 0 <= j < k ==> bytes@[j] != wanted,
        k < bytes@.len() ==> bytes@[k as int] == wanted,
{
    let mut k: usize = 0;
    while k < bytes.len() && bytes[k] != wanted
        invariant
            k <= bytes@.len(),
            forall|j: int| 0 <= j < k ==> bytes@[j] != wanted,
        decreases bytes@.len() - k,
    {
        k += 1;
    }
    k
}

/// Cuts the one-byte character at byte `k` out of `text`: returns what stands
/// before it and what stands after it.
fn cut_at_byte<'a>(text: &'a str, k: usize) -> (r: (&'a str, &'a str))
    requires
        k < text.spec_bytes().len(),
        text.spec_bytes()[k as int] <= 0x7f,
    ensures
        ({
            let i = r.0@.len() as int;
            &&& i < text@.len()
            &&& byte_offset(text@, i) == k
            &&& text@[i] == text.spec_bytes()[k as int] as char
            &&& r.0@ == text@.take(i)
            &&& r.1@ == text@.skip(i + 1)
        }),
{
    proof {
        lemma_ascii_byte_char(text@, k as int);
        lemma_boundary_is_offset(text@, k as int);
    }
    let (before, from) = text.split_at(k);
    proof {
        encode_utf8_decode_utf8(before@);
        encode_utf8_decode_utf8(from@);
        encode_utf8_valid_utf8(from@);
        lemma_boundary_after_ascii(from.spec_bytes());
    }
    let (_, after) = from.split_at(1);
    proof {
        encode_utf8_decode_utf8(after@);
        lemma_boundary_is_offset(from@, 1);
    }
    (before, after)
}

/// Takes the carriage return off the end of `line`, if it has one.
fn strip_cr<'a>(line: &'a str) -> (r: &'a str)
    ensures
        r@ == without_cr(line@),
{
    let bytes = line.as_bytes();
    let n = bytes.len();
    proof {
        lemma_byte_offset_ends(line@);
        if line@.len() > 0 && line@.last() == '\r' {
            lemma_ascii_char_byte(line@, line@.len() - 1);
        }
    }
    if n > 0 && bytes[n - 1] == CARRIAGE_RETURN {
        let (before, _) = cut_at_byte(line, n - 1);
        proof {
            let i = before@.len() as int;
            lemma_ascii_char_byte(line@, i);
            if i + 1 < line@.len() {
                lemma_byte_offset_increases(line@, i + 1, line@.len() as int);
            }
        }
        before
    } else {
        line
    }
}

/// Splits `text` into its first line and what follows it, both slices of
/// `text`. What follows is empty where `text` has no line feed.
pub fn split_first_line<'a>(text: &'a str) -> (r: (&'a str, &'a str))
    ensures
        r.0@ == first_line(text@),
        r.1@ == after_first_line(text@),
{
    let bytes = text.as_bytes();
    let k = find_byte(bytes, LINE_FEED);
    if k == bytes.len() {
        proof {
            assert forall|j: int| 0 <= j < text@.len() implies text@[j] != '\n' by {
                if text@[j] == '\n' {
                    lemma_ascii_char_byte(text@, j);
                }
            }
            lemma_first_line_len(text@, text@.len() as int);
            encode_utf8_valid_utf8(text@);
            is_char_boundary_start_end_of_seq(text.spec_bytes());
        }
        let (_, end) = text.split_at(k);
        (text, end)
    } else {
        let (head, rest) = cut_at_byte(text, k);
        proof {
            let i = head@.len() as int;
            assert forall|j: int| 0 <= j < i implies text@[j] != '\n' by {
                if text@[j] == '\n' {
                    lemma_ascii_char_byte(text@, j);
                    lemma_byte_offset_increases(text@, j, i);
                }
            }
            lemma_first_line_len(text@, i);
        }
        (strip_cr(head), rest)
    }
}

} // verus!
