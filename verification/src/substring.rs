//! Occurrence of one sequence inside another, and the byte scan that decides it.

use vstd::prelude::*;

verus! {

/// `needle` stands in `hay` at offset `at`.
pub open spec fn occurs_at<T>(hay: Seq<T>, needle: Seq<T>, at: int) -> bool {
    &&& 0 <= at
    &&& at + needle.len() <= hay.len()
    &&& hay.subrange(at, at + needle.len()) == needle
}

/// `needle` stands somewhere in `hay` as a contiguous run. The empty sequence
/// stands in every sequence, the empty one included.
pub open spec fn occurs_in<T>(hay: Seq<T>, needle: Seq<T>) -> bool {
    exists|at: int| occurs_at(hay, needle, at)
}

/// What stands in a part of a sequence stands in the sequence.
pub proof fn lemma_occurs_in_transitive<T>(outer: Seq<T>, middle: Seq<T>, inner: Seq<T>)
    requires
        occurs_in(outer, middle),
        occurs_in(middle, inner),
    ensures
        occurs_in(outer, inner),
{
    let a = choose|a: int| occurs_at(outer, middle, a);
    let b = choose|b: int| occurs_at(middle, inner, b);
    assert(outer.subrange(a + b, a + b + inner.len()) =~= outer.subrange(
        a,
        a + middle.len(),
    ).subrange(b, b + inner.len()));
    assert(occurs_at(outer, inner, a + b));
}

/// Compares `needle` with the bytes of `hay` that start at `at`.
fn matches_at(hay: &[u8], needle: &[u8], at: usize) -> (r: bool)
    requires
        at + needle@.len() <= hay@.len(),
    ensures
        r == occurs_at(hay@, needle@, at as int),
{
    let end: usize = hay.len();
    let mut j: usize = 0;
    while j < needle.len()
        invariant
            j <= needle@.len(),
            at + needle@.len() <= hay@.len() == end,
            forall|k: int| 0 <= k < j ==> hay@[at + k] == needle@[k],
        decreases needle@.len() - j,
    {
        if hay[at + j] != needle[j] {
            return false;
        }
        j += 1;
    }
    assert(hay@.subrange(at as int, at + needle@.len()) =~= needle@);
    true
}

/// Decides whether `needle` stands in `hay`, trying each offset in turn.
pub fn find_bytes(hay: &[u8], needle: &[u8]) -> (r: bool)
    ensures
        r == occurs_in(hay@, needle@),
{
    if needle.len() > hay.len() {
        return false;
    }
    let last: usize = hay.len() - needle.len();
    let mut at: usize = 0;
    loop
        invariant
            last == hay@.len() - needle@.len(),
            at <= last,
            forall|k: int| 0 <= k < at ==> !occurs_at(hay@, needle@, k),
        decreases last - at,
    {
        if matches_at(hay, needle, at) {
            return true;
        }
        if at == last {
            return false;
        }
        at += 1;
    }
}

} // verus!
