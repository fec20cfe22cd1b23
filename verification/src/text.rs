//! Byte-level text helpers: substring search and UTF-8 facts.
use vstd::prelude::*;
use vstd::string::StringSliceAdditionalSpecFns;
use vstd::utf8::{
    is_char_boundary, is_continuation_byte, is_leading_byte_width_1, length_of_first_scalar,
    pop_first_scalar, valid_utf8,
};

verus! {

/// True when `needle` occurs in `hay` starting at byte `i`.
pub open spec fn occurs_at(hay: Seq<u8>, needle: Seq<u8>, i: int) -> bool {
    &&& 0 <= i
    &&& i + needle.len() <= hay.len()
    &&& hay.subrange(i, i + needle.len()) == needle
}

/// The first position at or after `k` where `needle` occurs in `hay`, if any.
pub open spec fn find_from(hay: Seq<u8>, needle: Seq<u8>, k: int) -> Option<int>
    decreases hay.len() + 1 - k,
{
    if k < 0 || k + needle.len() > hay.len() {
        None
    } else if occurs_at(hay, needle, k) {
        Some(k)
    } else {
        find_from(hay, needle, k + 1)
    }
}

/// `find_from` gives the least position at or after `k` where the needle occurs.
pub proof fn lemma_find_from(hay: Seq<u8>, needle: Seq<u8>, k: int)
    requires
        0 <= k,
    ensures
        match find_from(hay, needle, k) {
            Some(i) => k <= i && occurs_at(hay, needle, i) && forall|j: int|
                k <= j < i ==> !occurs_at(hay, needle, j),
            None => forall|j: int| k <= j ==> !occurs_at(hay, needle, j),
        },
    decreases hay.len() + 1 - k,
{
    if k + needle.len() > hay.len() {
    } else if occurs_at(hay, needle, k) {
    } else {
        lemma_find_from(hay, needle, k + 1);
    }
}

/// An occurrence with none before it (from `k` on) is what `find_from` finds.
pub proof fn lemma_find_from_first(hay: Seq<u8>, needle: Seq<u8>, k: int, i: int)
    requires
        0 <= k <= i,
        occurs_at(hay, needle, i),
        forall|j: int| k <= j < i ==> !occurs_at(hay, needle, j),
    ensures
        find_from(hay, needle, k) == Some(i),
    decreases i - k,
{
    if k < i {
        lemma_find_from_first(hay, needle, k + 1, i);
    }
}

/// Searches `hay` for the first occurrence of `needle` at or after byte `from`.
pub fn find_bytes(hay: &[u8], needle: &[u8], from: usize) -> (r: Option<usize>)
    ensures
        match r {
            Some(i) => find_from(hay@, needle@, from as int) == Some(i as int),
            None => find_from(hay@, needle@, from as int) is None,
        },
{
    if needle.len() > hay.len() {
        return None;
    }
    let last: usize = hay.len() - needle.len();
    let mut k: usize = from;
    while k <= last
        invariant
            from <= k,
            last == hay@.len() - needle@.len(),
            find_from(hay@, needle@, from as int) == find_from(hay@, needle@, k as int),
        decreases last + 1 - k,
    {
        let mut m: usize = 0;
        let mut matched: bool = true;
        while m < needle.len()
            invariant
                m <= needle.len(),
                k + needle.len() <= hay.len(),
                matched <==> forall|t: int| 0 <= t < m ==> hay@[k + t] == needle@[t],
            decreases needle@.len() - m,
        {
            if hay[k + m] != needle[m] {
                matched = false;
            }
            m = m + 1;
        }
        proof {
            if matched {
                assert(hay@.subrange(k as int, k + needle@.len()) =~= needle@);
            } else {
                let t = choose|t: int| 0 <= t < needle@.len() && hay@[k + t] != needle@[t];
                assert(hay@.subrange(k as int, k + needle@.len())[t] != needle@[t]);
            }
        }
        if matched {
            return Some(k);
        }
        if k == last {
            assert(find_from(hay@, needle@, k + 1) is None);
            return None;
        }
        k = k + 1;
    }
    None
}

/// In valid UTF-8, the byte after an ASCII byte starts a new character.
pub proof fn lemma_after_ascii_not_continuation(bytes: Seq<u8>, i: int)
    requires
        valid_utf8(bytes),
        0 < i < bytes.len(),
        is_leading_byte_width_1(bytes[i - 1]),
    ensures
        !is_continuation_byte(bytes[i]),
    decreases bytes.len(),
{
    let l = length_of_first_scalar(bytes);
    let rest = pop_first_scalar(bytes);
    assert(valid_utf8(rest));
    if i - 1 < l {
        assert(i - 1 == 0);
        assert(l == 1);
        assert(rest.len() > 0);
        assert(rest[0] == bytes[i]);
    } else {
        assert(rest[i - 1 - l] == bytes[i - 1]);
        assert(rest[i - l] == bytes[i]);
        lemma_after_ascii_not_continuation(rest, i - l);
    }
}

/// Cutting valid UTF-8 right after an ASCII byte and right before one leaves valid UTF-8.
pub proof fn lemma_ascii_delimited_valid(bytes: Seq<u8>, a: int, b: int)
    requires
        valid_utf8(bytes),
        0 < a <= b < bytes.len(),
        is_leading_byte_width_1(bytes[a - 1]),
        is_leading_byte_width_1(bytes[b]),
    ensures
        valid_utf8(bytes.subrange(a, b)),
{
    broadcast use vstd::utf8::is_char_boundary_iff_not_is_continuation_byte;
    broadcast use vstd::utf8::valid_utf8_split;

    lemma_after_ascii_not_continuation(bytes, a);
    assert(is_char_boundary(bytes, a));
    let tail = bytes.subrange(a, bytes.len() as int);
    assert(valid_utf8(tail));
    assert(tail[b - a] == bytes[b]);
    assert(!is_continuation_byte(tail[b - a]));
    assert(is_char_boundary(tail, b - a));
    assert(valid_utf8(tail.subrange(0, b - a)));
    assert(tail.subrange(0, b - a) =~= bytes.subrange(a, b));
}

/// Checks whether `bytes` are valid UTF-8 and, if so, views them as text.
#[verifier::external_body]
pub(crate) fn utf8_text(bytes: &[u8]) -> (r: Option<&str>)
    ensures
        r is Some <==> valid_utf8(bytes@),
        r matches Some(s) ==> s.spec_bytes() == bytes@,
{
    core::str::from_utf8(bytes).ok()
}

} // verus!
