//! Where the characters of a string begin among its bytes.
//!
//! A search counts in characters and reports in bytes. The byte offset of a
//! character is the number of bytes that the characters before it take in
//! UTF-8, and a string can be cut there: it is a character boundary.
use vstd::prelude::*;
use vstd::utf8::{
    encode_scalar, encode_utf8, encode_utf8_first_scalar, encode_utf8_valid_utf8,
    is_char_boundary, pop_first_scalar,
};
use crate::fold::{folded, lemma_fold_keeps_width, utf8_width, width};
use crate::text::{lemma_encode_utf8_concat, lemma_encode_utf8_injective};

verus! {

/// The byte offset at which character `i` of `s` begins: the number of bytes
/// of the `i` characters before it. For `i` the number of characters it is
/// the number of bytes of `s`.
pub open spec fn byte_offset(s: Seq<char>, i: int) -> nat {
    encode_utf8(s.take(i)).len()
}

/// The bytes of a single character are as many as its width says.
pub proof fn lemma_encode_one(c: char)
    ensures
        encode_utf8(seq![c]).len() == utf8_width(c),
        1 <= utf8_width(c) <= 4,
{
    let none = Seq::<char>::empty();
    assert(seq![c].drop_first() =~= none);
    assert(encode_utf8(none) =~= Seq::<u8>::empty());
    assert(encode_utf8(seq![c]) =~= encode_scalar(c as u32));
}

/// Each character adds its width to the byte offset.
pub proof fn lemma_byte_offset_step(s: Seq<char>, i: int)
    requires
        0 <= i < s.len(),
    ensures
        byte_offset(s, i + 1) == byte_offset(s, i) + utf8_width(s[i]),
        byte_offset(s, i) < byte_offset(s, i + 1),
{
    assert(s.take(i + 1) =~= s.take(i) + seq![s[i]]);
    lemma_encode_utf8_concat(s.take(i), seq![s[i]]);
    lemma_encode_one(s[i]);
}

/// The byte offset of a later character is the byte offset of an earlier
/// one and, from there, the byte offset of the later one in what is left.
pub proof fn lemma_byte_offset_skip(s: Seq<char>, a: int, b: int)
    requires
        0 <= a,
        0 <= b,
        a + b <= s.len(),
    ensures
        byte_offset(s, a + b) == byte_offset(s, a) + byte_offset(s.skip(a), b),
        byte_offset(s.skip(a), b) == encode_utf8(s.subrange(a, a + b)).len(),
{
    assert(s.take(a + b) =~= s.take(a) + s.skip(a).take(b));
    assert(s.skip(a).take(b) =~= s.subrange(a, a + b));
    lemma_encode_utf8_concat(s.take(a), s.skip(a).take(b));
}

/// The byte offset behind the last character is the number of bytes of the
/// string, and no byte offset lies beyond it.
pub proof fn lemma_byte_offset_bound(s: Seq<char>, i: int)
    requires
        0 <= i <= s.len(),
    ensures
        byte_offset(s, s.len() as int) == encode_utf8(s).len(),
        byte_offset(s, i) <= encode_utf8(s).len(),
{
    assert(s.take(s.len() as int) =~= s);
    lemma_byte_offset_skip(s, i, s.len() - i);
}

/// Two strings whose characters are as wide, one by one, have as many bytes.
pub proof fn lemma_same_widths(a: Seq<char>, b: Seq<char>)
    requires
        a.len() == b.len(),
        forall|j: int| 0 <= j < a.len() ==> utf8_width(#[trigger] a[j]) == utf8_width(b[j]),
    ensures
        encode_utf8(a).len() == encode_utf8(b).len(),
    decreases a.len(),
{
    if a.len() > 0 {
        assert(utf8_width(a[0]) == utf8_width(b[0]));
        assert forall|j: int| 0 <= j < a.drop_first().len() implies utf8_width(
            #[trigger] a.drop_first()[j],
        ) == utf8_width(b.drop_first()[j]) by {
            assert(utf8_width(a[j + 1]) == utf8_width(b[j + 1]));
        }
        lemma_same_widths(a.drop_first(), b.drop_first());
    }
}

/// Folding moves no character: the byte offsets of the folded string are
/// those of the string.
pub proof fn lemma_byte_offset_folded(s: Seq<char>, ignore_case: bool, i: int)
    requires
        0 <= i <= s.len(),
    ensures
        byte_offset(folded(s, ignore_case), i) == byte_offset(s, i),
{
    let f = folded(s, ignore_case);
    assert forall|j: int| 0 <= j < i implies utf8_width(#[trigger] f.take(i)[j]) == utf8_width(
        s.take(i)[j],
    ) by {
        lemma_fold_keeps_width(s[j], ignore_case);
    }
    lemma_same_widths(f.take(i), s.take(i));
}

/// A string can be cut in front of each of its characters, and behind the
/// last: the byte offset of a character is a character boundary.
pub proof fn lemma_byte_offset_is_boundary(s: Seq<char>, i: int)
    requires
        0 <= i <= s.len(),
    ensures
        is_char_boundary(encode_utf8(s), byte_offset(s, i) as int),
    decreases i,
{
    let bytes = encode_utf8(s);
    encode_utf8_valid_utf8(s);
    if i == 0 {
        assert(s.take(0) =~= Seq::<char>::empty());
    } else {
        let rest = s.drop_first();
        encode_utf8_first_scalar(s);
        assert(pop_first_scalar(bytes) =~= encode_utf8(rest));
        lemma_byte_offset_skip(s, 1, i - 1);
        assert(s.take(1) =~= seq![s[0]]);
        lemma_encode_one(s[0]);
        assert(s.skip(1) =~= rest);
        lemma_byte_offset_is_boundary(rest, i - 1);
        lemma_byte_offset_bound(s, i);
    }
}

/// The byte offsets of all the characters of `s`, and behind them the number
/// of its bytes.
pub fn offsets(s: &str) -> (v: Vec<usize>)
    ensures
        v@.len() == s@.len() + 1,
        forall|i: int| 0 <= i <= s@.len() ==> #[trigger] v@[i] == byte_offset(s@, i),
{
    let total = s.as_bytes().len();
    let mut v: Vec<usize> = Vec::new();
    let mut at: usize = 0;
    v.push(at);
    assert(s@.take(0) =~= Seq::<char>::empty());
    for c in it: s.chars()
        invariant
            it.seq() == s@,
            total == encode_utf8(s@).len(),
            at == byte_offset(s@, it.index() as int),
            v@.len() == it.index() + 1,
            forall|i: int| 0 <= i <= it.index() ==> #[trigger] v@[i] == byte_offset(s@, i),
    {
        proof {
            lemma_byte_offset_step(s@, it.index() as int);
            lemma_byte_offset_bound(s@, it.index() + 1);
        }
        at += width(c);
        v.push(at);
    }
    v
}

/// Cuts `s` in front of character `i`, which begins at byte `mid`.
pub(crate) fn split_chars<'a>(s: &'a str, mid: usize, Ghost(i): Ghost<int>) -> (parts: (
    &'a str,
    &'a str,
))
    requires
        0 <= i <= s@.len(),
        mid == byte_offset(s@, i),
    ensures
        parts.0@ == s@.take(i),
        parts.1@ == s@.skip(i),
{
    proof {
        lemma_byte_offset_is_boundary(s@, i);
        assert(s@ =~= s@.take(i) + s@.skip(i));
        lemma_encode_utf8_concat(s@.take(i), s@.skip(i));
    }
    let parts = s.split_at(mid);
    proof {
        let bytes = encode_utf8(s@);
        assert(bytes.subrange(0, mid as int) =~= encode_utf8(s@.take(i)));
        assert(bytes.subrange(mid as int, bytes.len() as int) =~= encode_utf8(s@.skip(i)));
        lemma_encode_utf8_injective(parts.0@, s@.take(i));
        lemma_encode_utf8_injective(parts.1@, s@.skip(i));
    }
    parts
}

} // verus!
