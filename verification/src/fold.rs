//! Case folding: how a search without regard to case reads a character.
//!
//! A character is folded to its lower case. What the lower case of a
//! character is, the standard library knows; the library asks it, character
//! by character. The offsets that a search reports are offsets of the text as
//! it is given, so folding must not move any character of the text: a
//! character is folded only where its lower case is a single character that
//! takes as many bytes in UTF-8 as the character itself. Any other character
//! is read as it stands.
use vstd::prelude::*;
use vstd::utf8::encode_scalar;

verus! {

/// What `char::to_lowercase` of the standard library yields for `c`: the
/// characters of the lower case of `c`, in their order.
pub uninterp spec fn lowercase_of(c: char) -> Seq<char>;

/// Asks the standard library for the lower case of `c`, by a call of
/// `char::to_lowercase`, and collects the characters that it yields. Nothing
/// is proved of them; the contract gives them their name.
#[verifier::external_body]
fn to_lowercase(c: char) -> (lower: Vec<char>)
    ensures
        lower@ == lowercase_of(c),
{
    c.to_lowercase().collect()
}

/// The number of bytes that a character takes in UTF-8.
pub open spec fn utf8_width(c: char) -> nat {
    encode_scalar(c as u32).len()
}

/// The character that stands for `c` when `lower` is its lower case: the
/// lower case itself where it is one character and as wide as `c`, and `c`
/// where it is not.
pub open spec fn fold_to(c: char, lower: Seq<char>) -> char {
    if lower.len() == 1 && utf8_width(lower[0]) == utf8_width(c) {
        lower[0]
    } else {
        c
    }
}

/// One character as a search reads it. With regard to case that is the
/// character itself. Without, it is the lower case of an ASCII capital, any
/// other ASCII character itself, and for a character beyond ASCII what
/// `fold_to` makes of the lower case that the standard library gives.
pub open spec fn fold_char(c: char, ignore_case: bool) -> char {
    if !ignore_case {
        c
    } else if 'A' <= c <= 'Z' {
        ((c as u8 + 32) as u8) as char
    } else if c <= '\x7f' {
        c
    } else {
        fold_to(c, lowercase_of(c))
    }
}

/// A string as a search reads it: each character folded.
pub open spec fn folded(s: Seq<char>, ignore_case: bool) -> Seq<char> {
    Seq::new(s.len(), |i: int| fold_char(s[i], ignore_case))
}

/// Folding keeps the width of a character.
pub proof fn lemma_fold_keeps_width(c: char, ignore_case: bool)
    ensures
        utf8_width(fold_char(c, ignore_case)) == utf8_width(c),
{
}

/// The number of bytes that a character takes in UTF-8.
pub fn width(c: char) -> (w: usize)
    ensures
        w == utf8_width(c),
        1 <= w <= 4,
{
    let u = c as u32;
    if u < 0x80 {
        1
    } else if u < 0x800 {
        2
    } else if u < 0x10000 {
        3
    } else {
        4
    }
}

/// Picks the character that stands for `c` when `lower` is its lower case.
pub fn pick_fold(c: char, lower: &Vec<char>) -> (f: char)
    ensures
        f == fold_to(c, lower@),
{
    if lower.len() == 1 && width(lower[0]) == width(c) {
        lower[0]
    } else {
        c
    }
}

/// One character as a search with the given case mode reads it.
pub fn fold(c: char, ignore_case: bool) -> (f: char)
    ensures
        f == fold_char(c, ignore_case),
{
    if !ignore_case {
        c
    } else if c >= 'A' && c <= 'Z' {
        ((c as u8) + 32) as char
    } else if c <= '\x7f' {
        c
    } else {
        let lower = to_lowercase(c);
        pick_fold(c, &lower)
    }
}

/// The characters of a string as a search with the given case mode reads
/// them.
pub fn fold_str(s: &str, ignore_case: bool) -> (v: Vec<char>)
    ensures
        v@ == folded(s@, ignore_case),
{
    let mut v: Vec<char> = Vec::new();
    for c in it: s.chars()
        invariant
            it.seq() == s@,
            v@ == folded(s@.take(it.index() as int), ignore_case),
    {
        v.push(fold(c, ignore_case));
        assert(v@ =~= folded(s@.take(it.index() + 1), ignore_case));
    }
    assert(s@.take(s@.len() as int) =~= s@);
    v
}

} // verus!
