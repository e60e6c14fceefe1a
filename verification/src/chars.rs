//! Small character and string helpers shared by the codec and the
//! extraction logic.

use vstd::prelude::*;

verus! {

/// The Unicode scalar value of a character.
pub open spec fn char_code(c: char) -> int {
    c as int
}

/// The character whose Unicode scalar value is `n`, for `n` in the valid
/// (non-surrogate) range.
pub open spec fn spec_char_of(n: int) -> char {
    choose|c: char| #[trigger] char_code(c) == n
}

/// Every character's scalar value lies in the Unicode range.
pub proof fn lemma_char_bounds(c: char)
    ensures
        0 <= c as int <= 0x10FFFF,
{
}

/// Every valid scalar value names exactly one character.
pub proof fn lemma_char_of_code(c: char)
    ensures
        spec_char_of(c as int) == c,
{
    assert(exists|x: char| #[trigger] char_code(x) == c as int) by {
        assert(char_code(c) == c as int);
    }
}

/// Relies on `core::char::from_u32`: it returns `Some` exactly on valid
/// non-surrogate code points at most `0x10FFFF`, giving the character with
/// that code.
#[verifier::external_body]
pub(crate) fn char_from_u32(u: u32) -> (r: Option<char>)
    ensures
        r is Some <==> (u < 0xD800 || (0xE000 <= u && u <= 0x10FFFF)),
        r matches Some(c) ==> c as u32 == u,
{
    char::from_u32(u)
}

/// Relies on `String`'s `FromIterator<char>` impl: collecting characters
/// concatenates them in order into a string.
#[verifier::external_body]
pub(crate) fn chars_to_string(v: &Vec<char>) -> (r: String)
    ensures
        r@ == v@,
{
    v.iter().collect()
}

/// The characters of a string slice, in order, as a vector.
pub(crate) fn str_to_chars(s: &str) -> (r: Vec<char>)
    ensures
        r@ == s@,
{
    let n = s.unicode_len();
    let mut r: Vec<char> = Vec::new();
    let mut i: usize = 0;
    while i < n
        invariant
            n == s@.len(),
            i <= n,
            r@ == s@.subrange(0, i as int),
        decreases n - i,
    {
        r.push(s.get_char(i));
        i = i + 1;
        proof {
            assert(r@ =~= s@.subrange(0, i as int));
        }
    }
    proof {
        assert(r@ =~= s@);
    }
    r
}

} // verus!
