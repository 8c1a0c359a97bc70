//! The Unicode character classes that the validators test. Each class is a
//! function of the character alone; std owns their definitions, so they are
//! named here and read through trusted wrappers.

use vstd::prelude::*;

use vstd::string::StrSliceExecFns;

verus! {

/// What std's `char::is_numeric` holds of a character.
pub uninterp spec fn is_numeric_char(c: char) -> bool;

/// What std's `char::is_uppercase` holds of a character.
pub uninterp spec fn is_uppercase_char(c: char) -> bool;

/// What std's `char::is_lowercase` holds of a character.
pub uninterp spec fn is_lowercase_char(c: char) -> bool;

/// What std's `char::is_alphanumeric` holds of a character.
pub uninterp spec fn is_alphanumeric_char(c: char) -> bool;

/// Relies on std's `char::is_numeric`: whether the character is Unicode
/// numeric, a pure function of the character.
#[verifier::external_body]
pub fn is_numeric(c: char) -> (r: bool)
    ensures
        r == is_numeric_char(c),
{
    c.is_numeric()
}

/// Relies on std's `char::is_uppercase`: whether the character is Unicode
/// uppercase, a pure function of the character.
#[verifier::external_body]
pub fn is_uppercase(c: char) -> (r: bool)
    ensures
        r == is_uppercase_char(c),
{
    c.is_uppercase()
}

/// Relies on std's `char::is_lowercase`: whether the character is Unicode
/// lowercase, a pure function of the character.
#[verifier::external_body]
pub fn is_lowercase(c: char) -> (r: bool)
    ensures
        r == is_lowercase_char(c),
{
    c.is_lowercase()
}

/// Relies on std's `char::is_alphanumeric`: whether the character is Unicode
/// alphanumeric, a pure function of the character.
#[verifier::external_body]
pub fn is_alphanumeric(c: char) -> (r: bool)
    ensures
        r == is_alphanumeric_char(c),
{
    c.is_alphanumeric()
}

/// How many characters of `s` are Unicode numeric.
pub open spec fn count_numeric(s: Seq<char>) -> nat
    decreases s.len(),
{
    if s.len() == 0 {
        0
    } else {
        count_numeric(s.drop_last()) + if is_numeric_char(s.last()) {
            1nat
        } else {
            0nat
        }
    }
}

/// Counts the Unicode numeric characters of `s`.
pub fn count_numeric_chars(s: &str) -> (r: usize)
    ensures
        r == count_numeric(s@),
        r <= s@.len(),
{
    let n = s.unicode_len();
    let mut count: usize = 0;
    let mut k: usize = 0;
    while k < n
        invariant
            n == s@.len(),
            k <= n,
            count <= k,
            count == count_numeric(s@.take(k as int)),
        decreases n - k,
    {
        let c = s.get_char(k);
        if is_numeric(c) {
            count = count + 1;
        }
        proof {
            assert(s@.take(k + 1 as int).drop_last() =~= s@.take(k as int));
            assert(s@.take(k + 1 as int).last() == s@[k as int]);
        }
        k = k + 1;
    }
    proof {
        assert(s@.take(n as int) =~= s@);
    }
    count
}

} // verus!
