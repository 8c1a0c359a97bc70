//! What the interactive shell reads from the user, reduced to its decisions:
//! parsing a number, bounding a menu choice, and reading a yes. The shell
//! itself prompts and reads lines; these functions judge the line it got.

use vstd::prelude::*;

use vstd::string::{StrSliceExecFns, StringExecFns};

use crate::digits::{
    all_digits, digit_val_of, digits_val, is_digit_char, lemma_digits_val_prefix_bound,
};

verus! {

/// What parsing an unsigned number from a whole line yields: an optional
/// leading `'+'`, then at least one digit and nothing else, within range.
pub open spec fn parse_u32_spec(s: Seq<char>) -> Option<u32> {
    let ds = if s.len() > 0 && s[0] == '+' {
        s.skip(1)
    } else {
        s
    };
    if ds.len() == 0 {
        None
    } else if !all_digits(ds) {
        None
    } else if digits_val(ds) > u32::MAX {
        None
    } else {
        Some(digits_val(ds) as u32)
    }
}

/// Reads an unsigned number from a whole input line, `None` on anything that
/// is not one.
pub fn read_number(input: &str) -> (r: Option<u32>)
    ensures
        r == parse_u32_spec(input@),
{
    let n = input.unicode_len();
    let ghost ds = if input@.len() > 0 && input@[0] == '+' {
        input@.skip(1)
    } else {
        input@
    };
    let mut start: usize = 0;
    if n > 0 && input.get_char(0) == '+' {
        start = 1;
    }
    proof {
        assert(ds =~= input@.skip(start as int));
    }
    if start == n {
        return None;
    }
    let mut k: usize = start;
    let mut acc: u32 = 0;
    while k < n
        invariant
            n == input@.len(),
            start <= k <= n,
            start < n,
            ds == (if input@.len() > 0 && input@[0] == '+' {
                input@.skip(1)
            } else {
                input@
            }),
            ds == input@.skip(start as int),
            ds.len() == n - start,
            forall|i: int| 0 <= i < k - start ==> is_digit_char(#[trigger] ds[i]),
            acc == digits_val(ds.take(k - start as int)),
        decreases n - k,
    {
        let c = input.get_char(k);
        proof {
            assert(ds[k - start as int] == input@[k as int]);
        }
        if !('0' <= c && c <= '9') {
            proof {
                assert(!all_digits(ds));
            }
            return None;
        }
        let d = digit_val_of(c);
        let au: u64 = acc as u64;
        proof {
            assert(ds.take(k + 1 - start as int).drop_last() =~= ds.take(k - start as int));
            assert(ds.take(k + 1 - start as int).last() == ds[k - start as int]);
        }
        if au > (u32::MAX as u64 - d) / 10 {
            proof {
                let m = (u32::MAX as u64 - d) as int;
                vstd::arithmetic::div_mod::lemma_fundamental_div_mod(m, 10);
                assert(acc * 10 > m);
                assert(digits_val(ds.take(k + 1 - start as int)) > u32::MAX);
                lemma_digits_val_prefix_bound(ds, k + 1 - start as int);
                assert(digits_val(ds) > u32::MAX);
            }
            return None;
        }
        proof {
            let m = (u32::MAX as u64 - d) as int;
            vstd::arithmetic::div_mod::lemma_fundamental_div_mod(m, 10);
            assert(acc * 10 <= m);
        }
        acc = acc * 10 + (d as u32);
        k = k + 1;
    }
    proof {
        assert(ds.take((n - start) as int) =~= ds);
    }
    Some(acc)
}

/// Reads a menu choice: a number no greater than `max`; anything else is no
/// choice.
pub fn read_option(input: &str, max: u32) -> (r: Option<u32>)
    ensures
        r == (match parse_u32_spec(input@) {
            Some(v) => if v <= max {
                Some(v)
            } else {
                None::<u32>
            },
            None => None::<u32>,
        }),
{
    match read_number(input) {
        Some(v) => if v <= max {
            Some(v)
        } else {
            None
        },
        None => None,
    }
}

/// What std's `str::to_lowercase` yields: the Unicode lowercase of the
/// characters, a function of them alone.
pub uninterp spec fn lower_of(s: Seq<char>) -> Seq<char>;

/// Relies on std's `str::to_lowercase`.
#[verifier::external_body]
fn to_lowercase(s: &str) -> (r: String)
    ensures
        r@ == lower_of(s@),
{
    s.to_lowercase()
}

/// Reads a confirmation: true exactly when the line, lowercased, is one of
/// the accepted yes words.
pub fn confirm(input: &str) -> (r: bool)
    ensures
        r == (lower_of(input@) == "s"@ || lower_of(input@) == "sim"@ || lower_of(input@) == "y"@
            || lower_of(input@) == "yes"@),
{
    let low = to_lowercase(input);
    low == String::from_str("s") || low == String::from_str("sim") || low == String::from_str("y")
        || low == String::from_str("yes")
}

} // verus!
