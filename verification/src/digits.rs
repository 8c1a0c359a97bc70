//! Decimal notation for the integers that the text encoding and the display
//! helpers write: the digit sequence of a number, its value, and executable
//! writers proved against them.

use vstd::prelude::*;

verus! {

/// `c` is one of the ten ASCII decimal digits.
pub open spec fn is_digit_char(c: char) -> bool {
    '0' <= c && c <= '9'
}

/// The digit character for a value below ten.
pub open spec fn digit_char(d: nat) -> char {
    if d == 0 {
        '0'
    } else if d == 1 {
        '1'
    } else if d == 2 {
        '2'
    } else if d == 3 {
        '3'
    } else if d == 4 {
        '4'
    } else if d == 5 {
        '5'
    } else if d == 6 {
        '6'
    } else if d == 7 {
        '7'
    } else if d == 8 {
        '8'
    } else {
        '9'
    }
}

/// The value of a digit character; zero on anything else.
pub open spec fn digit_val(c: char) -> nat {
    if c == '1' {
        1
    } else if c == '2' {
        2
    } else if c == '3' {
        3
    } else if c == '4' {
        4
    } else if c == '5' {
        5
    } else if c == '6' {
        6
    } else if c == '7' {
        7
    } else if c == '8' {
        8
    } else if c == '9' {
        9
    } else {
        0
    }
}

/// The decimal digit sequence of `n`, most significant digit first, with no
/// leading zeros (zero itself is the single digit `'0'`).
pub open spec fn digits_of(n: nat) -> Seq<char>
    decreases n,
{
    if n < 10 {
        seq![digit_char(n)]
    } else {
        digits_of(n / 10).push(digit_char(n % 10))
    }
}

/// Every character of `s` is a decimal digit.
pub open spec fn all_digits(s: Seq<char>) -> bool {
    forall|i: int| 0 <= i < s.len() ==> is_digit_char(#[trigger] s[i])
}

/// The number denoted by a digit sequence, read most significant digit first.
pub open spec fn digits_val(s: Seq<char>) -> nat
    decreases s.len(),
{
    if s.len() == 0 {
        0
    } else {
        digits_val(s.drop_last()) * 10 + digit_val(s.last())
    }
}

/// Ten to the `k`.
pub open spec fn pow10(k: nat) -> nat
    decreases k,
{
    if k == 0 {
        1
    } else {
        10 * pow10((k - 1) as nat)
    }
}

pub proof fn lemma_digit_roundtrip(d: nat)
    requires
        d < 10,
    ensures
        is_digit_char(digit_char(d)),
        digit_val(digit_char(d)) == d,
{
}

/// The digit sequence of `n` is nonempty, consists of digits only, and denotes
/// `n` itself.
pub proof fn lemma_digits_of(n: nat)
    ensures
        digits_of(n).len() >= 1,
        all_digits(digits_of(n)),
        digits_val(digits_of(n)) == n,
    decreases n,
{
    if n < 10 {
        lemma_digit_roundtrip(n);
        assert(digits_of(n) =~= seq![digit_char(n)]);
        assert(digits_of(n).drop_last() =~= Seq::<char>::empty());
        assert(digits_val(Seq::<char>::empty()) == 0);
        assert(digits_of(n).last() == digit_char(n));
        assert(digits_val(digits_of(n)) == digits_val(digits_of(n).drop_last()) * 10 + digit_val(
            digits_of(n).last(),
        ));
    } else {
        lemma_digits_of(n / 10);
        lemma_digit_roundtrip(n % 10);
        assert(digits_of(n).drop_last() =~= digits_of(n / 10));
        assert(digits_of(n).last() == digit_char(n % 10));
        assert(digits_val(digits_of(n)) == digits_val(digits_of(n / 10)) * 10 + digit_val(
            digit_char(n % 10),
        ));
        assert(n / 10 * 10 + n % 10 == n) by (nonlinear_arith);
    }
}

pub proof fn lemma_pow10_pos(k: nat)
    ensures
        pow10(k) >= 1,
    decreases k,
{
    if k > 0 {
        lemma_pow10_pos((k - 1) as nat);
    }
}

/// Reading a digit sequence from the front: the first digit carries a power of
/// ten given by the number of digits after it.
pub proof fn lemma_digits_val_front(s: Seq<char>)
    requires
        s.len() > 0,
    ensures
        digits_val(s) == digit_val(s[0]) * pow10((s.len() - 1) as nat) + digits_val(s.subrange(
            1,
            s.len() as int,
        )),
    decreases s.len(),
{
    if s.len() == 1 {
        assert(s.drop_last() =~= Seq::<char>::empty());
        assert(s.subrange(1, 1) =~= Seq::<char>::empty());
    } else {
        let front = s.drop_last();
        lemma_digits_val_front(front);
        assert(s.subrange(1, s.len() as int).drop_last() =~= front.subrange(
            1,
            front.len() as int,
        ));
        assert(s.subrange(1, s.len() as int).last() == s.last());
        let k = (front.len() - 1) as nat;
        assert(digits_val(front) == digit_val(s[0]) * pow10(k) + digits_val(
            front.subrange(1, front.len() as int),
        ));
        assert(digits_val(s) == digits_val(front) * 10 + digit_val(s.last()));
        assert((digit_val(s[0]) * pow10(k) + digits_val(front.subrange(1, front.len() as int)))
            * 10 == digit_val(s[0]) * (pow10(k) * 10) + digits_val(
            front.subrange(1, front.len() as int),
        ) * 10) by (nonlinear_arith);
        assert(pow10(k) * 10 == pow10((s.len() - 1) as nat));
        assert(digits_val(s.subrange(1, s.len() as int)) == digits_val(
            front.subrange(1, front.len() as int),
        ) * 10 + digit_val(s.last()));
    }
}

/// Reading a digit sequence in two halves: the front carries a power of ten
/// given by the number of digits behind it.
pub proof fn lemma_digits_val_split(s: Seq<char>, k: int)
    requires
        0 <= k <= s.len(),
    ensures
        digits_val(s) == digits_val(s.take(k)) * pow10((s.len() - k) as nat) + digits_val(
            s.skip(k),
        ),
    decreases s.len(),
{
    if k == s.len() {
        assert(s.take(k) =~= s);
        assert(s.skip(k) =~= Seq::<char>::empty());
        assert(pow10(0) == 1);
        assert(digits_val(s) * 1 == digits_val(s)) by (nonlinear_arith);
    } else {
        let dl = s.drop_last();
        lemma_digits_val_split(dl, k);
        assert(dl.take(k) =~= s.take(k));
        assert(dl.skip(k) =~= s.skip(k).drop_last());
        assert(s.skip(k).last() == s.last());
        let rest = (s.len() - k - 1) as nat;
        assert(digits_val(s) == digits_val(dl) * 10 + digit_val(s.last()));
        assert(digits_val(dl) == digits_val(s.take(k)) * pow10(rest) + digits_val(
            s.skip(k).drop_last(),
        ));
        assert((digits_val(s.take(k)) * pow10(rest) + digits_val(s.skip(k).drop_last())) * 10
            == digits_val(s.take(k)) * (pow10(rest) * 10) + digits_val(s.skip(k).drop_last())
            * 10) by (nonlinear_arith);
        assert(pow10(rest) * 10 == pow10((s.len() - k) as nat));
        assert(digits_val(s.skip(k)) == digits_val(s.skip(k).drop_last()) * 10 + digit_val(
            s.last(),
        ));
    }
}

/// A digit sequence denotes at least what any front part of it denotes.
pub proof fn lemma_digits_val_prefix_bound(s: Seq<char>, k: int)
    requires
        0 <= k <= s.len(),
    ensures
        digits_val(s) >= digits_val(s.take(k)),
{
    lemma_digits_val_split(s, k);
    lemma_pow10_pos((s.len() - k) as nat);
    assert(digits_val(s.take(k)) * pow10((s.len() - k) as nat) >= digits_val(s.take(k)) * 1)
        by (nonlinear_arith)
        requires
            pow10((s.len() - k) as nat) >= 1,
    ;
}

/// Relies on std's `String::push`: appends exactly the one character.
#[verifier::external_body]
pub fn push_char(s: &mut String, c: char)
    ensures
        final(s)@ == old(s)@.push(c),
{
    s.push(c);
}

/// The digit character for a value below ten.
pub fn digit_char_of(d: u64) -> (c: char)
    requires
        d < 10,
    ensures
        c == digit_char(d as nat),
{
    if d == 0 {
        '0'
    } else if d == 1 {
        '1'
    } else if d == 2 {
        '2'
    } else if d == 3 {
        '3'
    } else if d == 4 {
        '4'
    } else if d == 5 {
        '5'
    } else if d == 6 {
        '6'
    } else if d == 7 {
        '7'
    } else if d == 8 {
        '8'
    } else {
        '9'
    }
}

/// The value of a decimal digit character.
pub fn digit_val_of(c: char) -> (d: u64)
    requires
        is_digit_char(c),
    ensures
        d == digit_val(c),
        d < 10,
{
    if c == '1' {
        1
    } else if c == '2' {
        2
    } else if c == '3' {
        3
    } else if c == '4' {
        4
    } else if c == '5' {
        5
    } else if c == '6' {
        6
    } else if c == '7' {
        7
    } else if c == '8' {
        8
    } else if c == '9' {
        9
    } else {
        0
    }
}

/// Appends the decimal digits of `n` to `s`.
pub fn append_digits(s: &mut String, n: u64)
    ensures
        final(s)@ == old(s)@ + digits_of(n as nat),
    decreases n,
{
    if n < 10 {
        push_char(s, digit_char_of(n));
        assert(s@ =~= old(s)@ + digits_of(n as nat));
    } else {
        append_digits(s, n / 10);
        push_char(s, digit_char_of(n % 10));
        assert(s@ =~= old(s)@ + digits_of(n as nat));
    }
}

/// The decimal notation of `n` as a fresh string.
pub fn u64_to_string(n: u64) -> (r: String)
    ensures
        r@ == digits_of(n as nat),
{
    let mut s = String::new();
    append_digits(&mut s, n);
    proof {
        assert(s@ =~= digits_of(n as nat));
    }
    s
}

} // verus!
