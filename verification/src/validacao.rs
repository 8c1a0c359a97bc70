//! Record validation for the community library: the CPF rule it registers
//! users under.

use vstd::prelude::*;

use vstd::string::StrSliceExecFns;

use crate::caracteres::{is_numeric, is_numeric_char};

verus! {

/// The Unicode-numeric characters, as a filter.
pub open spec fn numeric_filter() -> spec_fn(char) -> bool {
    |c: char| is_numeric_char(c)
}

/// The numeric characters of `s`, in order, formatting dropped.
pub open spec fn numeric_only(s: Seq<char>) -> Seq<char> {
    s.filter(numeric_filter())
}

/// The simplified CPF rule: exactly eleven digits once formatting is
/// dropped, and not all eleven equal (which catches the well-known bogus
/// repeated-digit numbers).
pub open spec fn valid_cpf(s: Seq<char>) -> bool {
    &&& numeric_only(s).len() == 11
    &&& !(forall|i: int|
        0 <= i < numeric_only(s).len() ==> #[trigger] numeric_only(s)[i] == numeric_only(s)[0])
}

/// True exactly when `cpf` satisfies the simplified CPF rule.
pub fn validar_cpf(cpf: &str) -> (r: bool)
    ensures
        r == valid_cpf(cpf@),
{
    let n = cpf.unicode_len();
    let mut digits: Vec<char> = Vec::new();
    proof {
        assert(digits@ =~= numeric_only(cpf@.take(0))) by {
            reveal(Seq::filter);
            assert(cpf@.take(0) =~= Seq::<char>::empty());
        }
    }
    let mut k: usize = 0;
    while k < n
        invariant
            n == cpf@.len(),
            k <= n,
            digits@ == numeric_only(cpf@.take(k as int)),
        decreases n - k,
    {
        let c = cpf.get_char(k);
        let ghost pre = digits@;
        if is_numeric(c) {
            digits.push(c);
        }
        proof {
            reveal(Seq::filter);
            assert(cpf@.take(k + 1 as int).drop_last() =~= cpf@.take(k as int));
            assert(cpf@.take(k + 1 as int).last() == cpf@[k as int]);
            if numeric_filter()(cpf@[k as int]) {
                assert(digits@ =~= pre.push(cpf@[k as int]));
            } else {
                assert(digits@ =~= pre);
            }
        }
        k = k + 1;
    }
    proof {
        assert(cpf@.take(n as int) =~= cpf@);
    }
    if digits.len() != 11 {
        return false;
    }
    let first = digits[0];
    let mut k2: usize = 1;
    while k2 < digits.len()
        invariant
            digits@ == numeric_only(cpf@),
            digits@.len() == 11,
            first == digits@[0],
            1 <= k2 <= digits@.len(),
            forall|i: int| 0 <= i < k2 ==> #[trigger] digits@[i] == digits@[0],
        decreases digits@.len() - k2,
    {
        if digits[k2] != first {
            return true;
        }
        k2 = k2 + 1;
    }
    false
}

} // verus!
