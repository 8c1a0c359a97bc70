//! Standalone format validators: email shape, a simplified CPF length rule,
//! strong passwords and Brazilian phone numbers.

use vstd::prelude::*;

use vstd::string::StrSliceExecFns;

use crate::caracteres::{
    count_numeric, count_numeric_chars, is_alphanumeric, is_alphanumeric_char, is_lowercase,
    is_lowercase_char, is_numeric, is_numeric_char, is_uppercase, is_uppercase_char,
};

verus! {

/// How many times `c` occurs in `s`.
pub open spec fn count_occ(s: Seq<char>, c: char) -> nat
    decreases s.len(),
{
    if s.len() == 0 {
        0
    } else {
        count_occ(s.drop_last(), c) + if s.last() == c {
            1nat
        } else {
            0nat
        }
    }
}

proof fn lemma_count_occ_zero(s: Seq<char>, c: char)
    ensures
        count_occ(s, c) == 0 <==> (forall|i: int| 0 <= i < s.len() ==> s[i] != c),
    decreases s.len(),
{
    if s.len() > 0 {
        lemma_count_occ_zero(s.drop_last(), c);
        assert(forall|i: int| 0 <= i < s.len() - 1 ==> s.drop_last()[i] == #[trigger] s[i]);
        if count_occ(s, c) == 0 {
            assert(s.last() != c);
            assert(forall|i: int| 0 <= i < s.len() - 1 ==> s[i] != c);
            assert(s[s.len() - 1] != c);
        }
    }
}

proof fn lemma_count_occ_one(s: Seq<char>, c: char, k: int)
    requires
        0 <= k < s.len(),
        s[k] == c,
        forall|i: int| 0 <= i < s.len() && i != k ==> s[i] != c,
    ensures
        count_occ(s, c) == 1,
    decreases s.len(),
{
    if k == s.len() - 1 {
        lemma_count_occ_zero(s.drop_last(), c);
        assert(forall|i: int| 0 <= i < s.len() - 1 ==> s.drop_last()[i] == #[trigger] s[i]);
        assert(count_occ(s.drop_last(), c) == 0);
    } else {
        assert(s.last() != c) by {
            assert(s[s.len() - 1] != c);
        }
        assert(forall|i: int| 0 <= i < s.len() - 1 ==> s.drop_last()[i] == #[trigger] s[i]);
        lemma_count_occ_one(s.drop_last(), c, k);
    }
}

/// `k` splits `s` into a valid address: its only `'@'`, with a nonempty local
/// part before it and a nonempty domain after it that contains a `'.'`.
pub open spec fn is_email_split(s: Seq<char>, k: int) -> bool {
    &&& 0 < k < s.len() - 1
    &&& s[k] == '@'
    &&& (forall|i: int| 0 <= i < s.len() && i != k ==> s[i] != '@')
    &&& (exists|j: int| k < j < s.len() && s[j] == '.')
}

/// The address shape the validator accepts: exactly one `'@'`, nonempty on
/// both sides, and a `'.'` somewhere in the domain.
pub open spec fn valid_email(s: Seq<char>) -> bool {
    exists|k: int| is_email_split(s, k)
}

/// True exactly when `email` has the accepted address shape.
pub fn validar_email(email: &str) -> (r: bool)
    ensures
        r == valid_email(email@),
{
    let n = email.unicode_len();
    let mut at_pos: usize = 0;
    let mut at_count: usize = 0;
    let mut k: usize = 0;
    while k < n
        invariant
            n == email@.len(),
            k <= n,
            at_count <= k,
            at_count == count_occ(email@.take(k as int), '@'),
            at_count > 0 ==> at_pos < k && email@[at_pos as int] == '@',
            at_count == 1 ==> forall|i: int|
                0 <= i < k && i != at_pos ==> email@[i] != '@',
        decreases n - k,
    {
        let c = email.get_char(k);
        proof {
            assert(email@.take(k + 1 as int).drop_last() =~= email@.take(k as int));
            assert(email@.take(k + 1 as int).last() == email@[k as int]);
        }
        if c == '@' {
            if at_count == 0 {
                proof {
                    lemma_count_occ_zero(email@.take(k as int), '@');
                    assert(forall|i: int|
                        0 <= i < k ==> email@.take(k as int)[i] == #[trigger] email@[i]);
                }
                at_pos = k;
            }
            at_count = at_count + 1;
        }
        k = k + 1;
    }
    proof {
        assert(email@.take(n as int) =~= email@);
    }
    if at_count != 1 {
        proof {
            if valid_email(email@) {
                let kk = choose|kk: int| is_email_split(email@, kk);
                lemma_count_occ_one(email@, '@', kk);
            }
        }
        return false;
    }
    proof {
        assert(n >= 1);
    }
    if at_pos == 0 || at_pos >= n - 1 {
        proof {
            if valid_email(email@) {
                let kk = choose|kk: int| is_email_split(email@, kk);
                assert(kk == at_pos as int);
            }
        }
        return false;
    }
    let mut j: usize = at_pos + 1;
    while j < n
        invariant
            n == email@.len(),
            at_pos < j <= n,
            email@[at_pos as int] == '@',
            at_pos > 0,
            at_pos < n - 1,
            forall|i: int| 0 <= i < n && i != at_pos ==> email@[i] != '@',
            forall|i: int| at_pos < i < j ==> email@[i] != '.',
        decreases n - j,
    {
        if email.get_char(j) == '.' {
            proof {
                assert(is_email_split(email@, at_pos as int));
            }
            return true;
        }
        j = j + 1;
    }
    proof {
        if valid_email(email@) {
            let kk = choose|kk: int| is_email_split(email@, kk);
            assert(kk == at_pos as int);
        }
    }
    false
}

/// The simplified CPF shape: eleven digits, with `'.'` and `'-'` as the only
/// formatting characters between them.
pub open spec fn valid_cpf_shape(s: Seq<char>) -> bool {
    &&& count_numeric(s) == 11
    &&& forall|i: int|
        0 <= i < s.len() ==> (is_numeric_char(#[trigger] s[i]) || s[i] == '.' || s[i] == '-')
}

/// True exactly when `cpf` has the simplified CPF shape.
pub fn validar_cpf(cpf: &str) -> (r: bool)
    ensures
        r == valid_cpf_shape(cpf@),
{
    let n = cpf.unicode_len();
    let mut k: usize = 0;
    while k < n
        invariant
            n == cpf@.len(),
            k <= n,
            forall|i: int|
                0 <= i < k ==> (is_numeric_char(#[trigger] cpf@[i]) || cpf@[i] == '.' || cpf@[i]
                    == '-'),
        decreases n - k,
    {
        let c = cpf.get_char(k);
        if !(is_numeric(c) || c == '.' || c == '-') {
            return false;
        }
        k = k + 1;
    }
    count_numeric_chars(cpf) == 11
}

/// The strength rule: at least eight characters, among them an uppercase, a
/// lowercase, a numeric and a non-alphanumeric one.
pub open spec fn valid_senha(s: Seq<char>) -> bool {
    &&& s.len() >= 8
    &&& (exists|i: int| 0 <= i < s.len() && is_uppercase_char(s[i]))
    &&& (exists|i: int| 0 <= i < s.len() && is_lowercase_char(s[i]))
    &&& (exists|i: int| 0 <= i < s.len() && is_numeric_char(s[i]))
    &&& (exists|i: int| 0 <= i < s.len() && !is_alphanumeric_char(s[i]))
}

/// True exactly when `senha` satisfies the strength rule.
pub fn validar_senha_forte(senha: &str) -> (r: bool)
    ensures
        r == valid_senha(senha@),
{
    let n = senha.unicode_len();
    if n < 8 {
        return false;
    }
    let mut tem_maiuscula = false;
    let mut tem_minuscula = false;
    let mut tem_numero = false;
    let mut tem_especial = false;
    let mut k: usize = 0;
    while k < n
        invariant
            n == senha@.len(),
            k <= n,
            tem_maiuscula == (exists|i: int| 0 <= i < k && is_uppercase_char(senha@[i])),
            tem_minuscula == (exists|i: int| 0 <= i < k && is_lowercase_char(senha@[i])),
            tem_numero == (exists|i: int| 0 <= i < k && is_numeric_char(senha@[i])),
            tem_especial == (exists|i: int| 0 <= i < k && !is_alphanumeric_char(senha@[i])),
        decreases n - k,
    {
        let c = senha.get_char(k);
        if is_uppercase(c) {
            tem_maiuscula = true;
        }
        if is_lowercase(c) {
            tem_minuscula = true;
        }
        if is_numeric(c) {
            tem_numero = true;
        }
        if !is_alphanumeric(c) {
            tem_especial = true;
        }
        k = k + 1;
    }
    tem_maiuscula && tem_minuscula && tem_numero && tem_especial
}

/// True exactly when `telefone` carries ten or eleven numeric characters
/// (fixed or mobile; formatting characters are ignored).
pub fn validar_telefone(telefone: &str) -> (r: bool)
    ensures
        r == (count_numeric(telefone@) == 10 || count_numeric(telefone@) == 11),
{
    let digits = count_numeric_chars(telefone);
    digits == 10 || digits == 11
}

} // verus!
