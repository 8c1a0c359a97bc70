//! The persisted text form of a task collection, as one grammar: encoding
//! functions, a parser, and the proof that the parser inverts the encoder.
//!
//! Numbers are written as decimal digits closed by `';'` (a minus sign in
//! front of negative ones), strings as a length followed by exactly that many
//! characters, options as a `0;`/`1;` tag, and the collection as a count
//! followed by that many records.

use vstd::prelude::*;

use crate::digits::{
    append_digits, digit_val_of, push_char,
    all_digits, digit_val, digits_of, digits_val, is_digit_char, lemma_digits_of,
    lemma_digits_val_front, lemma_pow10_pos, pow10,
};
use crate::dates::Date;
use crate::errors::TaskError;
use vstd::string::StrSliceExecFns;
use crate::task::{Category, Priority, Status, Task, TaskV};

verus! {

// ---------------------------------------------------------------------------
// Encoding
// ---------------------------------------------------------------------------
/// A number atom: decimal digits closed by `';'`.
pub open spec fn enc_nat(n: nat) -> Seq<char> {
    digits_of(n).push(';')
}

/// A signed number atom.
pub open spec fn enc_int(n: int) -> Seq<char> {
    if n >= 0 {
        enc_nat(n as nat)
    } else {
        seq!['-'] + enc_nat((-n) as nat)
    }
}

/// A string atom: the length, then exactly that many characters.
pub open spec fn enc_str(s: Seq<char>) -> Seq<char> {
    enc_nat(s.len()) + s
}

/// A date atom: year, month, day.
pub open spec fn enc_date(d: Date) -> Seq<char> {
    enc_int(d.year as int) + enc_nat(d.month as nat) + enc_nat(d.day as nat)
}

/// An optional date: a presence tag, then the date if present.
pub open spec fn enc_opt_date(od: Option<Date>) -> Seq<char> {
    match od {
        None => enc_nat(0),
        Some(d) => enc_nat(1) + enc_date(d),
    }
}

/// An optional timestamp: a presence tag, then the value if present.
pub open spec fn enc_opt_int(on: Option<i64>) -> Seq<char> {
    match on {
        None => enc_nat(0),
        Some(n) => enc_nat(1) + enc_int(n as int),
    }
}

pub open spec fn category_tag(c: Category) -> nat {
    match c {
        Category::Work => 0,
        Category::Personal => 1,
        Category::Study => 2,
        Category::Health => 3,
        Category::Other => 4,
    }
}

pub open spec fn category_of_tag(n: nat) -> Option<Category> {
    if n == 0 {
        Some(Category::Work)
    } else if n == 1 {
        Some(Category::Personal)
    } else if n == 2 {
        Some(Category::Study)
    } else if n == 3 {
        Some(Category::Health)
    } else if n == 4 {
        Some(Category::Other)
    } else {
        None
    }
}

pub open spec fn priority_tag(p: Priority) -> nat {
    match p {
        Priority::High => 0,
        Priority::Medium => 1,
        Priority::Low => 2,
    }
}

pub open spec fn priority_of_tag(n: nat) -> Option<Priority> {
    if n == 0 {
        Some(Priority::High)
    } else if n == 1 {
        Some(Priority::Medium)
    } else if n == 2 {
        Some(Priority::Low)
    } else {
        None
    }
}

pub open spec fn status_tag(s: Status) -> nat {
    match s {
        Status::Pending => 0,
        Status::InProgress => 1,
        Status::Completed => 2,
    }
}

pub open spec fn status_of_tag(n: nat) -> Option<Status> {
    if n == 0 {
        Some(Status::Pending)
    } else if n == 1 {
        Some(Status::InProgress)
    } else if n == 2 {
        Some(Status::Completed)
    } else {
        None
    }
}

/// One task record: every field in a fixed order.
pub open spec fn enc_task(t: TaskV) -> Seq<char> {
    enc_nat(t.id as nat) + enc_str(t.title) + enc_str(t.description) + enc_nat(
        category_tag(t.category),
    ) + enc_nat(priority_tag(t.priority)) + enc_nat(status_tag(t.status)) + enc_opt_date(
        t.due_date,
    ) + enc_int(t.created_at as int) + enc_opt_int(t.completed_at)
}

/// The records one after another, in collection order.
pub open spec fn enc_task_list(ts: Seq<TaskV>) -> Seq<char>
    decreases ts.len(),
{
    if ts.len() == 0 {
        Seq::empty()
    } else {
        enc_task(ts.first()) + enc_task_list(ts.drop_first())
    }
}

/// The whole collection: a count, then that many records.
pub open spec fn enc_tasks(ts: Seq<TaskV>) -> Seq<char> {
    enc_nat(ts.len()) + enc_task_list(ts)
}

/// The text encoding writes string lengths and the record count as one
/// machine word; nothing larger can be saved.
pub open spec fn task_encodable(t: TaskV) -> bool {
    &&& t.title.len() <= u64::MAX
    &&& t.description.len() <= u64::MAX
}

pub open spec fn tasks_encodable(ts: Seq<TaskV>) -> bool {
    &&& ts.len() <= u64::MAX
    &&& forall|i: int| 0 <= i < ts.len() ==> task_encodable(#[trigger] ts[i])
}

// ---------------------------------------------------------------------------
// Parsing
// ---------------------------------------------------------------------------
/// Reads digits from position `i` until a `';'`, folding them into `acc`;
/// fails on anything else, on a value beyond one machine word, or when no
/// digit at all precedes the `';'`.
pub open spec fn parse_nat_rec(s: Seq<char>, i: int, acc: nat, seen: bool) -> Option<(nat, int)>
    decreases s.len() - i,
{
    if i < 0 || i >= s.len() {
        None
    } else if s[i] == ';' {
        if seen {
            Some((acc, i + 1))
        } else {
            None
        }
    } else if is_digit_char(s[i]) {
        if acc * 10 + digit_val(s[i]) > u64::MAX {
            None
        } else {
            parse_nat_rec(s, i + 1, acc * 10 + digit_val(s[i]), true)
        }
    } else {
        None
    }
}

pub open spec fn parse_nat(s: Seq<char>, i: int) -> Option<(nat, int)> {
    parse_nat_rec(s, i, 0, false)
}

/// A signed number: an optional minus sign, then a number atom, within the
/// signed machine-word range.
pub open spec fn parse_int(s: Seq<char>, i: int) -> Option<(int, int)> {
    if 0 <= i < s.len() && s[i] == '-' {
        match parse_nat(s, i + 1) {
            Some((n, j)) => if -(n as int) >= i64::MIN {
                Some((-(n as int), j))
            } else {
                None
            },
            None => None,
        }
    } else {
        match parse_nat(s, i) {
            Some((n, j)) => if n <= i64::MAX {
                Some((n as int, j))
            } else {
                None
            },
            None => None,
        }
    }
}

/// A string: a length, then exactly that many characters.
pub open spec fn parse_str(s: Seq<char>, i: int) -> Option<(Seq<char>, int)> {
    match parse_nat(s, i) {
        Some((n, j)) => if j + n <= s.len() {
            Some((s.subrange(j, j + n), j + n))
        } else {
            None
        },
        None => None,
    }
}

pub open spec fn parse_date(s: Seq<char>, i: int) -> Option<(Date, int)> {
    match parse_int(s, i) {
        Some((y, j)) => if i32::MIN <= y <= i32::MAX {
            match parse_nat(s, j) {
                Some((m, j2)) => if m <= u8::MAX {
                    match parse_nat(s, j2) {
                        Some((d, j3)) => if d <= u8::MAX {
                            Some((Date { year: y as i32, month: m as u8, day: d as u8 }, j3))
                        } else {
                            None
                        },
                        None => None,
                    }
                } else {
                    None
                },
                None => None,
            }
        } else {
            None
        },
        None => None,
    }
}

pub open spec fn parse_opt_date(s: Seq<char>, i: int) -> Option<(Option<Date>, int)> {
    match parse_nat(s, i) {
        Some((tag, j)) => if tag == 0 {
            Some((None, j))
        } else if tag == 1 {
            match parse_date(s, j) {
                Some((d, j2)) => Some((Some(d), j2)),
                None => None,
            }
        } else {
            None
        },
        None => None,
    }
}

pub open spec fn parse_opt_int(s: Seq<char>, i: int) -> Option<(Option<i64>, int)> {
    match parse_nat(s, i) {
        Some((tag, j)) => if tag == 0 {
            Some((None, j))
        } else if tag == 1 {
            match parse_int(s, j) {
                Some((n, j2)) => Some((Some(n as i64), j2)),
                None => None,
            }
        } else {
            None
        },
        None => None,
    }
}

pub open spec fn parse_task(s: Seq<char>, i: int) -> Option<(TaskV, int)> {
    match parse_nat(s, i) {
        Some((id, j1)) => if id <= u32::MAX {
            match parse_str(s, j1) {
                Some((title, j2)) => match parse_str(s, j2) {
                    Some((description, j3)) => match parse_nat(s, j3) {
                        Some((ct, j4)) => match category_of_tag(ct) {
                            Some(category) => match parse_nat(s, j4) {
                                Some((pt, j5)) => match priority_of_tag(pt) {
                                    Some(priority) => match parse_nat(s, j5) {
                                        Some((st, j6)) => match status_of_tag(st) {
                                            Some(status) => match parse_opt_date(s, j6) {
                                                Some((due_date, j7)) => match parse_int(s, j7) {
                                                    Some((created, j8)) => match parse_opt_int(
                                                        s,
                                                        j8,
                                                    ) {
                                                        Some((completed_at, j9)) => Some(
                                                            (
                                                                TaskV {
                                                                    id: id as u32,
                                                                    title,
                                                                    description,
                                                                    category,
                                                                    priority,
                                                                    status,
                                                                    due_date,
                                                                    created_at: created as i64,
                                                                    completed_at,
                                                                },
                                                                j9,
                                                            ),
                                                        ),
                                                        None => None,
                                                    },
                                                    None => None,
                                                },
                                                None => None,
                                            },
                                            None => None,
                                        },
                                        None => None,
                                    },
                                    None => None,
                                },
                                None => None,
                            },
                            None => None,
                        },
                        None => None,
                    },
                    None => None,
                },
                None => None,
            }
        } else {
            None
        },
        None => None,
    }
}

pub open spec fn parse_task_list(s: Seq<char>, i: int, k: nat) -> Option<(Seq<TaskV>, int)>
    decreases k,
{
    if k == 0 {
        Some((Seq::empty(), i))
    } else {
        match parse_task(s, i) {
            Some((t, j)) => match parse_task_list(s, j, (k - 1) as nat) {
                Some((ts, j2)) => Some((seq![t] + ts, j2)),
                None => None,
            },
            None => None,
        }
    }
}

/// The grammar of a whole persisted file: a count, that many records, and
/// nothing after them.
pub open spec fn parse_tasks(s: Seq<char>) -> Option<Seq<TaskV>> {
    match parse_nat(s, 0) {
        Some((n, i)) => match parse_task_list(s, i, n) {
            Some((ts, j)) => if j == s.len() {
                Some(ts)
            } else {
                None
            },
            None => None,
        },
        None => None,
    }
}

// ---------------------------------------------------------------------------
// The parser inverts the encoder
// ---------------------------------------------------------------------------
/// `frag` stands at position `i` of `s`.
pub open spec fn has_at(s: Seq<char>, i: int, frag: Seq<char>) -> bool {
    &&& 0 <= i
    &&& i + frag.len() <= s.len()
    &&& s.subrange(i, i + frag.len()) == frag
}

proof fn lemma_parse_digits(s: Seq<char>, i: int, acc: nat, seen: bool, ds: Seq<char>)
    requires
        all_digits(ds),
        seen || ds.len() >= 1,
        acc * pow10(ds.len()) + digits_val(ds) <= u64::MAX,
        0 <= i,
        i + ds.len() + 1 <= s.len(),
        s.subrange(i, i + ds.len()) == ds,
        s[i + ds.len()] == ';',
    ensures
        parse_nat_rec(s, i, acc, seen) == Some(
            ((acc * pow10(ds.len()) + digits_val(ds)) as nat, i + ds.len() + 1),
        ),
    decreases ds.len(),
{
    if ds.len() == 0 {
        assert(s[i] == ';');
        assert(parse_nat_rec(s, i, acc, seen) == Some((acc, i + 1)));
        assert(pow10(0) == 1);
        assert(digits_val(ds) == 0);
        assert(acc * 1 == acc) by (nonlinear_arith);
    } else {
        let d0 = ds[0];
        assert(s[i] == d0);
        assert(is_digit_char(d0));
        assert(!is_digit_char(';'));
        assert(s[i] != ';');
        let tail = ds.subrange(1, ds.len() as int);
        lemma_digits_val_front(ds);
        let k = (ds.len() - 1) as nat;
        assert(digits_val(ds) == digit_val(d0) * pow10(k) + digits_val(tail));
        let acc2 = acc * 10 + digit_val(d0);
        assert(acc * pow10(ds.len()) == (acc * 10) * pow10(k)) by {
            assert(pow10(ds.len()) == 10 * pow10(k));
            assert(acc * (10 * pow10(k)) == (acc * 10) * pow10(k)) by (nonlinear_arith);
        }
        assert(acc2 * pow10(k) + digits_val(tail) == acc * pow10(ds.len()) + digits_val(ds)) by {
            assert((acc * 10 + digit_val(d0)) * pow10(k) == (acc * 10) * pow10(k) + digit_val(d0)
                * pow10(k)) by (nonlinear_arith);
        }
        lemma_pow10_pos(k);
        assert(acc2 <= acc2 * pow10(k)) by (nonlinear_arith)
            requires
                pow10(k) >= 1,
        ;
        assert(acc2 <= u64::MAX);
        assert(s.subrange(i + 1, i + 1 + tail.len()) =~= tail);
        lemma_parse_digits(s, i + 1, acc2, true, tail);
        assert(parse_nat_rec(s, i + 1, acc2, true) == Some(
            ((acc2 * pow10(tail.len()) + digits_val(tail)) as nat, i + 1 + tail.len() + 1),
        ));
        assert(parse_nat_rec(s, i, acc, seen) == parse_nat_rec(s, i + 1, acc2, true));
        assert(i + 1 + tail.len() + 1 == i + ds.len() + 1);
        assert(acc2 * pow10(tail.len()) + digits_val(tail) == acc * pow10(ds.len()) + digits_val(
            ds,
        ));
    }
}

/// A number atom at `i` parses back to the number it was written from.
pub proof fn lemma_parse_enc_nat(s: Seq<char>, i: int, n: nat)
    requires
        n <= u64::MAX,
        has_at(s, i, enc_nat(n)),
    ensures
        parse_nat(s, i) == Some((n, i + enc_nat(n).len())),
{
    lemma_digits_of(n);
    let ds = digits_of(n);
    assert(enc_nat(n).len() == ds.len() + 1);
    assert(s.subrange(i, i + ds.len() + 1) == enc_nat(n));
    assert(s.subrange(i, i + ds.len()) =~= ds) by {
        assert(forall|k: int|
            0 <= k < ds.len() ==> #[trigger] s.subrange(i, i + ds.len())[k] == s.subrange(
                i,
                i + ds.len() + 1,
            )[k]);
    }
    assert(s[i + ds.len()] == enc_nat(n)[ds.len() as int]);
    assert(enc_nat(n)[ds.len() as int] == ';');
    assert(0 * pow10(ds.len()) == 0) by (nonlinear_arith);
    lemma_parse_digits(s, i, 0, false, ds);
}

/// A fragment made of two pieces stands at `i` exactly when the first piece
/// stands at `i` and the second right after it.
pub proof fn lemma_has_at_concat(s: Seq<char>, i: int, a: Seq<char>, b: Seq<char>)
    requires
        has_at(s, i, a + b),
    ensures
        has_at(s, i, a),
        has_at(s, i + a.len(), b),
{
    let w = a + b;
    assert(s.subrange(i, i + a.len()) =~= a) by {
        assert(forall|k: int|
            0 <= k < a.len() ==> #[trigger] s.subrange(i, i + a.len())[k] == s.subrange(
                i,
                i + w.len(),
            )[k]);
    }
    assert(s.subrange(i + a.len(), i + a.len() + b.len()) =~= b) by {
        assert(forall|k: int|
            0 <= k < b.len() ==> #[trigger] s.subrange(i + a.len(), i + a.len() + b.len())[k]
                == s.subrange(i, i + w.len())[a.len() + k]);
    }
}

/// A signed number atom at `i` parses back to the number it was written from.
pub proof fn lemma_parse_enc_int(s: Seq<char>, i: int, n: int)
    requires
        i64::MIN <= n <= i64::MAX,
        has_at(s, i, enc_int(n)),
    ensures
        parse_int(s, i) == Some((n, i + enc_int(n).len())),
{
    if n >= 0 {
        lemma_parse_enc_nat(s, i, n as nat);
        lemma_digits_of(n as nat);
        assert(s[i] == enc_nat(n as nat)[0]);
        assert(enc_nat(n as nat)[0] == digits_of(n as nat)[0]);
        assert(is_digit_char(s[i]));
        assert(s[i] != '-');
    } else {
        lemma_has_at_concat(s, i, seq!['-'], enc_nat((-n) as nat));
        assert(s[i] == seq!['-'][0]);
        lemma_parse_enc_nat(s, i + 1, (-n) as nat);
    }
}

/// A string atom at `i` parses back to the characters it was written from.
pub proof fn lemma_parse_enc_str(s: Seq<char>, i: int, t: Seq<char>)
    requires
        t.len() <= u64::MAX,
        has_at(s, i, enc_str(t)),
    ensures
        parse_str(s, i) == Some((t, i + enc_str(t).len())),
{
    lemma_has_at_concat(s, i, enc_nat(t.len()), t);
    lemma_parse_enc_nat(s, i, t.len());
    let j = i + enc_nat(t.len()).len();
    assert(s.subrange(j, j + t.len()) == t);
}

/// A date atom at `i` parses back to the date it was written from.
pub proof fn lemma_parse_enc_date(s: Seq<char>, i: int, d: Date)
    requires
        has_at(s, i, enc_date(d)),
    ensures
        parse_date(s, i) == Some((d, i + enc_date(d).len())),
{
    let a1 = enc_int(d.year as int);
    let a2 = enc_nat(d.month as nat);
    let a3 = enc_nat(d.day as nat);
    lemma_has_at_concat(s, i, a1 + a2, a3);
    lemma_has_at_concat(s, i, a1, a2);
    lemma_parse_enc_int(s, i, d.year as int);
    lemma_parse_enc_nat(s, i + a1.len(), d.month as nat);
    lemma_parse_enc_nat(s, i + a1.len() + a2.len(), d.day as nat);
}

/// An optional-date atom at `i` parses back to what it was written from.
pub proof fn lemma_parse_enc_opt_date(s: Seq<char>, i: int, od: Option<Date>)
    requires
        has_at(s, i, enc_opt_date(od)),
    ensures
        parse_opt_date(s, i) == Some((od, i + enc_opt_date(od).len())),
{
    match od {
        None => {
            lemma_parse_enc_nat(s, i, 0);
        },
        Some(d) => {
            lemma_has_at_concat(s, i, enc_nat(1), enc_date(d));
            lemma_parse_enc_nat(s, i, 1);
            lemma_parse_enc_date(s, i + enc_nat(1).len(), d);
        },
    }
}

/// An optional-timestamp atom at `i` parses back to what it was written from.
pub proof fn lemma_parse_enc_opt_int(s: Seq<char>, i: int, on: Option<i64>)
    requires
        has_at(s, i, enc_opt_int(on)),
    ensures
        parse_opt_int(s, i) == Some((on, i + enc_opt_int(on).len())),
{
    match on {
        None => {
            lemma_parse_enc_nat(s, i, 0);
        },
        Some(n) => {
            lemma_has_at_concat(s, i, enc_nat(1), enc_int(n as int));
            lemma_parse_enc_nat(s, i, 1);
            lemma_parse_enc_int(s, i + enc_nat(1).len(), n as int);
        },
    }
}

/// A record at `i` parses back to the task it was written from.
pub proof fn lemma_parse_enc_task(s: Seq<char>, i: int, t: TaskV)
    requires
        task_encodable(t),
        has_at(s, i, enc_task(t)),
    ensures
        parse_task(s, i) == Some((t, i + enc_task(t).len())),
{
    let a1 = enc_nat(t.id as nat);
    let a2 = enc_str(t.title);
    let a3 = enc_str(t.description);
    let a4 = enc_nat(category_tag(t.category));
    let a5 = enc_nat(priority_tag(t.priority));
    let a6 = enc_nat(status_tag(t.status));
    let a7 = enc_opt_date(t.due_date);
    let a8 = enc_int(t.created_at as int);
    let a9 = enc_opt_int(t.completed_at);
    lemma_has_at_concat(s, i, a1 + a2 + a3 + a4 + a5 + a6 + a7 + a8, a9);
    lemma_has_at_concat(s, i, a1 + a2 + a3 + a4 + a5 + a6 + a7, a8);
    lemma_has_at_concat(s, i, a1 + a2 + a3 + a4 + a5 + a6, a7);
    lemma_has_at_concat(s, i, a1 + a2 + a3 + a4 + a5, a6);
    lemma_has_at_concat(s, i, a1 + a2 + a3 + a4, a5);
    lemma_has_at_concat(s, i, a1 + a2 + a3, a4);
    lemma_has_at_concat(s, i, a1 + a2, a3);
    lemma_has_at_concat(s, i, a1, a2);
    let o2 = i + a1.len();
    let o3 = o2 + a2.len();
    let o4 = o3 + a3.len();
    let o5 = o4 + a4.len();
    let o6 = o5 + a5.len();
    let o7 = o6 + a6.len();
    let o8 = o7 + a7.len();
    let o9 = o8 + a8.len();
    lemma_parse_enc_nat(s, i, t.id as nat);
    lemma_parse_enc_str(s, o2, t.title);
    lemma_parse_enc_str(s, o3, t.description);
    lemma_parse_enc_nat(s, o4, category_tag(t.category));
    lemma_parse_enc_nat(s, o5, priority_tag(t.priority));
    lemma_parse_enc_nat(s, o6, status_tag(t.status));
    lemma_parse_enc_opt_date(s, o7, t.due_date);
    lemma_parse_enc_int(s, o8, t.created_at as int);
    lemma_parse_enc_opt_int(s, o9, t.completed_at);
    assert(category_of_tag(category_tag(t.category)) == Some(t.category));
    assert(priority_of_tag(priority_tag(t.priority)) == Some(t.priority));
    assert(status_of_tag(status_tag(t.status)) == Some(t.status));
    assert(parse_task(s, i) == Some((t, o9 + a9.len())));
    assert(o9 + a9.len() == i + enc_task(t).len());
}

/// A run of records at `i` parses back to the tasks it was written from.
pub proof fn lemma_parse_enc_task_list(s: Seq<char>, i: int, ts: Seq<TaskV>)
    requires
        forall|k: int| 0 <= k < ts.len() ==> task_encodable(#[trigger] ts[k]),
        has_at(s, i, enc_task_list(ts)),
    ensures
        parse_task_list(s, i, ts.len()) == Some((ts, i + enc_task_list(ts).len())),
    decreases ts.len(),
{
    if ts.len() == 0 {
        assert(parse_task_list(s, i, 0) == Some((Seq::<TaskV>::empty(), i)));
        assert(ts =~= Seq::<TaskV>::empty());
    } else {
        let t0 = ts.first();
        let rest = ts.drop_first();
        lemma_has_at_concat(s, i, enc_task(t0), enc_task_list(rest));
        lemma_parse_enc_task(s, i, t0);
        let j = i + enc_task(t0).len();
        lemma_parse_enc_task_list(s, j, rest);
        assert(parse_task_list(s, i, ts.len()) == Some(
            (seq![t0] + rest, j + enc_task_list(rest).len()),
        ));
        assert(seq![t0] + rest =~= ts);
    }
}

/// The round trip at the heart of persistence: a collection written by the
/// encoder is read back by the parser, whole, field for field and in order.
pub proof fn lemma_parse_enc_tasks(ts: Seq<TaskV>)
    requires
        tasks_encodable(ts),
    ensures
        parse_tasks(enc_tasks(ts)) == Some(ts),
{
    let s = enc_tasks(ts);
    assert(s.subrange(0, s.len() as int) =~= s);
    assert(has_at(s, 0, enc_nat(ts.len()) + enc_task_list(ts)));
    lemma_has_at_concat(s, 0, enc_nat(ts.len()), enc_task_list(ts));
    lemma_parse_enc_nat(s, 0, ts.len());
    let i = enc_nat(ts.len()).len() as int;
    lemma_parse_enc_task_list(s, i, ts);
    assert(i + enc_task_list(ts).len() == s.len());
}

// ---------------------------------------------------------------------------
// Executable encoder
// ---------------------------------------------------------------------------
/// Appends the number atom for `n`.
fn append_nat_atom(out: &mut String, n: u64)
    ensures
        final(out)@ == old(out)@ + enc_nat(n as nat),
{
    append_digits(out, n);
    push_char(out, ';');
    proof {
        assert(out@ =~= old(out)@ + enc_nat(n as nat));
    }
}

/// Appends the signed number atom for `n`.
fn append_int_atom(out: &mut String, n: i64)
    ensures
        final(out)@ == old(out)@ + enc_int(n as int),
{
    if n >= 0 {
        append_nat_atom(out, n as u64);
    } else {
        push_char(out, '-');
        let m: u64 = ((-(n + 1)) as u64) + 1;
        assert(m as nat == (-(n as int)) as nat);
        append_nat_atom(out, m);
        proof {
            assert(out@ =~= old(out)@ + enc_int(n as int));
        }
    }
}

/// Appends the string atom for `t`.
fn append_str_atom(out: &mut String, t: &str)
    ensures
        final(out)@ == old(out)@ + enc_str(t@),
{
    let l = t.unicode_len();
    append_nat_atom(out, l as u64);
    out.append(t);
    proof {
        assert(out@ =~= old(out)@ + enc_str(t@));
    }
}

fn append_date_atom(out: &mut String, d: &Date)
    ensures
        final(out)@ == old(out)@ + enc_date(*d),
{
    append_int_atom(out, d.year as i64);
    append_nat_atom(out, d.month as u64);
    append_nat_atom(out, d.day as u64);
    proof {
        assert(out@ =~= old(out)@ + enc_date(*d));
    }
}

fn append_opt_date_atom(out: &mut String, od: &Option<Date>)
    ensures
        final(out)@ == old(out)@ + enc_opt_date(*od),
{
    match od {
        None => {
            append_nat_atom(out, 0);
        },
        Some(d) => {
            append_nat_atom(out, 1);
            append_date_atom(out, d);
            proof {
                assert(out@ =~= old(out)@ + enc_opt_date(*od));
            }
        },
    }
}

fn append_opt_int_atom(out: &mut String, on: &Option<i64>)
    ensures
        final(out)@ == old(out)@ + enc_opt_int(*on),
{
    match on {
        None => {
            append_nat_atom(out, 0);
        },
        Some(n) => {
            append_nat_atom(out, 1);
            append_int_atom(out, *n);
            proof {
                assert(out@ =~= old(out)@ + enc_opt_int(*on));
            }
        },
    }
}

fn category_tag_of(c: &Category) -> (r: u64)
    ensures
        r as nat == category_tag(*c),
{
    match c {
        Category::Work => 0,
        Category::Personal => 1,
        Category::Study => 2,
        Category::Health => 3,
        Category::Other => 4,
    }
}

fn priority_tag_of(p: &Priority) -> (r: u64)
    ensures
        r as nat == priority_tag(*p),
{
    match p {
        Priority::High => 0,
        Priority::Medium => 1,
        Priority::Low => 2,
    }
}

fn status_tag_of(s: &Status) -> (r: u64)
    ensures
        r as nat == status_tag(*s),
{
    match s {
        Status::Pending => 0,
        Status::InProgress => 1,
        Status::Completed => 2,
    }
}

/// Appends one whole record.
fn append_task(out: &mut String, t: &Task)
    ensures
        final(out)@ == old(out)@ + enc_task(t@),
{
    append_nat_atom(out, t.id as u64);
    append_str_atom(out, t.title.as_str());
    append_str_atom(out, t.description.as_str());
    append_nat_atom(out, category_tag_of(&t.category));
    append_nat_atom(out, priority_tag_of(&t.priority));
    append_nat_atom(out, status_tag_of(&t.status));
    append_opt_date_atom(out, &t.due_date);
    append_int_atom(out, t.created_at);
    append_opt_int_atom(out, &t.completed_at);
    proof {
        assert(out@ =~= old(out)@ + enc_task(t@));
    }
}

/// Writing one more record extends the encoded run by that record's encoding.
proof fn lemma_enc_task_list_snoc(ts: Seq<TaskV>)
    requires
        ts.len() > 0,
    ensures
        enc_task_list(ts) == enc_task_list(ts.drop_last()) + enc_task(ts.last()),
    decreases ts.len(),
{
    if ts.len() == 1 {
        assert(ts.drop_first() =~= Seq::<TaskV>::empty());
        assert(ts.drop_last() =~= Seq::<TaskV>::empty());
        assert(enc_task_list(ts) == enc_task(ts.first()) + enc_task_list(ts.drop_first()));
        assert(enc_task_list(ts) =~= enc_task_list(ts.drop_last()) + enc_task(ts.last()));
    } else {
        let rest = ts.drop_first();
        lemma_enc_task_list_snoc(rest);
        assert(rest.drop_last() =~= ts.drop_last().drop_first());
        assert(rest.last() == ts.last());
        assert(ts.drop_last().first() == ts.first());
        assert(enc_task_list(ts.drop_last()) == enc_task(ts.first()) + enc_task_list(
            ts.drop_last().drop_first(),
        ));
        assert(enc_task_list(ts) =~= enc_task_list(ts.drop_last()) + enc_task(ts.last()));
    }
}

/// The persisted text of a whole collection.
pub fn encode_tasks(tasks: &Vec<Task>) -> (r: String)
    ensures
        r@ == enc_tasks(tasks.deep_view()),
{
    let ghost all = tasks.deep_view();
    let mut out = String::new();
    append_nat_atom(&mut out, tasks.len() as u64);
    let mut k: usize = 0;
    while k < tasks.len()
        invariant
            k <= tasks.len(),
            all == tasks.deep_view(),
            all.len() == tasks.len(),
            out@ == enc_nat(all.len()) + enc_task_list(all.take(k as int)),
        decreases tasks.len() - k,
    {
        append_task(&mut out, &tasks[k]);
        proof {
            let pre = all.take(k as int);
            let now = all.take(k + 1 as int);
            assert(now.drop_last() =~= pre);
            assert(now.last() == all[k as int]);
            lemma_enc_task_list_snoc(now);
            assert(out@ =~= enc_nat(all.len()) + enc_task_list(now));
        }
        k = k + 1;
    }
    proof {
        assert(all.take(tasks.len() as int) =~= all);
    }
    out
}

// ---------------------------------------------------------------------------
// Executable parser
// ---------------------------------------------------------------------------
/// Reads one number atom starting at character position `i`; `n` is the
/// character length of `s`.
fn parse_nat_at(s: &str, n: usize, i: usize) -> (r: Option<(u64, usize)>)
    requires
        n == s@.len(),
        i <= n,
    ensures
        match r {
            Some(p) => parse_nat(s@, i as int) == Some((p.0 as nat, p.1 as int)) && i < p.1 <= n,
            None => parse_nat(s@, i as int) is None,
        },
{
    let mut j = i;
    let mut acc: u64 = 0;
    let mut seen = false;
    loop
        invariant
            n == s@.len(),
            i <= j <= n,
            parse_nat(s@, i as int) == parse_nat_rec(s@, j as int, acc as nat, seen),
        decreases n - j,
    {
        if j == n {
            return None;
        }
        let c = s.get_char(j);
        if c == ';' {
            if seen {
                return Some((acc, j + 1));
            } else {
                return None;
            }
        } else if '0' <= c && c <= '9' {
            let d = digit_val_of(c);
            if acc > (u64::MAX - d) / 10 {
                proof {
                    let m = (u64::MAX - d) as int;
                    vstd::arithmetic::div_mod::lemma_fundamental_div_mod(m, 10);
                    assert(acc * 10 > m);
                }
                return None;
            }
            proof {
                let m = (u64::MAX - d) as int;
                vstd::arithmetic::div_mod::lemma_fundamental_div_mod(m, 10);
                assert(acc * 10 <= m);
            }
            acc = acc * 10 + d;
            seen = true;
            j = j + 1;
        } else {
            return None;
        }
    }
}

/// Reads one signed number atom.
fn parse_int_at(s: &str, n: usize, i: usize) -> (r: Option<(i64, usize)>)
    requires
        n == s@.len(),
        i <= n,
    ensures
        match r {
            Some(p) => parse_int(s@, i as int) == Some((p.0 as int, p.1 as int)) && i < p.1 <= n,
            None => parse_int(s@, i as int) is None,
        },
{
    if i < n && s.get_char(i) == '-' {
        match parse_nat_at(s, n, i + 1) {
            None => None,
            Some((v, j)) => {
                if v <= i64::MAX as u64 {
                    Some((-(v as i64), j))
                } else if v == i64::MAX as u64 + 1 {
                    Some((i64::MIN, j))
                } else {
                    None
                }
            },
        }
    } else {
        match parse_nat_at(s, n, i) {
            None => None,
            Some((v, j)) => {
                if v <= i64::MAX as u64 {
                    Some((v as i64, j))
                } else {
                    None
                }
            },
        }
    }
}

/// Reads one string atom, copying its characters out.
fn parse_str_at(s: &str, n: usize, i: usize) -> (r: Option<(String, usize)>)
    requires
        n == s@.len(),
        i <= n,
    ensures
        match r {
            Some(p) => parse_str(s@, i as int) == Some((p.0@, p.1 as int)) && i < p.1 <= n,
            None => parse_str(s@, i as int) is None,
        },
{
    match parse_nat_at(s, n, i) {
        None => None,
        Some((l, j)) => {
            if l > (n - j) as u64 {
                None
            } else {
                let lu = l as usize;
                let sub = s.substring_char(j, j + lu);
                let t = sub.to_owned();
                Some((t, j + lu))
            }
        },
    }
}

/// Reads one date atom.
fn parse_date_at(s: &str, n: usize, i: usize) -> (r: Option<(Date, usize)>)
    requires
        n == s@.len(),
        i <= n,
    ensures
        match r {
            Some(p) => parse_date(s@, i as int) == Some((p.0, p.1 as int)) && i < p.1 <= n,
            None => parse_date(s@, i as int) is None,
        },
{
    let (y, j) = match parse_int_at(s, n, i) {
        Some(p) => p,
        None => {
            return None;
        },
    };
    if y < i32::MIN as i64 || y > i32::MAX as i64 {
        return None;
    }
    let (m, j2) = match parse_nat_at(s, n, j) {
        Some(p) => p,
        None => {
            return None;
        },
    };
    if m > u8::MAX as u64 {
        return None;
    }
    let (d, j3) = match parse_nat_at(s, n, j2) {
        Some(p) => p,
        None => {
            return None;
        },
    };
    if d > u8::MAX as u64 {
        return None;
    }
    Some((Date { year: y as i32, month: m as u8, day: d as u8 }, j3))
}

/// Reads one optional-date atom.
fn parse_opt_date_at(s: &str, n: usize, i: usize) -> (r: Option<(Option<Date>, usize)>)
    requires
        n == s@.len(),
        i <= n,
    ensures
        match r {
            Some(p) => parse_opt_date(s@, i as int) == Some((p.0, p.1 as int)) && i < p.1 <= n,
            None => parse_opt_date(s@, i as int) is None,
        },
{
    let (tag, j) = match parse_nat_at(s, n, i) {
        Some(p) => p,
        None => {
            return None;
        },
    };
    if tag == 0 {
        Some((None, j))
    } else if tag == 1 {
        match parse_date_at(s, n, j) {
            Some((d, j2)) => Some((Some(d), j2)),
            None => None,
        }
    } else {
        None
    }
}

/// Reads one optional-timestamp atom.
fn parse_opt_int_at(s: &str, n: usize, i: usize) -> (r: Option<(Option<i64>, usize)>)
    requires
        n == s@.len(),
        i <= n,
    ensures
        match r {
            Some(p) => parse_opt_int(s@, i as int) == Some((p.0, p.1 as int)) && i < p.1 <= n,
            None => parse_opt_int(s@, i as int) is None,
        },
{
    let (tag, j) = match parse_nat_at(s, n, i) {
        Some(p) => p,
        None => {
            return None;
        },
    };
    if tag == 0 {
        Some((None, j))
    } else if tag == 1 {
        match parse_int_at(s, n, j) {
            Some((v, j2)) => Some((Some(v), j2)),
            None => None,
        }
    } else {
        None
    }
}

fn category_of_tag_at(v: u64) -> (r: Option<Category>)
    ensures
        r == category_of_tag(v as nat),
{
    if v == 0 {
        Some(Category::Work)
    } else if v == 1 {
        Some(Category::Personal)
    } else if v == 2 {
        Some(Category::Study)
    } else if v == 3 {
        Some(Category::Health)
    } else if v == 4 {
        Some(Category::Other)
    } else {
        None
    }
}

fn priority_of_tag_at(v: u64) -> (r: Option<Priority>)
    ensures
        r == priority_of_tag(v as nat),
{
    if v == 0 {
        Some(Priority::High)
    } else if v == 1 {
        Some(Priority::Medium)
    } else if v == 2 {
        Some(Priority::Low)
    } else {
        None
    }
}

fn status_of_tag_at(v: u64) -> (r: Option<Status>)
    ensures
        r == status_of_tag(v as nat),
{
    if v == 0 {
        Some(Status::Pending)
    } else if v == 1 {
        Some(Status::InProgress)
    } else if v == 2 {
        Some(Status::Completed)
    } else {
        None
    }
}

/// Reads one whole record.
fn parse_task_at(s: &str, n: usize, i: usize) -> (r: Option<(Task, usize)>)
    requires
        n == s@.len(),
        i <= n,
    ensures
        match r {
            Some(p) => parse_task(s@, i as int) == Some((p.0@, p.1 as int)) && i < p.1 <= n,
            None => parse_task(s@, i as int) is None,
        },
{
    let (id, j1) = match parse_nat_at(s, n, i) {
        Some(p) => p,
        None => {
            return None;
        },
    };
    if id > u32::MAX as u64 {
        return None;
    }
    let (title, j2) = match parse_str_at(s, n, j1) {
        Some(p) => p,
        None => {
            return None;
        },
    };
    let (description, j3) = match parse_str_at(s, n, j2) {
        Some(p) => p,
        None => {
            return None;
        },
    };
    let (ct, j4) = match parse_nat_at(s, n, j3) {
        Some(p) => p,
        None => {
            return None;
        },
    };
    let category = match category_of_tag_at(ct) {
        Some(c) => c,
        None => {
            return None;
        },
    };
    let (pt, j5) = match parse_nat_at(s, n, j4) {
        Some(p) => p,
        None => {
            return None;
        },
    };
    let priority = match priority_of_tag_at(pt) {
        Some(p) => p,
        None => {
            return None;
        },
    };
    let (st, j6) = match parse_nat_at(s, n, j5) {
        Some(p) => p,
        None => {
            return None;
        },
    };
    let status = match status_of_tag_at(st) {
        Some(p) => p,
        None => {
            return None;
        },
    };
    let (due_date, j7) = match parse_opt_date_at(s, n, j6) {
        Some(p) => p,
        None => {
            return None;
        },
    };
    let (created_at, j8) = match parse_int_at(s, n, j7) {
        Some(p) => p,
        None => {
            return None;
        },
    };
    let (completed_at, j9) = match parse_opt_int_at(s, n, j8) {
        Some(p) => p,
        None => {
            return None;
        },
    };
    let t = Task {
        id: id as u32,
        title,
        description,
        category,
        priority,
        status,
        due_date,
        created_at,
        completed_at,
    };
    Some((t, j9))
}

/// The already-read records `done`, the position `i`, and the count `rem`
/// still to read, stand for the same parse as reading `total` records at
/// `i0`.
pub open spec fn ptl_continuation(
    s: Seq<char>,
    i0: int,
    total: nat,
    done: Seq<TaskV>,
    i: int,
    rem: nat,
) -> bool {
    parse_task_list(s, i0, total) == (match parse_task_list(s, i, rem) {
        Some((ts, j)) => Some((done + ts, j)),
        None => None::<(Seq<TaskV>, int)>,
    })
}

proof fn lemma_ptl_cont_init(s: Seq<char>, i0: int, total: nat)
    ensures
        ptl_continuation(s, i0, total, Seq::empty(), i0, total),
{
    match parse_task_list(s, i0, total) {
        Some((ts, j)) => {
            assert(Seq::<TaskV>::empty() + ts =~= ts);
        },
        None => {},
    }
}

proof fn lemma_ptl_cont_step(
    s: Seq<char>,
    i0: int,
    total: nat,
    done: Seq<TaskV>,
    i: int,
    rem: nat,
    t: TaskV,
    j: int,
)
    requires
        rem >= 1,
        ptl_continuation(s, i0, total, done, i, rem),
        parse_task(s, i) == Some((t, j)),
    ensures
        ptl_continuation(s, i0, total, done.push(t), j, (rem - 1) as nat),
{
    match parse_task_list(s, j, (rem - 1) as nat) {
        Some((ts2, j2)) => {
            assert(done + (seq![t] + ts2) =~= done.push(t) + ts2);
        },
        None => {},
    }
}

/// Reads a whole persisted text back into a collection. Succeeds exactly on
/// the texts that the grammar accepts in full; anything else is corrupt data.
pub fn decode_tasks(s: &str) -> (r: Result<Vec<Task>, TaskError>)
    ensures
        match r {
            Ok(ts) => parse_tasks(s@) == Some(ts.deep_view()),
            Err(e) => parse_tasks(s@) is None && e == TaskError::CorruptData,
        },
{
    let n = s.unicode_len();
    let (count, i0) = match parse_nat_at(s, n, 0) {
        Some(p) => p,
        None => {
            return Err(TaskError::CorruptData);
        },
    };
    let mut tasks: Vec<Task> = Vec::new();
    let mut i = i0;
    let mut k: u64 = 0;
    proof {
        lemma_ptl_cont_init(s@, i0 as int, count as nat);
        assert(tasks.deep_view() =~= Seq::<TaskV>::empty());
    }
    while k < count
        invariant
            n == s@.len(),
            i <= n,
            k <= count,
            parse_nat(s@, 0) == Some((count as nat, i0 as int)),
            tasks.deep_view().len() == k as nat,
            ptl_continuation(
                s@,
                i0 as int,
                count as nat,
                tasks.deep_view(),
                i as int,
                (count - k) as nat,
            ),
        decreases count - k,
    {
        match parse_task_at(s, n, i) {
            None => {
                proof {
                    assert(parse_task_list(s@, i as int, (count - k) as nat) is None);
                }
                return Err(TaskError::CorruptData);
            },
            Some((t, j)) => {
                proof {
                    lemma_ptl_cont_step(
                        s@,
                        i0 as int,
                        count as nat,
                        tasks.deep_view(),
                        i as int,
                        (count - k) as nat,
                        t@,
                        j as int,
                    );
                }
                let ghost pre_dv = tasks.deep_view();
                tasks.push(t);
                proof {
                    assert(tasks.deep_view() =~= pre_dv.push(t@));
                }
                i = j;
                k = k + 1;
            },
        }
    }
    proof {
        assert(parse_task_list(s@, i as int, 0) == Some((Seq::<TaskV>::empty(), i as int)));
        assert(tasks.deep_view() + Seq::<TaskV>::empty() =~= tasks.deep_view());
        assert(parse_task_list(s@, i0 as int, count as nat) == Some(
            (tasks.deep_view(), i as int),
        ));
    }
    if i == n {
        Ok(tasks)
    } else {
        Err(TaskError::CorruptData)
    }
}

} // verus!
