//! Reading the two fighters' record scores off a bout's results page.

use vstd::prelude::*;

use crate::page::{outers, select, selection};
use crate::text::{
    texts, all_digits, chars_of, contains, contains_chars, digit, digit_run_end, digits_value, is_digit,
    lemma_digits_value_grows,
};

verus! {

/// Millionths in one unit.
pub const MICROS: u64 = 1_000_000;

/// The largest number of millionths a `Decimal` holds: a whole part of up to
/// nine digits.
pub const MAX_MICROS: u64 = 999_999_999_999_999;

/// A non-negative decimal number with up to six fractional digits, kept
/// exactly as a count of millionths.
#[derive(Clone, Copy, Debug, PartialEq, Eq, Structural)]
pub struct Decimal {
    pub micros: u64,
}

impl Decimal {
    pub open spec fn wf(&self) -> bool {
        self.micros <= MAX_MICROS
    }
}

/// Why no pair of scores could be read from a results page.
#[derive(Clone, Copy, Debug, PartialEq, Eq, Structural)]
pub enum ScoreError {
    /// No row of the page reports the scores after the fight.
    ScoresNotFound,
    /// The row does not hold exactly two numbers.
    ScoreCountMismatch,
    /// One of the two numbers has a whole part of more than nine digits.
    ScoreOutOfRange,
    /// Both scores are zero, so neither side's chance can be worked out.
    ZeroTotal,
}

/// The selector of the rows of a results page that may hold the scores.
pub open spec fn score_row_selector() -> Seq<char> {
    ".responseLessDataTable"@
}

/// The text that marks the row of scores after the fight.
pub open spec fn after_fight() -> Seq<char> {
    seq!['a', 'f', 't', 'e', 'r', ' ', 'f', 'i', 'g', 'h', 't']
}

/// `10` to the power `n`.
pub open spec fn pow10(n: nat) -> nat
    decreases n,
{
    if n == 0 {
        1
    } else {
        10 * pow10((n - 1) as nat)
    }
}

/// A number in the form `[0-9]*\.[0-9]+` starts at `i`: digits (maybe
/// none), a point, and at least one digit.
pub open spec fn number_at(s: Seq<char>, i: int) -> bool {
    let k = digit_run_end(s, i);
    0 <= i && k + 1 < s.len() && s[k] == '.' && is_digit(s[k + 1])
}

/// Where the number that starts at `i` ends.
pub open spec fn number_end(s: Seq<char>, i: int) -> int {
    digit_run_end(s, digit_run_end(s, i) + 1)
}

/// The numbers in `s` at or after `i`, as `(start, end)` spans, found left
/// to right without overlap, each as long as it can be.
pub open spec fn numbers_from(s: Seq<char>, i: int) -> Seq<(int, int)>
    decreases s.len() - i,
    via numbers_from_decreases
{
    if i < 0 || i >= s.len() {
        Seq::empty()
    } else if number_at(s, i) {
        seq![(i, number_end(s, i))] + numbers_from(s, number_end(s, i))
    } else {
        numbers_from(s, i + 1)
    }
}

#[via_fn]
proof fn numbers_from_decreases(s: Seq<char>, i: int) {
    if 0 <= i < s.len() && number_at(s, i) {
        lemma_run_end_bounds(s, i);
        lemma_run_end_bounds(s, digit_run_end(s, i) + 1);
    }
}

/// The run of digits from `i` stays within `s` and holds only digits.
pub proof fn lemma_run_end_bounds(s: Seq<char>, i: int)
    requires
        0 <= i <= s.len(),
    ensures
        i <= digit_run_end(s, i) <= s.len(),
        all_digits(s.subrange(i, digit_run_end(s, i))),
        digit_run_end(s, i) < s.len() ==> !is_digit(s[digit_run_end(s, i)]),
    decreases s.len() - i,
{
    if i < s.len() && is_digit(s[i]) {
        lemma_run_end_bounds(s, i + 1);
        let e = digit_run_end(s, i);
        assert forall|m: int| 0 <= m < e - i implies is_digit(#[trigger] s.subrange(i, e)[m]) by {
            if m > 0 {
                assert(s.subrange(i, e)[m] == s.subrange(i + 1, e)[m - 1]);
            }
        }
    }
}

/// The number spanning `s[i..e]`, in millionths, with fractional digits
/// past the sixth dropped, where its whole part fits a `Decimal`.
pub open spec fn number_micros(s: Seq<char>, i: int, e: int) -> Option<nat> {
    let k = digit_run_end(s, i);
    let whole = digits_value(s.subrange(i, k));
    let places = if e - (k + 1) <= 6 { e - (k + 1) } else { 6 };
    if whole < 1_000_000_000 {
        Some(whole * 1_000_000 + digits_value(s.subrange(k + 1, k + 1 + places)) * pow10((6 - places) as nat))
    } else {
        None
    }
}

/// The two scores a row reports.
pub open spec fn scores_in_row(row: Seq<char>) -> Result<(Decimal, Decimal), ScoreError> {
    let spans = numbers_from(row, 0);
    if spans.len() != 2 {
        Err(ScoreError::ScoreCountMismatch)
    } else {
        match (number_micros(row, spans[0].0, spans[0].1), number_micros(row, spans[1].0, spans[1].1)) {
            (Some(a), Some(b)) => Ok((Decimal { micros: a as u64 }, Decimal { micros: b as u64 })),
            _ => Err(ScoreError::ScoreOutOfRange),
        }
    }
}

/// The scores reported by the first row that mentions the scores after the
/// fight.
pub open spec fn scores_in_rows(rows: Seq<Seq<char>>) -> Result<(Decimal, Decimal), ScoreError>
    decreases rows.len(),
{
    if rows.len() == 0 {
        Err(ScoreError::ScoresNotFound)
    } else if contains(rows[0], after_fight()) {
        scores_in_row(rows[0])
    } else {
        scores_in_rows(rows.drop_first())
    }
}

/// The scores on a results page.
pub open spec fn scores_on_page(page: Seq<char>) -> Result<(Decimal, Decimal), ScoreError> {
    match selection(page, score_row_selector()) {
        Some(rows) => scores_in_rows(outers(rows)),
        None => Err(ScoreError::ScoresNotFound),
    }
}

/// The end of the run of digits from `i`.
pub fn run_end(s: &Vec<char>, i: usize) -> (r: usize)
    requires
        i <= s@.len(),
    ensures
        r == digit_run_end(s@, i as int),
        i <= r <= s@.len(),
{
    let mut k = i;
    while k < s.len() && digit(s[k])
        invariant
            i <= k <= s@.len(),
            digit_run_end(s@, i as int) == digit_run_end(s@, k as int),
        decreases s.len() - k,
    {
        k = k + 1;
    }
    k
}

/// The spans of all numbers in `s`.
pub fn number_spans(s: &Vec<char>) -> (r: Vec<(usize, usize)>)
    ensures
        r@.len() == numbers_from(s@, 0).len(),
        forall|m: int|
            0 <= m < r@.len() ==> r@[m].0 == numbers_from(s@, 0)[m].0 && r@[m].1 == numbers_from(
                s@,
                0,
            )[m].1,
{
    let mut out: Vec<(usize, usize)> = Vec::new();
    let mut i: usize = 0;
    while i < s.len()
        invariant
            i <= s@.len(),
            out@.len() + numbers_from(s@, i as int).len() == numbers_from(s@, 0).len(),
            forall|m: int|
                0 <= m < out@.len() ==> out@[m].0 == numbers_from(s@, 0)[m].0 && out@[m].1
                    == numbers_from(s@, 0)[m].1,
            forall|m: int|
                0 <= m < numbers_from(s@, i as int).len() ==> numbers_from(s@, 0)[out@.len() + m]
                    == numbers_from(s@, i as int)[m],
        decreases s.len() - i,
    {
        let k = run_end(s, i);
        if k < s.len() && k + 1 < s.len() && s[k] == '.' && digit(s[k + 1]) {
            let e = run_end(s, k + 1);
            let ghost rest = numbers_from(s@, e as int);
            assert(numbers_from(s@, i as int) == seq![(i as int, e as int)] + rest);
            assert(numbers_from(s@, i as int)[0] == (i as int, e as int));
            assert(numbers_from(s@, 0)[out@.len() + 0int] == numbers_from(s@, i as int)[0]);
            out.push((i, e));
            assert forall|m: int| 0 <= m < rest.len() implies numbers_from(s@, 0)[out@.len() + m]
                == #[trigger] rest[m] by {
                assert(numbers_from(s@, 0)[out@.len() + m] == numbers_from(s@, i as int)[m + 1]);
            }
            i = e;
        } else {
            i = i + 1;
        }
    }
    out
}


proof fn lemma_digits_value_bound(s: Seq<char>)
    requires
        all_digits(s),
    ensures
        digits_value(s) < pow10(s.len()),
    decreases s.len(),
{
    if s.len() > 0 {
        let t = s.drop_last();
        assert(all_digits(t)) by {
            assert forall|m: int| 0 <= m < t.len() implies is_digit(#[trigger] t[m]) by {
                assert(t[m] == s[m]);
            }
        }
        lemma_digits_value_bound(t);
        assert(is_digit(s[s.len() - 1]));
    }
}

/// `10` to the power `n`, for `n` up to six.
fn pow10_exec(n: u64) -> (r: u64)
    requires
        n <= 6,
    ensures
        r == pow10(n as nat),
        r <= 1_000_000,
{
    let mut p: u64 = 1;
    let mut j: u64 = 0;
    while j < n
        invariant
            j <= n <= 6,
            p == pow10(j as nat),
        decreases n - j,
    {
        proof {
            pow10_exec_bound((j + 1) as nat);
        }
        p = p * 10;
        j = j + 1;
    }
    proof {
        pow10_exec_bound(n as nat);
    }
    p
}

/// The value of the digits `s[lo..hi]` where it is below `limit`.
fn digits_below(s: &Vec<char>, lo: usize, hi: usize, limit: u64) -> (r: Option<u64>)
    requires
        lo <= hi <= s@.len(),
        all_digits(s@.subrange(lo as int, hi as int)),
        0 < limit <= 1_000_000_000_000_000_000,
    ensures
        r == (if digits_value(s@.subrange(lo as int, hi as int)) < limit {
            Some(digits_value(s@.subrange(lo as int, hi as int)) as u64)
        } else {
            None::<u64>
        }),
{
    let ghost t = s@.subrange(lo as int, hi as int);
    let mut v: u64 = 0;
    let mut i = lo;
    assert(t.subrange(0, 0) =~= Seq::<char>::empty());
    while i < hi
        invariant
            lo <= i <= hi <= s@.len(),
            t == s@.subrange(lo as int, hi as int),
            all_digits(t),
            v == digits_value(t.subrange(0, i - lo)),
            v < limit,
            limit <= 1_000_000_000_000_000_000,
        decreases hi - i,
    {
        let ghost k = i - lo;
        assert(t.subrange(0, k + 1).drop_last() =~= t.subrange(0, k));
        assert(t.subrange(0, k + 1).last() == t[k]);
        assert(is_digit(t[k]));
        v = v * 10 + (s[i] as u64 - '0' as u64);
        assert(v == digits_value(t.subrange(0, k + 1)));
        if v >= limit {
            proof {
                lemma_digits_value_grows(t, k + 1, t.len() as int);
                assert(t.subrange(0, t.len() as int) =~= t);
            }
            return None;
        }
        i = i + 1;
    }
    assert(t.subrange(0, i - lo) =~= t);
    Some(v)
}

/// The number spanning `s[i..e]` in millionths, fractional digits past the
/// sixth dropped, where its whole part fits a `Decimal`.
fn number_value(s: &Vec<char>, i: usize, e: usize) -> (r: Option<Decimal>)
    requires
        i < s@.len(),
        number_at(s@, i as int),
        e == number_end(s@, i as int),
    ensures
        match r {
            Some(d) => number_micros(s@, i as int, e as int) == Some(d.micros as nat) && d.wf(),
            None => number_micros(s@, i as int, e as int) is None,
        },
{
    let k = run_end(s, i);
    proof {
        lemma_run_end_bounds(s@, i as int);
        lemma_run_end_bounds(s@, k + 1);
    }
    let whole = match digits_below(s, i, k, 1_000_000_000) {
        Some(w) => w,
        None => {
            return None;
        },
    };
    let places = if e - (k + 1) <= 6 { e - (k + 1) } else { 6 };
    let stop = k + 1 + places;
    proof {
        assert(all_digits(s@.subrange(k + 1, stop as int))) by {
            assert forall|m: int| 0 <= m < stop - (k + 1) implies is_digit(
                #[trigger] s@.subrange(k + 1, stop as int)[m],
            ) by {
                assert(s@.subrange(k + 1, stop as int)[m] == s@.subrange(k + 1, e as int)[m]);
            }
        }
    }
    let frac = match digits_below(s, k + 1, stop, 1_000_000_000_000_000_000) {
        Some(f) => f,
        None => {
            proof {
                lemma_digits_value_bound(s@.subrange(k + 1, stop as int));
                assert(pow10(places as nat) <= 1_000_000) by {
                    pow10_exec_bound(places as nat);
                }
            }
            return None;
        },
    };
    proof {
        lemma_digits_value_bound(s@.subrange(k + 1, stop as int));
        pow10_exec_bound(places as nat);
        pow10_exec_bound((6 - places) as nat);
        lemma_pow10_split(places as nat);
    }
    let scale = pow10_exec(6 - places as u64);
    assert(frac * scale < 1_000_000) by (nonlinear_arith)
        requires
            frac < pow10(places as nat),
            scale == pow10((6 - places) as nat),
            pow10(places as nat) * pow10((6 - places) as nat) == 1_000_000,
    ;
    Some(Decimal { micros: whole * MICROS + frac * scale })
}

proof fn pow10_exec_bound(n: nat)
    requires
        n <= 6,
    ensures
        1 <= pow10(n) <= 1_000_000,
{
    reveal_with_fuel(pow10, 7);
}

proof fn lemma_pow10_split(n: nat)
    requires
        n <= 6,
    ensures
        pow10(n) * pow10((6 - n) as nat) == 1_000_000,
{
    reveal_with_fuel(pow10, 7);
    assert(pow10(0) == 1 && pow10(1) == 10 && pow10(2) == 100 && pow10(3) == 1000);
    assert(pow10(4) == 10000 && pow10(5) == 100000 && pow10(6) == 1000000);
    if n == 0 {
        assert(pow10(0) * pow10(6) == 1_000_000);
    } else if n == 1 {
        assert(pow10(1) * pow10(5) == 1_000_000);
    } else if n == 2 {
        assert(pow10(2) * pow10(4) == 1_000_000);
    } else if n == 3 {
        assert(pow10(3) * pow10(3) == 1_000_000);
    } else if n == 4 {
        assert(pow10(4) * pow10(2) == 1_000_000);
    } else if n == 5 {
        assert(pow10(5) * pow10(1) == 1_000_000);
    } else {
        assert(pow10(6) * pow10(0) == 1_000_000);
    }
}

/// The two scores a row reports: it must hold exactly two numbers, each
/// with a whole part that fits a `Decimal`; fractional digits past the
/// sixth are dropped.
pub fn scores_from_row(row: &String) -> (r: Result<(Decimal, Decimal), ScoreError>)
    ensures
        r == scores_in_row(row@),
        r matches Ok((a, b)) ==> a.wf() && b.wf(),
{
    let s = chars_of(row.as_str());
    let spans = number_spans(&s);
    if spans.len() != 2 {
        return Err(ScoreError::ScoreCountMismatch);
    }
    let (i0, e0) = spans[0];
    let (i1, e1) = spans[1];
    proof {
        lemma_spans_are_numbers(s@, 0, 0);
        lemma_spans_are_numbers(s@, 0, 1);
    }
    match (number_value(&s, i0, e0), number_value(&s, i1, e1)) {
        (Some(a), Some(b)) => Ok((a, b)),
        _ => Err(ScoreError::ScoreOutOfRange),
    }
}

proof fn lemma_spans_are_numbers(s: Seq<char>, i: int, m: int)
    requires
        0 <= i,
        0 <= m < numbers_from(s, i).len(),
    ensures
        0 <= numbers_from(s, i)[m].0 < s.len(),
        number_at(s, numbers_from(s, i)[m].0),
        numbers_from(s, i)[m].1 == number_end(s, numbers_from(s, i)[m].0),
    decreases s.len() - i, m,
{
    if i < s.len() {
        if number_at(s, i) {
            lemma_run_end_bounds(s, i);
            lemma_run_end_bounds(s, digit_run_end(s, i) + 1);
            if m > 0 {
                lemma_spans_are_numbers(s, number_end(s, i), m - 1);
            }
        } else {
            lemma_spans_are_numbers(s, i + 1, m);
        }
    }
}

/// The scores reported by the first row that mentions the scores after the
/// fight; `ScoresNotFound` where no row does.
pub fn scores_from_rows(rows: &Vec<String>) -> (r: Result<(Decimal, Decimal), ScoreError>)
    ensures
        r == scores_in_rows(texts(rows@)),
        r matches Ok((a, b)) ==> a.wf() && b.wf(),
{
    let ghost all = texts(rows@);
    let marker = chars_of("after fight");
    proof {
        reveal_strlit("after fight");
        assert(marker@ =~= after_fight());
    }
    let mut i: usize = 0;
    assert(all.subrange(0, all.len() as int) =~= all);
    while i < rows.len()
        invariant
            i <= rows@.len() == all.len(),
            all == texts(rows@),
            marker@ == after_fight(),
            scores_in_rows(all) == scores_in_rows(all.subrange(i as int, all.len() as int)),
        decreases rows.len() - i,
    {
        let row = chars_of(rows[i].as_str());
        assert(all.subrange(i as int, all.len() as int).drop_first() =~= all.subrange(i + 1, all.len() as int));
        if contains_chars(&row, &marker) {
            return scores_from_row(&rows[i]);
        }
        i = i + 1;
    }
    Err(ScoreError::ScoresNotFound)
}

/// Reads the two fighters' scores off a results page: the first
/// `.responseLessDataTable` row that mentions the scores after the fight
/// must hold exactly two numbers, fighter one's first.
pub fn extract_scores(page: &str) -> (r: Result<(Decimal, Decimal), ScoreError>)
    ensures
        r == scores_on_page(page@),
        r matches Ok((a, b)) ==> a.wf() && b.wf(),
{
    let sel = ".responseLessDataTable";
    match select(page, sel) {
        None => Err(ScoreError::ScoresNotFound),
        Some(elements) => {
            let mut rows: Vec<String> = Vec::new();
            let mut i: usize = 0;
            while i < elements.len()
                invariant
                    i <= elements@.len(),
                    rows@.len() == i,
                    forall|m: int| 0 <= m < i ==> #[trigger] rows@[m]@ == elements@[m].outer@,
                decreases elements.len() - i,
            {
                rows.push(elements[i].outer.clone());
                i = i + 1;
            }
            let ghost pairs = crate::page::elements_view(elements@);
            assert(texts(rows@) =~= outers(pairs));
            scores_from_rows(&rows)
        },
    }
}

} // verus!
