//! Fractional odds as the exchange quotes them, and the bouts it lists.

use vstd::prelude::*;

use crate::text::{chars_of, contains, contains_chars, parse_u32, u32_of_text, u32_text, decimal_text};

verus! {

/// Fractional odds `top/bottom`: a winning stake of `bottom` returns a profit
/// of `top`.
#[derive(Clone, Copy, Debug, PartialEq, Eq, Structural)]
pub struct Odds {
    pub top: u32,
    pub bottom: u32,
}

/// The exchange's odds on each outcome of a bout.
#[derive(Clone, Copy, Debug, PartialEq, Eq, Structural)]
pub struct BoutOdds {
    pub one_wins: Odds,
    pub draw: Odds,
    pub two_wins: Odds,
}

/// An exact ratio `num / den`; `den` is positive in every value this crate
/// builds.
#[derive(Clone, Copy, Debug, PartialEq, Eq, Structural)]
pub struct Fraction {
    pub num: i64,
    pub den: u64,
}

/// Why a quoted price could not be read as fractional odds.
#[derive(Clone, Copy, Debug, PartialEq, Eq, Structural)]
pub enum OddsError {
    /// The text before the slash is not a number.
    BadTop,
    /// There is no slash.
    NoBottom,
    /// The text after the slash is not a number.
    BadBottom,
    /// The fraction has a zero denominator.
    ZeroBottom,
}

impl Odds {
    /// The odds can be turned into a probability.
    pub open spec fn wf(&self) -> bool {
        self.bottom > 0
    }

    /// The implied chance in percent, `100 * bottom / (top + bottom)`: a
    /// stake of `bottom` that wins `top` breaks even at that chance.
    pub open spec fn percent_spec(&self) -> Fraction {
        Fraction { num: (100 * self.bottom) as i64, den: (self.top + self.bottom) as u64 }
    }

    /// The decimal payout multiplier `1 + top / bottom`, as a fraction over
    /// `bottom`.
    pub open spec fn decimal_spec(&self) -> Fraction {
        Fraction { num: (self.bottom + self.top) as i64, den: self.bottom as u64 }
    }
}

impl BoutOdds {
    pub open spec fn wf(&self) -> bool {
        self.one_wins.wf() && self.draw.wf() && self.two_wins.wf()
    }
}

/// The marker the exchange shows for even money.
pub open spec fn evens_marker() -> Seq<char> {
    seq!['E', 'V', 'S']
}

/// The first position at or after `i` that holds `c`, or the length of `s`.
pub open spec fn find_from(s: Seq<char>, c: char, i: int) -> int
    decreases s.len() - i,
{
    if i < 0 || i >= s.len() {
        s.len() as int
    } else if s[i] == c {
        i
    } else {
        find_from(s, c, i + 1)
    }
}

/// The last position before `j` that holds `c`, or `-1`.
pub open spec fn rfind_before(s: Seq<char>, c: char, j: int) -> int
    decreases j,
{
    if j <= 0 {
        -1
    } else if s[j - 1] == c {
        j - 1
    } else {
        rfind_before(s, c, j - 1)
    }
}

/// How a quoted price reads as odds. Even money shows as `EVS`; otherwise
/// the numerator is the last line before the first slash and the
/// denominator the first line after it, up to any second slash.
pub open spec fn odds_of_text(s: Seq<char>) -> Result<Odds, OddsError> {
    if contains(s, evens_marker()) {
        Ok(Odds { top: 1, bottom: 1 })
    } else {
        let slash = find_from(s, '/', 0);
        match u32_of_text(s.subrange(rfind_before(s, '\n', slash) + 1, slash)) {
            None => Err(OddsError::BadTop),
            Some(top) => if slash >= s.len() {
                Err(OddsError::NoBottom)
            } else {
                let end = find_from(s, '/', slash + 1);
                let nl = find_from(s, '\n', slash + 1);
                let stop = if nl < end { nl } else { end };
                match u32_of_text(s.subrange(slash + 1, stop)) {
                    None => Err(OddsError::BadBottom),
                    Some(bottom) => if bottom == 0 {
                        Err(OddsError::ZeroBottom)
                    } else {
                        Ok(Odds { top, bottom })
                    },
                }
            },
        }
    }
}

/// The first position at or after `i` that holds `c`, or the length.
fn find_char_from(s: &Vec<char>, c: char, i: usize) -> (r: usize)
    requires
        i <= s@.len(),
    ensures
        r == find_from(s@, c, i as int),
        i <= r <= s@.len(),
{
    let mut k = i;
    while k < s.len()
        invariant
            i <= k <= s@.len(),
            find_from(s@, c, i as int) == find_from(s@, c, k as int),
        decreases s.len() - k,
    {
        if s[k] == c {
            return k;
        }
        k = k + 1;
    }
    k
}

/// The last position before `j` that holds `c`, or `None` for `-1`.
fn rfind_char_before(s: &Vec<char>, c: char, j: usize) -> (r: Option<usize>)
    requires
        j <= s@.len(),
    ensures
        match r {
            Some(k) => k == rfind_before(s@, c, j as int) && k < j,
            None => rfind_before(s@, c, j as int) == -1,
        },
{
    let mut k = j;
    while k > 0
        invariant
            k <= j <= s@.len(),
            rfind_before(s@, c, j as int) == rfind_before(s@, c, k as int),
        decreases k,
    {
        if s[k - 1] == c {
            return Some(k - 1);
        }
        k = k - 1;
    }
    None
}

impl Odds {
    /// Reads the price text of an odds button: `EVS` anywhere means even
    /// money; otherwise `top/bottom`, where the numerator is the last line
    /// before the slash and the denominator the first line after it.
    pub fn from_mangled_string(s: &str) -> (r: Result<Odds, OddsError>)
        ensures
            r == odds_of_text(s@),
            r matches Ok(o) ==> o.wf(),
    {
        let cs = chars_of(s);
        let evs = chars_of("EVS");
        proof {
            reveal_strlit("EVS");
            assert(evs@ =~= evens_marker());
        }
        if contains_chars(&cs, &evs) {
            return Ok(Odds { top: 1, bottom: 1 });
        }
        let slash = find_char_from(&cs, '/', 0);
        let line_start = match rfind_char_before(&cs, '\n', slash) {
            Some(k) => k + 1,
            None => 0,
        };
        let top = match parse_u32(&cs, line_start, slash) {
            Some(t) => t,
            None => {
                return Err(OddsError::BadTop);
            },
        };
        if slash >= cs.len() {
            return Err(OddsError::NoBottom);
        }
        let end = find_char_from(&cs, '/', slash + 1);
        let nl = find_char_from(&cs, '\n', slash + 1);
        let stop = if nl < end { nl } else { end };
        match parse_u32(&cs, slash + 1, stop) {
            None => Err(OddsError::BadBottom),
            Some(bottom) => if bottom == 0 {
                Err(OddsError::ZeroBottom)
            } else {
                Ok(Odds { top, bottom })
            },
        }
    }

    /// The odds written as `top/bottom`, as quoted for a profit.
    pub fn as_frac(&self) -> (r: String)
        ensures
            r@ == decimal_text(self.top as nat) + seq!['/'] + decimal_text(self.bottom as nat),
    {
        let mut s = u32_text(self.top);
        let slash = "/";
        proof {
            reveal_strlit("/");
        }
        s.append(slash);
        let b = u32_text(self.bottom);
        s.append(b.as_str());
        s
    }

    /// The chance of winning that the exchange implies, in percent:
    /// `100 * bottom / (top + bottom)`, so even money gives fifty.
    pub fn as_percent(&self) -> (r: Fraction)
        requires
            self.wf(),
        ensures
            r == self.percent_spec(),
            0 < r.den,
            0 <= r.num <= 100 * r.den,
    {
        Fraction { num: 100 * self.bottom as i64, den: self.top as u64 + self.bottom as u64 }
    }

    /// The decimal payout multiplier `1 + top / bottom`: what a winning
    /// stake of one returns, stake included.
    pub fn as_decimal(&self) -> (r: Fraction)
        requires
            self.wf(),
        ensures
            r == self.decimal_spec(),
    {
        Fraction { num: self.bottom as i64 + self.top as i64, den: self.bottom as u64 }
    }
}


/// The implied percentages of the two sides add up to a hundred exactly when
/// their odds are reciprocal (`top_a * top_b == bottom_a * bottom_b`, as
/// with `8/15` against `15/8`): a book that leaves nothing over for the draw
/// or the exchange.
pub proof fn lemma_implied_percents_sum(odds: BoutOdds)
    requires
        odds.wf(),
        odds.one_wins.top * odds.two_wins.top == odds.one_wins.bottom * odds.two_wins.bottom,
    ensures
        ({
            let a = odds.one_wins.percent_spec();
            let b = odds.two_wins.percent_spec();
            a.num * b.den + b.num * a.den == 100 * a.den * b.den
        }),
{
    let ta = odds.one_wins.top as int;
    let ba = odds.one_wins.bottom as int;
    let tb = odds.two_wins.top as int;
    let bb = odds.two_wins.bottom as int;
    assert((100 * ba) * (tb + bb) + (100 * bb) * (ta + ba) == 100 * (ta + ba) * (tb + bb)) by (nonlinear_arith)
        requires
            ta * tb == ba * bb,
    ;
}

} // verus!
