//! Turning two record scores into win percentages, and comparing them with
//! the exchange's odds.

use vstd::prelude::*;

use crate::boxer::{Boxer, BoxerView};
use crate::odds::{BoutOdds, Fraction, Odds};
use crate::score::{extract_scores, scores_on_page, Decimal, ScoreError, MAX_MICROS, MICROS};

verus! {

/// When a matchup is worth a notification.
#[derive(Clone, Copy, Debug, PartialEq, Eq, Structural)]
pub struct Thresholds {
    /// How many percentage points our estimate of a side's chance must
    /// exceed the exchange's before a notification goes out.
    pub notify: Decimal,
    /// A notification carries a warning when the two scores add up to less
    /// than twice this.
    pub warning: Decimal,
}

impl Thresholds {
    pub open spec fn wf(&self) -> bool {
        self.notify.micros <= 100 * MICROS && self.warning.wf()
    }
}

/// Our estimate of a fighter's chance, in percent: `100 * a / (a + b)` for
/// scores `a` (the fighter's) and `b` (the opponent's).
pub open spec fn win_percent(a: Decimal, b: Decimal) -> Fraction {
    Fraction { num: (100 * a.micros) as i64, den: (a.micros + b.micros) as u64 }
}

/// `ours` exceeds `theirs` by more than `by` percentage points.
pub open spec fn exceeds_by(ours: Fraction, theirs: Fraction, by: Decimal) -> bool {
    (ours.num * theirs.den - theirs.num * ours.den) * MICROS > by.micros * ours.den * theirs.den
}

/// `x` is larger than `y`.
pub open spec fn greater(x: Fraction, y: Fraction) -> bool {
    x.num * y.den > y.num * x.den
}

/// Two scores that can be turned into percentages.
pub open spec fn scores_ok(a: Decimal, b: Decimal) -> bool {
    a.wf() && b.wf() && a.micros + b.micros > 0
}

/// Either side's chance from scores `a` and `b` exceeds what the exchange's
/// `odds` imply by more than the notify threshold.
pub open spec fn scores_notable(th: Thresholds, odds: BoutOdds, a: Decimal, b: Decimal) -> bool {
    exceeds_by(win_percent(a, b), odds.one_wins.percent_spec(), th.notify) || exceeds_by(
        win_percent(b, a),
        odds.two_wins.percent_spec(),
        th.notify,
    )
}

/// A bout with both sides' chances worked out from their record scores,
/// beside the exchange's odds.
#[derive(Debug)]
pub struct Matchup {
    pub fighter_one: Boxer,
    pub fighter_two: Boxer,
    pub win_percent_one: Fraction,
    pub win_percent_two: Fraction,
    pub warning: bool,
    pub betfair_odds: BoutOdds,
}

/// What a notification reports: the side we favour over the exchange.
#[derive(Debug)]
pub struct Notification {
    pub winner_to_be: Boxer,
    pub loser_to_be: Boxer,
    pub win_percent_ours: Fraction,
    pub betfair_odds: Odds,
    pub warning: bool,
}

impl Matchup {
    /// The fields of the matchup hold what the scores give.
    pub open spec fn from_scores_spec(
        &self,
        th: Thresholds,
        betfair_odds: BoutOdds,
        fighter_one: Boxer,
        fighter_two: Boxer,
        a: Decimal,
        b: Decimal,
    ) -> bool {
        &&& self.fighter_one == fighter_one
        &&& self.fighter_two == fighter_two
        &&& self.betfair_odds == betfair_odds
        &&& self.win_percent_one == win_percent(a, b)
        &&& self.win_percent_two == win_percent(b, a)
        &&& self.warning == (a.micros + b.micros < 2 * th.warning.micros)
    }

    /// The matchup holds what scores `a` and `b` give for fighters `one`
    /// and `two` under `odds`.
    pub open spec fn describes(
        &self,
        th: Thresholds,
        odds: BoutOdds,
        one: BoxerView,
        two: BoxerView,
        a: Decimal,
        b: Decimal,
    ) -> bool {
        &&& self.fighter_one.view_tuple() == one
        &&& self.fighter_two.view_tuple() == two
        &&& self.betfair_odds == odds
        &&& self.win_percent_one == win_percent(a, b)
        &&& self.win_percent_two == win_percent(b, a)
        &&& self.warning == (a.micros + b.micros < 2 * th.warning.micros)
    }

    /// Fields whose sizes keep the comparisons in range.
    pub open spec fn wf(&self) -> bool {
        &&& self.betfair_odds.wf()
        &&& 0 < self.win_percent_one.den <= 2 * MAX_MICROS
        &&& 0 <= self.win_percent_one.num <= 100 * MAX_MICROS
        &&& 0 < self.win_percent_two.den <= 2 * MAX_MICROS
        &&& 0 <= self.win_percent_two.num <= 100 * MAX_MICROS
    }

    /// Some side's chance by our estimate exceeds the exchange's by more
    /// than the threshold.
    pub open spec fn notable(&self, th: Thresholds) -> bool {
        exceeds_by(self.win_percent_one, self.betfair_odds.one_wins.percent_spec(), th.notify)
            || exceeds_by(self.win_percent_two, self.betfair_odds.two_wins.percent_spec(), th.notify)
    }

    /// Fighter one is the favourite by our estimate.
    pub open spec fn one_favoured(&self) -> bool {
        greater(self.win_percent_one, self.win_percent_two)
    }

    /// Works out both sides' chances from their scores `a` and `b`: fighter
    /// one's is `100 * a / (a + b)`, fighter two's the rest. The warning is
    /// set when `a + b` is below twice the warning threshold.
    pub fn from_scores(
        th: Thresholds,
        betfair_odds: BoutOdds,
        fighter_one: Boxer,
        fighter_two: Boxer,
        a: Decimal,
        b: Decimal,
    ) -> (r: Matchup)
        requires
            th.wf(),
            betfair_odds.wf(),
            scores_ok(a, b),
        ensures
            r.from_scores_spec(th, betfair_odds, fighter_one, fighter_two, a, b),
            r.wf(),
    {
        let total = a.micros + b.micros;
        Matchup {
            fighter_one,
            fighter_two,
            win_percent_one: Fraction { num: (100 * a.micros) as i64, den: total },
            win_percent_two: Fraction { num: (100 * b.micros) as i64, den: total },
            warning: total < 2 * th.warning.micros,
            betfair_odds,
        }
    }

    /// Reads both scores off the bout's results page and works out the
    /// chances from them, as `from_scores` does.
    pub fn new(
        th: Thresholds,
        betfair_odds: BoutOdds,
        fighter_one: Boxer,
        fighter_two: Boxer,
        page: &str,
    ) -> (r: Result<Matchup, ScoreError>)
        requires
            th.wf(),
            betfair_odds.wf(),
        ensures
            match scores_on_page(page@) {
                Err(e) => r == Err::<Matchup, ScoreError>(e),
                Ok((a, b)) => if a.micros + b.micros == 0 {
                    r == Err::<Matchup, ScoreError>(ScoreError::ZeroTotal)
                } else {
                    r matches Ok(m) && m.from_scores_spec(th, betfair_odds, fighter_one, fighter_two, a, b)
                        && m.wf()
                },
            },
    {
        match extract_scores(page) {
            Err(e) => Err(e),
            Ok((a, b)) => if a.micros == 0 && b.micros == 0 {
                Err(ScoreError::ZeroTotal)
            } else {
                Ok(Matchup::from_scores(th, betfair_odds, fighter_one, fighter_two, a, b))
            },
        }
    }

    /// Whether either side's chance by our estimate exceeds the exchange's
    /// implied chance by more than the notify threshold.
    pub fn is_notable(&self, th: Thresholds) -> (r: bool)
        requires
            self.wf(),
            th.wf(),
        ensures
            r == self.notable(th),
    {
        exceeds(self.win_percent_one, self.betfair_odds.one_wins.as_percent(), th.notify)
            || exceeds(self.win_percent_two, self.betfair_odds.two_wins.as_percent(), th.notify)
    }

    /// The fighter we favour: fighter one when its chance is strictly the
    /// larger, else fighter two.
    pub fn get_winner(&self) -> (r: &Boxer)
        requires
            self.wf(),
        ensures
            r == (if self.one_favoured() { &self.fighter_one } else { &self.fighter_two }),
    {
        if more(self.win_percent_one, self.win_percent_two) {
            &self.fighter_one
        } else {
            &self.fighter_two
        }
    }

    /// The notification for this matchup: the favourite by our estimate,
    /// its chance, and the exchange's odds on it.
    pub fn into_notification(self) -> (r: Notification)
        requires
            self.wf(),
        ensures
            self.one_favoured() ==> r == (Notification {
                winner_to_be: self.fighter_one,
                loser_to_be: self.fighter_two,
                win_percent_ours: self.win_percent_one,
                betfair_odds: self.betfair_odds.one_wins,
                warning: self.warning,
            }),
            !self.one_favoured() ==> r == (Notification {
                winner_to_be: self.fighter_two,
                loser_to_be: self.fighter_one,
                win_percent_ours: self.win_percent_two,
                betfair_odds: self.betfair_odds.two_wins,
                warning: self.warning,
            }),
    {
        if more(self.win_percent_one, self.win_percent_two) {
            Notification {
                winner_to_be: self.fighter_one,
                loser_to_be: self.fighter_two,
                win_percent_ours: self.win_percent_one,
                betfair_odds: self.betfair_odds.one_wins,
                warning: self.warning,
            }
        } else {
            Notification {
                winner_to_be: self.fighter_two,
                loser_to_be: self.fighter_one,
                win_percent_ours: self.win_percent_two,
                betfair_odds: self.betfair_odds.two_wins,
                warning: self.warning,
            }
        }
    }
}

/// Whether `x` is larger than `y`, for two percentages from scores.
fn more(x: Fraction, y: Fraction) -> (r: bool)
    requires
        0 < x.den <= 2_000_000_000_000_000,
        0 <= x.num <= 100_000_000_000_000_000,
        0 < y.den <= 2_000_000_000_000_000,
        0 <= y.num <= 100_000_000_000_000_000,
    ensures
        r == greater(x, y),
{
    let xn = x.num as i128;
    let xd = x.den as i128;
    let yn = y.num as i128;
    let yd = y.den as i128;
    proof {
        assert(0 <= xn * yd <= 100_000_000_000_000_000 * 2_000_000_000_000_000) by (nonlinear_arith)
            requires
                0 <= xn <= 100_000_000_000_000_000,
                0 < yd <= 2_000_000_000_000_000,
        ;
        assert(0 <= yn * xd <= 100_000_000_000_000_000 * 2_000_000_000_000_000) by (nonlinear_arith)
            requires
                0 <= yn <= 100_000_000_000_000_000,
                0 < xd <= 2_000_000_000_000_000,
        ;
    }
    xn * yd > yn * xd
}

/// Whether our percentage `ours` exceeds the exchange's `theirs` by more
/// than `by` percentage points.
fn exceeds(ours: Fraction, theirs: Fraction, by: Decimal) -> (r: bool)
    requires
        0 < ours.den <= 2_000_000_000_000_000,
        0 <= ours.num <= 100_000_000_000_000_000,
        0 < theirs.den <= 8_589_934_590,
        0 <= theirs.num <= 429_496_729_500,
        by.micros <= 100_000_000,
    ensures
        r == exceeds_by(ours, theirs, by),
{
    let on = ours.num as i128;
    let od = ours.den as i128;
    let tn = theirs.num as i128;
    let td = theirs.den as i128;
    let b = by.micros as i128;
    proof {
        assert(0 <= on * td <= 100_000_000_000_000_000 * 8_589_934_590) by (nonlinear_arith)
            requires
                0 <= on <= 100_000_000_000_000_000,
                0 < td <= 8_589_934_590,
        ;
        assert(0 <= tn * od <= 429_496_729_500 * 2_000_000_000_000_000) by (nonlinear_arith)
            requires
                0 <= tn <= 429_496_729_500,
                0 < od <= 2_000_000_000_000_000,
        ;
        assert(0 <= b * od <= 100_000_000 * 2_000_000_000_000_000) by (nonlinear_arith)
            requires
                0 <= b <= 100_000_000,
                0 < od <= 2_000_000_000_000_000,
        ;
        assert(0 <= (b * od) * td <= 100_000_000 * 2_000_000_000_000_000 * 8_589_934_590)
            by (nonlinear_arith)
            requires
                0 <= b * od <= 100_000_000 * 2_000_000_000_000_000,
                0 < td <= 8_589_934_590,
        ;
    }
    let diff = on * td - tn * od;
    proof {
        assert(-2_000_000_000_000_000_000_000_000_000_000_000 <= diff * 1_000_000
            <= 2_000_000_000_000_000_000_000_000_000_000_000) by (nonlinear_arith)
            requires
                -2_000_000_000_000_000_000_000_000_000 <= diff <= 2_000_000_000_000_000_000_000_000_000,
        ;
    }
    diff * (MICROS as i128) > b * od * td
}

/// Our two percentages for a bout add up to a hundred: `win_percent(a, b)`
/// and `win_percent(b, a)` share their denominator `a + b`, and their
/// numerators add up to a hundred times it.
pub proof fn lemma_win_percents_sum(a: Decimal, b: Decimal)
    requires
        scores_ok(a, b),
    ensures
        win_percent(a, b).den == win_percent(b, a).den,
        win_percent(a, b).num + win_percent(b, a).num == 100 * win_percent(a, b).den,
{
}

} // verus!
