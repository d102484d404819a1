//! The bouts that the exchange lists, and reading them off its page.

use vstd::prelude::*;

use crate::odds::{odds_of_text, BoutOdds, Odds, OddsError};
use crate::page::{elements_view, groups_view, inners, nested_selection, select_within, Element};
use crate::text::{trim, trimmed};

verus! {

/// A bout as the exchange lists it: the two fighters' display names and the
/// odds quoted at the time.
#[derive(Debug)]
pub struct Bout {
    pub fighter_one: String,
    pub fighter_two: String,
    pub odds: BoutOdds,
}

/// What identifies a bout: both names and the odds.
pub type BoutKey = (Seq<char>, Seq<char>, BoutOdds);

impl Bout {
    pub open spec fn key(&self) -> BoutKey {
        (self.fighter_one@, self.fighter_two@, self.odds)
    }

    /// Whether two listings are the same: same names and same odds. A
    /// changed quote makes a different listing.
    pub fn same_as(&self, other: &Bout) -> (r: bool)
        ensures
            r == (self.key() == other.key()),
    {
        self.fighter_one == other.fighter_one && self.fighter_two == other.fighter_two && self.odds
            == other.odds
    }

    /// A field-for-field copy.
    pub fn duplicate(&self) -> (r: Bout)
        ensures
            r == *self,
    {
        Bout {
            fighter_one: self.fighter_one.clone(),
            fighter_two: self.fighter_two.clone(),
            odds: self.odds,
        }
    }
}


/// Why a listing on the exchange's page could not be read.
#[derive(Clone, Copy, Debug, PartialEq, Eq, Structural)]
pub enum FeedError {
    /// A price could not be read as odds.
    Odds(OddsError),
    /// The listing has fewer than three prices.
    MissingOdds,
    /// The listing has fewer than two fighters' names.
    MissingName,
}

/// The selector of the listings on the exchange's boxing page.
pub open spec fn listing_selector() -> Seq<char> {
    ".com-coupon-line-new-layout.avb-table.quarter-template.avb-row"@
}

/// The selector of a fighter's name in a listing.
pub open spec fn name_selector() -> Seq<char> {
    ".team-name"@
}

/// The selector of a price in a listing.
pub open spec fn price_selector() -> Seq<char> {
    ".com-bet-button"@
}

/// The odds of the prices of a listing: one wins, draw, two wins, read in
/// that order, stopping at the first price that is missing or unreadable.
pub open spec fn odds_of_prices(prices: Seq<Seq<char>>) -> Result<BoutOdds, FeedError> {
    if prices.len() < 1 {
        Err(FeedError::MissingOdds)
    } else {
        match odds_of_text(prices[0]) {
            Err(e) => Err(FeedError::Odds(e)),
            Ok(one) => if prices.len() < 2 {
                Err(FeedError::MissingOdds)
            } else {
                match odds_of_text(prices[1]) {
                    Err(e) => Err(FeedError::Odds(e)),
                    Ok(draw) => if prices.len() < 3 {
                        Err(FeedError::MissingOdds)
                    } else {
                        match odds_of_text(prices[2]) {
                            Err(e) => Err(FeedError::Odds(e)),
                            Ok(two) => Ok(BoutOdds { one_wins: one, draw, two_wins: two }),
                        }
                    },
                }
            },
        }
    }
}

/// A listing read from its names and prices: the odds first, then the
/// first two names, without white space at their ends.
pub open spec fn bout_of_parts(names: Seq<Seq<char>>, prices: Seq<Seq<char>>) -> Result<BoutKey, FeedError> {
    match odds_of_prices(prices) {
        Err(e) => Err(e),
        Ok(odds) => if names.len() < 2 {
            Err(FeedError::MissingName)
        } else {
            Ok((trimmed(names[0]), trimmed(names[1]), odds))
        },
    }
}

/// A listing as plain values.
pub open spec fn listing_view(r: Result<Bout, FeedError>) -> Result<BoutKey, FeedError> {
    match r {
        Ok(b) => Ok(b.key()),
        Err(e) => Err(e),
    }
}

/// The groups of a nested selection, or none where it failed.
pub open spec fn groups_or_empty(g: Option<Seq<Seq<(Seq<char>, Seq<char>)>>>) -> Seq<Seq<(Seq<char>, Seq<char>)>> {
    match g {
        Some(v) => v,
        None => Seq::empty(),
    }
}

/// Reads the prices of a listing as odds.
fn odds_from_prices(prices: &Vec<Element>) -> (r: Result<BoutOdds, FeedError>)
    ensures
        r == odds_of_prices(inners(elements_view(prices@))),
        r matches Ok(o) ==> o.wf(),
{
    let ghost ps = inners(elements_view(prices@));
    if prices.len() < 1 {
        return Err(FeedError::MissingOdds);
    }
    assert(ps[0] == prices@[0].inner@);
    let one = match Odds::from_mangled_string(prices[0].inner.as_str()) {
        Err(e) => {
            return Err(FeedError::Odds(e));
        },
        Ok(o) => o,
    };
    if prices.len() < 2 {
        return Err(FeedError::MissingOdds);
    }
    assert(ps[1] == prices@[1].inner@);
    let draw = match Odds::from_mangled_string(prices[1].inner.as_str()) {
        Err(e) => {
            return Err(FeedError::Odds(e));
        },
        Ok(o) => o,
    };
    if prices.len() < 3 {
        return Err(FeedError::MissingOdds);
    }
    assert(ps[2] == prices@[2].inner@);
    let two = match Odds::from_mangled_string(prices[2].inner.as_str()) {
        Err(e) => {
            return Err(FeedError::Odds(e));
        },
        Ok(o) => o,
    };
    Ok(BoutOdds { one_wins: one, draw, two_wins: two })
}

/// Reads one listing from the names and the prices found in it.
pub fn bout_from_parts(names: &Vec<Element>, prices: &Vec<Element>) -> (r: Result<Bout, FeedError>)
    ensures
        listing_view(r) == bout_of_parts(inners(elements_view(names@)), inners(elements_view(prices@))),
        r matches Ok(b) ==> b.odds.wf(),
{
    let odds = match odds_from_prices(prices) {
        Err(e) => {
            return Err(e);
        },
        Ok(o) => o,
    };
    if names.len() < 2 {
        return Err(FeedError::MissingName);
    }
    let ghost ns = inners(elements_view(names@));
    assert(ns[0] == names@[0].inner@);
    assert(ns[1] == names@[1].inner@);
    let fighter_one = trim(names[0].inner.as_str());
    let fighter_two = trim(names[1].inner.as_str());
    Ok(Bout { fighter_one, fighter_two, odds })
}

/// Reads the bouts listed on the exchange's boxing page, each listing on
/// its own: a listing that cannot be read gives its error and does not
/// stop the others.
pub fn listed_bouts(page: &str) -> (r: Vec<Result<Bout, FeedError>>)
    ensures
        ({
            let names = groups_or_empty(nested_selection(page@, listing_selector(), name_selector()));
            let prices = groups_or_empty(nested_selection(page@, listing_selector(), price_selector()));
            &&& r@.len() == names.len()
            &&& forall|k: int|
                0 <= k < r@.len() ==> listing_view(#[trigger] r@[k]) == bout_of_parts(
                    inners(names[k]),
                    inners(if k < prices.len() { prices[k] } else { Seq::empty() }),
                )
        }),
        forall|k: int| 0 <= k < r@.len() ==> (#[trigger] r@[k] matches Ok(b) ==> b.odds.wf()),
{
    let listing = ".com-coupon-line-new-layout.avb-table.quarter-template.avb-row";
    let names = match select_within(page, listing, ".team-name") {
        Some(v) => v,
        None => Vec::new(),
    };
    let prices = match select_within(page, listing, ".com-bet-button") {
        Some(v) => v,
        None => Vec::new(),
    };
    let ghost ng = groups_or_empty(nested_selection(page@, listing_selector(), name_selector()));
    let ghost pg = groups_or_empty(nested_selection(page@, listing_selector(), price_selector()));
    assert(groups_view(names@) =~= ng);
    assert(groups_view(prices@) =~= pg);
    let empty: Vec<Element> = Vec::new();
    assert(elements_view(empty@) =~= Seq::<(Seq<char>, Seq<char>)>::empty());
    let mut out: Vec<Result<Bout, FeedError>> = Vec::new();
    let mut k: usize = 0;
    while k < names.len()
        invariant
            k <= names@.len() == ng.len(),
            groups_view(names@) == ng,
            groups_view(prices@) == pg,
            elements_view(empty@) == Seq::<(Seq<char>, Seq<char>)>::empty(),
            out@.len() == k,
            forall|m: int|
                0 <= m < k ==> listing_view(#[trigger] out@[m]) == bout_of_parts(
                    inners(ng[m]),
                    inners(if m < pg.len() { pg[m] } else { Seq::empty() }),
                ),
            forall|m: int| 0 <= m < k ==> (#[trigger] out@[m] matches Ok(b) ==> b.odds.wf()),
        decreases names.len() - k,
    {
        assert(ng[k as int] == elements_view(names@[k as int]@));
        let b = if k < prices.len() {
            assert(pg[k as int] == elements_view(prices@[k as int]@));
            bout_from_parts(&names[k], &prices[k])
        } else {
            bout_from_parts(&names[k], &empty)
        };
        out.push(b);
        k = k + 1;
    }
    out
}

} // verus!
