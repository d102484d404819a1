use boxrec_tool::feed::{listed_bouts, FeedError};
use boxrec_tool::odds::{Odds, OddsError};

fn listing(names: &[&str], prices: &[&str]) -> String {
    let mut s = String::from("<div class=\"com-coupon-line-new-layout avb-table quarter-template avb-row\">");
    for n in names {
        s.push_str(&format!("<span class=\"team-name\">{}</span>", n));
    }
    for p in prices {
        s.push_str(&format!("<a class=\"com-bet-button\"><span class=\"ui-runner-price\">\n{}\n</span></a>", p));
    }
    s.push_str("</div>");
    s
}

#[test]
fn listings_are_read() {
    let page = format!(
        "<html><body>{}{}{}</body></html>",
        listing(&["  Floyd Mayweather\n", "Manny Pacquiao"], &["8/15", "20/1", "EVS"]),
        listing(&["Only One"], &["1/2", "2/1", "3/1"]),
        listing(&["A B", "C D"], &["1/2", "x", "3/1"]),
    );
    let bouts = listed_bouts(&page);
    assert_eq!(bouts.len(), 3);
    let b = bouts[0].as_ref().unwrap();
    assert_eq!(b.fighter_one, "Floyd Mayweather");
    assert_eq!(b.fighter_two, "Manny Pacquiao");
    assert_eq!(b.odds.one_wins, Odds { top: 8, bottom: 15 });
    assert_eq!(b.odds.draw, Odds { top: 20, bottom: 1 });
    assert_eq!(b.odds.two_wins, Odds { top: 1, bottom: 1 });
    assert_eq!(bouts[1].as_ref().unwrap_err(), &FeedError::MissingName);
    assert_eq!(bouts[2].as_ref().unwrap_err(), &FeedError::Odds(OddsError::BadTop));
}

#[test]
fn listing_with_too_few_prices() {
    let page = format!("<html><body>{}</body></html>", listing(&["A B", "C D"], &["1/2", "2/1"]));
    let bouts = listed_bouts(&page);
    assert_eq!(bouts.len(), 1);
    assert_eq!(bouts[0].as_ref().unwrap_err(), &FeedError::MissingOdds);
}

#[test]
fn page_without_listings() {
    assert!(listed_bouts("<html><body><p>no boxing</p></body></html>").is_empty());
}
