use boxrec_tool::boxer::Boxer;
use boxrec_tool::matchup::{Matchup, Thresholds};
use boxrec_tool::odds::{BoutOdds, Fraction, Odds};
use boxrec_tool::score::{Decimal, ScoreError};

fn boxer(id: u32, f: &str, s: &str) -> Boxer {
    Boxer { id, forename: String::from(f), surname: String::from(s) }
}

fn thresholds() -> Thresholds {
    Thresholds { notify: Decimal { micros: 15_000_000 }, warning: Decimal { micros: 2_000_000 } }
}

fn odds(one: (u32, u32), two: (u32, u32)) -> BoutOdds {
    BoutOdds {
        one_wins: Odds { top: one.0, bottom: one.1 },
        draw: Odds { top: 20, bottom: 1 },
        two_wins: Odds { top: two.0, bottom: two.1 },
    }
}

fn as_f64(f: Fraction) -> f64 {
    f.num as f64 / f.den as f64
}

#[test]
fn win_percents_from_scores() {
    let m = Matchup::from_scores(
        thresholds(),
        odds((8, 15), (6, 4)),
        boxer(1, "A", "One"),
        boxer(2, "B", "Two"),
        Decimal { micros: 8_600_000 },
        Decimal { micros: 4_200_000 },
    );
    assert_eq!(m.win_percent_one, Fraction { num: 860_000_000, den: 12_800_000 });
    assert_eq!(m.win_percent_two, Fraction { num: 420_000_000, den: 12_800_000 });
    assert!((as_f64(m.win_percent_one) - 67.2).abs() < 0.05);
    assert!((as_f64(m.win_percent_two) - 32.8).abs() < 0.05);
    assert_eq!(m.win_percent_one.num + m.win_percent_two.num, 100 * m.win_percent_one.den as i64);
    assert!(!m.warning);
    assert_eq!(m.get_winner().id, 1);
}

#[test]
fn example_bout_against_eight_to_fifteen() {
    // our 67.2 against the exchange's 100 * 15 / 23 = 65.2: about 2 points
    let m = Matchup::from_scores(
        thresholds(),
        odds((8, 15), (15, 8)),
        boxer(1, "A", "One"),
        boxer(2, "B", "Two"),
        Decimal { micros: 8_600_000 },
        Decimal { micros: 4_200_000 },
    );
    assert!((as_f64(m.betfair_odds.one_wins.as_percent()) - 65.2).abs() < 0.05);
    assert!(!m.is_notable(thresholds()));
    let low = Thresholds { notify: Decimal { micros: 1_000_000 }, warning: Decimal { micros: 2_000_000 } };
    assert!(m.is_notable(low));
    let two = Thresholds { notify: Decimal { micros: 2_000_000 }, warning: Decimal { micros: 2_000_000 } };
    assert!(!m.is_notable(two));
}

#[test]
fn divergence_must_be_strictly_above_threshold() {
    // 50% ours against evens, 100 * 1 / 2 = 50%: no gap
    let m = Matchup::from_scores(
        thresholds(),
        odds((1, 1), (1, 1)),
        boxer(1, "A", "One"),
        boxer(2, "B", "Two"),
        Decimal { micros: 1_000_000 },
        Decimal { micros: 1_000_000 },
    );
    let zero = Thresholds { notify: Decimal { micros: 0 }, warning: Decimal { micros: 0 } };
    assert!(!m.is_notable(zero));
    // on a tie fighter two is the favourite
    assert_eq!(m.get_winner().id, 2);
}

#[test]
fn thin_records_carry_a_warning() {
    let m = Matchup::from_scores(
        thresholds(),
        odds((1, 2), (1, 2)),
        boxer(1, "A", "One"),
        boxer(2, "B", "Two"),
        Decimal { micros: 1_500_000 },
        Decimal { micros: 2_000_000 },
    );
    assert!(m.warning);
    let m = Matchup::from_scores(
        thresholds(),
        odds((1, 2), (1, 2)),
        boxer(1, "A", "One"),
        boxer(2, "B", "Two"),
        Decimal { micros: 2_000_000 },
        Decimal { micros: 2_000_000 },
    );
    assert!(!m.warning);
}

#[test]
fn notification_names_the_favourite() {
    let m = Matchup::from_scores(
        thresholds(),
        odds((8, 15), (6, 4)),
        boxer(1, "A", "One"),
        boxer(2, "B", "Two"),
        Decimal { micros: 1_000_000 },
        Decimal { micros: 3_000_000 },
    );
    let n = m.into_notification();
    assert_eq!(n.winner_to_be.id, 2);
    assert_eq!(n.loser_to_be.id, 1);
    assert_eq!(n.betfair_odds, Odds { top: 6, bottom: 4 });
    assert_eq!(n.win_percent_ours, Fraction { num: 300_000_000, den: 4_000_000 });
}

#[test]
fn matchup_from_page() {
    let page = "<table><tr class=\"responseLessDataTable\"><td>after fight</td><td>8.6</td><td>4.2</td></tr></table>";
    let m = Matchup::new(thresholds(), odds((8, 15), (6, 4)), boxer(1, "A", "One"), boxer(2, "B", "Two"), page)
        .unwrap();
    assert_eq!(m.win_percent_one, Fraction { num: 860_000_000, den: 12_800_000 });
    let zero = "<table><tr class=\"responseLessDataTable\"><td>after fight</td><td>0.0</td><td>.0</td></tr></table>";
    let e = Matchup::new(thresholds(), odds((8, 15), (6, 4)), boxer(1, "A", "One"), boxer(2, "B", "Two"), zero);
    assert!(matches!(e, Err(ScoreError::ZeroTotal)));
}
