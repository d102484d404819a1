use boxrec_tool::odds::{BoutOdds, Fraction, Odds, OddsError};

#[test]
fn evens_parse_to_one_over_one() {
    let o = Odds::from_mangled_string("\n<span class=\"price\">\nEVS\n<").unwrap();
    assert_eq!(o, Odds { top: 1, bottom: 1 });
    assert_eq!(o.as_frac(), "1/1");
}

#[test]
fn evens_alone_parse() {
    assert_eq!(Odds::from_mangled_string("EVS"), Ok(Odds { top: 1, bottom: 1 }));
}

#[test]
fn mangled_price_parses() {
    let s = "\n<span class=\"ui-runner-price ui-924_231809773-28625857 ui-display-fraction-price\">\n8/15\n<";
    assert_eq!(Odds::from_mangled_string(s), Ok(Odds { top: 8, bottom: 15 }));
}

#[test]
fn plain_fraction_parses() {
    assert_eq!(Odds::from_mangled_string("11/4"), Ok(Odds { top: 11, bottom: 4 }));
    assert_eq!(Odds::from_mangled_string("+3/1"), Ok(Odds { top: 3, bottom: 1 }));
}

#[test]
fn odds_errors() {
    assert_eq!(Odds::from_mangled_string("abc"), Err(OddsError::BadTop));
    assert_eq!(Odds::from_mangled_string(""), Err(OddsError::BadTop));
    assert_eq!(Odds::from_mangled_string("5"), Err(OddsError::NoBottom));
    assert_eq!(Odds::from_mangled_string("5/x"), Err(OddsError::BadBottom));
    assert_eq!(Odds::from_mangled_string("5/"), Err(OddsError::BadBottom));
    assert_eq!(Odds::from_mangled_string("5/0"), Err(OddsError::ZeroBottom));
    assert_eq!(Odds::from_mangled_string("99999999999/2"), Err(OddsError::BadTop));
}

#[test]
fn second_slash_ends_the_bottom() {
    assert_eq!(Odds::from_mangled_string("7/2/9"), Ok(Odds { top: 7, bottom: 2 }));
}

#[test]
fn as_frac_writes_both_numbers() {
    assert_eq!(Odds { top: 8, bottom: 15 }.as_frac(), "8/15");
    assert_eq!(Odds { top: 0, bottom: 4294967295 }.as_frac(), "0/4294967295");
    assert_eq!(Odds { top: 100, bottom: 30 }.as_frac(), "100/30");
}

#[test]
fn implied_percent_follows_the_formula() {
    // 100 * 15 / (8 + 15) = 1500/23, about 65.2
    let p = Odds { top: 8, bottom: 15 }.as_percent();
    assert_eq!(p, Fraction { num: 1500, den: 23 });
    let v = p.num as f64 / p.den as f64;
    assert!((v - 65.217).abs() < 0.01);
    // odds against: 100 * 1 / 4
    assert_eq!(Odds { top: 3, bottom: 1 }.as_percent(), Fraction { num: 100, den: 4 });
    // evens: fifty
    let e = Odds::from_mangled_string("EVS").unwrap().as_percent();
    assert_eq!(e, Fraction { num: 100, den: 2 });
    assert_eq!(e.num as f64 / e.den as f64, 50.0);
    // the largest odds stay exact
    assert_eq!(
        Odds { top: 4294967295, bottom: 4294967295 }.as_percent(),
        Fraction { num: 429496729500, den: 8589934590 }
    );
}

#[test]
fn decimal_payout() {
    assert_eq!(Odds { top: 8, bottom: 15 }.as_decimal(), Fraction { num: 23, den: 15 });
    assert_eq!(Odds { top: 1, bottom: 1 }.as_decimal(), Fraction { num: 2, den: 1 });
}

#[test]
fn implied_percents_of_a_fair_book_sum_to_hundred() {
    for (t, b) in [(8u32, 15u32), (1, 1), (11, 4)] {
        let odds = BoutOdds {
            one_wins: Odds { top: t, bottom: b },
            draw: Odds { top: 20, bottom: 1 },
            two_wins: Odds { top: b, bottom: t },
        };
        let x = odds.one_wins.as_percent();
        let y = odds.two_wins.as_percent();
        assert_eq!(x.num as i128 * y.den as i128 + y.num as i128 * x.den as i128, 100 * x.den as i128 * y.den as i128);
    }
}
