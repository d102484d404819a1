use boxrec_tool::boxer::Boxer;
use boxrec_tool::feed::Bout;
use boxrec_tool::matchup::Thresholds;
use boxrec_tool::odds::{BoutOdds, Odds};
use boxrec_tool::score::{Decimal, ScoreError};
use boxrec_tool::tracker::{cache_dir_plan, BoutMetadata, BoutStatus, CacheError, IndexEntry, PathKind, State};

fn thresholds() -> Thresholds {
    Thresholds { notify: Decimal { micros: 15_000_000 }, warning: Decimal { micros: 2_000_000 } }
}

fn low_thresholds() -> Thresholds {
    Thresholds { notify: Decimal { micros: 1_000_000 }, warning: Decimal { micros: 2_000_000 } }
}

fn bout(one: &str, two: &str, top: u32) -> Bout {
    Bout {
        fighter_one: String::from(one),
        fighter_two: String::from(two),
        odds: BoutOdds {
            one_wins: Odds { top, bottom: 15 },
            draw: Odds { top: 20, bottom: 1 },
            two_wins: Odds { top: 6, bottom: 4 },
        },
    }
}

fn boxer(id: u32, f: &str, s: &str) -> Boxer {
    Boxer { id, forename: String::from(f), surname: String::from(s) }
}

const PAGE: &str = "<table><tr class=\"responseLessDataTable\"><td>after fight</td><td>8.6</td><td>4.2</td></tr></table>";

#[test]
fn same_listing_twice_is_tracked_once() {
    let mut s = State::new(thresholds());
    s.merge(vec![bout("Floyd Mayweather", "Manny Pacquiao", 8), bout("Floyd Mayweather", "Manny Pacquiao", 8)]);
    assert_eq!(s.len(), 1);
    s.merge(vec![bout("Floyd Mayweather", "Manny Pacquiao", 8)]);
    assert_eq!(s.len(), 1);
    // a new quote is a new listing
    s.merge(vec![bout("Floyd Mayweather", "Manny Pacquiao", 9)]);
    assert_eq!(s.len(), 2);
    assert_eq!(s.status(0), BoutStatus::MissingBoxers);
}

#[test]
fn status_moves_forward_one_stage() {
    let mut st = BoutStatus::MissingBoxers;
    st.next();
    assert_eq!(st, BoutStatus::MissingBoutPage);
    st.next();
    assert_eq!(st, BoutStatus::Checked);
    st.next();
    assert_eq!(st, BoutStatus::Announced);
}

#[test]
fn full_pass_moves_a_bout_to_announced() {
    let mut s = State::new(low_thresholds());
    s.merge(vec![bout("Floyd Mayweather", "Manny Pacquiao", 8)]);
    assert_eq!(s.names_to_resolve(0), vec![String::from("Floyd Mayweather"), String::from("Manny Pacquiao")]);
    assert!(!s.confirm_fighters(0));
    s.record_fighter(String::from("Floyd Mayweather"), boxer(352, "Floyd", "Mayweather"));
    assert_eq!(s.names_to_resolve(0), vec![String::from("Manny Pacquiao")]);
    assert!(!s.confirm_fighters(0));
    assert_eq!(s.status(0), BoutStatus::MissingBoxers);
    assert!(s.bout_request(0).is_none());
    s.record_fighter(String::from("Manny Pacquiao"), boxer(6129, "Manny", "Pacquiao"));
    assert!(s.confirm_fighters(0));
    assert_eq!(s.status(0), BoutStatus::MissingBoutPage);
    assert!(s.names_to_resolve(0).is_empty());
    assert_eq!(s.bout_request(0), Some((352, String::from("Manny Pacquiao"))));
    // a page without scores leaves the bout where it was
    assert!(matches!(s.score_bout(0, "<p>nothing</p>"), Err(ScoreError::ScoresNotFound)));
    assert_eq!(s.status(0), BoutStatus::MissingBoutPage);
    // 67.2 against 100 * 15 / 23 = 65.2 is over one point
    let m = s.score_bout(0, PAGE).unwrap().unwrap();
    assert_eq!(m.fighter_one.id, 352);
    assert_eq!(m.fighter_two.id, 6129);
    assert_eq!(s.status(0), BoutStatus::Announced);
    assert!(s.bout_request(0).is_none());
    assert!(!s.confirm_fighters(0));
}

#[test]
fn quiet_bout_is_announced_without_a_matchup() {
    let high = Thresholds { notify: Decimal { micros: 100_000_000 }, warning: Decimal { micros: 2_000_000 } };
    let mut s = State::new(high);
    s.merge(vec![bout("A B", "C D", 8)]);
    s.record_fighter(String::from("A B"), boxer(100, "A", "B"));
    s.record_fighter(String::from("C D"), boxer(200, "C", "D"));
    assert!(s.confirm_fighters(0));
    assert!(s.score_bout(0, PAGE).unwrap().is_none());
    assert_eq!(s.status(0), BoutStatus::Announced);
}

#[test]
fn same_name_twice_is_resolved_once() {
    let mut s = State::new(thresholds());
    s.merge(vec![bout("A B", "A B", 8)]);
    assert_eq!(s.names_to_resolve(0), vec![String::from("A B")]);
}

#[test]
fn cache_round_trip_on_empty_and_populated_trackers() {
    let empty = State::new(thresholds());
    let (b, r) = empty.cache_snapshot();
    assert!(b.is_empty() && r.is_empty());
    let mut fresh = State::new(thresholds());
    assert_eq!(fresh.load_cache(Some(b), Some(r)), Ok(()));
    assert_eq!(fresh.len(), 0);

    let mut s = State::new(thresholds());
    s.merge(vec![bout("A B", "C D", 8), bout("E F", "G H", 8)]);
    s.record_fighter(String::from("A B"), boxer(100, "A", "B"));
    s.record_fighter(String::from("C D"), boxer(200, "C", "D"));
    assert!(s.confirm_fighters(0));
    let (b, r) = s.cache_snapshot();
    assert_eq!(b.len(), 2);
    assert_eq!(r.len(), 2);
    let mut t = State::new(thresholds());
    assert_eq!(t.load_cache(Some(b), Some(r)), Ok(()));
    assert_eq!(t.len(), 2);
    assert_eq!(t.status(0), BoutStatus::MissingBoutPage);
    assert_eq!(t.status(1), BoutStatus::MissingBoxers);
    assert_eq!(t.bout_request(0), Some((100, String::from("C D"))));
    let (b2, r2) = t.cache_snapshot();
    assert_eq!(b2[0].name, "A B");
    assert_eq!(b2[1].boxer.id, 200);
    assert_eq!(r2[1].0.fighter_one, "E F");
}

#[test]
fn inconsistent_cache_is_refused() {
    let mut s = State::new(thresholds());
    let bouts = vec![BoutMetadata(bout("A B", "C D", 8), BoutStatus::MissingBoutPage)];
    assert_eq!(s.load_cache(Some(vec![]), Some(bouts)), Err(CacheError::Inconsistent));
    assert_eq!(s.len(), 0);
    let twice = vec![
        BoutMetadata(bout("A B", "C D", 8), BoutStatus::MissingBoxers),
        BoutMetadata(bout("A B", "C D", 8), BoutStatus::MissingBoxers),
    ];
    assert_eq!(s.load_cache(Some(vec![]), Some(twice)), Err(CacheError::Inconsistent));
    let entries = vec![
        IndexEntry { name: String::from("A B"), boxer: boxer(1, "A", "B") },
        IndexEntry { name: String::from("C D"), boxer: boxer(2, "C", "D") },
    ];
    let bouts = vec![BoutMetadata(bout("A B", "C D", 8), BoutStatus::MissingBoutPage)];
    assert_eq!(s.load_cache(Some(entries), Some(bouts)), Ok(()));
    assert_eq!(s.len(), 1);
}

#[test]
fn cache_path_plan() {
    assert_eq!(cache_dir_plan(PathKind::Missing), Ok(true));
    assert_eq!(cache_dir_plan(PathKind::Directory), Ok(false));
    assert_eq!(cache_dir_plan(PathKind::File), Err(CacheError::PathConflict));
}

#[test]
fn scores_move_the_bout_on() {
    let mut s = State::new(low_thresholds());
    s.merge(vec![bout("A B", "C D", 8)]);
    s.record_fighter(String::from("A B"), boxer(100, "A", "B"));
    s.record_fighter(String::from("C D"), boxer(200, "C", "D"));
    assert!(s.confirm_fighters(0));
    let m = s.record_scores(0, Decimal { micros: 8_600_000 }, Decimal { micros: 4_200_000 }).unwrap();
    assert_eq!(m.fighter_two.id, 200);
    assert_eq!(s.status(0), BoutStatus::Announced);
}

#[test]
fn example_bout_ends_announced_without_notification() {
    let mut s = State::new(thresholds());
    let mut b = bout("Floyd Mayweather", "Manny Pacquiao", 8);
    b.odds.two_wins = Odds { top: 15, bottom: 8 };
    s.merge(vec![b]);
    s.record_fighter(String::from("Floyd Mayweather"), boxer(352, "Floyd", "Mayweather"));
    s.record_fighter(String::from("Manny Pacquiao"), boxer(6129, "Manny", "Pacquiao"));
    assert!(s.confirm_fighters(0));
    // 67.2 against 65.2 and 32.8 against 34.8: below 15 points
    assert!(s.score_bout(0, PAGE).unwrap().is_none());
    assert_eq!(s.status(0), BoutStatus::Announced);
}

#[test]
fn known_name_keeps_its_fighter() {
    let mut s = State::new(thresholds());
    s.merge(vec![bout("A B", "C D", 8)]);
    s.record_fighter(String::from("A B"), boxer(100, "A", "B"));
    s.record_fighter(String::from("A B"), boxer(999, "A", "B"));
    s.record_fighter(String::from("C D"), boxer(200, "C", "D"));
    assert!(s.confirm_fighters(0));
    assert_eq!(s.bout_request(0), Some((100, String::from("C D"))));
    let (entries, _) = s.cache_snapshot();
    assert_eq!(entries.len(), 2);
}

#[test]
fn missing_snapshots_change_nothing() {
    let mut s = State::new(thresholds());
    s.merge(vec![bout("A B", "C D", 8)]);
    s.record_fighter(String::from("A B"), boxer(100, "A", "B"));
    assert_eq!(s.load_cache(None, None), Ok(()));
    assert_eq!(s.len(), 1);
    assert_eq!(s.names_to_resolve(0), vec![String::from("C D")]);
    let entries = vec![IndexEntry { name: String::from("C D"), boxer: boxer(200, "C", "D") }];
    assert_eq!(s.load_cache(Some(entries), None), Ok(()));
    assert_eq!(s.len(), 1);
    assert!(s.confirm_fighters(0));
}
