use boxrec_tool::boxrec::{
    bout_link_in, pick_result, boxer_url, chosen_id, classify_answer, clean_input, find_bout_url, id_of, login_succeeded,
    operator_continues, parse_choice, prompts_needed, search_outcome, search_url, Answer,
    BoutPageError, SearchError, SearchOutcome, Throttle,
};

#[test]
fn throttle_spaces_sends_by_the_delay() {
    let mut t = Throttle::new(500);
    assert_eq!(t.wait_if_needed(1_000), 0);
    // asked 100 ms after the last send: wait the other 400
    assert_eq!(t.wait_if_needed(1_100), 400);
    // that send went at 1500; asked at 2500: no wait
    assert_eq!(t.wait_if_needed(2_500), 0);
    assert_eq!(t.wait_if_needed(2_500), 500);
}

#[test]
fn throttle_gaps_over_a_run() {
    let mut t = Throttle::new(250);
    let mut sent: Vec<u64> = Vec::new();
    let mut now: u64 = 10;
    for step in [0u64, 0, 100, 300, 5, 1000, 0] {
        now += step;
        let w = t.wait_if_needed(now);
        now += w;
        sent.push(now);
    }
    for pair in sent.windows(2) {
        assert!(pair[1] >= pair[0] + 250);
    }
}

#[test]
fn answers_are_classified() {
    assert_eq!(classify_answer("https://boxrec.com/en/login", "<html>"), Answer::LoggedOut);
    assert_eq!(
        classify_answer("https://boxrec.com/en/proboxer/1", "<p>Please complete the form below to continue...</p>"),
        Answer::Captcha
    );
    assert_eq!(classify_answer("https://boxrec.com/en/proboxer/1", "<p>record</p>"), Answer::Page);
}

#[test]
fn login_success_by_redirect() {
    assert!(!login_succeeded("https://boxrec.com/en/login"));
    assert!(!login_succeeded("https://boxrec.com/en/login?failed=1"));
    assert!(login_succeeded("https://boxrec.com/en/"));
}

#[test]
fn credential_prompts() {
    assert_eq!(prompts_needed(true, true), (false, false));
    assert_eq!(prompts_needed(true, false), (false, true));
    assert_eq!(prompts_needed(false, true), (true, true));
    assert_eq!(prompts_needed(false, false), (true, true));
}

#[test]
fn operator_input() {
    assert_eq!(clean_input(String::from("  secret \n")), "secret");
    assert!(operator_continues(String::from(" GO\n")));
    assert!(operator_continues(String::from("go")));
    assert!(!operator_continues(String::from("gone")));
    assert_eq!(parse_choice(String::from(" 2\n"), 3), Some(1));
    assert_eq!(parse_choice(String::from("1"), 3), Some(0));
    assert_eq!(parse_choice(String::from("0"), 3), None);
    assert_eq!(parse_choice(String::from("4"), 3), None);
    assert_eq!(parse_choice(String::from("two"), 3), None);
}

#[test]
fn id_is_first_long_digit_run() {
    assert_eq!(id_of("<a href=\"/en/proboxer/352\">x</a>"), Some(352));
    assert_eq!(id_of("a 12 b 34567 c 999"), Some(34567));
    assert_eq!(id_of("no id 12"), None);
    assert_eq!(id_of("99999999999"), None);
}

fn search_page(results: &[(&str, u32)]) -> String {
    let mut s = String::from("<html><body>");
    for (name, id) in results {
        s.push_str(&format!("<a class=\"personLink\" href=\"/en/proboxer/{}\">{}</a>", id, name));
    }
    s.push_str("</body></html>");
    s
}

#[test]
fn exact_match_is_selected() {
    let page = search_page(&[("Floyd Mayweather Sr", 111), ("Floyd Mayweather", 352)]);
    assert!(matches!(search_outcome(&page, "Floyd", "MAYWEATHER"), Ok(SearchOutcome::Found(352))));
}

#[test]
fn lone_result_is_selected() {
    let page = search_page(&[("Floyd Mayweather Jr", 352)]);
    assert!(matches!(search_outcome(&page, "Floyd", "Mayweather"), Ok(SearchOutcome::Found(352))));
}

#[test]
fn several_inexact_results_need_a_choice() {
    let page = search_page(&[("Floyd Mayweather Sr", 111), ("Floyd Mayweather Jr", 352)]);
    match search_outcome(&page, "Floyd", "Mayweather") {
        Ok(SearchOutcome::Choose(names)) => {
            assert_eq!(names, vec![String::from("Floyd Mayweather Sr"), String::from("Floyd Mayweather Jr")])
        }
        _ => panic!("expected a choice"),
    }
    assert_eq!(chosen_id(&page, 1), Ok(352));
    assert_eq!(chosen_id(&page, 2), Err(SearchError::NoSelection));
}

#[test]
fn empty_search() {
    let page = search_page(&[]);
    assert!(matches!(search_outcome(&page, "No", "One"), Err(SearchError::NoResults)));
}

fn fighter_page(rows: &[&str]) -> String {
    let mut s = String::from("<html><body><table>");
    for r in rows {
        s.push_str(&format!("<tr class=\"scheduleRow\">{}</tr>", r));
    }
    s.push_str("</table></body></html>");
    s
}

#[test]
fn bout_link_for_the_opponent() {
    let page = fighter_page(&[
        "<td><a href=\"/en/event/123456/7654321\">Someone Else</a></td>",
        "<td>Manny PACQUIAO</td>",
        "<td><a href=\"/en/event/222222/3333333\">Manny Pacquiao</a></td>",
    ]);
    assert_eq!(
        find_bout_url(&page, "manny pacquiao"),
        Ok(String::from("https://boxrec.com/en/event/222222/3333333"))
    );
    assert_eq!(find_bout_url(&page, "Nobody"), Err(BoutPageError::NoMatchingOpponent));
    let none = fighter_page(&[]);
    assert_eq!(find_bout_url(&none, "Manny Pacquiao"), Err(BoutPageError::NoUpcomingBout));
}

#[test]
fn short_event_numbers_are_no_link() {
    let page = fighter_page(&["<td><a href=\"/en/event/12345/7654321\">Manny Pacquiao</a></td>"]);
    assert_eq!(find_bout_url(&page, "Manny Pacquiao"), Err(BoutPageError::NoMatchingOpponent));
}

#[test]
fn site_addresses() {
    assert_eq!(boxer_url(352), "https://boxrec.com/en/proboxer/352");
    assert_eq!(
        search_url("Floyd", "Mayweather", false),
        "https://boxrec.com/en/search?p[first_name]=floyd&p[last_name]=mayweather&p[role]=fighters&p[status]=&pf_go=go&p[orderBy]=&p[orderDir]=ASC"
    );
    assert_eq!(
        search_url("A", "B", true),
        "https://boxrec.com/en/search?p[first_name]=a&p[last_name]=b&p[role]=fighters&p[status]=a&pf_go=go&p[orderBy]=&p[orderDir]=ASC"
    );
}

#[test]
fn pick_prefers_exact_then_lone() {
    let names = vec![String::from("floyd mayweather sr"), String::from("floyd mayweather")];
    assert_eq!(pick_result(&names, &String::from("floyd mayweather")), Some(1));
    assert_eq!(pick_result(&names, &String::from("floyd")), None);
    let one = vec![String::from("someone else")];
    assert_eq!(pick_result(&one, &String::from("floyd mayweather")), Some(0));
    assert_eq!(pick_result(&vec![], &String::from("floyd mayweather")), None);
}

#[test]
fn link_needs_both_link_and_opponent() {
    let rows = vec![
        String::from("<a href=\"/en/event/123456/1234567\">Other Guy</a>"),
        String::from("<a href=\"/en/event/654321/7654321\">Manny Pacquiao</a>"),
    ];
    let lowered = vec![
        String::from("<a href=\"/en/event/123456/1234567\">other guy</a>"),
        String::from("<a href=\"/en/event/654321/7654321\">manny pacquiao</a>"),
    ];
    assert_eq!(
        bout_link_in(&rows, &lowered, &String::from("manny pacquiao")),
        Some(String::from("/en/event/654321/7654321"))
    );
    assert_eq!(bout_link_in(&rows, &lowered, &String::from("nobody")), None);
}
