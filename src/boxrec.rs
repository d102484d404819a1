//! The decisions of the records-site client: pacing requests, reading the
//! site's answers, and what to ask the operator.

use vstd::prelude::*;

use trim_in_place::TrimInPlace;

use crate::page::{elements_view, inners, outers, select, selection, Element};
use crate::score::lemma_run_end_bounds;
use crate::text::{
    texts, chars_of, contains, contains_chars, contains_str, decimal_text, digit_run_end, lower_of,
    occurs_at, occurs_at_exec, parse_u32, to_lower, trimmed, u32_of_text, u32_text,
};

verus! {

/// When the next request may go out: at once if none went before,
/// otherwise no sooner than the delay after the previous one.
pub open spec fn next_send(last_sent: Option<int>, delay: int, now: int) -> int {
    match last_sent {
        None => now,
        Some(t) => if now >= t + delay {
            now
        } else {
            t + delay
        },
    }
}

/// A recorded send time, as an integer.
pub open spec fn time_of(t: Option<u64>) -> Option<int> {
    match t {
        None => None,
        Some(v) => Some(v as int),
    }
}

/// The send times of a run of requests asked for at times `nows`, starting
/// with none sent.
pub open spec fn send_times(delay: int, nows: Seq<int>) -> Seq<int>
    decreases nows.len(),
{
    if nows.len() == 0 {
        Seq::empty()
    } else {
        let prev = send_times(delay, nows.drop_last());
        let last = if prev.len() == 0 { None } else { Some(prev.last()) };
        prev.push(next_send(last, delay, nows.last()))
    }
}

/// Across any run of requests, each goes out at least the delay after the
/// one before it, and none before it was asked for.
pub proof fn lemma_throttle_gaps(delay: int, nows: Seq<int>)
    ensures
        send_times(delay, nows).len() == nows.len(),
        forall|i: int| 0 <= i < nows.len() ==> nows[i] <= #[trigger] send_times(delay, nows)[i],
        forall|i: int|
            0 <= i && i + 1 < nows.len() ==> #[trigger] send_times(delay, nows)[i + 1] >= send_times(
                delay,
                nows,
            )[i] + delay,
    decreases nows.len(),
{
    if nows.len() > 0 {
        let init = nows.drop_last();
        lemma_throttle_gaps(delay, init);
        let prev = send_times(delay, init);
        let times = send_times(delay, nows);
        assert forall|i: int| 0 <= i < nows.len() implies nows[i] <= #[trigger] times[i] by {
            if i < init.len() {
                assert(times[i] == prev[i]);
                assert(init[i] == nows[i]);
            }
        }
        assert forall|i: int| 0 <= i && i + 1 < nows.len() implies #[trigger] times[i + 1] >= times[i] + delay by {
            if i + 1 < init.len() {
                assert(times[i + 1] == prev[i + 1]);
                assert(times[i] == prev[i]);
            } else {
                assert(times[i] == prev[i]);
                assert(prev.last() == prev[i]);
            }
        }
    }
}

/// Paces requests to the records site: each goes out at least a fixed
/// delay after the one before, counted from when that one was sent.
#[derive(Clone, Copy, Debug)]
pub struct Throttle {
    request_delay: u64,
    last_sent: Option<u64>,
}

impl Throttle {
    pub closed spec fn delay(&self) -> u64 {
        self.request_delay
    }

    pub closed spec fn last(&self) -> Option<u64> {
        self.last_sent
    }

    /// A throttle with a delay of `request_delay` milliseconds, before any
    /// request.
    pub fn new(request_delay: u64) -> (r: Throttle)
        ensures
            r.delay() == request_delay,
            r.last() is None,
    {
        Throttle { request_delay, last_sent: None }
    }

    /// At time `now`, in milliseconds, how long to wait before sending; the
    /// send time it gives is recorded as the latest.
    pub fn wait_if_needed(&mut self, now: u64) -> (wait: u64)
        requires
            now + old(self).delay() <= u64::MAX,
            old(self).last() matches Some(t) ==> t + old(self).delay() <= u64::MAX,
        ensures
            now + wait == next_send(time_of(old(self).last()), old(self).delay() as int, now as int),
            final(self).last() == Some((now + wait) as u64),
            final(self).delay() == old(self).delay(),
            now + wait >= now,
            old(self).last() matches Some(t) ==> now + wait >= t + old(self).delay(),
    {
        let wait = match self.last_sent {
            None => 0,
            Some(t) => if now >= t + self.request_delay {
                0
            } else {
                t + self.request_delay - now
            },
        };
        self.last_sent = Some(now + wait);
        wait
    }
}

/// How the site answered a request.
#[derive(Clone, Copy, Debug, PartialEq, Eq, Structural)]
pub enum Answer {
    /// The site sent us to its login page: the session was lost.
    LoggedOut,
    /// The site asks for a CAPTCHA to be solved first.
    Captcha,
    /// A normal page.
    Page,
}

/// The text of the site's CAPTCHA challenge.
pub open spec fn captcha_marker() -> Seq<char> {
    "Please complete the form below to continue..."@
}

/// What marks a URL of the site's login page.
pub open spec fn login_marker() -> Seq<char> {
    "login"@
}

/// The path of the site's login form.
pub open spec fn login_path() -> Seq<char> {
    "/en/login"@
}

/// How an answer reads: landing on a URL with `login` in it means the
/// session was lost; a body with the CAPTCHA text means a challenge;
/// anything else is a page.
pub open spec fn answer_of(url: Seq<char>, body: Seq<char>) -> Answer {
    if contains(url, login_marker()) {
        Answer::LoggedOut
    } else if contains(body, captcha_marker()) {
        Answer::Captcha
    } else {
        Answer::Page
    }
}

/// Reads the site's answer from the URL it ended on and the body it sent.
pub fn classify_answer(url: &str, body: &str) -> (r: Answer)
    ensures
        r == answer_of(url@, body@),
{
    if contains_str(url, "login") {
        Answer::LoggedOut
    } else if contains_str(body, "Please complete the form below to continue...") {
        Answer::Captcha
    } else {
        Answer::Page
    }
}

/// Whether a login worked: the URL that the form's answer ended on is not
/// on the login path.
pub fn login_succeeded(final_url: &str) -> (r: bool)
    ensures
        r == !contains(final_url@, login_path()),
{
    !contains_str(final_url, "/en/login")
}

/// Which credentials the operator must type: the username when none is
/// configured, and the password when it is missing or the username was.
pub fn prompts_needed(has_username: bool, has_password: bool) -> (r: (bool, bool))
    ensures
        r == (!has_username, !has_username || !has_password),
{
    (!has_username, !has_username || !has_password)
}

/// Relies on `TrimInPlace::trim_in_place` of the trim-in-place crate, which
/// keeps what `str::trim` gives.
#[verifier::external_body]
fn trim_input(s: &mut String)
    ensures
        final(s)@ == trimmed(old(s)@),
{
    s.trim_in_place();
}

/// A line the operator typed, without white space at its ends.
pub fn clean_input(raw: String) -> (r: String)
    ensures
        r@ == trimmed(raw@),
{
    let mut s = raw;
    trim_input(&mut s);
    s
}

/// Whether the operator's line says to go on after solving a CAPTCHA: it is
/// `go` in any case, white space aside.
pub fn operator_continues(raw: String) -> (r: bool)
    ensures
        r == (lower_of(trimmed(raw@)) == "go"@),
{
    let s = clean_input(raw);
    let l = to_lower(s.as_str());
    let go = String::from_str("go");
    l == go
}

/// The index, from zero, that the operator picked among `count` numbered
/// choices: the line must be a number from one to `count`.
pub fn parse_choice(raw: String, count: usize) -> (r: Option<usize>)
    ensures
        r == (match u32_of_text(trimmed(raw@)) {
            Some(n) => if 1 <= n <= count {
                Some((n - 1) as usize)
            } else {
                None
            },
            None => None,
        }),
{
    let s = clean_input(raw);
    let cs = chars_of(s.as_str());
    assert(cs@.subrange(0, cs@.len() as int) =~= cs@);
    match parse_u32(&cs, 0, cs.len()) {
        Some(n) => if 1 <= n as usize && n as usize <= count {
            Some((n - 1) as usize)
        } else {
            None
        },
        None => None,
    }
}


/// Why a search for a fighter gave no id.
#[derive(Clone, Copy, Debug, PartialEq, Eq, Structural)]
pub enum SearchError {
    /// The search found no one.
    NoResults,
    /// The operator picked none of the candidates.
    NoSelection,
    /// The chosen result carries no id of three or more digits that fits a
    /// `u32`.
    NoId,
}

/// Where a search for a fighter leads.
#[derive(Debug)]
pub enum SearchOutcome {
    /// The fighter's id.
    Found(u32),
    /// No result matches the name exactly: the operator must pick among
    /// these names, numbered from one.
    Choose(Vec<String>),
}

/// Why no results page of a bout could be found.
#[derive(Clone, Copy, Debug, PartialEq, Eq, Structural)]
pub enum BoutPageError {
    /// The fighter has no scheduled bouts.
    NoUpcomingBout,
    /// None of the scheduled bouts is against the opponent.
    NoMatchingOpponent,
}

/// The selector of the links of a search's results.
pub open spec fn person_link_selector() -> Seq<char> {
    "a.personLink"@
}

/// The selector of the rows of a fighter's scheduled bouts.
pub open spec fn schedule_row_selector() -> Seq<char> {
    ".scheduleRow"@
}

/// The first run of three or more digits at or after `i`.
pub open spec fn id_span_from(s: Seq<char>, i: int) -> Option<(int, int)>
    decreases s.len() - i,
    via id_span_from_decreases
{
    if i < 0 || i >= s.len() {
        None
    } else if digit_run_end(s, i) - i >= 3 {
        Some((i, digit_run_end(s, i)))
    } else if digit_run_end(s, i) > i {
        id_span_from(s, digit_run_end(s, i))
    } else {
        id_span_from(s, i + 1)
    }
}

#[via_fn]
proof fn id_span_from_decreases(s: Seq<char>, i: int) {
    if 0 <= i < s.len() {
        lemma_run_end_bounds(s, i);
    }
}

/// The id in a result's HTML: its first run of three or more digits, read
/// as a `u32`.
pub open spec fn id_in(s: Seq<char>) -> Option<u32> {
    match id_span_from(s, 0) {
        Some((i, e)) => u32_of_text(s.subrange(i, e)),
        None => None,
    }
}

/// The name that a result must have to match a search exactly.
pub open spec fn wanted_name(forename: Seq<char>, surname: Seq<char>) -> Seq<char> {
    lower_of(forename) + seq![' '] + lower_of(surname)
}

/// Each text in lower case.
pub open spec fn lower_all(s: Seq<Seq<char>>) -> Seq<Seq<char>> {
    s.map_values(|x: Seq<char>| lower_of(x))
}

/// The first position at or after `i` that holds `w`, or the length.
pub open spec fn first_equal(s: Seq<Seq<char>>, w: Seq<char>, i: int) -> int
    decreases s.len() - i,
{
    if i < 0 || i >= s.len() {
        s.len() as int
    } else if s[i] == w {
        i
    } else {
        first_equal(s, w, i + 1)
    }
}

/// Which result a search settles on by itself, from the results' names in
/// lower case: the first that is the wanted name, else a lone result.
pub open spec fn pick_of(lowered: Seq<Seq<char>>, wanted: Seq<char>) -> Option<int> {
    let k = first_equal(lowered, wanted, 0);
    if k < lowered.len() {
        Some(k)
    } else if lowered.len() == 1 {
        Some(0)
    } else {
        None
    }
}

/// Where a search with these results leads: no results is an error; a
/// result whose name matches exactly, or a lone result, gives its id; else
/// the operator must choose.
pub open spec fn search_outcome_of(
    results: Seq<(Seq<char>, Seq<char>)>,
    forename: Seq<char>,
    surname: Seq<char>,
) -> Result<Option<u32>, SearchError> {
    if results.len() == 0 {
        Err(SearchError::NoResults)
    } else {
        match pick_of(lower_all(inners(results)), wanted_name(forename, surname)) {
            Some(k) => match id_in(results[k].1) {
                Some(id) => Ok(Some(id)),
                None => Err(SearchError::NoId),
            },
            None => Ok(None),
        }
    }
}

/// The results of a search page.
pub open spec fn search_results(page: Seq<char>) -> Seq<(Seq<char>, Seq<char>)> {
    match selection(page, person_link_selector()) {
        Some(els) => els,
        None => Seq::empty(),
    }
}

/// The first run of three or more digits in `s`.
fn id_span(s: &Vec<char>) -> (r: Option<(usize, usize)>)
    ensures
        match r {
            Some((i, e)) => id_span_from(s@, 0) == Some((i as int, e as int)) && i <= e <= s@.len(),
            None => id_span_from(s@, 0) is None,
        },
{
    let mut i: usize = 0;
    while i < s.len()
        invariant
            i <= s@.len(),
            id_span_from(s@, 0) == id_span_from(s@, i as int),
        decreases s.len() - i,
    {
        let e = crate::score::run_end(s, i);
        if e - i >= 3 {
            return Some((i, e));
        } else if e > i {
            i = e;
        } else {
            i = i + 1;
        }
    }
    None
}

/// The id in a result's HTML.
pub fn id_of(html: &str) -> (r: Option<u32>)
    ensures
        r == id_in(html@),
{
    let s = chars_of(html);
    match id_span(&s) {
        Some((i, e)) => parse_u32(&s, i, e),
        None => None,
    }
}

/// The elements of a page that a selector picks, or none where it is not
/// valid.
fn select_all(page: &str, selector: &str) -> (r: Vec<Element>)
    ensures
        elements_view(r@) == match selection(page@, selector@) {
            Some(els) => els,
            None => Seq::empty(),
        },
{
    match select(page, selector) {
        Some(v) => v,
        None => {
            let v: Vec<Element> = Vec::new();
            assert(elements_view(v@) =~= Seq::<(Seq<char>, Seq<char>)>::empty());
            v
        },
    }
}

/// Which result a search settles on by itself, from the results' names in
/// lower case: the first that equals `wanted`, else the only one; none
/// where the operator must choose.
pub fn pick_result(lowered: &Vec<String>, wanted: &String) -> (r: Option<usize>)
    ensures
        match pick_of(texts(lowered@), wanted@) {
            Some(k) => r matches Some(j) && j == k,
            None => r is None,
        },
        r matches Some(k) ==> k < lowered@.len(),
{
    let ghost ls = texts(lowered@);
    let mut i: usize = 0;
    while i < lowered.len()
        invariant
            i <= lowered@.len() == ls.len(),
            ls == texts(lowered@),
            first_equal(ls, wanted@, 0) == first_equal(ls, wanted@, i as int),
        decreases lowered.len() - i,
    {
        assert(ls[i as int] == lowered@[i as int]@);
        if lowered[i] == *wanted {
            return Some(i);
        }
        i = i + 1;
    }
    if lowered.len() == 1 {
        Some(0)
    } else {
        None
    }
}

/// Decides where a search for `forename surname` leads, from the page of
/// its results: no results is an error; the result that `pick_result`
/// settles on, with the names in lower case, gives its id; otherwise the
/// names of the results come back for the operator to choose from.
pub fn search_outcome(page: &str, forename: &str, surname: &str) -> (r: Result<SearchOutcome, SearchError>)
    ensures
        match search_outcome_of(search_results(page@), forename@, surname@) {
            Err(e) => r == Err::<SearchOutcome, SearchError>(e),
            Ok(Some(id)) => r matches Ok(SearchOutcome::Found(f)) && f == id,
            Ok(None) => r matches Ok(SearchOutcome::Choose(names)) && texts(names@) == inners(search_results(page@)),
        },
{
    let results = select_all(page, "a.personLink");
    let ghost rs = elements_view(results@);
    if results.len() == 0 {
        return Err(SearchError::NoResults);
    }
    let mut wanted = to_lower(forename);
    let sp = " ";
    proof {
        reveal_strlit(" ");
    }
    wanted.append(sp);
    let sur = to_lower(surname);
    wanted.append(sur.as_str());
    let mut lowered: Vec<String> = Vec::new();
    let mut names: Vec<String> = Vec::new();
    let mut i: usize = 0;
    while i < results.len()
        invariant
            i <= results@.len() == rs.len(),
            rs == elements_view(results@),
            rs == search_results(page@),
            wanted@ == wanted_name(forename@, surname@),
            texts(lowered@) == lower_all(inners(rs)).take(i as int),
            texts(names@) == inners(rs).take(i as int),
        decreases results.len() - i,
    {
        let ghost prev_l = lowered@;
        let ghost prev_n = names@;
        lowered.push(to_lower(results[i].inner.as_str()));
        names.push(results[i].inner.clone());
        assert(texts(lowered@) =~= texts(prev_l).push(
            lower_of(rs[i as int].0),
        ));
        assert(texts(names@) =~= texts(prev_n).push(rs[i as int].0));
        assert(texts(lowered@) =~= lower_all(inners(rs)).take(i + 1));
        assert(texts(names@) =~= inners(rs).take(i + 1));
        i = i + 1;
    }
    assert(lower_all(inners(rs)).take(i as int) =~= lower_all(inners(rs)));
    assert(inners(rs).take(i as int) =~= inners(rs));
    assert(texts(lowered@) == lower_all(inners(rs)));
    assert(texts(names@) == inners(rs));
    assert(search_outcome_of(rs, forename@, surname@) == match pick_of(texts(lowered@), wanted@) {
        Some(k) => match id_in(rs[k].1) {
            Some(id) => Ok(Some(id)),
            None => Err(SearchError::NoId),
        },
        None => Ok(None),
    });
    match pick_result(&lowered, &wanted) {
        Some(k) => {
            assert(rs[k as int] == results@[k as int].view_pair());
            match id_of(results[k].outer.as_str()) {
                Some(id) => Ok(SearchOutcome::Found(id)),
                None => Err(SearchError::NoId),
            }
        },
        None => Ok(SearchOutcome::Choose(names)),
    }
}

/// The id of the result the operator picked, by its index from zero among
/// the results of the search page.
pub fn chosen_id(page: &str, choice: usize) -> (r: Result<u32, SearchError>)
    ensures
        r == (if choice < search_results(page@).len() {
            match id_in(search_results(page@)[choice as int].1) {
                Some(id) => Ok(id),
                None => Err(SearchError::NoId),
            }
        } else {
            Err(SearchError::NoSelection)
        }),
{
    let results = select_all(page, "a.personLink");
    if choice >= results.len() {
        return Err(SearchError::NoSelection);
    }
    assert(elements_view(results@)[choice as int] == results@[choice as int].view_pair());
    match id_of(results[choice].outer.as_str()) {
        Some(id) => Ok(id),
        None => Err(SearchError::NoId),
    }
}

/// A link to a bout's page starts at `i`: `/en/event/`, six or more
/// digits, a slash, seven or more digits.
pub open spec fn link_at(s: Seq<char>, i: int) -> bool {
    let a = i + 10;
    let k = digit_run_end(s, a);
    &&& occurs_at(s, "/en/event/"@, i)
    &&& k - a >= 6
    &&& k < s.len()
    &&& s[k] == '/'
    &&& digit_run_end(s, k + 1) - (k + 1) >= 7
}

/// The first link to a bout's page at or after `i`.
pub open spec fn link_from(s: Seq<char>, i: int) -> Option<Seq<char>>
    decreases s.len() - i,
{
    if i < 0 || i >= s.len() {
        None
    } else if link_at(s, i) {
        Some(s.subrange(i, digit_run_end(s, digit_run_end(s, i + 10) + 1)))
    } else {
        link_from(s, i + 1)
    }
}

/// The link of the first scheduled bout that has one and whose row, in
/// lower case, mentions `opponent`.
pub open spec fn link_in(rows: Seq<Seq<char>>, lowered: Seq<Seq<char>>, opponent: Seq<char>) -> Option<
    Seq<char>,
>
    decreases rows.len(),
{
    if rows.len() == 0 || lowered.len() == 0 {
        None
    } else if link_from(rows[0], 0) is Some && contains(lowered[0], opponent) {
        link_from(rows[0], 0)
    } else {
        link_in(rows.drop_first(), lowered.drop_first(), opponent)
    }
}

/// The address of a page of the site, from its path.
pub open spec fn site_url(path: Seq<char>) -> Seq<char> {
    "https://boxrec.com"@ + path
}

/// Where the results page of a bout against `opponent` is, on the page of
/// a fighter.
pub open spec fn bout_url_on_page(page: Seq<char>, opponent: Seq<char>) -> Result<Seq<char>, BoutPageError> {
    let rows = outers(
        match selection(page, schedule_row_selector()) {
            Some(els) => els,
            None => Seq::empty(),
        },
    );
    if rows.len() == 0 {
        Err(BoutPageError::NoUpcomingBout)
    } else {
        match link_in(rows, lower_all(rows), lower_of(opponent)) {
            Some(link) => Ok(site_url(link)),
            None => Err(BoutPageError::NoMatchingOpponent),
        }
    }
}

/// The first link to a bout's page in `s`.
fn find_link(s: &Vec<char>) -> (r: Option<(usize, usize)>)
    ensures
        match r {
            Some((i, e)) => i <= e <= s@.len() && link_from(s@, 0) == Some(s@.subrange(i as int, e as int)),
            None => link_from(s@, 0) is None,
        },
{
    let prefix = chars_of("/en/event/");
    proof {
        reveal_strlit("/en/event/");
    }
    let mut i: usize = 0;
    while i < s.len()
        invariant
            i <= s@.len(),
            prefix@ == "/en/event/"@,
            prefix@.len() == 10,
            link_from(s@, 0) == link_from(s@, i as int),
        decreases s.len() - i,
    {
        if occurs_at_exec(s, &prefix, i) {
            let a = i + 10;
            let k = crate::score::run_end(s, a);
            if k - a >= 6 && k < s.len() && s[k] == '/' {
                let e = crate::score::run_end(s, k + 1);
                if e - (k + 1) >= 7 {
                    return Some((i, e));
                }
            }
        }
        i = i + 1;
    }
    None
}

/// The link of the first scheduled bout whose row has a link to a bout's
/// page and whose row in lower case, from `lowered`, mentions `opponent`.
pub fn bout_link_in(rows: &Vec<String>, lowered: &Vec<String>, opponent: &String) -> (r: Option<String>)
    ensures
        match link_in(texts(rows@), texts(lowered@), opponent@) {
            Some(link) => r matches Some(l) && l@ == link,
            None => r is None,
        },
{
    let ghost rs = texts(rows@);
    let ghost ls = texts(lowered@);
    let opp = chars_of(opponent.as_str());
    let mut i: usize = 0;
    assert(rs.subrange(0, rs.len() as int) =~= rs);
    assert(ls.subrange(0, ls.len() as int) =~= ls);
    while i < rows.len() && i < lowered.len()
        invariant
            i <= rows@.len() == rs.len(),
            i <= lowered@.len() == ls.len(),
            rs == texts(rows@),
            ls == texts(lowered@),
            opp@ == opponent@,
            link_in(rs, ls, opponent@) == link_in(
                rs.subrange(i as int, rs.len() as int),
                ls.subrange(i as int, ls.len() as int),
                opponent@,
            ),
        decreases rows.len() - i,
    {
        let row = chars_of(rows[i].as_str());
        assert(rs[i as int] == row@);
        assert(rs.subrange(i as int, rs.len() as int).drop_first() =~= rs.subrange(i + 1, rs.len() as int));
        assert(ls.subrange(i as int, ls.len() as int).drop_first() =~= ls.subrange(i + 1, ls.len() as int));
        assert(rs.subrange(i as int, rs.len() as int)[0] == rs[i as int]);
        assert(ls.subrange(i as int, ls.len() as int)[0] == ls[i as int]);
        match find_link(&row) {
            Some((a, e)) => {
                let lr = chars_of(lowered[i].as_str());
                assert(ls[i as int] == lr@);
                if contains_chars(&lr, &opp) {
                    assert(link_in(
                        rs.subrange(i as int, rs.len() as int),
                        ls.subrange(i as int, ls.len() as int),
                        opponent@,
                    ) == link_from(rs[i as int], 0));
                    return Some(String::from_str(rows[i].as_str().substring_char(a, e)));
                }
            },
            None => {},
        }
        i = i + 1;
    }
    assert(link_in(rs.subrange(i as int, rs.len() as int), ls.subrange(i as int, ls.len() as int), opponent@)
        is None);
    None
}

/// Finds, on a fighter's page, the address of the results page of the bout
/// against `opponent`: the first scheduled bout whose row has a link to a
/// bout's page and mentions the opponent's name, case aside.
pub fn find_bout_url(page: &str, opponent: &str) -> (r: Result<String, BoutPageError>)
    ensures
        match bout_url_on_page(page@, opponent@) {
            Ok(url) => r matches Ok(u) && u@ == url,
            Err(e) => r == Err::<String, BoutPageError>(e),
        },
{
    let els = select_all(page, ".scheduleRow");
    let ghost es = elements_view(els@);
    if els.len() == 0 {
        return Err(BoutPageError::NoUpcomingBout);
    }
    let mut rows: Vec<String> = Vec::new();
    let mut lowered: Vec<String> = Vec::new();
    let mut i: usize = 0;
    while i < els.len()
        invariant
            i <= els@.len() == es.len(),
            es == elements_view(els@),
            texts(rows@) == outers(es).take(i as int),
            texts(lowered@) == lower_all(outers(es)).take(i as int),
        decreases els.len() - i,
    {
        let ghost prev_r = rows@;
        let ghost prev_l = lowered@;
        rows.push(els[i].outer.clone());
        lowered.push(to_lower(els[i].outer.as_str()));
        assert(texts(rows@) =~= texts(prev_r).push(es[i as int].1));
        assert(texts(lowered@) =~= texts(prev_l).push(
            lower_of(es[i as int].1),
        ));
        assert(texts(rows@) =~= outers(es).take(i + 1));
        assert(texts(lowered@) =~= lower_all(outers(es)).take(i + 1));
        i = i + 1;
    }
    assert(outers(es).take(i as int) =~= outers(es));
    assert(lower_all(outers(es)).take(i as int) =~= lower_all(outers(es)));
    let opp = to_lower(opponent);
    match bout_link_in(&rows, &lowered, &opp) {
        Some(link) => {
            let mut url = String::from_str("https://boxrec.com");
            url.append(link.as_str());
            Ok(url)
        },
        None => Err(BoutPageError::NoMatchingOpponent),
    }
}

/// The address of a fighter's page on the site.
pub fn boxer_url(id: u32) -> (r: String)
    ensures
        r@ == site_url("/en/proboxer/"@ + decimal_text(id as nat)),
{
    let mut url = String::from_str("https://boxrec.com");
    url.append("/en/proboxer/");
    let n = u32_text(id);
    url.append(n.as_str());
    proof {
        assert(url@ =~= site_url("/en/proboxer/"@ + decimal_text(id as nat)));
    }
    url
}

/// The address of the site's search for a fighter, names in lower case;
/// `active_only` keeps to fighters still active.
pub fn search_url(forename: &str, surname: &str, active_only: bool) -> (r: String)
    ensures
        r@ == site_url(
            "/en/search?p[first_name]="@ + lower_of(forename@) + "&p[last_name]="@ + lower_of(
                surname@,
            ) + "&p[role]=fighters&p[status]="@ + (if active_only { "a"@ } else { ""@ })
                + "&pf_go=go&p[orderBy]=&p[orderDir]=ASC"@,
        ),
{
    let mut url = String::from_str("https://boxrec.com");
    url.append("/en/search?p[first_name]=");
    let f = to_lower(forename);
    url.append(f.as_str());
    url.append("&p[last_name]=");
    let s = to_lower(surname);
    url.append(s.as_str());
    url.append("&p[role]=fighters&p[status]=");
    if active_only {
        url.append("a");
    } else {
        url.append("");
    }
    url.append("&pf_go=go&p[orderBy]=&p[orderDir]=ASC");
    proof {
        assert(url@ =~= site_url(
            "/en/search?p[first_name]="@ + lower_of(forename@) + "&p[last_name]="@ + lower_of(
                surname@,
            ) + "&p[role]=fighters&p[status]="@ + (if active_only { "a"@ } else { ""@ })
                + "&pf_go=go&p[orderBy]=&p[orderDir]=ASC"@,
        ));
    }
    url
}

} // verus!
