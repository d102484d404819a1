//! Fighters as the records site knows them, and splitting display names.

use vstd::prelude::*;

use crate::page::{elements_view, inners, select, selection};
use crate::text::{chars_of, is_white_space, texts, trim, trimmed, white_space};

verus! {

/// A fighter on the records site: its stable id and its name.
#[derive(Clone, Debug)]
pub struct Boxer {
    pub id: u32,
    pub forename: String,
    pub surname: String,
}

/// A display name without white space, so with no surname to split off.
#[derive(Clone, Debug)]
pub struct MalformedName {
    pub name: String,
}

impl PartialEq for Boxer {
    /// Two fighters are the same when their ids are.
    fn eq(&self, other: &Boxer) -> (r: bool) {
        self.id == other.id
    }
}

impl vstd::std_specs::cmp::PartialEqSpecImpl for Boxer {
    open spec fn obeys_eq_spec() -> bool {
        true
    }

    open spec fn eq_spec(&self, other: &Boxer) -> bool {
        self.id == other.id
    }
}

/// The full name: forename, a space, surname.
pub open spec fn full_name(forename: Seq<char>, surname: Seq<char>) -> Seq<char> {
    forename + seq![' '] + surname
}

/// The first position at or after `i` that holds white space, or the
/// length.
pub open spec fn white_from(s: Seq<char>, i: int) -> int
    decreases s.len() - i,
{
    if i < 0 || i >= s.len() {
        s.len() as int
    } else if is_white_space(s[i]) {
        i
    } else {
        white_from(s, i + 1)
    }
}

/// How a display name splits: the forename is what comes before the first
/// white space, the surname the rest, each without white space at its ends.
pub open spec fn split_of(name: Seq<char>) -> Option<(Seq<char>, Seq<char>)> {
    let i = white_from(name, 0);
    if i < name.len() {
        Some((trimmed(name.subrange(0, i)), trimmed(name.subrange(i, name.len() as int))))
    } else {
        None
    }
}

/// The prefix of the title of a fighter's page, before the fighter's name.
pub open spec fn title_prefix() -> Seq<char> {
    seq!['B', 'o', 'x', 'R', 'e', 'c', ':', ' ']
}

/// The name in the first title that starts with the prefix of a fighter's
/// page, after that prefix.
pub open spec fn name_in_titles(titles: Seq<Seq<char>>) -> Option<Seq<char>>
    decreases titles.len(),
{
    if titles.len() == 0 {
        None
    } else if titles[0].len() >= 8 && titles[0].subrange(0, 8) == title_prefix() {
        Some(titles[0].subrange(8, titles[0].len() as int))
    } else {
        name_in_titles(titles.drop_first())
    }
}

/// The fighter with id `id` whose page is `page`: the name comes from the
/// page's title.
pub open spec fn boxer_on_page(page: Seq<char>, id: u32) -> Option<(u32, Seq<char>, Seq<char>)> {
    match selection(page, seq!['t', 'i', 't', 'l', 'e']) {
        None => None,
        Some(els) => match name_in_titles(inners(els)) {
            None => None,
            Some(name) => match split_of(name) {
                None => None,
                Some((f, s)) => Some((id, f, s)),
            },
        },
    }
}

/// A fighter as plain values: id, forename, surname.
pub type BoxerView = (u32, Seq<char>, Seq<char>);

impl Boxer {
    pub open spec fn view_tuple(&self) -> BoxerView {
        (self.id, self.forename@, self.surname@)
    }

    pub open spec fn name_view(&self) -> Seq<char> {
        full_name(self.forename@, self.surname@)
    }

    /// The full name, forename first.
    pub fn get_name(&self) -> (r: String)
        ensures
            r@ == self.name_view(),
    {
        let mut s = self.forename.clone();
        let sp = " ";
        proof {
            reveal_strlit(" ");
        }
        s.append(sp);
        s.append(self.surname.as_str());
        s
    }

    /// A field-for-field copy.
    pub fn duplicate(&self) -> (r: Boxer)
        ensures
            r == *self,
    {
        Boxer { id: self.id, forename: self.forename.clone(), surname: self.surname.clone() }
    }

    /// Builds the fighter with id `id` from the titles of its page: the
    /// name is in the first title that reads `BoxRec: <name>`, and must split
    /// into forename and surname.
    pub fn from_titles(titles: &Vec<String>, id: u32) -> (r: Option<Boxer>)
        ensures
            match r {
                Some(b) => match name_in_titles(texts(titles@)) {
                    Some(name) => split_of(name) == Some((b.forename@, b.surname@)) && b.id == id,
                    None => false,
                },
                None => match name_in_titles(texts(titles@)) {
                    Some(name) => split_of(name) is None,
                    None => true,
                },
            },
    {
        let ghost ts = texts(titles@);
        let prefix = chars_of("BoxRec: ");
        proof {
            reveal_strlit("BoxRec: ");
            assert(prefix@ =~= title_prefix());
        }
        let mut i: usize = 0;
        assert(ts.subrange(0, ts.len() as int) =~= ts);
        while i < titles.len()
            invariant
                i <= titles@.len() == ts.len(),
                ts == texts(titles@),
                prefix@ == title_prefix(),
                name_in_titles(ts) == name_in_titles(ts.subrange(i as int, ts.len() as int)),
            decreases titles.len() - i,
        {
            let t = chars_of(titles[i].as_str());
            assert(ts[i as int] == t@);
            assert(ts.subrange(i as int, ts.len() as int).drop_first() =~= ts.subrange(
                i + 1,
                ts.len() as int,
            ));
            if t.len() >= 8 && crate::text::occurs_at_exec(&t, &prefix, 0) {
                assert(t@.subrange(0, 8) == title_prefix());
                assert(ts.subrange(i as int, ts.len() as int)[0] == t@);
                assert(name_in_titles(ts) == Some(t@.subrange(8, t@.len() as int)));
                let rest = titles[i].as_str().substring_char(8, t.len());
                return match split_name(rest) {
                    Ok((forename, surname)) => Some(Boxer { id, forename, surname }),
                    Err(_) => None,
                };
            }
            proof {
                if t@.len() >= 8 && t@.subrange(0, 8) == title_prefix() {
                    assert(crate::text::occurs_at(t@, prefix@, 0));
                }
            }
            i = i + 1;
        }
        None
    }

    /// Builds the fighter with id `id` from its page on the records site,
    /// as `from_titles` does with the page's titles.
    pub fn new_by_id(page: &str, id: u32) -> (r: Option<Boxer>)
        ensures
            match r {
                Some(b) => boxer_on_page(page@, id) == Some((b.id, b.forename@, b.surname@)),
                None => boxer_on_page(page@, id) is None,
            },
    {
        let sel = "title";
        proof {
            reveal_strlit("title");
            assert(sel@ =~= seq!['t', 'i', 't', 'l', 'e']);
        }
        let els = match select(page, sel) {
            Some(v) => v,
            None => {
                return None;
            },
        };
        let mut titles: Vec<String> = Vec::new();
        let mut i: usize = 0;
        while i < els.len()
            invariant
                i <= els@.len(),
                texts(titles@) == inners(elements_view(els@)).take(i as int),
            decreases els.len() - i,
        {
            let ghost prev = titles@;
            titles.push(els[i].inner.clone());
            assert(texts(titles@) =~= texts(prev).push(
                els@[i as int].inner@,
            ));
            assert(texts(titles@) =~= inners(elements_view(els@)).take(i + 1));
            i = i + 1;
        }
        assert(inners(elements_view(els@)).take(i as int) =~= inners(elements_view(els@)));
        Boxer::from_titles(&titles, id)
    }
}

/// Splits a display name into forename and surname at its first white
/// space; the surname is everything after it. Each part loses the white
/// space at its ends. A name without white space is malformed.
pub fn split_name(name: &str) -> (r: Result<(String, String), MalformedName>)
    ensures
        match r {
            Ok((f, s)) => split_of(name@) == Some((f@, s@)),
            Err(e) => split_of(name@) is None && e.name@ == name@,
        },
{
    let cs = chars_of(name);
    let mut i: usize = 0;
    while i < cs.len()
        invariant
            i <= cs@.len(),
            cs@ == name@,
            white_from(cs@, 0) == white_from(cs@, i as int),
        decreases cs.len() - i,
    {
        if white_space(cs[i]) {
            let forename = trim(name.substring_char(0, i));
            let surname = trim(name.substring_char(i, cs.len()));
            return Ok((forename, surname));
        }
        i = i + 1;
    }
    Err(MalformedName { name: String::from_str(name) })
}

} // verus!
