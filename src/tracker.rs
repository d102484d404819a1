//! The per-bout state machine: which bouts are tracked, how far each has got,
//! and the index of fighters found so far.

use vstd::prelude::*;

use crate::boxer::{Boxer, BoxerView};
use crate::feed::{Bout, BoutKey};
use crate::boxer::full_name;
use crate::matchup::{scores_notable, scores_ok, Matchup, Thresholds};
use crate::score::{extract_scores, scores_on_page, Decimal, ScoreError};
use crate::text::texts;

verus! {

/// How far a tracked bout has got. It only ever moves forward.
#[derive(Clone, Copy, Debug, PartialEq, Eq, Structural)]
pub enum BoutStatus {
    /// One or both fighters are not yet known on the records site.
    MissingBoxers,
    /// Both fighters are known; the bout's results page is not yet read.
    MissingBoutPage,
    /// Both sides' chances have been compared with the exchange's.
    Checked,
    /// Done: the user was notified, or there was nothing to notify.
    Announced,
}

impl BoutStatus {
    /// The position of the status in the order the stages run.
    pub open spec fn rank(&self) -> nat {
        match self {
            BoutStatus::MissingBoxers => 0,
            BoutStatus::MissingBoutPage => 1,
            BoutStatus::Checked => 2,
            BoutStatus::Announced => 3,
        }
    }

    /// Moves on to the next stage. The last stage has none.
    pub fn next(&mut self)
        requires
            *old(self) != BoutStatus::Announced,
        ensures
            final(self).rank() == old(self).rank() + 1,
    {
        *self = match *self {
            BoutStatus::MissingBoxers => BoutStatus::MissingBoutPage,
            BoutStatus::MissingBoutPage => BoutStatus::Checked,
            _ => BoutStatus::Announced,
        };
    }
}

/// A tracked bout and how far it has got.
#[derive(Debug)]
pub struct BoutMetadata(pub Bout, pub BoutStatus);

/// A tracked bout as plain values.
pub type RecordView = (BoutKey, BoutStatus);

impl BoutMetadata {
    pub open spec fn view_record(&self) -> RecordView {
        (self.0.key(), self.1)
    }
}

/// The records as plain values.
pub open spec fn records_view(v: Seq<BoutMetadata>) -> Seq<RecordView> {
    v.map_values(|m: BoutMetadata| m.view_record())
}

/// Some record tracks the bout `key`.
pub open spec fn tracks(records: Seq<RecordView>, key: BoutKey) -> bool {
    exists|i: int| 0 <= i < records.len() && (#[trigger] records[i]).0 == key
}

/// No two records track the same bout.
pub open spec fn keys_unique(records: Seq<RecordView>) -> bool {
    forall|i: int, j: int|
        0 <= i < records.len() && 0 <= j < records.len() && (#[trigger] records[i]).0 == (
        #[trigger] records[j]).0 ==> i == j
}

/// The records after one listing from the feed: a bout not yet tracked is
/// added with no fighters known; a tracked one changes nothing.
pub open spec fn merge_one(records: Seq<RecordView>, key: BoutKey) -> Seq<RecordView> {
    if tracks(records, key) {
        records
    } else {
        records.push((key, BoutStatus::MissingBoxers))
    }
}

/// The records after the listings of `feed`, taken in order.
pub open spec fn merged(records: Seq<RecordView>, feed: Seq<BoutKey>) -> Seq<RecordView>
    decreases feed.len(),
{
    if feed.len() == 0 {
        records
    } else {
        merge_one(merged(records, feed.drop_last()), feed.last())
    }
}

/// Taking in a listing keeps the records free of duplicates.
pub proof fn lemma_merge_one_unique(records: Seq<RecordView>, key: BoutKey)
    requires
        keys_unique(records),
    ensures
        keys_unique(merge_one(records, key)),
        tracks(merge_one(records, key), key),
{
    if !tracks(records, key) {
        let r = records.push((key, BoutStatus::MissingBoxers));
        assert(r[records.len() as int].0 == key);
    }
}

/// Listing the same bout again, in the same pass or a later one, leaves
/// exactly one record of it: after a listing of `key` the bout is tracked
/// once, and a further listing of it changes nothing.
pub proof fn lemma_merge_idempotent(records: Seq<RecordView>, key: BoutKey)
    requires
        keys_unique(records),
    ensures
        merge_one(merge_one(records, key), key) == merge_one(records, key),
        exists|i: int|
            0 <= i < merge_one(records, key).len() && (#[trigger] merge_one(records, key)[i]).0
                == key,
        forall|i: int, j: int|
            0 <= i < merge_one(records, key).len() && 0 <= j < merge_one(records, key).len() && (
            #[trigger] merge_one(records, key)[i]).0 == key && (#[trigger] merge_one(records, key)[j]).0
                == key ==> i == j,
{
    lemma_merge_one_unique(records, key);
}


/// One entry of the fighter index: a display name as the feed gives it, and
/// the fighter it denotes.
#[derive(Debug)]
pub struct IndexEntry {
    pub name: String,
    pub boxer: Boxer,
}

/// An index entry as plain values.
pub type EntryView = (Seq<char>, BoxerView);

impl IndexEntry {
    pub open spec fn view_entry(&self) -> EntryView {
        (self.name@, self.boxer.view_tuple())
    }

    /// A field-for-field copy.
    pub fn duplicate(&self) -> (r: IndexEntry)
        ensures
            r == *self,
    {
        IndexEntry { name: self.name.clone(), boxer: self.boxer.duplicate() }
    }
}

/// The index entries as plain values.
pub open spec fn entries_view(v: Seq<IndexEntry>) -> Seq<EntryView> {
    v.map_values(|e: IndexEntry| e.view_entry())
}

/// The first position at or after `i` of an entry for `name`, or the length.
pub open spec fn position_from(index: Seq<EntryView>, name: Seq<char>, i: int) -> int
    decreases index.len() - i,
{
    if i < 0 || i >= index.len() {
        index.len() as int
    } else if index[i].0 == name {
        i
    } else {
        position_from(index, name, i + 1)
    }
}

/// The position of the entry for `name`, or the length where there is none.
pub open spec fn position(index: Seq<EntryView>, name: Seq<char>) -> int {
    position_from(index, name, 0)
}

/// The fighter that `name` denotes in the index.
pub open spec fn lookup(index: Seq<EntryView>, name: Seq<char>) -> Option<BoxerView> {
    if position(index, name) < index.len() {
        Some(index[position(index, name)].1)
    } else {
        None
    }
}

/// No two entries are for the same name.
pub open spec fn names_unique(index: Seq<EntryView>) -> bool {
    forall|i: int, j: int|
        0 <= i < index.len() && 0 <= j < index.len() && (#[trigger] index[i]).0 == (
        #[trigger] index[j]).0 ==> i == j
}

/// The index after recording `entry`: the entry for its name is replaced,
/// or the entry is added at the end.
pub open spec fn inserted(index: Seq<EntryView>, entry: EntryView) -> Seq<EntryView> {
    let p = position(index, entry.0);
    if p < index.len() {
        index.update(p, entry)
    } else {
        index.push(entry)
    }
}

/// The index after recording `entries` in order.
pub open spec fn inserted_all(index: Seq<EntryView>, entries: Seq<EntryView>) -> Seq<EntryView>
    decreases entries.len(),
{
    if entries.len() == 0 {
        index
    } else {
        inserted(inserted_all(index, entries.drop_last()), entries.last())
    }
}

/// The names of a record that still need looking up.
pub open spec fn to_resolve(index: Seq<EntryView>, record: RecordView) -> Seq<Seq<char>> {
    if record.1 != BoutStatus::MissingBoxers {
        Seq::empty()
    } else {
        let one = record.0.0;
        let two = record.0.1;
        (if lookup(index, one) is None { seq![one] } else { Seq::empty() }) + (if lookup(
            index,
            two,
        ) is None && two != one {
            seq![two]
        } else {
            Seq::empty()
        })
    }
}

/// `after` comes from `before` by tracking more bouts and moving records
/// forward: no record is dropped, changed or sent back a stage.
pub open spec fn progressed(before: Seq<RecordView>, after: Seq<RecordView>) -> bool {
    &&& before.len() <= after.len()
    &&& forall|i: int|
        0 <= i < before.len() ==> (#[trigger] after[i]).0 == before[i].0 && before[i].1.rank()
            <= after[i].1.rank()
}

/// Progress over several steps is progress: a record's status over any run
/// of passes never goes back.
pub proof fn lemma_progress_transitive(a: Seq<RecordView>, b: Seq<RecordView>, c: Seq<RecordView>)
    requires
        progressed(a, b),
        progressed(b, c),
    ensures
        progressed(a, c),
{
    assert forall|i: int| 0 <= i < a.len() implies (#[trigger] c[i]).0 == a[i].0 && a[i].1.rank()
        <= c[i].1.rank() by {
        assert(b[i].0 == a[i].0);
    }
}

proof fn lemma_position_from(index: Seq<EntryView>, name: Seq<char>, i: int)
    requires
        0 <= i <= index.len(),
    ensures
        i <= position_from(index, name, i) <= index.len(),
        position_from(index, name, i) < index.len() ==> index[position_from(index, name, i)].0
            == name,
        forall|j: int| i <= j < position_from(index, name, i) ==> (#[trigger] index[j]).0 != name,
    decreases index.len() - i,
{
    if i < index.len() && index[i].0 != name {
        lemma_position_from(index, name, i + 1);
    }
}

/// Where the entry for `name` stands: it is the first for that name, and
/// where there is none, no entry has that name.
pub proof fn lemma_position(index: Seq<EntryView>, name: Seq<char>)
    ensures
        0 <= position(index, name) <= index.len(),
        position(index, name) < index.len() ==> index[position(index, name)].0 == name,
        forall|j: int| 0 <= j < position(index, name) ==> (#[trigger] index[j]).0 != name,
{
    lemma_position_from(index, name, 0);
}

/// Recording an entry keeps names unique, makes its name denote its
/// fighter, and leaves every other name as it was.
pub proof fn lemma_inserted(index: Seq<EntryView>, entry: EntryView)
    requires
        names_unique(index),
    ensures
        names_unique(inserted(index, entry)),
        lookup(inserted(index, entry), entry.0) == Some(entry.1),
        forall|n: Seq<char>| n != entry.0 ==> #[trigger] lookup(inserted(index, entry), n) == lookup(index, n),
{
    let after = inserted(index, entry);
    lemma_position(index, entry.0);
    lemma_position(after, entry.0);
    let at = position(index, entry.0);
    if at < index.len() {
        assert(after[at].0 == entry.0);
    } else {
        assert(after[index.len() as int].0 == entry.0);
    }
    assert forall|n: Seq<char>| n != entry.0 implies #[trigger] lookup(after, n) == lookup(index, n) by {
        lemma_position(index, n);
        lemma_position(after, n);
        let p = position(index, n);
        let q = position(after, n);
        if p < index.len() {
            assert(after[p].0 == n);
            if q < p {
                assert(after[q] == index[q]);
            }
        } else {
            if q < after.len() {
                assert(after[q].0 == n);
                if q < index.len() {
                    assert(after[q] == index[q]);
                }
            }
        }
    }
}

/// The position of the entry for `name` in `entries`.
fn find_in(entries: &Vec<IndexEntry>, name: &String) -> (r: usize)
    ensures
        r == position(entries_view(entries@), name@),
{
    let ghost v = entries_view(entries@);
    let mut i: usize = 0;
    while i < entries.len()
        invariant
            i <= v.len() == entries@.len(),
            v == entries_view(entries@),
            position(v, name@) == position_from(v, name@, i as int),
        decreases entries.len() - i,
    {
        if entries[i].name == *name {
            return i;
        }
        i = i + 1;
    }
    i
}

/// Records `entry` in `entries`, replacing the entry for its name.
fn insert_entry(entries: &mut Vec<IndexEntry>, entry: IndexEntry)
    ensures
        entries_view(final(entries)@) == inserted(entries_view(old(entries)@), entry.view_entry()),
{
    let ghost before = entries_view(entries@);
    proof {
        lemma_position(before, entry.name@);
    }
    let p = find_in(entries, &entry.name);
    if p < entries.len() {
        entries.set(p, entry);
    } else {
        entries.push(entry);
    }
    assert(entries_view(entries@) =~= inserted(before, entry.view_entry()));
}

/// Why a cache snapshot could not be taken in.
#[derive(Clone, Copy, Debug, PartialEq, Eq, Structural)]
pub enum CacheError {
    /// The snapshot tracks a bout twice, holds odds with a zero
    /// denominator, or has a bout past its first stage whose fighters the
    /// index does not know.
    Inconsistent,
    /// The cache path names a file, not a directory.
    PathConflict,
}

/// What stands at the cache path.
#[derive(Clone, Copy, Debug, PartialEq, Eq, Structural)]
pub enum PathKind {
    Missing,
    Directory,
    File,
}

/// What to do with the cache path before reading: a missing directory is
/// created (`Ok(true)`), an existing one used as it is (`Ok(false)`), and a
/// file in its place is a conflict.
pub fn cache_dir_plan(kind: PathKind) -> (r: Result<bool, CacheError>)
    ensures
        r == (match kind {
            PathKind::Missing => Ok(true),
            PathKind::Directory => Ok(false),
            PathKind::File => Err(CacheError::PathConflict),
        }),
{
    match kind {
        PathKind::Missing => Ok(true),
        PathKind::Directory => Ok(false),
        PathKind::File => Err(CacheError::PathConflict),
    }
}

/// Bouts that can stand beside `index` in a tracker.
pub open spec fn loadable(index: Seq<EntryView>, records: Seq<RecordView>) -> bool {
    &&& keys_unique(records)
    &&& forall|i: int| 0 <= i < records.len() ==> (#[trigger] records[i]).0.2.wf()
    &&& forall|i: int|
        0 <= i < records.len() && (#[trigger] records[i]).1 != BoutStatus::MissingBoxers ==> lookup(
            index,
            records[i].0.0,
        ) is Some && lookup(index, records[i].0.1) is Some
}

proof fn lemma_load_prefix(index: Seq<EntryView>, n: int)
    requires
        names_unique(index),
        0 <= n <= index.len(),
    ensures
        inserted_all(Seq::empty(), index.take(n)) == index.take(n),
    decreases n,
{
    if n > 0 {
        lemma_load_prefix(index, n - 1);
        let prev = index.take(n - 1);
        assert(index.take(n).drop_last() =~= prev);
        assert(index.take(n).last() == index[n - 1]);
        lemma_position(prev, index[n - 1].0);
        if position(prev, index[n - 1].0) < prev.len() {
            let q = position(prev, index[n - 1].0);
            assert(index[q].0 == index[n - 1].0);
        }
        assert(prev.push(index[n - 1]) =~= index.take(n));
    }
}

/// Saving a tracker and loading what was saved into a fresh tracker gives
/// back the same index and the same bouts, field for field: loading the
/// saved entries into an empty index rebuilds the index, and the saved
/// bouts can stand beside it.
pub proof fn lemma_cache_round_trip(index: Seq<EntryView>, records: Seq<RecordView>)
    requires
        names_unique(index),
        loadable(index, records),
    ensures
        inserted_all(Seq::empty(), index) == index,
        loadable(inserted_all(Seq::empty(), index), records),
{
    lemma_load_prefix(index, index.len() as int);
    assert(index.take(index.len() as int) =~= index);
}

/// The tracker: the bouts it follows, the fighters it knows, and its
/// thresholds.
pub struct State {
    bout_metadata: Vec<BoutMetadata>,
    boxers: Vec<IndexEntry>,
    thresholds: Thresholds,
}

impl State {
    /// The tracked bouts, in the order they were first listed.
    pub closed spec fn records(&self) -> Seq<RecordView> {
        records_view(self.bout_metadata@)
    }

    /// The fighter index, in the order of recording.
    pub closed spec fn index(&self) -> Seq<EntryView> {
        entries_view(self.boxers@)
    }

    pub closed spec fn thresholds_view(&self) -> Thresholds {
        self.thresholds
    }

    /// The tracker's invariant: no bout or name twice, odds that convert,
    /// and both fighters known for every bout past the first stage.
    pub closed spec fn wf(&self) -> bool {
        &&& self.thresholds.wf()
        &&& keys_unique(self.records())
        &&& names_unique(self.index())
        &&& forall|i: int| 0 <= i < self.records().len() ==> (#[trigger] self.records()[i]).0.2.wf()
        &&& forall|i: int|
            0 <= i < self.records().len() && (#[trigger] self.records()[i]).1
                != BoutStatus::MissingBoxers ==> lookup(self.index(), self.records()[i].0.0) is Some
                && lookup(self.index(), self.records()[i].0.1) is Some
    }

    /// A tracker that follows nothing and knows no one yet.
    pub fn new(thresholds: Thresholds) -> (r: State)
        requires
            thresholds.wf(),
        ensures
            r.wf(),
            r.records() == Seq::<RecordView>::empty(),
            r.index() == Seq::<EntryView>::empty(),
            r.thresholds_view() == thresholds,
    {
        let r = State { bout_metadata: Vec::new(), boxers: Vec::new(), thresholds };
        assert(r.records() =~= Seq::<RecordView>::empty());
        assert(r.index() =~= Seq::<EntryView>::empty());
        r
    }

    /// The number of tracked bouts.
    pub fn len(&self) -> (r: usize)
        ensures
            r == self.records().len(),
    {
        self.bout_metadata.len()
    }

    /// How far bout `i` has got.
    pub fn status(&self, i: usize) -> (r: BoutStatus)
        requires
            i < self.records().len(),
        ensures
            r == self.records()[i as int].1,
    {
        self.bout_metadata[i].1
    }

    /// Whether some record tracks `bout`.
    fn is_tracked(&self, bout: &Bout) -> (r: bool)
        ensures
            r == tracks(self.records(), bout.key()),
    {
        let mut i: usize = 0;
        while i < self.bout_metadata.len()
            invariant
                i <= self.records().len(),
                self.records() == records_view(self.bout_metadata@),
                forall|m: int| 0 <= m < i ==> (#[trigger] self.records()[m]).0 != bout.key(),
            decreases self.bout_metadata.len() - i,
        {
            if self.bout_metadata[i].0.same_as(bout) {
                assert(self.records()[i as int].0 == bout.key());
                return true;
            }
            i = i + 1;
        }
        false
    }

    /// Takes in one pass's listings from the feed, in order: each bout not
    /// yet tracked is added with neither fighter known; a bout tracked
    /// already, with the same names and odds, is left as it is.
    pub fn merge(&mut self, feed: Vec<Bout>)
        requires
            old(self).wf(),
            forall|k: int| 0 <= k < feed@.len() ==> (#[trigger] feed@[k]).odds.wf(),
        ensures
            final(self).wf(),
            final(self).records() == merged(
                old(self).records(),
                feed@.map_values(|b: Bout| b.key()),
            ),
            final(self).index() == old(self).index(),
            final(self).thresholds_view() == old(self).thresholds_view(),
            progressed(old(self).records(), final(self).records()),
    {
        let ghost keys = feed@.map_values(|b: Bout| b.key());
        let mut k: usize = 0;
        assert(keys.take(0).len() == 0);
        assert(merged(self.records(), keys.take(0)) == self.records());
        while k < feed.len()
            invariant
                k <= feed@.len() == keys.len(),
                keys == feed@.map_values(|b: Bout| b.key()),
                forall|m: int| 0 <= m < feed@.len() ==> (#[trigger] feed@[m]).odds.wf(),
                self.wf(),
                self.records() == merged(old(self).records(), keys.take(k as int)),
                self.index() == old(self).index(),
                self.thresholds_view() == old(self).thresholds_view(),
                progressed(old(self).records(), self.records()),
            decreases feed.len() - k,
        {
            let ghost before = self.records();
            assert(keys.take(k + 1).drop_last() =~= keys.take(k as int));
            assert(keys.take(k + 1).last() == feed@[k as int].key());
            proof {
                lemma_merge_one_unique(before, feed@[k as int].key());
            }
            if !self.is_tracked(&feed[k]) {
                let b = feed[k].duplicate();
                self.bout_metadata.push(BoutMetadata(b, BoutStatus::MissingBoxers));
                assert(self.records() =~= before.push((feed@[k as int].key(), BoutStatus::MissingBoxers)));
            }
            proof {
                assert(progressed(before, self.records()));
                lemma_progress_transitive(old(self).records(), before, self.records());
            }
            k = k + 1;
        }
        assert(keys.take(feed@.len() as int) =~= keys);
    }

    /// The position of the index entry for `name`.
    fn find_entry(&self, name: &String) -> (r: usize)
        ensures
            r == position(self.index(), name@),
    {
        find_in(&self.boxers, name)
    }

    /// Whether the index knows the fighter that `name` denotes.
    pub fn knows(&self, name: &String) -> (r: bool)
        ensures
            r == (lookup(self.index(), name@) is Some),
    {
        self.find_entry(name) < self.boxers.len()
    }

    /// The names of bout `i` that the index does not know yet and that a
    /// lookup on the records site should resolve: none unless the bout is
    /// missing fighters; fighter one's name first; a name given twice once.
    pub fn names_to_resolve(&self, i: usize) -> (r: Vec<String>)
        requires
            i < self.records().len(),
        ensures
            texts(r@) == to_resolve(self.index(), self.records()[i as int]),
    {
        let mut out: Vec<String> = Vec::new();
        let m = &self.bout_metadata[i];
        if m.1 == BoutStatus::MissingBoxers {
            if !self.knows(&m.0.fighter_one) {
                out.push(m.0.fighter_one.clone());
            }
            if !self.knows(&m.0.fighter_two) && m.0.fighter_two != m.0.fighter_one {
                out.push(m.0.fighter_two.clone());
            }
        }
        assert(texts(out@) =~= to_resolve(self.index(), self.records()[i as int]));
        out
    }

    /// Records in the index that `name` denotes `boxer`, where the name is
    /// not known yet. The index only grows: a known name keeps the fighter
    /// it denotes.
    pub fn record_fighter(&mut self, name: String, boxer: Boxer)
        requires
            old(self).wf(),
        ensures
            final(self).wf(),
            final(self).index() == (if lookup(old(self).index(), name@) is Some {
                old(self).index()
            } else {
                old(self).index().push((name@, boxer.view_tuple()))
            }),
            final(self).records() == old(self).records(),
            final(self).thresholds_view() == old(self).thresholds_view(),
    {
        let ghost entry = (name@, boxer.view_tuple());
        let ghost before = self.index();
        proof {
            lemma_inserted(before, entry);
            lemma_position(before, name@);
        }
        if self.find_entry(&name) < self.boxers.len() {
            return;
        }
        assert(inserted(before, entry) == before.push(entry));
        self.boxers.push(IndexEntry { name, boxer });
        assert(self.index() =~= before.push(entry));
        assert forall|i: int|
            0 <= i < self.records().len() && (#[trigger] self.records()[i]).1
                != BoutStatus::MissingBoxers implies lookup(self.index(), self.records()[i].0.0) is Some
            && lookup(self.index(), self.records()[i].0.1) is Some by {
            assert(lookup(before, self.records()[i].0.0) is Some);
            assert(lookup(before, self.records()[i].0.1) is Some);
        }
    }

    /// Moves bout `i` on from missing fighters once the index knows both;
    /// says whether it moved.
    pub fn confirm_fighters(&mut self, i: usize) -> (r: bool)
        requires
            old(self).wf(),
            i < old(self).records().len(),
        ensures
            final(self).wf(),
            r == (old(self).records()[i as int].1 == BoutStatus::MissingBoxers
                && lookup(old(self).index(), old(self).records()[i as int].0.0) is Some
                && lookup(old(self).index(), old(self).records()[i as int].0.1) is Some),
            final(self).records() == (if r {
                old(self).records().update(
                    i as int,
                    (old(self).records()[i as int].0, BoutStatus::MissingBoutPage),
                )
            } else {
                old(self).records()
            }),
            final(self).index() == old(self).index(),
            final(self).thresholds_view() == old(self).thresholds_view(),
            progressed(old(self).records(), final(self).records()),
    {
        let ghost before = self.records();
        let ready = self.bout_metadata[i].1 == BoutStatus::MissingBoxers && self.knows(
            &self.bout_metadata[i].0.fighter_one,
        ) && self.knows(&self.bout_metadata[i].0.fighter_two);
        if ready {
            self.bout_metadata[i].1 = BoutStatus::MissingBoutPage;
            assert(self.records() =~= before.update(i as int, (before[i as int].0, BoutStatus::MissingBoutPage)));
            assert(keys_unique(self.records())) by {
                assert forall|a: int, b: int|
                    0 <= a < self.records().len() && 0 <= b < self.records().len() && (
                    #[trigger] self.records()[a]).0 == (#[trigger] self.records()[b]).0 implies a == b by {
                    assert(before[a].0 == self.records()[a].0);
                    assert(before[b].0 == self.records()[b].0);
                }
            }
        }
        ready
    }

    /// What to fetch for bout `i` once both fighters are known: fighter
    /// one's id on the records site, and fighter two's full name to find
    /// the bout among fighter one's scheduled ones.
    pub fn bout_request(&self, i: usize) -> (r: Option<(u32, String)>)
        requires
            self.wf(),
            i < self.records().len(),
        ensures
            self.records()[i as int].1 == BoutStatus::MissingBoutPage <==> r is Some,
            r matches Some((id, name)) ==> ({
                let one = lookup(self.index(), self.records()[i as int].0.0)->0;
                let two = lookup(self.index(), self.records()[i as int].0.1)->0;
                id == one.0 && name@ == full_name(two.1, two.2)
            }),
    {
        if self.bout_metadata[i].1 != BoutStatus::MissingBoutPage {
            return None;
        }
        assert(self.records()[i as int].1 != BoutStatus::MissingBoxers);
        let at_one = self.find_entry(&self.bout_metadata[i].0.fighter_one);
        let at_two = self.find_entry(&self.bout_metadata[i].0.fighter_two);
        let id = self.boxers[at_one].boxer.id;
        let name = self.boxers[at_two].boxer.get_name();
        Some((id, name))
    }

    /// Compares both sides' chances from scores `a` and `b` with the
    /// exchange's for bout `i`: the bout moves on through checked to
    /// announced, and the matchup comes back when either side's chance
    /// exceeds the exchange's by more than the notify threshold.
    pub fn record_scores(&mut self, i: usize, a: Decimal, b: Decimal) -> (r: Option<Matchup>)
        requires
            old(self).wf(),
            i < old(self).records().len(),
            old(self).records()[i as int].1 == BoutStatus::MissingBoutPage,
            scores_ok(a, b),
        ensures
            final(self).wf(),
            final(self).index() == old(self).index(),
            final(self).thresholds_view() == old(self).thresholds_view(),
            progressed(old(self).records(), final(self).records()),
            ({
                let rec = old(self).records()[i as int];
                let one = lookup(old(self).index(), rec.0.0)->0;
                let two = lookup(old(self).index(), rec.0.1)->0;
                let th = old(self).thresholds_view();
                &&& final(self).records() == old(self).records().update(
                    i as int,
                    (rec.0, BoutStatus::Announced),
                )
                &&& (r is Some <==> scores_notable(th, rec.0.2, a, b))
                &&& r matches Some(m) ==> m.describes(th, rec.0.2, one, two, a, b) && m.wf()
            }),
    {
        let ghost before = self.records();
        assert(self.records()[i as int].1 != BoutStatus::MissingBoxers);
        let at_one = self.find_entry(&self.bout_metadata[i].0.fighter_one);
        let at_two = self.find_entry(&self.bout_metadata[i].0.fighter_two);
        proof {
            lemma_position(self.index(), before[i as int].0.0);
            lemma_position(self.index(), before[i as int].0.1);
        }
        let one = self.boxers[at_one].boxer.duplicate();
        let two = self.boxers[at_two].boxer.duplicate();
        let odds = self.bout_metadata[i].0.odds;
        let th = self.thresholds;
        let m = Matchup::from_scores(th, odds, one, two, a, b);
        let mut st = self.bout_metadata[i].1;
        st.next();
        let notable = m.is_notable(th);
        st.next();
        self.bout_metadata[i].1 = st;
        assert(self.records() =~= before.update(i as int, (before[i as int].0, BoutStatus::Announced)));
        assert(keys_unique(self.records())) by {
            assert forall|x: int, y: int|
                0 <= x < self.records().len() && 0 <= y < self.records().len() && (
                #[trigger] self.records()[x]).0 == (#[trigger] self.records()[y]).0 implies x == y by {
                assert(before[x].0 == self.records()[x].0);
                assert(before[y].0 == self.records()[y].0);
            }
        }
        if notable {
            Some(m)
        } else {
            None
        }
    }

    /// Reads bout `i`'s results page and, where it gives two scores that
    /// are not both zero, goes on as `record_scores` does. Otherwise the
    /// bout stays where it was, for the next pass, and the error comes back.
    pub fn score_bout(&mut self, i: usize, page: &str) -> (r: Result<Option<Matchup>, ScoreError>)
        requires
            old(self).wf(),
            i < old(self).records().len(),
            old(self).records()[i as int].1 == BoutStatus::MissingBoutPage,
        ensures
            final(self).wf(),
            final(self).index() == old(self).index(),
            final(self).thresholds_view() == old(self).thresholds_view(),
            progressed(old(self).records(), final(self).records()),
            ({
                let rec = old(self).records()[i as int];
                let one = lookup(old(self).index(), rec.0.0)->0;
                let two = lookup(old(self).index(), rec.0.1)->0;
                let th = old(self).thresholds_view();
                match scores_on_page(page@) {
                    Err(e) => r == Err::<Option<Matchup>, ScoreError>(e) && final(self).records()
                        == old(self).records(),
                    Ok((a, b)) => if a.micros + b.micros == 0 {
                        r == Err::<Option<Matchup>, ScoreError>(ScoreError::ZeroTotal)
                            && final(self).records() == old(self).records()
                    } else {
                        &&& final(self).records() == old(self).records().update(
                            i as int,
                            (rec.0, BoutStatus::Announced),
                        )
                        &&& r is Ok
                        &&& (r->Ok_0 is Some <==> scores_notable(th, rec.0.2, a, b))
                        &&& r matches Ok(Some(m)) ==> m.describes(th, rec.0.2, one, two, a, b)
                            && m.wf()
                    },
                }
            }),
    {
        match extract_scores(page) {
            Err(e) => Err(e),
            Ok((a, b)) => if a.micros == 0 && b.micros == 0 {
                Err(ScoreError::ZeroTotal)
            } else {
                Ok(self.record_scores(i, a, b))
            },
        }
    }

    /// A copy of the index and of the tracked bouts, to be saved between
    /// runs.
    pub fn cache_snapshot(&self) -> (r: (Vec<IndexEntry>, Vec<BoutMetadata>))
        ensures
            entries_view(r.0@) == self.index(),
            records_view(r.1@) == self.records(),
    {
        let mut boxers: Vec<IndexEntry> = Vec::new();
        let mut i: usize = 0;
        while i < self.boxers.len()
            invariant
                i <= self.boxers@.len(),
                entries_view(boxers@) == entries_view(self.boxers@).take(i as int),
            decreases self.boxers.len() - i,
        {
            let ghost prev = boxers@;
            boxers.push(self.boxers[i].duplicate());
            assert(entries_view(boxers@) =~= entries_view(prev).push(self.boxers@[i as int].view_entry()));
            assert(entries_view(boxers@) =~= entries_view(self.boxers@).take(i + 1));
            i = i + 1;
        }
        let mut bouts: Vec<BoutMetadata> = Vec::new();
        let mut k: usize = 0;
        while k < self.bout_metadata.len()
            invariant
                k <= self.bout_metadata@.len(),
                records_view(bouts@) == records_view(self.bout_metadata@).take(k as int),
            decreases self.bout_metadata.len() - k,
        {
            let m = &self.bout_metadata[k];
            let ghost prev = bouts@;
            bouts.push(BoutMetadata(m.0.duplicate(), m.1));
            assert(records_view(bouts@) =~= records_view(prev).push(self.bout_metadata@[k as int].view_record()));
            assert(records_view(bouts@) =~= records_view(self.bout_metadata@).take(k + 1));
            k = k + 1;
        }
        assert(entries_view(self.boxers@).take(i as int) =~= self.index());
        assert(records_view(self.bout_metadata@).take(k as int) =~= self.records());
        (boxers, bouts)
    }

    /// Whether the bouts can stand beside the index `entries`.
    fn check_loadable(entries: &Vec<IndexEntry>, bouts: &Vec<BoutMetadata>) -> (r: bool)
        ensures
            r == loadable(entries_view(entries@), records_view(bouts@)),
    {
        let ghost idx = entries_view(entries@);
        let ghost recs = records_view(bouts@);
        let mut i: usize = 0;
        while i < bouts.len()
            invariant
                i <= bouts@.len() == recs.len(),
                idx == entries_view(entries@),
                recs == records_view(bouts@),
                forall|a: int, b: int|
                    0 <= a < i && 0 <= b < recs.len() && (#[trigger] recs[a]).0 == (#[trigger] recs[b]).0
                        ==> a == b,
                forall|a: int| 0 <= a < i ==> (#[trigger] recs[a]).0.2.wf(),
                forall|a: int|
                    0 <= a < i && (#[trigger] recs[a]).1 != BoutStatus::MissingBoxers ==> lookup(
                        idx,
                        recs[a].0.0,
                    ) is Some && lookup(idx, recs[a].0.1) is Some,
            decreases bouts.len() - i,
        {
            let m = &bouts[i];
            assert(recs[i as int] == m.view_record());
            if m.0.odds.one_wins.bottom == 0 || m.0.odds.draw.bottom == 0 || m.0.odds.two_wins.bottom == 0 {
                return false;
            }
            if m.1 != BoutStatus::MissingBoxers {
                if find_in(entries, &m.0.fighter_one) >= entries.len() || find_in(entries, &m.0.fighter_two)
                    >= entries.len() {
                    return false;
                }
            }
            let mut j: usize = 0;
            while j < bouts.len()
                invariant
                    i < bouts@.len() == recs.len(),
                    j <= bouts@.len(),
                    recs == records_view(bouts@),
                    forall|b: int| 0 <= b < j && (#[trigger] recs[b]).0 == recs[i as int].0 ==> b == i,
                decreases bouts.len() - j,
            {
                if j != i && bouts[j].0.same_as(&bouts[i].0) {
                    assert(recs[j as int].0 == recs[i as int].0);
                    return false;
                }
                j = j + 1;
            }
            assert forall|a: int, b: int|
                0 <= a < i + 1 && 0 <= b < recs.len() && (#[trigger] recs[a]).0 == (#[trigger] recs[b]).0
                    implies a == b by {
                if a == i {
                    assert(recs[b].0 == recs[i as int].0);
                }
            }
            i = i + 1;
        }
        true
    }

    /// Records each saved index entry in order, replacing the entry for its
    /// name, and puts `bouts` in place of the tracked bouts; refused, with
    /// the tracker left as it was, where the bouts could not stand beside
    /// the resulting index.
    fn load_parts(&mut self, boxers: Vec<IndexEntry>, bouts: Vec<BoutMetadata>) -> (r: Result<
        (),
        CacheError,
    >)
        requires
            old(self).wf(),
        ensures
            final(self).wf(),
            final(self).thresholds_view() == old(self).thresholds_view(),
            ({
                let idx = inserted_all(old(self).index(), entries_view(boxers@));
                &&& (r is Ok <==> loadable(idx, records_view(bouts@)))
                &&& r is Ok ==> final(self).index() == idx && final(self).records() == records_view(
                    bouts@,
                )
                &&& r is Err ==> final(self).index() == old(self).index() && final(self).records()
                    == old(self).records()
            }),
    {
        let ghost added = entries_view(boxers@);
        let mut entries: Vec<IndexEntry> = Vec::new();
        let mut i: usize = 0;
        while i < self.boxers.len()
            invariant
                i <= self.boxers@.len(),
                entries_view(entries@) == entries_view(self.boxers@).take(i as int),
            decreases self.boxers.len() - i,
        {
            let ghost prev = entries@;
            entries.push(self.boxers[i].duplicate());
            assert(entries_view(entries@) =~= entries_view(prev).push(self.boxers@[i as int].view_entry()));
            assert(entries_view(entries@) =~= entries_view(self.boxers@).take(i + 1));
            i = i + 1;
        }
        assert(entries_view(self.boxers@).take(i as int) =~= self.index());
        assert(added.take(0) =~= Seq::<EntryView>::empty());
        let mut k: usize = 0;
        while k < boxers.len()
            invariant
                k <= added.len() == boxers@.len(),
                added == entries_view(boxers@),
                names_unique(entries_view(entries@)),
                entries_view(entries@) == inserted_all(self.index(), added.take(k as int)),
            decreases boxers.len() - k,
        {
            let e = boxers[k].duplicate();
            proof {
                assert(e.view_entry() == added[k as int]);
                lemma_inserted(entries_view(entries@), e.view_entry());
                assert(added.take(k + 1).drop_last() =~= added.take(k as int));
                assert(added.take(k + 1).last() == added[k as int]);
            }
            insert_entry(&mut entries, e);
            k = k + 1;
        }
        assert(added.take(added.len() as int) =~= added);
        if Self::check_loadable(&entries, &bouts) {
            self.boxers = entries;
            self.bout_metadata = bouts;
            Ok(())
        } else {
            Err(CacheError::Inconsistent)
        }
    }
}

/// The entries of a saved index, or none where there was no snapshot.
pub open spec fn saved_entries(boxers: Option<Vec<IndexEntry>>) -> Seq<EntryView> {
    match boxers {
        Some(v) => entries_view(v@),
        None => Seq::empty(),
    }
}

/// The bouts a load leaves tracked: the saved ones, or the tracked ones
/// where there was no snapshot of them.
pub open spec fn loaded_records(bouts: Option<Vec<BoutMetadata>>, current: Seq<RecordView>) -> Seq<
    RecordView,
> {
    match bouts {
        Some(v) => records_view(v@),
        None => current,
    }
}

impl State {
    /// Takes in the snapshots saved by an earlier run: each saved index
    /// entry is recorded in order, replacing the entry for its name, and the
    /// saved bouts replace the tracked ones. A missing snapshot (`None`)
    /// changes nothing of its part. A load whose bouts could not stand
    /// beside the resulting index is refused, and the tracker is left as it
    /// was.
    pub fn load_cache(&mut self, boxers: Option<Vec<IndexEntry>>, bouts: Option<Vec<BoutMetadata>>) -> (r:
        Result<(), CacheError>)
        requires
            old(self).wf(),
        ensures
            final(self).wf(),
            final(self).thresholds_view() == old(self).thresholds_view(),
            ({
                let idx = inserted_all(old(self).index(), saved_entries(boxers));
                let recs = loaded_records(bouts, old(self).records());
                &&& (r is Ok <==> loadable(idx, recs))
                &&& r is Ok ==> final(self).index() == idx && final(self).records() == recs
                &&& r is Err ==> final(self).index() == old(self).index() && final(self).records()
                    == old(self).records()
            }),
    {
        let entries = match boxers {
            Some(v) => v,
            None => {
                let v: Vec<IndexEntry> = Vec::new();
                assert(entries_view(v@) =~= Seq::<EntryView>::empty());
                v
            },
        };
        let records = match bouts {
            Some(v) => v,
            None => self.cache_snapshot().1,
        };
        self.load_parts(entries, records)
    }
}

/// A tracker's views meet what the round trip through the cache asks.
pub proof fn lemma_state_views(s: &State)
    requires
        s.wf(),
    ensures
        names_unique(s.index()),
        loadable(s.index(), s.records()),
{
}

} // verus!
