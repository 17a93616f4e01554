//! Score entries, score lists and the rule by which a list takes a new time.
//!
//! A score list holds at most one entry for each player and is kept in
//! ascending order of time. A submission for a player who is not in the list
//! is added. A submission for a player who is in the list replaces that
//! player's entry if the new time is strictly shorter, and is turned down
//! otherwise. A new entry goes behind every entry whose time is as short or
//! shorter: of two equal times the one that was submitted first ranks first.

use vstd::prelude::*;
use crate::error::StoreError;
use crate::time::Time;

verus! {

/// One player's best time.
#[derive(Debug, PartialEq, Eq)]
pub struct ScoreEntry {
    /// The player's name. Names are compared as they are written.
    pub name: String,
    /// The time of the run.
    pub time: Time,
}

/// What a score entry says.
pub ghost struct ScoreView {
    pub name: Seq<char>,
    pub time: Time,
}

impl View for ScoreEntry {
    type V = ScoreView;

    open spec fn view(&self) -> ScoreView {
        ScoreView { name: self.name@, time: self.time }
    }
}

/// What a sequence of entries says.
pub open spec fn entry_views(entries: Seq<ScoreEntry>) -> Seq<ScoreView> {
    entries.map_values(|e: ScoreEntry| e@)
}

/// No entry has a longer time than a later one.
pub open spec fn ascending(s: Seq<ScoreView>) -> bool {
    forall|i: int, j: int| 0 <= i < j < s.len() ==> s[i].time.key() <= s[j].time.key()
}

/// No two entries are for the same player.
pub open spec fn one_entry_per_player(s: Seq<ScoreView>) -> bool {
    forall|i: int, j: int| 0 <= i < j < s.len() ==> s[i].name != s[j].name
}

/// The rule that every score list keeps.
pub open spec fn is_leaderboard(s: Seq<ScoreView>) -> bool {
    ascending(s) && one_entry_per_player(s)
}

/// Whether the player has an entry.
pub open spec fn has_player(s: Seq<ScoreView>, name: Seq<char>) -> bool {
    exists|i: int| 0 <= i < s.len() && #[trigger] s[i].name == name
}

/// Where the player's entry stands, if the player has one.
pub open spec fn index_of_player(s: Seq<ScoreView>, name: Seq<char>) -> int {
    choose|i: int| 0 <= i < s.len() && #[trigger] s[i].name == name
}

/// The player's time, if the player has an entry.
pub open spec fn time_of_player(s: Seq<ScoreView>, name: Seq<char>) -> Time {
    s[index_of_player(s, name)].time
}

/// Whether the list takes the submission: the player is new to the list, or
/// the time is strictly shorter than the one the player holds.
pub open spec fn improves(s: Seq<ScoreView>, entry: ScoreView) -> bool {
    has_player(s, entry.name) ==> entry.time.key() < time_of_player(s, entry.name).key()
}

/// The list without the player's entry.
pub open spec fn without_player(s: Seq<ScoreView>, name: Seq<char>) -> Seq<ScoreView> {
    if has_player(s, name) {
        s.remove(index_of_player(s, name))
    } else {
        s
    }
}

/// Whether `p` is the place of a new entry with time `time`: behind every
/// entry that is as short or shorter, before every longer one.
pub open spec fn is_slot(s: Seq<ScoreView>, time: Time, p: int) -> bool {
    &&& 0 <= p <= s.len()
    &&& forall|i: int| 0 <= i < p ==> (#[trigger] s[i]).time.key() <= time.key()
    &&& forall|i: int| p <= i < s.len() ==> time.key() < (#[trigger] s[i]).time.key()
}

/// The place of a new entry with time `time` in an ascending list.
pub open spec fn slot(s: Seq<ScoreView>, time: Time) -> int {
    choose|p: int| is_slot(s, time, p)
}

/// The list after it has taken the submission.
pub open spec fn merged(s: Seq<ScoreView>, entry: ScoreView) -> Seq<ScoreView> {
    let rest = without_player(s, entry.name);
    rest.insert(slot(rest, entry.time), entry)
}

impl Clone for ScoreEntry {
    fn clone(&self) -> (copy: ScoreEntry)
        ensures
            copy@ == self@,
    {
        ScoreEntry { name: self.name.clone(), time: self.time }
    }
}

/// The best times on one map or route: at most one entry for each player, in
/// ascending order of time.
#[derive(Debug)]
pub struct ScoreList {
    entries: Vec<ScoreEntry>,
}

impl View for ScoreList {
    type V = Seq<ScoreView>;

    closed spec fn view(&self) -> Seq<ScoreView> {
        entry_views(self.entries@)
    }
}

impl ScoreList {
    /// Every score list keeps the rule of score lists.
    #[verifier::type_invariant]
    pub open spec fn wf(&self) -> bool {
        is_leaderboard(self@)
    }

    /// A list without entries.
    pub fn new() -> (list: ScoreList)
        ensures
            list@ == Seq::<ScoreView>::empty(),
            list.wf(),
    {
        let list = ScoreList { entries: Vec::new() };
        assert(list@ =~= Seq::<ScoreView>::empty());
        list
    }

    /// The list that holds `entries` in the order given, or `None` where they
    /// break the rule of score lists.
    pub fn from_entries(entries: Vec<ScoreEntry>) -> (list: Option<ScoreList>)
        ensures
            list is Some <==> is_leaderboard(entry_views(entries@)),
            list matches Some(l) ==> l@ == entry_views(entries@) && l.wf(),
    {
        if is_leaderboard_exec(&entries) {
            Some(ScoreList { entries })
        } else {
            None
        }
    }

    /// The number of entries.
    pub fn len(&self) -> (n: usize)
        ensures
            n == self@.len(),
    {
        self.entries.len()
    }

    /// A copy of the entries, best time first.
    pub fn entries(&self) -> (copy: Vec<ScoreEntry>)
        ensures
            entry_views(copy@) == self@,
    {
        copy_entries(&self.entries)
    }

    /// Where the player's entry stands.
    pub fn position(&self, name: &String) -> (found: Option<usize>)
        ensures
            found is Some <==> has_player(self@, name@),
            found matches Some(k) ==> k == index_of_player(self@, name@),
    {
        proof {
            use_type_invariant(self);
        }
        let found = find_player(&self.entries, name);
        proof {
            if let Some(k) = found {
                lemma_index_of_player(self@, name@, k as int);
            }
        }
        found
    }

    /// Whether the list would take the submission.
    pub fn accepts(&self, entry: &ScoreEntry) -> (taken: bool)
        ensures
            taken == improves(self@, entry@),
    {
        match self.position(&entry.name) {
            None => true,
            Some(k) => entry.time.is_shorter_than(&self.entries[k].time),
        }
    }

    /// Submits a time. The list takes it if the player is new to the list or
    /// the time is strictly shorter than the one the player holds; otherwise
    /// the list stays as it is.
    pub fn submit(&mut self, entry: ScoreEntry) -> (outcome: Result<(), StoreError>)
        ensures
            final(self).wf(),
            improves(old(self)@, entry@) ==> outcome is Ok,
            !improves(old(self)@, entry@) ==> outcome == Err::<(), StoreError>(
                StoreError::NotImproved,
            ),
            final(self)@ == after_submission(old(self)@, entry@),
    {
        proof {
            use_type_invariant(&*self);
            lemma_without_player(self@, entry@.name);
        }
        let found = self.position(&entry.name);
        if let Some(k) = found {
            if !entry.time.is_shorter_than(&self.entries[k].time) {
                return Err(StoreError::NotImproved);
            }
        }
        let mut taken = ScoreList::new();
        core::mem::swap(self, &mut taken);
        let mut entries = taken.entries;
        if let Some(k) = found {
            entries.remove(k);
            assert(entry_views(entries@) =~= old(self)@.remove(k as int));
        }
        let ghost rest = entry_views(entries@);
        assert(rest == without_player(old(self)@, entry@.name));
        let p = find_slot(&entries, &entry.time);
        proof {
            lemma_slot_is_unique(rest, entry.time, p as int);
            lemma_insert_at_slot(rest, entry@);
        }
        let ghost added = entry@;
        entries.insert(p, entry);
        assert(entry_views(entries@) =~= rest.insert(p as int, added));
        *self = ScoreList { entries };
        Ok(())
    }
}

/// A copy of `entries`.
pub fn copy_entries(entries: &Vec<ScoreEntry>) -> (copy: Vec<ScoreEntry>)
    ensures
        entry_views(copy@) == entry_views(entries@),
{
    let mut copy: Vec<ScoreEntry> = Vec::new();
    let mut i: usize = 0;
    while i < entries.len()
        invariant
            i <= entries.len(),
            copy.len() == i,
            forall|j: int| 0 <= j < i ==> copy[j]@ == entries[j]@,
        decreases entries.len() - i,
    {
        copy.push(entries[i].clone());
        i += 1;
    }
    assert(entry_views(copy@) =~= entry_views(entries@));
    copy
}

/// The first index at which `name` has an entry.
fn find_player(entries: &Vec<ScoreEntry>, name: &String) -> (found: Option<usize>)
    ensures
        found is Some <==> has_player(entry_views(entries@), name@),
        found matches Some(k) ==> k < entries.len() && entries[k as int].name@ == name@,
{
    let mut i: usize = 0;
    while i < entries.len()
        invariant
            i <= entries.len(),
            forall|j: int| 0 <= j < i ==> entries[j].name@ != name@,
        decreases entries.len() - i,
    {
        if entries[i].name == *name {
            assert(entry_views(entries@)[i as int].name == name@);
            return Some(i);
        }
        i += 1;
    }
    assert(!has_player(entry_views(entries@), name@)) by {
        if has_player(entry_views(entries@), name@) {
            let k = index_of_player(entry_views(entries@), name@);
            assert(entries[k].name@ != name@);
        }
    }
    None
}

/// The slot of a new entry with time `time`.
fn find_slot(entries: &Vec<ScoreEntry>, time: &Time) -> (p: usize)
    requires
        ascending(entry_views(entries@)),
    ensures
        is_slot(entry_views(entries@), *time, p as int),
{
    let mut p: usize = entries.len();
    while p > 0 && time.is_shorter_than(&entries[p - 1].time)
        invariant
            p <= entries.len(),
            forall|j: int| p <= j < entries.len() ==> time.key() < entries[j].time.key(),
        decreases p,
    {
        p -= 1;
    }
    assert(is_slot(entry_views(entries@), *time, p as int)) by {
        let s = entry_views(entries@);
        assert forall|i: int| 0 <= i < p implies (#[trigger] s[i]).time.key() <= time.key() by {
            assert(s[p - 1].time.key() <= time.key());
            assert(i < p - 1 ==> s[i].time.key() <= s[p - 1].time.key());
        }
    }
    p
}

/// Whether `entries` keep the rule of score lists.
pub fn is_leaderboard_exec(entries: &Vec<ScoreEntry>) -> (ok: bool)
    ensures
        ok == is_leaderboard(entry_views(entries@)),
{
    let ghost s = entry_views(entries@);
    let mut i: usize = 0;
    while i < entries.len()
        invariant
            i <= entries.len(),
            s == entry_views(entries@),
            forall|a: int, b: int| 0 <= a < b < i ==> s[a].time.key() <= s[b].time.key(),
            forall|a: int, b: int| 0 <= a < b < i ==> s[a].name != s[b].name,
        decreases entries.len() - i,
    {
        if i > 0 && entries[i].time.is_shorter_than(&entries[i - 1].time) {
            assert(s[i - 1].time.key() > s[i as int].time.key());
            return false;
        }
        let mut j: usize = 0;
        while j < i
            invariant
                j <= i < entries.len(),
                s == entry_views(entries@),
                forall|a: int| 0 <= a < j ==> s[a].name != s[i as int].name,
            decreases i - j,
        {
            if entries[j].name == entries[i].name {
                assert(s[j as int].name == s[i as int].name);
                return false;
            }
            j += 1;
        }
        assert forall|a: int, b: int| 0 <= a < b < i + 1 implies s[a].time.key()
            <= s[b].time.key() by {
            if b == i && a < i - 1 {
                assert(s[a].time.key() <= s[i - 1].time.key());
            }
        }
        i += 1;
    }
    true
}

/// The list after a submission: with the entry where the list takes it, as
/// before where it does not.
pub open spec fn after_submission(s: Seq<ScoreView>, entry: ScoreView) -> Seq<ScoreView> {
    if improves(s, entry) {
        merged(s, entry)
    } else {
        s
    }
}

/// In a list with one entry per player, an index that holds the player's
/// entry is the index of the player.
pub proof fn lemma_index_of_player(s: Seq<ScoreView>, name: Seq<char>, k: int)
    requires
        one_entry_per_player(s),
        0 <= k < s.len(),
        s[k].name == name,
    ensures
        has_player(s, name),
        index_of_player(s, name) == k,
{
    let i = index_of_player(s, name);
    assert(0 <= i < s.len() && s[i].name == name);
    if i < k {
        assert(s[i].name != s[k].name);
    } else if k < i {
        assert(s[k].name != s[i].name);
    }
}

/// An ascending list has exactly one slot for a time.
pub proof fn lemma_slot_is_unique(s: Seq<ScoreView>, time: Time, p: int)
    requires
        is_slot(s, time, p),
    ensures
        slot(s, time) == p,
{
    let q = slot(s, time);
    assert(is_slot(s, time, q));
    if p < q {
        assert(s[p].time.key() <= time.key());
        assert(time.key() < s[p].time.key());
    } else if q < p {
        assert(s[q].time.key() <= time.key());
        assert(time.key() < s[q].time.key());
    }
}

/// An ascending list has a slot for every time.
pub proof fn lemma_slot_exists(s: Seq<ScoreView>, time: Time)
    requires
        ascending(s),
    ensures
        is_slot(s, time, slot(s, time)),
    decreases s.len(),
{
    if s.len() == 0 {
        assert(is_slot(s, time, 0));
    } else if s.last().time.key() <= time.key() {
        assert(is_slot(s, time, s.len() as int));
    } else {
        let front = s.drop_last();
        assert(ascending(front)) by {
            assert forall|i: int, j: int| 0 <= i < j < front.len() implies front[i].time.key()
                <= front[j].time.key() by {
                assert(front[i] == s[i] && front[j] == s[j]);
            }
        }
        lemma_slot_exists(front, time);
        let p = slot(front, time);
        assert(is_slot(s, time, p)) by {
            assert forall|i: int| 0 <= i < p implies (#[trigger] s[i]).time.key()
                <= time.key() by {
                assert(front[i] == s[i]);
            }
            assert forall|i: int| p <= i < s.len() implies time.key() < (
            #[trigger] s[i]).time.key() by {
                if i < front.len() {
                    assert(front[i] == s[i]);
                }
            }
        }
    }
}

/// Removing an entry from a score list leaves a score list, in which the
/// other entries stand as before and the removed player has none.
pub proof fn lemma_without_player(s: Seq<ScoreView>, name: Seq<char>)
    requires
        is_leaderboard(s),
    ensures
        is_leaderboard(without_player(s, name)),
        !has_player(without_player(s, name), name),
        forall|other: Seq<char>|
            other != name ==> (#[trigger] has_player(without_player(s, name), other)
                <==> has_player(s, other)),
        forall|other: Seq<char>|
            other != name && has_player(s, other) ==> #[trigger] time_of_player(
                without_player(s, name),
                other,
            ) == time_of_player(s, other),
        has_player(s, name) ==> without_player(s, name).len() == s.len() - 1,
        !has_player(s, name) ==> without_player(s, name) == s,
{
    let rest = without_player(s, name);
    if has_player(s, name) {
        let k = index_of_player(s, name);
        assert(0 <= k < s.len() && s[k].name == name);
        assert(rest.len() == s.len() - 1);
        assert forall|i: int| 0 <= i < rest.len() implies #[trigger] rest[i] == s[if i < k {
            i
        } else {
            i + 1
        }] by {}
        assert(is_leaderboard(rest)) by {
            assert forall|i: int, j: int| 0 <= i < j < rest.len() implies rest[i].time.key()
                <= rest[j].time.key() && rest[i].name != rest[j].name by {
                let si = if i < k { i } else { i + 1 };
                let sj = if j < k { j } else { j + 1 };
                assert(rest[i] == s[si] && rest[j] == s[sj]);
                assert(0 <= si < sj < s.len());
            }
        }
        assert(!has_player(rest, name)) by {
            if has_player(rest, name) {
                let i = index_of_player(rest, name);
                let si = if i < k { i } else { i + 1 };
                assert(rest[i] == s[si]);
                lemma_index_of_player(s, name, si);
            }
        }
        assert forall|other: Seq<char>| other != name implies (#[trigger] has_player(rest, other)
            <==> has_player(s, other)) by {
            if has_player(rest, other) {
                let i = index_of_player(rest, other);
                let si = if i < k { i } else { i + 1 };
                assert(rest[i] == s[si]);
                assert(s[si].name == other);
            }
            if has_player(s, other) {
                let si = index_of_player(s, other);
                assert(si != k);
                let i = if si < k { si } else { si - 1 };
                assert(rest[i] == s[si]);
                assert(rest[i].name == other);
            }
        }
        assert forall|other: Seq<char>| other != name && has_player(s, other) implies 
            #[trigger] time_of_player(rest, other) == time_of_player(s, other) by {
            let si = index_of_player(s, other);
            assert(si != k);
            let i = if si < k { si } else { si - 1 };
            assert(rest[i] == s[si]);
            lemma_index_of_player(rest, other, i);
        }
    } else {
        assert(rest == s);
    }
}

/// Putting a new player's entry into its slot leaves a score list, in which
/// the other entries stand as before and the new player holds the new time.
pub proof fn lemma_insert_at_slot(s: Seq<ScoreView>, entry: ScoreView)
    requires
        is_leaderboard(s),
        !has_player(s, entry.name),
    ensures
        is_leaderboard(s.insert(slot(s, entry.time), entry)),
        s.insert(slot(s, entry.time), entry).len() == s.len() + 1,
        has_player(s.insert(slot(s, entry.time), entry), entry.name),
        time_of_player(s.insert(slot(s, entry.time), entry), entry.name) == entry.time,
        forall|other: Seq<char>|
            other != entry.name ==> (#[trigger] has_player(
                s.insert(slot(s, entry.time), entry),
                other,
            ) <==> has_player(s, other)),
        forall|other: Seq<char>|
            other != entry.name && has_player(s, other) ==> #[trigger] time_of_player(
                s.insert(slot(s, entry.time), entry),
                other,
            ) == time_of_player(s, other),
{
    lemma_slot_exists(s, entry.time);
    let p = slot(s, entry.time);
    let t = s.insert(p, entry);
    assert(t.len() == s.len() + 1);
    assert(t[p] == entry);
    assert forall|i: int| 0 <= i < t.len() && i != p implies #[trigger] t[i] == s[if i < p {
        i
    } else {
        i - 1
    }] by {}
    assert(is_leaderboard(t)) by {
        assert forall|i: int, j: int| 0 <= i < j < t.len() implies t[i].time.key()
            <= t[j].time.key() && t[i].name != t[j].name by {
            let si = if i < p { i } else { i - 1 };
            let sj = if j < p { j } else { j - 1 };
            if i == p {
                assert(t[j] == s[sj]);
                assert(s[sj].name != entry.name);
            } else if j == p {
                assert(t[i] == s[si]);
                assert(s[si].name != entry.name);
            } else {
                assert(t[i] == s[si] && t[j] == s[sj]);
                assert(0 <= si < sj < s.len());
            }
        }
    }
    lemma_index_of_player(t, entry.name, p);
    assert forall|other: Seq<char>| other != entry.name implies (#[trigger] has_player(t, other)
        <==> has_player(s, other)) by {
        if has_player(t, other) {
            let i = index_of_player(t, other);
            assert(i != p);
            let si = if i < p { i } else { i - 1 };
            assert(t[i] == s[si]);
            assert(s[si].name == other);
        }
        if has_player(s, other) {
            let si = index_of_player(s, other);
            let i = if si < p { si } else { si + 1 };
            assert(t[i] == s[si]);
            assert(t[i].name == other);
        }
    }
    assert forall|other: Seq<char>| other != entry.name && has_player(s, other) implies 
        #[trigger] time_of_player(t, other) == time_of_player(s, other) by {
        let si = index_of_player(s, other);
        let i = if si < p { si } else { si + 1 };
        assert(t[i] == s[si]);
        lemma_index_of_player(t, other, i);
    }
}

/// What a score list looks like after it has taken a submission: it is a
/// score list, the player holds the submitted time, and every other player
/// holds the time held before.
pub proof fn lemma_merged(s: Seq<ScoreView>, entry: ScoreView)
    requires
        is_leaderboard(s),
    ensures
        is_leaderboard(merged(s, entry)),
        has_player(merged(s, entry), entry.name),
        time_of_player(merged(s, entry), entry.name) == entry.time,
        has_player(s, entry.name) ==> merged(s, entry).len() == s.len(),
        !has_player(s, entry.name) ==> merged(s, entry).len() == s.len() + 1,
        forall|other: Seq<char>|
            other != entry.name ==> (#[trigger] has_player(merged(s, entry), other) <==> has_player(
                s,
                other,
            )),
        forall|other: Seq<char>|
            other != entry.name && has_player(s, other) ==> #[trigger] time_of_player(
                merged(s, entry),
                other,
            ) == time_of_player(s, other),
{
    let rest = without_player(s, entry.name);
    lemma_without_player(s, entry.name);
    lemma_insert_at_slot(rest, entry);
    let t = merged(s, entry);
    assert forall|other: Seq<char>| other != entry.name implies (#[trigger] has_player(t, other)
        <==> has_player(s, other)) by {
        assert(has_player(t, other) <==> has_player(rest, other));
        assert(has_player(rest, other) <==> has_player(s, other));
    }
    assert forall|other: Seq<char>| other != entry.name && has_player(s, other) implies 
        #[trigger] time_of_player(t, other) == time_of_player(s, other) by {
        assert(has_player(rest, other));
        assert(time_of_player(t, other) == time_of_player(rest, other));
        assert(time_of_player(rest, other) == time_of_player(s, other));
    }
}

} // verus!
