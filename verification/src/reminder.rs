//! A reminder service: events are submitted with the time at which they become
//! ready, and are handed out, earliest first, once that time has come.

use vstd::prelude::*;
use std::cmp::Ordering;
use vstd::std_specs::cmp::{PartialEqSpecImpl, PartialOrdSpecImpl};
use crate::ident::Timestamp;
use crate::json::{Json, JsonView};
use crate::wire::{Wire, is_text, json_timestamp, lemma_timestamp_round_trip, text, timestamp_from_json, timestamp_json, timestamp_to_json};

verus! {

/// An event and the time at which it becomes ready.
#[derive(Clone, Debug)]
pub struct Entry {
    content: String,
    time: Timestamp,
}

pub struct EntryView {
    pub content: Seq<char>,
    pub time: Timestamp,
}

impl View for Entry {
    type V = EntryView;

    closed spec fn view(&self) -> EntryView {
        EntryView { content: self.content@, time: self.time }
    }
}

impl Entry {
    pub fn new(content: String, ready_at: Timestamp) -> (e: Entry)
        ensures
            e@ == (EntryView { content: content@, time: ready_at }),
    {
        Entry { content: content, time: ready_at }
    }

    pub fn get_content(&self) -> (c: &String)
        ensures
            c@ == self@.content,
    {
        &self.content
    }

    pub fn get_time(&self) -> (t: &Timestamp)
        ensures
            *t == self@.time,
    {
        &self.time
    }

    /// The order of entries: the one that is ready earlier is the greater, so
    /// that the greatest entry is the next to hand out.
    pub open spec fn order(self, other: Entry) -> Ordering {
        if other@.time.before(self@.time) {
            Ordering::Less
        } else if self@.time.before(other@.time) {
            Ordering::Greater
        } else {
            Ordering::Equal
        }
    }

    pub fn cmp(&self, other: &Self) -> (o: Ordering)
        ensures
            o == self.order(*other),
    {
        if other.time.is_before(&self.time) {
            Ordering::Less
        } else if self.time.is_before(&other.time) {
            Ordering::Greater
        } else {
            Ordering::Equal
        }
    }
}

impl PartialEq for Entry {
    fn eq(&self, other: &Self) -> (b: bool) {
        self.content == other.content && self.time == other.time
    }
}

impl PartialEqSpecImpl for Entry {
    open spec fn obeys_eq_spec() -> bool {
        true
    }

    open spec fn eq_spec(&self, other: &Self) -> bool {
        self@ == other@
    }
}

impl Eq for Entry {

}

impl PartialOrd for Entry {
    fn partial_cmp(&self, other: &Self) -> (o: Option<Ordering>) {
        Some(self.cmp(other))
    }
}

impl PartialOrdSpecImpl for Entry {
    open spec fn obeys_partial_cmp_spec() -> bool {
        true
    }

    open spec fn partial_cmp_spec(&self, other: &Self) -> Option<Ordering> {
        Some(self.order(*other))
    }
}

/// The JSON form of an entry: an object of the content and the time.
pub open spec fn entry_json(e: EntryView) -> JsonView {
    JsonView::Record(
        seq![("content"@, JsonView::Text(e.content)), ("time"@, timestamp_json(e.time))],
    )
}

pub open spec fn json_entry(j: JsonView) -> Option<EntryView> {
    match j {
        JsonView::Record(members) => if members.len() == 2 && members[0].0 == "content"@
            && members[1].0 == "time"@ {
            match (members[0].1, json_timestamp(members[1].1)) {
                (JsonView::Text(content), Some(time)) => Some(EntryView { content, time }),
                _ => None,
            }
        } else {
            None
        },
        _ => None,
    }
}

impl Wire for Entry {
    open spec fn json(&self) -> JsonView {
        entry_json(self@)
    }

    open spec fn accepts(j: JsonView) -> bool {
        json_entry(j) is Some
    }

    fn to_json(&self) -> (j: Json) {
        let mut members: Vec<(String, Json)> = Vec::new();
        members.push(("content".to_owned(), text(self.content.as_str())));
        members.push(("time".to_owned(), timestamp_to_json(&self.time)));
        let j = Json::record(members);
        assert(j@->Record_0 =~= entry_json(self@)->Record_0);
        j
    }

    fn from_json(j: &Json) -> (r: Option<Self>) {
        let members = match j.members() {
            Some(members) => members,
            None => {
                return None;
            },
        };
        if members.len() != 2 || !is_text(&members[0].0, "content") || !is_text(
            &members[1].0,
            "time",
        ) {
            return None;
        }
        match (members[0].1.as_text(), timestamp_from_json(&members[1].1)) {
            (Some(content), Some(time)) => {
                let e = Entry { content: content.clone(), time };
                proof {
                    let inner = members@[1].1@;
                    assert(inner->Record_0 =~= timestamp_json(time)->Record_0);
                    assert(j@->Record_0 =~= entry_json(e@)->Record_0);
                }
                Some(e)
            },
            _ => None,
        }
    }

    proof fn lemma_accepts_own(&self) {
        lemma_timestamp_round_trip(self@.time);
    }
}

/// The entries are in the order of their times, earliest first.
pub open spec fn in_order(s: Seq<EntryView>) -> bool {
    forall|i: int, j: int| 0 <= i <= j < s.len() ==> s[i].time.at_or_before(s[j].time)
}

/// Whether `p` is the place of a new entry for time `t`: behind every entry
/// that is ready at `t` or earlier, before every entry that is ready later.
pub open spec fn place_for(s: Seq<EntryView>, t: Timestamp, p: int) -> bool {
    &&& 0 <= p <= s.len()
    &&& forall|i: int| 0 <= i < p ==> s[i].time.at_or_before(t)
    &&& forall|i: int| p <= i < s.len() ==> t.before(s[i].time)
}

/// Whether handing out at time `now` turns the queue `before` into `after` and
/// gives `r`: the first event leaves the queue if its time has come by `now`,
/// and nothing happens otherwise.
pub open spec fn handed_out(
    before: Seq<EntryView>,
    now: Timestamp,
    r: Option<EntryView>,
    after: Seq<EntryView>,
) -> bool {
    if before.len() > 0 && before[0].time.at_or_before(now) {
        r == Some(before[0]) && after == before.drop_first()
    } else {
        r is None && after == before
    }
}

/// What was handed out, by its view.
pub open spec fn handed_view(r: Option<Entry>) -> Option<EntryView> {
    match r {
        Some(e) => Some(e@),
        None => None,
    }
}

/// The views of a list of entries, in order.
pub open spec fn entry_views(entries: Seq<Entry>) -> Seq<EntryView> {
    Seq::new(entries.len(), |i: int| entries[i]@)
}

/// The events that wait for their time.
pub struct ReadyReminderServer {
    entries: Vec<Entry>,
}

impl View for ReadyReminderServer {
    type V = Seq<EntryView>;

    closed spec fn view(&self) -> Seq<EntryView> {
        entry_views(self.entries@)
    }
}

impl ReadyReminderServer {
    /// The waiting events are kept in the order of their times.
    pub closed spec fn wf(&self) -> bool {
        in_order(self@)
    }

    pub proof fn lemma_in_order(&self)
        requires
            self.wf(),
        ensures
            in_order(self@),
    {
    }

    pub fn new() -> (s: ReadyReminderServer)
        ensures
            s.wf(),
            s@ == Seq::<EntryView>::empty(),
    {
        let s = ReadyReminderServer { entries: Vec::new() };
        assert(s@ =~= Seq::<EntryView>::empty());
        s
    }

    /// How many events wait.
    pub fn len(&self) -> (n: usize)
        ensures
            n == self@.len(),
    {
        self.entries.len()
    }

    /// Takes in an event that becomes ready at `ready_at`. It is placed behind
    /// the events that are ready at the same time or earlier.
    pub fn submit_event(&mut self, content: String, ready_at: Timestamp)
        requires
            old(self).wf(),
        ensures
            final(self).wf(),
            exists|p: int|
                place_for(old(self)@, ready_at, p) && final(self)@ == #[trigger] old(self)@.insert(
                    p,
                    EntryView { content: content@, time: ready_at },
                ),
    {
        let entry = Entry::new(content, ready_at);
        let mut p: usize = 0;
        while p < self.entries.len() && self.entries[p].time.is_at_or_before(&ready_at)
            invariant
                p <= self.entries@.len(),
                self.entries == old(self).entries,
                forall|i: int| 0 <= i < p ==> self@[i].time.at_or_before(ready_at),
            decreases self.entries@.len() - p,
        {
            p += 1;
        }
        proof {
            assert forall|i: int| p <= i < self@.len() implies ready_at.before(self@[i].time) by {
                assert(self@[p as int].time.at_or_before(self@[i].time));
            }
            assert(place_for(old(self)@, ready_at, p as int));
        }
        self.entries.insert(p, entry);
        proof {
            let e = EntryView { content: content@, time: ready_at };
            assert(self@ =~= old(self)@.insert(p as int, e));
            assert forall|i: int, j: int| 0 <= i <= j < self@.len() implies self@[i].time.at_or_before(
                self@[j].time,
            ) by {
                let a = if i < p { i } else { i - 1 };
                let b = if j < p { j } else { j - 1 };
                if i != p && j != p {
                    assert(old(self)@[a].time.at_or_before(old(self)@[b].time));
                }
            }
        }
    }

    /// The event that is ready first, if any waits.
    pub fn peek(&self) -> (r: Option<&Entry>)
        ensures
            match r {
                Some(e) => self@.len() > 0 && e@ == self@[0],
                None => self@.len() == 0,
            },
    {
        if self.entries.len() > 0 {
            Some(&self.entries[0])
        } else {
            None
        }
    }

    /// Hands out the event that is ready first, if its time has come by `now`.
    pub fn extract_ready(&mut self, now: Timestamp) -> (r: Option<Entry>)
        requires
            old(self).wf(),
        ensures
            final(self).wf(),
            handed_out(old(self)@, now, handed_view(r), final(self)@),
            match r {
                Some(e) => {
                    &&& old(self)@.len() > 0
                    &&& old(self)@[0].time.at_or_before(now)
                    &&& e@ == old(self)@[0]
                    &&& final(self)@ == old(self)@.drop_first()
                },
                None => {
                    &&& old(self)@.len() > 0 ==> !old(self)@[0].time.at_or_before(now)
                    &&& final(self)@ == old(self)@
                },
            },
    {
        if self.entries.len() > 0 && self.entries[0].time.is_at_or_before(&now) {
            let e = self.entries.remove(0);
            proof {
                assert(self@ =~= old(self)@.drop_first());
                assert forall|i: int, j: int| 0 <= i <= j < self@.len() implies self@[i].time.at_or_before(
                    self@[j].time,
                ) by {
                    assert(old(self)@[i + 1].time.at_or_before(old(self)@[j + 1].time));
                }
            }
            Some(e)
        } else {
            None
        }
    }

    /// Hands out the event that is ready first, if its time has come by the
    /// time that the system clock gives. Whatever the clock gives, the outcome
    /// is that of `extract_ready` at some time: an event that is ready at every
    /// time is handed out, and an empty queue hands out nothing.
    pub fn extract_event(&mut self) -> (r: Option<Entry>)
        requires
            old(self).wf(),
        ensures
            final(self).wf(),
            exists|now: Timestamp|
                now.nanos < 1_000_000_000 && #[trigger] handed_out(
                    old(self)@,
                    now,
                    handed_view(r),
                    final(self)@,
                ),
            match r {
                Some(e) => {
                    &&& old(self)@.len() > 0
                    &&& e@ == old(self)@[0]
                    &&& final(self)@ == old(self)@.drop_first()
                },
                None => final(self)@ == old(self)@,
            },
    {
        let now = Timestamp::now();
        self.extract_ready(now)
    }
}

/// No event is handed out before one that is ready earlier: in a well-formed
/// queue the first event is ready no later than any other.
pub proof fn lemma_first_is_earliest(s: Seq<EntryView>, i: int)
    requires
        in_order(s),
        0 <= i < s.len(),
    ensures
        s[0].time.at_or_before(s[i].time),
{
}

} // verus!
