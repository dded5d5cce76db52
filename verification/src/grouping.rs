//! Exact source-scoped session reuse; never normalize numbers, IDs, or stack traces.
use vstd::prelude::*;

use crate::events;
use crate::events::{Event, EventView};
use crate::exact;
use crate::json;
use crate::json::{Items, Json, JsonView};
use crate::jev::{Judgment, JudgmentView};
use crate::memory;
use crate::memory::{Entry, EntryView, Memory, MemoryView, Verdict, VerdictView};

verus! {

/// What the identity of a group is made of: the source, the text and whether it was cut short,
/// and for a text that was the event itself.
pub open spec fn group_key(e: EventView) -> JsonView {
    JsonView::List(
        seq![].push(JsonView::Object(e.source)).push(JsonView::Text(e.text)).push(
            JsonView::Bool(e.truncated),
        ).push(
            json::optional_text(
                if e.truncated {
                    Some(e.id)
                } else {
                    None
                },
            ),
        ),
    )
}

pub fn group_id(event: &Event) -> (r: String)
    ensures
        r@ == events::identity(group_key(event@)),
        r@.len() == 20,
{
    let own = if event.truncated {
        json::string(event.id.as_str())
    } else {
        Json::Null
    };
    let key = Items::new().with(event.source.json()).with(json::string(event.text.as_str())).with(
        Json::Bool(event.truncated),
    ).with(own).list();
    events::hash(&key)
}

/// The identity of an event's group.
pub open spec fn group_of(e: EventView) -> Seq<char> {
    events::identity(group_key(e))
}

/// Events of the same source, or of alike ones, and of one text that were not cut short always
/// belong to one group, whatever their own identities and times. Unless the digits clash, no others do, but that an
/// event that was cut short has a group to itself.
pub proof fn group_is_exact(a: EventView, b: EventView)
    ensures
        a.source == b.source && a.text == b.text && !a.truncated && !b.truncated ==> same_group(
            a,
            b,
        ),
        same_group(a, b) ==> group_of(a) == group_of(b),
        exact::written(JsonView::Object(a.source)) && exact::written(JsonView::Object(b.source))
            && events::no_clash(group_key(a), group_key(b)) ==> (group_of(a) == group_of(b)
            <==> same_group(a, b)),
{
    let x = group_key(a)->List_0;
    let y = group_key(b)->List_0;
    if exact::written(x[0]) && exact::written(y[0]) {
        assert(exact::written(x[1]) && exact::written(x[2]) && exact::written(x[3]));
        assert(exact::written(y[1]) && exact::written(y[2]) && exact::written(y[3]));
    }
    exact::texts_are_exact(group_key(a), group_key(b));
    exact::alike_in_fours(x, y);
    exact::alike_to_itself(JsonView::Object(a.source));
}

/// Whether two events count as the same: those of alike sources and of the same text that were not
/// cut short, and otherwise only an event and itself.
pub open spec fn same_group(a: EventView, b: EventView) -> bool {
    &&& exact::alike(JsonView::Object(a.source), JsonView::Object(b.source))
    &&& a.text == b.text
    &&& a.truncated == b.truncated
    &&& a.truncated ==> a.id == b.id
}

/// What a verdict says of an event: a judgment, and the event that it was given for.
pub open spec fn as_judged(v: Option<VerdictView>) -> Option<(JudgmentView, Seq<char>)> {
    match v {
        Some(VerdictView::Event { judgment, id }) => Some((judgment, id)),
        _ => None,
    }
}

/// The judgments of a session, by the group of the event.
pub struct Cache {
    memory: Memory,
}

impl Cache {
    pub closed spec fn view(&self) -> MemoryView {
        self.memory@
    }

    /// A cache of `limit` judgments, each for `ttl` nanoseconds.
    pub fn new(limit: usize, ttl: u64) -> (r: Self)
        requires
            0 < limit,
        ensures
            r@ == (MemoryView { entries: seq![], limit: limit as nat, ttl }),
    {
        Cache { memory: Memory::new(limit, ttl) }
    }

    /// The judgment on the event's group and the event that it was given for, at a time in
    /// nanoseconds. An event that was cut short has none.
    pub fn get(&mut self, event: &Event, now: u64) -> (r: Option<(Judgment, String)>)
        ensures
            final(self)@ == (if event@.truncated {
                old(self)@
            } else {
                old(self)@.asked(group_of(event@), now)
            }),
            ({
                let known = if event@.truncated {
                    None
                } else {
                    as_judged(old(self)@.fresh(group_of(event@), now))
                };
                match r {
                    Some((judgment, id)) => known == Some((judgment@, id@)),
                    None => known is None,
                }
            }),
    {
        if event.truncated {
            return None;
        }
        let key = group_id(event);
        match self.memory.ask(key.as_str(), now) {
            Some(Verdict::Event { judgment, id }) => Some((judgment, id)),
            _ => None,
        }
    }

    /// Remembers the judgment on an event, unless it was cut short or the judgment cannot be
    /// reused.
    pub fn insert(&mut self, event: &Event, now: u64)
        ensures
            final(self)@ == inserted(old(self)@, event@, now),
    {
        if !event.truncated && event.judgment.reusable() {
            let entry = Entry {
                at: now,
                verdict: Verdict::Event {
                    judgment: event.judgment.clone(),
                    id: event.id.clone(),
                },
            };
            self.memory.tell(group_id(event), entry);
        }
    }
}

/// The entry that holds the judgment on an event, given at a time.
pub open spec fn entry_for(e: EventView, now: u64) -> EntryView {
    EntryView { at: now, verdict: VerdictView::Event { judgment: e.judgment, id: e.id } }
}

/// What is remembered once an event was judged.
pub open spec fn inserted(m: MemoryView, e: EventView, now: u64) -> MemoryView {
    if e.truncated || !e.judgment.reusable() {
        m
    } else {
        m.told(group_of(e), entry_for(e, now))
    }
}

/// A judgment that was remembered is found again for every event of the same group until it is
/// too old, and not from then on. One on evidence that was cut short, or that cannot be reused, is
/// not remembered.
pub proof fn remembered_judgments_are_reused(
    before: MemoryView,
    judged: EventView,
    at: u64,
    other: EventView,
    now: u64,
)
    requires
        group_of(judged) == group_of(other),
    ensures
        judged.truncated || !judged.judgment.reusable() ==> inserted(before, judged, at) == before,
        !judged.truncated && judged.judgment.reusable() ==> as_judged(
            inserted(before, judged, at).fresh(group_of(other), now),
        ) == (if memory::expired(at, now, before.ttl) {
            None
        } else {
            Some((judged.judgment, judged.id))
        }),
{
}

}
