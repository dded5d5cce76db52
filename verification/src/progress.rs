//! What a terminal view shows of a run: a bounded window of its events.
use std::collections::VecDeque;
use std::sync::Arc;

use vstd::prelude::*;

use crate::events;
use crate::events::{Event, EventView};
use crate::jev::{Usage, UsageView};

verus! {

/// The state of a run. Events are shared, and never change once they are here.
pub struct Progress {
    pub events: VecDeque<Arc<Event>>,
    pub pending: Vec<Arc<Event>>,
    pub total: u64,
    pub evicted: u64,
    pub usage: Usage,
    pub phase: &'static str,
    pub revision: u64,
    pub limit: usize,
}

#[verifier::ext_equal]
pub struct ProgressView {
    pub events: Seq<EventView>,
    pub pending: Seq<EventView>,
    pub total: u64,
    pub evicted: u64,
    pub usage: UsageView,
    pub phase: Seq<char>,
    pub revision: u64,
    pub limit: usize,
}

/// The views of a list of shared events.
pub open spec fn shared_view(v: Seq<Arc<Event>>) -> Seq<EventView> {
    Seq::new(v.len(), |i: int| v[i]@)
}

impl ProgressView {
    /// The state with an event added; the oldest goes where as many are held as may be.
    pub open spec fn with_event(self, e: EventView) -> ProgressView {
        let full = self.events.len() == self.limit;
        ProgressView {
            events: (if full && self.events.len() > 0 {
                self.events.drop_first()
            } else {
                self.events
            }).push(e),
            evicted: if full {
                (self.evicted + 1) as u64
            } else {
                self.evicted
            },
            total: (self.total + 1) as u64,
            ..self
        }
    }

    pub open spec fn with_events(self, added: Seq<EventView>) -> ProgressView
        decreases added.len(),
    {
        if added.len() == 0 {
            self
        } else {
            self.with_events(added.drop_last()).with_event(added.last())
        }
    }

    /// Whether so many more events can be counted.
    pub open spec fn countable(self, n: nat) -> bool {
        self.total + n <= u64::MAX && self.evicted + n <= u64::MAX && self.revision < u64::MAX
    }

    /// Every event is held or was evicted, and no more are held than may be.
    pub open spec fn balanced(self) -> bool {
        &&& self.limit > 0
        &&& self.events.len() <= self.limit
        &&& self.events.len() + self.evicted == self.total
    }
}

proof fn counted(p: ProgressView, added: Seq<EventView>)
    requires
        p.total + added.len() <= u64::MAX,
        p.evicted + added.len() <= u64::MAX,
    ensures
        p.with_events(added).total == p.total + added.len(),
        p.with_events(added).evicted <= p.evicted + added.len(),
        p.with_events(added).limit == p.limit,
        p.with_events(added).revision == p.revision,
        p.with_events(added).usage == p.usage,
    decreases added.len(),
{
    if added.len() > 0 {
        counted(p, added.drop_last());
    }
}

/// However many events are committed, every one is held or was counted as evicted, no more are
/// held than may be, and the newest is held.
pub proof fn commits_keep_balance(p: ProgressView, added: Seq<EventView>)
    requires
        p.balanced(),
        p.countable(added.len()),
    ensures
        p.with_events(added).balanced(),
        added.len() > 0 ==> p.with_events(added).events.last() == added.last(),
    decreases added.len(),
{
    if added.len() > 0 {
        commits_keep_balance(p, added.drop_last());
        counted(p, added.drop_last());
    }
}

fn share(events: &[Event]) -> (r: Vec<Arc<Event>>)
    ensures
        shared_view(r@) == events::events_view(events@),
{
    let mut r: Vec<Arc<Event>> = Vec::new();
    let mut i: usize = 0;
    while i < events.len()
        invariant
            i <= events@.len(),
            r@.len() == i,
            forall|k: int| 0 <= k < i ==> (#[trigger] r@[k])@ == events@[k]@,
        decreases events@.len() - i,
    {
        r.push(Arc::new(events[i].clone()));
        i += 1;
    }
    assert(shared_view(r@) =~= events::events_view(events@));
    r
}

impl Progress {
    pub open spec fn view(&self) -> ProgressView {
        ProgressView {
            events: shared_view(self.events@),
            pending: shared_view(self.pending@),
            total: self.total,
            evicted: self.evicted,
            usage: self.usage@,
            phase: self.phase@,
            revision: self.revision,
            limit: self.limit,
        }
    }

    pub fn new(limit: usize, usage: Usage) -> (r: Self)
        ensures
            r@ == (ProgressView {
                events: seq![],
                pending: seq![],
                total: 0,
                evicted: 0,
                usage: usage@,
                phase: "Collecting"@,
                revision: 0,
                limit,
            }),
    {
        let r = Progress {
            events: VecDeque::new(),
            pending: Vec::new(),
            total: 0,
            evicted: 0,
            usage,
            phase: "Collecting",
            revision: 0,
            limit,
        };
        assert(r@.events =~= seq![]);
        assert(r@.pending =~= seq![]);
        r
    }

    /// Shows events that are about to be judged.
    pub fn begin(&mut self, events: &[Event])
        requires
            old(self)@.revision < u64::MAX,
        ensures
            final(self)@ == (ProgressView {
                pending: events::events_view(events@),
                revision: (old(self)@.revision + 1) as u64,
                ..old(self)@
            }),
    {
        self.pending = share(events);
        self.revision = self.revision + 1;
    }

    /// Adds events that were judged.
    pub fn commit(&mut self, events: &[Event], usage: Option<&Usage>)
        requires
            old(self)@.countable(events@.len()),
        ensures
            final(self)@ == (ProgressView {
                pending: seq![],
                usage: match usage {
                    Some(u) => u@,
                    None => old(self)@.usage,
                },
                revision: (old(self)@.revision + 1) as u64,
                ..old(self)@.with_events(events::events_view(events@))
            }),
    {
        let ghost start = self@;
        let ghost all = events::events_view(events@);
        let added = share(events);
        self.pending = Vec::new();
        assert(shared_view(self.pending@) =~= seq![]);
        let mut i: usize = 0;
        let ghost cleared = ProgressView { pending: seq![], ..start };
        assert(all.take(0) =~= seq![]);
        assert(self@ == cleared.with_events(all.take(0)));
        while i < added.len()
            invariant
                shared_view(added@) == all,
                i <= added@.len(),
                self@ == cleared.with_events(all.take(i as int)),
                cleared.countable(all.len()),
            decreases added@.len() - i,
        {
            let ghost before = self@;
            proof {
                counted(cleared, all.take(i as int));
            }
            if self.events.len() == self.limit {
                let _ = self.events.pop_front();
                self.evicted = self.evicted + 1;
                assert(shared_view(self.events@) =~= if before.events.len() > 0 {
                    before.events.drop_first()
                } else {
                    before.events
                });
            }
            let ghost kept = shared_view(self.events@);
            let event = Arc::clone(&added[i]);
            assert(event@ == all[i as int]);
            self.events.push_back(event);
            assert(shared_view(self.events@) =~= kept.push(all[i as int]));
            self.total = self.total + 1;
            assert(self@ =~= before.with_event(all[i as int]));
            assert(all.take(i + 1).drop_last() =~= all.take(i as int));
            i += 1;
        }
        assert(all.take(i as int) =~= all);
        proof {
            counted(start, all);
            pending_apart(start, all);
        }
        if let Some(u) = usage {
            self.usage = u.clone();
        }
        self.revision = self.revision + 1;
    }

    pub fn finish(&mut self, phase: &'static str)
        requires
            old(self)@.revision < u64::MAX,
        ensures
            final(self)@ == (ProgressView {
                phase: phase@,
                revision: (old(self)@.revision + 1) as u64,
                ..old(self)@
            }),
    {
        self.phase = phase;
        self.revision = self.revision + 1;
    }

    /// The state without its events.
    pub fn counters(&self) -> (r: Self)
        ensures
            r@ == (ProgressView { events: seq![], pending: seq![], ..self@ }),
    {
        let r = Progress {
            events: VecDeque::new(),
            pending: Vec::new(),
            total: self.total,
            evicted: self.evicted,
            usage: self.usage.clone(),
            phase: self.phase,
            revision: self.revision,
            limit: self.limit,
        };
        assert(r@.events =~= seq![]);
        assert(r@.pending =~= seq![]);
        r
    }
}

proof fn pending_apart(p: ProgressView, added: Seq<EventView>)
    ensures
        (ProgressView { pending: seq![], ..p }).with_events(added) == (ProgressView {
            pending: seq![],
            ..p.with_events(added)
        }),
    decreases added.len(),
{
    if added.len() > 0 {
        pending_apart(p, added.drop_last());
    }
}

}
