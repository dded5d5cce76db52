//! One bounded analysis lane: batching, exact reuse, retention, and explicit loss counters.
use vstd::prelude::*;

use crate::events;
use crate::events::{Event, EventView, Framer, FramerView, Parser, ParserView, Source};
use crate::grouping;
use crate::grouping::Cache;
use crate::ieee;
use crate::ieee::Real;
use crate::jev;
use crate::jev::{Importance, Judgment, JudgmentView};
use crate::json::JsonView;
use crate::memory::MemoryView;
use crate::report;
use crate::report::{Metrics, MetricsView, Report, ReportView};
use crate::text;

verus! {

impl MetricsView {
    /// The counts with an event handed to the queue, of which so many places are taken, or dropped
    /// where it had none.
    pub open spec fn queued(self, sent: bool, depth: usize) -> MetricsView {
        MetricsView {
            received: (self.received + 1) as u64,
            dropped: if sent {
                self.dropped
            } else {
                (self.dropped + 1) as u64
            },
            queue_depth: depth,
            queue_high_water: if self.queue_high_water < depth {
                depth
            } else {
                self.queue_high_water
            },
            ..self
        }
    }
}

/// Counts an event that was handed to the queue.
pub fn emitted(metrics: &mut Metrics, sent: bool, depth: usize)
    requires
        old(metrics)@.received < u64::MAX,
        old(metrics)@.dropped < u64::MAX,
    ensures
        final(metrics)@ == old(metrics)@.queued(sent, depth),
{
    metrics.received = metrics.received + 1;
    if !sent {
        metrics.dropped = metrics.dropped + 1;
    }
    metrics.queue_depth = depth;
    if metrics.queue_high_water < depth {
        metrics.queue_high_water = depth;
    }
}

/// How events are judged.
pub struct AnalyzeOptions {
    pub batch_size: usize,
    pub max_batches: u64,
    pub max_cost: Real,
    pub grouping: bool,
    pub retain: usize,
    pub max_events: u64,
    pub live: bool,
    pub print_events: bool,
}

/// How long a judgment is remembered, in nanoseconds: five minutes.
pub const MEMORY_TIME: u64 = 300_000_000_000;

/// The events of a run as they are judged, batch by batch.
pub struct Lane {
    pub report: Report,
    pub cache: Cache,
    pub options: AnalyzeOptions,
}

/// Which events of a batch are to be judged, and which wait for the judgment on another.
pub struct Plan {
    pub owned: Vec<usize>,
    pub duplicates: Vec<(usize, usize)>,
}

#[verifier::ext_equal]
pub struct PlanView {
    pub owned: Seq<int>,
    pub duplicates: Seq<(int, int)>,
}

impl Plan {
    pub open spec fn view(&self) -> PlanView {
        PlanView {
            owned: Seq::new(self.owned@.len(), |i: int| self.owned@[i] as int),
            duplicates: Seq::new(
                self.duplicates@.len(),
                |i: int| (self.duplicates@[i].0 as int, self.duplicates@[i].1 as int),
            ),
        }
    }
}

/// A batch as far as it was sorted out.
#[verifier::ext_equal]
pub struct Sorted {
    pub memory: MemoryView,
    pub events: Seq<EventView>,
    pub owned: Seq<int>,
    pub leaders: Seq<(Seq<char>, int)>,
    pub duplicates: Seq<(int, int)>,
}

/// The event that leads a group in a batch.
pub open spec fn leader(leaders: Seq<(Seq<char>, int)>, group: Seq<char>) -> Option<int>
    decreases leaders.len(),
{
    if leaders.len() == 0 {
        None
    } else if leaders[0].0 == group {
        Some(leaders[0].1)
    } else {
        leader(leaders.drop_first(), group)
    }
}

/// An event with a judgment that was given before.
pub open spec fn reusing(
    e: EventView,
    judgment: JudgmentView,
    representative: Option<Seq<char>>,
) -> EventView {
    EventView {
        judgment,
        analysis_reused: true,
        analysis_representative_id: representative,
        ..e
    }
}

/// An event judged by the local rules alone.
pub open spec fn by_rules(e: EventView) -> EventView {
    EventView {
        judgment: JudgmentView {
            importance: if e.baseline.important {
                Importance::Important
            } else {
                Importance::Uncertain
            },
            ..e.judgment
        },
        ..e
    }
}

impl Sorted {
    /// Sorts out the event at a place. What is known from an earlier run comes first, then what is
    /// remembered of this one; of several events of one group one leads, and the others wait for
    /// its judgment. Without a service the local rules decide.
    pub open spec fn next(
        self,
        i: int,
        known: Option<JudgmentView>,
        online: bool,
        grouping: bool,
        now: u64,
    ) -> Sorted {
        let e = self.events[i];
        if known is Some {
            Sorted {
                events: self.events.update(
                    i,
                    reusing(e, known->Some_0, e.analysis_representative_id),
                ),
                ..self
            }
        } else if !online {
            Sorted { events: self.events.update(i, by_rules(e)), ..self }
        } else if grouping && !e.truncated {
            let group = grouping::group_of(e);
            let asked = self.memory.asked(group, now);
            match grouping::as_judged(self.memory.fresh(group, now)) {
                Some((judgment, id)) => Sorted {
                    memory: asked,
                    events: self.events.update(i, reusing(e, judgment, Some(id))),
                    ..self
                },
                None => match leader(self.leaders, e.group_id) {
                    Some(k) => Sorted {
                        memory: asked,
                        duplicates: self.duplicates.push((i, k)),
                        ..self
                    },
                    None => Sorted {
                        memory: asked,
                        leaders: self.leaders.push((e.group_id, i)),
                        owned: self.owned.push(i),
                        ..self
                    },
                },
            }
        } else {
            Sorted { owned: self.owned.push(i), ..self }
        }
    }
}

/// The first `n` events of a batch, sorted out.
pub open spec fn sorted_out(
    memory: MemoryView,
    batch: Seq<EventView>,
    known: Seq<Option<JudgmentView>>,
    online: bool,
    grouping: bool,
    now: u64,
    n: nat,
) -> Sorted
    decreases n,
{
    if n == 0 {
        Sorted { memory, events: batch, owned: seq![], leaders: seq![], duplicates: seq![] }
    } else {
        let i = n - 1;
        sorted_out(memory, batch, known, online, grouping, now, i as nat).next(
            i,
            if i < known.len() {
                known[i]
            } else {
                None
            },
            online,
            grouping,
            now,
        )
    }
}

/// The places in a plan lie in the batch, an event that leads is to be judged itself, and none
/// waits for itself.
pub open spec fn plan_fits(p: PlanView, n: int) -> bool {
    &&& forall|k: int| 0 <= k < p.owned.len() ==> 0 <= #[trigger] p.owned[k] < n
    &&& forall|k: int|
        0 <= k < p.duplicates.len() ==> 0 <= (#[trigger] p.duplicates[k]).0 < n && 0
            <= p.duplicates[k].1 < n && p.owned.contains(p.duplicates[k].1)
}

/// The views of judgments that are known or not.
pub open spec fn known_view(v: Seq<Option<Judgment>>) -> Seq<Option<JudgmentView>> {
    Seq::new(
        v.len(),
        |i: int|
            match v[i] {
                Some(j) => Some(j@),
                None => None,
            },
    )
}

fn find_leader(leaders: &Vec<(String, usize)>, group: &String) -> (r: Option<usize>)
    ensures
        match r {
            Some(k) => leader(leaders_view(leaders@), group@) == Some(k as int) && exists|m: int|
                0 <= m < leaders@.len() && #[trigger] leaders@[m].1 == k,
            None => leader(leaders_view(leaders@), group@) is None,
        },
{
    let ghost all = leaders_view(leaders@);
    let mut i: usize = 0;
    assert(all.skip(0) =~= all);
    while i < leaders.len()
        invariant
            all == leaders_view(leaders@),
            i <= leaders@.len(),
            leader(all.skip(i as int), group@) == leader(all, group@),
        decreases leaders@.len() - i,
    {
        assert(all.skip(i as int)[0] == (leaders@[i as int].0@, leaders@[i as int].1 as int));
        if leaders[i].0 == *group {
            assert(leaders@[i as int].1 == leaders[i as int].1);
            return Some(leaders[i].1);
        }
        assert(all.skip(i as int).drop_first() =~= all.skip(i + 1));
        i += 1;
    }
    None
}

spec fn leaders_view(v: Seq<(String, usize)>) -> Seq<(Seq<char>, int)> {
    Seq::new(v.len(), |i: int| (v[i].0@, v[i].1 as int))
}

impl Lane {
    pub open spec fn memory(&self) -> MemoryView {
        self.cache@
    }

    /// A lane that has judged nothing yet.
    pub fn new(options: AnalyzeOptions) -> (r: Self)
        requires
            0 < options.retain,
        ensures
            r.options == options,
            r.report@ == ReportView::fresh(options.retain),
            r.memory() == (MemoryView {
                entries: seq![],
                limit: options.retain as nat,
                ttl: MEMORY_TIME,
            }),
    {
        Lane {
            report: Report::new(options.retain),
            cache: Cache::new(options.retain, MEMORY_TIME),
            options,
        }
    }

    /// How many events the next batch may have; none where the run has seen as many as it may.
    pub fn batch_limit(&self) -> (r: Option<usize>)
        ensures
            ({
                let o = self.options;
                let left = o.max_events - self.report@.total;
                match r {
                    Some(n) => (o.live || left > 0) && n == (if o.live || o.batch_size <= left {
                        o.batch_size as int
                    } else {
                        left
                    }),
                    None => !o.live && left <= 0,
                }
            }),
    {
        if self.options.live {
            return Some(self.options.batch_size);
        }
        if self.report.total >= self.options.max_events {
            return None;
        }
        let left = self.options.max_events - self.report.total;
        if self.options.batch_size as u64 <= left {
            Some(self.options.batch_size)
        } else {
            Some(left as usize)
        }
    }

    /// Sorts out a batch before it is judged. `known` holds what an earlier run says of its
    /// events.
    pub fn prepare(
        &mut self,
        batch: &mut Vec<Event>,
        known: &Vec<Option<Judgment>>,
        online: bool,
        now: u64,
    ) -> (plan: Plan)
        ensures
            final(self).options == old(self).options,
            final(self).report@ == old(self).report@,
            ({
                let s = sorted_out(
                    old(self).memory(),
                    events::events_view(old(batch)@),
                    known_view(known@),
                    online,
                    old(self).options.grouping,
                    now,
                    old(batch)@.len(),
                );
                &&& final(self).memory() == s.memory
                &&& events::events_view(final(batch)@) == s.events
                &&& plan@ == (PlanView { owned: s.owned, duplicates: s.duplicates })
            }),
            final(batch)@.len() == old(batch)@.len(),
            plan_fits(plan@, final(batch)@.len() as int),
    {
        let ghost first = events::events_view(batch@);
        let ghost memory = self.memory();
        let ghost said = known_view(known@);
        let ghost options = self.options;
        let ghost reported = self.report@;
        let grouping = self.options.grouping;
        let mut owned: Vec<usize> = Vec::new();
        let mut leaders: Vec<(String, usize)> = Vec::new();
        let mut duplicates: Vec<(usize, usize)> = Vec::new();
        let ghost mut plan = PlanView { owned: seq![], duplicates: seq![] };
        let mut i: usize = 0;
        assert(leaders_view(leaders@) =~= seq![]);
        while i < batch.len()
            invariant
                i <= batch@.len(),
                batch@.len() == first.len(),
                grouping == options.grouping,
                self.options == options,
                self.report@ == reported,
                said == known_view(known@),
                ({
                    let s = sorted_out(
                        memory,
                        first,
                        said,
                        online,
                        options.grouping,
                        now,
                        i as nat,
                    );
                    &&& self.memory() == s.memory
                    &&& events::events_view(batch@) == s.events
                    &&& plan.owned == s.owned
                    &&& leaders_view(leaders@) == s.leaders
                    &&& plan.duplicates == s.duplicates
                }),
                plan == (Plan { owned, duplicates })@,
                plan_fits(plan, i as int),
                forall|m: int|
                    0 <= m < leaders@.len() ==> plan.owned.contains(
                        #[trigger] leaders@[m].1 as int,
                    ),
            decreases batch@.len() - i,
        {
            let ghost before = events::events_view(batch@);
            let ghost s = sorted_out(memory, first, said, online, options.grouping, now, i as nat);
            let ghost next = sorted_out(
                memory,
                first,
                said,
                online,
                options.grouping,
                now,
                (i + 1) as nat,
            );
            let ghost e = batch@[i as int]@;
            assert(s.events[i as int] == e);
            let mut done = false;
            if i < known.len() {
                assert(said[i as int] == match known@[i as int] {
                    Some(j) => Some(j@),
                    None => None,
                });
                if let Some(j) = &known[i] {
                    let judgment = j.clone();
                    batch[i].judgment = judgment;
                    batch[i].analysis_reused = true;
                    done = true;
                    assert(batch@[i as int]@ =~= reusing(
                        e,
                        said[i as int]->Some_0,
                        e.analysis_representative_id,
                    ));
                    assert(events::events_view(batch@) =~= next.events);
                }
            }
            if done {
            } else if !online {
                let important = batch[i].baseline.important;
                batch[i].judgment.importance = if important {
                    Importance::Important
                } else {
                    Importance::Uncertain
                };
                assert(batch@[i as int]@ =~= by_rules(e));
                assert(events::events_view(batch@) =~= next.events);
            } else if grouping && !batch[i].truncated {
                match self.cache.get(&batch[i], now) {
                    Some((judgment, id)) => {
                        let ghost (j, r) = (judgment@, id@);
                        batch[i].judgment = judgment;
                        batch[i].analysis_reused = true;
                        batch[i].analysis_representative_id = Some(id);
                        assert(batch@[i as int]@ =~= reusing(e, j, Some(r)));
                        assert(events::events_view(batch@) =~= next.events);
                    },
                    None => {
                        match find_leader(&leaders, &batch[i].group_id) {
                            Some(k) => {
                                let ghost was = plan;
                                duplicates.push((i, k));
                                proof {
                                    plan = (Plan { owned, duplicates })@;
                                    let m = choose|m: int|
                                        0 <= m < leaders@.len() && #[trigger] leaders@[m].1 == k;
                                    assert(was.owned.contains(leaders@[m].1 as int));
                                }
                                assert(plan.owned =~= was.owned);
                                assert(plan.duplicates =~= was.duplicates.push(
                                    (i as int, k as int),
                                ));
                                assert forall|m: int| 0 <= m < plan.duplicates.len() implies 0 <= (
                                #[trigger] plan.duplicates[m]).0 < i + 1 && 0
                                    <= plan.duplicates[m].1 < i + 1 && plan.owned.contains(
                                    plan.duplicates[m].1,
                                ) by {
                                    if m < was.duplicates.len() {
                                        assert(was.duplicates[m] == plan.duplicates[m]);
                                    } else {
                                        let w = choose|w: int|
                                            0 <= w < was.owned.len() && was.owned[w] == k as int;
                                        assert(0 <= was.owned[w] < i);
                                    }
                                }
                            },
                            None => {
                                let ghost was = plan;
                                let ghost led = leaders_view(leaders@);
                                let ghost heads = leaders@;
                                leaders.push((batch[i].group_id.clone(), i));
                                owned.push(i);
                                proof {
                                    plan = (Plan { owned, duplicates })@;
                                }
                                assert(plan.owned =~= was.owned.push(i as int));
                                assert(plan.duplicates =~= was.duplicates);
                                assert(leaders_view(leaders@) =~= led.push(
                                    (e.group_id, i as int),
                                ));
                                proof {
                                    grows(was, plan, i as int);
                                }
                                assert forall|m: int|
                                    0 <= m < leaders@.len() implies plan.owned.contains(
                                    #[trigger] leaders@[m].1 as int,
                                ) by {
                                    if m < heads.len() {
                                        assert(leaders@[m] == heads[m]);
                                        assert(was.owned.contains(heads[m].1 as int));
                                        let w = choose|w: int|
                                            0 <= w < was.owned.len() && was.owned[w]
                                                == heads[m].1 as int;
                                        assert(plan.owned[w] == heads[m].1 as int);
                                    } else {
                                        assert(plan.owned[was.owned.len() as int] == i as int);
                                    }
                                }
                            },
                        }
                    },
                }
            } else {
                let ghost was = plan;
                owned.push(i);
                proof {
                    plan = (Plan { owned, duplicates })@;
                }
                assert(plan.owned =~= was.owned.push(i as int));
                assert(plan.duplicates =~= was.duplicates);
                proof {
                    grows(was, plan, i as int);
                }
                assert forall|m: int| 0 <= m < leaders@.len() implies plan.owned.contains(
                    #[trigger] leaders@[m].1 as int,
                ) by {
                    assert(was.owned.contains(leaders@[m].1 as int));
                    let w = choose|w: int|
                        0 <= w < was.owned.len() && was.owned[w] == leaders@[m].1 as int;
                    assert(plan.owned[w] == leaders@[m].1 as int);
                }
            }
            assert(plan.owned =~= next.owned);
            i += 1;
        }
        Plan { owned, duplicates }
    }
}

proof fn grows(was: PlanView, plan: PlanView, i: int)
    requires
        plan_fits(was, i),
        0 <= i,
        plan.owned == was.owned.push(i),
        plan.duplicates == was.duplicates,
    ensures
        plan_fits(plan, i + 1),
{
    assert forall|k: int| 0 <= k < plan.owned.len() implies 0 <= #[trigger] plan.owned[k] < i
        + 1 by {
        if k < was.owned.len() {
            assert(plan.owned[k] == was.owned[k]);
        }
    }
    assert forall|k: int| 0 <= k < plan.duplicates.len() implies 0 <= (
    #[trigger] plan.duplicates[k]).0 < i + 1 && 0 <= plan.duplicates[k].1 < i + 1
        && plan.owned.contains(plan.duplicates[k].1) by {
        let w = choose|w: int|
            0 <= w < was.owned.len() && was.owned[w] == was.duplicates[k].1;
        assert(plan.owned[w] == was.duplicates[k].1);
    }
}

/// Why a batch is not put before the service.
pub open spec fn refused(
    o: AnalyzeOptions,
    batches: u64,
    stopped: bool,
    cost: u64,
) -> Option<Seq<char>> {
    if stopped {
        Some("Stopped before classification"@)
    } else if batches >= o.max_batches {
        Some("AI batch budget exhausted"@)
    } else if ieee::at_most(o.max_cost.bits, cost) {
        Some("Estimated cost threshold reached"@)
    } else {
        None
    }
}

/// Events with the judgments of the service on those that were put before it, and what is
/// remembered of them.
pub open spec fn with_judgments(
    memory: MemoryView,
    events: Seq<EventView>,
    owned: Seq<int>,
    judgments: Seq<JudgmentView>,
    grouping: bool,
    now: u64,
    n: nat,
) -> (MemoryView, Seq<EventView>)
    decreases n,
{
    if n == 0 {
        (memory, events)
    } else {
        let k = n - 1;
        let (m, v) = with_judgments(memory, events, owned, judgments, grouping, now, k as nat);
        let i = owned[k];
        let e = EventView { judgment: judgments[k].conservative(v[i].truncated), ..v[i] };
        (
            if grouping {
                grouping::inserted(m, e, now)
            } else {
                m
            },
            v.update(i, e),
        )
    }
}

/// Events without a judgment on those that should have had one, and why.
pub open spec fn with_failures(
    events: Seq<EventView>,
    owned: Seq<int>,
    error: Seq<char>,
    n: nat,
) -> Seq<EventView>
    decreases n,
{
    if n == 0 {
        events
    } else {
        let k = n - 1;
        let v = with_failures(events, owned, error, k as nat);
        let i = owned[k];
        v.update(i, EventView { judgment: jev::failed_judgment(error), ..v[i] })
    }
}

/// An event with the judgment on another of its group. It counts as reused where there is one.
pub open spec fn following(e: EventView, lead: EventView) -> EventView {
    if lead.judgment.reusable() {
        reusing(e, lead.judgment, Some(lead.id))
    } else {
        EventView { judgment: lead.judgment, ..e }
    }
}

/// Events in which those that waited have the judgment on the one that led.
pub open spec fn with_followers(
    events: Seq<EventView>,
    duplicates: Seq<(int, int)>,
    n: nat,
) -> Seq<EventView>
    decreases n,
{
    if n == 0 {
        events
    } else {
        let k = n - 1;
        let v = with_followers(events, duplicates, k as nat);
        let (i, lead) = duplicates[k];
        v.update(i, following(v[i], v[lead]))
    }
}

/// What came of putting a batch before the service.
pub enum Verdicts {
    Judged(Seq<JudgmentView>),
    Failed(Seq<char>),
}

pub open spec fn verdicts_view(r: Result<Vec<Judgment>, String>) -> Verdicts {
    match r {
        Ok(v) => Verdicts::Judged(jev::judgments_view(v@)),
        Err(e) => Verdicts::Failed(e@),
    }
}

/// A batch with all that came of it.
pub open spec fn settled(
    memory: MemoryView,
    events: Seq<EventView>,
    plan: PlanView,
    verdicts: Verdicts,
    grouping: bool,
    now: u64,
) -> (MemoryView, Seq<EventView>) {
    let (m, v) = match verdicts {
        Verdicts::Judged(judgments) => {
            let n = if judgments.len() < plan.owned.len() {
                judgments.len()
            } else {
                plan.owned.len()
            };
            with_judgments(memory, events, plan.owned, judgments, grouping, now, n)
        },
        Verdicts::Failed(error) => (
            memory,
            with_failures(events, plan.owned, error, plan.owned.len()),
        ),
    };
    (m, with_followers(v, plan.duplicates, plan.duplicates.len()))
}

impl Lane {
    /// Why the next batch is not put before the service, if it is not.
    pub fn refusal(&self, stopped: bool, cost: &Real) -> (r: Option<&'static str>)
        ensures
            match r {
                Some(e) => refused(self.options, self.report@.batches, stopped, cost.bits) == Some(
                    e@,
                ),
                None => refused(self.options, self.report@.batches, stopped, cost.bits) is None,
            },
    {
        if stopped {
            Some("Stopped before classification")
        } else if self.report.batches >= self.options.max_batches {
            Some("AI batch budget exhausted")
        } else if ieee::is_at_most(self.options.max_cost.bits, cost.bits) {
            Some("Estimated cost threshold reached")
        } else {
            None
        }
    }

    /// Whether a live run ends behind a batch: nothing more would be judged.
    pub fn ends(&self, was_refused: bool, cost: &Real) -> (r: bool)
        ensures
            r == (self.options.live && (was_refused || ieee::at_most(
                self.options.max_cost.bits,
                cost.bits,
            ))),
    {
        self.options.live && (was_refused || ieee::is_at_most(
            self.options.max_cost.bits,
            cost.bits,
        ))
    }

    /// The events of a batch that are put before the service.
    pub fn questions(&self, batch: &Vec<Event>, plan: &Plan) -> (r: Vec<Event>)
        requires
            plan_fits(plan@, batch@.len() as int),
        ensures
            events::events_view(r@) == Seq::new(
                plan@.owned.len(),
                |k: int| batch@[plan@.owned[k]]@,
            ),
    {
        let mut r: Vec<Event> = Vec::new();
        let mut k: usize = 0;
        while k < plan.owned.len()
            invariant
                k <= plan.owned@.len(),
                r@.len() == k,
                plan_fits(plan@, batch@.len() as int),
                forall|m: int| 0 <= m < k ==> (#[trigger] r@[m])@ == batch@[plan@.owned[m]]@,
            decreases plan.owned@.len() - k,
        {
            assert(0 <= plan@.owned[k as int] < batch@.len());
            r.push(batch[plan.owned[k]].clone());
            k += 1;
        }
        assert(events::events_view(r@) =~= Seq::new(
            plan@.owned.len(),
            |k: int| batch@[plan@.owned[k]]@,
        ));
        r
    }

    /// Brings what came of a batch into its events, and remembers what can be reused.
    pub fn settle(
        &mut self,
        batch: &mut Vec<Event>,
        plan: &Plan,
        result: Result<Vec<Judgment>, String>,
        now: u64,
    )
        requires
            plan_fits(plan@, old(batch)@.len() as int),
        ensures
            final(self).options == old(self).options,
            final(self).report@ == old(self).report@,
            final(batch)@.len() == old(batch)@.len(),
            (final(self).memory(), events::events_view(final(batch)@)) == settled(
                old(self).memory(),
                events::events_view(old(batch)@),
                plan@,
                verdicts_view(result),
                old(self).options.grouping,
                now,
            ),
    {
        let ghost first = events::events_view(batch@);
        let ghost memory = self.memory();
        let ghost reported = self.report@;
        let ghost options = self.options;
        let ghost verdicts = verdicts_view(result);
        let ghost size = batch@.len();
        let grouping = self.options.grouping;
        match result {
            Ok(judgments) => {
                let ghost said = jev::judgments_view(judgments@);
                let mut k: usize = 0;
                while k < plan.owned.len() && k < judgments.len()
                    invariant
                        k <= plan.owned@.len(),
                        k <= judgments@.len(),
                        batch@.len() == size,
                        plan_fits(plan@, size as int),
                        grouping == options.grouping,
                        self.options == options,
                        self.report@ == reported,
                        said == jev::judgments_view(judgments@),
                        (self.memory(), events::events_view(batch@)) == with_judgments(
                            memory,
                            first,
                            plan@.owned,
                            said,
                            options.grouping,
                            now,
                            k as nat,
                        ),
                    decreases plan.owned@.len() - k,
                {
                    let ghost before = events::events_view(batch@);
                    assert(0 <= plan@.owned[k as int] < size);
                    let i = plan.owned[k];
                    let ghost e = batch@[i as int]@;
                    assert(before[i as int] == e);
                    let truncated = batch[i].truncated;
                    let judgment = judgments[k].clone().conservative(truncated);
                    batch[i].judgment = judgment;
                    let ghost judged = EventView {
                        judgment: said[k as int].conservative(e.truncated),
                        ..e
                    };
                    assert(batch@[i as int]@ =~= judged);
                    assert(events::events_view(batch@) =~= before.update(i as int, judged));
                    if grouping {
                        self.cache.insert(&batch[i], now);
                    }
                    k += 1;
                }
            },
            Err(error) => {
                let mut k: usize = 0;
                while k < plan.owned.len()
                    invariant
                        k <= plan.owned@.len(),
                        batch@.len() == size,
                        plan_fits(plan@, size as int),
                        self.options == options,
                        self.report@ == reported,
                        self.memory() == memory,
                        events::events_view(batch@) == with_failures(
                            first,
                            plan@.owned,
                            error@,
                            k as nat,
                        ),
                    decreases plan.owned@.len() - k,
                {
                    let ghost before = events::events_view(batch@);
                    assert(0 <= plan@.owned[k as int] < size);
                    let i = plan.owned[k];
                    let ghost e = batch@[i as int]@;
                    assert(before[i as int] == e);
                    batch[i].judgment = Judgment::failed(error.as_str());
                    let ghost failed = EventView { judgment: jev::failed_judgment(error@), ..e };
                    assert(batch@[i as int]@ =~= failed);
                    assert(events::events_view(batch@) =~= before.update(i as int, failed));
                    k += 1;
                }
            },
        }
        let ghost judged = events::events_view(batch@);
        let ghost kept = self.memory();
        let mut k: usize = 0;
        while k < plan.duplicates.len()
            invariant
                k <= plan.duplicates@.len(),
                batch@.len() == size,
                plan_fits(plan@, size as int),
                self.options == options,
                self.report@ == reported,
                self.memory() == kept,
                events::events_view(batch@) == with_followers(
                    judged,
                    plan@.duplicates,
                    k as nat,
                ),
            decreases plan.duplicates@.len() - k,
        {
            let ghost before = events::events_view(batch@);
            assert(0 <= plan@.duplicates[k as int].0 < size && 0 <= plan@.duplicates[k as int].1
                < size);
            let (i, lead) = plan.duplicates[k];
            assert(plan@.duplicates[k as int] == (i as int, lead as int));
            let ghost e = batch@[i as int]@;
            let ghost l = batch@[lead as int]@;
            assert(before[i as int] == e && before[lead as int] == l);
            let judgment = batch[lead].judgment.clone();
            let reusable = judgment.reusable();
            let id = batch[lead].id.clone();
            batch[i].judgment = judgment;
            if reusable {
                batch[i].analysis_reused = true;
                batch[i].analysis_representative_id = Some(id);
            }
            assert(batch@[i as int]@ =~= following(e, l));
            assert(events::events_view(batch@) =~= before.update(i as int, following(e, l)));
            k += 1;
        }
    }
}

impl ReportView {
    /// The report with events recorded, one after the other.
    pub open spec fn recorded_all(self, events: Seq<EventView>) -> ReportView
        decreases events.len(),
    {
        if events.len() == 0 {
            self
        } else {
            self.recorded_all(events.drop_last()).recorded(events.last())
        }
    }

    /// Whether so many events, with so many lines, can be counted.
    pub open spec fn has_room(self, n: nat, lines: nat) -> bool {
        &&& self.total + n <= u64::MAX
        &&& self.lines + lines <= u64::MAX
        &&& self.reused + n <= u64::MAX
        &&& self.evicted + n <= u64::MAX
        &&& self.counts.important + n <= u64::MAX
        &&& self.counts.routine + n <= u64::MAX
        &&& self.counts.uncertain + n <= u64::MAX
        &&& self.counts.unknown + n <= u64::MAX
    }
}

/// The lines of events.
pub open spec fn lines_of(events: Seq<EventView>) -> nat
    decreases events.len(),
{
    if events.len() == 0 {
        0
    } else {
        lines_of(events.drop_last()) + events.last().line_count as nat
    }
}

/// What is said of evidence that was cut short.
pub open spec fn oversized() -> Seq<char> {
    "Oversized or incomplete event; classification requires review"@
}

impl MetricsView {
    /// The counts with a coverage record for each event that was cut short.
    pub open spec fn with_oversized(self, events: Seq<EventView>) -> MetricsView
        decreases events.len(),
    {
        if events.len() == 0 {
            self
        } else {
            let before = self.with_oversized(events.drop_last());
            if events.last().truncated {
                before.with_gap(events.last().source, "limited"@, oversized())
            } else {
                before
            }
        }
    }
}

proof fn lines_of_take(events: Seq<EventView>, i: int)
    requires
        0 <= i <= events.len(),
    ensures
        lines_of(events.take(i)) <= lines_of(events),
    decreases events.len() - i,
{
    if i < events.len() {
        lines_of_take(events, i + 1);
        assert(events.take(i + 1).drop_last() =~= events.take(i));
    } else {
        assert(events.take(i) =~= events);
    }
}

proof fn room_is_enough(r: ReportView, events: Seq<EventView>)
    requires
        r.has_room(events.len(), lines_of(events)),
    ensures
        r.recorded_all(events).has_room(0, 0),
        r.recorded_all(events).total == r.total + events.len(),
        r.recorded_all(events).lines == r.lines + lines_of(events),
        r.recorded_all(events).reused <= r.reused + events.len(),
        r.recorded_all(events).evicted <= r.evicted + events.len(),
        r.recorded_all(events).counts.important <= r.counts.important + events.len(),
        r.recorded_all(events).counts.routine <= r.counts.routine + events.len(),
        r.recorded_all(events).counts.uncertain <= r.counts.uncertain + events.len(),
        r.recorded_all(events).counts.unknown <= r.counts.unknown + events.len(),
    decreases events.len(),
{
    if events.len() > 0 {
        room_is_enough(r, events.drop_last());
    }
}

proof fn gaps_are_few(m: MetricsView, events: Seq<EventView>)
    requires
        m.coverage_gaps + events.len() <= u64::MAX,
        m.coverage_records_omitted + events.len() <= u64::MAX,
    ensures
        m.with_oversized(events).coverage_gaps <= m.coverage_gaps + events.len(),
        m.with_oversized(events).coverage_records_omitted <= m.coverage_records_omitted
            + events.len(),
    decreases events.len(),
{
    if events.len() > 0 {
        gaps_are_few(m, events.drop_last());
    }
}

/// What is printed of an event while a live run goes on.
pub open spec fn event_line(e: EventView) -> Seq<char> {
    "["@ + jev::importance_name(e.judgment.importance) + "] "@ + events::printable(e.text)
}

fn line_for(e: &Event) -> (r: String)
    ensures
        r@ == event_line(e@),
{
    let mut r = "[".to_owned();
    r.append(e.judgment.importance.label());
    r.append("] ");
    let shown = events::console(e.text.as_str());
    r.append(shown.as_str());
    r
}

impl Lane {
    /// Records a batch: every event of it, in order. Gives back the lines that are printed of it.
    pub fn finish(&mut self, batch: Vec<Event>, metrics: &mut Metrics) -> (printed: Vec<String>)
        requires
            old(self).report@.has_room(batch@.len(), lines_of(events::events_view(batch@))),
            old(metrics)@.coverage_gaps + batch@.len() <= u64::MAX,
            old(metrics)@.coverage_records_omitted + batch@.len() <= u64::MAX,
        ensures
            final(self).options == old(self).options,
            final(self).memory() == old(self).memory(),
            final(self).report@ == old(self).report@.recorded_all(events::events_view(batch@)),
            final(metrics)@ == old(metrics)@.with_oversized(events::events_view(batch@)),
            text::list_view(printed@) == (if old(self).options.print_events {
                Seq::new(batch@.len(), |i: int| event_line(batch@[i]@))
            } else {
                seq![]
            }),
    {
        let ghost all = events::events_view(batch@);
        let ghost start = self.report@;
        let ghost counted = metrics@;
        let ghost options = self.options;
        let ghost memory = self.memory();
        let mut printed: Vec<String> = Vec::new();
        let mut i: usize = 0;
        assert(all.take(0) =~= seq![]);
        while i < batch.len()
            invariant
                all == events::events_view(batch@),
                i <= batch@.len(),
                self.options == options,
                self.memory() == memory,
                start.has_room(all.len(), lines_of(all)),
                counted.coverage_gaps + all.len() <= u64::MAX,
                counted.coverage_records_omitted + all.len() <= u64::MAX,
                self.report@ == start.recorded_all(all.take(i as int)),
                metrics@ == counted.with_oversized(all.take(i as int)),
                printed@.len() == (if options.print_events {
                    i as int
                } else {
                    0
                }),
                forall|k: int|
                    0 <= k < printed@.len() ==> (#[trigger] printed@[k])@ == event_line(
                        batch@[k]@,
                    ),
            decreases batch@.len() - i,
        {
            let ghost done = all.take(i as int);
            let ghost now = all.take(i + 1);
            assert(now.drop_last() =~= done);
            assert(now.last() == batch@[i as int]@);
            proof {
                lines_of_take(all, i + 1);
                room_is_enough(start, done);
                gaps_are_few(counted, done);
            }
            let e = batch[i].clone();
            if e.truncated {
                report::gap(
                    metrics,
                    &e.source,
                    "limited",
                    "Oversized or incomplete event; classification requires review",
                );
            }
            if self.options.print_events {
                printed.push(line_for(&e));
            }
            self.report.record(e);
            i += 1;
        }
        assert(all.take(i as int) =~= all);
        assert(text::list_view(printed@) =~= if options.print_events {
            Seq::new(batch@.len(), |i: int| event_line(batch@[i]@))
        } else {
            seq![]
        });
        printed
    }
}

/// Every event of a batch is recorded once, in its place: none is lost, and the counts grow by
/// what came.
pub proof fn batches_are_recorded_whole(r: ReportView, events: Seq<EventView>)
    requires
        r.balanced(),
        r.has_room(events.len(), lines_of(events)),
    ensures
        r.recorded_all(events).balanced(),
        r.recorded_all(events).total == r.total + events.len(),
        r.recorded_all(events).lines == r.lines + lines_of(events),
        events.len() <= r.limit ==> events.is_suffix_of(r.recorded_all(events).events),
    decreases events.len(),
{
    room_is_enough(r, events);
    if events.len() > 0 {
        let before = events.drop_last();
        room_is_enough(r, before);
        batches_are_recorded_whole(r, before);
        let mid = r.recorded_all(before);
        report::record_keeps_balance(mid, events.last());
        if events.len() <= r.limit {
            limit_stays(r, before);
            let after = r.recorded_all(events).events;
            let kept = if mid.events.len() == mid.limit && mid.events.len() > 0 {
                mid.events.drop_first()
            } else {
                mid.events
            };
            assert(before =~= mid.events.skip(mid.events.len() - before.len()));
            assert(before =~= kept.skip(kept.len() - before.len()));
            assert(after == kept.push(events.last()));
            assert forall|k: int| 0 <= k < events.len() implies events[k] == after.skip(
                after.len() - events.len(),
            )[k] by {
                if k < before.len() {
                    assert(events[k] == before[k]);
                    assert(before[k] == kept.skip(kept.len() - before.len())[k]);
                }
            }
            assert(events =~= after.skip(after.len() - events.len()));
        }
    } else {
        assert(events =~= r.events.skip(r.events.len() as int));
    }
}

proof fn limit_stays(r: ReportView, events: Seq<EventView>)
    ensures
        r.recorded_all(events).limit == r.limit,
    decreases events.len(),
{
    if events.len() > 0 {
        limit_stays(r, events.drop_last());
    }
}

/// A judgment that failed is never passed off as reused, and never remembered.
pub proof fn failures_are_not_reused(
    memory: MemoryView,
    lead: EventView,
    e: EventView,
    error: Seq<char>,
    now: u64,
)
    requires
        lead.judgment == jev::failed_judgment(error),
    ensures
        following(e, lead).analysis_reused == e.analysis_reused,
        following(e, lead).judgment == lead.judgment,
        grouping::inserted(memory, lead, now) == memory,
{
}

/// What is said where a run has seen as many events as it may.
pub open spec fn limit_reached() -> Seq<char> {
    "Event limit reached; remaining input was not analyzed"@
}

/// Counts the events that are not analyzed because the run has seen as many as it may: one that
/// was taken from the queue, and those that wait in it.
pub fn stop_at_limit(metrics: &mut Metrics, waiting: u64)
    requires
        old(metrics)@.gap_countable(),
        old(metrics)@.dropped + 1 + waiting <= u64::MAX,
    ensures
        final(metrics)@ == (MetricsView {
            dropped: (old(metrics)@.dropped + 1 + waiting) as u64,
            ..old(metrics)@.with_gap(seq![], "limited"@, limit_reached())
        }),
{
    report::gap(
        metrics,
        &Source::new(),
        "limited",
        "Event limit reached; remaining input was not analyzed",
    );
    metrics.dropped = metrics.dropped + 1 + waiting;
}

impl Lane {
    /// Counts a batch that is put before the service.
    pub fn count_batch(&mut self)
        requires
            old(self).report@.batches < u64::MAX,
        ensures
            final(self).options == old(self).options,
            final(self).memory() == old(self).memory(),
            final(self).report@ == (ReportView {
                batches: (old(self).report@.batches + 1) as u64,
                ..old(self).report@
            }),
    {
        self.report.batches = self.report.batches + 1;
    }
}

/// How many bytes are read at once at most.
pub const CHUNK: usize = 8192;

/// A finite input that is read to its end, or to a limit: nothing of it is dropped for want of
/// room, and what is not read is put on record.
pub struct Ingest {
    parser: Parser,
    framer: Framer,
    source: Source,
    read: u64,
    max_bytes: u64,
}

#[verifier::ext_equal]
pub struct IngestView {
    pub parser: ParserView,
    pub framer: FramerView,
    pub source: Seq<(Seq<char>, JsonView)>,
    pub read: u64,
    pub max_bytes: u64,
}

/// An event that was cut off by a stop: it counts as cut short, so it makes a group of its own.
pub open spec fn cut_off(e: EventView) -> EventView {
    let cut = EventView { truncated: true, ..e };
    EventView { group_id: grouping::group_of(cut), ..cut }
}

impl IngestView {
    /// The state behind bytes that were read, and the events that they complete.
    pub open spec fn taken(self, bytes: Seq<u8>) -> (IngestView, Seq<EventView>) {
        let (framer, lines) = self.framer.pushed(bytes);
        let (parser, done) = self.parser.fed_all(lines);
        (IngestView { framer, parser, read: (self.read + bytes.len()) as u64, ..self }, done)
    }

    /// The line that the end of the input leaves, if it leaves one. It counts as cut short where
    /// more may have followed.
    pub open spec fn last_line(self, stopped: bool) -> Option<events::LineView> {
        match self.framer.line() {
            Some(line) => Some(
                events::LineView {
                    truncated: line.truncated || self.read == self.max_bytes || stopped,
                    ..line
                },
            ),
            None => None,
        }
    }

    /// The events that the end of the input leaves: at most one that the last line completes, and
    /// the one that the last line is part of.
    pub open spec fn rest(self, stopped: bool) -> Seq<EventView> {
        let (parser, first) = match self.last_line(stopped) {
            Some(line) => self.parser.fed(line),
            None => (self.parser, None),
        };
        let a = match first {
            Some(e) => seq![e],
            None => seq![],
        };
        match parser.flushed() {
            Some(e) => a.push(
                if stopped {
                    cut_off(e)
                } else {
                    e
                },
            ),
            None => a,
        }
    }
}

impl Ingest {
    pub closed spec fn view(&self) -> IngestView {
        IngestView {
            parser: self.parser@,
            framer: self.framer@,
            source: self.source@,
            read: self.read,
            max_bytes: self.max_bytes,
        }
    }

    /// No more was read than may be, and no more lines than bytes.
    pub closed spec fn wf(&self) -> bool {
        &&& self.parser.wf()
        &&& self.framer.wf()
        &&& self.read <= self.max_bytes
        &&& self.parser@.line <= self.read
    }

    pub fn new(source: Source, max_bytes: u64) -> (r: Self)
        ensures
            r.wf(),
            r@ == (IngestView {
                parser: ParserView { source: source@, pending: None, line: 0 },
                framer: events::framer_start(),
                source: source@,
                read: 0,
                max_bytes,
            }),
    {
        Ingest {
            parser: Parser::new(source.clone()),
            framer: Framer::default(),
            source,
            read: 0,
            max_bytes,
        }
    }

    /// How many bytes to read next; none where the limit is reached.
    pub fn want(&self) -> (r: usize)
        requires
            self.wf(),
        ensures
            r == (if self@.max_bytes - self@.read < CHUNK {
                self@.max_bytes - self@.read
            } else {
                CHUNK as int
            }),
    {
        let left = self.max_bytes - self.read;
        if left < CHUNK as u64 {
            left as usize
        } else {
            CHUNK
        }
    }

    /// Takes in bytes that were read, and gives back the events that they complete.
    pub fn take(&mut self, bytes: &[u8]) -> (r: Vec<Event>)
        requires
            old(self).wf(),
            bytes@.len() <= old(self)@.max_bytes - old(self)@.read,
        ensures
            final(self).wf(),
            (final(self)@, events::events_view(r@)) == old(self)@.taken(bytes@),
    {
        proof {
            events::lines_take_bytes(self.framer@, bytes@);
        }
        let lines = self.framer.push(bytes);
        assert(events::lines_view(lines@).len() == lines@.len());
        let r = self.parser.feed_all(lines);
        self.read = self.read + bytes.len() as u64;
        r
    }

    /// Ends the input, and gives back the events that are left.
    pub fn finish(&mut self, stopped: bool) -> (r: Vec<Event>)
        requires
            old(self).wf(),
            old(self)@.read < u64::MAX,
        ensures
            events::events_view(r@) == old(self)@.rest(stopped),
            final(self)@.source == old(self)@.source,
    {
        let ghost before = self@;
        let mut r: Vec<Event> = Vec::new();
        assert(events::events_view(r@) =~= seq![]);
        match self.framer.finish() {
            Some(line) => {
                let mut last = line;
                if self.read == self.max_bytes || stopped {
                    last.truncated = true;
                }
                assert(Some(last@) == before.last_line(stopped));
                match self.parser.feed(last) {
                    Some(e) => {
                        r.push(e);
                        assert(events::events_view(r@) =~= seq![e@]);
                    },
                    None => {},
                }
            },
            None => {},
        }
        let ghost first = events::events_view(r@);
        match self.parser.flush() {
            Some(e) => {
                let mut e = e;
                let ghost was = e@;
                if stopped {
                    e.truncated = true;
                    e.group_id = grouping::group_id(&e);
                    assert(e@ =~= cut_off(was));
                }
                r.push(e);
                assert(events::events_view(r@) =~= first.push(e@));
            },
            None => {},
        }
        r
    }
}

/// Why an input was not read to its end.
#[derive(Clone, Copy, Debug, PartialEq, Eq, Structural)]
pub enum Shortfall {
    Limit,
    Stopped,
    ReadFailed,
    Queued,
}

pub open spec fn shortfall_status(s: Shortfall) -> Seq<char> {
    match s {
        Shortfall::ReadFailed => "error"@,
        _ => "limited"@,
    }
}

pub open spec fn shortfall_text(s: Shortfall) -> Seq<char> {
    match s {
        Shortfall::Limit => "Decompressed input byte limit reached"@,
        Shortfall::Stopped => "Collection stopped before end of input"@,
        Shortfall::ReadFailed => "Input read failed"@,
        Shortfall::Queued => "Collection stopped; queued evidence may be incomplete"@,
    }
}

/// What came of a read: a stop came first, the read failed, or it gave so many bytes.
#[derive(Clone, Copy, Debug, PartialEq, Eq, Structural)]
pub enum Arrival {
    Cancelled,
    Failed,
    Count(usize),
}

impl IngestView {
    /// What a read tells of an input that it does not let go on: past the limit, anything but the
    /// end of the input or a stop is more than may be read; before it, a stop and a failed read
    /// both leave a gap, and the end of the input leaves none.
    pub open spec fn shortfall(self, came: Arrival) -> Option<Shortfall> {
        if self.read == self.max_bytes {
            match came {
                Arrival::Cancelled => None,
                Arrival::Failed => Some(Shortfall::Limit),
                Arrival::Count(n) => if n == 0 {
                    None
                } else {
                    Some(Shortfall::Limit)
                },
            }
        } else {
            match came {
                Arrival::Cancelled => Some(Shortfall::Stopped),
                Arrival::Failed => Some(Shortfall::ReadFailed),
                Arrival::Count(_) => None,
            }
        }
    }

    /// How many bytes of a read are taken in; nothing where the reading is over.
    pub open spec fn goes_on(self, came: Arrival) -> Option<usize> {
        match came {
            Arrival::Count(n) => if n == 0 || self.read == self.max_bytes {
                None
            } else {
                Some(n)
            },
            _ => None,
        }
    }
}

impl Ingest {
    /// Decides what follows on a read: how many of its bytes are to be taken in, or that the
    /// reading is over, and what goes on record then. Past the limit one more read tells whether
    /// anything was left.
    pub fn arrived(&self, came: Arrival, metrics: &mut Metrics) -> (r: Option<usize>)
        requires
            self.wf(),
            self@.shortfall(came) is Some ==> old(metrics)@.gap_countable(),
        ensures
            r == self@.goes_on(came),
            final(metrics)@ == (match self@.shortfall(came) {
                Some(why) => old(metrics)@.with_gap(
                    self@.source,
                    shortfall_status(why),
                    shortfall_text(why),
                ),
                None => old(metrics)@,
            }),
    {
        let full = self.read == self.max_bytes;
        match came {
            Arrival::Cancelled => {
                if !full {
                    self.fall_short(Shortfall::Stopped, metrics);
                }
                None
            },
            Arrival::Failed => {
                if full {
                    self.fall_short(Shortfall::Limit, metrics);
                } else {
                    self.fall_short(Shortfall::ReadFailed, metrics);
                }
                None
            },
            Arrival::Count(n) => {
                if n == 0 {
                    None
                } else if full {
                    self.fall_short(Shortfall::Limit, metrics);
                    None
                } else {
                    Some(n)
                }
            },
        }
    }

    /// Puts on record that the input was not read to its end, or that a stop found evidence that
    /// was waiting for room in the queue.
    pub fn fall_short(&self, why: Shortfall, metrics: &mut Metrics)
        requires
            old(metrics)@.gap_countable(),
        ensures
            final(metrics)@ == old(metrics)@.with_gap(
                self@.source,
                shortfall_status(why),
                shortfall_text(why),
            ),
    {
        match why {
            Shortfall::Limit => report::gap(
                metrics,
                &self.source,
                "limited",
                "Decompressed input byte limit reached",
            ),
            Shortfall::Stopped => report::gap(
                metrics,
                &self.source,
                "limited",
                "Collection stopped before end of input",
            ),
            Shortfall::ReadFailed => report::gap(
                metrics,
                &self.source,
                "error",
                "Input read failed",
            ),
            Shortfall::Queued => report::gap(
                metrics,
                &self.source,
                "limited",
                "Collection stopped; queued evidence may be incomplete",
            ),
        }
    }
}

}
