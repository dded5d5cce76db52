//! What judging a batch promises: every event gets the judgment that was given on it or on another of
//! its group, and none that was given on anything else.
use vstd::prelude::*;

use crate::events::EventView;
use crate::grouping;
use crate::ieee;
use crate::jev;
use crate::jev::{Importance, JudgmentView};
use crate::memory::MemoryView;
use crate::runtime;
use crate::runtime::{AnalyzeOptions, PlanView, Sorted, Verdicts};

verus! {

/// Whether a plan is exact: the places of the events that are judged rise, so do those of the events
/// that wait, none is both, and each waits for an earlier one that is judged.
pub open spec fn exact_plan(p: PlanView, n: int) -> bool {
    &&& forall|k: int| 0 <= k < p.owned.len() ==> 0 <= #[trigger] p.owned[k] < n
    &&& forall|j: int, k: int|
        0 <= j < k < p.owned.len() ==> #[trigger] p.owned[j] < #[trigger] p.owned[k]
    &&& forall|k: int|
        0 <= k < p.duplicates.len() ==> 0 <= (#[trigger] p.duplicates[k]).1 < p.duplicates[k].0 < n
            && p.owned.contains(p.duplicates[k].1) && !p.owned.contains(p.duplicates[k].0)
    &&& forall|j: int, k: int|
        0 <= j < k < p.duplicates.len() ==> (#[trigger] p.duplicates[j]).0 < (
        #[trigger] p.duplicates[k]).0
}

/// Whether an event waits for another.
pub open spec fn waits_for(p: PlanView, i: int, lead: int) -> bool {
    exists|k: int| 0 <= k < p.duplicates.len() && #[trigger] p.duplicates[k] == (i, lead)
}

/// Whether an event waits.
pub open spec fn waits(p: PlanView, i: int) -> bool {
    exists|k: int| 0 <= k < p.duplicates.len() && (#[trigger] p.duplicates[k]).0 == i
}

/// What is known of the event at a place from an earlier run.
pub open spec fn known_of(known: Seq<Option<JudgmentView>>, i: int) -> Option<JudgmentView> {
    if 0 <= i < known.len() {
        known[i]
    } else {
        None
    }
}

/// Whether the event at a place was sorted out rightly. What is known of it is taken over; without a
/// service the local rules decide; one that was cut short, or is not grouped, is judged itself; and
/// of the others one that is remembered is not judged again, the first of its group is judged, and
/// the rest wait for that one.
pub open spec fn rightly_sorted(
    memory: MemoryView,
    batch: Seq<EventView>,
    known: Seq<Option<JudgmentView>>,
    online: bool,
    grouping: bool,
    now: u64,
    s: Sorted,
    i: int,
) -> bool {
    let e = batch[i];
    let f = s.events[i];
    let p = PlanView { owned: s.owned, duplicates: s.duplicates };
    let before = runtime::sorted_out(memory, batch, known, online, grouping, now, i as nat);
    let remembered = grouping::as_judged(before.memory.fresh(grouping::group_of(e), now));
    if known_of(known, i) is Some {
        &&& !s.owned.contains(i) && !waits(p, i)
        &&& f == (EventView { judgment: known_of(known, i)->Some_0, analysis_reused: true, ..e })
    } else if !online {
        &&& !s.owned.contains(i) && !waits(p, i)
        &&& f.judgment.importance == (if e.baseline.important {
            Importance::Important
        } else {
            Importance::Uncertain
        })
        &&& f == (EventView {
            judgment: JudgmentView { importance: f.judgment.importance, ..e.judgment },
            ..e
        })
    } else if !grouping || e.truncated {
        s.owned.contains(i) && !waits(p, i) && f == e
    } else if remembered is Some {
        &&& !s.owned.contains(i) && !waits(p, i)
        &&& f == (EventView {
            judgment: remembered->Some_0.0,
            analysis_reused: true,
            analysis_representative_id: Some(remembered->Some_0.1),
            ..e
        })
    } else {
        &&& f == e
        &&& s.owned.contains(i) ==> !waits(p, i) && forall|k: int|
            0 <= k < s.leaders.len() && (#[trigger] s.leaders[k]).0 == e.group_id
                ==> s.leaders[k].1 >= i
        &&& !s.owned.contains(i) ==> exists|lead: int|
            #[trigger] waits_for(p, i, lead) && batch[lead].group_id == e.group_id
    }
}

proof fn leader_found(leaders: Seq<(Seq<char>, int)>, group: Seq<char>)
    ensures
        match runtime::leader(leaders, group) {
            Some(k) => exists|m: int| 0 <= m < leaders.len() && #[trigger] leaders[m] == (group, k),
            None => forall|m: int| 0 <= m < leaders.len() ==> (#[trigger] leaders[m]).0 != group,
        },
    decreases leaders.len(),
{
    if leaders.len() > 0 {
        if leaders[0].0 == group {
            assert(leaders[0] == (group, leaders[0].1));
        } else {
            let rest = leaders.drop_first();
            leader_found(rest, group);
            match runtime::leader(rest, group) {
                Some(k) => {
                    let m = choose|m: int|
                        0 <= m < rest.len() && #[trigger] rest[m] == (group, k);
                    assert(leaders[m + 1] == (group, k));
                },
                None => {
                    assert forall|m: int| 0 <= m < leaders.len() implies (#[trigger] leaders[m]).0
                        != group by {
                        if m > 0 {
                            assert(rest[m - 1].0 != group);
                        }
                    }
                },
            }
        }
    }
}

/// Every event of a batch is sorted out rightly, and the plan is exact. Events that lead are of
/// different groups.
#[verifier::rlimit(80)]
pub proof fn batches_are_sorted_out(
    memory: MemoryView,
    batch: Seq<EventView>,
    known: Seq<Option<JudgmentView>>,
    online: bool,
    grouping: bool,
    now: u64,
    n: nat,
)
    requires
        n <= batch.len(),
    ensures
        ({
            let s = runtime::sorted_out(memory, batch, known, online, grouping, now, n);
            let p = PlanView { owned: s.owned, duplicates: s.duplicates };
            &&& s.events.len() == batch.len()
            &&& exact_plan(p, n as int)
            &&& forall|i: int| n <= i < batch.len() ==> #[trigger] s.events[i] == batch[i]
            &&& forall|k: int|
                0 <= k < s.leaders.len() ==> 0 <= (#[trigger] s.leaders[k]).1 < n
                    && s.owned.contains(s.leaders[k].1) && batch[s.leaders[k].1].group_id
                    == s.leaders[k].0
            &&& forall|j: int, k: int|
                0 <= j < k < s.leaders.len() ==> (#[trigger] s.leaders[j]).0 != (
                #[trigger] s.leaders[k]).0
            &&& forall|i: int|
                0 <= i < n ==> #[trigger] rightly_sorted(
                    memory,
                    batch,
                    known,
                    online,
                    grouping,
                    now,
                    s,
                    i,
                )
        }),
    decreases n,
{
    if n > 0 {
        let m = (n - 1) as nat;
        let at = m as int;
        batches_are_sorted_out(memory, batch, known, online, grouping, now, m);
        let b = runtime::sorted_out(memory, batch, known, online, grouping, now, m);
        let s = runtime::sorted_out(memory, batch, known, online, grouping, now, n);
        let q = PlanView { owned: b.owned, duplicates: b.duplicates };
        let p = PlanView { owned: s.owned, duplicates: s.duplicates };
        let e = batch[at];
        assert(b.events[at] == e);
        leader_found(b.leaders, e.group_id);
        assert(s.events.len() == batch.len());
        assert(!b.owned.contains(at)) by {
            if b.owned.contains(at) {
                let k = choose|k: int| 0 <= k < b.owned.len() && b.owned[k] == at;
                assert(0 <= b.owned[k] < m);
            }
        }
        assert(!waits(q, at)) by {
            if waits(q, at) {
                let k = choose|k: int|
                    0 <= k < q.duplicates.len() && (#[trigger] q.duplicates[k]).0 == at;
                assert(q.duplicates[k].0 < m);
            }
        }
        let owns = s.owned != b.owned;
        let defers = s.duplicates != b.duplicates;
        assert(owns ==> s.owned == b.owned.push(at));
        assert(!owns ==> s.owned == b.owned);
        assert(defers ==> !owns && s.duplicates.len() == b.duplicates.len() + 1 && s.duplicates
            == b.duplicates.push((at, s.duplicates.last().1)));
        assert forall|x: int| #[trigger] s.owned.contains(x) <==> b.owned.contains(x) || owns && x
            == at by {
            if b.owned.contains(x) {
                let k = choose|k: int| 0 <= k < b.owned.len() && b.owned[k] == x;
                assert(s.owned[k] == x);
            }
            if owns && x == at {
                assert(s.owned[b.owned.len() as int] == at);
            }
            if s.owned.contains(x) {
                let k = choose|k: int| 0 <= k < s.owned.len() && s.owned[k] == x;
                if k < b.owned.len() {
                    assert(b.owned[k] == x);
                }
            }
        }
        if defers {
            let lead = s.duplicates.last().1;
            let k = choose|k: int|
                0 <= k < b.leaders.len() && #[trigger] b.leaders[k] == (e.group_id, lead);
            assert(b.owned.contains(b.leaders[k].1));
            assert(batch[lead].group_id == e.group_id);
            assert(0 <= lead < m);
            assert(p.duplicates[b.duplicates.len() as int] == (at, lead));
            assert(waits_for(p, at, lead));
        }
        assert forall|k: int| 0 <= k < p.duplicates.len() implies 0 <= (
        #[trigger] p.duplicates[k]).1 < p.duplicates[k].0 < n && p.owned.contains(
            p.duplicates[k].1,
        ) && !p.owned.contains(p.duplicates[k].0) by {
            if k < q.duplicates.len() {
                assert(p.duplicates[k] == q.duplicates[k]);
                assert(q.owned.contains(q.duplicates[k].1));
                assert(!q.owned.contains(q.duplicates[k].0));
            }
        }
        assert forall|j: int, k: int| 0 <= j < k < p.duplicates.len() implies (
        #[trigger] p.duplicates[j]).0 < (#[trigger] p.duplicates[k]).0 by {
            assert(p.duplicates[j] == q.duplicates[j]);
            if k < q.duplicates.len() {
                assert(p.duplicates[k] == q.duplicates[k]);
            }
        }
        assert forall|k: int| 0 <= k < p.owned.len() implies 0 <= #[trigger] p.owned[k] < n by {
            if k < q.owned.len() {
                assert(p.owned[k] == q.owned[k]);
            }
        }
        assert forall|j: int, k: int| 0 <= j < k < p.owned.len() implies #[trigger] p.owned[j]
            < #[trigger] p.owned[k] by {
            assert(p.owned[j] == q.owned[j]);
            if k < q.owned.len() {
                assert(p.owned[k] == q.owned[k]);
            }
        }
        assert forall|k: int| 0 <= k < s.leaders.len() implies 0 <= (#[trigger] s.leaders[k]).1 < n
            && s.owned.contains(s.leaders[k].1) && batch[s.leaders[k].1].group_id
            == s.leaders[k].0 by {
            if k < b.leaders.len() {
                assert(s.leaders[k] == b.leaders[k]);
                assert(b.owned.contains(b.leaders[k].1));
            }
        }
        assert forall|j: int, k: int| 0 <= j < k < s.leaders.len() implies (
        #[trigger] s.leaders[j]).0 != (#[trigger] s.leaders[k]).0 by {
            assert(s.leaders[j] == b.leaders[j]);
            if k < b.leaders.len() {
                assert(s.leaders[k] == b.leaders[k]);
            }
        }
        assert forall|i: int| #[trigger] waits(p, i) <==> waits(q, i) || defers && i == at by {
            if waits(p, i) {
                let k = choose|k: int|
                    0 <= k < p.duplicates.len() && (#[trigger] p.duplicates[k]).0 == i;
                if k < q.duplicates.len() {
                    assert(q.duplicates[k].0 == i);
                }
            }
            if waits(q, i) {
                let k = choose|k: int|
                    0 <= k < q.duplicates.len() && (#[trigger] q.duplicates[k]).0 == i;
                assert(p.duplicates[k].0 == i);
            }
            if defers && i == at {
                assert(p.duplicates[q.duplicates.len() as int].0 == i);
            }
        }
        assert forall|i: int| 0 <= i < n implies #[trigger] rightly_sorted(
            memory,
            batch,
            known,
            online,
            grouping,
            now,
            s,
            i,
        ) by {
            if i < m {
                assert(rightly_sorted(memory, batch, known, online, grouping, now, b, i));
                assert(s.events[i] == b.events[i]);
                assert(s.owned.contains(i) == b.owned.contains(i));
                assert(waits(p, i) == waits(q, i));
                assert forall|lead: int| #[trigger] waits_for(q, i, lead) implies waits_for(
                    p,
                    i,
                    lead,
                ) by {
                    let k = choose|k: int|
                        0 <= k < q.duplicates.len() && #[trigger] q.duplicates[k] == (i, lead);
                    assert(p.duplicates[k] == (i, lead));
                }
                if s.owned.contains(i) {
                    assert forall|k: int|
                        0 <= k < s.leaders.len() && (#[trigger] s.leaders[k]).0
                            == batch[i].group_id && online && grouping && !batch[i].truncated
                            && known_of(known, i) is None implies s.leaders[k].1 >= i by {
                        if k < b.leaders.len() {
                            assert(s.leaders[k] == b.leaders[k]);
                        }
                    }
                }
            } else {
                assert(s.owned.contains(at) == owns);
                assert(waits(p, at) == defers);
                if owns && grouping && !e.truncated {
                    assert forall|k: int|
                        0 <= k < s.leaders.len() && (#[trigger] s.leaders[k]).0
                            == e.group_id implies s.leaders[k].1 >= at by {
                        if k < b.leaders.len() {
                            assert(s.leaders[k] == b.leaders[k]);
                        }
                    }
                }
            }
        }
    }
}

/// A judgment that is taken no more seriously than it deserves: on evidence that was cut short, and
/// where a routine verdict comes with a confidence below seven tenths, the importance is uncertain.
pub open spec fn careful(j: JudgmentView, truncated: bool) -> JudgmentView {
    let weak = j.importance == Importance::Routine && (j.importance_confidence matches Some(c)
        && ieee::less(c.bits, 0x3fe6_6666_6666_6666));
    if j.importance == Importance::Unknown || !truncated && !weak {
        j
    } else {
        JudgmentView { importance: Importance::Uncertain, ..j }
    }
}

/// The place of an event among those that are judged.
pub open spec fn turn(owned: Seq<int>, i: int, k: int) -> bool {
    0 <= k < owned.len() && owned[k] == i
}

proof fn judgments_are_set(
    memory: MemoryView,
    events: Seq<EventView>,
    p: PlanView,
    judgments: Seq<JudgmentView>,
    grouping: bool,
    now: u64,
    n: nat,
)
    requires
        exact_plan(p, events.len() as int),
        n <= p.owned.len(),
        n <= judgments.len(),
    ensures
        ({
            let v = runtime::with_judgments(memory, events, p.owned, judgments, grouping, now, n).1;
            &&& v.len() == events.len()
            &&& forall|k: int|
                0 <= k < n ==> v[#[trigger] p.owned[k]] == (EventView {
                    judgment: careful(judgments[k], events[p.owned[k]].truncated),
                    ..events[p.owned[k]]
                })
            &&& forall|i: int|
                0 <= i < events.len() && (forall|k: int| 0 <= k < n ==> #[trigger] p.owned[k] != i)
                    ==> #[trigger] v[i] == events[i]
        }),
    decreases n,
{
    if n > 0 {
        let m = (n - 1) as nat;
        judgments_are_set(memory, events, p, judgments, grouping, now, m);
        let u = runtime::with_judgments(memory, events, p.owned, judgments, grouping, now, m).1;
        let v = runtime::with_judgments(memory, events, p.owned, judgments, grouping, now, n).1;
        let at = p.owned[m as int];
        assert(0 <= at < events.len());
        assert(forall|k: int| 0 <= k < m ==> #[trigger] p.owned[k] < at);
        assert(u[at] == events[at]);
        assert(judgments[m as int].conservative(u[at].truncated) == careful(
            judgments[m as int],
            events[at].truncated,
        ));
        assert forall|k: int| 0 <= k < n implies v[#[trigger] p.owned[k]] == (EventView {
            judgment: careful(judgments[k], events[p.owned[k]].truncated),
            ..events[p.owned[k]]
        }) by {
            if k < m {
                assert(p.owned[k] < at);
                assert(0 <= p.owned[k]);
            }
        }
    }
}

proof fn failures_are_set(events: Seq<EventView>, p: PlanView, error: Seq<char>, n: nat)
    requires
        exact_plan(p, events.len() as int),
        n <= p.owned.len(),
    ensures
        ({
            let v = runtime::with_failures(events, p.owned, error, n);
            &&& v.len() == events.len()
            &&& forall|k: int|
                0 <= k < n ==> v[#[trigger] p.owned[k]] == (EventView {
                    judgment: jev::failed_judgment(error),
                    ..events[p.owned[k]]
                })
            &&& forall|i: int|
                0 <= i < events.len() && (forall|k: int| 0 <= k < n ==> #[trigger] p.owned[k] != i)
                    ==> #[trigger] v[i] == events[i]
        }),
    decreases n,
{
    if n > 0 {
        let m = (n - 1) as nat;
        failures_are_set(events, p, error, m);
        let at = p.owned[m as int];
        assert(0 <= at < events.len());
        assert(forall|k: int| 0 <= k < m ==> #[trigger] p.owned[k] < at);
        let v = runtime::with_failures(events, p.owned, error, n);
        assert forall|k: int| 0 <= k < n implies v[#[trigger] p.owned[k]] == (EventView {
            judgment: jev::failed_judgment(error),
            ..events[p.owned[k]]
        }) by {
            if k < m {
                assert(p.owned[k] < at);
                assert(0 <= p.owned[k]);
            }
        }
    }
}

/// An event with the judgment on the one that it waited for, which counts as reused where there is
/// one.
pub open spec fn taken_over(e: EventView, lead: EventView) -> EventView {
    if lead.judgment.importance != Importance::Unknown && lead.judgment.analysis_error is None {
        EventView {
            judgment: lead.judgment,
            analysis_reused: true,
            analysis_representative_id: Some(lead.id),
            ..e
        }
    } else {
        EventView { judgment: lead.judgment, ..e }
    }
}

proof fn followers_are_set(events: Seq<EventView>, p: PlanView, n: nat)
    requires
        exact_plan(p, events.len() as int),
        n <= p.duplicates.len(),
    ensures
        ({
            let v = runtime::with_followers(events, p.duplicates, n);
            &&& v.len() == events.len()
            &&& forall|k: int|
                0 <= k < n ==> v[(#[trigger] p.duplicates[k]).0] == taken_over(
                    events[p.duplicates[k].0],
                    events[p.duplicates[k].1],
                )
            &&& forall|i: int|
                0 <= i < events.len() && (forall|k: int|
                    0 <= k < n ==> (#[trigger] p.duplicates[k]).0 != i) ==> #[trigger] v[i]
                    == events[i]
        }),
    decreases n,
{
    if n > 0 {
        let m = (n - 1) as nat;
        followers_are_set(events, p, m);
        let u = runtime::with_followers(events, p.duplicates, m);
        let v = runtime::with_followers(events, p.duplicates, n);
        let (at, lead) = p.duplicates[m as int];
        assert(p.owned.contains(p.duplicates[m as int].1));
        assert(forall|k: int| 0 <= k < m ==> (#[trigger] p.duplicates[k]).0 < at);
        assert(u[at] == events[at]);
        assert forall|k: int| 0 <= k < m implies (#[trigger] p.duplicates[k]).0 != lead by {
            assert(!p.owned.contains(p.duplicates[k].0));
        }
        assert(u[lead] == events[lead]);
        assert forall|k: int| 0 <= k < n implies v[(#[trigger] p.duplicates[k]).0] == taken_over(
            events[p.duplicates[k].0],
            events[p.duplicates[k].1],
        ) by {
            if k < m {
                assert(p.duplicates[k].0 < at);
            }
        }
    }
}

/// What a batch comes to when the service has judged: an event that was put before it has, with care,
/// the judgment that was given in its turn; one that waited has that of the event it waited for;
/// and every other event is as it was.
pub proof fn judgments_reach_their_events(
    memory: MemoryView,
    events: Seq<EventView>,
    p: PlanView,
    judgments: Seq<JudgmentView>,
    grouping: bool,
    now: u64,
    i: int,
)
    requires
        exact_plan(p, events.len() as int),
        judgments.len() == p.owned.len(),
        0 <= i < events.len(),
    ensures
        ({
            let v = runtime::settled(
                memory,
                events,
                p,
                Verdicts::Judged(judgments),
                grouping,
                now,
            ).1;
            &&& v.len() == events.len()
            &&& forall|k: int|
                #[trigger] turn(p.owned, i, k) ==> v[i] == (EventView {
                    judgment: careful(judgments[k], events[i].truncated),
                    ..events[i]
                })
            &&& forall|lead: int, k: int|
                #![trigger waits_for(p, i, lead), turn(p.owned, lead, k)]
                waits_for(p, i, lead) && turn(p.owned, lead, k) ==> v[i] == taken_over(
                    events[i],
                    EventView {
                        judgment: careful(judgments[k], events[lead].truncated),
                        ..events[lead]
                    },
                )
            &&& !p.owned.contains(i) && !waits(p, i) ==> v[i] == events[i]
        }),
{
    let n = p.owned.len();
    judgments_are_set(memory, events, p, judgments, grouping, now, n);
    let u = runtime::with_judgments(memory, events, p.owned, judgments, grouping, now, n).1;
    followers_are_set(u, p, p.duplicates.len());
    let v = runtime::with_followers(u, p.duplicates, p.duplicates.len());
    assert forall|k: int| #[trigger] turn(p.owned, i, k) implies v[i] == (EventView {
        judgment: careful(judgments[k], events[i].truncated),
        ..events[i]
    }) by {
        assert(p.owned.contains(i));
        assert(forall|d: int| 0 <= d < p.duplicates.len() ==> (#[trigger] p.duplicates[d]).0 != i);
        assert(u[p.owned[k]].judgment == careful(judgments[k], events[i].truncated));
    }
    assert forall|lead: int, k: int|
        #![trigger waits_for(p, i, lead), turn(p.owned, lead, k)]
        waits_for(p, i, lead) && turn(p.owned, lead, k) implies v[i] == taken_over(
        events[i],
        EventView { judgment: careful(judgments[k], events[lead].truncated), ..events[lead] },
    ) by {
        let d = choose|d: int| 0 <= d < p.duplicates.len() && #[trigger] p.duplicates[d] == (i, lead);
        assert(!p.owned.contains(p.duplicates[d].0));
        assert(forall|k: int| 0 <= k < n ==> #[trigger] p.owned[k] != i);
        assert(u[i] == events[i]);
        assert(u[p.owned[k]] == (EventView {
            judgment: careful(judgments[k], events[lead].truncated),
            ..events[lead]
        }));
    }
    if !p.owned.contains(i) && !waits(p, i) {
        assert(forall|k: int| 0 <= k < n ==> #[trigger] p.owned[k] != i);
        assert(u[i] == events[i]);
    }
}

/// What a batch comes to when the service has not judged: every event that should have been, and
/// every one that waited for it, has no judgment, the reason why, and no claim to a reused one; and
/// every other event is as it was. Nothing is remembered.
pub proof fn failures_reach_their_events(
    memory: MemoryView,
    events: Seq<EventView>,
    p: PlanView,
    error: Seq<char>,
    grouping: bool,
    now: u64,
    i: int,
)
    requires
        exact_plan(p, events.len() as int),
        0 <= i < events.len(),
    ensures
        ({
            let (m, v) = runtime::settled(
                memory,
                events,
                p,
                Verdicts::Failed(error),
                grouping,
                now,
            );
            let failed = JudgmentView { analysis_error: Some(error), ..jev::no_judgment() };
            &&& m == memory
            &&& v.len() == events.len()
            &&& p.owned.contains(i) || waits(p, i) ==> v[i] == (EventView {
                judgment: failed,
                ..events[i]
            })
            &&& !p.owned.contains(i) && !waits(p, i) ==> v[i] == events[i]
        }),
{
    let n = p.owned.len();
    failures_are_set(events, p, error, n);
    let u = runtime::with_failures(events, p.owned, error, n);
    followers_are_set(u, p, p.duplicates.len());
    if p.owned.contains(i) {
        let k = choose|k: int| 0 <= k < p.owned.len() && p.owned[k] == i;
        assert(u[p.owned[k]].judgment == jev::failed_judgment(error));
        assert(forall|d: int| 0 <= d < p.duplicates.len() ==> (#[trigger] p.duplicates[d]).0 != i);
    } else {
        assert(forall|k: int| 0 <= k < n ==> #[trigger] p.owned[k] != i);
        assert(u[i] == events[i]);
        if waits(p, i) {
            let d = choose|d: int|
                0 <= d < p.duplicates.len() && (#[trigger] p.duplicates[d]).0 == i;
            let lead = p.duplicates[d].1;
            assert(p.owned.contains(p.duplicates[d].1));
            let k = choose|k: int| 0 <= k < p.owned.len() && p.owned[k] == lead;
            assert(u[p.owned[k]].judgment == jev::failed_judgment(error));
        }
    }
}

/// A batch is put before the service unless the run was stopped, has used up its batches, or has
/// cost as much as it may; and the reason is given in that order.
pub proof fn batches_are_refused_only_for_a_reason(
    o: AnalyzeOptions,
    batches: u64,
    stopped: bool,
    cost: u64,
)
    ensures
        ({
            let r = runtime::refused(o, batches, stopped, cost);
            let spent = ieee::at_most(o.max_cost.bits, cost);
            &&& r is None <==> !stopped && batches < o.max_batches && !spent
            &&& stopped ==> r == Some("Stopped before classification"@)
            &&& !stopped && batches >= o.max_batches ==> r == Some("AI batch budget exhausted"@)
            &&& !stopped && batches < o.max_batches && spent ==> r == Some(
                "Estimated cost threshold reached"@,
            )
        }),
{
}

}
