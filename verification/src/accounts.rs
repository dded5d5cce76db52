//! What a report promises: it counts every event once, keeps the latest, and groups the important ones.
use vstd::prelude::*;

use crate::events::EventView;
use crate::jev::{Importance, Severity, UsageView};
use crate::ieee::RealView;
use crate::json;
use crate::json::JsonView;
use crate::report;
use crate::report::{GroupView, MetricsView, ReportView};

verus! {

/// How many events have an importance.
pub open spec fn of_importance(events: Seq<EventView>, i: Importance) -> nat
    decreases events.len(),
{
    if events.len() == 0 {
        0
    } else {
        of_importance(events.drop_last(), i) + (if events.last().judgment.importance == i {
            1nat
        } else {
            0nat
        })
    }
}

/// How many events have a judgment that was reused.
pub open spec fn reused(events: Seq<EventView>) -> nat
    decreases events.len(),
{
    if events.len() == 0 {
        0
    } else {
        reused(events.drop_last()) + (if events.last().analysis_reused {
            1nat
        } else {
            0nat
        })
    }
}

/// How many lines events have.
pub open spec fn lines(events: Seq<EventView>) -> nat
    decreases events.len(),
{
    if events.len() == 0 {
        0
    } else {
        lines(events.drop_last()) + events.last().line_count as nat
    }
}

/// A report on events counts each of them once, under its own importance, with its lines and whether
/// its judgment was reused; it keeps the latest of them, as many as it may, in their order, and
/// counts the others as evicted.
pub proof fn reports_count_every_event(limit: usize, events: Seq<EventView>)
    requires
        limit > 0,
        events.len() + 1 <= u64::MAX,
        lines(events) <= u64::MAX,
    ensures
        ({
            let r = ReportView::fresh(limit).recorded_all(events);
            let n = events.len() as int;
            let kept = if n < limit {
                n
            } else {
                limit as int
            };
            &&& r.total == n && r.lines == lines(events) && r.reused == reused(events)
            &&& r.counts.important == of_importance(events, Importance::Important)
            &&& r.counts.routine == of_importance(events, Importance::Routine)
            &&& r.counts.uncertain == of_importance(events, Importance::Uncertain)
            &&& r.counts.unknown == of_importance(events, Importance::Unknown)
            &&& r.evicted == n - kept
            &&& r.events == events.skip(n - kept)
            &&& r.limit == limit && r.batches == 0
            &&& reused(events) <= n && of_importance(events, Importance::Important) <= n
                && of_importance(events, Importance::Routine) <= n && of_importance(
                events,
                Importance::Uncertain,
            ) <= n && of_importance(events, Importance::Unknown) <= n
        }),
    decreases events.len(),
{
    let r = ReportView::fresh(limit).recorded_all(events);
    let n = events.len() as int;
    if n > 0 {
        let rest = events.drop_last();
        reports_count_every_event(limit, rest);
        let b = ReportView::fresh(limit).recorded_all(rest);
        if n <= limit {
            assert(rest.skip(0) =~= rest);
            assert(r.events =~= events.skip(0));
        } else {
            assert(r.events =~= events.skip(n - limit));
        }
    } else {
        assert(r.events =~= events.skip(0));
    }
}

/// How many important events belong to a group.
pub open spec fn size_of(events: Seq<EventView>, group: Seq<char>) -> nat
    decreases events.len(),
{
    if events.len() == 0 {
        0
    } else {
        let e = events.last();
        size_of(events.drop_last(), group) + (if e.judgment.importance == Importance::Important
            && e.group_id == group {
            1nat
        } else {
            0nat
        })
    }
}

/// Whether an event is the first important one of its group.
pub open spec fn founds(events: Seq<EventView>, i: int) -> bool {
    &&& 0 <= i < events.len()
    &&& events[i].judgment.importance == Importance::Important
    &&& forall|j: int|
        0 <= j < i && (#[trigger] events[j]).judgment.importance == Importance::Important
            ==> events[j].group_id != events[i].group_id
}

/// Whether a group tells of the important events of its name: how many there are, which they are,
/// and in whose words.
pub open spec fn tells_of(g: GroupView, events: Seq<EventView>) -> bool {
    &&& g.count == size_of(events, g.id) && g.count > 0
    &&& g.event_ids.len() == g.count
    &&& exists|i: int|
        #[trigger] founds(events, i) && events[i].group_id == g.id && g.text == events[i].text
            && g.source == events[i].source && g.severity == events[i].judgment.severity
            && g.category == events[i].judgment.category
    &&& forall|i: int|
        0 <= i < events.len() && (#[trigger] events[i]).judgment.importance == Importance::Important
            && events[i].group_id == g.id ==> g.event_ids.contains(events[i].id)
}

/// Whether a group of a name is among groups.
pub open spec fn listed(groups: Seq<GroupView>, id: Seq<char>) -> bool {
    exists|k: int| 0 <= k < groups.len() && (#[trigger] groups[k]).id == id
}

proof fn adding_changes_one(groups: Seq<GroupView>, e: EventView)
    requires
        forall|j: int, k: int|
            0 <= j < k < groups.len() ==> (#[trigger] groups[j]).id != (#[trigger] groups[k]).id,
    ensures
        ({
            let after = report::grouped_with(groups, e);
            &&& forall|j: int, k: int|
                0 <= j < k < after.len() ==> (#[trigger] after[j]).id != (#[trigger] after[k]).id
            &&& forall|id: Seq<char>|
                #[trigger] listed(after, id) <==> listed(groups, id) || id == e.group_id
            &&& forall|k: int|
                0 <= k < after.len() && (#[trigger] after[k]).id != e.group_id ==> groups.contains(
                    after[k],
                )
            &&& forall|k: int|
                0 <= k < after.len() && (#[trigger] after[k]).id == e.group_id ==> if listed(
                    groups,
                    e.group_id,
                ) {
                    exists|m: int|
                        0 <= m < groups.len() && (#[trigger] groups[m]).id == e.group_id && after[k]
                            == (GroupView {
                            count: (groups[m].count + 1) as u64,
                            event_ids: groups[m].event_ids.push(e.id),
                            ..groups[m]
                        })
                } else {
                    after[k] == report::group_with(e)
                }
        }),
    decreases groups.len(),
{
    let after = report::grouped_with(groups, e);
    if groups.len() == 0 {
        assert(after[0] == report::group_with(e));
        assert(!listed(groups, e.group_id));
        assert forall|id: Seq<char>| #[trigger] listed(after, id) <==> listed(groups, id) || id
            == e.group_id by {
            if id == e.group_id {
                assert(after[0].id == id);
            }
        }
    } else if groups[0].id == e.group_id {
        let g = groups[0];
        assert(listed(groups, e.group_id));
        let h = GroupView { count: (g.count + 1) as u64, event_ids: g.event_ids.push(e.id), ..g };
        assert(after[0] == h);
        assert(after.len() == groups.len());
        assert(forall|k: int| 1 <= k < after.len() ==> #[trigger] after[k] == groups[k]);
        assert forall|id: Seq<char>| #[trigger] listed(after, id) <==> listed(groups, id) || id
            == e.group_id by {
            if listed(after, id) {
                let k = choose|k: int| 0 <= k < after.len() && (#[trigger] after[k]).id == id;
                assert(groups[k].id == id);
            }
            if listed(groups, id) {
                let k = choose|k: int| 0 <= k < groups.len() && (#[trigger] groups[k]).id == id;
                assert(after[k].id == id);
            }
        }
        assert forall|k: int| 0 <= k < after.len() && (#[trigger] after[k]).id
            != e.group_id implies groups.contains(after[k]) by {
            assert(after[k] == groups[k]);
        }
        assert forall|k: int| 0 <= k < after.len() && (#[trigger] after[k]).id
            == e.group_id implies exists|m: int|
            0 <= m < groups.len() && (#[trigger] groups[m]).id == e.group_id && after[k] == (
            GroupView {
                count: (groups[m].count + 1) as u64,
                event_ids: groups[m].event_ids.push(e.id),
                ..groups[m]
            }) by {
            if k > 0 {
                assert(groups[0].id != groups[k].id);
            }
            assert(groups[0].id == e.group_id);
        }
    } else {
        let rest = groups.drop_first();
        let more = report::grouped_with(rest, e);
        assert forall|j: int, k: int| 0 <= j < k < rest.len() implies (#[trigger] rest[j]).id != (
        #[trigger] rest[k]).id by {
            assert(rest[j] == groups[j + 1] && rest[k] == groups[k + 1]);
        }
        adding_changes_one(rest, e);
        assert(after[0] == groups[0]);
        assert(forall|k: int| 1 <= k < after.len() ==> #[trigger] after[k] == more[k - 1]);
        assert(listed(groups, e.group_id) == listed(rest, e.group_id)) by {
            if listed(groups, e.group_id) {
                let k = choose|k: int|
                    0 <= k < groups.len() && (#[trigger] groups[k]).id == e.group_id;
                assert(rest[k - 1].id == e.group_id);
            }
            if listed(rest, e.group_id) {
                let k = choose|k: int| 0 <= k < rest.len() && (#[trigger] rest[k]).id == e.group_id;
                assert(groups[k + 1].id == e.group_id);
            }
        }
        assert forall|id: Seq<char>| #[trigger] listed(after, id) <==> listed(groups, id) || id
            == e.group_id by {
            if listed(after, id) {
                let k = choose|k: int| 0 <= k < after.len() && (#[trigger] after[k]).id == id;
                if k > 0 {
                    assert(more[k - 1].id == id);
                    assert(listed(more, id));
                    if listed(rest, id) {
                        let m = choose|m: int| 0 <= m < rest.len() && (#[trigger] rest[m]).id == id;
                        assert(groups[m + 1].id == id);
                    }
                } else {
                    assert(groups[0].id == id);
                }
            }
            if listed(groups, id) || id == e.group_id {
                if listed(groups, id) {
                    let m = choose|m: int| 0 <= m < groups.len() && (#[trigger] groups[m]).id == id;
                    if m == 0 {
                        assert(after[0].id == id);
                    } else {
                        assert(rest[m - 1].id == id);
                        assert(listed(rest, id));
                    }
                }
                if listed(more, id) {
                    let k = choose|k: int| 0 <= k < more.len() && (#[trigger] more[k]).id == id;
                    assert(after[k + 1].id == id);
                }
            }
        }
        assert forall|j: int, k: int| 0 <= j < k < after.len() implies (#[trigger] after[j]).id != (
        #[trigger] after[k]).id by {
            assert(after[k] == more[k - 1]);
            if j > 0 {
                assert(after[j] == more[j - 1]);
            } else {
                let id = more[k - 1].id;
                assert(listed(more, id));
                if listed(rest, id) {
                    let m = choose|m: int| 0 <= m < rest.len() && (#[trigger] rest[m]).id == id;
                    assert(groups[0].id != groups[m + 1].id);
                }
            }
        }
        assert forall|k: int| 0 <= k < after.len() && (#[trigger] after[k]).id
            != e.group_id implies groups.contains(after[k]) by {
            if k == 0 {
                assert(groups[0] == after[0]);
            } else {
                assert(rest.contains(more[k - 1]));
                let m = choose|m: int| 0 <= m < rest.len() && rest[m] == more[k - 1];
                assert(groups[m + 1] == after[k]);
            }
        }
        assert forall|k: int| 0 <= k < after.len() && (#[trigger] after[k]).id
            == e.group_id implies if listed(groups, e.group_id) {
            exists|m: int|
                0 <= m < groups.len() && (#[trigger] groups[m]).id == e.group_id && after[k] == (
                GroupView {
                    count: (groups[m].count + 1) as u64,
                    event_ids: groups[m].event_ids.push(e.id),
                    ..groups[m]
                })
        } else {
            after[k] == report::group_with(e)
        } by {
            assert(more[k - 1].id == e.group_id);
            if listed(rest, e.group_id) {
                let m = choose|m: int|
                    0 <= m < rest.len() && (#[trigger] rest[m]).id == e.group_id && more[k - 1] == (
                    GroupView {
                        count: (rest[m].count + 1) as u64,
                        event_ids: rest[m].event_ids.push(e.id),
                        ..rest[m]
                    });
                assert(groups[m + 1].id == e.group_id);
            }
        }
    }
}

/// The groups of a report tell of its important events: each of them is in the group of its name, and
/// every group tells how many of its events there are, which they are, and in the words of the
/// first. Events that are not important are in none.
pub proof fn important_events_are_grouped(events: Seq<EventView>)
    requires
        events.len() < u64::MAX,
    ensures
        ({
            let groups = report::important_groups(events);
            &&& forall|j: int, k: int|
                0 <= j < k < groups.len() ==> (#[trigger] groups[j]).id != (#[trigger] groups[k]).id
            &&& forall|k: int|
                0 <= k < groups.len() ==> tells_of(#[trigger] groups[k], events)
            &&& forall|i: int|
                0 <= i < events.len() && (#[trigger] events[i]).judgment.importance
                    == Importance::Important ==> listed(groups, events[i].group_id)
            &&& forall|id: Seq<char>| #[trigger] size_of(events, id) <= events.len()
            &&& forall|id: Seq<char>|
                #[trigger] size_of(events, id) > 0 ==> listed(groups, id)
        }),
    decreases events.len(),
{
    if events.len() > 0 {
        let rest = events.drop_last();
        let e = events.last();
        let n = rest.len() as int;
        important_events_are_grouped(rest);
        let before = report::important_groups(rest);
        let groups = report::important_groups(events);
        assert(events[n] == e);
        assert(forall|i: int| 0 <= i < n ==> #[trigger] rest[i] == events[i]);
        let counts = e.judgment.importance == Importance::Important;
        if counts {
            adding_changes_one(before, e);
        }
        assert forall|k: int| 0 <= k < groups.len() implies tells_of(
            #[trigger] groups[k],
            events,
        ) by {
            let g = groups[k];
            if !counts || g.id != e.group_id {
                assert(before.contains(g));
                let m = choose|m: int| 0 <= m < before.len() && before[m] == g;
                assert(tells_of(before[m], rest));
                let i = choose|i: int|
                    #[trigger] founds(rest, i) && rest[i].group_id == g.id && g.text == rest[i].text
                        && g.source == rest[i].source && g.severity == rest[i].judgment.severity
                        && g.category == rest[i].judgment.category;
                assert(founds(events, i)) by {
                    assert(events[i] == rest[i]);
                    assert forall|j: int|
                        0 <= j < i && (#[trigger] events[j]).judgment.importance
                            == Importance::Important implies events[j].group_id
                        != events[i].group_id by {
                        assert(rest[j] == events[j]);
                    }
                }
                assert forall|i: int|
                    0 <= i < events.len() && (#[trigger] events[i]).judgment.importance
                        == Importance::Important && events[i].group_id
                        == g.id implies g.event_ids.contains(events[i].id) by {
                    assert(i < n);
                    assert(rest[i] == events[i]);
                }
            } else if listed(before, e.group_id) {
                let m = choose|m: int|
                    0 <= m < before.len() && (#[trigger] before[m]).id == e.group_id && g == (
                    GroupView {
                        count: (before[m].count + 1) as u64,
                        event_ids: before[m].event_ids.push(e.id),
                        ..before[m]
                    });
                let b = before[m];
                assert(tells_of(b, rest));
                assert(size_of(rest, b.id) <= rest.len());
                let i = choose|i: int|
                    #[trigger] founds(rest, i) && rest[i].group_id == b.id && b.text == rest[i].text
                        && b.source == rest[i].source && b.severity == rest[i].judgment.severity
                        && b.category == rest[i].judgment.category;
                assert(founds(events, i)) by {
                    assert(events[i] == rest[i]);
                    assert forall|j: int|
                        0 <= j < i && (#[trigger] events[j]).judgment.importance
                            == Importance::Important implies events[j].group_id
                        != events[i].group_id by {
                        assert(rest[j] == events[j]);
                    }
                }
                assert forall|i: int|
                    0 <= i < events.len() && (#[trigger] events[i]).judgment.importance
                        == Importance::Important && events[i].group_id
                        == g.id implies g.event_ids.contains(events[i].id) by {
                    if i < n {
                        assert(rest[i] == events[i]);
                        assert(b.event_ids.contains(events[i].id));
                        let x = choose|x: int|
                            0 <= x < b.event_ids.len() && b.event_ids[x] == events[i].id;
                        assert(g.event_ids[x] == events[i].id);
                    } else {
                        assert(g.event_ids[b.event_ids.len() as int] == e.id);
                    }
                }
            } else {
                assert(g == report::group_with(e));
                assert(size_of(rest, e.group_id) == 0);
                assert forall|j: int|
                    0 <= j < n && (#[trigger] events[j]).judgment.importance
                        == Importance::Important implies events[j].group_id != e.group_id by {
                    assert(rest[j] == events[j]);
                    assert(listed(before, rest[j].group_id));
                }
                assert(founds(events, n));
                assert(g.event_ids[0] == e.id);
            }
        }
        assert forall|i: int| 0 <= i < events.len() && (#[trigger] events[i]).judgment.importance
            == Importance::Important implies listed(groups, events[i].group_id) by {
            if i < n {
                assert(rest[i] == events[i]);
            }
        }
        assert forall|id: Seq<char>| #[trigger] size_of(events, id) > 0 implies listed(
            groups,
            id,
        ) by {
            if size_of(rest, id) > 0 {
                assert(listed(before, id));
            }
        }
        assert forall|id: Seq<char>| #[trigger] size_of(events, id) <= events.len() by {
            assert(size_of(rest, id) <= rest.len());
        }
    }
}

/// How bad a severity is.
pub open spec fn badness(s: Severity) -> int {
    match s {
        Severity::Outage => 5,
        Severity::Impact => 4,
        Severity::Degraded => 3,
        Severity::Info => 2,
        Severity::Noise => 1,
        Severity::Unknown => 0,
    }
}

/// The worst groups come first, and of groups that are as bad the largest.
pub proof fn worst_groups_come_first(groups: Seq<GroupView>, i: int, j: int)
    requires
        0 <= i < j < groups.len(),
    ensures
        ({
            let a = report::ordered(groups)[i];
            let b = report::ordered(groups)[j];
            &&& badness(a.severity) >= badness(b.severity)
            &&& badness(a.severity) == badness(b.severity) ==> a.count >= b.count
            &&& report::ordered(groups).len() == groups.len()
        }),
{
    report::groups_are_ordered(groups);
    broadcast use vstd::seq_lib::group_to_multiset_ensures;

    assert(report::ordered(groups).to_multiset().len() == report::ordered(groups).len());
    assert(groups.to_multiset().len() == groups.len());
    let a = report::ordered(groups)[i];
    let b = report::ordered(groups)[j];
    assert(!report::shown_before(b, a));
}

/// A coverage record is put down as it is, behind the others, and counts as a gap unless it says that
/// all is well; where there are too many the oldest goes.
pub proof fn gaps_are_put_on_record(
    m: MetricsView,
    source: Seq<(Seq<char>, JsonView)>,
    status: Seq<char>,
    warning: Seq<char>,
    i: int,
)
    requires
        m.gap_countable(),
        m.coverage.len() <= 500,
    ensures
        ({
            let n = m.with_gap(source, status, warning);
            let record = n.coverage[n.coverage.len() - 1];
            let lost: int = if m.coverage.len() == 500 {
                1
            } else {
                0
            };
            &&& n.coverage.len() == m.coverage.len() + 1 - lost
            &&& record.source == source && record.status == status
            &&& warning.len() > 0 ==> record.warnings == seq![warning]
            &&& warning.len() == 0 ==> record.warnings.len() == 0
            &&& 0 <= i < n.coverage.len() - 1 ==> n.coverage[i] == m.coverage[i + lost]
            &&& n.coverage_gaps == m.coverage_gaps + (if status == "ok"@ {
                0int
            } else {
                1int
            })
            &&& n.coverage_records_omitted == m.coverage_records_omitted + lost
            &&& n == (MetricsView {
                coverage: n.coverage,
                coverage_gaps: n.coverage_gaps,
                coverage_records_omitted: n.coverage_records_omitted,
                ..m
            })
        }),
{
}

/// A report claims to be whole exactly where it is of a run that was not live, that missed and dropped
/// nothing, that kept every event and has a verdict on each.
pub proof fn only_whole_reports_claim_to_be(r: ReportView, m: MetricsView, live: bool)
    ensures
        report::complete(r, m, live) <==> !live && m.coverage_gaps == 0 && m.dropped == 0
            && r.evicted == 0 && r.counts.unknown == 0,
{
}

/// What a report says: the events that are kept, the groups of the important ones in their order, the
/// coverage records, and the counts of the run.
pub proof fn reports_say_what_was_seen(
    r: ReportView,
    m: MetricsView,
    u: UsageView,
    scope: JsonView,
    offline: bool,
    live: bool,
    elapsed: RealView,
    at: Seq<char>,
)
    ensures
        ({
            let groups = report::ordered(report::important_groups(r.events));
            report::report_json(r, m, u, scope, offline, live, elapsed, at) matches JsonView::Object(
                f,
            ) && says_all(f, r, m, groups, offline, scope, at) && f.contains(
                ("summary"@, report::summary_json(r, m, u, live, elapsed)),
            ) && (report::summary_json(r, m, u, live, elapsed) matches JsonView::Object(s)
                && sums_up(s, r, m, u, live))
        }),
{
    let groups = report::ordered(report::important_groups(r.events));
    let f = report::report_json(r, m, u, scope, offline, live, elapsed, at)->Object_0;
    let s = report::summary_json(r, m, u, live, elapsed)->Object_0;
    assert(f[0] == ("batches"@, json::integer(r.batches as int)));
    assert(f[1].0 == "coverage"@);
    assert(f[2] == ("created_at"@, JsonView::Text(at)));
    assert(f[3].0 == "events"@);
    assert(f[4].0 == "important_groups"@);
    assert(f[6].0 == "mode"@);
    assert(f[9] == ("scope"@, scope));
    assert(f[10] == ("summary"@, report::summary_json(r, m, u, live, elapsed)));
    assert(f.contains(f[1]) && f.contains(f[3]) && f.contains(f[4]) && f.contains(f[6]));
    assert(s[0].0 == "api_requests"@ && s[1].0 == "complete_within_window"@);
    assert(s[2].0 == "coverage_gaps"@ && s[4].0 == "events"@ && s[5].0 == "evicted_events"@);
    assert(s[6].0 == "important"@ && s[7].0 == "lines"@ && s[8].0 == "retained_events"@);
    assert(s[9].0 == "reused_events"@ && s[10].0 == "routine"@ && s[12].0 == "uncertain"@
        && s[13].0 == "unknown"@);
    assert(s.contains(s[0]) && s.contains(s[1]) && s.contains(s[2]) && s.contains(s[4])
        && s.contains(s[5]) && s.contains(s[6]) && s.contains(s[7]) && s.contains(s[8])
        && s.contains(s[9]) && s.contains(s[10]) && s.contains(s[12]) && s.contains(s[13]));
}

/// Whether fields say what was seen.
pub open spec fn says_all(
    f: Seq<(Seq<char>, JsonView)>,
    r: ReportView,
    m: MetricsView,
    groups: Seq<GroupView>,
    offline: bool,
    scope: JsonView,
    at: Seq<char>,
) -> bool {
    &&& f.contains(("batches"@, json::integer(r.batches as int)))
    &&& f.contains(
        (
            "coverage"@,
            JsonView::List(
                Seq::new(m.coverage.len(), |i: int| report::coverage_json(m.coverage[i])),
            ),
        ),
    )
    &&& f.contains(("created_at"@, JsonView::Text(at)))
    &&& f.contains(
        (
            "events"@,
            JsonView::List(
                Seq::new(r.events.len(), |i: int| crate::events::event_json(r.events[i])),
            ),
        ),
    )
    &&& f.contains(
        (
            "important_groups"@,
            JsonView::List(Seq::new(groups.len(), |i: int| report::group_json(groups[i]))),
        ),
    )
    &&& f.contains(
        (
            "mode"@,
            JsonView::Text(
                if offline {
                    "offline-rules"@
                } else {
                    "jev"@
                },
            ),
        ),
    )
    &&& f.contains(("scope"@, scope))
}

/// Whether fields sum up a run.
pub open spec fn sums_up(
    s: Seq<(Seq<char>, JsonView)>,
    r: ReportView,
    m: MetricsView,
    u: UsageView,
    live: bool,
) -> bool {
    &&& s.contains(("api_requests"@, json::integer(u.request_attempts as int)))
    &&& s.contains(("complete_within_window"@, JsonView::Bool(report::complete(r, m, live))))
    &&& s.contains(("coverage_gaps"@, json::integer(m.coverage_gaps as int)))
    &&& s.contains(("events"@, json::integer(r.total as int)))
    &&& s.contains(("evicted_events"@, json::integer(r.evicted as int)))
    &&& s.contains(("important"@, json::integer(r.counts.important as int)))
    &&& s.contains(("lines"@, json::integer(r.lines as int)))
    &&& s.contains(("retained_events"@, json::integer(r.events.len() as int)))
    &&& s.contains(("reused_events"@, json::integer(r.reused as int)))
    &&& s.contains(("routine"@, json::integer(r.counts.routine as int)))
    &&& s.contains(("uncertain"@, json::integer(r.counts.uncertain as int)))
    &&& s.contains(("unknown"@, json::integer(r.counts.unknown as int)))
}

}
