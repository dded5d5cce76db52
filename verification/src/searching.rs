//! What a search promises: every group of the frozen window is looked at once, in the best order, and
//! each decision is shown on the group that it was made on.
use vstd::prelude::*;

use crate::events;
use crate::events::EventView;
use crate::exact;
use crate::grouping;
use crate::ieee;
use crate::json;
use crate::json::JsonView;
use crate::memory::MemoryView;
use crate::order;
use crate::search;
use crate::search::{DecisionView, GroupView, Mode, Relevance, StateView};
use crate::text;

verus! {

/// The requests of a search are about the places of its order, eight at a time and in order: the
/// n-th about those from the eight-n-th on, as long as there are any and neither the search's own
/// limit nor that of 64 requests is reached.
pub proof fn requests_take_eight_at_a_time(order: Seq<int>, n: nat, max: nat, k: int)
    ensures
        ({
            let b = search::batch_of(order, n, max);
            let left = order.len() - 8 * n;
            &&& n < max && n < 64 && left > 0 ==> b.len() == (if left < 8 {
                left
            } else {
                8
            })
            &&& n >= max || n >= 64 || left <= 0 ==> b.len() == 0
            &&& 0 <= k < b.len() ==> b[k] == order[8 * n + k]
        }),
{
}

/// Whether an event of a list is the first of its identity.
pub open spec fn first_of_its_kind(events: Seq<EventView>, i: int) -> bool {
    &&& 0 <= i < events.len()
    &&& forall|j: int| 0 <= j < i ==> (#[trigger] events[j]).id != events[i].id
}

/// Whether a group has an event.
pub open spec fn among(groups: Seq<GroupView>, e: EventView) -> bool {
    exists|g: int|
        0 <= g < groups.len() && #[trigger] groups[g].id == grouping::group_of(e)
            && groups[g].events.contains(e)
}

/// Whether a group holds only events of a list that belong to it, and its times are the first and
/// the last of theirs.
pub open spec fn well_grouped(g: GroupView, events: Seq<EventView>) -> bool {
    &&& forall|k: int|
        0 <= k < g.events.len() ==> grouping::group_of(#[trigger] g.events[k]) == g.id
            && events.contains(g.events[k])
    &&& forall|k: int|
        0 <= k < g.events.len() && (#[trigger] g.events[k]).timestamp is Some ==> g.first is Some
            && g.last is Some && !text::before(g.events[k].timestamp->Some_0, g.first->Some_0)
            && !text::before(g.last->Some_0, g.events[k].timestamp->Some_0)
    &&& g.first is Some ==> exists|k: int|
        0 <= k < g.events.len() && (#[trigger] g.events[k]).timestamp == g.first
    &&& g.last is Some ==> exists|k: int|
        0 <= k < g.events.len() && (#[trigger] g.events[k]).timestamp == g.last
}

proof fn joining_groups_well(g: GroupView, e: EventView, events: Seq<EventView>)
    requires
        well_grouped(g, events),
        g.id == grouping::group_of(e),
        events.contains(e),
    ensures
        well_grouped(search::joined_by(g, e), events),
        search::joined_by(g, e).events.contains(e),
        forall|x: EventView| g.events.contains(x) ==> #[trigger] search::joined_by(
            g,
            e,
        ).events.contains(x),
{
    let h = search::joined_by(g, e);
    let n = g.events.len() as int;
    assert(h.events[n] == e);
    assert forall|x: EventView| g.events.contains(x) implies #[trigger] h.events.contains(x) by {
        let k = choose|k: int| 0 <= k < g.events.len() && g.events[k] == x;
        assert(h.events[k] == x);
    }
    assert forall|k: int| 0 <= k < h.events.len() implies grouping::group_of(
        #[trigger] h.events[k],
    ) == h.id && events.contains(h.events[k]) by {
        if k < n {
            assert(h.events[k] == g.events[k]);
        }
    }
    assert forall|k: int|
        0 <= k < h.events.len() && (#[trigger] h.events[k]).timestamp is Some implies h.first is Some
        && h.last is Some && !text::before(h.events[k].timestamp->Some_0, h.first->Some_0)
        && !text::before(h.last->Some_0, h.events[k].timestamp->Some_0) by {
        let t = h.events[k].timestamp->Some_0;
        text::before_irreflexive(t);
        if k < n {
            assert(h.events[k] == g.events[k]);
            if let Some(u) = e.timestamp {
                let a = g.first->Some_0;
                let b = g.last->Some_0;
                if text::before(u, a) && text::before(t, u) {
                    text::before_transitive(t, u, a);
                }
                if text::before(b, u) && text::before(u, t) {
                    text::before_transitive(b, u, t);
                }
            }
        } else {
            if g.first is Some {
                let a = g.first->Some_0;
                text::before_total(t, a);
            }
        }
    }
    if h.first is Some {
        if h.first == g.first {
            let k = choose|k: int|
                0 <= k < g.events.len() && (#[trigger] g.events[k]).timestamp == g.first;
            assert(h.events[k].timestamp == h.first);
        } else {
            assert(h.events[n].timestamp == h.first);
        }
    }
    if h.last is Some {
        if h.last == g.last {
            let k = choose|k: int|
                0 <= k < g.events.len() && (#[trigger] g.events[k]).timestamp == g.last;
            assert(h.events[k].timestamp == h.last);
        } else {
            assert(h.events[n].timestamp == h.last);
        }
    }
}

proof fn grouping_groups_well(groups: Seq<GroupView>, e: EventView, events: Seq<EventView>)
    requires
        forall|g: int| 0 <= g < groups.len() ==> well_grouped(#[trigger] groups[g], events),
        events.contains(e),
    ensures
        forall|g: int|
            0 <= g < search::grouped(groups, e).len() ==> well_grouped(
                #[trigger] search::grouped(groups, e)[g],
                events,
            ),
        among(search::grouped(groups, e), e),
        forall|x: EventView| among(groups, x) ==> #[trigger] among(search::grouped(groups, e), x),
    decreases groups.len(),
{
    let after = search::grouped(groups, e);
    if groups.len() == 0 {
        let empty = GroupView {
            id: grouping::group_of(e),
            events: seq![],
            first: None,
            last: None,
        };
        joining_groups_well(empty, e, events);
        assert(after[0] == search::joined_by(empty, e));
        assert(after[0].id == grouping::group_of(e));
    } else if groups[0].id == grouping::group_of(e) {
        joining_groups_well(groups[0], e, events);
        assert(after[0] == search::joined_by(groups[0], e));
        assert(after[0].id == grouping::group_of(e));
        assert forall|g: int| 0 <= g < after.len() implies well_grouped(
            #[trigger] after[g],
            events,
        ) by {
            if g > 0 {
                assert(after[g] == groups[g]);
            }
        }
        assert forall|x: EventView| among(groups, x) implies #[trigger] among(after, x) by {
            let g = choose|g: int|
                0 <= g < groups.len() && #[trigger] groups[g].id == grouping::group_of(x)
                    && groups[g].events.contains(x);
            assert(after[g].id == groups[g].id);
            if g > 0 {
                assert(after[g] == groups[g]);
            }
        }
    } else {
        let rest = groups.drop_first();
        let more = search::grouped(rest, e);
        assert forall|g: int| 0 <= g < rest.len() implies well_grouped(
            #[trigger] rest[g],
            events,
        ) by {
            assert(rest[g] == groups[g + 1]);
        }
        grouping_groups_well(rest, e, events);
        assert forall|g: int| 0 <= g < after.len() implies well_grouped(
            #[trigger] after[g],
            events,
        ) by {
            if g > 0 {
                assert(after[g] == more[g - 1]);
            } else {
                assert(after[g] == groups[0]);
            }
        }
        let g = choose|g: int|
            0 <= g < more.len() && #[trigger] more[g].id == grouping::group_of(e)
                && more[g].events.contains(e);
        assert(after[g + 1] == more[g]);
        assert(after[g + 1].id == grouping::group_of(e));
        assert forall|x: EventView| among(groups, x) implies #[trigger] among(after, x) by {
            let g = choose|g: int|
                0 <= g < groups.len() && #[trigger] groups[g].id == grouping::group_of(x)
                    && groups[g].events.contains(x);
            if g == 0 {
                assert(after[0] == groups[0]);
                assert(after[0].id == grouping::group_of(x));
            } else {
                assert(rest[g - 1] == groups[g]);
                assert(rest[g - 1].id == grouping::group_of(x));
                assert(among(rest, x));
                assert(among(more, x));
                let h = choose|h: int|
                    0 <= h < more.len() && #[trigger] more[h].id == grouping::group_of(x)
                        && more[h].events.contains(x);
                assert(after[h + 1] == more[h]);
                assert(after[h + 1].id == grouping::group_of(x));
            }
        }
    }
}

proof fn well_grouped_in_more(g: GroupView, events: Seq<EventView>, e: EventView)
    requires
        well_grouped(g, events),
    ensures
        well_grouped(g, events.push(e)),
{
    let more = events.push(e);
    assert forall|k: int| 0 <= k < g.events.len() implies grouping::group_of(
        #[trigger] g.events[k],
    ) == g.id && more.contains(g.events[k]) by {
        let i = choose|i: int| 0 <= i < events.len() && events[i] == g.events[k];
        assert(more[i] == g.events[k]);
    }
}

/// The groups of a window are made of its events: each different event is in the group that it
/// belongs to, no group has another, and the times of a group are the first and the last of its
/// events.
pub proof fn windows_group_their_events(events: Seq<EventView>, i: int)
    ensures
        first_of_its_kind(events, i) ==> among(search::window_groups(events), events[i]),
        forall|g: int|
            0 <= g < search::window_groups(events).len() ==> well_grouped(
                #[trigger] search::window_groups(events)[g],
                events,
            ),
        forall|x: Seq<char>|
            #[trigger] search::seen_ids(events).contains(x) <==> exists|j: int|
                0 <= j < events.len() && (#[trigger] events[j]).id == x,
    decreases events.len(),
{
    if events.len() > 0 {
        let rest = events.drop_last();
        let e = events.last();
        let n = rest.len() as int;
        windows_group_their_events(rest, i);
        assert(events =~= rest.push(e));
        assert(events[n] == e);
        let before = search::window_groups(rest);
        let after = search::window_groups(events);
        let known = search::seen_ids(rest);
        let ids = search::seen_ids(events);
        assert forall|x: Seq<char>| #[trigger] ids.contains(x) <==> exists|j: int|
            0 <= j < events.len() && (#[trigger] events[j]).id == x by {
            if ids.contains(x) {
                let k = choose|k: int| 0 <= k < ids.len() && ids[k] == x;
                if k < known.len() {
                    assert(known[k] == x);
                    assert(known.contains(x));
                    let j = choose|j: int| 0 <= j < rest.len() && (#[trigger] rest[j]).id == x;
                    assert(events[j].id == x);
                } else {
                    assert(events[n].id == x);
                }
            }
            if exists|j: int| 0 <= j < events.len() && (#[trigger] events[j]).id == x {
                let j = choose|j: int| 0 <= j < events.len() && (#[trigger] events[j]).id == x;
                if j < n {
                    assert(rest[j].id == x);
                    assert(known.contains(x));
                    let k = choose|k: int| 0 <= k < known.len() && known[k] == x;
                    assert(ids[k] == x);
                } else if !known.contains(x) {
                    assert(ids[ids.len() - 1] == x);
                } else {
                    assert(ids == known);
                }
            }
        }
        assert forall|g: int| 0 <= g < before.len() implies well_grouped(
            #[trigger] before[g],
            events,
        ) by {
            well_grouped_in_more(before[g], rest, e);
        }
        if !known.contains(e.id) {
            assert(events.contains(e));
            grouping_groups_well(before, e, events);
        }
        if first_of_its_kind(events, i) {
            if i < n {
                assert forall|j: int| 0 <= j < i implies (#[trigger] rest[j]).id != rest[i].id by {
                    assert(rest[j] == events[j]);
                }
                assert(first_of_its_kind(rest, i));
                assert(among(before, events[i]));
            } else {
                assert(!known.contains(e.id)) by {
                    if known.contains(e.id) {
                        let j = choose|j: int| 0 <= j < rest.len() && (#[trigger] rest[j]).id == e.id;
                        assert(events[j].id == events[i].id);
                    }
                }
            }
        }
    }
}

/// Whether a decision is not certain: its confidence is below seven tenths.
pub open spec fn uncertain(d: DecisionView) -> bool {
    d.confidence matches Some(c) && ieee::less(c.bits, 0x3fe6_6666_6666_6666)
}

/// Caution makes a decision no more than possible where the evidence was cut short or the service was
/// not certain, and leaves every other decision as it is.
pub proof fn caution_changes_only_doubtful_decisions(d: DecisionView, truncated: bool)
    ensures
        ({
            let c = search::cautious(d, truncated);
            &&& c.confidence == d.confidence && c.error == d.error && c.cached == d.cached
            &&& d.relevance == Relevance::Unknown ==> c.relevance == Relevance::Unknown
            &&& d.relevance != Relevance::Unknown && (truncated || uncertain(d)) ==> c.relevance
                == Relevance::Possible
            &&& !truncated && !uncertain(d) ==> c == d
        }),
{
}

/// Each decision of a response is made on the group that was asked about, with caution, and on no
/// other; groups that were not asked about keep what they had.
pub proof fn decisions_reach_their_groups(
    s: StateView,
    memory: MemoryView,
    groups: Seq<GroupView>,
    batch: Seq<int>,
    decisions: Seq<DecisionView>,
    model: Seq<char>,
    now: u64,
    n: nat,
    i: int,
)
    requires
        search::fresh_batch(s, batch),
        n <= batch.len(),
        0 <= i < s.decisions.len(),
    ensures
        ({
            let t = search::absorbed(s, memory, groups, batch, decisions, model, now, n).0;
            &&& t.decisions.len() == s.decisions.len()
            &&& t.query == s.query && t.mode == s.mode
            &&& forall|k: int|
                0 <= k < n && #[trigger] batch[k] == i ==> t.decisions[i] == Some(
                    search::cautious(decisions[k], groups[i].events[0].truncated),
                )
            &&& (forall|k: int| 0 <= k < n ==> #[trigger] batch[k] != i) ==> t.decisions[i]
                == s.decisions[i]
        }),
    decreases n,
{
    if n > 0 {
        decisions_reach_their_groups(
            s,
            memory,
            groups,
            batch,
            decisions,
            model,
            now,
            (n - 1) as nat,
            i,
        );
        let u = search::absorbed(s, memory, groups, batch, decisions, model, now, (n - 1) as nat).0;
        let t = search::absorbed(s, memory, groups, batch, decisions, model, now, n).0;
        let at = batch[n - 1];
        assert(0 <= at < s.decisions.len());
        assert(t.decisions == u.decisions.update(
            at,
            Some(search::cautious(decisions[n - 1], groups[at].events[0].truncated)),
        ));
        assert forall|k: int| 0 <= k < n && #[trigger] batch[k] == i implies t.decisions[i] == Some(
            search::cautious(decisions[k], groups[i].events[0].truncated),
        ) by {
            if k < n - 1 {
                assert(batch[k] != batch[n - 1]);
            }
        }
    }
}

/// A search for exact text looks for it in the text of each group, without regard to case, and is
/// certain of the answer; it never asks the service.
pub proof fn exact_text_is_looked_for(
    g: GroupView,
    query: Seq<char>,
    model: Seq<char>,
    memory: MemoryView,
    now: u64,
)
    ensures
        search::at_once(g, query, Mode::Literal, model, memory, now) matches Some(d) && d.confidence
            is None && d.error is None && !d.cached && (d.relevance == Relevance::Match
            || d.relevance == Relevance::Unrelated) && (d.relevance == Relevance::Match
            <==> exists|i: int|
            0 <= i && i + text::lowered(query).len() <= text::lowered(g.events[0].text).len()
                && #[trigger] text::lowered(g.events[0].text).subrange(
                i,
                i + text::lowered(query).len(),
            ) == text::lowered(query)),
{
    let hay = text::lowered(g.events[0].text);
    let needle = text::lowered(query);
    if text::holds(hay, needle) {
        let i = choose|i: int| text::occurs_at(hay, needle, i);
        assert(hay.subrange(i, i + needle.len()) == needle);
    }
    if exists|i: int|
        0 <= i && i + needle.len() <= hay.len() && #[trigger] hay.subrange(i, i + needle.len())
            == needle {
        let i = choose|i: int|
            0 <= i && i + needle.len() <= hay.len() && #[trigger] hay.subrange(i, i + needle.len())
                == needle;
        assert(text::occurs_at(hay, needle, i));
    }
}

/// What a search says of itself at its end: whether it was cancelled, and as long as the service
/// could be asked or was not needed, whether it is whole, or how much of it is missing.
pub proof fn searches_say_how_they_ended(
    s: StateView,
    stopped: bool,
    online: bool,
    waiting: bool,
)
    ensures
        ({
            let t = s.concluded(stopped, online, waiting);
            &&& t.decisions == s.decisions && t.checked == s.checked && t.failed == s.failed
            &&& t.status == (if stopped {
                "Cancelled"@
            } else {
                "Complete"@
            })
            &&& (s.mode == Mode::Literal || online) && s.checked == s.decisions.len() && s.failed
                == 0 ==> t.message == "Finished searching the frozen log window"@
            &&& (s.mode == Mode::Literal || online) && (s.checked < s.decisions.len() || s.failed
                > 0) ==> t.message == "PARTIAL: "@ + text::decimal(
                (s.decisions.len() - s.checked) as nat,
            ) + " unexamined, "@ + text::decimal(s.failed as nat)
                + " failed; results preserved"@
            &&& s.mode == Mode::Jev && !online && waiting ==> t.message
                == "Jev search needs credentials and online mode; use f for exact text"@
        }),
{
}

/// What a decision of a search is remembered by.
pub open spec fn search_basis(model: Seq<char>, query: Seq<char>, g: GroupView) -> JsonView {
    JsonView::List(
        seq![
            JsonView::Text("search-v1"@),
            JsonView::Text(model),
            JsonView::Text(query),
            JsonView::Text(g.id),
            JsonView::Object(
                seq![
                    ("count"@, json::integer(g.events.len() as int)),
                    ("first_seen"@, json::optional_text(g.first)),
                    ("last_seen"@, json::optional_text(g.last)),
                ],
            ),
        ],
    )
}

/// Unless the digits clash, a decision is remembered under the same name exactly where the model, the
/// query, the group, how often it occurred and its first and last times are the same.
pub proof fn decisions_are_remembered_exactly(
    model: Seq<char>,
    query: Seq<char>,
    g: GroupView,
    other_model: Seq<char>,
    other_query: Seq<char>,
    h: GroupView,
)
    ensures
        events::no_clash(
            search_basis(model, query, g),
            search_basis(other_model, other_query, h),
        ) ==> (search::decision_key(model, query, g) == search::decision_key(
            other_model,
            other_query,
            h,
        ) <==> model == other_model && query == other_query && g.id == h.id && g.events.len()
            == h.events.len() && g.first == h.first && g.last == h.last),
{
    let v = search_basis(model, query, g);
    let w = search_basis(other_model, other_query, h);
    let x = v->List_0;
    let y = w->List_0;
    let a = x[4]->Object_0;
    let b = y[4]->Object_0;
    key_is_identity(model, query, g);
    key_is_identity(other_model, other_query, h);
    exact::integers_are_exact(g.events.len() as int, h.events.len() as int);
    exact::integers_are_exact(h.events.len() as int, g.events.len() as int);
    assert forall|i: int| 0 <= i < a.len() implies exact::written((#[trigger] a[i]).1) by {
        assert(i == 0 || i == 1 || i == 2);
    }
    assert forall|i: int| 0 <= i < b.len() implies exact::written((#[trigger] b[i]).1) by {
        assert(i == 0 || i == 1 || i == 2);
    }
    exact::fields_are_written(a);
    exact::fields_are_written(b);
    assert forall|i: int| 0 <= i < x.len() implies exact::written(#[trigger] x[i]) by {
        assert(i == 0 || i == 1 || i == 2 || i == 3 || i == 4);
    }
    assert forall|i: int| 0 <= i < y.len() implies exact::written(#[trigger] y[i]) by {
        assert(i == 0 || i == 1 || i == 2 || i == 3 || i == 4);
    }
    exact::texts_are_exact(v, w);
    if exact::alike(v, w) {
        assert(exact::alike(x[1], y[1]) && exact::alike(x[2], y[2]) && exact::alike(x[3], y[3])
            && exact::alike(x[4], y[4]));
        assert(exact::alike(a[0].1, b[0].1) && exact::alike(a[1].1, b[1].1) && exact::alike(
            a[2].1,
            b[2].1,
        ));
    }
    if model == other_model && query == other_query && g.id == h.id && g.events.len()
        == h.events.len() && g.first == h.first && g.last == h.last {
        assert(v == w);
    }
}

proof fn key_is_identity(model: Seq<char>, query: Seq<char>, g: GroupView)
    ensures
        search::decision_key(model, query, g) == events::identity(search_basis(model, query, g)),
{
    let x = search_basis(model, query, g)->List_0;
    let o = search::occurrences_json(g)->Object_0;
    assert(o =~= x[4]->Object_0);
    let made = seq![].push(JsonView::Text("search-v1"@)).push(JsonView::Text(model)).push(
        JsonView::Text(query),
    ).push(JsonView::Text(g.id)).push(search::occurrences_json(g));
    assert(made =~= x);
}

/// Whether a text holds another.
pub open spec fn within(hay: Seq<char>, needle: Seq<char>) -> bool {
    exists|i: int|
        0 <= i && i + needle.len() <= hay.len() && #[trigger] hay.subrange(i, i + needle.len())
            == needle
}

/// A group ranks by how many of the words its text or its source holds: none where it holds none, all
/// where it holds all, and each word that it holds counts one.
pub proof fn ranks_count_the_words(words: Seq<Seq<char>>, w: Seq<char>, t: Seq<char>)
    ensures
        search::hits(words, t) <= words.len(),
        search::hits(words, t) == words.len() <==> forall|i: int|
            0 <= i < words.len() ==> within(t, #[trigger] words[i]),
        search::hits(words, t) == 0 <==> forall|i: int|
            0 <= i < words.len() ==> !within(t, #[trigger] words[i]),
        search::hits(words.push(w), t) == search::hits(words, t) + (if within(t, w) {
            1int
        } else {
            0int
        }),
    decreases words.len(),
{
    holding_is_within(t, w);
    assert(words.push(w).drop_last() =~= words);
    if words.len() > 0 {
        let rest = words.drop_last();
        ranks_count_the_words(rest, words.last(), t);
        holding_is_within(t, words.last());
        assert(words[words.len() - 1] == words.last());
        assert(forall|i: int| 0 <= i < rest.len() ==> rest[i] == words[i]);
    }
}

proof fn holding_is_within(hay: Seq<char>, needle: Seq<char>)
    ensures
        text::holds(hay, needle) == within(hay, needle),
{
    if text::holds(hay, needle) {
        let i = choose|i: int| text::occurs_at(hay, needle, i);
        assert(hay.subrange(i, i + needle.len()) == needle);
    }
    if within(hay, needle) {
        let i = choose|i: int|
            0 <= i && i + needle.len() <= hay.len() && #[trigger] hay.subrange(i, i + needle.len())
                == needle;
        assert(text::occurs_at(hay, needle, i));
    }
}

/// Groups of the same rank are put before the service in the order in which they stand in the window.
pub proof fn equal_ranks_keep_their_order(pending: Seq<int>, ranks: Seq<nat>, y: int)
    ensures
        order::peers(search::by_rank(pending, ranks), y, search::higher(ranks)) == order::peers(
            pending,
            y,
            search::higher(ranks),
        ),
{
    order::ordering_is_stable(pending, y, search::higher(ranks));
}

/// Whether letters and numbers of a text run from one place to another, and no further on either
/// side.
pub open spec fn runs(t: Seq<char>, i: int, j: int) -> bool {
    &&& 0 <= i < j <= t.len()
    &&& forall|k: int| i <= k < j ==> text::alphanumeric(#[trigger] t[k])
    &&& i == 0 || !text::alphanumeric(t[i - 1])
    &&& j == t.len() || !text::alphanumeric(t[j])
}

/// Whether a word is a run of letters and numbers of a query, of more than one byte and in lower
/// case.
pub open spec fn asked_for(t: Seq<char>, w: Seq<char>) -> bool {
    exists|i: int, j: int|
        #![trigger runs(t, i, j)]
        runs(t, i, j) && text::utf8_len(t.subrange(i, j)) > 1 && text::lowered(t.subrange(i, j))
            == w
}

spec fn asked_behind(t: Seq<char>, w: Seq<char>, s: int) -> bool {
    exists|i: int, j: int|
        #![trigger runs(t, i, j)]
        runs(t, i, j) && s <= i && text::utf8_len(t.subrange(i, j)) > 1 && text::lowered(
            t.subrange(i, j),
        ) == w
}

proof fn added(words: Seq<Seq<char>>, w: Seq<char>, x: Seq<char>)
    ensures
        search::with_word(words, w).contains(x) <==> words.contains(x) || x == w,
        words.no_duplicates() ==> search::with_word(words, w).no_duplicates(),
{
    let n = words.push(w);
    if words.contains(x) {
        let i = choose|i: int| 0 <= i < words.len() && words[i] == x;
        assert(n[i] == x);
    }
    assert(n[words.len() as int] == w);
    if n.contains(x) && x != w {
        let i = choose|i: int| 0 <= i < n.len() && n[i] == x;
        assert(words[i] == x);
    }
    if !words.contains(w) && words.no_duplicates() {
        assert forall|i: int, j: int| 0 <= i < n.len() && 0 <= j < n.len() && i != j implies n[i]
            != n[j] by {
            if i == words.len() {
                assert(words[j] == n[j]);
            } else if j == words.len() {
                assert(words[i] == n[i]);
            }
        }
    }
}

proof fn words_found(t: Seq<char>, words: Seq<Seq<char>>, s: int, p: int, x: Seq<char>)
    requires
        0 <= s <= p <= t.len(),
        forall|k: int| s <= k < p ==> text::alphanumeric(#[trigger] t[k]),
        s == 0 || !text::alphanumeric(t[s - 1]),
    ensures
        ({
            let all = search::terms_from(words, t.subrange(s, p), t.skip(p));
            &&& all.contains(x) <==> words.contains(x) || asked_behind(t, x, s)
            &&& words.no_duplicates() ==> all.no_duplicates()
        }),
    decreases t.len() - p,
{
    let run = t.subrange(s, p);
    let rest = t.skip(p);
    if p < t.len() {
        assert(rest[0] == t[p]);
        assert(rest.drop_first() =~= t.skip(p + 1));
    }
    if p < t.len() && text::alphanumeric(t[p]) {
        assert(run.push(rest[0]) =~= t.subrange(s, p + 1));
        words_found(t, words, s, p + 1, x);
    } else {
        let w = text::lowered(run);
        let found = if text::utf8_len(run) > 1 {
            search::with_word(words, w)
        } else {
            words
        };
        added(words, w, x);
        if s < p {
            assert(runs(t, s, p));
        } else {
            text::utf8_len_zero(run);
            assert(run.len() == 0);
        }
        assert(found.contains(x) <==> words.contains(x) || (s < p && text::utf8_len(run) > 1
            && x == w));
        if asked_behind(t, x, s) {
            let (i, j) = choose|i: int, j: int|
                #![trigger runs(t, i, j)]
                runs(t, i, j) && s <= i && text::utf8_len(t.subrange(i, j)) > 1 && text::lowered(
                    t.subrange(i, j),
                ) == x;
            if i == s {
                if j < p {
                    assert(text::alphanumeric(t[j]));
                } else if j > p {
                    assert(text::alphanumeric(t[p]));
                }
            } else if i <= p {
                assert(s <= i - 1 < p);
                assert(text::alphanumeric(t[i - 1]));
            } else {
                assert(asked_behind(t, x, p + 1));
            }
        }
        if p < t.len() {
            assert(t.subrange(p + 1, p + 1) =~= seq![]);
            words_found(t, found, p + 1, p + 1, x);
            if asked_behind(t, x, p + 1) {
                let (i, j) = choose|i: int, j: int|
                    #![trigger runs(t, i, j)]
                    runs(t, i, j) && p + 1 <= i && text::utf8_len(t.subrange(i, j)) > 1
                        && text::lowered(t.subrange(i, j)) == x;
                assert(runs(t, i, j));
            }
        } else {
            if asked_behind(t, x, p + 1) {
                let (i, j) = choose|i: int, j: int|
                    #![trigger runs(t, i, j)]
                    runs(t, i, j) && p + 1 <= i && text::utf8_len(t.subrange(i, j)) > 1
                        && text::lowered(t.subrange(i, j)) == x;
                assert(i < t.len());
            }
        }
    }
}

proof fn all_added(words: Seq<Seq<char>>, more: Seq<Seq<char>>, x: Seq<char>)
    ensures
        search::with_words(words, more).contains(x) <==> words.contains(x) || more.contains(x),
        words.no_duplicates() ==> search::with_words(words, more).no_duplicates(),
    decreases more.len(),
{
    if more.len() > 0 {
        let less = more.drop_last();
        all_added(words, less, x);
        added(search::with_words(words, less), more.last(), x);
        if more.contains(x) {
            let i = choose|i: int| 0 <= i < more.len() && more[i] == x;
            if i < less.len() {
                assert(less[i] == x);
            }
        }
        if less.contains(x) {
            let i = choose|i: int| 0 <= i < less.len() && less[i] == x;
            assert(more[i] == x);
        }
        assert(more[more.len() - 1] == more.last());
    }
}

/// Whether a word stands for a database.
pub open spec fn of_databases(w: Seq<char>) -> bool {
    w == "db"@ || w == "database"@ || w == "postgres"@ || w == "postgresql"@ || w == "mysql"@ || w
        == "sql"@ || w == "mongo"@ || w == "redis"@
}

/// Whether a word stands for trouble.
pub open spec fn of_trouble(w: Seq<char>) -> bool {
    w == "error"@ || w == "failure"@ || w == "failed"@ || w == "unavailable"@ || w
        == "exhausted"@ || w == "deadlock"@ || w == "timeout"@ || w == "issue"@
}

/// Whether a query asks for a word that has a property.
pub open spec fn asks_of(query: Seq<char>, p: spec_fn(Seq<char>) -> bool) -> bool {
    exists|w: Seq<char>| p(w) && #[trigger] asked_for(query, w)
}

proof fn synonyms(x: Seq<char>)
    ensures
        search::databases().contains(x) <==> of_databases(x),
        search::troubles().contains(x) <==> of_trouble(x),
{
    let a = search::databases();
    let b = search::troubles();
    assert(a[0] == "db"@ && a[1] == "database"@ && a[2] == "postgres"@ && a[3] == "postgresql"@
        && a[4] == "mysql"@ && a[5] == "sql"@ && a[6] == "mongo"@ && a[7] == "redis"@);
    assert(b[0] == "error"@ && b[1] == "failure"@ && b[2] == "failed"@ && b[3] == "unavailable"@
        && b[4] == "exhausted"@ && b[5] == "deadlock"@ && b[6] == "timeout"@ && b[7] == "issue"@);
}

/// What a query looks for: the words that it asks for, all words for databases where one of them is
/// one, all words for trouble where one of them is one, and nothing else. No word counts twice.
pub proof fn queries_are_taken_by_their_words(query: Seq<char>, x: Seq<char>)
    ensures
        search::terms(query).contains(x) <==> asked_for(query, x) || (of_databases(x) && asks_of(
            query,
            |w: Seq<char>| of_databases(w),
        )) || (of_trouble(x) && asks_of(query, |w: Seq<char>| of_trouble(w))),
        search::terms(query).no_duplicates(),
{
    let own = search::terms_from(seq![], seq![], query);
    let dbs = search::databases();
    let bad = search::troubles();
    let start = Seq::<Seq<char>>::empty();
    assert(query.subrange(0, 0) =~= seq![]);
    assert(query.skip(0) =~= query);
    assert forall|w: Seq<char>| #[trigger] own.contains(w) <==> asked_for(query, w) by {
        words_found(query, start, 0, 0, w);
        if asked_for(query, w) {
            let (i, j) = choose|i: int, j: int|
                #![trigger runs(query, i, j)]
                runs(query, i, j) && text::utf8_len(query.subrange(i, j)) > 1 && text::lowered(
                    query.subrange(i, j),
                ) == w;
            assert(runs(query, i, j));
            assert(asked_behind(query, w, 0));
        }
        if asked_behind(query, w, 0) {
            let (i, j) = choose|i: int, j: int|
                #![trigger runs(query, i, j)]
                runs(query, i, j) && 0 <= i && text::utf8_len(query.subrange(i, j)) > 1
                    && text::lowered(query.subrange(i, j)) == w;
            assert(runs(query, i, j));
        }
    }
    words_found(query, start, 0, 0, x);
    let a = if search::overlap(dbs, own) {
        search::with_words(own, dbs)
    } else {
        own
    };
    all_added(own, dbs, x);
    all_added(a, bad, x);
    synonyms(x);
    assert(search::overlap(dbs, own) <==> asks_of(query, |w: Seq<char>| of_databases(w))) by {
        if search::overlap(dbs, own) {
            let i = choose|i: int| 0 <= i < dbs.len() && own.contains(#[trigger] dbs[i]);
            synonyms(dbs[i]);
            assert(own.contains(dbs[i]));
            assert(asked_for(query, dbs[i]));
        }
        if asks_of(query, |w: Seq<char>| of_databases(w)) {
            let w = choose|w: Seq<char>| of_databases(w) && #[trigger] asked_for(query, w);
            synonyms(w);
            let i = choose|i: int| 0 <= i < dbs.len() && dbs[i] == w;
            assert(own.contains(dbs[i]));
        }
    }
    assert(search::overlap(bad, a) <==> asks_of(query, |w: Seq<char>| of_trouble(w))) by {
        if search::overlap(bad, a) {
            let i = choose|i: int| 0 <= i < bad.len() && a.contains(#[trigger] bad[i]);
            synonyms(bad[i]);
            all_added(own, dbs, bad[i]);
            words_apart();
            assert(own.contains(bad[i]));
            assert(asked_for(query, bad[i]));
        }
        if asks_of(query, |w: Seq<char>| of_trouble(w)) {
            let w = choose|w: Seq<char>| of_trouble(w) && #[trigger] asked_for(query, w);
            synonyms(w);
            let i = choose|i: int| 0 <= i < bad.len() && bad[i] == w;
            assert(own.contains(w));
            all_added(own, dbs, w);
            assert(a.contains(bad[i]));
        }
    }
}

proof fn words_apart()
    ensures
        forall|w: Seq<char>| !(#[trigger] of_databases(w) && of_trouble(w)),
{
    reveal_strlit("db");
    reveal_strlit("database");
    reveal_strlit("postgres");
    reveal_strlit("postgresql");
    reveal_strlit("mysql");
    reveal_strlit("sql");
    reveal_strlit("mongo");
    reveal_strlit("redis");
    reveal_strlit("error");
    reveal_strlit("failure");
    reveal_strlit("failed");
    reveal_strlit("unavailable");
    reveal_strlit("exhausted");
    reveal_strlit("deadlock");
    reveal_strlit("timeout");
    reveal_strlit("issue");
    assert("db"@[0] == 'd' && "database"@[1] == 'a' && "postgres"@[0] == 'p' && "postgresql"@[0]
        == 'p' && "mysql"@[0] == 'm' && "sql"@[0] == 's' && "mongo"@[0] == 'm' && "redis"@[0]
        == 'r');
    assert("error"@[0] == 'e' && "failure"@[0] == 'f' && "failed"@[0] == 'f' && "unavailable"@[0]
        == 'u' && "exhausted"@[0] == 'e' && "timeout"@[0] == 't' && "issue"@[0] == 'i');
    assert("deadlock"@[0] == 'd' && "deadlock"@[1] == 'e' && "deadlock"@.len() == 8);
    assert("db"@.len() == 2 && "database"@.len() == 8);
}

/// How many places of a search have a property.
pub open spec fn places_with(
    slots: Seq<Option<DecisionView>>,
    p: spec_fn(Option<DecisionView>) -> bool,
) -> nat
    decreases slots.len(),
{
    if slots.len() == 0 {
        0
    } else {
        places_with(slots.drop_last(), p) + if p(slots.last()) {
            1nat
        } else {
            0nat
        }
    }
}

/// What a search counts: the groups that were decided, those of them that nothing is known of, and
/// those whose decision was remembered. It is partial where a group was not decided or nothing is
/// known of it.
pub proof fn searches_count_their_groups(s: StateView)
    requires
        s.fits(),
    ensures
        s.checked == places_with(s.decisions, |d: Option<DecisionView>| d is Some),
        s.failed == places_with(
            s.decisions,
            |d: Option<DecisionView>| d is Some && d->Some_0.relevance == Relevance::Unknown,
        ),
        s.cache_hits == places_with(
            s.decisions,
            |d: Option<DecisionView>| d is Some && d->Some_0.cached,
        ),
        s.partial() <==> exists|i: int|
            0 <= i < s.decisions.len() && (#[trigger] s.decisions[i] is None
                || s.decisions[i]->Some_0.relevance == Relevance::Unknown),
{
    places_counted(s.decisions);
}

proof fn places_counted(slots: Seq<Option<DecisionView>>)
    ensures
        search::made(slots) == places_with(slots, |d: Option<DecisionView>| d is Some),
        search::unknown(slots) == places_with(
            slots,
            |d: Option<DecisionView>| d is Some && d->Some_0.relevance == Relevance::Unknown,
        ),
        search::remembered(slots) == places_with(
            slots,
            |d: Option<DecisionView>| d is Some && d->Some_0.cached,
        ),
        search::made(slots) <= slots.len(),
        search::made(slots) < slots.len() || search::unknown(slots) > 0 <==> exists|i: int|
            0 <= i < slots.len() && (#[trigger] slots[i] is None || slots[i]->Some_0.relevance
                == Relevance::Unknown),
    decreases slots.len(),
{
    if slots.len() > 0 {
        let r = slots.drop_last();
        places_counted(r);
        assert(slots[slots.len() - 1] == slots.last());
        if exists|i: int|
            0 <= i < r.len() && (#[trigger] r[i] is None || r[i]->Some_0.relevance
                == Relevance::Unknown) {
            let i = choose|i: int|
                0 <= i < r.len() && (#[trigger] r[i] is None || r[i]->Some_0.relevance
                    == Relevance::Unknown);
            assert(slots[i] == r[i]);
        }
        if exists|i: int|
            0 <= i < slots.len() && (#[trigger] slots[i] is None || slots[i]->Some_0.relevance
                == Relevance::Unknown) {
            let i = choose|i: int|
                0 <= i < slots.len() && (#[trigger] slots[i] is None || slots[i]->Some_0.relevance
                    == Relevance::Unknown);
            if i < r.len() {
                assert(r[i] == slots[i]);
            }
        }
    }
}

/// A query can be searched for where it has something besides white space around it, no more than
/// 500 characters of it, and no control character.
pub proof fn queries_are_searchable(q: Seq<char>)
    ensures
        search::searchable(q) <==> 0 < q.len() && q.len() <= 500 && !exists|i: int|
            0 <= i < q.len() && text::control(#[trigger] q[i]),
{
}

}
