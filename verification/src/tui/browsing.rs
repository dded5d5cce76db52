//! What browsing promises: every event under its tab, the best first, and keys that undo each other.
use vstd::prelude::*;

use crate::ieee;
use crate::jev::Importance;
use crate::json;
use crate::json::JsonView;
use crate::search;
use crate::search::{DecisionView, GroupView, Mode, Relevance};
use crate::text;
use crate::tui;
use crate::tui::list;
use crate::tui::list::RowView;
use crate::tui::{BrowserView, Color, EditorView, Effect, Input, Key, Rect};

verus! {

/// Whether the event of a row was judged to have an importance.
pub open spec fn judged(row: RowView, v: Importance) -> bool {
    !row.pending && row.event.judgment.importance == v
}

/// Every event is under its tab: the important ones under the first, the routine ones under the
/// second, those that were judged and are neither under the third, and all of them under every
/// other. A list of the events of a tab keeps their order and leaves out no other than those of
/// other tabs.
pub proof fn every_event_is_under_its_tab(
    a: Seq<RowView>,
    b: Seq<RowView>,
    row: RowView,
    tab: int,
)
    ensures
        list::filtered(a + b, tab) == list::filtered(a, tab) + list::filtered(b, tab),
        list::filtered(seq![row], 0) == if judged(row, Importance::Important) {
            seq![row]
        } else {
            seq![]
        },
        list::filtered(seq![row], 1) == if judged(row, Importance::Routine) {
            seq![row]
        } else {
            seq![]
        },
        list::filtered(seq![row], 2) == if judged(row, Importance::Uncertain) || judged(
            row,
            Importance::Unknown,
        ) {
            seq![row]
        } else {
            seq![]
        },
        tab < 0 || tab > 2 ==> list::filtered(seq![row], tab) == seq![row],
        list::filtered(seq![], tab) == Seq::<RowView>::empty(),
    decreases b.len(),
{
    let none = Seq::<RowView>::empty();
    let one = seq![row];
    assert(one.drop_last() =~= none);
    assert(one.last() == row);
    assert(forall|t: int| #[trigger] list::filtered(none, t) == none);
    assert(none.push(row) =~= one);
    assert(list::filtered(one.drop_last(), 0) == none && list::filtered(one.drop_last(), 1) == none
        && list::filtered(one.drop_last(), 2) == none && list::filtered(one.drop_last(), tab)
        == none);
    if b.len() == 0 {
        assert(a + b =~= a);
        assert(b =~= none);
        assert(list::filtered(a, tab) + none =~= list::filtered(a, tab));
    } else {
        let less = b.drop_last();
        every_event_is_under_its_tab(a, less, row, tab);
        assert((a + b).drop_last() =~= a + less);
        assert((a + b).last() == b.last());
        let (x, y) = (list::filtered(a, tab), list::filtered(less, tab));
        assert(x + y.push(b.last()) =~= (x + y).push(b.last()));
    }
}

/// How many of a list have a property.
pub open spec fn number<A>(s: Seq<A>, p: spec_fn(A) -> bool) -> nat
    decreases s.len(),
{
    if s.len() == 0 {
        0
    } else {
        number(s.drop_last(), p) + if p(s.last()) {
            1nat
        } else {
            0nat
        }
    }
}

/// Whether something was decided of a group, and not that it is unrelated.
pub open spec fn is_shown(slot: Option<DecisionView>) -> bool {
    slot is Some && slot->Some_0.relevance != Relevance::Unrelated
}

/// The rows that wait are counted, and so are the groups that a search shows.
pub proof fn lists_are_counted(rows: Seq<RowView>, slots: Seq<Option<DecisionView>>)
    ensures
        list::waiting(rows) == number(rows, |r: RowView| r.pending),
        list::hits(slots) == number(slots, |d: Option<DecisionView>| is_shown(d)),
    decreases rows.len(), slots.len(),
{
    if rows.len() > 0 {
        lists_are_counted(rows.drop_last(), slots);
    } else if slots.len() > 0 {
        lists_are_counted(rows, slots.drop_last());
    }
}

/// Whether a row shows an event of a group with what was decided of the group.
pub open spec fn row_of(
    row: RowView,
    groups: Seq<GroupView>,
    slots: Seq<Option<DecisionView>>,
    figures: Seq<Seq<char>>,
    g: int,
    k: int,
) -> bool {
    &&& 0 <= g < groups.len() && 0 <= k < groups[g].events.len()
    &&& row.event == groups[g].events[k]
    &&& row.group == Some(g as usize)
    &&& slots[g] == row.decision
    &&& row.count == groups[g].events.len() as usize
    &&& row.figure == figures[g]
    &&& !row.pending
}

/// What a search shows: of every group that was decided on and is not unrelated the first event, or
/// where one group alone is looked at all of its events; and nothing of any other group. Groups stand
/// in their order.
pub proof fn searches_show_what_they_found(
    groups: Seq<GroupView>,
    slots: Seq<Option<DecisionView>>,
    figures: Seq<Seq<char>>,
    instances: Option<usize>,
    n: nat,
    g: int,
    k: int,
)
    requires
        search::inhabited(groups),
        slots.len() == groups.len(),
        figures.len() == groups.len(),
        n <= groups.len(),
        groups.len() <= usize::MAX,
        0 <= g < n,
        0 <= k < groups[g].events.len(),
    ensures
        ({
            let rows = list::found_rows(groups, slots, figures, instances, n);
            let wanted = is_shown(slots[g]) && match instances {
                Some(one) => one == g,
                None => k == 0,
            };
            &&& wanted ==> exists|i: int|
                0 <= i < rows.len() && row_of(#[trigger] rows[i], groups, slots, figures, g, k)
            &&& forall|i: int|
                0 <= i < rows.len() ==> shown_of(
                    #[trigger] rows[i],
                    groups,
                    slots,
                    figures,
                    instances,
                    n,
                )
        }),
    decreases n,
{
    let rows = list::found_rows(groups, slots, figures, instances, n);
    let m = n - 1;
    let before = list::found_rows(groups, slots, figures, instances, m as nat);
    let more = list::group_rows(m, groups[m], slots[m], figures[m], instances);
    assert(rows == before + more);
    assert(groups[m].events.len() > 0);
    let wanted = is_shown(slots[g]) && match instances {
        Some(one) => one == g,
        None => k == 0,
    };
    if g < m {
        searches_show_what_they_found(groups, slots, figures, instances, m as nat, g, k);
        if wanted {
            let i = choose|i: int|
                0 <= i < before.len() && row_of(
                    #[trigger] before[i],
                    groups,
                    slots,
                    figures,
                    g,
                    k,
                );
            assert(rows[i] == before[i]);
        }
    } else {
        if m > 0 {
            assert(groups[0].events.len() > 0);
            searches_show_what_they_found(groups, slots, figures, instances, m as nat, 0, 0);
        } else {
            assert(before.len() == 0);
        }
        if wanted {
            assert(m as usize == m);
            assert(more[k] == rows[before.len() + k]);
            assert(row_of(rows[before.len() + k], groups, slots, figures, g, k));
        }
    }
    assert forall|i: int| 0 <= i < rows.len() implies shown_of(
        #[trigger] rows[i],
        groups,
        slots,
        figures,
        instances,
        n,
    ) by {
        if i < before.len() {
            assert(rows[i] == before[i]);
            assert(shown_of(before[i], groups, slots, figures, instances, m as nat));
            let (a, b) = choose|a: int, b: int| #[trigger]
                row_of(before[i], groups, slots, figures, a, b) && a < m && is_shown(slots[a]) && (
                match instances {
                    Some(one) => one == a,
                    None => b == 0,
                });
            assert(row_of(rows[i], groups, slots, figures, a, b));
        } else {
            let b = i - before.len();
            assert(rows[i] == more[b]);
            assert(m as usize == m);
            assert(row_of(rows[i], groups, slots, figures, m, b));
        }
    }
}

/// Whether a row shows an event that a search is to show.
pub open spec fn shown_of(
    row: RowView,
    groups: Seq<GroupView>,
    slots: Seq<Option<DecisionView>>,
    figures: Seq<Seq<char>>,
    instances: Option<usize>,
    n: nat,
) -> bool {
    exists|g: int, k: int| #[trigger]
        row_of(row, groups, slots, figures, g, k) && g < n && is_shown(slots[g]) && (
        match instances {
            Some(one) => one == g,
            None => k == 0,
        })
}

/// Whether the group of a row was decided to have a relevance.
pub open spec fn found(row: RowView, r: Relevance) -> bool {
    row.decision matches Some(d) && d.relevance == r
}

/// The best comes first: what matches stands before what may, and that before all else. Of one
/// relevance what is surer comes first, then what occurred more often, then by name.
pub proof fn the_best_comes_first(rows: Seq<RowView>, i: int, j: int)
    requires
        0 <= i < j < rows.len(),
    ensures
        ({
            let all = list::ordered(rows);
            let (a, b) = (all[i], all[j]);
            &&& all.len() == rows.len()
            &&& found(b, Relevance::Match) ==> found(a, Relevance::Match)
            &&& found(b, Relevance::Possible) ==> found(a, Relevance::Match) || found(
                a,
                Relevance::Possible,
            )
            &&& found(a, Relevance::Match) && found(b, Relevance::Match) || found(
                a,
                Relevance::Possible,
            ) && found(b, Relevance::Possible) ==> {
                let (x, y) = (sureness(a), sureness(b));
                &&& x >= y
                &&& x == y ==> a.count >= b.count
                &&& x == y && a.count == b.count ==> !text::before(b.event.id, a.event.id)
            }
        }),
{
    list::ordering_keeps_rows(rows);
    let all = list::ordered(rows);
    assert(!list::precedes(all[j], all[i]));
}

/// How sure the decision on the group of a row is, as a place in the order of all real numbers.
pub open spec fn sureness(row: RowView) -> int {
    match row.decision {
        Some(d) => match d.confidence {
            Some(c) => ieee::total_key(c.bits),
            None => 0,
        },
        None => 0,
    }
}

/// Whether a text stands under a name of a source.
pub open spec fn stands(source: Seq<(Seq<char>, JsonView)>, key: Seq<char>, t: Seq<char>) -> bool {
    json::holds(source, key, JsonView::Text(t))
}

/// Where an event comes from: its path where it has one, and otherwise its namespace, its pod and its
/// container, with a stroke between them.
pub proof fn origins_are_shown(
    source: Seq<(Seq<char>, JsonView)>,
    path: Seq<char>,
    namespace: Seq<char>,
    pod: Seq<char>,
    container: Seq<char>,
)
    ensures
        stands(source, "path"@, path) ==> list::origin(source) == path,
        stands(source, "namespace"@, namespace) && stands(source, "pod"@, pod) && stands(
            source,
            "container"@,
            container,
        ) && (forall|k: int| 0 <= k < source.len() ==> (#[trigger] source[k]).0 != "path"@)
            ==> list::origin(source) == namespace + "/"@ + pod + "/"@ + container,
{
    json::lookups_find_what_is_held(source, "path"@);
    json::lookups_find_what_is_held(source, "namespace"@);
    json::lookups_find_what_is_held(source, "pod"@);
    json::lookups_find_what_is_held(source, "container"@);
    if stands(source, "path"@, path) {
        assert(json::lookup(source, "path"@) == Some(JsonView::Text(path)));
    }
    if stands(source, "namespace"@, namespace) && stands(source, "pod"@, pod) && stands(
        source,
        "container"@,
        container,
    ) && (forall|k: int| 0 <= k < source.len() ==> (#[trigger] source[k]).0 != "path"@) {
        assert(json::lookup(source, "namespace"@) == Some(JsonView::Text(namespace)));
        assert(json::lookup(source, "pod"@) == Some(JsonView::Text(pod)));
        assert(json::lookup(source, "container"@) == Some(JsonView::Text(container)));
        let k3 = seq!["namespace"@, "pod"@, "container"@];
        let k2 = k3.drop_last();
        let k1 = k2.drop_last();
        assert(k3.last() == "container"@ && k2.last() == "pod"@ && k1.last() == "namespace"@);
        assert(k1.drop_last().len() == 0);
        assert(list::named_texts(source, k1.drop_last()).len() == 0);
        let t3 = list::named_texts(source, k3);
        assert(list::named_texts(source, k1) =~= seq![namespace]);
        assert(list::named_texts(source, k2) =~= seq![namespace, pod]);
        assert(t3 =~= seq![namespace, pod, container]);
        assert(t3.drop_last() =~= seq![namespace, pod]);
        assert(t3.drop_last().drop_last() =~= seq![namespace]);
        assert(text::joined(t3.drop_last().drop_last(), "/"@) == namespace);
        assert(text::joined(t3.drop_last(), "/"@) == namespace + "/"@ + pod);
    }
}

/// What is typed stands at the cursor, and the keys of an editor undo each other: what was typed is
/// taken back, and a step to one side is undone by one to the other.
pub proof fn typing_can_be_taken_back(e: EditorView, c: char)
    requires
        e.cursor <= e.text.len(),
        e.text.len() < 500,
        !text::control(c),
    ensures
        ({
            let t = BrowserView::typed(e, Key::Char(c), false, false);
            let left = BrowserView::typed(t, Key::Left, false, false);
            &&& t.text.len() == e.text.len() + 1 && t.text[e.cursor as int] == c && t.cursor
                == e.cursor + 1
            &&& t.text.subrange(0, e.cursor as int) == e.text.subrange(0, e.cursor as int)
            &&& BrowserView::typed(t, Key::Backspace, false, false) == e
            &&& left.cursor == e.cursor && left.text == t.text
            &&& BrowserView::typed(left, Key::Delete, false, false) == e
            &&& BrowserView::typed(left, Key::Right, false, false) == t
            &&& BrowserView::typed(t, Key::Home, false, false) == (EditorView { cursor: 0, ..t })
            &&& BrowserView::typed(e, Key::End, false, false).cursor == e.text.len()
            &&& BrowserView::typed(e, Key::End, false, false).text == e.text
            &&& BrowserView::typed(t, Key::Char('u'), true, false).text.len() == 0
            &&& BrowserView::typed(e, Key::Tab, false, false).mode != e.mode
            &&& BrowserView::typed(
                BrowserView::typed(e, Key::Tab, false, false),
                Key::Tab,
                false,
                false,
            ) == e
        }),
{
    let n = e.cursor as int;
    let t = e.text.insert(n, c);
    assert(t.remove(n) =~= e.text);
    assert(t.subrange(0, n) =~= e.text.subrange(0, n));
}

/// A query takes no more than 500 characters, no control character, and nothing that is typed with
/// a control key; at its ends there is nothing to take away and nowhere to go.
pub proof fn queries_stay_in_bounds(e: EditorView, c: char, control: bool, alt: bool)
    requires
        e.cursor <= e.text.len(),
        e.text.len() <= 500,
    ensures
        e.text.len() == 500 && !(c == 'u' && control) ==> BrowserView::typed(
            e,
            Key::Char(c),
            control,
            alt,
        ) == e,
        text::control(c) ==> BrowserView::typed(e, Key::Char(c), false, alt) == e,
        (control || alt) && !(c == 'u' && control) ==> BrowserView::typed(
            e,
            Key::Char(c),
            control,
            alt,
        ) == e,
        e.cursor == 0 ==> BrowserView::typed(e, Key::Backspace, control, alt) == e
            && BrowserView::typed(e, Key::Left, control, alt) == e,
        e.cursor == e.text.len() ==> BrowserView::typed(e, Key::Delete, control, alt) == e
            && BrowserView::typed(e, Key::Right, control, alt) == e,
{
}

/// Moving selects: a step down and a step up lead back, no step leads out of the list, and what is
/// selected is remembered by its name. While a detail is open it is that which moves.
pub proof fn steps_lead_back(b: BrowserView, n: int)
    requires
        b.wf(),
        b.rows.len() <= usize::MAX,
        n >= 0,
    ensures
        ({
            let t = b.tab as int;
            let down = b.moved(n);
            let place = b.selected[t] + n;
            &&& b.detail is None && place < b.rows.len() ==> {
                &&& down.selected[t] == place
                &&& down.anchors[t] == Some(b.rows[place].event.id)
                &&& down.moved(-n).selected[t] == b.selected[t]
            }
            &&& b.detail is None && 0 < b.rows.len() <= place ==> down.selected[t] == b.rows.len()
                - 1
            &&& b.detail is None && b.selected[t] < n ==> b.moved(-n).selected[t] == 0
            &&& b.detail is None ==> down.detail_offset == b.detail_offset
            &&& b.detail is Some ==> down.selected == b.selected && down.anchors == b.anchors
                && down.detail_offset == if b.detail_offset + n > b.detail_max {
                b.detail_max as int
            } else {
                b.detail_offset + n
            }
            &&& down.rows == b.rows && down.tab == b.tab
            &&& forall|i: int|
                0 <= i < 5 && i != t ==> #[trigger] down.selected[i] == b.selected[i]
        }),
{
}

/// The tabs go round: one to the right and one to the left lead back, five to the right lead back
/// too, and a digit leads to its own tab.
pub proof fn tabs_go_round(b: BrowserView, tab: usize)
    requires
        b.wf(),
        b.editor is None,
        b.search is Some,
        tab < 5,
    ensures
        ({
            let right = b.pressed(Key::Tab).0;
            let left = b.pressed(Key::BackTab).0;
            &&& right.tab == if b.tab == 4 {
                0
            } else {
                b.tab + 1
            }
            &&& left.tab == if b.tab == 0 {
                4
            } else {
                b.tab - 1
            }
            &&& right.pressed(Key::BackTab).0.tab == b.tab
            &&& left.pressed(Key::Tab).0.tab == b.tab
            &&& b.pressed(Key::Right) == b.pressed(Key::Tab)
            &&& b.pressed(Key::Left) == b.pressed(Key::BackTab)
            &&& b.pressed(Key::Char((tab as int + '1' as int) as char)).0.tab == tab
            &&& right.detail is None && right.rows == b.rows && right.selected == b.selected
        }),
{
    let c = (tab as int + '1' as int) as char;
    assert(c as int == tab + '1' as int);
}

/// A query is searched for where it can be, and in a service only where there is one: then the search
/// begins on the events that are there, with nothing decided. Otherwise it is said why not, and the
/// query stays.
pub proof fn queries_are_submitted(b: BrowserView, e: EditorView)
    ensures
        ({
            let q = text::trimmed(e.text);
            let (after, effect) = b.submitted(e);
            let possible = search::searchable(q) && (e.mode == Mode::Literal || b.client is Some);
            &&& possible <==> effect == Effect::Search
            &&& !possible ==> effect == Effect::Nothing && after.editor == b.editor && after.search
                == b.search && after.message.len() > 0
            &&& possible ==> {
                &&& after.editor is None && after.search_instances is None
                &&& after.search matches Some(s) && s.running && s.state.query
                    == crate::events::redacted(q) && s.state.mode == e.mode && s.state.checked == 0
                    && s.state.failed == 0 && s.state.cache_hits == 0 && s.groups
                    == search::window_groups(list::row_events(b.events)) && s.state.decisions.len()
                    == s.groups.len()
            }
            &&& after.tab == b.tab && after.rows == b.rows && after.events == b.events
        }),
{
    reveal_strlit("Enter a question or exact text between 1 and 500 characters");
    reveal_strlit("Jev search is unavailable in offline mode; Tab selects exact text");
}

/// A row is entered and left again: its detail is the selected row from its start, and behind it
/// everything is as before.
pub proof fn details_open_and_close(b: BrowserView)
    requires
        b.wf(),
        b.detail is None,
        b.selected[b.tab as int] < b.rows.len(),
    ensures
        ({
            let (open, goes_on, effect) = b.pressed(Key::Enter);
            let shut = open.pressed(Key::Esc).0;
            &&& goes_on && effect == Effect::Nothing
            &&& open.detail == Some(b.rows[b.selected[b.tab as int] as int])
            &&& open.detail_offset == 0
            &&& shut.detail is None && shut.tab == b.tab && shut.selected == b.selected
                && shut.rows == b.rows && shut.search == b.search && shut.search_instances
                == b.search_instances
        }),
{
}

/// Leaving the results of a search leads back step by step: from one group to all of them, and from
/// there to the tab that was open before.
pub proof fn searches_are_left_step_by_step(b: BrowserView)
    requires
        b.wf(),
        b.detail is None,
        b.tab == 4,
        b.search is Some,
    ensures
        b.search_instances is Some ==> b.back().tab == 4 && b.back().search_instances is None
            && b.back().selected[4] == 0,
        b.search_instances is None ==> b.back().tab == b.return_tab,
        b.back().search == b.search,
        b.back().back().tab == b.return_tab,
{
}

/// Where a query is asked for, it is the last one that is written, with the cursor at its end; the
/// tab that is left is the one to return to; and while a search runs none is asked for.
pub proof fn queries_are_asked_for(b: BrowserView, mode: Mode)
    requires
        b.wf(),
    ensures
        ({
            let a = b.asked(mode);
            let runs = b.search is Some && b.search->Some_0.running;
            &&& a.tab == 4 && a.detail is None
            &&& a.return_tab == if b.tab == 4 {
                b.return_tab
            } else {
                b.tab
            }
            &&& a.search == b.search
            &&& runs ==> a.editor == b.editor && a.message.len() > 0
            &&& !runs ==> (a.editor matches Some(e) && e.mode == mode && e.text
                == match b.search {
                Some(s) => s.state.query,
                None => Seq::<char>::empty(),
            } && e.cursor == e.text.len() as usize)
        }),
{
    reveal_strlit("Search is running; press x to stop it before asking again");
}

/// What each input does: an interrupt and the key to leave end the browser, and nothing else does; a
/// key that is let go does nothing; the wheel moves by three; and while a query is written all keys
/// go to it.
pub proof fn inputs_do_what_they_say(b: BrowserView, input: Input)
    requires
        b.wf(),
    ensures
        ({
            let (after, goes_on, effect) = b.handled(input);
            let leaves = match input {
                Input::Key { key, control, alt, released } => !released && (key == Key::Char('c')
                    && control || b.editor is None && (key == Key::Char('q') || key == Key::Char(
                    'Q',
                ))),
                _ => false,
            };
            &&& !goes_on <==> leaves
            &&& input matches Input::Key { key, control, alt, released } ==> (released ==> after
                == b)
            &&& input is ScrollUp && b.editor is None ==> after == b.moved(-3)
            &&& input is ScrollDown && b.editor is None ==> after == b.moved(3)
            &&& (input is ScrollUp || input is ScrollDown) && b.editor is Some ==> after == b
            &&& effect == Effect::Stop ==> b.tab == 4 && b.search is Some && b.editor is None
            &&& input is Other ==> after == b
        }),
{
}

/// A cell lies in a part of the screen where it is neither left of it nor above it, and neither
/// beyond its width nor beyond its height.
pub open spec fn inside(r: Rect, x: u16, y: u16) -> bool {
    0 <= x - r.x < r.width && 0 <= y - r.y < r.height
}

/// A click goes to the first part that it lies in, and to none where it lies in none.
pub proof fn clicks_go_where_they_lie(parts: Seq<(usize, Rect)>, x: u16, y: u16)
    ensures
        ({
            let n = tui::hit(parts, x, y) as int;
            &&& n <= parts.len()
            &&& n < parts.len() ==> inside(parts[n].1, x, y)
            &&& forall|i: int| 0 <= i < n ==> !inside((#[trigger] parts[i]).1, x, y)
        }),
    decreases parts.len(),
{
    if parts.len() > 0 && !parts[0].1.has(x, y) {
        let r = parts.drop_first();
        clicks_go_where_they_lie(r, x, y);
        let n = tui::hit(parts, x, y) as int;
        assert forall|i: int| 0 <= i < n implies !inside((#[trigger] parts[i]).1, x, y) by {
            if i > 0 {
                assert(r[i - 1] == parts[i]);
            }
        }
    }
}

/// A click on a tab opens it; one on a row selects the row, unless a detail or a query is open; and
/// any other does nothing.
pub proof fn clicks_open_and_select(b: BrowserView, x: u16, y: u16)
    requires
        b.wf(),
    ensures
        ({
            let a = b.clicked(x, y);
            let t = tui::hit(b.tabs, x, y) as int;
            let r = tui::hit(b.row_hits, x, y) as int;
            let tab = b.tab as int;
            &&& t < b.tabs.len() ==> a.tab == b.tabs[t].0
            &&& t >= b.tabs.len() ==> a.tab == b.tab
            &&& t >= b.tabs.len() && r < b.row_hits.len() && b.detail is None && b.editor is None
                ==> a.selected[tab] == b.row_hits[r].0 && a.anchors[tab] == Some(
                b.rows[b.row_hits[r].0 as int].event.id,
            )
            &&& t >= b.tabs.len() && (r >= b.row_hits.len() || b.detail is Some || b.editor is Some)
                ==> a == b
        }),
{
    clicks_go_where_they_lie(b.tabs, x, y);
    clicks_go_where_they_lie(b.row_hits, x, y);
}

/// The budget of a search goes round three sizes, and each follows on another.
pub proof fn budgets_go_round(n: usize)
    requires
        n == 4 || n == 16 || n == 64,
    ensures
        ({
            let next = BrowserView::next_budget(n);
            &&& next == if n < 64 {
                4 * n
            } else {
                4
            }
            &&& BrowserView::next_budget(
                BrowserView::next_budget(next),
            ) == n
        }),
{
}

/// What is shown of a row: an event that waits is said to, one that was judged shows its judgment and
/// how sure it is, and one that a search found shows how relevant it is and how often it occurred.
pub proof fn rows_say_what_is_known(row: RowView)
    ensures
        ({
            let t = list::labelled(row);
            let j = row.event.judgment;
            let word = crate::writing::importance_shown(j.importance)->Text_0;
            let times = " | "@ + text::decimal(row.count as nat) + " instances"@;
            &&& row.decision is None && row.pending ==> t == "pending"@
            &&& row.decision is None && !row.pending ==> t == word + (
            if j.importance_confidence is Some {
                " | "@ + row.figure + "% confidence"@
            } else {
                ""@
            })
            &&& row.decision matches Some(d) ==> t == (if d.relevance == Relevance::Match {
                "MATCH"@
            } else if d.relevance == Relevance::Possible {
                "POSSIBLE"@
            } else {
                "NOT EVALUATED"@
            }) + (if d.confidence is Some {
                " | "@ + row.figure + "% relevance"@
            } else if d.relevance == Relevance::Match {
                " | local exact"@
            } else {
                ""@
            }) + times
        }),
        row.pending ==> list::tint(row) == Color::Gray,
        judged(row, Importance::Important) ==> list::tint(row) == Color::LightRed,
        judged(row, Importance::Routine) ==> list::tint(row) == Color::Green,
        judged(row, Importance::Uncertain) || judged(row, Importance::Unknown) ==> list::tint(row)
            == Color::Yellow,
{
    if row.decision is Some {
        let d = row.decision->Some_0;
        let a = list::relevance_shown(d.relevance) + list::certainty_shown(d, row.figure);
        let n = text::decimal(row.count as nat);
        assert(a + " | "@ + n + " instances"@ =~= a + (" | "@ + n + " instances"@));
    }
}

/// The list of all events has those that were judged first and those that wait behind them, each with
/// its own figure.
pub proof fn all_events_are_listed(
    done: Seq<crate::events::EventView>,
    open: Seq<crate::events::EventView>,
    figures: Seq<Seq<char>>,
    i: int,
)
    requires
        0 <= i < done.len() + open.len(),
    ensures
        ({
            let rows = list::event_rows(done, open, figures);
            &&& rows.len() == done.len() + open.len()
            &&& rows[i].event == (done + open)[i]
            &&& rows[i].pending <==> i >= done.len()
            &&& rows[i].figure == figures[i]
            &&& rows[i].group is None && rows[i].decision is None && rows[i].count == 1
        }),
{
}

}
