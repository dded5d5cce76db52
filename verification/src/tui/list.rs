//! The rows of a list of events, and what is shown of each.
use std::sync::Arc;

use vstd::prelude::*;

use crate::events::{Event, EventView};
use crate::ieee;
use crate::ieee::RealView;
use crate::jev;
use crate::jev::Importance;
use crate::json;
use crate::json::JsonView;
use crate::order;
use crate::order::Ranked;
use crate::progress;
use crate::search;
use crate::search::{Decision, DecisionView, Group, GroupView, Relevance, Window};
use crate::text;
use crate::tui::Color;

verus! {

/// An event in a list.
pub struct Row {
    pub event: Arc<Event>,
    /// Whether the event still waits to be judged.
    pub pending: bool,
    /// The group of a search that the event belongs to.
    pub group: Option<usize>,
    /// What the search decided of the group.
    pub decision: Option<Decision>,
    /// How many events the group has.
    pub count: usize,
    /// The confidence that is shown, as a whole number of percent.
    pub figure: String,
}

#[verifier::ext_equal]
pub struct RowView {
    pub event: EventView,
    pub pending: bool,
    pub group: Option<usize>,
    pub decision: Option<DecisionView>,
    pub count: usize,
    pub figure: Seq<char>,
}

pub open spec fn decision_view(d: Option<Decision>) -> Option<DecisionView> {
    match d {
        Some(d) => Some(d@),
        None => None,
    }
}

impl Row {
    pub open spec fn view(&self) -> RowView {
        RowView {
            event: self.event@,
            pending: self.pending,
            group: self.group,
            decision: decision_view(self.decision),
            count: self.count,
            figure: self.figure@,
        }
    }
}

impl Clone for Row {
    fn clone(&self) -> (r: Self)
        ensures
            r@ == self@,
    {
        Row {
            event: Arc::clone(&self.event),
            pending: self.pending,
            group: self.group,
            decision: match &self.decision {
                Some(d) => Some(d.clone()),
                None => None,
            },
            count: self.count,
            figure: self.figure.clone(),
        }
    }
}

/// The views of rows.
pub open spec fn rows_view(v: Seq<Row>) -> Seq<RowView> {
    Seq::new(v.len(), |i: int| v[i]@)
}

/// The row of an event in the list of all.
pub open spec fn event_row(e: EventView, pending: bool, figure: Seq<char>) -> RowView {
    RowView { event: e, pending, group: None, decision: None, count: 1, figure }
}

/// The rows of events that were judged, and of those that still wait.
pub open spec fn event_rows(
    judged: Seq<EventView>,
    waiting: Seq<EventView>,
    figures: Seq<Seq<char>>,
) -> Seq<RowView> {
    Seq::new(
        judged.len() + waiting.len(),
        |i: int|
            if i < judged.len() {
                event_row(judged[i], false, figures[i])
            } else {
                event_row(waiting[i - judged.len()], true, figures[i])
            },
    )
}

/// The events of rows.
pub open spec fn row_events(rows: Seq<RowView>) -> Seq<EventView> {
    Seq::new(rows.len(), |i: int| rows[i].event)
}

pub fn share_events(rows: &Vec<Row>) -> (out: Vec<Arc<Event>>)
    ensures
        progress::shared_view(out@) == row_events(rows_view(rows@)),
{
    let mut out: Vec<Arc<Event>> = Vec::new();
    let mut i: usize = 0;
    while i < rows.len()
        invariant
            i <= rows@.len(),
            out@.len() == i,
            forall|k: int| 0 <= k < i ==> (#[trigger] out@[k])@ == rows@[k]@.event,
        decreases rows@.len() - i,
    {
        out.push(Arc::clone(&rows[i].event));
        i += 1;
    }
    assert(progress::shared_view(out@) =~= row_events(rows_view(rows@)));
    out
}

/// Whether a row belongs to a tab: an event that waits to be judged is under none of the three
/// judgments.
pub open spec fn belongs(row: RowView, tab: int) -> bool {
    if tab == 0 {
        !row.pending && row.event.judgment.importance == Importance::Important
    } else if tab == 1 {
        !row.pending && row.event.judgment.importance == Importance::Routine
    } else if tab == 2 {
        !row.pending && (row.event.judgment.importance == Importance::Uncertain
            || row.event.judgment.importance == Importance::Unknown)
    } else {
        true
    }
}

pub fn matches_tab(row: &Row, tab: usize) -> (r: bool)
    ensures
        r == belongs(row@, tab as int),
{
    let importance = row.event.judgment.importance;
    if tab == 0 {
        !row.pending && importance == Importance::Important
    } else if tab == 1 {
        !row.pending && importance == Importance::Routine
    } else if tab == 2 {
        !row.pending && (importance == Importance::Uncertain || importance == Importance::Unknown)
    } else {
        true
    }
}

/// The rows that belong to a tab, in their order.
pub open spec fn filtered(rows: Seq<RowView>, tab: int) -> Seq<RowView>
    decreases rows.len(),
{
    if rows.len() == 0 {
        seq![]
    } else if belongs(rows.last(), tab) {
        filtered(rows.drop_last(), tab).push(rows.last())
    } else {
        filtered(rows.drop_last(), tab)
    }
}

/// Picks the rows that belong to a tab.
pub fn filter(rows: &Vec<Row>, tab: usize) -> (out: Vec<Row>)
    ensures
        rows_view(out@) == filtered(rows_view(rows@), tab as int),
{
    let ghost all = rows_view(rows@);
    let mut out: Vec<Row> = Vec::new();
    let mut i: usize = 0;
    assert(all.take(0) =~= seq![]);
    assert(rows_view(out@) =~= filtered(all.take(0), tab as int));
    while i < rows.len()
        invariant
            all == rows_view(rows@),
            i <= rows@.len(),
            rows_view(out@) == filtered(all.take(i as int), tab as int),
        decreases rows@.len() - i,
    {
        assert(all[i as int] == rows@[i as int]@);
        assert(all.take(i + 1).drop_last() =~= all.take(i as int));
        if matches_tab(&rows[i], tab) {
            let ghost before = rows_view(out@);
            out.push(rows[i].clone());
            assert(rows_view(out@) =~= before.push(all[i as int]));
        }
        i += 1;
    }
    assert(all.take(i as int) =~= all);
    out
}

/// Counts the rows that belong to a tab.
pub fn count(rows: &Vec<Row>, tab: usize) -> (n: usize)
    ensures
        n == filtered(rows_view(rows@), tab as int).len(),
{
    let ghost all = rows_view(rows@);
    let mut n: usize = 0;
    let mut i: usize = 0;
    assert(all.take(0) =~= seq![]);
    while i < rows.len()
        invariant
            all == rows_view(rows@),
            i <= rows@.len(),
            n == filtered(all.take(i as int), tab as int).len(),
            n <= i,
        decreases rows@.len() - i,
    {
        assert(all[i as int] == rows@[i as int]@);
        assert(all.take(i + 1).drop_last() =~= all.take(i as int));
        if matches_tab(&rows[i], tab) {
            n += 1;
        }
        i += 1;
    }
    assert(all.take(i as int) =~= all);
    n
}

/// How many rows still wait to be judged.
pub open spec fn waiting(rows: Seq<RowView>) -> nat
    decreases rows.len(),
{
    if rows.len() == 0 {
        0
    } else {
        waiting(rows.drop_last()) + if rows.last().pending {
            1nat
        } else {
            0
        }
    }
}

/// Counts the rows that still wait to be judged.
pub fn count_waiting(rows: &Vec<Row>) -> (n: usize)
    ensures
        n == waiting(rows_view(rows@)),
        n <= rows@.len(),
{
    let ghost all = rows_view(rows@);
    let mut n: usize = 0;
    let mut i: usize = 0;
    assert(all.take(0) =~= seq![]);
    while i < rows.len()
        invariant
            all == rows_view(rows@),
            i <= rows@.len(),
            n == waiting(all.take(i as int)),
            n <= i,
        decreases rows@.len() - i,
    {
        assert(all[i as int] == rows@[i as int]@);
        assert(all.take(i + 1).drop_last() =~= all.take(i as int));
        if rows[i].pending {
            n += 1;
        }
        i += 1;
    }
    assert(all.take(i as int) =~= all);
    n
}

/// The row of an event that a search found.
pub open spec fn found_row(
    e: EventView,
    group: usize,
    d: DecisionView,
    count: usize,
    figure: Seq<char>,
) -> RowView {
    RowView { event: e, pending: false, group: Some(group), decision: Some(d), count, figure }
}

/// The rows of a group: all of its events where it alone is looked at, else the first. A group that
/// was not decided on, or is unrelated, has none.
pub open spec fn group_rows(
    i: int,
    g: GroupView,
    slot: Option<DecisionView>,
    figure: Seq<char>,
    instances: Option<usize>,
) -> Seq<RowView> {
    if instances is Some && instances != Some(i as usize) {
        seq![]
    } else {
        match slot {
            None => seq![],
            Some(d) => if d.relevance == Relevance::Unrelated {
                seq![]
            } else {
                Seq::new(
                    if instances is Some {
                        g.events.len()
                    } else {
                        1
                    },
                    |k: int|
                        found_row(g.events[k], i as usize, d, g.events.len() as usize, figure),
                )
            },
        }
    }
}

/// The rows of the first groups of a search, in the order of the groups.
pub open spec fn found_rows(
    groups: Seq<GroupView>,
    slots: Seq<Option<DecisionView>>,
    figures: Seq<Seq<char>>,
    instances: Option<usize>,
    n: nat,
) -> Seq<RowView>
    decreases n,
{
    if n == 0 {
        seq![]
    } else {
        found_rows(groups, slots, figures, instances, (n - 1) as nat) + group_rows(
            n - 1,
            groups[n - 1],
            slots[n - 1],
            figures[n - 1],
            instances,
        )
    }
}

fn add_group_rows(
    rows: &mut Vec<Row>,
    i: usize,
    group: &Group,
    decision: &Decision,
    figure: &String,
    all: bool,
)
    requires
        group@.events.len() > 0,
    ensures
        rows_view(final(rows)@) == rows_view(old(rows)@) + Seq::new(
            if all {
                group@.events.len()
            } else {
                1
            },
            |k: int|
                found_row(
                    group@.events[k],
                    i,
                    decision@,
                    group@.events.len() as usize,
                    figure@,
                ),
        ),
{
    let ghost before = rows_view(rows@);
    let n = if all {
        group.events.len()
    } else {
        1
    };
    let mut k: usize = 0;
    assert(rows_view(rows@) =~= before + Seq::new(
        0,
        |k: int|
            found_row(group@.events[k], i, decision@, group@.events.len() as usize, figure@),
    ));
    while k < n
        invariant
            k <= n <= group.events@.len(),
            rows_view(rows@) == before + Seq::new(
                k as nat,
                |k: int|
                    found_row(
                        group@.events[k],
                        i,
                        decision@,
                        group@.events.len() as usize,
                        figure@,
                    ),
            ),
        decreases n - k,
    {
        let ghost mid = rows_view(rows@);
        let row = Row {
            event: Arc::clone(&group.events[k]),
            pending: false,
            group: Some(i),
            decision: Some(decision.clone()),
            count: group.events.len(),
            figure: figure.clone(),
        };
        let ghost new = row@;
        assert(new == found_row(
            group@.events[k as int],
            i,
            decision@,
            group@.events.len() as usize,
            figure@,
        ));
        rows.push(row);
        assert(rows_view(rows@) =~= mid.push(new));
        assert(rows_view(rows@) =~= before + Seq::new(
            (k + 1) as nat,
            |k: int|
                found_row(group@.events[k], i, decision@, group@.events.len() as usize, figure@),
        ));
        k += 1;
    }
}

/// The rows of a search, in the order of its groups.
pub fn results(
    window: &Window,
    decisions: &Vec<Option<Decision>>,
    figures: &Vec<String>,
    instances: Option<usize>,
) -> (rows: Vec<Row>)
    requires
        search::inhabited(search::groups_view(window.groups@)),
        decisions@.len() == window.groups@.len(),
        figures@.len() == window.groups@.len(),
    ensures
        rows_view(rows@) == found_rows(
            search::groups_view(window.groups@),
            search::slots_view(decisions@),
            text::list_view(figures@),
            instances,
            window.groups@.len(),
        ),
{
    let ghost groups = search::groups_view(window.groups@);
    let ghost slots = search::slots_view(decisions@);
    let ghost shown = text::list_view(figures@);
    let mut rows: Vec<Row> = Vec::new();
    let mut i: usize = 0;
    assert(rows_view(rows@) =~= seq![]);
    while i < window.groups.len()
        invariant
            groups == search::groups_view(window.groups@),
            slots == search::slots_view(decisions@),
            shown == text::list_view(figures@),
            search::inhabited(groups),
            decisions@.len() == window.groups@.len(),
            figures@.len() == window.groups@.len(),
            i <= window.groups@.len(),
            rows_view(rows@) == found_rows(groups, slots, shown, instances, i as nat),
        decreases window.groups@.len() - i,
    {
        assert(groups[i as int] == window.groups@[i as int]@);
        assert(shown[i as int] == figures@[i as int]@);
        let ghost before = rows_view(rows@);
        let here = match instances {
            Some(g) => g == i,
            None => true,
        };
        if here {
            if let Some(d) = &decisions[i] {
                assert(slots[i as int] == Some(d@));
                if d.relevance != Relevance::Unrelated {
                    add_group_rows(
                        &mut rows,
                        i,
                        &window.groups[i],
                        d,
                        &figures[i],
                        instances.is_some(),
                    );
                }
            }
        }
        assert(rows_view(rows@) =~= before + group_rows(
            i as int,
            groups[i as int],
            slots[i as int],
            shown[i as int],
            instances,
        ));
        i += 1;
    }
    rows
}

/// The place of a row's relevance in a list.
pub open spec fn row_rank(row: RowView) -> int {
    match row.decision {
        Some(d) => if d.relevance == Relevance::Match {
            0
        } else if d.relevance == Relevance::Possible {
            1
        } else {
            2
        },
        None => 2,
    }
}

/// The bit pattern of a row's confidence in its relevance; zero where there is none.
pub open spec fn row_bits(row: RowView) -> u64 {
    match row.decision {
        Some(d) => match d.confidence {
            Some(c) => c.bits,
            None => 0,
        },
        None => 0,
    }
}

/// Whether a row stands before another: by relevance, then by confidence, then by how many events
/// its group has, then by name.
pub open spec fn precedes(a: RowView, b: RowView) -> bool {
    if row_rank(a) != row_rank(b) {
        row_rank(a) < row_rank(b)
    } else if ieee::total_key(row_bits(a)) != ieee::total_key(row_bits(b)) {
        ieee::total_key(row_bits(a)) > ieee::total_key(row_bits(b))
    } else if a.count != b.count {
        a.count > b.count
    } else {
        text::before(a.event.id, b.event.id)
    }
}

fn rank(row: &Row) -> (r: u8)
    ensures
        r == row_rank(row@),
{
    match &row.decision {
        Some(d) => match d.relevance {
            Relevance::Match => 0,
            Relevance::Possible => 1,
            _ => 2,
        },
        None => 2,
    }
}

fn bits(row: &Row) -> (r: u64)
    ensures
        r == row_bits(row@),
{
    match &row.decision {
        Some(d) => match &d.confidence {
            Some(c) => c.bits,
            None => 0,
        },
        None => 0,
    }
}

/// Rows in their order; those between which it does not decide keep theirs.
pub open spec fn ordered(rows: Seq<RowView>) -> Seq<RowView> {
    order::ordered(rows, Row::first())
}

/// Whether no row stands behind one that it should precede.
pub open spec fn in_order(rows: Seq<RowView>) -> bool {
    forall|i: int, j: int|
        0 <= i < j < rows.len() ==> !precedes(#[trigger] rows[j], #[trigger] rows[i])
}

proof fn precedes_order(a: RowView, b: RowView, c: RowView)
    ensures
        precedes(a, b) ==> !precedes(b, a),
        precedes(a, b) && !precedes(c, b) ==> precedes(a, c),
{
    text::before_irreflexive(a.event.id);
    text::before_irreflexive(b.event.id);
    text::before_total(c.event.id, b.event.id);
    text::before_total(a.event.id, b.event.id);
    if text::before(a.event.id, b.event.id) && text::before(b.event.id, a.event.id) {
        text::before_transitive(a.event.id, b.event.id, a.event.id);
    }
    if text::before(a.event.id, b.event.id) && text::before(b.event.id, c.event.id) {
        text::before_transitive(a.event.id, b.event.id, c.event.id);
    }
}

impl Ranked for Row {
    type Model = RowView;

    open spec fn model(&self) -> RowView {
        self@
    }

    open spec fn first() -> spec_fn(RowView, RowView) -> bool {
        |a: RowView, b: RowView| precedes(a, b)
    }

    proof fn is_consistent() {
        let first = Row::first();
        assert forall|a: RowView, b: RowView| #[trigger] first(a, b) implies !first(b, a) by {
            precedes_order(a, b, a);
        }
        assert forall|a: RowView, b: RowView, c: RowView|
            #[trigger] first(a, b) && !(#[trigger] first(c, b)) implies first(a, c) by {
            precedes_order(a, b, c);
        }
    }

    fn comes_first(&self, other: &Self) -> (r: bool) {
        let (rank_a, rank_b) = (rank(self), rank(other));
        if rank_a != rank_b {
            return rank_a < rank_b;
        }
        let (bits_a, bits_b) = (bits(self), bits(other));
        if ieee::is_totally_less(bits_b, bits_a) {
            return true;
        }
        if ieee::is_totally_less(bits_a, bits_b) {
            return false;
        }
        if self.count != other.count {
            return self.count > other.count;
        }
        text::sorts_before(self.event.id.as_str(), other.event.id.as_str())
    }
}

/// Ordering a list loses no row and adds none, and what it gives is in order.
pub proof fn ordering_keeps_rows(rows: Seq<RowView>)
    ensures
        in_order(ordered(rows)),
        ordered(rows).to_multiset() == rows.to_multiset(),
        ordered(rows).len() == rows.len(),
{
    Row::is_consistent();
    order::ordering_keeps_all(rows, Row::first());
    let r = ordered(rows);
    assert forall|i: int, j: int| 0 <= i < j < r.len() implies !precedes(
        #[trigger] r[j],
        #[trigger] r[i],
    ) by {
        assert(!(Row::first())(r[j], r[i]));
    }
}

/// Brings rows into their order.
pub fn sort(rows: Vec<Row>) -> (out: Vec<Row>)
    ensures
        rows_view(out@) == ordered(rows_view(rows@)),
{
    assert(order::models(rows@) =~= rows_view(rows@));
    let out = order::sort(rows);
    assert(order::models(out@) =~= rows_view(out@));
    out
}

/// The place of the first row with a name, or the number of rows.
pub open spec fn row_named(rows: Seq<RowView>, id: Seq<char>) -> nat
    decreases rows.len(),
{
    if rows.len() == 0 || rows[0].event.id == id {
        0
    } else {
        1 + row_named(rows.drop_first(), id)
    }
}

pub proof fn row_named_found(rows: Seq<RowView>, id: Seq<char>)
    ensures
        row_named(rows, id) <= rows.len(),
        row_named(rows, id) < rows.len() ==> rows[row_named(rows, id) as int].event.id == id,
        forall|i: int| 0 <= i < row_named(rows, id) ==> (#[trigger] rows[i]).event.id != id,
    decreases rows.len(),
{
    if rows.len() > 0 && rows[0].event.id != id {
        row_named_found(rows.drop_first(), id);
        assert forall|i: int| 0 <= i < row_named(rows, id) implies (#[trigger] rows[i]).event.id
            != id by {
            if i > 0 {
                assert(rows[i] == rows.drop_first()[i - 1]);
            }
        }
    }
}

/// Finds the first row with a name.
pub fn find(rows: &Vec<Row>, id: &str) -> (n: usize)
    ensures
        n == row_named(rows_view(rows@), id@),
{
    let ghost all = rows_view(rows@);
    let mut i: usize = 0;
    assert(all.skip(0) =~= all);
    while i < rows.len() && !text::same(rows[i].event.id.as_str(), id)
        invariant
            all == rows_view(rows@),
            i <= rows@.len(),
            row_named(all, id@) == i + row_named(all.skip(i as int), id@),
        decreases rows@.len() - i,
    {
        assert(all.skip(i as int)[0] == rows@[i as int]@);
        assert(all.skip(i as int).drop_first() =~= all.skip(i + 1));
        i += 1;
    }
    if i < rows.len() {
        assert(all.skip(i as int)[0] == rows@[i as int]@);
    }
    i
}

/// Whether a decision is one that is shown.
pub open spec fn is_hit(slot: Option<DecisionView>) -> bool {
    match slot {
        Some(d) => d.relevance != Relevance::Unrelated,
        None => false,
    }
}

/// How many groups a search shows.
pub open spec fn hits(slots: Seq<Option<DecisionView>>) -> nat
    decreases slots.len(),
{
    if slots.len() == 0 {
        0
    } else {
        hits(slots.drop_last()) + if is_hit(slots.last()) {
            1nat
        } else {
            0
        }
    }
}

/// Counts the groups that a search shows.
pub fn count_hits(decisions: &Vec<Option<Decision>>) -> (n: usize)
    ensures
        n == hits(search::slots_view(decisions@)),
{
    let ghost all = search::slots_view(decisions@);
    let mut n: usize = 0;
    let mut i: usize = 0;
    assert(all.take(0) =~= seq![]);
    while i < decisions.len()
        invariant
            all == search::slots_view(decisions@),
            i <= decisions@.len(),
            n == hits(all.take(i as int)),
            n <= i,
        decreases decisions@.len() - i,
    {
        assert(all.take(i + 1).drop_last() =~= all.take(i as int));
        if let Some(d) = &decisions[i] {
            assert(all[i as int] == Some(d@));
            if d.relevance != Relevance::Unrelated {
                n += 1;
            }
        }
        i += 1;
    }
    assert(all.take(i as int) =~= all);
    n
}

/// The text that stands under a name of a source.
pub open spec fn named_text(source: Seq<(Seq<char>, JsonView)>, key: Seq<char>) -> Option<Seq<char>> {
    match json::lookup(source, key) {
        Some(JsonView::Text(s)) => Some(s),
        _ => None,
    }
}

/// The texts that stand under names of a source, in the order of the names.
pub open spec fn named_texts(
    source: Seq<(Seq<char>, JsonView)>,
    keys: Seq<Seq<char>>,
) -> Seq<Seq<char>>
    decreases keys.len(),
{
    if keys.len() == 0 {
        seq![]
    } else {
        let rest = named_texts(source, keys.drop_last());
        match named_text(source, keys.last()) {
            Some(t) => rest.push(t),
            None => rest,
        }
    }
}

/// Where an event comes from, as it is shown: its path, or else its namespace, pod and container.
pub open spec fn origin(source: Seq<(Seq<char>, JsonView)>) -> Seq<char> {
    match named_text(source, "path"@) {
        Some(path) => path,
        None => text::joined(
            named_texts(source, seq!["namespace"@, "pod"@, "container"@]),
            "/"@,
        ),
    }
}

fn text_under(event: &Event, key: &str) -> (r: Option<String>)
    ensures
        text::optional_view(r) == named_text(event@.source, key@),
{
    match event.source.get(key) {
        Some(v) => match v.as_text() {
            Some(s) => Some(s.clone()),
            None => None,
        },
        None => None,
    }
}

fn add_text(parts: &mut Vec<String>, event: &Event, key: &str)
    ensures
        text::list_view(final(parts)@) == (match named_text(event@.source, key@) {
            Some(t) => text::list_view(old(parts)@).push(t),
            None => text::list_view(old(parts)@),
        }),
{
    let ghost before = text::list_view(parts@);
    if let Some(t) = text_under(event, key) {
        parts.push(t);
        assert(text::list_view(parts@) =~= before.push(t@));
    }
}

/// Where an event comes from, as it is shown.
pub fn source(event: &Event) -> (r: String)
    ensures
        r@ == origin(event@.source),
{
    if let Some(path) = text_under(event, "path") {
        return path;
    }
    let mut parts: Vec<String> = Vec::new();
    let ghost s = event@.source;
    let ghost keys = seq!["namespace"@, "pod"@, "container"@];
    assert(text::list_view(parts@) =~= seq![]);
    assert(keys.take(0) =~= seq![]);
    add_text(&mut parts, event, "namespace");
    assert(keys.take(1).drop_last() =~= keys.take(0));
    assert(keys.take(1).last() == "namespace"@);
    assert(named_texts(s, keys.take(0)) =~= seq![]);
    assert(text::list_view(parts@) == named_texts(s, keys.take(1)));
    add_text(&mut parts, event, "pod");
    assert(keys.take(2).drop_last() =~= keys.take(1));
    assert(keys.take(2).last() == "pod"@);
    assert(text::list_view(parts@) == named_texts(s, keys.take(2)));
    add_text(&mut parts, event, "container");
    assert(keys.drop_last() =~= keys.take(2));
    text::join(&parts, "/")
}

/// How relevant a group is, as it is shown.
pub open spec fn relevance_shown(r: Relevance) -> Seq<char> {
    match r {
        Relevance::Match => "MATCH"@,
        Relevance::Possible => "POSSIBLE"@,
        _ => "NOT EVALUATED"@,
    }
}

/// How sure a search is, as it is shown. What matched by its text alone needs no confidence.
pub open spec fn certainty_shown(d: DecisionView, figure: Seq<char>) -> Seq<char> {
    match d.confidence {
        Some(_) => " | "@ + figure + "% relevance"@,
        None => if d.relevance == Relevance::Match {
            " | local exact"@
        } else {
            ""@
        },
    }
}

/// How sure a judgment is, as it is shown.
pub open spec fn confidence_shown(c: Option<RealView>, figure: Seq<char>) -> Seq<char> {
    match c {
        Some(_) => " | "@ + figure + "% confidence"@,
        None => ""@,
    }
}

/// What is shown of a row beside its time and its source.
pub open spec fn labelled(row: RowView) -> Seq<char> {
    match row.decision {
        Some(d) => relevance_shown(d.relevance) + certainty_shown(d, row.figure) + " | "@
            + text::decimal(row.count as nat) + " instances"@,
        None => if row.pending {
            "pending"@
        } else {
            jev::importance_name(row.event.judgment.importance) + confidence_shown(
                row.event.judgment.importance_confidence,
                row.figure,
            )
        },
    }
}

fn show_certainty(d: &Decision, figure: &String) -> (r: String)
    ensures
        r@ == certainty_shown(d@, figure@),
{
    match &d.confidence {
        Some(_) => {
            let mut r = " | ".to_owned();
            r.append(figure.as_str());
            r.append("% relevance");
            r
        },
        None => match d.relevance {
            Relevance::Match => " | local exact".to_owned(),
            _ => "".to_owned(),
        },
    }
}

/// What is shown of a row beside its time and its source.
pub fn label(row: &Row) -> (r: String)
    ensures
        r@ == labelled(row@),
{
    if let Some(d) = &row.decision {
        let mut r = match d.relevance {
            Relevance::Match => "MATCH".to_owned(),
            Relevance::Possible => "POSSIBLE".to_owned(),
            _ => "NOT EVALUATED".to_owned(),
        };
        let certainty = show_certainty(d, &row.figure);
        r.append(certainty.as_str());
        r.append(" | ");
        let n = text::decimal_text(row.count as u64);
        r.append(n.as_str());
        r.append(" instances");
        return r;
    }
    if row.pending {
        return "pending".to_owned();
    }
    let mut r = row.event.judgment.importance.label().to_owned();
    match &row.event.judgment.importance_confidence {
        Some(_) => {
            let mut c = " | ".to_owned();
            c.append(row.figure.as_str());
            c.append("% confidence");
            r.append(c.as_str());
        },
        None => {
            r.append("");
        },
    }
    r
}

/// The colour of a row.
pub open spec fn tint(row: RowView) -> Color {
    if row.pending {
        Color::Gray
    } else {
        match row.event.judgment.importance {
            Importance::Important => Color::LightRed,
            Importance::Routine => Color::Green,
            _ => Color::Yellow,
        }
    }
}

pub fn color(row: &Row) -> (r: Color)
    ensures
        r == tint(row@),
{
    if row.pending {
        Color::Gray
    } else {
        match row.event.judgment.importance {
            Importance::Important => Color::LightRed,
            Importance::Routine => Color::Green,
            _ => Color::Yellow,
        }
    }
}

}
