//! What holds of a parser over a whole run, whatever lines it is given and whenever it is flushed.
use vstd::prelude::*;

use crate::events;
use crate::events::{EventView, LineView, ParserView, MAX_EVENT};
use crate::grouping;
use crate::jev;
use crate::json::JsonView;
use crate::pattern;
use crate::text;

verus! {

/// What is done with a parser.
pub enum Call {
    Feed(LineView),
    Flush,
}

/// A parser that has read nothing.
pub open spec fn unread(source: Seq<(Seq<char>, JsonView)>) -> ParserView {
    ParserView { source, pending: None, line: 0 }
}

/// A parser after one call, and the event that the call gives back.
pub open spec fn called(p: ParserView, call: Call) -> (ParserView, Option<EventView>) {
    match call {
        Call::Feed(line) => p.fed(line),
        Call::Flush => (ParserView { pending: None, ..p }, p.flushed()),
    }
}

/// A parser after calls, one after the other, and the events that they give back.
pub open spec fn ran(p: ParserView, calls: Seq<Call>) -> (ParserView, Seq<EventView>)
    decreases calls.len(),
{
    if calls.len() == 0 {
        (p, seq![])
    } else {
        let (before, done) = ran(p, calls.drop_last());
        let (after, event) = called(before, calls.last());
        (
            after,
            match event {
                Some(e) => done.push(e),
                None => done,
            },
        )
    }
}

/// The lines that a parser is given, the first of which has the number one.
pub open spec fn lines_given(calls: Seq<Call>) -> Seq<LineView>
    decreases calls.len(),
{
    if calls.len() == 0 {
        seq![]
    } else {
        let before = lines_given(calls.drop_last());
        match calls.last() {
            Call::Feed(line) => before.push(line),
            Call::Flush => before,
        }
    }
}

/// Whether a line has nothing to say.
pub open spec fn silent(line: LineView) -> bool {
    events::body_of(line).len() == 0 && !line.private
}

/// What lines say together.
#[verifier::ext_equal]
pub struct Account {
    /// Their texts without credentials, each on a line of its own.
    pub text: Seq<char>,
    pub count: nat,
    /// Whether one of them was cut short.
    pub cut: bool,
}

/// What the lines from one place to another say, without those that have nothing to say.
pub open spec fn account(lines: Seq<LineView>, from: int, to: int) -> Account
    decreases to - from,
{
    if to <= from {
        Account { text: seq![], count: 0, cut: false }
    } else {
        let a = account(lines, from, to - 1);
        let line = lines[to - 1];
        if silent(line) {
            a
        } else {
            Account {
                text: if a.count == 0 {
                    events::safe_text(line)
                } else {
                    a.text.push('\n') + events::safe_text(line)
                },
                count: a.count + 1,
                cut: a.cut || line.truncated,
            }
        }
    }
}

/// Whether a line goes on with what was said before it.
pub open spec fn goes_on(line: LineView) -> bool {
    pattern::matched(pattern::CONTINUATION@, events::body_of(line))
}

/// Whether an event tells of its lines what they say: it is of the right source, lies within the
/// lines, begins with one that says something, at whose time it is, and counts those of them that
/// say something, all but the first of which go on with what was said; it is marked as cut short
/// where one of them was or where they say more than an event can hold, and only there; and where
/// they do not say more its text is theirs.
pub open spec fn faithful(
    e: EventView,
    source: Seq<(Seq<char>, JsonView)>,
    lines: Seq<LineView>,
) -> bool {
    let a = account(lines, e.line_start - 1, e.line_end as int);
    &&& e.source == source
    &&& 1 <= e.line_start <= e.line_end <= lines.len()
    &&& e.line_count == a.count
    &&& 1 <= e.line_count <= e.line_end - e.line_start + 1
    &&& text::utf8_len(e.text) <= MAX_EVENT
    &&& e.truncated == (a.cut || text::utf8_len(a.text) > MAX_EVENT)
    &&& text::utf8_len(a.text) <= MAX_EVENT ==> e.text == a.text
    &&& !silent(lines[e.line_start - 1]) && !silent(lines[e.line_end - 1])
    &&& e.timestamp == events::stamp_of(lines[e.line_start - 1])
    &&& forall|n: int|
        e.line_start <= n < e.line_end && !silent(#[trigger] lines[n]) ==> goes_on(lines[n])
}

proof fn account_bound(lines: Seq<LineView>, from: int, to: int)
    requires
        from <= to,
    ensures
        account(lines, from, to).count <= to - from,
    decreases to - from,
{
    if from < to {
        account_bound(lines, from, to - 1);
    }
}

proof fn account_of_prefix(lines: Seq<LineView>, line: LineView, from: int, to: int)
    requires
        0 <= from,
        to <= lines.len(),
    ensures
        account(lines.push(line), from, to) == account(lines, from, to),
    decreases to - from,
{
    if from < to {
        account_of_prefix(lines, line, from, to - 1);
        assert(lines.push(line)[to - 1] == lines[to - 1]);
    }
}

/// Whether a line lies within an event.
pub open spec fn covers(e: EventView, n: int) -> bool {
    e.line_start <= n + 1 <= e.line_end
}

/// Whether a line lies within one of the events.
pub open spec fn told(events: Seq<EventView>, n: int) -> bool {
    exists|i: int| 0 <= i < events.len() && covers(#[trigger] events[i], n)
}

/// What holds between calls.
spec fn on_track(
    p: ParserView,
    done: Seq<EventView>,
    source: Seq<(Seq<char>, JsonView)>,
    lines: Seq<LineView>,
) -> bool {
    &&& p.source == source
    &&& p.line == lines.len()
    &&& forall|i: int| 0 <= i < done.len() ==> faithful(#[trigger] done[i], source, lines)
    &&& forall|i: int, j: int|
        0 <= i < j < done.len() ==> (#[trigger] done[i]).line_end < (#[trigger] done[j]).line_start
    &&& p.pending matches Some(e) ==> {
        &&& faithful(e, source, lines)
        &&& account(lines, e.line_start - 1, lines.len() as int) == account(
            lines,
            e.line_start - 1,
            e.line_end as int,
        )
        &&& forall|i: int| 0 <= i < done.len() ==> (#[trigger] done[i]).line_end < e.line_start
        &&& forall|n: int| e.line_end <= n < lines.len() ==> silent(#[trigger] lines[n])
    }
    &&& forall|n: int|
        0 <= n < lines.len() && !silent(#[trigger] lines[n]) ==> told(done, n) || (
        p.pending matches Some(e) && covers(e, n))
}

proof fn faithful_still(
    e: EventView,
    source: Seq<(Seq<char>, JsonView)>,
    lines: Seq<LineView>,
    line: LineView,
)
    requires
        faithful(e, source, lines),
    ensures
        faithful(e, source, lines.push(line)),
{
    account_of_prefix(lines, line, e.line_start - 1, e.line_end as int);
    let more = lines.push(line);
    assert(more[e.line_start - 1] == lines[e.line_start - 1]);
    assert(more[e.line_end - 1] == lines[e.line_end - 1]);
    assert forall|n: int| e.line_start <= n < e.line_end && !silent(
        #[trigger] more[n],
    ) implies goes_on(more[n]) by {
        assert(more[n] == lines[n]);
    }
}

proof fn feeding_stays_on_track(
    p: ParserView,
    done: Seq<EventView>,
    source: Seq<(Seq<char>, JsonView)>,
    lines: Seq<LineView>,
    line: LineView,
)
    requires
        on_track(p, done, source, lines),
        lines.len() < u64::MAX,
    ensures
        ({
            let (q, event) = p.fed(line);
            on_track(
                q,
                match event {
                    Some(e) => done.push(e),
                    None => done,
                },
                source,
                lines.push(line),
            )
        }),
{
    let more = lines.push(line);
    let n = lines.len() as int;
    let (q, event) = p.fed(line);
    let after = match event {
        Some(e) => done.push(e),
        None => done,
    };
    assert(more[n] == line);
    assert forall|i: int| 0 <= i < done.len() implies faithful(#[trigger] done[i], source, more) by {
        faithful_still(done[i], source, lines, line);
    }
    if let Some(e) = p.pending {
        let from = e.line_start - 1;
        faithful_still(e, source, lines, line);
        account_of_prefix(lines, line, from, n);
        account_of_prefix(lines, line, from, e.line_end as int);
        account_bound(more, from, n + 1);
        let a = account(lines, from, n);
        let whole = e.text.push('\n') + events::safe_text(line);
        let told = a.text.push('\n') + events::safe_text(line);
        text::fitting_bound(whole, MAX_EVENT as nat);
        text::encode_concat(a.text, seq!['\n'] + events::safe_text(line));
        assert(told =~= a.text + (seq!['\n'] + events::safe_text(line)));
        assert(faithful(events::completed(e), source, more));
    }
    let opened = events::opened(p, line);
    text::fitting_bound(events::safe_text(line), MAX_EVENT as nat);
    assert(account(more, n, n) == (Account { text: seq![], count: 0, cut: false }));
    assert(account(more, n, n + 1) == if silent(line) {
        account(more, n, n)
    } else {
        Account { text: events::safe_text(line), count: 1, cut: line.truncated }
    });
    assert forall|i: int| 0 <= i < after.len() implies faithful(
        #[trigger] after[i],
        source,
        more,
    ) by {
        if i < done.len() {
            assert(after[i] == done[i]);
        }
    }
    assert forall|i: int, j: int| 0 <= i < j < after.len() implies (#[trigger] after[i]).line_end < (
    #[trigger] after[j]).line_start by {
        assert(after[i] == done[i]);
        if j < done.len() {
            assert(after[j] == done[j]);
        }
    }
    assert forall|i: int| 0 <= i < after.len() implies (#[trigger] after[i]).line_end <= n by {
        if i < done.len() {
            assert(after[i] == done[i]);
            assert(faithful(done[i], source, lines));
        }
    }
    if let Some(e) = p.pending {
        if let Some(f) = q.pending {
            assert forall|k: int| f.line_start <= k < f.line_end && !silent(
                #[trigger] more[k],
            ) implies goes_on(more[k]) by {
                if k < n {
                    assert(more[k] == lines[k]);
                }
            }
            assert forall|k: int| f.line_end <= k < more.len() implies silent(
                #[trigger] more[k],
            ) by {
                if k < n {
                    assert(more[k] == lines[k]);
                }
            }
            assert(more[e.line_start - 1] == lines[e.line_start - 1]);
        }
    }
    assert forall|k: int| 0 <= k < more.len() && !silent(#[trigger] more[k]) implies told(after, k)
        || (q.pending matches Some(f) && covers(f, k)) by {
        if k < n {
            assert(more[k] == lines[k]);
            if told(done, k) {
                let i = choose|i: int| 0 <= i < done.len() && covers(#[trigger] done[i], k);
                assert(covers(after[i], k));
            } else if event is Some {
                assert(covers(after[done.len() as int], k));
            }
        }
    }
}

proof fn runs_stay_on_track(source: Seq<(Seq<char>, JsonView)>, calls: Seq<Call>)
    requires
        calls.len() <= u64::MAX,
    ensures
        on_track(
            ran(unread(source), calls).0,
            ran(unread(source), calls).1,
            source,
            lines_given(calls),
        ),
        lines_given(calls).len() <= calls.len(),
    decreases calls.len(),
{
    if calls.len() > 0 {
        let rest = calls.drop_last();
        runs_stay_on_track(source, rest);
        let (p, done) = ran(unread(source), rest);
        let lines = lines_given(rest);
        match calls.last() {
            Call::Feed(line) => feeding_stays_on_track(p, done, source, lines, line),
            Call::Flush => {
                if let Some(e) = p.pending {
                    let after = done.push(events::completed(e));
                    assert(faithful(events::completed(e), source, lines));
                    assert forall|k: int| 0 <= k < lines.len() && !silent(
                        #[trigger] lines[k],
                    ) implies told(after, k) by {
                        if told(done, k) {
                            let i = choose|i: int|
                                0 <= i < done.len() && covers(#[trigger] done[i], k);
                            assert(covers(after[i], k));
                        } else {
                            assert(covers(after[done.len() as int], k));
                        }
                    }
                    assert forall|i: int| 0 <= i < after.len() implies faithful(
                        #[trigger] after[i],
                        source,
                        lines,
                    ) by {
                        if i < done.len() {
                            assert(after[i] == done[i]);
                        }
                    }
                    assert forall|i: int, j: int| 0 <= i < j < after.len() implies (
                    #[trigger] after[i]).line_end < (#[trigger] after[j]).line_start by {
                        assert(after[i] == done[i]);
                        if j < done.len() {
                            assert(after[j] == done[j]);
                        }
                    }
                }
            },
        }
    }
}

/// Whatever lines a parser is given and whenever it is flushed, every event that it gives back
/// tells faithfully of its lines, within its bound, and a later event begins behind the end of
/// every earlier one.
pub proof fn events_tell_of_their_lines(
    source: Seq<(Seq<char>, JsonView)>,
    calls: Seq<Call>,
    i: int,
    j: int,
)
    requires
        calls.len() <= u64::MAX,
        0 <= i < ran(unread(source), calls).1.len(),
    ensures
        faithful(ran(unread(source), calls).1[i], source, lines_given(calls)),
        i < j < ran(unread(source), calls).1.len() ==> ran(unread(source), calls).1[i].line_end
            < ran(unread(source), calls).1[j].line_start,
{
    runs_stay_on_track(source, calls);
}

/// A line of a private key says no more than that it is one.
pub proof fn private_lines_say_nothing_else(lines: Seq<LineView>, from: int, to: int)
    requires
        0 <= from < to <= lines.len(),
        lines[to - 1].private,
    ensures
        ({
            let a = account(lines, from, to - 1);
            account(lines, from, to).text == if a.count == 0 {
                events::private_text()
            } else {
                a.text.push('\n') + events::private_text()
            }
        }),
{
}

/// Whether something was said since the last flush.
pub open spec fn speaking(calls: Seq<Call>) -> bool
    decreases calls.len(),
{
    if calls.len() == 0 {
        false
    } else {
        match calls.last() {
            Call::Feed(line) => !silent(line) || speaking(calls.drop_last()),
            Call::Flush => false,
        }
    }
}

/// Whether an event has the same beginning and the same content as another, whatever its names.
pub open spec fn same_story(a: EventView, b: EventView) -> bool {
    &&& a.source == b.source && a.timestamp == b.timestamp && a.text == b.text
    &&& a.line_start == b.line_start && a.line_end == b.line_end && a.line_count == b.line_count
    &&& a.truncated == b.truncated
}

/// Where lines join and where they part. A line that says nothing changes nothing. One that goes on
/// with what was said is joined to the event that is pending, however long that is, and completes
/// none. Any other line completes the event that is pending and begins one of its own, and so does
/// a line that has nothing to go on with. An event is pending exactly where something was said
/// since the last flush.
pub proof fn lines_join_where_they_go_on(
    source: Seq<(Seq<char>, JsonView)>,
    calls: Seq<Call>,
    line: LineView,
)
    requires
        calls.len() < u64::MAX,
    ensures
        ({
            let p = ran(unread(source), calls).0;
            let (q, event) = p.fed(line);
            let n = lines_given(calls).len() + 1;
            &&& p.pending is Some == speaking(calls)
            &&& q.line == n
            &&& silent(line) ==> event is None && q.pending == p.pending
            &&& !silent(line) ==> (q.pending matches Some(f) && f.line_end == n)
            &&& !silent(line) && speaking(calls) && goes_on(line) ==> {
                let e = p.pending->Some_0;
                let f = q.pending->Some_0;
                &&& event is None
                &&& f.line_start == e.line_start && f.line_count == e.line_count + 1
                &&& f.timestamp == e.timestamp && f.source == e.source
                &&& text::utf8_len(e.text.push('\n') + events::safe_text(line)) <= MAX_EVENT
                    ==> f.text == e.text.push('\n') + events::safe_text(line)
            }
            &&& !silent(line) && speaking(calls) && !goes_on(line) ==> (event matches Some(done)
                && same_story(done, p.pending->Some_0))
            &&& !silent(line) && !speaking(calls) ==> event is None
            &&& !silent(line) && !(speaking(calls) && goes_on(line)) ==> {
                let f = q.pending->Some_0;
                &&& f.line_start == n && f.line_count == 1
                &&& f.timestamp == events::stamp_of(line) && f.source == source
                &&& text::utf8_len(events::safe_text(line)) <= MAX_EVENT ==> f.text
                    == events::safe_text(line)
            }
        }),
{
    runs_stay_on_track(source, calls);
    speaking_is_pending(source, calls);
    let p = ran(unread(source), calls).0;
    if let Some(e) = p.pending {
        assert(faithful(e, source, lines_given(calls)));
    }
}

proof fn speaking_is_pending(source: Seq<(Seq<char>, JsonView)>, calls: Seq<Call>)
    ensures
        ran(unread(source), calls).0.pending is Some == speaking(calls),
    decreases calls.len(),
{
    if calls.len() > 0 {
        speaking_is_pending(source, calls.drop_last());
    }
}

/// No line that says something is lost: each lies within an event that was given back or, unless the
/// last call was a flush, within the one that is pending.
pub proof fn every_line_is_told(source: Seq<(Seq<char>, JsonView)>, calls: Seq<Call>, n: int)
    requires
        calls.len() <= u64::MAX,
        0 <= n < lines_given(calls).len(),
        !silent(lines_given(calls)[n]),
    ensures
        told(ran(unread(source), calls).1, n) || (ran(unread(source), calls).0.pending matches Some(
            e,
        ) && covers(e, n)),
        calls.last() is Flush ==> told(ran(unread(source), calls).1, n),
{
    runs_stay_on_track(source, calls);
}

/// An event that is given back is named after what it holds: its identity is that of its source, its
/// first line, its time and its text, its group is that of its content, and what the local rules
/// say is said of its text. Nothing has judged it yet.
pub proof fn events_are_named_after_their_content(p: ParserView, line: LineView)
    ensures
        p.flushed() matches Some(e) ==> named(e, p.pending->Some_0),
        p.fed(line).1 matches Some(e) ==> named(e, p.pending->Some_0),
        p.flushed() is None <==> p.pending is None,
        p.pending is None ==> (p.fed(line).0.pending matches Some(f) ==> f.judgment
            == jev::no_judgment() && !f.analysis_reused && f.analysis_representative_id is None),
{
}

/// Whether an event is the one that was pending, named after what it holds.
pub open spec fn named(e: EventView, was: EventView) -> bool {
    &&& same_story(e, was)
    &&& e.id == events::identity(events::event_key(e))
    &&& e.group_id == grouping::group_of(e)
    &&& e.baseline == events::baseline_of(e.text)
    &&& e.judgment == was.judgment
    &&& e.analysis_reused == was.analysis_reused
    &&& e.analysis_representative_id == was.analysis_representative_id
}

}
