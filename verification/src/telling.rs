//! What an inspection tells: what a controller responded, whole or not at all, and each of its counts
//! under its own name.
use vstd::prelude::*;

use crate::cli;
use crate::controller::inspect;
use crate::controller::inspect::IncidentView;
use crate::events;
use crate::events::EventView;
use crate::json;
use crate::json::JsonView;
use crate::remote;
use crate::remote::SnapshotView;
use crate::report;
use crate::report::{GroupView, MetricsView, ReportView};
use crate::runtime;
use crate::text;
use crate::wire;
use crate::writing;

verus! {

/// Whether a text holds another as a part.
pub open spec fn part_of(t: Seq<char>, part: Seq<char>) -> bool {
    exists|a: Seq<char>, b: Seq<char>| #[trigger] parted(t, a, part, b)
}

pub open spec fn parted(t: Seq<char>, a: Seq<char>, part: Seq<char>, b: Seq<char>) -> bool {
    t == a + part + b
}

/// The text of what stands under a name in an object; that of `null` where nothing does.
pub open spec fn count_text(m: JsonView, key: Seq<char>) -> Seq<char> {
    match m {
        JsonView::Object(f) => if exists|v: JsonView| json::holds(f, key, v) {
            json::json_text(choose|v: JsonView| json::holds(f, key, v))
        } else {
            json::json_text(JsonView::Null)
        },
        _ => json::json_text(JsonView::Null),
    }
}

proof fn counted(m: JsonView, key: Seq<char>)
    ensures
        remote::metric(m, key) == count_text(m, key),
{
    match m {
        JsonView::Object(f) => {
            json::lookups_find_what_is_held(f, key);
            match json::lookup(f, key) {
                Some(v) => {
                    assert(json::holds(f, key, v));
                    let w = choose|w: JsonView| json::holds(f, key, w);
                    assert(json::holds(f, key, w));
                    assert(json::lookup(f, key) == Some(w));
                },
                None => {
                    if exists|v: JsonView| json::holds(f, key, v) {
                        let w = choose|w: JsonView| json::holds(f, key, w);
                        assert(json::lookup(f, key) == Some(w));
                    }
                },
            }
        },
        _ => {},
    }
}

proof fn regrouped(a: Seq<char>, b: Seq<char>, c: Seq<char>)
    ensures
        (a + b) + c == a + (b + c),
{
    assert((a + b) + c =~= a + (b + c));
}

proof fn nothing_before(a: Seq<char>)
    ensures
        Seq::<char>::empty() + a == a,
{
    assert(Seq::<char>::empty() + a =~= a);
}

proof fn nothing_behind(a: Seq<char>)
    ensures
        a + Seq::<char>::empty() == a,
{
    assert(a + Seq::<char>::empty() =~= a);
}

/// A text as it can be shown, or another where there is none.
pub open spec fn shown_or(t: Option<Seq<char>>, other: Seq<char>) -> Seq<char> {
    match t {
        Some(t) => events::printable(t),
        None => events::printable(other),
    }
}

/// Whether a line of a header states a length.
pub open spec fn is_length(line: Seq<char>) -> bool {
    text::parted(line, ':') matches Some((name, _)) && text::ascii_lowered(name)
        == "content-length"@
}

/// The length that a line of a header states, if it is one.
pub open spec fn length_in(line: Seq<char>) -> Option<nat> {
    match text::parted(line, ':') {
        Some((_, value)) => text::unsigned_number(text::trimmed(value), u64::MAX as nat),
        None => None,
    }
}

/// Whether exactly one of the lines states a length, and that one.
pub open spec fn states_once(lines: Seq<Seq<char>>, n: nat) -> bool {
    exists|i: int| #[trigger] only_at(lines, i) && length_in(lines[i]) == Some(n)
}

pub open spec fn only_at(lines: Seq<Seq<char>>, i: int) -> bool {
    &&& 0 <= i < lines.len()
    &&& is_length(lines[i])
    &&& forall|j: int| 0 <= j < lines.len() && j != i ==> !is_length(#[trigger] lines[j])
}

proof fn lengths_are(lines: Seq<Seq<char>>, n: nat)
    ensures
        remote::lengths(lines).len() == 0 <==> forall|j: int|
            0 <= j < lines.len() ==> !is_length(#[trigger] lines[j]),
        remote::lengths(lines) == seq![Some(n)] <==> states_once(lines, n),
    decreases lines.len(),
{
    let one = seq![Some(n)];
    if lines.len() > 0 {
        let r = lines.drop_last();
        let last = lines.len() - 1;
        lengths_are(r, n);
        assert(lines[last] == lines.last());
        assert(forall|j: int| 0 <= j < r.len() ==> r[j] == lines[j]);
        let before = remote::lengths(r);
        let all = remote::lengths(lines);
        if is_length(lines.last()) {
            let x = length_in(lines.last());
            assert(all == before.push(x));
            if all == one {
                assert(before.len() == 0);
                assert(all[0] == x);
                assert(forall|j: int| 0 <= j < r.len() ==> !is_length(#[trigger] r[j]));
                assert(only_at(lines, last));
            }
            if states_once(lines, n) {
                let i = choose|i: int| #[trigger]
                    only_at(lines, i) && length_in(lines[i]) == Some(n);
                assert(i == last);
                assert forall|j: int| 0 <= j < r.len() implies !is_length(#[trigger] r[j]) by {
                    assert(lines[j] == r[j]);
                }
                assert(before.len() == 0);
                assert(all =~= one);
            }
        } else {
            assert(all == before);
            if states_once(lines, n) {
                let i = choose|i: int| #[trigger]
                    only_at(lines, i) && length_in(lines[i]) == Some(n);
                assert(only_at(r, i));
            }
            if states_once(r, n) {
                let i = choose|i: int| #[trigger] only_at(r, i) && length_in(r[i]) == Some(n);
                assert(lines[i] == r[i]);
                assert(only_at(lines, i));
            }
        }
    } else {
        assert(one.len() == 1);
        if states_once(lines, n) {
            let i = choose|i: int| #[trigger] only_at(lines, i) && length_in(lines[i]) == Some(n);
        }
    }
}

/// Whether bytes are a whole response whose header ends at a place, with a value for a body: the
/// header is text of no more than eight kibibytes that says 200, states the length of the body once
/// and says nothing of another transfer; the body has no more than 256 kibibytes and is JSON of the
/// schema that is known.
pub open spec fn responds(bytes: Seq<u8>, n: int, v: JsonView) -> bool {
    let lines = text::lines(vstd::utf8::decode_utf8(bytes.take(n)));
    let words = text::words(lines[0]);
    &&& wire::is_first_header_end(bytes, n)
    &&& n <= 8 * 1024
    &&& vstd::utf8::valid_utf8(bytes.take(n))
    &&& words.len() >= 2 && words[1] == "200"@
    &&& bytes.len() - n - 4 <= 256 * 1024
    &&& states_once(lines.drop_first(), (bytes.len() - n - 4) as nat)
    &&& forall|i: int|
        0 <= i < lines.len() ==> !(text::parted(#[trigger] lines[i], ':') matches Some((name, _))
            && text::ascii_lowered(name) == "transfer-encoding"@)
    &&& json::parsed(bytes.subrange(n + 4, bytes.len() as int)) == Some(v)
    &&& exists|f: Seq<(Seq<char>, JsonView)>| #[trigger] of_first_schema(v, f)
}

/// Whether a value is an object whose schema is one.
pub open spec fn of_first_schema(v: JsonView, f: Seq<(Seq<char>, JsonView)>) -> bool {
    v == JsonView::Object(f) && exists|x: JsonView| #[trigger]
        json::holds(f, "schema"@, x) && is_number_one(x)
}

pub open spec fn is_number_one(x: JsonView) -> bool {
    x matches JsonView::Number(number) && number.signed == Some(1i64)
}

proof fn schema_is(v: JsonView)
    ensures
        remote::is_one(json::field(v, "schema"@)) <==> exists|f: Seq<(Seq<char>, JsonView)>|
            #[trigger] of_first_schema(v, f),
{
    match v {
        JsonView::Object(f) => {
            json::lookups_find_what_is_held(f, "schema"@);
            if remote::is_one(json::field(v, "schema"@)) {
                let x = json::lookup(f, "schema"@)->Some_0;
                assert(json::holds(f, "schema"@, x));
                assert(of_first_schema(v, f));
            }
            if of_first_schema(v, f) {
                let x = choose|x: JsonView| #[trigger]
                    json::holds(f, "schema"@, x) && is_number_one(x);
                assert(json::lookup(f, "schema"@) == Some(x));
            }
        },
        _ => {},
    }
}

/// A response is accepted exactly where it is whole, and then its body is what it says.
pub proof fn whole_responses_are_accepted(bytes: Seq<u8>, v: JsonView)
    ensures
        remote::decoded(bytes) == Ok::<JsonView, Seq<char>>(v) <==> exists|n: int| #[trigger]
            responds(bytes, n, v),
{
    if exists|n: int| #[trigger] responds(bytes, n, v) {
        let n = choose|n: int| #[trigger] responds(bytes, n, v);
        wire::header_found(bytes, n);
        response_read(bytes, n, v);
    }
    if remote::decoded(bytes) == Ok::<JsonView, Seq<char>>(v) {
        let n = wire::header_at(bytes)->Some_0;
        wire::header_is_inside(bytes);
        response_read(bytes, n, v);
        assert(responds(bytes, n, v));
    }
}

proof fn response_read(bytes: Seq<u8>, n: int, v: JsonView)
    requires
        wire::header_at(bytes) == Some(n),
        wire::is_first_header_end(bytes, n),
    ensures
        remote::decoded(bytes) == Ok::<JsonView, Seq<char>>(v) <==> responds(bytes, n, v),
{
    let lines = text::lines(vstd::utf8::decode_utf8(bytes.take(n)));
    let body = bytes.skip(n + 4);
    assert(body =~= bytes.subrange(n + 4, bytes.len() as int));
    lengths_are(lines.drop_first(), body.len());
    schema_is(v);
    assert(remote::encoded(lines) <==> !(forall|i: int|
        0 <= i < lines.len() ==> !(text::parted(#[trigger] lines[i], ':') matches Some((name, _))
            && text::ascii_lowered(name) == "transfer-encoding"@))) by {
        if remote::encoded(lines) {
            let i = choose|i: int|
                0 <= i < lines.len() && remote::is_named(
                    #[trigger] lines[i],
                    "transfer-encoding"@,
                );
            assert(text::parted(lines[i], ':') is Some);
        }
    }
}

/// What a controller is asked for: its state, or the incident of a name of 64 hexadecimal digits,
/// without regard to case; no other path leads anywhere.
pub proof fn paths_lead_where_they_say(path: Seq<char>, id: Seq<char>)
    ensures
        inspect::route_of(path) is Status <==> path == "/v1/status"@,
        inspect::route_of(path) == inspect::RouteView::Incident(id) <==> exists|name: Seq<char>|
            path == #[trigger] ("/v1/incidents/"@ + name) && name.len() == 64 && (forall|i: int|
                0 <= i < name.len() ==> text::ascii_hex(#[trigger] name[i]))
                && text::ascii_lowered(name) == id,
{
    let start = "/v1/incidents/"@;
    reveal_strlit("/v1/incidents/");
    reveal_strlit("/v1/status");
    assert("/v1/status"@.len() == 10 && start.len() == 14);
    if inspect::route_of(path) == inspect::RouteView::Incident(id) {
        let name = text::behind(path, start)->Some_0;
        assert(path =~= start + name);
        assert(path == start + name);
    }
    if exists|name: Seq<char>|
        path == #[trigger] (start + name) && name.len() == 64 && (forall|i: int|
            0 <= i < name.len() ==> text::ascii_hex(#[trigger] name[i])) && text::ascii_lowered(
            name,
        ) == id {
        let name = choose|name: Seq<char>|
            path == #[trigger] (start + name) && name.len() == 64 && (forall|i: int|
                0 <= i < name.len() ==> text::ascii_hex(#[trigger] name[i]))
                && text::ascii_lowered(name) == id;
        assert(path.skip(14) =~= name);
        assert(path.take(14) =~= start);
    }
}

/// What is shown of the logs: each count before its own name.
pub proof fn logs_are_shown(m: JsonView)
    ensures
        part_of(
            remote::logs_line(m),
            "Logs: "@ + count_text(m, "received"@) + " received | "@,
        ),
        part_of(
            remote::logs_line(m),
            " received | "@ + count_text(m, "active_streams"@) + " streams | queue "@,
        ),
        part_of(
            remote::logs_line(m),
            " streams | queue "@ + count_text(m, "queue_depth"@) + " | "@,
        ),
        part_of(
            remote::logs_line(m),
            " | "@ + count_text(m, "dropped"@) + " dropped | "@,
        ),
        part_of(
            remote::logs_line(m),
            " dropped | "@ + count_text(m, "coverage_gaps"@) + " coverage gaps\n"@,
        ),
{
    let t = remote::logs_line(m);
    let p0 = "Logs: "@;
    let p1 = count_text(m, "received"@);
    let p2 = " received | "@;
    let p3 = count_text(m, "active_streams"@);
    let p4 = " streams | queue "@;
    let p5 = count_text(m, "queue_depth"@);
    let p6 = " | "@;
    let p7 = count_text(m, "dropped"@);
    let p8 = " dropped | "@;
    let p9 = count_text(m, "coverage_gaps"@);
    let p10 = " coverage gaps\n"@;
    counted(m, "active_streams"@);
    counted(m, "coverage_gaps"@);
    counted(m, "dropped"@);
    counted(m, "queue_depth"@);
    counted(m, "received"@);
    assert(part_of(t, p0 + p1 + p2)) by {
        let (a, p, b) = (Seq::<char>::empty(), p0 + p1 + p2, p3 + p4 + p5 + p6 + p7 + p8 + p9 + p10);
        nothing_before(p);
        regrouped(a + p, p3, p4);
        regrouped(a + p, p3 + p4, p5);
        regrouped(a + p, p3 + p4 + p5, p6);
        regrouped(a + p, p3 + p4 + p5 + p6, p7);
        regrouped(a + p, p3 + p4 + p5 + p6 + p7, p8);
        regrouped(a + p, p3 + p4 + p5 + p6 + p7 + p8, p9);
        regrouped(a + p, p3 + p4 + p5 + p6 + p7 + p8 + p9, p10);
        assert(parted(t, a, p, b));
    }
    assert(part_of(t, p2 + p3 + p4)) by {
        let (a, p, b) = (p0 + p1, p2 + p3 + p4, p5 + p6 + p7 + p8 + p9 + p10);
        regrouped(a, p2, p3);
        regrouped(a, p2 + p3, p4);
        regrouped(a + p, p5, p6);
        regrouped(a + p, p5 + p6, p7);
        regrouped(a + p, p5 + p6 + p7, p8);
        regrouped(a + p, p5 + p6 + p7 + p8, p9);
        regrouped(a + p, p5 + p6 + p7 + p8 + p9, p10);
        assert(parted(t, a, p, b));
    }
    assert(part_of(t, p4 + p5 + p6)) by {
        let (a, p, b) = (p0 + p1 + p2 + p3, p4 + p5 + p6, p7 + p8 + p9 + p10);
        regrouped(a, p4, p5);
        regrouped(a, p4 + p5, p6);
        regrouped(a + p, p7, p8);
        regrouped(a + p, p7 + p8, p9);
        regrouped(a + p, p7 + p8 + p9, p10);
        assert(parted(t, a, p, b));
    }
    assert(part_of(t, p6 + p7 + p8)) by {
        let (a, p, b) = (p0 + p1 + p2 + p3 + p4 + p5, p6 + p7 + p8, p9 + p10);
        regrouped(a, p6, p7);
        regrouped(a, p6 + p7, p8);
        regrouped(a + p, p9, p10);
        assert(parted(t, a, p, b));
    }
    assert(part_of(t, p8 + p9 + p10)) by {
        let (a, p, b) = (p0 + p1 + p2 + p3 + p4 + p5 + p6 + p7, p8 + p9 + p10, Seq::<char>::empty());
        regrouped(a, p8, p9);
        regrouped(a, p8 + p9, p10);
        nothing_behind(a + p);
        assert(parted(t, a, p, b));
    }
}

/// What is shown of the verdicts: each count before its own name.
pub proof fn verdicts_are_shown(m: JsonView)
    ensures
        part_of(
            remote::verdicts_line(m),
            "Verdicts: "@ + count_text(m, "verdict_hits"@) + " reused | "@,
        ),
        part_of(
            remote::verdicts_line(m),
            " reused | "@ + count_text(m, "verdict_misses"@) + " misses | "@,
        ),
        part_of(
            remote::verdicts_line(m),
            " misses | "@ + count_text(m, "novelty_duplicates"@) + " replay duplicates\n"@,
        ),
{
    let t = remote::verdicts_line(m);
    let p0 = "Verdicts: "@;
    let p1 = count_text(m, "verdict_hits"@);
    let p2 = " reused | "@;
    let p3 = count_text(m, "verdict_misses"@);
    let p4 = " misses | "@;
    let p5 = count_text(m, "novelty_duplicates"@);
    let p6 = " replay duplicates\n"@;
    counted(m, "novelty_duplicates"@);
    counted(m, "verdict_hits"@);
    counted(m, "verdict_misses"@);
    assert(part_of(t, p0 + p1 + p2)) by {
        let (a, p, b) = (Seq::<char>::empty(), p0 + p1 + p2, p3 + p4 + p5 + p6);
        nothing_before(p);
        regrouped(a + p, p3, p4);
        regrouped(a + p, p3 + p4, p5);
        regrouped(a + p, p3 + p4 + p5, p6);
        assert(parted(t, a, p, b));
    }
    assert(part_of(t, p2 + p3 + p4)) by {
        let (a, p, b) = (p0 + p1, p2 + p3 + p4, p5 + p6);
        regrouped(a, p2, p3);
        regrouped(a, p2 + p3, p4);
        regrouped(a + p, p5, p6);
        assert(parted(t, a, p, b));
    }
    assert(part_of(t, p4 + p5 + p6)) by {
        let (a, p, b) = (p0 + p1 + p2 + p3, p4 + p5 + p6, Seq::<char>::empty());
        regrouped(a, p4, p5);
        regrouped(a, p4 + p5, p6);
        nothing_behind(a + p);
        assert(parted(t, a, p, b));
    }
}

/// What is shown of the policy: each count before its own name.
pub proof fn the_policy_is_shown(m: JsonView)
    ensures
        part_of(
            remote::policy_line(m),
            "Policy: "@ + count_text(m, "policy_notify"@) + " notify | "@,
        ),
        part_of(
            remote::policy_line(m),
            " notify | "@ + count_text(m, "policy_review"@) + " review | "@,
        ),
        part_of(
            remote::policy_line(m),
            " review | "@ + count_text(m, "policy_abstain"@) + " abstain | "@,
        ),
        part_of(
            remote::policy_line(m),
            " abstain | "@ + count_text(m, "policy_ignore"@) + " ignore\n"@,
        ),
{
    let t = remote::policy_line(m);
    let p0 = "Policy: "@;
    let p1 = count_text(m, "policy_notify"@);
    let p2 = " notify | "@;
    let p3 = count_text(m, "policy_review"@);
    let p4 = " review | "@;
    let p5 = count_text(m, "policy_abstain"@);
    let p6 = " abstain | "@;
    let p7 = count_text(m, "policy_ignore"@);
    let p8 = " ignore\n"@;
    counted(m, "policy_abstain"@);
    counted(m, "policy_ignore"@);
    counted(m, "policy_notify"@);
    counted(m, "policy_review"@);
    assert(part_of(t, p0 + p1 + p2)) by {
        let (a, p, b) = (Seq::<char>::empty(), p0 + p1 + p2, p3 + p4 + p5 + p6 + p7 + p8);
        nothing_before(p);
        regrouped(a + p, p3, p4);
        regrouped(a + p, p3 + p4, p5);
        regrouped(a + p, p3 + p4 + p5, p6);
        regrouped(a + p, p3 + p4 + p5 + p6, p7);
        regrouped(a + p, p3 + p4 + p5 + p6 + p7, p8);
        assert(parted(t, a, p, b));
    }
    assert(part_of(t, p2 + p3 + p4)) by {
        let (a, p, b) = (p0 + p1, p2 + p3 + p4, p5 + p6 + p7 + p8);
        regrouped(a, p2, p3);
        regrouped(a, p2 + p3, p4);
        regrouped(a + p, p5, p6);
        regrouped(a + p, p5 + p6, p7);
        regrouped(a + p, p5 + p6 + p7, p8);
        assert(parted(t, a, p, b));
    }
    assert(part_of(t, p4 + p5 + p6)) by {
        let (a, p, b) = (p0 + p1 + p2 + p3, p4 + p5 + p6, p7 + p8);
        regrouped(a, p4, p5);
        regrouped(a, p4 + p5, p6);
        regrouped(a + p, p7, p8);
        assert(parted(t, a, p, b));
    }
    assert(part_of(t, p6 + p7 + p8)) by {
        let (a, p, b) = (p0 + p1 + p2 + p3 + p4 + p5, p6 + p7 + p8, Seq::<char>::empty());
        regrouped(a, p6, p7);
        regrouped(a, p6 + p7, p8);
        nothing_behind(a + p);
        assert(parted(t, a, p, b));
    }
}

/// What is shown of the deliveries: each count before its own name.
pub proof fn deliveries_are_shown(s: SnapshotView)
    ensures
        part_of(
            remote::deliveries_line(s),
            "Delivery: "@ + text::decimal(s.outbox_pending as nat) + " pending | "@,
        ),
        part_of(
            remote::deliveries_line(s),
            " pending | "@ + text::decimal(s.outbox_dead as nat) + " dead | "@,
        ),
        part_of(
            remote::deliveries_line(s),
            " dead | "@ + count_text(s.metrics, "notification_delivered"@) + " delivered | "@,
        ),
        part_of(
            remote::deliveries_line(s),
            " delivered | "@ + count_text(s.metrics, "notification_failures"@) + " failures\n"@,
        ),
{
    let t = remote::deliveries_line(s);
    let p0 = "Delivery: "@;
    let p1 = text::decimal(s.outbox_pending as nat);
    let p2 = " pending | "@;
    let p3 = text::decimal(s.outbox_dead as nat);
    let p4 = " dead | "@;
    let p5 = count_text(s.metrics, "notification_delivered"@);
    let p6 = " delivered | "@;
    let p7 = count_text(s.metrics, "notification_failures"@);
    let p8 = " failures\n"@;
    counted(s.metrics, "notification_delivered"@);
    counted(s.metrics, "notification_failures"@);
    assert(part_of(t, p0 + p1 + p2)) by {
        let (a, p, b) = (Seq::<char>::empty(), p0 + p1 + p2, p3 + p4 + p5 + p6 + p7 + p8);
        nothing_before(p);
        regrouped(a + p, p3, p4);
        regrouped(a + p, p3 + p4, p5);
        regrouped(a + p, p3 + p4 + p5, p6);
        regrouped(a + p, p3 + p4 + p5 + p6, p7);
        regrouped(a + p, p3 + p4 + p5 + p6 + p7, p8);
        assert(parted(t, a, p, b));
    }
    assert(part_of(t, p2 + p3 + p4)) by {
        let (a, p, b) = (p0 + p1, p2 + p3 + p4, p5 + p6 + p7 + p8);
        regrouped(a, p2, p3);
        regrouped(a, p2 + p3, p4);
        regrouped(a + p, p5, p6);
        regrouped(a + p, p5 + p6, p7);
        regrouped(a + p, p5 + p6 + p7, p8);
        assert(parted(t, a, p, b));
    }
    assert(part_of(t, p4 + p5 + p6)) by {
        let (a, p, b) = (p0 + p1 + p2 + p3, p4 + p5 + p6, p7 + p8);
        regrouped(a, p4, p5);
        regrouped(a, p4 + p5, p6);
        regrouped(a + p, p7, p8);
        assert(parted(t, a, p, b));
    }
    assert(part_of(t, p6 + p7 + p8)) by {
        let (a, p, b) = (p0 + p1 + p2 + p3 + p4 + p5, p6 + p7 + p8, Seq::<char>::empty());
        regrouped(a, p6, p7);
        regrouped(a, p6 + p7, p8);
        nothing_behind(a + p);
        assert(parted(t, a, p, b));
    }
}

/// What is shown of the provider: each count before its own name, and what it cost.
pub proof fn the_provider_is_shown(m: JsonView)
    ensures
        part_of(
            remote::provider_line(m),
            "Provider: "@ + count_text(m, "provider_batches"@) + " batches | estimated $"@,
        ),
        part_of(
            remote::provider_line(m),
            " batches | estimated $"@ + count_text(m, "estimated_cost_usd"@) + " | "@,
        ),
        part_of(
            remote::provider_line(m),
            " | "@ + count_text(m, "provider_unmetered_requests"@) + " unmetered requests\n"@,
        ),
{
    let t = remote::provider_line(m);
    let p0 = "Provider: "@;
    let p1 = count_text(m, "provider_batches"@);
    let p2 = " batches | estimated $"@;
    let p3 = count_text(m, "estimated_cost_usd"@);
    let p4 = " | "@;
    let p5 = count_text(m, "provider_unmetered_requests"@);
    let p6 = " unmetered requests\n"@;
    counted(m, "estimated_cost_usd"@);
    counted(m, "provider_batches"@);
    counted(m, "provider_unmetered_requests"@);
    assert(part_of(t, p0 + p1 + p2)) by {
        let (a, p, b) = (Seq::<char>::empty(), p0 + p1 + p2, p3 + p4 + p5 + p6);
        nothing_before(p);
        regrouped(a + p, p3, p4);
        regrouped(a + p, p3 + p4, p5);
        regrouped(a + p, p3 + p4 + p5, p6);
        assert(parted(t, a, p, b));
    }
    assert(part_of(t, p2 + p3 + p4)) by {
        let (a, p, b) = (p0 + p1, p2 + p3 + p4, p5 + p6);
        regrouped(a, p2, p3);
        regrouped(a, p2 + p3, p4);
        regrouped(a + p, p5, p6);
        assert(parted(t, a, p, b));
    }
    assert(part_of(t, p4 + p5 + p6)) by {
        let (a, p, b) = (p0 + p1 + p2 + p3, p4 + p5 + p6, Seq::<char>::empty());
        regrouped(a, p4, p5);
        regrouped(a, p4 + p5, p6);
        nothing_behind(a + p);
        assert(parted(t, a, p, b));
    }
}

/// What is shown of the state: each count before its own name.
pub proof fn the_state_is_shown(s: SnapshotView)
    ensures
        part_of(
            remote::state_line(s),
            "State: "@ + text::decimal(s.incident_count as nat) + " incidents | "@,
        ),
        part_of(
            remote::state_line(s),
            " incidents | "@ + count_text(s.metrics, "store_failures"@) + " failures\n"@,
        ),
{
    let t = remote::state_line(s);
    let p0 = "State: "@;
    let p1 = text::decimal(s.incident_count as nat);
    let p2 = " incidents | "@;
    let p3 = count_text(s.metrics, "store_failures"@);
    let p4 = " failures\n"@;
    counted(s.metrics, "store_failures"@);
    assert(part_of(t, p0 + p1 + p2)) by {
        let (a, p, b) = (Seq::<char>::empty(), p0 + p1 + p2, p3 + p4);
        nothing_before(p);
        regrouped(a + p, p3, p4);
        assert(parted(t, a, p, b));
    }
    assert(part_of(t, p2 + p3 + p4)) by {
        let (a, p, b) = (p0 + p1, p2 + p3 + p4, Seq::<char>::empty());
        regrouped(a, p2, p3);
        regrouped(a, p2 + p3, p4);
        nothing_behind(a + p);
        assert(parted(t, a, p, b));
    }
}

/// What is shown first of a controller: whether it is ready, when it was asked, and that coverage is partial.
pub proof fn controllers_are_shown(s: SnapshotView)
    ensures
        part_of(
            remote::controller_line(s),
            "Controller: "@ + (if s.ready { "ready"@ } else { "NOT READY"@ }) + " | sampled at "@,
        ),
        part_of(
            remote::controller_line(s),
            " | sampled at "@
                + text::signed_decimal(s.sampled_at as int)
                + " | coverage partial\n"@,
        ),
{
    let t = remote::controller_line(s);
    let p0 = "Controller: "@;
    let p1 = (if s.ready { "ready"@ } else { "NOT READY"@ });
    let p2 = " | sampled at "@;
    let p3 = text::signed_decimal(s.sampled_at as int);
    let p4 = " | coverage partial\n"@;
    assert(part_of(t, p0 + p1 + p2)) by {
        let (a, p, b) = (Seq::<char>::empty(), p0 + p1 + p2, p3 + p4);
        nothing_before(p);
        regrouped(a + p, p3, p4);
        assert(parted(t, a, p, b));
    }
    assert(part_of(t, p2 + p3 + p4)) by {
        let (a, p, b) = (p0 + p1, p2 + p3 + p4, Seq::<char>::empty());
        regrouped(a, p2, p3);
        regrouped(a, p2 + p3, p4);
        nothing_behind(a + p);
        assert(parted(t, a, p, b));
    }
}

/// What is shown of an incident in a list, in the order of the head of the list.
pub proof fn listed_incidents_are_shown(i: IncidentView)
    ensures
        part_of(
            remote::incident_line(i),
            events::printable(i.id) + " | "@,
        ),
        part_of(
            remote::incident_line(i),
            " | "@ + shown_or(i.last_decision, "unknown"@) + " | "@,
        ),
        part_of(
            remote::incident_line(i),
            " | "@ + text::decimal(i.recurrence_count as nat) + " | "@,
        ),
        part_of(
            remote::incident_line(i),
            " | "@ + text::decimal(i.escalation_level as nat) + " | "@,
        ),
        part_of(
            remote::incident_line(i),
            " | "@ + text::signed_decimal(i.notification_sequence as int) + "\n"@,
        ),
{
    let t = remote::incident_line(i);
    let p0 = events::printable(i.id);
    let p1 = " | "@;
    let p2 = shown_or(i.last_decision, "unknown"@);
    let p3 = " | "@;
    let p4 = text::decimal(i.recurrence_count as nat);
    let p5 = " | "@;
    let p6 = text::decimal(i.escalation_level as nat);
    let p7 = " | "@;
    let p8 = text::signed_decimal(i.notification_sequence as int);
    let p9 = "\n"@;
    assert(part_of(t, p0 + p1)) by {
        let (a, p, b) = (Seq::<char>::empty(), p0 + p1, p2 + p3 + p4 + p5 + p6 + p7 + p8 + p9);
        nothing_before(p);
        regrouped(a + p, p2, p3);
        regrouped(a + p, p2 + p3, p4);
        regrouped(a + p, p2 + p3 + p4, p5);
        regrouped(a + p, p2 + p3 + p4 + p5, p6);
        regrouped(a + p, p2 + p3 + p4 + p5 + p6, p7);
        regrouped(a + p, p2 + p3 + p4 + p5 + p6 + p7, p8);
        regrouped(a + p, p2 + p3 + p4 + p5 + p6 + p7 + p8, p9);
        assert(parted(t, a, p, b));
    }
    assert(part_of(t, p1 + p2 + p3)) by {
        let (a, p, b) = (p0, p1 + p2 + p3, p4 + p5 + p6 + p7 + p8 + p9);
        regrouped(a, p1, p2);
        regrouped(a, p1 + p2, p3);
        regrouped(a + p, p4, p5);
        regrouped(a + p, p4 + p5, p6);
        regrouped(a + p, p4 + p5 + p6, p7);
        regrouped(a + p, p4 + p5 + p6 + p7, p8);
        regrouped(a + p, p4 + p5 + p6 + p7 + p8, p9);
        assert(parted(t, a, p, b));
    }
    assert(part_of(t, p3 + p4 + p5)) by {
        let (a, p, b) = (p0 + p1 + p2, p3 + p4 + p5, p6 + p7 + p8 + p9);
        regrouped(a, p3, p4);
        regrouped(a, p3 + p4, p5);
        regrouped(a + p, p6, p7);
        regrouped(a + p, p6 + p7, p8);
        regrouped(a + p, p6 + p7 + p8, p9);
        assert(parted(t, a, p, b));
    }
    assert(part_of(t, p5 + p6 + p7)) by {
        let (a, p, b) = (p0 + p1 + p2 + p3 + p4, p5 + p6 + p7, p8 + p9);
        regrouped(a, p5, p6);
        regrouped(a, p5 + p6, p7);
        regrouped(a + p, p8, p9);
        assert(parted(t, a, p, b));
    }
    assert(part_of(t, p7 + p8 + p9)) by {
        let (a, p, b) = (p0 + p1 + p2 + p3 + p4 + p5 + p6, p7 + p8 + p9, Seq::<char>::empty());
        regrouped(a, p7, p8);
        regrouped(a, p7 + p8, p9);
        nothing_behind(a + p);
        assert(parted(t, a, p, b));
    }
}

/// What is shown first of an incident: each count behind its own name.
pub proof fn incidents_are_shown(i: IncidentView)
    ensures
        part_of(
            remote::title_line(i),
            "Incident "@ + events::printable(i.id) + " | "@,
        ),
        part_of(
            remote::title_line(i),
            " | "@ + shown_or(i.last_decision, "unknown"@) + " | count "@,
        ),
        part_of(
            remote::title_line(i),
            " | count "@ + text::decimal(i.recurrence_count as nat) + " | level "@,
        ),
        part_of(
            remote::title_line(i),
            " | level "@
                + text::decimal(i.escalation_level as nat)
                + " | notification sequence "@,
        ),
        part_of(
            remote::title_line(i),
            " | notification sequence "@
                + text::signed_decimal(i.notification_sequence as int)
                + "\n"@,
        ),
{
    let t = remote::title_line(i);
    let p0 = "Incident "@;
    let p1 = events::printable(i.id);
    let p2 = " | "@;
    let p3 = shown_or(i.last_decision, "unknown"@);
    let p4 = " | count "@;
    let p5 = text::decimal(i.recurrence_count as nat);
    let p6 = " | level "@;
    let p7 = text::decimal(i.escalation_level as nat);
    let p8 = " | notification sequence "@;
    let p9 = text::signed_decimal(i.notification_sequence as int);
    let p10 = "\n"@;
    assert(part_of(t, p0 + p1 + p2)) by {
        let (a, p, b) = (Seq::<char>::empty(), p0 + p1 + p2, p3 + p4 + p5 + p6 + p7 + p8 + p9 + p10);
        nothing_before(p);
        regrouped(a + p, p3, p4);
        regrouped(a + p, p3 + p4, p5);
        regrouped(a + p, p3 + p4 + p5, p6);
        regrouped(a + p, p3 + p4 + p5 + p6, p7);
        regrouped(a + p, p3 + p4 + p5 + p6 + p7, p8);
        regrouped(a + p, p3 + p4 + p5 + p6 + p7 + p8, p9);
        regrouped(a + p, p3 + p4 + p5 + p6 + p7 + p8 + p9, p10);
        assert(parted(t, a, p, b));
    }
    assert(part_of(t, p2 + p3 + p4)) by {
        let (a, p, b) = (p0 + p1, p2 + p3 + p4, p5 + p6 + p7 + p8 + p9 + p10);
        regrouped(a, p2, p3);
        regrouped(a, p2 + p3, p4);
        regrouped(a + p, p5, p6);
        regrouped(a + p, p5 + p6, p7);
        regrouped(a + p, p5 + p6 + p7, p8);
        regrouped(a + p, p5 + p6 + p7 + p8, p9);
        regrouped(a + p, p5 + p6 + p7 + p8 + p9, p10);
        assert(parted(t, a, p, b));
    }
    assert(part_of(t, p4 + p5 + p6)) by {
        let (a, p, b) = (p0 + p1 + p2 + p3, p4 + p5 + p6, p7 + p8 + p9 + p10);
        regrouped(a, p4, p5);
        regrouped(a, p4 + p5, p6);
        regrouped(a + p, p7, p8);
        regrouped(a + p, p7 + p8, p9);
        regrouped(a + p, p7 + p8 + p9, p10);
        assert(parted(t, a, p, b));
    }
    assert(part_of(t, p6 + p7 + p8)) by {
        let (a, p, b) = (p0 + p1 + p2 + p3 + p4 + p5, p6 + p7 + p8, p9 + p10);
        regrouped(a, p6, p7);
        regrouped(a, p6 + p7, p8);
        regrouped(a + p, p9, p10);
        assert(parted(t, a, p, b));
    }
    assert(part_of(t, p8 + p9 + p10)) by {
        let (a, p, b) = (p0 + p1 + p2 + p3 + p4 + p5 + p6 + p7, p8 + p9 + p10, Seq::<char>::empty());
        regrouped(a, p8, p9);
        regrouped(a, p8 + p9, p10);
        nothing_behind(a + p);
        assert(parted(t, a, p, b));
    }
}

/// What is shown of a delivery.
pub proof fn the_last_delivery_is_shown(status: Option<Seq<char>>, attempts: Option<u32>)
    ensures
        part_of(
            remote::delivery_line(status, attempts),
            "Delivery: "@ + shown_or(status, "not retained"@) + " | attempts "@,
        ),
        part_of(
            remote::delivery_line(status, attempts),
            " | attempts "@
                + text::decimal(match attempts { Some(n) => n as nat, None => 0nat, })
                + "\n"@,
        ),
{
    let t = remote::delivery_line(status, attempts);
    let p0 = "Delivery: "@;
    let p1 = shown_or(status, "not retained"@);
    let p2 = " | attempts "@;
    let p3 = text::decimal(match attempts { Some(n) => n as nat, None => 0nat, });
    let p4 = "\n"@;
    assert(part_of(t, p0 + p1 + p2)) by {
        let (a, p, b) = (Seq::<char>::empty(), p0 + p1 + p2, p3 + p4);
        nothing_before(p);
        regrouped(a + p, p3, p4);
        assert(parted(t, a, p, b));
    }
    assert(part_of(t, p2 + p3 + p4)) by {
        let (a, p, b) = (p0 + p1, p2 + p3 + p4, Seq::<char>::empty());
        regrouped(a, p2, p3);
        regrouped(a, p2 + p3, p4);
        nothing_behind(a + p);
        assert(parted(t, a, p, b));
    }
}

/// What is shown of a state: all of it, and its incidents under their head.
pub proof fn states_are_shown_whole(s: SnapshotView)
    ensures
        part_of(
            remote::status_shown(s),
            remote::controller_line(s),
        ),
        part_of(
            remote::status_shown(s),
            remote::logs_line(s.metrics),
        ),
        part_of(
            remote::status_shown(s),
            remote::verdicts_line(s.metrics),
        ),
        part_of(
            remote::status_shown(s),
            remote::policy_line(s.metrics),
        ),
        part_of(
            remote::status_shown(s),
            remote::deliveries_line(s),
        ),
        part_of(
            remote::status_shown(s),
            remote::provider_line(s.metrics),
        ),
        part_of(
            remote::status_shown(s),
            remote::state_line(s)
                + "Recent incidents (ID | decision | count | level | sequence):\n"@,
        ),
        part_of(
            remote::status_shown(s),
            "Recent incidents (ID | decision | count | level | sequence):\n"@
                + remote::incident_lines(s.recent_incidents)
                + "Use --incident ID for retained evidence and delivery details.\n"@,
        ),
{
    let t = remote::status_shown(s);
    let p0 = remote::controller_line(s);
    let p1 = remote::logs_line(s.metrics);
    let p2 = remote::verdicts_line(s.metrics);
    let p3 = remote::policy_line(s.metrics);
    let p4 = remote::deliveries_line(s);
    let p5 = remote::provider_line(s.metrics);
    let p6 = remote::state_line(s);
    let p7 = "Recent incidents (ID | decision | count | level | sequence):\n"@;
    let p8 = remote::incident_lines(s.recent_incidents);
    let p9 = "Use --incident ID for retained evidence and delivery details.\n"@;
    assert(part_of(t, p0)) by {
        let (a, p, b) = (Seq::<char>::empty(), p0, p1 + p2 + p3 + p4 + p5 + p6 + p7 + p8 + p9);
        nothing_before(p);
        regrouped(a + p, p1, p2);
        regrouped(a + p, p1 + p2, p3);
        regrouped(a + p, p1 + p2 + p3, p4);
        regrouped(a + p, p1 + p2 + p3 + p4, p5);
        regrouped(a + p, p1 + p2 + p3 + p4 + p5, p6);
        regrouped(a + p, p1 + p2 + p3 + p4 + p5 + p6, p7);
        regrouped(a + p, p1 + p2 + p3 + p4 + p5 + p6 + p7, p8);
        regrouped(a + p, p1 + p2 + p3 + p4 + p5 + p6 + p7 + p8, p9);
        assert(parted(t, a, p, b));
    }
    assert(part_of(t, p1)) by {
        let (a, p, b) = (p0, p1, p2 + p3 + p4 + p5 + p6 + p7 + p8 + p9);
        regrouped(a + p, p2, p3);
        regrouped(a + p, p2 + p3, p4);
        regrouped(a + p, p2 + p3 + p4, p5);
        regrouped(a + p, p2 + p3 + p4 + p5, p6);
        regrouped(a + p, p2 + p3 + p4 + p5 + p6, p7);
        regrouped(a + p, p2 + p3 + p4 + p5 + p6 + p7, p8);
        regrouped(a + p, p2 + p3 + p4 + p5 + p6 + p7 + p8, p9);
        assert(parted(t, a, p, b));
    }
    assert(part_of(t, p2)) by {
        let (a, p, b) = (p0 + p1, p2, p3 + p4 + p5 + p6 + p7 + p8 + p9);
        regrouped(a + p, p3, p4);
        regrouped(a + p, p3 + p4, p5);
        regrouped(a + p, p3 + p4 + p5, p6);
        regrouped(a + p, p3 + p4 + p5 + p6, p7);
        regrouped(a + p, p3 + p4 + p5 + p6 + p7, p8);
        regrouped(a + p, p3 + p4 + p5 + p6 + p7 + p8, p9);
        assert(parted(t, a, p, b));
    }
    assert(part_of(t, p3)) by {
        let (a, p, b) = (p0 + p1 + p2, p3, p4 + p5 + p6 + p7 + p8 + p9);
        regrouped(a + p, p4, p5);
        regrouped(a + p, p4 + p5, p6);
        regrouped(a + p, p4 + p5 + p6, p7);
        regrouped(a + p, p4 + p5 + p6 + p7, p8);
        regrouped(a + p, p4 + p5 + p6 + p7 + p8, p9);
        assert(parted(t, a, p, b));
    }
    assert(part_of(t, p4)) by {
        let (a, p, b) = (p0 + p1 + p2 + p3, p4, p5 + p6 + p7 + p8 + p9);
        regrouped(a + p, p5, p6);
        regrouped(a + p, p5 + p6, p7);
        regrouped(a + p, p5 + p6 + p7, p8);
        regrouped(a + p, p5 + p6 + p7 + p8, p9);
        assert(parted(t, a, p, b));
    }
    assert(part_of(t, p5)) by {
        let (a, p, b) = (p0 + p1 + p2 + p3 + p4, p5, p6 + p7 + p8 + p9);
        regrouped(a + p, p6, p7);
        regrouped(a + p, p6 + p7, p8);
        regrouped(a + p, p6 + p7 + p8, p9);
        assert(parted(t, a, p, b));
    }
    assert(part_of(t, p6 + p7)) by {
        let (a, p, b) = (p0 + p1 + p2 + p3 + p4 + p5, p6 + p7, p8 + p9);
        regrouped(a, p6, p7);
        regrouped(a + p, p8, p9);
        assert(parted(t, a, p, b));
    }
    assert(part_of(t, p7 + p8 + p9)) by {
        let (a, p, b) = (p0 + p1 + p2 + p3 + p4 + p5 + p6, p7 + p8 + p9, Seq::<char>::empty());
        regrouped(a, p7, p8);
        regrouped(a, p7 + p8, p9);
        nothing_behind(a + p);
        assert(parted(t, a, p, b));
    }
}

/// What is shown of an incident: all of it.
pub proof fn details_are_shown_whole(i: IncidentView,
    notification: Option<JsonView>,
    status: Option<Seq<char>>,
    attempts: Option<u32>)
    ensures
        part_of(
            remote::detail_shown(i, notification, status, attempts),
            remote::title_line(i),
        ),
        part_of(
            remote::detail_shown(i, notification, status, attempts),
            remote::delivery_line(status, attempts),
        ),
        part_of(
            remote::detail_shown(i, notification, status, attempts),
            remote::evidence_shown(notification),
        ),
{
    let t = remote::detail_shown(i, notification, status, attempts);
    let p0 = remote::title_line(i);
    let p1 = remote::delivery_line(status, attempts);
    let p2 = remote::evidence_shown(notification);
    assert(part_of(t, p0)) by {
        let (a, p, b) = (Seq::<char>::empty(), p0, p1 + p2);
        nothing_before(p);
        regrouped(a + p, p1, p2);
        assert(parted(t, a, p, b));
    }
    assert(part_of(t, p1)) by {
        let (a, p, b) = (p0, p1, p2);
        assert(parted(t, a, p, b));
    }
    assert(part_of(t, p2)) by {
        let (a, p, b) = (p0 + p1, p2, Seq::<char>::empty());
        nothing_behind(a + p);
        assert(parted(t, a, p, b));
    }
}

/// What is shown of a group of important events: how bad it is, of what kind, how often it occurred, and what it says.
pub proof fn groups_are_shown(g: GroupView)
    ensures
        part_of(
            cli::group_line(g),
            "["@ + writing::severity_shown(g.severity)->Text_0 + " / "@,
        ),
        part_of(
            cli::group_line(g),
            " / "@ + writing::category_shown(g.category)->Text_0 + "] ×"@,
        ),
        part_of(
            cli::group_line(g),
            "] ×"@ + text::decimal(g.count as nat) + " "@,
        ),
        part_of(
            cli::group_line(g),
            " "@ + events::printable(g.text) + "\n"@,
        ),
{
    let t = cli::group_line(g);
    let p0 = "["@;
    let p1 = writing::severity_shown(g.severity)->Text_0;
    let p2 = " / "@;
    let p3 = writing::category_shown(g.category)->Text_0;
    let p4 = "] ×"@;
    let p5 = text::decimal(g.count as nat);
    let p6 = " "@;
    let p7 = events::printable(g.text);
    let p8 = "\n"@;
    assert(part_of(t, p0 + p1 + p2)) by {
        let (a, p, b) = (Seq::<char>::empty(), p0 + p1 + p2, p3 + p4 + p5 + p6 + p7 + p8);
        nothing_before(p);
        regrouped(a + p, p3, p4);
        regrouped(a + p, p3 + p4, p5);
        regrouped(a + p, p3 + p4 + p5, p6);
        regrouped(a + p, p3 + p4 + p5 + p6, p7);
        regrouped(a + p, p3 + p4 + p5 + p6 + p7, p8);
        assert(parted(t, a, p, b));
    }
    assert(part_of(t, p2 + p3 + p4)) by {
        let (a, p, b) = (p0 + p1, p2 + p3 + p4, p5 + p6 + p7 + p8);
        regrouped(a, p2, p3);
        regrouped(a, p2 + p3, p4);
        regrouped(a + p, p5, p6);
        regrouped(a + p, p5 + p6, p7);
        regrouped(a + p, p5 + p6 + p7, p8);
        assert(parted(t, a, p, b));
    }
    assert(part_of(t, p4 + p5 + p6)) by {
        let (a, p, b) = (p0 + p1 + p2 + p3, p4 + p5 + p6, p7 + p8);
        regrouped(a, p4, p5);
        regrouped(a, p4 + p5, p6);
        regrouped(a + p, p7, p8);
        assert(parted(t, a, p, b));
    }
    assert(part_of(t, p6 + p7 + p8)) by {
        let (a, p, b) = (p0 + p1 + p2 + p3 + p4 + p5, p6 + p7 + p8, Seq::<char>::empty());
        regrouped(a, p6, p7);
        regrouped(a, p6 + p7, p8);
        nothing_behind(a + p);
        assert(parted(t, a, p, b));
    }
}

/// What heads the summary of a run: each count beside its own name.
pub proof fn runs_are_summed_up(r: ReportView, m: MetricsView, offline: bool, cost: Seq<char>)
    ensures
        part_of(
            cli::summary_head(r, m, offline, cost),
            "jevernetes · "@ + (if offline { "offline-rules"@ } else { "jev"@ }) + "\n"@,
        ),
        part_of(
            cli::summary_head(r, m, offline, cost),
            "\n"@ + text::decimal(r.total as nat) + " events / "@,
        ),
        part_of(
            cli::summary_head(r, m, offline, cost),
            " events / "@ + text::decimal(r.lines as nat) + " lines · important "@,
        ),
        part_of(
            cli::summary_head(r, m, offline, cost),
            " lines · important "@ + text::decimal(r.counts.important as nat) + " · uncertain "@,
        ),
        part_of(
            cli::summary_head(r, m, offline, cost),
            " · uncertain "@ + text::decimal(r.counts.uncertain as nat) + " · unknown "@,
        ),
        part_of(
            cli::summary_head(r, m, offline, cost),
            " · unknown "@ + text::decimal(r.counts.unknown as nat) + "\ncoverage gaps "@,
        ),
        part_of(
            cli::summary_head(r, m, offline, cost),
            "\ncoverage gaps "@ + text::decimal(m.coverage_gaps as nat) + " · dropped "@,
        ),
        part_of(
            cli::summary_head(r, m, offline, cost),
            " · dropped "@ + text::decimal(m.dropped as nat) + " · estimated $"@,
        ),
        part_of(
            cli::summary_head(r, m, offline, cost),
            " · estimated $"@ + cost + "\n"@,
        ),
{
    let t = cli::summary_head(r, m, offline, cost);
    let p0 = "jevernetes · "@;
    let p1 = (if offline { "offline-rules"@ } else { "jev"@ });
    let p2 = "\n"@;
    let p3 = text::decimal(r.total as nat);
    let p4 = " events / "@;
    let p5 = text::decimal(r.lines as nat);
    let p6 = " lines · important "@;
    let p7 = text::decimal(r.counts.important as nat);
    let p8 = " · uncertain "@;
    let p9 = text::decimal(r.counts.uncertain as nat);
    let p10 = " · unknown "@;
    let p11 = text::decimal(r.counts.unknown as nat);
    let p12 = "\ncoverage gaps "@;
    let p13 = text::decimal(m.coverage_gaps as nat);
    let p14 = " · dropped "@;
    let p15 = text::decimal(m.dropped as nat);
    let p16 = " · estimated $"@;
    let p17 = cost;
    let p18 = "\n"@;
    assert(part_of(t, p0 + p1 + p2)) by {
        let (a, p, b) = (Seq::<char>::empty(), p0 + p1 + p2, p3 + p4 + p5 + p6 + p7 + p8 + p9 + p10 + p11 + p12 + p13 + p14 + p15 + p16 + p17 + p18);
        nothing_before(p);
        regrouped(a + p, p3, p4);
        regrouped(a + p, p3 + p4, p5);
        regrouped(a + p, p3 + p4 + p5, p6);
        regrouped(a + p, p3 + p4 + p5 + p6, p7);
        regrouped(a + p, p3 + p4 + p5 + p6 + p7, p8);
        regrouped(a + p, p3 + p4 + p5 + p6 + p7 + p8, p9);
        regrouped(a + p, p3 + p4 + p5 + p6 + p7 + p8 + p9, p10);
        regrouped(a + p, p3 + p4 + p5 + p6 + p7 + p8 + p9 + p10, p11);
        regrouped(a + p, p3 + p4 + p5 + p6 + p7 + p8 + p9 + p10 + p11, p12);
        regrouped(a + p, p3 + p4 + p5 + p6 + p7 + p8 + p9 + p10 + p11 + p12, p13);
        regrouped(a + p, p3 + p4 + p5 + p6 + p7 + p8 + p9 + p10 + p11 + p12 + p13, p14);
        regrouped(a + p, p3 + p4 + p5 + p6 + p7 + p8 + p9 + p10 + p11 + p12 + p13 + p14, p15);
        regrouped(a + p, p3 + p4 + p5 + p6 + p7 + p8 + p9 + p10 + p11 + p12 + p13 + p14 + p15, p16);
        regrouped(a + p, p3 + p4 + p5 + p6 + p7 + p8 + p9 + p10 + p11 + p12 + p13 + p14 + p15 + p16, p17);
        regrouped(a + p, p3 + p4 + p5 + p6 + p7 + p8 + p9 + p10 + p11 + p12 + p13 + p14 + p15 + p16 + p17, p18);
        assert(parted(t, a, p, b));
    }
    assert(part_of(t, p2 + p3 + p4)) by {
        let (a, p, b) = (p0 + p1, p2 + p3 + p4, p5 + p6 + p7 + p8 + p9 + p10 + p11 + p12 + p13 + p14 + p15 + p16 + p17 + p18);
        regrouped(a, p2, p3);
        regrouped(a, p2 + p3, p4);
        regrouped(a + p, p5, p6);
        regrouped(a + p, p5 + p6, p7);
        regrouped(a + p, p5 + p6 + p7, p8);
        regrouped(a + p, p5 + p6 + p7 + p8, p9);
        regrouped(a + p, p5 + p6 + p7 + p8 + p9, p10);
        regrouped(a + p, p5 + p6 + p7 + p8 + p9 + p10, p11);
        regrouped(a + p, p5 + p6 + p7 + p8 + p9 + p10 + p11, p12);
        regrouped(a + p, p5 + p6 + p7 + p8 + p9 + p10 + p11 + p12, p13);
        regrouped(a + p, p5 + p6 + p7 + p8 + p9 + p10 + p11 + p12 + p13, p14);
        regrouped(a + p, p5 + p6 + p7 + p8 + p9 + p10 + p11 + p12 + p13 + p14, p15);
        regrouped(a + p, p5 + p6 + p7 + p8 + p9 + p10 + p11 + p12 + p13 + p14 + p15, p16);
        regrouped(a + p, p5 + p6 + p7 + p8 + p9 + p10 + p11 + p12 + p13 + p14 + p15 + p16, p17);
        regrouped(a + p, p5 + p6 + p7 + p8 + p9 + p10 + p11 + p12 + p13 + p14 + p15 + p16 + p17, p18);
        assert(parted(t, a, p, b));
    }
    assert(part_of(t, p4 + p5 + p6)) by {
        let (a, p, b) = (p0 + p1 + p2 + p3, p4 + p5 + p6, p7 + p8 + p9 + p10 + p11 + p12 + p13 + p14 + p15 + p16 + p17 + p18);
        regrouped(a, p4, p5);
        regrouped(a, p4 + p5, p6);
        regrouped(a + p, p7, p8);
        regrouped(a + p, p7 + p8, p9);
        regrouped(a + p, p7 + p8 + p9, p10);
        regrouped(a + p, p7 + p8 + p9 + p10, p11);
        regrouped(a + p, p7 + p8 + p9 + p10 + p11, p12);
        regrouped(a + p, p7 + p8 + p9 + p10 + p11 + p12, p13);
        regrouped(a + p, p7 + p8 + p9 + p10 + p11 + p12 + p13, p14);
        regrouped(a + p, p7 + p8 + p9 + p10 + p11 + p12 + p13 + p14, p15);
        regrouped(a + p, p7 + p8 + p9 + p10 + p11 + p12 + p13 + p14 + p15, p16);
        regrouped(a + p, p7 + p8 + p9 + p10 + p11 + p12 + p13 + p14 + p15 + p16, p17);
        regrouped(a + p, p7 + p8 + p9 + p10 + p11 + p12 + p13 + p14 + p15 + p16 + p17, p18);
        assert(parted(t, a, p, b));
    }
    assert(part_of(t, p6 + p7 + p8)) by {
        let (a, p, b) = (p0 + p1 + p2 + p3 + p4 + p5, p6 + p7 + p8, p9 + p10 + p11 + p12 + p13 + p14 + p15 + p16 + p17 + p18);
        regrouped(a, p6, p7);
        regrouped(a, p6 + p7, p8);
        regrouped(a + p, p9, p10);
        regrouped(a + p, p9 + p10, p11);
        regrouped(a + p, p9 + p10 + p11, p12);
        regrouped(a + p, p9 + p10 + p11 + p12, p13);
        regrouped(a + p, p9 + p10 + p11 + p12 + p13, p14);
        regrouped(a + p, p9 + p10 + p11 + p12 + p13 + p14, p15);
        regrouped(a + p, p9 + p10 + p11 + p12 + p13 + p14 + p15, p16);
        regrouped(a + p, p9 + p10 + p11 + p12 + p13 + p14 + p15 + p16, p17);
        regrouped(a + p, p9 + p10 + p11 + p12 + p13 + p14 + p15 + p16 + p17, p18);
        assert(parted(t, a, p, b));
    }
    assert(part_of(t, p8 + p9 + p10)) by {
        let (a, p, b) = (p0 + p1 + p2 + p3 + p4 + p5 + p6 + p7, p8 + p9 + p10, p11 + p12 + p13 + p14 + p15 + p16 + p17 + p18);
        regrouped(a, p8, p9);
        regrouped(a, p8 + p9, p10);
        regrouped(a + p, p11, p12);
        regrouped(a + p, p11 + p12, p13);
        regrouped(a + p, p11 + p12 + p13, p14);
        regrouped(a + p, p11 + p12 + p13 + p14, p15);
        regrouped(a + p, p11 + p12 + p13 + p14 + p15, p16);
        regrouped(a + p, p11 + p12 + p13 + p14 + p15 + p16, p17);
        regrouped(a + p, p11 + p12 + p13 + p14 + p15 + p16 + p17, p18);
        assert(parted(t, a, p, b));
    }
    assert(part_of(t, p10 + p11 + p12)) by {
        let (a, p, b) = (p0 + p1 + p2 + p3 + p4 + p5 + p6 + p7 + p8 + p9, p10 + p11 + p12, p13 + p14 + p15 + p16 + p17 + p18);
        regrouped(a, p10, p11);
        regrouped(a, p10 + p11, p12);
        regrouped(a + p, p13, p14);
        regrouped(a + p, p13 + p14, p15);
        regrouped(a + p, p13 + p14 + p15, p16);
        regrouped(a + p, p13 + p14 + p15 + p16, p17);
        regrouped(a + p, p13 + p14 + p15 + p16 + p17, p18);
        assert(parted(t, a, p, b));
    }
    assert(part_of(t, p12 + p13 + p14)) by {
        let (a, p, b) = (p0 + p1 + p2 + p3 + p4 + p5 + p6 + p7 + p8 + p9 + p10 + p11, p12 + p13 + p14, p15 + p16 + p17 + p18);
        regrouped(a, p12, p13);
        regrouped(a, p12 + p13, p14);
        regrouped(a + p, p15, p16);
        regrouped(a + p, p15 + p16, p17);
        regrouped(a + p, p15 + p16 + p17, p18);
        assert(parted(t, a, p, b));
    }
    assert(part_of(t, p14 + p15 + p16)) by {
        let (a, p, b) = (p0 + p1 + p2 + p3 + p4 + p5 + p6 + p7 + p8 + p9 + p10 + p11 + p12 + p13, p14 + p15 + p16, p17 + p18);
        regrouped(a, p14, p15);
        regrouped(a, p14 + p15, p16);
        regrouped(a + p, p17, p18);
        assert(parted(t, a, p, b));
    }
    assert(part_of(t, p16 + p17 + p18)) by {
        let (a, p, b) = (p0 + p1 + p2 + p3 + p4 + p5 + p6 + p7 + p8 + p9 + p10 + p11 + p12 + p13 + p14 + p15, p16 + p17 + p18, Seq::<char>::empty());
        regrouped(a, p16, p17);
        regrouped(a, p16 + p17, p18);
        nothing_behind(a + p);
        assert(parted(t, a, p, b));
    }
}

/// What is reported of a live run: each count behind its own name.
pub proof fn live_runs_are_reported(m: MetricsView)
    ensures
        part_of(
            cli::tail_line(m),
            "[tail] streams="@ + text::decimal(m.active_streams as nat) + " queue="@,
        ),
        part_of(
            cli::tail_line(m),
            " queue="@ + text::decimal(m.queue_depth as nat) + " high_water="@,
        ),
        part_of(
            cli::tail_line(m),
            " high_water="@ + text::decimal(m.queue_high_water as nat) + " dropped="@,
        ),
        part_of(
            cli::tail_line(m),
            " dropped="@ + text::decimal(m.dropped as nat) + " reconnects="@,
        ),
        part_of(
            cli::tail_line(m),
            " reconnects="@ + text::decimal(m.reconnects as nat) + " gaps="@,
        ),
        part_of(
            cli::tail_line(m),
            " gaps="@ + text::decimal(m.coverage_gaps as nat),
        ),
{
    let t = cli::tail_line(m);
    let p0 = "[tail] streams="@;
    let p1 = text::decimal(m.active_streams as nat);
    let p2 = " queue="@;
    let p3 = text::decimal(m.queue_depth as nat);
    let p4 = " high_water="@;
    let p5 = text::decimal(m.queue_high_water as nat);
    let p6 = " dropped="@;
    let p7 = text::decimal(m.dropped as nat);
    let p8 = " reconnects="@;
    let p9 = text::decimal(m.reconnects as nat);
    let p10 = " gaps="@;
    let p11 = text::decimal(m.coverage_gaps as nat);
    assert(part_of(t, p0 + p1 + p2)) by {
        let (a, p, b) = (Seq::<char>::empty(), p0 + p1 + p2, p3 + p4 + p5 + p6 + p7 + p8 + p9 + p10 + p11);
        nothing_before(p);
        regrouped(a + p, p3, p4);
        regrouped(a + p, p3 + p4, p5);
        regrouped(a + p, p3 + p4 + p5, p6);
        regrouped(a + p, p3 + p4 + p5 + p6, p7);
        regrouped(a + p, p3 + p4 + p5 + p6 + p7, p8);
        regrouped(a + p, p3 + p4 + p5 + p6 + p7 + p8, p9);
        regrouped(a + p, p3 + p4 + p5 + p6 + p7 + p8 + p9, p10);
        regrouped(a + p, p3 + p4 + p5 + p6 + p7 + p8 + p9 + p10, p11);
        assert(parted(t, a, p, b));
    }
    assert(part_of(t, p2 + p3 + p4)) by {
        let (a, p, b) = (p0 + p1, p2 + p3 + p4, p5 + p6 + p7 + p8 + p9 + p10 + p11);
        regrouped(a, p2, p3);
        regrouped(a, p2 + p3, p4);
        regrouped(a + p, p5, p6);
        regrouped(a + p, p5 + p6, p7);
        regrouped(a + p, p5 + p6 + p7, p8);
        regrouped(a + p, p5 + p6 + p7 + p8, p9);
        regrouped(a + p, p5 + p6 + p7 + p8 + p9, p10);
        regrouped(a + p, p5 + p6 + p7 + p8 + p9 + p10, p11);
        assert(parted(t, a, p, b));
    }
    assert(part_of(t, p4 + p5 + p6)) by {
        let (a, p, b) = (p0 + p1 + p2 + p3, p4 + p5 + p6, p7 + p8 + p9 + p10 + p11);
        regrouped(a, p4, p5);
        regrouped(a, p4 + p5, p6);
        regrouped(a + p, p7, p8);
        regrouped(a + p, p7 + p8, p9);
        regrouped(a + p, p7 + p8 + p9, p10);
        regrouped(a + p, p7 + p8 + p9 + p10, p11);
        assert(parted(t, a, p, b));
    }
    assert(part_of(t, p6 + p7 + p8)) by {
        let (a, p, b) = (p0 + p1 + p2 + p3 + p4 + p5, p6 + p7 + p8, p9 + p10 + p11);
        regrouped(a, p6, p7);
        regrouped(a, p6 + p7, p8);
        regrouped(a + p, p9, p10);
        regrouped(a + p, p9 + p10, p11);
        assert(parted(t, a, p, b));
    }
    assert(part_of(t, p8 + p9 + p10)) by {
        let (a, p, b) = (p0 + p1 + p2 + p3 + p4 + p5 + p6 + p7, p8 + p9 + p10, p11);
        regrouped(a, p8, p9);
        regrouped(a, p8 + p9, p10);
        assert(parted(t, a, p, b));
    }
    assert(part_of(t, p10 + p11)) by {
        let (a, p, b) = (p0 + p1 + p2 + p3 + p4 + p5 + p6 + p7 + p8 + p9, p10 + p11, Seq::<char>::empty());
        regrouped(a, p10, p11);
        nothing_behind(a + p);
        assert(parted(t, a, p, b));
    }
}

/// What is printed of an event: how important it is, and what it says.
pub proof fn events_are_printed(e: EventView)
    ensures
        part_of(
            runtime::event_line(e),
            "["@ + writing::importance_shown(e.judgment.importance)->Text_0 + "] "@,
        ),
        part_of(
            runtime::event_line(e),
            "] "@ + events::printable(e.text),
        ),
{
    let t = runtime::event_line(e);
    let p0 = "["@;
    let p1 = writing::importance_shown(e.judgment.importance)->Text_0;
    let p2 = "] "@;
    let p3 = events::printable(e.text);
    assert(part_of(t, p0 + p1 + p2)) by {
        let (a, p, b) = (Seq::<char>::empty(), p0 + p1 + p2, p3);
        nothing_before(p);
        assert(parted(t, a, p, b));
    }
    assert(part_of(t, p2 + p3)) by {
        let (a, p, b) = (p0 + p1, p2 + p3, Seq::<char>::empty());
        regrouped(a, p2, p3);
        nothing_behind(a + p);
        assert(parted(t, a, p, b));
    }
}

/// Every incident of a list has its line, and they stand in the order of the list.
pub proof fn every_incident_is_listed(v: Seq<IncidentView>, k: int)
    requires
        0 <= k < v.len(),
    ensures
        parted(
            remote::incident_lines(v),
            remote::incident_lines(v.take(k)),
            remote::incident_line(v[k]),
            lines_behind(v, k + 1),
        ),
    decreases v.len(),
{
    let r = v.drop_last();
    let last = remote::incident_line(v.last());
    if k < r.len() {
        every_incident_is_listed(r, k);
        assert(r.take(k) =~= v.take(k));
        assert(r[k] == v[k]);
        lines_go_on(v, k + 1);
        let a = remote::incident_lines(v.take(k)) + remote::incident_line(v[k]);
        regrouped(a, lines_behind(r, k + 1), last);
    } else {
        assert(v.take(k) =~= r);
        nothing_behind(remote::incident_lines(r) + last);
    }
}

/// The lines of the incidents of a list from a place on.
pub open spec fn lines_behind(v: Seq<IncidentView>, k: int) -> Seq<char>
    decreases v.len() - k,
{
    if k < 0 || k >= v.len() {
        seq![]
    } else {
        remote::incident_line(v[k]) + lines_behind(v, k + 1)
    }
}

proof fn lines_go_on(v: Seq<IncidentView>, k: int)
    requires
        0 <= k < v.len(),
    ensures
        lines_behind(v, k) == lines_behind(v.drop_last(), k) + remote::incident_line(v.last()),
    decreases v.len() - k,
{
    let r = v.drop_last();
    let last = remote::incident_line(v.last());
    if k + 1 < v.len() {
        lines_go_on(v, k + 1);
        assert(r[k] == v[k]);
        regrouped(remote::incident_line(v[k]), lines_behind(r, k + 1), last);
    } else {
        assert(lines_behind(v, k + 1) == Seq::<char>::empty());
        assert(lines_behind(r, k) == Seq::<char>::empty());
        nothing_behind(last);
        nothing_before(last);
    }
}

proof fn listed_group(groups: Seq<GroupView>, n: nat, k: int)
    requires
        0 <= k < n,
        n <= groups.len(),
    ensures
        part_of(cli::group_lines(groups, n), cli::group_line(groups[k])),
    decreases n,
{
    let t = cli::group_lines(groups, n);
    let last = cli::group_line(groups[n - 1]);
    let before = cli::group_lines(groups, (n - 1) as nat);
    if k < n - 1 {
        listed_group(groups, (n - 1) as nat, k);
        let line = cli::group_line(groups[k]);
        let (a, b) = choose|a: Seq<char>, b: Seq<char>| #[trigger] parted(before, a, line, b);
        regrouped(a + line, b, last);
        assert(parted(t, a, line, b + last));
    } else {
        nothing_behind(before + last);
        assert(parted(t, before, last, Seq::empty()));
    }
}

/// The summary of a run has its head and a line for each of its fifteen worst groups, as far as there
/// are so many.
pub proof fn the_worst_groups_are_listed(
    r: ReportView,
    m: MetricsView,
    offline: bool,
    cost: Seq<char>,
    k: int,
)
    requires
        0 <= k < report::ordered(report::important_groups(r.events)).len(),
        k < 15,
    ensures
        ({
            let groups = report::ordered(report::important_groups(r.events));
            let t = cli::summary_text(r, m, offline, cost);
            &&& part_of(t, cli::group_line(groups[k]))
            &&& part_of(t, cli::summary_head(r, m, offline, cost))
        }),
{
    let groups = report::ordered(report::important_groups(r.events));
    let n: nat = if groups.len() < 15 {
        groups.len()
    } else {
        15
    };
    let t = cli::summary_text(r, m, offline, cost);
    let head = cli::summary_head(r, m, offline, cost);
    let lines = cli::group_lines(groups, n);
    let line = cli::group_line(groups[k]);
    assert(t == head + lines);
    listed_group(groups, n, k);
    let (a, b) = choose|a: Seq<char>, b: Seq<char>| #[trigger] parted(lines, a, line, b);
    regrouped(head, a + line, b);
    regrouped(head, a, line);
    assert(parted(t, head + a, line, b));
    nothing_before(head);
    assert(parted(t, Seq::empty(), head, lines));
}

}
