//! What is shown holds no control characters but line ends, as far as the texts in it hold none.
use vstd::prelude::*;

use crate::controller::inspect::IncidentView;
use crate::events;
use crate::exact;
use crate::json;
use crate::json::JsonView;
use crate::remote;
use crate::remote::{Response, SnapshotView};
use crate::text;

verus! {

/// A character that moves no cursor: none of the control characters below U+0020, and none of
/// those from U+007F to U+009F unless they are let pass.
pub open spec fn ink(c: char, lenient: bool) -> bool {
    c as u32 >= 0x20 && (lenient || !text::control(c))
}

/// Whether a text is one line of such characters.
pub open spec fn one_line(t: Seq<char>, lenient: bool) -> bool {
    forall|i: int| 0 <= i < t.len() ==> ink(#[trigger] t[i], lenient)
}

/// Whether a text is made of such characters and line ends.
pub open spec fn calm(t: Seq<char>, lenient: bool) -> bool {
    forall|i: int| 0 <= i < t.len() ==> (#[trigger] t[i] == '\n' || ink(t[i], lenient))
}

/// Whether a text holds none of the control characters from U+007F to U+009F.
pub open spec fn mild_text(t: Seq<char>) -> bool {
    forall|i: int| 0 <= i < t.len() ==> !(0x7f <= #[trigger] t[i] as u32 <= 0x9f)
}

/// Whether no key and no text in a value holds one of the control characters from U+007F to U+009F.
pub open spec fn mild(v: JsonView) -> bool
    decreases v,
{
    match v {
        JsonView::Text(s) => mild_text(s),
        JsonView::List(items) => forall|i: int| 0 <= i < items.len() ==> mild(#[trigger] items[i]),
        JsonView::Object(fields) => forall|i: int|
            0 <= i < fields.len() ==> mild_text((#[trigger] fields[i]).0) && mild(fields[i].1),
        _ => true,
    }
}

proof fn escapes_are_ink(s: Seq<char>, lenient: bool)
    requires
        lenient || mild_text(s),
    ensures
        one_line(json::escaped_all(s), lenient),
    decreases s.len(),
{
    if s.len() > 0 {
        let p = s.drop_last();
        assert(mild_text(s) ==> mild_text(p)) by {
            assert forall|i: int| mild_text(s) && 0 <= i < p.len() implies !(0x7f
                <= #[trigger] p[i] as u32 <= 0x9f) by {
                assert(p[i] == s[i]);
            }
        }
        escapes_are_ink(p, lenient);
        let c = s.last();
        assert(c == s[s.len() - 1]);
        let e = json::escaped(c);
        assert(one_line(e, lenient));
        let t = json::escaped_all(s);
        assert forall|i: int| 0 <= i < t.len() implies ink(#[trigger] t[i], lenient) by {
            let n = json::escaped_all(p).len();
            if i < n {
                assert(t[i] == json::escaped_all(p)[i]);
            } else {
                assert(t[i] == e[i - n]);
            }
        }
    }
}

/// The compact JSON text of a value is one line.
pub proof fn compact_json_is_one_line(v: JsonView, lenient: bool)
    requires
        exact::written(v),
        lenient || mild(v),
    ensures
        one_line(json::json_text(v), lenient),
    decreases v,
{
    reveal_strlit("null");
    reveal_strlit("true");
    reveal_strlit("false");
    match v {
        JsonView::Null => {
            let t = "null"@;
            assert forall|i: int| 0 <= i < t.len() implies ink(#[trigger] t[i], lenient) by {
                assert(i == 0 || i == 1 || i == 2 || i == 3);
            }
        },
        JsonView::Bool(b) => {
            let t = json::json_text(v);
            assert forall|i: int| 0 <= i < t.len() implies ink(#[trigger] t[i], lenient) by {
                assert(i == 0 || i == 1 || i == 2 || i == 3 || i == 4);
            }
        },
        JsonView::Number(n) => {},
        JsonView::Text(s) => {
            escapes_are_ink(s, lenient);
        },
        JsonView::List(items) => {
            items_are_one_line(items, lenient);
        },
        JsonView::Object(fields) => {
            fields_are_one_line(fields, lenient);
        },
    }
}

proof fn items_are_one_line(items: Seq<JsonView>, lenient: bool)
    requires
        forall|i: int| 0 <= i < items.len() ==> exact::written(#[trigger] items[i]),
        lenient || forall|i: int| 0 <= i < items.len() ==> mild(#[trigger] items[i]),
    ensures
        one_line(json::items_text(items), lenient),
    decreases items,
{
    if items.len() > 0 {
        compact_json_is_one_line(items.last(), lenient);
        items_are_one_line(items.drop_last(), lenient);
    }
}

proof fn fields_are_one_line(fields: Seq<(Seq<char>, JsonView)>, lenient: bool)
    requires
        forall|i: int| 0 <= i < fields.len() ==> exact::written((#[trigger] fields[i]).1),
        lenient || forall|i: int|
            0 <= i < fields.len() ==> mild_text((#[trigger] fields[i]).0) && mild(fields[i].1),
    ensures
        one_line(json::fields_text(fields), lenient),
    decreases fields,
{
    if fields.len() > 0 {
        compact_json_is_one_line(fields.last().1, lenient);
        escapes_are_ink(fields.last().0, lenient);
        fields_are_one_line(fields.drop_last(), lenient);
    }
}

/// The JSON text of a value over several lines holds no control character but line ends.
pub proof fn pretty_json_is_calm(v: JsonView, lenient: bool)
    requires
        exact::written(v),
        lenient || mild(v),
    ensures
        calm(json::pretty_json(v), lenient),
{
    spread_is_calm(v, seq![], lenient);
}

proof fn spread_is_calm(v: JsonView, pad: Seq<char>, lenient: bool)
    requires
        exact::written(v),
        lenient || mild(v),
        one_line(pad, lenient),
    ensures
        calm(json::spread_text(v, pad), lenient),
    decreases v,
{
    reveal_strlit("  ");
    assert(one_line(pad + "  "@, lenient));
    match v {
        JsonView::List(items) => {
            spread_items_are_calm(items, pad + "  "@, lenient);
        },
        JsonView::Object(fields) => {
            spread_fields_are_calm(fields, pad + "  "@, lenient);
        },
        _ => {
            compact_json_is_one_line(v, lenient);
        },
    }
}

proof fn spread_items_are_calm(items: Seq<JsonView>, pad: Seq<char>, lenient: bool)
    requires
        forall|i: int| 0 <= i < items.len() ==> exact::written(#[trigger] items[i]),
        lenient || forall|i: int| 0 <= i < items.len() ==> mild(#[trigger] items[i]),
        one_line(pad, lenient),
    ensures
        calm(json::spread_items(items, pad), lenient),
    decreases items,
{
    if items.len() > 0 {
        spread_is_calm(items.last(), pad, lenient);
        spread_items_are_calm(items.drop_last(), pad, lenient);
    }
}

proof fn spread_fields_are_calm(
    fields: Seq<(Seq<char>, JsonView)>,
    pad: Seq<char>,
    lenient: bool,
)
    requires
        forall|i: int| 0 <= i < fields.len() ==> exact::written((#[trigger] fields[i]).1),
        lenient || forall|i: int|
            0 <= i < fields.len() ==> mild_text((#[trigger] fields[i]).0) && mild(fields[i].1),
        one_line(pad, lenient),
    ensures
        calm(json::spread_fields(fields, pad), lenient),
    decreases fields,
{
    if fields.len() > 0 {
        spread_is_calm(fields.last().1, pad, lenient);
        escapes_are_ink(fields.last().0, lenient);
        spread_fields_are_calm(fields.drop_last(), pad, lenient);
    }
}

/// Whether a text is calm from a place on.
spec fn calm_from(t: Seq<char>, i: int, lenient: bool) -> bool
    decreases t.len() - i,
{
    i >= t.len() || ((t[i] == '\n' || ink(t[i], lenient)) && calm_from(t, i + 1, lenient))
}

proof fn calm_throughout(t: Seq<char>, i: int, lenient: bool)
    requires
        0 <= i <= t.len(),
        calm_from(t, i, lenient),
    ensures
        forall|k: int| i <= k < t.len() ==> (#[trigger] t[k] == '\n' || ink(t[k], lenient)),
    decreases t.len() - i,
{
    if i < t.len() {
        calm_throughout(t, i + 1, lenient);
    }
}

broadcast proof fn calm_joined(a: Seq<char>, b: Seq<char>, lenient: bool)
    requires
        calm(a, lenient),
        calm(b, lenient),
    ensures
        #[trigger] calm(a + b, lenient),
{
    let t = a + b;
    assert forall|i: int| 0 <= i < t.len() implies (#[trigger] t[i] == '\n' || ink(t[i], lenient)) by {
        if i < a.len() {
            assert(t[i] == a[i]);
        } else {
            assert(t[i] == b[i - a.len()]);
        }
    }
}

proof fn labels_are_calm(lenient: bool)
    ensures
        calm("Logs: "@, lenient),
        calm(" received | "@, lenient),
        calm(" streams | queue "@, lenient),
        calm(" | "@, lenient),
        calm(" dropped | "@, lenient),
        calm(" coverage gaps\n"@, lenient),
        calm("Verdicts: "@, lenient),
        calm(" reused | "@, lenient),
        calm(" misses | "@, lenient),
        calm(" replay duplicates\n"@, lenient),
        calm("Policy: "@, lenient),
        calm(" notify | "@, lenient),
        calm(" review | "@, lenient),
        calm(" abstain | "@, lenient),
        calm(" ignore\n"@, lenient),
        calm("Delivery: "@, lenient),
        calm(" pending | "@, lenient),
        calm(" dead | "@, lenient),
{
    reveal_with_fuel(calm_from, 30);
    reveal_strlit("Logs: ");
    calm_throughout("Logs: "@, 0, lenient);
    reveal_strlit(" received | ");
    calm_throughout(" received | "@, 0, lenient);
    reveal_strlit(" streams | queue ");
    calm_throughout(" streams | queue "@, 0, lenient);
    reveal_strlit(" | ");
    calm_throughout(" | "@, 0, lenient);
    reveal_strlit(" dropped | ");
    calm_throughout(" dropped | "@, 0, lenient);
    reveal_strlit(" coverage gaps\n");
    calm_throughout(" coverage gaps\n"@, 0, lenient);
    reveal_strlit("Verdicts: ");
    calm_throughout("Verdicts: "@, 0, lenient);
    reveal_strlit(" reused | ");
    calm_throughout(" reused | "@, 0, lenient);
    reveal_strlit(" misses | ");
    calm_throughout(" misses | "@, 0, lenient);
    reveal_strlit(" replay duplicates\n");
    calm_throughout(" replay duplicates\n"@, 0, lenient);
    reveal_strlit("Policy: ");
    calm_throughout("Policy: "@, 0, lenient);
    reveal_strlit(" notify | ");
    calm_throughout(" notify | "@, 0, lenient);
    reveal_strlit(" review | ");
    calm_throughout(" review | "@, 0, lenient);
    reveal_strlit(" abstain | ");
    calm_throughout(" abstain | "@, 0, lenient);
    reveal_strlit(" ignore\n");
    calm_throughout(" ignore\n"@, 0, lenient);
    reveal_strlit("Delivery: ");
    calm_throughout("Delivery: "@, 0, lenient);
    reveal_strlit(" pending | ");
    calm_throughout(" pending | "@, 0, lenient);
    reveal_strlit(" dead | ");
    calm_throughout(" dead | "@, 0, lenient);
}

proof fn other_labels_are_calm(lenient: bool)
    ensures
        calm(" delivered | "@, lenient),
        calm(" failures\n"@, lenient),
        calm("Provider: "@, lenient),
        calm(" batches | estimated $"@, lenient),
        calm(" unmetered requests\n"@, lenient),
        calm("State: "@, lenient),
        calm(" incidents | "@, lenient),
        calm("Controller: "@, lenient),
        calm("ready"@, lenient),
        calm("NOT READY"@, lenient),
        calm(" | sampled at "@, lenient),
        calm(" | coverage partial\n"@, lenient),
        calm("\n"@, lenient),
        calm("Incident "@, lenient),
        calm(" | count "@, lenient),
        calm(" | level "@, lenient),
        calm(" | notification sequence "@, lenient),
        calm(" | attempts "@, lenient),
{
    reveal_with_fuel(calm_from, 30);
    reveal_strlit(" delivered | ");
    calm_throughout(" delivered | "@, 0, lenient);
    reveal_strlit(" failures\n");
    calm_throughout(" failures\n"@, 0, lenient);
    reveal_strlit("Provider: ");
    calm_throughout("Provider: "@, 0, lenient);
    reveal_strlit(" batches | estimated $");
    calm_throughout(" batches | estimated $"@, 0, lenient);
    reveal_strlit(" unmetered requests\n");
    calm_throughout(" unmetered requests\n"@, 0, lenient);
    reveal_strlit("State: ");
    calm_throughout("State: "@, 0, lenient);
    reveal_strlit(" incidents | ");
    calm_throughout(" incidents | "@, 0, lenient);
    reveal_strlit("Controller: ");
    calm_throughout("Controller: "@, 0, lenient);
    reveal_strlit("ready");
    calm_throughout("ready"@, 0, lenient);
    reveal_strlit("NOT READY");
    calm_throughout("NOT READY"@, 0, lenient);
    reveal_strlit(" | sampled at ");
    calm_throughout(" | sampled at "@, 0, lenient);
    reveal_strlit(" | coverage partial\n");
    calm_throughout(" | coverage partial\n"@, 0, lenient);
    reveal_strlit("\n");
    calm_throughout("\n"@, 0, lenient);
    reveal_strlit("Incident ");
    calm_throughout("Incident "@, 0, lenient);
    reveal_strlit(" | count ");
    calm_throughout(" | count "@, 0, lenient);
    reveal_strlit(" | level ");
    calm_throughout(" | level "@, 0, lenient);
    reveal_strlit(" | notification sequence ");
    calm_throughout(" | notification sequence "@, 0, lenient);
    reveal_strlit(" | attempts ");
    calm_throughout(" | attempts "@, 0, lenient);
}

proof fn sentences_are_calm(lenient: bool)
    ensures
        calm("Recent incidents (ID | decision | count | level | sequence):\n"@, lenient),
        calm("Use --incident ID for retained evidence and delivery details.\n"@, lenient),
        calm("Last enqueued notification (may precede the latest observation):\n"@, lenient),
        calm("Notification evidence is no longer retained. Incident counters remain durable.\n"@, lenient),
{
    reveal_with_fuel(calm_from, 90);
    reveal_strlit("Recent incidents (ID | decision | count | level | sequence):\n");
    calm_throughout("Recent incidents (ID | decision | count | level | sequence):\n"@, 0, lenient);
    reveal_strlit("Use --incident ID for retained evidence and delivery details.\n");
    calm_throughout("Use --incident ID for retained evidence and delivery details.\n"@, 0, lenient);
    reveal_strlit("Last enqueued notification (may precede the latest observation):\n");
    calm_throughout("Last enqueued notification (may precede the latest observation):\n"@, 0, lenient);
    reveal_strlit("Notification evidence is no longer retained. Incident counters remain durable.\n");
    calm_throughout("Notification evidence is no longer retained. Incident counters remain durable.\n"@, 0, lenient);
}

proof fn numbers_are_calm(n: int, lenient: bool)
    ensures
        calm(text::signed_decimal(n), lenient),
        n >= 0 ==> calm(text::decimal(n as nat), lenient),
{
    exact::integers_are_exact(n, n);
    let t = text::signed_decimal(n);
    assert(exact::numeral(t));
}

proof fn names_are_calm(t: Seq<char>, lenient: bool)
    ensures
        calm(events::printable(t), lenient),
{
    events::printing_is_settled(t);
}

proof fn found_values_are_calm(
    fields: Seq<(Seq<char>, JsonView)>,
    key: Seq<char>,
    lenient: bool,
)
    requires
        forall|i: int| 0 <= i < fields.len() ==> exact::written((#[trigger] fields[i]).1),
        lenient || forall|i: int| 0 <= i < fields.len() ==> mild((#[trigger] fields[i]).1),
    ensures
        json::lookup(fields, key) matches Some(v) ==> exact::written(v) && (lenient || mild(v)),
    decreases fields.len(),
{
    if fields.len() > 0 {
        assert(exact::written(fields[0].1));
        let rest = fields.drop_first();
        assert forall|i: int| 0 <= i < rest.len() implies exact::written((#[trigger] rest[i]).1) && (
        lenient || mild(rest[i].1)) by {
            assert(rest[i] == fields[i + 1]);
        }
        found_values_are_calm(rest, key, lenient);
    }
}

proof fn counts_are_calm(m: JsonView, key: Seq<char>, lenient: bool)
    requires
        exact::written(m),
        lenient || mild(m),
    ensures
        calm(remote::metric(m, key), lenient),
{
    match m {
        JsonView::Object(fields) => {
            found_values_are_calm(fields, key, lenient);
        },
        _ => {},
    }
    match json::field(m, key) {
        Some(v) => {
            compact_json_is_one_line(v, lenient);
        },
        None => {
            compact_json_is_one_line(JsonView::Null, lenient);
        },
    }
}

proof fn logs_are_calm(m: JsonView, lenient: bool)
    requires
        exact::written(m),
        lenient || mild(m),
    ensures
        calm(remote::logs_line(m), lenient),
{
    broadcast use calm_joined;

    labels_are_calm(lenient);
    other_labels_are_calm(lenient);
    counts_are_calm(m, "received"@, lenient);
    counts_are_calm(m, "active_streams"@, lenient);
    counts_are_calm(m, "queue_depth"@, lenient);
    counts_are_calm(m, "dropped"@, lenient);
    counts_are_calm(m, "coverage_gaps"@, lenient);
}

proof fn verdicts_are_calm(m: JsonView, lenient: bool)
    requires
        exact::written(m),
        lenient || mild(m),
    ensures
        calm(remote::verdicts_line(m), lenient),
{
    broadcast use calm_joined;

    labels_are_calm(lenient);
    other_labels_are_calm(lenient);
    counts_are_calm(m, "verdict_hits"@, lenient);
    counts_are_calm(m, "verdict_misses"@, lenient);
    counts_are_calm(m, "novelty_duplicates"@, lenient);
}

proof fn policies_are_calm(m: JsonView, lenient: bool)
    requires
        exact::written(m),
        lenient || mild(m),
    ensures
        calm(remote::policy_line(m), lenient),
{
    broadcast use calm_joined;

    labels_are_calm(lenient);
    other_labels_are_calm(lenient);
    counts_are_calm(m, "policy_notify"@, lenient);
    counts_are_calm(m, "policy_review"@, lenient);
    counts_are_calm(m, "policy_abstain"@, lenient);
    counts_are_calm(m, "policy_ignore"@, lenient);
}

proof fn providers_are_calm(m: JsonView, lenient: bool)
    requires
        exact::written(m),
        lenient || mild(m),
    ensures
        calm(remote::provider_line(m), lenient),
{
    broadcast use calm_joined;

    labels_are_calm(lenient);
    other_labels_are_calm(lenient);
    counts_are_calm(m, "provider_batches"@, lenient);
    counts_are_calm(m, "estimated_cost_usd"@, lenient);
    counts_are_calm(m, "provider_unmetered_requests"@, lenient);
}

proof fn states_are_calm(s: SnapshotView, lenient: bool)
    requires
        exact::written(s.metrics),
        lenient || mild(s.metrics),
    ensures
        calm(remote::controller_line(s), lenient),
        calm(remote::deliveries_line(s), lenient),
        calm(remote::state_line(s), lenient),
{
    broadcast use calm_joined;

    labels_are_calm(lenient);
    other_labels_are_calm(lenient);
    numbers_are_calm(s.sampled_at as int, lenient);
    numbers_are_calm(s.outbox_pending as int, lenient);
    numbers_are_calm(s.outbox_dead as int, lenient);
    numbers_are_calm(s.incident_count as int, lenient);
    counts_are_calm(s.metrics, "notification_delivered"@, lenient);
    counts_are_calm(s.metrics, "notification_failures"@, lenient);
    counts_are_calm(s.metrics, "store_failures"@, lenient);
}

proof fn incidents_are_calm(i: IncidentView, lenient: bool)
    ensures
        calm(remote::incident_line(i), lenient),
        calm(remote::title_line(i), lenient),
{
    broadcast use calm_joined;

    labels_are_calm(lenient);
    other_labels_are_calm(lenient);
    names_are_calm(i.id, lenient);
    names_are_calm("unknown"@, lenient);
    match i.last_decision {
        Some(d) => {
            names_are_calm(d, lenient);
        },
        None => {},
    }
    numbers_are_calm(i.recurrence_count as int, lenient);
    numbers_are_calm(i.escalation_level as int, lenient);
    numbers_are_calm(i.notification_sequence as int, lenient);
}

proof fn lists_are_calm(v: Seq<IncidentView>, lenient: bool)
    ensures
        calm(remote::incident_lines(v), lenient),
    decreases v.len(),
{
    broadcast use calm_joined;

    if v.len() > 0 {
        lists_are_calm(v.drop_last(), lenient);
        incidents_are_calm(v.last(), lenient);
    }
}

/// The JSON values that are shown of a response.
pub open spec fn values_shown(r: Response) -> Seq<JsonView> {
    match r {
        Response::Status(s) => seq![s@.metrics],
        Response::Incident(d) => match d.last_notification {
            Some(n) => seq![n@],
            None => seq![],
        },
    }
}

/// Whatever a controller responds, what is shown of it holds no control character but line ends
/// and those from U+007F to U+009F, so no escape sequence; where the JSON values that are shown
/// hold none of the latter, it holds no control character but line ends.
pub proof fn what_is_rendered_is_calm(r: Response)
    requires
        forall|i: int|
            0 <= i < values_shown(r).len() ==> exact::written(#[trigger] values_shown(r)[i]),
    ensures
        remote::rendered(r) matches Ok(t) ==> calm(t, true),
        (forall|i: int| 0 <= i < values_shown(r).len() ==> mild(#[trigger] values_shown(r)[i]))
            ==> (remote::rendered(r) matches Ok(t) ==> calm(t, false)),
{
    rendered_is_calm(r, true);
    if forall|i: int| 0 <= i < values_shown(r).len() ==> mild(#[trigger] values_shown(r)[i]) {
        rendered_is_calm(r, false);
    }
}

proof fn rendered_is_calm(r: Response, lenient: bool)
    requires
        forall|i: int|
            0 <= i < values_shown(r).len() ==> exact::written(#[trigger] values_shown(r)[i]),
        lenient || forall|i: int|
            0 <= i < values_shown(r).len() ==> mild(#[trigger] values_shown(r)[i]),
    ensures
        remote::rendered(r) matches Ok(t) ==> calm(t, lenient),
{
    broadcast use calm_joined;

    labels_are_calm(lenient);
    other_labels_are_calm(lenient);
    sentences_are_calm(lenient);
    match r {
        Response::Status(s) => {
            let v = s@;
            assert(values_shown(r)[0] == v.metrics);
            states_are_calm(v, lenient);
            logs_are_calm(v.metrics, lenient);
            verdicts_are_calm(v.metrics, lenient);
            policies_are_calm(v.metrics, lenient);
            providers_are_calm(v.metrics, lenient);
            lists_are_calm(v.recent_incidents, lenient);
            assert(calm(remote::status_shown(v), lenient));
        },
        Response::Incident(d) => {
            incidents_are_calm(d.incident@, lenient);
            names_are_calm("not retained"@, lenient);
            let status = text::optional_view(d.delivery_status);
            match status {
                Some(x) => {
                    names_are_calm(x, lenient);
                },
                None => {},
            }
            numbers_are_calm(remote::attempts_shown(d.delivery_attempts) as int, lenient);
            assert(calm(remote::delivery_line(status, d.delivery_attempts), lenient));
            match d.last_notification {
                Some(n) => {
                    assert(values_shown(r)[0] == n@);
                    pretty_json_is_calm(n@, lenient);
                },
                None => {},
            }
            assert(calm(remote::evidence_shown(remote::value_view(d.last_notification)), lenient));
        },
    }
}

}
