//! Answers of the health listener: no payload and no text of a log ever stands in them.
use vstd::prelude::*;

use crate::json;
use crate::json::{Json, JsonView};
use crate::report;
use crate::report::{Metrics, MetricsView};
use crate::text;
use crate::wire;

verus! {

/// The line of a field, where it is a number.
pub open spec fn metric_line(key: Seq<char>, v: JsonView) -> Seq<char> {
    match v {
        JsonView::Number(_) => "jevernetes_"@ + key + " "@ + json::json_text(v) + "\n"@,
        _ => seq![],
    }
}

/// The lines of fields, one by one.
pub open spec fn metric_lines(fields: Seq<(Seq<char>, JsonView)>) -> Seq<char>
    decreases fields.len(),
{
    if fields.len() == 0 {
        seq![]
    } else {
        metric_lines(fields.drop_last()) + metric_line(fields.last().0, fields.last().1)
    }
}

/// The counts as text.
pub open spec fn metrics_text(m: MetricsView, ready: bool) -> Seq<char> {
    metric_lines(report::metrics_fields(m)) + "jevernetes_state_ready "@ + (if ready {
        "1\n"@
    } else {
        "0\n"@
    }) + "jevernetes_coverage_complete 0\n"@
}

/// The counts as text. Coverage is never claimed to be complete.
pub fn write_metrics(metrics: &Metrics, ready: bool) -> (r: String)
    ensures
        r@ == metrics_text(metrics@, ready),
{
    broadcast use {json::view_of_list, json::view_of_object};

    let mut out = String::new();
    let value = metrics.json();
    let ghost all = report::metrics_fields(metrics@);
    if let Json::Object(fields) = &value {
        assert(json::fields_view(fields@) == all);
        let mut i: usize = 0;
        assert(all.take(0) =~= seq![]);
        assert(out@ =~= metric_lines(all.take(0)));
        while i < fields.len()
            invariant
                json::fields_view(fields@) == all,
                i <= fields@.len(),
                out@ == metric_lines(all.take(i as int)),
            decreases fields@.len() - i,
        {
            let ghost before = out@;
            assert(all[i as int] == (fields@[i as int].0@, fields@[i as int].1@));
            assert(all.take(i + 1).drop_last() =~= all.take(i as int));
            assert(all.take(i + 1).last() == all[i as int]);
            if let Json::Number(_) = &fields[i].1 {
                let v = fields[i].1.text();
                out.append("jevernetes_");
                out.append(fields[i].0.as_str());
                out.append(" ");
                out.append(v.as_str());
                out.append("\n");
            }
            assert(out@ =~= before + metric_line(all[i as int].0, all[i as int].1));
            i += 1;
        }
        assert(all.take(i as int) =~= all);
    }
    out.append("jevernetes_state_ready ");
    if ready {
        out.append("1\n");
    } else {
        out.append("0\n");
    }
    out.append("jevernetes_coverage_complete 0\n");
    out
}

/// The answer to a request: a status and a text.
pub open spec fn answered(request: Seq<char>, ready: bool, metrics: MetricsView) -> (
    u16,
    Seq<char>,
) {
    if "GET /livez HTTP/1."@.is_prefix_of(request) {
        (200, "live\n"@)
    } else if "GET /readyz HTTP/1."@.is_prefix_of(request) {
        if ready {
            (200, "ready\n"@)
        } else {
            (503, "collection stopped or state unavailable\n"@)
        }
    } else if "GET /metrics HTTP/1."@.is_prefix_of(request) {
        (200, metrics_text(metrics, ready))
    } else {
        (404, "not found\n"@)
    }
}

/// The answer to a request, by how its text begins.
pub fn answer(request: &str, ready: bool, metrics: &Metrics) -> (r: (u16, String))
    ensures
        (r.0, r.1@) == answered(request@, ready, metrics@),
{
    if text::starts_with(request, "GET /livez HTTP/1.") {
        (200, "live\n".to_owned())
    } else if text::starts_with(request, "GET /readyz HTTP/1.") {
        if ready {
            (200, "ready\n".to_owned())
        } else {
            (503, "collection stopped or state unavailable\n".to_owned())
        }
    } else if text::starts_with(request, "GET /metrics HTTP/1.") {
        (200, write_metrics(metrics, ready))
    } else {
        (404, "not found\n".to_owned())
    }
}

pub const HEADERS: &'static str = "Content-Type: text/plain; version=0.0.4\r\n";

/// The whole reply to the bytes of a request.
pub fn respond(request: &[u8], ready: bool, metrics: &Metrics) -> (r: String)
    ensures
        ({
            let (status, body) = answered(text::lossy(request@), ready, metrics@);
            r@ == wire::reply_head(status, HEADERS@, text::utf8_len(body)) + body
        }),
{
    let asked = text::lossy_text(request);
    let (status, body) = answer(asked.as_str(), ready, metrics);
    wire::reply(status, HEADERS, body.as_str())
}

}
