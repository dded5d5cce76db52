//! Inspection of a running controller through its cluster; no analysis takes place here.
use vstd::prelude::*;

use crate::controller::inspect;
use crate::controller::inspect::{Detail, Incident, IncidentView, Snapshot};
use crate::events;
use crate::json;
use crate::json::{Fields, Json, JsonView};
use crate::kubernetes::Options;
use crate::text;
use crate::wire;

verus! {

/// Which controller is inspected, and how.
pub struct Args {
    pub context: Option<String>,
    pub namespace: String,
    /// The exact pod. Without it one running pod is chosen by its labels.
    pub pod: Option<String>,
    pub selector: Option<String>,
    pub port: u16,
    /// The incident whose evidence, judgment and delivery are shown.
    pub incident: Option<String>,
    pub watch: bool,
    pub interval: u64,
}

/// The labels of a controller's pod, where none are given.
pub const SELECTOR: &'static str = "app=jevernetes";

/// How a controller's pod is found.
pub enum Search {
    /// By its name.
    Named(String),
    /// As the one running pod with these labels.
    Labelled(String),
}

impl Args {
    /// How the controller's pod is found.
    pub fn search(&self) -> (r: Search)
        ensures
            match r {
                Search::Named(name) => text::optional_view(self.pod) == Some(name@),
                Search::Labelled(labels) => self.pod is None && labels@ == (match self.selector {
                    Some(s) => s@,
                    None => SELECTOR@,
                }),
            },
    {
        match &self.pod {
            Some(name) => Search::Named(name.clone()),
            None => match &self.selector {
                Some(s) => Search::Labelled(s.clone()),
                None => Search::Labelled(SELECTOR.to_owned()),
            },
        }
    }

    /// How the cluster is reached. No log is read.
    pub fn options(&self) -> (r: Options)
        ensures
            text::optional_view(r.context) == text::optional_view(self.context),
            text::optional_view(r.namespace) == Some(self.namespace@),
            r.selector is None,
            r.since == 0,
            r.tail == 0,
            r.max_bytes == 1,
            r.max_streams == 1,
            !r.previous,
            !r.in_cluster,
    {
        Options {
            context: text::clone_optional(&self.context),
            namespace: Some(self.namespace.clone()),
            selector: None,
            since: 0,
            tail: 0,
            max_bytes: 1,
            max_streams: 1,
            previous: false,
            in_cluster: false,
        }
    }

    /// The path that is asked for.
    pub fn path(&self) -> (r: String)
        ensures
            r@ == (match self.incident {
                Some(id) => "/v1/incidents/"@ + id@,
                None => "/v1/status"@,
            }),
    {
        match &self.incident {
            Some(id) => {
                let mut r = "/v1/incidents/".to_owned();
                r.append(id.as_str());
                r
            },
            None => "/v1/status".to_owned(),
        }
    }
}

/// Reads the name of an incident, without regard to case.
pub fn incident_id(value: &str) -> (r: Result<String, &'static str>)
    ensures
        match r {
            Ok(id) => inspect::id_allowed(value@) && id@ == text::ascii_lowered(value@),
            Err(e) => !inspect::id_allowed(value@) && e@
                == "Incident ID must contain exactly 64 hexadecimal characters"@,
        },
{
    if inspect::valid_id(value) {
        Ok(text::ascii_lowercase(value))
    } else {
        Err("Incident ID must contain exactly 64 hexadecimal characters")
    }
}

/// Whether an incident can be asked for by what was read as its name: the controller's own reading
/// of the path finds the same incident.
pub proof fn names_are_understood(value: Seq<char>)
    requires
        inspect::id_allowed(value),
    ensures
        inspect::route_of("/v1/incidents/"@ + text::ascii_lowered(value))
            == inspect::RouteView::Incident(text::ascii_lowered(value)),
{
    let low = text::ascii_lowered(value);
    let prefix = "/v1/incidents/"@;
    let path = prefix + low;
    reveal_strlit("/v1/incidents/");
    reveal_strlit("/v1/status");
    assert(path.len() == 14 + 64);
    assert("/v1/status"@.len() == 10);
    assert(prefix.is_prefix_of(path));
    assert(path.skip(prefix.len() as int) =~= low);
    assert forall|i: int| 0 <= i < low.len() implies text::ascii_hex(#[trigger] low[i]) && text::ascii_lower(low[i])
        == low[i] by {
        assert(text::ascii_hex(value[i]));
        lower_hex(value[i]);
    }
    assert(text::ascii_lowered(low) =~= low);
}

proof fn lower_hex(c: char)
    requires
        text::ascii_hex(c),
    ensures
        text::ascii_hex(text::ascii_lower(c)),
        text::ascii_lower(text::ascii_lower(c)) == text::ascii_lower(c),
{
}

/// The text of a request.
pub open spec fn request_text(path: Seq<char>) -> Seq<char> {
    "GET "@ + path + " HTTP/1.1\r\nHost: localhost\r\nConnection: close\r\n\r\n"@
}

/// Writes a request.
pub fn write_request(path: &str) -> (r: String)
    ensures
        r@ == request_text(path@),
{
    let mut r = "GET ".to_owned();
    r.append(path);
    r.append(" HTTP/1.1\r\nHost: localhost\r\nConnection: close\r\n\r\n");
    r
}

/// The most bytes of a response's header.
pub const MAX_HEADER: usize = 8192;

/// The most bytes that are read of a response: one more than may be used.
pub const MAX_READ: usize = 270_337;

/// The values of a header: of each line behind the first, in order, whose name is that of a length,
/// the length that it states, if it states one.
pub open spec fn lengths(lines: Seq<Seq<char>>) -> Seq<Option<nat>>
    decreases lines.len(),
{
    if lines.len() == 0 {
        seq![]
    } else {
        let rest = lengths(lines.drop_last());
        match text::parted(lines.last(), ':') {
            Some((name, value)) => if text::ascii_lowered(name) == "content-length"@ {
                rest.push(text::unsigned_number(text::trimmed(value), u64::MAX as nat))
            } else {
                rest
            },
            None => rest,
        }
    }
}

/// Whether a line has a name, without regard to case.
pub open spec fn is_named(line: Seq<char>, name: Seq<char>) -> bool {
    match text::parted(line, ':') {
        Some((n, _)) => text::ascii_lowered(n) == name,
        None => false,
    }
}

/// Whether a line states that the body is transferred in an encoded form.
pub open spec fn encoded(lines: Seq<Seq<char>>) -> bool {
    exists|i: int| 0 <= i < lines.len() && is_named(#[trigger] lines[i], "transfer-encoding"@)
}

/// Whether a value is the number one.
pub open spec fn is_one(v: Option<JsonView>) -> bool {
    match v {
        Some(JsonView::Number(n)) => n.signed == Some(1i64),
        _ => false,
    }
}

/// What is wrong with the status of a response.
pub open spec fn status_error(words: Seq<Seq<char>>) -> Option<Seq<char>> {
    if words.len() < 2 {
        Some("Controller inspection request failed"@)
    } else if words[1] == "200"@ {
        None
    } else if words[1] == "404"@ {
        Some(
            "Inspection endpoint or incident not found; check controller version and incident ID"@,
        )
    } else if words[1] == "503"@ {
        Some("Controller inspection busy or unavailable; retry shortly"@)
    } else {
        Some("Controller inspection request failed"@)
    }
}

/// What is wrong with the lines of a header and the body behind it.
pub open spec fn framing_error(lines: Seq<Seq<char>>, body: Seq<u8>) -> Option<Seq<char>> {
    if body.len() > inspect::MAX_RESPONSE {
        Some("Controller response exceeds limit"@)
    } else if lengths(lines.drop_first()) != seq![Some(body.len())] || encoded(lines) {
        Some("Incomplete or unsupported controller response"@)
    } else {
        None
    }
}

/// What a body says: JSON with a schema that is understood.
pub open spec fn read_body(body: Seq<u8>) -> Result<JsonView, Seq<char>> {
    match json::parsed(body) {
        None => Err("Invalid controller JSON"@),
        Some(v) => if is_one(json::field(v, "schema"@)) {
            Ok(v)
        } else {
            Err("Unsupported controller inspection schema"@)
        },
    }
}

/// What a response says: its header ends early enough, is text, reports success, and states once
/// the length of exactly the body that was received.
pub open spec fn decoded(bytes: Seq<u8>) -> Result<JsonView, Seq<char>> {
    match wire::header_at(bytes) {
        None => Err("Invalid controller HTTP response"@),
        Some(n) => if n > MAX_HEADER {
            Err("Invalid controller HTTP response"@)
        } else if !vstd::utf8::valid_utf8(bytes.take(n)) {
            Err("Invalid controller HTTP headers"@)
        } else {
            let lines = text::lines(vstd::utf8::decode_utf8(bytes.take(n)));
            let body = bytes.skip(n + 4);
            match status_error(text::words(lines[0])) {
                Some(e) => Err(e),
                None => match framing_error(lines, body) {
                    Some(e) => Err(e),
                    None => read_body(body),
                },
            }
        },
    }
}

/// Nothing is accepted of a controller but a whole body of the stated length, within the limit, with
/// a known schema.
pub proof fn only_whole_responses_are_accepted(bytes: Seq<u8>)
    ensures
        decoded(bytes) matches Ok(v) ==> wire::header_at(bytes) matches Some(n) && n <= MAX_HEADER
            && bytes.len() - n - 4 <= inspect::MAX_RESPONSE && v == json::parsed(
            bytes.skip(n + 4),
        ).unwrap() && is_one(json::field(v, "schema"@)) && lengths(
            text::lines(vstd::utf8::decode_utf8(bytes.take(n))).drop_first(),
        ) == seq![Some((bytes.len() - n - 4) as nat)],
{
    if wire::holds_bytes(bytes, wire::header_end()) {
        wire::header_is_inside(bytes);
    }
}

fn copy(bytes: &[u8], from: usize, to: usize) -> (out: Vec<u8>)
    requires
        from <= to <= bytes@.len(),
    ensures
        out@ == bytes@.subrange(from as int, to as int),
{
    let mut out: Vec<u8> = Vec::new();
    let mut i: usize = from;
    while i < to
        invariant
            from <= i <= to <= bytes@.len(),
            out@ == bytes@.subrange(from as int, i as int),
        decreases to - i,
    {
        out.push(bytes[i]);
        assert(out@ =~= bytes@.subrange(from as int, i + 1));
        i += 1;
    }
    out
}

fn is_encoded(lines: &Vec<String>) -> (r: bool)
    ensures
        r == encoded(text::list_view(lines@)),
{
    let ghost all = text::list_view(lines@);
    let mut i: usize = 0;
    while i < lines.len()
        invariant
            all == text::list_view(lines@),
            i <= lines@.len(),
            forall|k: int| 0 <= k < i ==> !is_named(#[trigger] all[k], "transfer-encoding"@),
        decreases lines@.len() - i,
    {
        assert(all[i as int] == lines@[i as int]@);
        if let Some((name, _)) = text::split_once(lines[i].as_str(), ':') {
            let low = text::ascii_lowercase(name.as_str());
            if text::same(low.as_str(), "transfer-encoding") {
                assert(is_named(all[i as int], "transfer-encoding"@));
                return true;
            }
        }
        i += 1;
    }
    false
}

/// Whether the length of the body is stated exactly once.
fn states_length(lines: &Vec<String>, length: usize) -> (r: bool)
    requires
        lines@.len() > 0,
    ensures
        r == (lengths(text::list_view(lines@).drop_first()) == seq![Some(length as nat)]),
{
    let ghost all = text::list_view(lines@).drop_first();
    let mut found: Vec<Option<u64>> = Vec::new();
    let mut i: usize = 1;
    assert(all.take(0) =~= seq![]);
    assert(stated(found@) =~= lengths(all.take(0)));
    while i < lines.len()
        invariant
            all == text::list_view(lines@).drop_first(),
            1 <= i <= lines@.len(),
            stated(found@) == lengths(all.take(i - 1)),
        decreases lines@.len() - i,
    {
        assert(all[i - 1] == lines@[i as int]@);
        assert(all.take(i as int).drop_last() =~= all.take(i - 1));
        assert(all.take(i as int).last() == all[i - 1]);
        if let Some((name, value)) = text::split_once(lines[i].as_str(), ':') {
            let low = text::ascii_lowercase(name.as_str());
            if text::same(low.as_str(), "content-length") {
                let number = text::trim(value.as_str());
                let ghost before = found@;
                let n = text::parse_unsigned(number.as_str(), u64::MAX);
                found.push(n);
                assert(stated(found@) =~= stated(before).push(
                    text::unsigned_number(text::trimmed(value@), u64::MAX as nat),
                ));
            }
        }
        i += 1;
    }
    assert(all.take(i - 1) =~= all);
    assert(stated(found@).len() == found@.len());
    if found.len() != 1 {
        return false;
    }
    assert(stated(found@)[0] == stated_one(found@[0]));
    match found[0] {
        Some(n) => {
            let r = n == length as u64;
            if r {
                assert(stated(found@) =~= seq![Some(length as nat)]);
            } else {
                assert(seq![Some(length as nat)][0] == Some(length as nat));
            }
            r
        },
        None => {
            assert(seq![Some(length as nat)][0] == Some(length as nat));
            false
        },
    }
}

spec fn stated_one(n: Option<u64>) -> Option<nat> {
    match n {
        Some(n) => Some(n as nat),
        None => None,
    }
}

spec fn stated(v: Seq<Option<u64>>) -> Seq<Option<nat>> {
    Seq::new(v.len(), |i: int| stated_one(v[i]))
}

/// Reads what a controller responded.
pub fn decode(bytes: &[u8]) -> (r: Result<Json, &'static str>)
    ensures
        match r {
            Ok(v) => decoded(bytes@) == Ok::<JsonView, Seq<char>>(v@),
            Err(e) => decoded(bytes@) == Err::<JsonView, Seq<char>>(e@),
        },
{
    let n = match wire::find_header(bytes) {
        Some(n) => n,
        None => {
            return Err("Invalid controller HTTP response");
        },
    };
    if n > MAX_HEADER {
        return Err("Invalid controller HTTP response");
    }
    let head = copy(bytes, 0, n);
    assert(head@ =~= bytes@.take(n as int));
    let header = match text::from_utf8(head.as_slice()) {
        Some(h) => h,
        None => {
            return Err("Invalid controller HTTP headers");
        },
    };
    let lines = text::split_lines(header.as_str());
    let ghost all = text::list_view(lines@);
    assert(all.len() == lines@.len());
    assert(all[0] == lines@[0]@);
    let words = text::split_words(lines[0].as_str());
    let ghost ws = text::list_view(words@);
    assert(ws.len() == words@.len());
    if words.len() < 2 {
        return Err("Controller inspection request failed");
    }
    assert(ws[1] == words@[1]@);
    if !text::same(words[1].as_str(), "200") {
        if text::same(words[1].as_str(), "404") {
            return Err(
                "Inspection endpoint or incident not found; check controller version and incident ID",
            );
        }
        if text::same(words[1].as_str(), "503") {
            return Err("Controller inspection busy or unavailable; retry shortly");
        }
        return Err("Controller inspection request failed");
    }
    let body = copy(bytes, n + 4, bytes.len());
    assert(body@ =~= bytes@.skip(n + 4));
    if body.len() > inspect::MAX_RESPONSE {
        return Err("Controller response exceeds limit");
    }
    if !states_length(&lines, body.len()) || is_encoded(&lines) {
        return Err("Incomplete or unsupported controller response");
    }
    match json::parse(body.as_slice()) {
        None => Err("Invalid controller JSON"),
        Some(v) => {
            let known = match v.get("schema") {
                Some(Json::Number(n)) => n.signed == Some(1i64),
                _ => false,
            };
            if known {
                Ok(v)
            } else {
                Err("Unsupported controller inspection schema")
            }
        },
    }
}

/// A pod as its list shows it.
pub struct Listed {
    pub name: Option<String>,
    pub terminating: bool,
}

/// Whether a pod that was asked for by its name can be inspected.
pub fn check_named(terminating: bool, phase: &Option<String>) -> (r: Result<(), &'static str>)
    ensures
        match r {
            Ok(_) => !terminating && text::optional_view(*phase) == Some("Running"@),
            Err(e) => (terminating || text::optional_view(*phase) != Some("Running"@)) && e@
                == "Controller pod is not running or is terminating"@,
        },
{
    let running = match phase {
        Some(p) => text::same(p.as_str(), "Running"),
        None => false,
    };
    if terminating || !running {
        Err("Controller pod is not running or is terminating")
    } else {
        Ok(())
    }
}

/// Whether a list says that it goes on.
pub open spec fn goes_on(more: Option<Seq<char>>) -> bool {
    match more {
        Some(t) => t.len() > 0,
        None => false,
    }
}

/// Picks the controller's pod out of a list: there has to be exactly one.
pub fn select_pod(items: &Vec<Listed>, more: &Option<String>) -> (r: Result<String, &'static str>)
    ensures
        match r {
            Ok(name) => items@.len() == 1 && !goes_on(text::optional_view(*more))
                && !items@[0].terminating && text::optional_view(items@[0].name) == Some(name@),
            Err(e) => if items@.len() != 1 || goes_on(text::optional_view(*more)) {
                e@ == "Expected one running controller pod; use --pod or narrow --selector"@
            } else if items@[0].terminating {
                e@ == "Controller pod is terminating; retry shortly"@
            } else {
                items@[0].name is None && e@ == "Controller pod has no name"@
            },
        },
{
    let partial = match more {
        Some(t) => text::byte_len(t.as_str()) > 0,
        None => false,
    };
    proof {
        if let Some(t) = more {
            text::utf8_len_zero(t@);
        }
    }
    if items.len() != 1 || partial {
        return Err("Expected one running controller pod; use --pod or narrow --selector");
    }
    if items[0].terminating {
        return Err("Controller pod is terminating; retry shortly");
    }
    match &items[0].name {
        Some(name) => Ok(name.clone()),
        None => Err("Controller pod has no name"),
    }
}

/// What a state holds that is shown of it.
pub struct SnapshotView {
    pub sampled_at: i64,
    pub ready: bool,
    pub metrics: JsonView,
    pub incident_count: u64,
    pub outbox_pending: u64,
    pub outbox_dead: u64,
    pub recent_incidents: Seq<IncidentView>,
}

impl Snapshot {
    pub open spec fn view(&self) -> SnapshotView {
        SnapshotView {
            sampled_at: self.sampled_at,
            ready: self.ready,
            metrics: self.metrics@,
            incident_count: self.incident_count,
            outbox_pending: self.outbox_pending,
            outbox_dead: self.outbox_dead,
            recent_incidents: inspect::incidents_view(self.recent_incidents@),
        }
    }
}

/// The text of a count; one that is not there is `null`.
pub open spec fn metric(m: JsonView, key: Seq<char>) -> Seq<char> {
    json::json_text(
        match json::field(m, key) {
            Some(v) => v,
            None => JsonView::Null,
        },
    )
}

fn metric_text(m: &Json, key: &str) -> (r: String)
    ensures
        r@ == metric(m@, key@),
{
    match m.get(key) {
        Some(v) => v.text(),
        None => Json::Null.text(),
    }
}

pub open spec fn readiness(ready: bool) -> Seq<char> {
    if ready {
        "ready"@
    } else {
        "NOT READY"@
    }
}

fn readiness_text(ready: bool) -> (r: &'static str)
    ensures
        r@ == readiness(ready),
{
    if ready {
        "ready"
    } else {
        "NOT READY"
    }
}

/// A decision as it is shown.
pub open spec fn decision_shown(decision: Option<Seq<char>>) -> Seq<char> {
    match decision {
        Some(d) => events::printable(d),
        None => events::printable("unknown"@),
    }
}

fn show_decision(decision: &Option<String>) -> (r: String)
    ensures
        r@ == decision_shown(text::optional_view(*decision)),
{
    match decision {
        Some(d) => events::console(d.as_str()),
        None => events::console("unknown"),
    }
}

/// The state of a delivery as it is shown.
pub open spec fn delivery_shown(status: Option<Seq<char>>) -> Seq<char> {
    match status {
        Some(d) => events::printable(d),
        None => events::printable("not retained"@),
    }
}

fn show_delivery(status: &Option<String>) -> (r: String)
    ensures
        r@ == delivery_shown(text::optional_view(*status)),
{
    match status {
        Some(d) => events::console(d.as_str()),
        None => events::console("not retained"),
    }
}

pub open spec fn attempts_shown(attempts: Option<u32>) -> u64 {
    match attempts {
        Some(n) => n as u64,
        None => 0,
    }
}

fn show_attempts(attempts: Option<u32>) -> (r: u64)
    ensures
        r == attempts_shown(attempts),
{
    match attempts {
        Some(n) => n as u64,
        None => 0,
    }
}

/// What is shown of the logs.
pub open spec fn logs_line(m: JsonView) -> Seq<char> {
    "Logs: "@ + metric(m, "received"@) + " received | "@ + metric(m, "active_streams"@) + " streams | queue "@ + metric(m, "queue_depth"@) + " | "@ + metric(m, "dropped"@) + " dropped | "@ + metric(m, "coverage_gaps"@) + " coverage gaps\n"@
}

fn write_logs_line(m: &Json) -> (out: String)
    ensures
        out@ == logs_line(m@),
{
    let mut out = "Logs: ".to_owned();
    let part_0 = metric_text(m, "received");
    out.append(part_0.as_str());
    out.append(" received | ");
    let part_1 = metric_text(m, "active_streams");
    out.append(part_1.as_str());
    out.append(" streams | queue ");
    let part_2 = metric_text(m, "queue_depth");
    out.append(part_2.as_str());
    out.append(" | ");
    let part_3 = metric_text(m, "dropped");
    out.append(part_3.as_str());
    out.append(" dropped | ");
    let part_4 = metric_text(m, "coverage_gaps");
    out.append(part_4.as_str());
    out.append(" coverage gaps\n");
    out
}

/// What is shown of the verdicts.
pub open spec fn verdicts_line(m: JsonView) -> Seq<char> {
    "Verdicts: "@ + metric(m, "verdict_hits"@) + " reused | "@ + metric(m, "verdict_misses"@) + " misses | "@ + metric(m, "novelty_duplicates"@) + " replay duplicates\n"@
}

fn write_verdicts_line(m: &Json) -> (out: String)
    ensures
        out@ == verdicts_line(m@),
{
    let mut out = "Verdicts: ".to_owned();
    let part_0 = metric_text(m, "verdict_hits");
    out.append(part_0.as_str());
    out.append(" reused | ");
    let part_1 = metric_text(m, "verdict_misses");
    out.append(part_1.as_str());
    out.append(" misses | ");
    let part_2 = metric_text(m, "novelty_duplicates");
    out.append(part_2.as_str());
    out.append(" replay duplicates\n");
    out
}

/// What is shown of the policy.
pub open spec fn policy_line(m: JsonView) -> Seq<char> {
    "Policy: "@ + metric(m, "policy_notify"@) + " notify | "@ + metric(m, "policy_review"@) + " review | "@ + metric(m, "policy_abstain"@) + " abstain | "@ + metric(m, "policy_ignore"@) + " ignore\n"@
}

fn write_policy_line(m: &Json) -> (out: String)
    ensures
        out@ == policy_line(m@),
{
    let mut out = "Policy: ".to_owned();
    let part_0 = metric_text(m, "policy_notify");
    out.append(part_0.as_str());
    out.append(" notify | ");
    let part_1 = metric_text(m, "policy_review");
    out.append(part_1.as_str());
    out.append(" review | ");
    let part_2 = metric_text(m, "policy_abstain");
    out.append(part_2.as_str());
    out.append(" abstain | ");
    let part_3 = metric_text(m, "policy_ignore");
    out.append(part_3.as_str());
    out.append(" ignore\n");
    out
}

/// What is shown of deliveries.
pub open spec fn deliveries_line(s: SnapshotView) -> Seq<char> {
    "Delivery: "@ + text::decimal(s.outbox_pending as nat) + " pending | "@ + text::decimal(s.outbox_dead as nat) + " dead | "@ + metric(s.metrics, "notification_delivered"@) + " delivered | "@ + metric(s.metrics, "notification_failures"@) + " failures\n"@
}

fn write_deliveries_line(s: &Snapshot) -> (out: String)
    ensures
        out@ == deliveries_line(s@),
{
    let mut out = "Delivery: ".to_owned();
    let part_0 = text::decimal_text(s.outbox_pending);
    out.append(part_0.as_str());
    out.append(" pending | ");
    let part_1 = text::decimal_text(s.outbox_dead);
    out.append(part_1.as_str());
    out.append(" dead | ");
    let part_2 = metric_text(&s.metrics, "notification_delivered");
    out.append(part_2.as_str());
    out.append(" delivered | ");
    let part_3 = metric_text(&s.metrics, "notification_failures");
    out.append(part_3.as_str());
    out.append(" failures\n");
    out
}

/// What is shown of the provider.
pub open spec fn provider_line(m: JsonView) -> Seq<char> {
    "Provider: "@ + metric(m, "provider_batches"@) + " batches | estimated $"@ + metric(m, "estimated_cost_usd"@) + " | "@ + metric(m, "provider_unmetered_requests"@) + " unmetered requests\n"@
}

fn write_provider_line(m: &Json) -> (out: String)
    ensures
        out@ == provider_line(m@),
{
    let mut out = "Provider: ".to_owned();
    let part_0 = metric_text(m, "provider_batches");
    out.append(part_0.as_str());
    out.append(" batches | estimated $");
    let part_1 = metric_text(m, "estimated_cost_usd");
    out.append(part_1.as_str());
    out.append(" | ");
    let part_2 = metric_text(m, "provider_unmetered_requests");
    out.append(part_2.as_str());
    out.append(" unmetered requests\n");
    out
}

/// What is shown of the state.
pub open spec fn state_line(s: SnapshotView) -> Seq<char> {
    "State: "@ + text::decimal(s.incident_count as nat) + " incidents | "@ + metric(s.metrics, "store_failures"@) + " failures\n"@
}

fn write_state_line(s: &Snapshot) -> (out: String)
    ensures
        out@ == state_line(s@),
{
    let mut out = "State: ".to_owned();
    let part_0 = text::decimal_text(s.incident_count);
    out.append(part_0.as_str());
    out.append(" incidents | ");
    let part_1 = metric_text(&s.metrics, "store_failures");
    out.append(part_1.as_str());
    out.append(" failures\n");
    out
}

/// The first line of what is shown of a state.
pub open spec fn controller_line(s: SnapshotView) -> Seq<char> {
    "Controller: "@ + readiness(s.ready) + " | sampled at "@ + text::signed_decimal(s.sampled_at as int) + " | coverage partial\n"@
}

fn write_controller_line(s: &Snapshot) -> (out: String)
    ensures
        out@ == controller_line(s@),
{
    let mut out = "Controller: ".to_owned();
    out.append(readiness_text(s.ready));
    out.append(" | sampled at ");
    let part_0 = text::signed_decimal_text(s.sampled_at);
    out.append(part_0.as_str());
    out.append(" | coverage partial\n");
    out
}

/// The line of an incident in a list.
pub open spec fn incident_line(i: IncidentView) -> Seq<char> {
    events::printable(i.id) + " | "@ + decision_shown(i.last_decision) + " | "@ + text::decimal(
        i.recurrence_count as nat,
    ) + " | "@ + text::decimal(i.escalation_level as nat) + " | "@ + text::signed_decimal(
        i.notification_sequence as int,
    ) + "\n"@
}

fn write_incident_line(i: &Incident) -> (out: String)
    ensures
        out@ == incident_line(i@),
{
    let mut out = events::console(i.id.as_str());
    out.append(" | ");
    let decision = show_decision(&i.last_decision);
    out.append(decision.as_str());
    out.append(" | ");
    let count = text::decimal_text(i.recurrence_count as u64);
    out.append(count.as_str());
    out.append(" | ");
    let level = text::decimal_text(i.escalation_level as u64);
    out.append(level.as_str());
    out.append(" | ");
    let sequence = text::signed_decimal_text(i.notification_sequence);
    out.append(sequence.as_str());
    out.append("\n");
    out
}

/// The first line of what is shown of an incident.
pub open spec fn title_line(i: IncidentView) -> Seq<char> {
    "Incident "@ + events::printable(i.id) + " | "@ + decision_shown(i.last_decision) + " | count "@ + text::decimal(i.recurrence_count as nat) + " | level "@ + text::decimal(i.escalation_level as nat) + " | notification sequence "@ + text::signed_decimal(i.notification_sequence as int) + "\n"@
}

fn write_title_line(i: &Incident) -> (out: String)
    ensures
        out@ == title_line(i@),
{
    let mut out = "Incident ".to_owned();
    let part_0 = events::console(i.id.as_str());
    out.append(part_0.as_str());
    out.append(" | ");
    let part_1 = show_decision(&i.last_decision);
    out.append(part_1.as_str());
    out.append(" | count ");
    let part_2 = text::decimal_text(i.recurrence_count as u64);
    out.append(part_2.as_str());
    out.append(" | level ");
    let part_3 = text::decimal_text(i.escalation_level as u64);
    out.append(part_3.as_str());
    out.append(" | notification sequence ");
    let part_4 = text::signed_decimal_text(i.notification_sequence);
    out.append(part_4.as_str());
    out.append("\n");
    out
}

/// What is shown of a delivery.
pub open spec fn delivery_line(status: Option<Seq<char>>, attempts: Option<u32>) -> Seq<char> {
    "Delivery: "@ + delivery_shown(status) + " | attempts "@ + text::decimal(attempts_shown(attempts) as nat) + "\n"@
}

fn write_delivery_line(status: &Option<String>, attempts: Option<u32>) -> (out: String)
    ensures
        out@ == delivery_line(text::optional_view(*status), attempts),
{
    let mut out = "Delivery: ".to_owned();
    let part_0 = show_delivery(status);
    out.append(part_0.as_str());
    out.append(" | attempts ");
    let part_1 = text::decimal_text(show_attempts(attempts));
    out.append(part_1.as_str());
    out.append("\n");
    out
}

/// The lines of a list of incidents.
pub open spec fn incident_lines(v: Seq<IncidentView>) -> Seq<char>
    decreases v.len(),
{
    if v.len() == 0 {
        seq![]
    } else {
        incident_lines(v.drop_last()) + incident_line(v.last())
    }
}

fn write_incident_lines(v: &Vec<Incident>) -> (out: String)
    ensures
        out@ == incident_lines(inspect::incidents_view(v@)),
{
    let ghost all = inspect::incidents_view(v@);
    let mut out = String::new();
    let mut i: usize = 0;
    assert(all.take(0) =~= seq![]);
    assert(out@ =~= incident_lines(all.take(0)));
    while i < v.len()
        invariant
            all == inspect::incidents_view(v@),
            i <= v@.len(),
            out@ == incident_lines(all.take(i as int)),
        decreases v@.len() - i,
    {
        assert(all[i as int] == v@[i as int]@);
        assert(all.take(i + 1).drop_last() =~= all.take(i as int));
        let line = write_incident_line(&v[i]);
        out.append(line.as_str());
        i += 1;
    }
    assert(all.take(i as int) =~= all);
    out
}

/// What is shown of a state.
pub open spec fn status_shown(s: SnapshotView) -> Seq<char> {
    controller_line(s) + logs_line(s.metrics) + verdicts_line(s.metrics) + policy_line(s.metrics)
        + deliveries_line(s) + provider_line(s.metrics) + state_line(s)
        + "Recent incidents (ID | decision | count | level | sequence):\n"@ + incident_lines(
        s.recent_incidents,
    ) + "Use --incident ID for retained evidence and delivery details.\n"@
}

/// What is shown of the evidence of an incident.
pub open spec fn evidence_shown(notification: Option<JsonView>) -> Seq<char> {
    match notification {
        Some(n) => "Last enqueued notification (may precede the latest observation):\n"@
            + json::pretty_json(n) + "\n"@,
        None =>
            "Notification evidence is no longer retained. Incident counters remain durable.\n"@,
    }
}

pub open spec fn value_view(v: Option<Json>) -> Option<JsonView> {
    match v {
        Some(v) => Some(v@),
        None => None,
    }
}

/// What is shown of an incident.
pub open spec fn detail_shown(
    i: IncidentView,
    notification: Option<JsonView>,
    status: Option<Seq<char>>,
    attempts: Option<u32>,
) -> Seq<char> {
    title_line(i) + delivery_line(status, attempts) + evidence_shown(notification)
}

fn write_evidence(notification: &Option<Json>) -> (out: String)
    ensures
        out@ == evidence_shown(value_view(*notification)),
{
    match notification {
        Some(n) => {
            let mut out =
                "Last enqueued notification (may precede the latest observation):\n".to_owned();
            let value = n.pretty_text();
            out.append(value.as_str());
            out.append("\n");
            out
        },
        None =>
            "Notification evidence is no longer retained. Incident counters remain durable.\n".to_owned(),
    }
}

/// What a controller responded.
pub enum Response {
    Status(Snapshot),
    Incident(Detail),
}

/// What is shown of a response, or why nothing can be.
pub open spec fn rendered(r: Response) -> Result<Seq<char>, Seq<char>> {
    match r {
        Response::Incident(d) => Ok(
            detail_shown(
                d.incident@,
                value_view(d.last_notification),
                text::optional_view(d.delivery_status),
                d.delivery_attempts,
            ),
        ),
        Response::Status(s) => if s.recent_incidents@.len() > inspect::RECENT_LIMIT {
            Err("Controller incident list exceeds limit"@)
        } else {
            Ok(status_shown(s@))
        },
    }
}

/// Writes what is shown of a response.
pub fn render(response: &Response) -> (r: Result<String, &'static str>)
    ensures
        match r {
            Ok(t) => rendered(*response) == Ok::<Seq<char>, Seq<char>>(t@),
            Err(e) => rendered(*response) == Err::<Seq<char>, Seq<char>>(e@),
        },
{
    match response {
        Response::Incident(d) => {
            let mut out = write_title_line(&d.incident);
            let delivery = write_delivery_line(&d.delivery_status, d.delivery_attempts);
            out.append(delivery.as_str());
            let evidence = write_evidence(&d.last_notification);
            out.append(evidence.as_str());
            Ok(out)
        },
        Response::Status(s) => {
            if s.recent_incidents.len() > inspect::RECENT_LIMIT {
                return Err("Controller incident list exceeds limit");
            }
            let mut out = write_controller_line(s);
            let logs = write_logs_line(&s.metrics);
            out.append(logs.as_str());
            let verdicts = write_verdicts_line(&s.metrics);
            out.append(verdicts.as_str());
            let policy = write_policy_line(&s.metrics);
            out.append(policy.as_str());
            let deliveries = write_deliveries_line(s);
            out.append(deliveries.as_str());
            let provider = write_provider_line(&s.metrics);
            out.append(provider.as_str());
            let state = write_state_line(s);
            out.append(state.as_str());
            out.append("Recent incidents (ID | decision | count | level | sequence):\n");
            let incidents = write_incident_lines(&s.recent_incidents);
            out.append(incidents.as_str());
            out.append("Use --incident ID for retained evidence and delivery details.\n");
            Ok(out)
        },
    }
}

/// What is reported of a response.
pub open spec fn report_json(
    namespace: Seq<char>,
    pod: Seq<char>,
    value: JsonView,
    now: i64,
) -> JsonView {
    JsonView::Object(
        seq![
            ("controller"@, value),
            ("sampled_at"@, json::integer(now as int)),
            (
                "target"@,
                JsonView::Object(
                    seq![
                        ("namespace"@, JsonView::Text(namespace)),
                        ("pod"@, JsonView::Text(pod)),
                    ],
                ),
            ),
        ],
    )
}

/// What is reported of a response.
pub fn report(namespace: &str, pod: &str, value: &Json, now: i64) -> (r: Json)
    ensures
        r@ == report_json(namespace@, pod@, value@, now),
{
    let target = Fields::new().with("namespace", json::string(namespace)).with(
        "pod",
        json::string(pod),
    );
    assert(target@ =~= seq![
        ("namespace"@, JsonView::Text(namespace@)),
        ("pod"@, JsonView::Text(pod@)),
    ]);
    let fields = Fields::new().with("controller", value.clone()).with(
        "sampled_at",
        json::signed(now),
    ).with("target", target.object());
    assert(fields@ =~= report_json(namespace@, pod@, value@, now)->Object_0);
    fields.object()
}

/// What is printed of a response: the report in one line, or what is shown of it under the name of
/// the pod.
pub fn printed(
    as_json: bool,
    report: &Json,
    namespace: &str,
    pod: &str,
    rendered: &str,
) -> (out: String)
    ensures
        out@ == if as_json {
            json::json_text(report@) + "\n"@
        } else {
            "\n"@ + events::printable(namespace@) + "/"@ + events::printable(pod@) + "\n"@
                + rendered@
        },
{
    if as_json {
        let mut out = report.text();
        out.append("\n");
        out
    } else {
        let mut out = "\n".to_owned();
        let space = events::console(namespace);
        out.append(space.as_str());
        out.append("/");
        let name = events::console(pod);
        out.append(name.as_str());
        out.append("\n");
        out.append(rendered);
        out
    }
}

/// What happens behind a sample.
pub enum Next {
    /// Another sample is taken after the interval.
    Wait,
    /// The failure is reported, and another sample is taken after the interval.
    Warn(String),
    /// The inspection is over.
    Stop,
    /// The inspection has failed.
    Fail(&'static str),
}

/// What happens behind a sample: while a controller is watched, a failure is no end.
pub fn next(failure: Option<&'static str>, watch: bool) -> (r: Next)
    ensures
        match failure {
            None => r == (if watch {
                Next::Wait
            } else {
                Next::Stop
            }),
            Some(e) => if watch {
                r matches Next::Warn(t) && t@ == "[remote] "@ + e@
                    + "; previous output is stale; retrying"@
            } else {
                r matches Next::Fail(f) && f@ == e@
            },
        },
{
    match failure {
        None => if watch {
            Next::Wait
        } else {
            Next::Stop
        },
        Some(e) => if watch {
            let mut t = "[remote] ".to_owned();
            t.append(e);
            t.append("; previous output is stale; retrying");
            Next::Warn(t)
        } else {
            Next::Fail(e)
        },
    }
}

}
