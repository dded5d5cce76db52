//! Durable probabilistic monitoring: classification is advisory; policy owns decisions.
use vstd::prelude::*;

use crate::digest as fingerprints;
use crate::events::{Event, EventView};
use crate::jev;
use crate::jev::{Judgment, JudgmentView};
use crate::json;
use crate::json::{Fields, Items, Json, JsonView, Table};
use crate::moment;
use crate::text;

pub mod delivery;
pub mod health;
pub mod history;
pub mod inspect;
pub mod keys;
pub mod paths;
pub mod policy;
pub mod rules;
pub mod serving;
pub mod showing;
pub mod sink;
pub mod store;
pub mod upkeep;

pub use crate::controller::policy::cacheable;
use crate::controller::policy::{Decision, Policy, PolicyView};

verus! {

/// What is asked and how answers are understood. A change of it makes earlier verdicts unusable.
pub const CONTRACT_VERSION: &'static str = "systemone-choice-v1-redaction-v1-truncation-review-v1";

/// The judging service that verdicts come from.
pub const PROVIDER: &'static str = "https://api.typesafe.ai/v1/systemone";

/// The terms under which a verdict was given.
pub struct Contract {
    pub provider: String,
    pub model: String,
    pub version: String,
}

#[verifier::ext_equal]
pub struct ContractView {
    pub provider: Seq<char>,
    pub model: Seq<char>,
    pub version: Seq<char>,
}

impl Clone for Contract {
    fn clone(&self) -> (r: Self)
        ensures
            r@ == self@,
    {
        Contract {
            provider: self.provider.clone(),
            model: self.model.clone(),
            version: self.version.clone(),
        }
    }
}

/// A contract as a JSON object.
pub open spec fn contract_json(c: ContractView) -> JsonView {
    JsonView::Object(
        seq![].push(("provider"@, JsonView::Text(c.provider))).push(
            ("model"@, JsonView::Text(c.model)),
        ).push(("version"@, JsonView::Text(c.version))),
    )
}

/// What a verdict depends on: the contract, and the very request that asks for it, with the whole
/// source and text of the event.
pub open spec fn verdict_basis(c: ContractView, e: EventView) -> JsonView {
    JsonView::List(
        seq![].push(contract_json(c)).push(jev::request(seq![e], c.model)).push(
            JsonView::Bool(e.truncated),
        ),
    )
}

pub open spec fn verdict_key(c: ContractView, e: EventView) -> Seq<char> {
    fingerprints::fingerprint(verdict_basis(c, e))
}

impl Contract {
    pub open spec fn view(&self) -> ContractView {
        ContractView { provider: self.provider@, model: self.model@, version: self.version@ }
    }

    pub fn jev(model: String) -> (r: Self)
        ensures
            r@ == (ContractView {
                provider: PROVIDER@,
                model: model@,
                version: CONTRACT_VERSION@,
            }),
    {
        Contract { provider: PROVIDER.to_owned(), model, version: CONTRACT_VERSION.to_owned() }
    }

    pub fn json(&self) -> (r: Json)
        ensures
            r@ == contract_json(self@),
    {
        Fields::new().with("provider", json::string(self.provider.as_str())).with(
            "model",
            json::string(self.model.as_str()),
        ).with("version", json::string(self.version.as_str())).object()
    }

    /// The name under which the verdict on an event is kept.
    pub fn key(&self, event: &Event) -> (r: String)
        ensures
            r@ == verdict_key(self@, event@),
            r@.len() == 64,
    {
        let mut one: Vec<Event> = Vec::new();
        one.push(event.clone());
        let request = jev::build_request(one.as_slice(), self.model.as_str());
        assert(crate::events::events_view(one@) =~= seq![event@]);
        digest(
            &Items::new().with(self.json()).with(request).with(Json::Bool(event.truncated)).list(),
        )
    }
}

/// The full hash of a value's JSON text.
pub fn digest(value: &Json) -> (r: String)
    ensures
        r@ == fingerprints::fingerprint(value@),
        r@.len() == 64,
{
    fingerprints::fingerprint_of(value)
}

/// Seconds as the tables hold them: no more than the largest number that fits.
pub open spec fn held_seconds(seconds: u64) -> int {
    if seconds > i64::MAX {
        i64::MAX as int
    } else {
        seconds as int
    }
}

/// Seconds as the tables hold them.
pub fn seconds_held(seconds: u64) -> (r: i64)
    ensures
        r == held_seconds(seconds),
{
    if seconds > 9223372036854775807 {
        i64::MAX
    } else {
        seconds as i64
    }
}

/// The present, in seconds since the start of 1970. What the clock shows is left open.
pub fn now() -> (r: i64)
    ensures
        exists|seconds: u64| r == #[trigger] held_seconds(seconds),
        r >= 0,
{
    seconds_held(moment::clock_seconds())
}

/// The names of the fields of a source that a notification may show, as far as they are harmless.
pub open spec fn shown_names() -> Seq<Seq<char>> {
    seq![
        "type"@,
        "namespace"@,
        "pod"@,
        "pod_uid"@,
        "container"@,
        "kind"@,
        "restart_count"@,
        "previous"@,
    ]
}

pub open spec fn plain_char(c: char) -> bool {
    text::ascii_alphanumeric(c) || c == '-' || c == '_' || c == '.'
}

/// Whether a value is harmless: a short name, a truth value or a whole number.
pub open spec fn harmless(v: JsonView) -> bool {
    match v {
        JsonView::Text(s) => text::utf8_len(s) <= 253 && forall|i: int|
            0 <= i < s.len() ==> plain_char(#[trigger] s[i]),
        JsonView::Bool(_) => true,
        JsonView::Number(n) => n.signed is Some,
        _ => false,
    }
}

/// The fields of a source under names, as far as they are harmless.
pub open spec fn shown(
    source: Seq<(Seq<char>, JsonView)>,
    names: Seq<Seq<char>>,
) -> Seq<(Seq<char>, JsonView)>
    decreases names.len(),
{
    if names.len() == 0 {
        seq![]
    } else {
        let before = shown(source, names.drop_last());
        match json::lookup(source, names.last()) {
            Some(v) => if harmless(v) {
                json::put(before, names.last(), v)
            } else {
                before
            },
            None => before,
        }
    }
}

fn is_harmless(v: &Json) -> (r: bool)
    ensures
        r == harmless(v@),
{
    match v {
        Json::Text(s) => {
            if text::byte_len(s.as_str()) > 253 {
                return false;
            }
            let chars = text::chars(s.as_str());
            let mut i: usize = 0;
            while i < chars.len()
                invariant
                    i <= chars@.len(),
                    chars@ == s@,
                    v@ == JsonView::Text(s@),
                    forall|k: int| 0 <= k < i ==> plain_char(#[trigger] s@[k]),
                decreases chars@.len() - i,
            {
                let c = chars[i];
                if !(text::is_ascii_alphanumeric(c) || c == '-' || c == '_' || c == '.') {
                    assert(!plain_char(s@[i as int]));
                    return false;
                }
                i += 1;
            }
            true
        },
        Json::Bool(_) => true,
        Json::Number(n) => n.signed.is_some(),
        _ => false,
    }
}

fn show(source: &Table) -> (r: Table)
    ensures
        r@ == shown(source@, shown_names()),
{
    let mut names: Vec<&'static str> = Vec::new();
    names.push("type");
    names.push("namespace");
    names.push("pod");
    names.push("pod_uid");
    names.push("container");
    names.push("kind");
    names.push("restart_count");
    names.push("previous");
    let mut out = Table::new();
    let mut i: usize = 0;
    assert(shown_names().take(0) =~= seq![]);
    while i < names.len()
        invariant
            i <= names@.len(),
            names@.len() == 8,
            forall|k: int| 0 <= k < 8 ==> (#[trigger] names@[k])@ == shown_names()[k],
            out@ == shown(source@, shown_names().take(i as int)),
        decreases names@.len() - i,
    {
        let ghost done = shown_names().take(i + 1);
        assert(done.drop_last() =~= shown_names().take(i as int));
        assert(done.last() == names@[i as int]@);
        match source.get(names[i]) {
            Some(v) => {
                if is_harmless(v) {
                    out.insert(names[i], v.clone());
                }
            },
            None => {},
        }
        i += 1;
    }
    assert(shown_names().take(i as int) =~= shown_names());
    out
}

/// No field of a source is shown but those that are listed, and none that is not harmless; the
/// others are shown as they are.
pub proof fn only_harmless_fields_are_shown(
    source: Seq<(Seq<char>, JsonView)>,
    names: Seq<Seq<char>>,
    name: Seq<char>,
)
    ensures
        json::sorted(shown(source, names)),
        json::lookup(shown(source, names), name) matches Some(v) ==> names.contains(name)
            && harmless(v) && json::lookup(source, name) == Some(v),
        names.contains(name) && (json::lookup(source, name) matches Some(v) && harmless(v))
            ==> json::lookup(shown(source, names), name) == json::lookup(source, name),
    decreases names.len(),
{
    if names.len() > 0 {
        let rest = names.drop_last();
        only_harmless_fields_are_shown(source, rest, name);
        assert(names =~= rest.push(names.last()));
        assert(names.contains(name) <==> rest.contains(name) || name == names.last()) by {
            assert(forall|i: int| 0 <= i < rest.len() ==> names[i] == rest[i]);
            if rest.contains(name) {
                let i = choose|i: int| 0 <= i < rest.len() && rest[i] == name;
                assert(names[i] == name);
            }
            assert(names[names.len() - 1] == names.last());
        }
        match json::lookup(source, names.last()) {
            Some(v) => if harmless(v) {
                json::put_keeps_order(shown(source, rest), names.last(), v);
                json::put_then_lookup(shown(source, rest), names.last(), v, name);
            },
            None => {},
        }
    }
}

/// What is sent to a human: evidence that was redacted, and what was decided on it.
pub struct Notification {
    schema: u32,
    pub notification_id: String,
    pub incident_id: String,
    pub decision: Decision,
    pub escalation_level: u32,
    pub recurrence_count: u32,
    observed_at: i64,
    evidence_timestamp: Option<String>,
    pub evidence: String,
    pub source: Table,
    truncated: bool,
    judgment: Judgment,
    policy: Policy,
    advisory_only: bool,
}

#[verifier::ext_equal]
pub struct NotificationView {
    pub schema: u32,
    pub notification_id: Seq<char>,
    pub incident_id: Seq<char>,
    pub decision: Decision,
    pub escalation_level: u32,
    pub recurrence_count: u32,
    pub observed_at: i64,
    pub evidence_timestamp: Option<Seq<char>>,
    pub evidence: Seq<char>,
    pub source: Seq<(Seq<char>, JsonView)>,
    pub truncated: bool,
    pub judgment: JudgmentView,
    pub policy: PolicyView,
    pub advisory_only: bool,
}

/// A judgment without what is said of a failure.
pub open spec fn without_error(j: JudgmentView) -> JudgmentView {
    JudgmentView {
        analysis_error: if j.analysis_error is Some {
            Some("Classification unavailable"@)
        } else {
            None
        },
        ..j
    }
}

/// The time of the evidence, where it states one.
pub open spec fn evidence_time(stamp: Option<Seq<char>>) -> Option<Seq<char>> {
    match stamp {
        Some(s) => match moment::stated_moment(s) {
            Some(m) => Some(m.text),
            None => None,
        },
        None => None,
    }
}

pub open spec fn notification(
    id: Seq<char>,
    key: Seq<char>,
    e: EventView,
    p: PolicyView,
    decision: Decision,
    level: u32,
    count: u32,
    at: i64,
) -> NotificationView {
    NotificationView {
        schema: 1,
        notification_id: id,
        incident_id: key,
        decision,
        escalation_level: level,
        recurrence_count: count,
        observed_at: at,
        evidence_timestamp: evidence_time(e.timestamp),
        evidence: e.text,
        source: shown(e.source, shown_names()),
        truncated: e.truncated,
        judgment: without_error(e.judgment),
        policy: p,
        advisory_only: true,
    }
}

/// A judgment as a JSON object.
pub open spec fn judgment_json(j: JudgmentView) -> JsonView {
    let a = seq![].push(("importance"@, JsonView::Text(jev::importance_name(j.importance)))).push(
        ("severity"@, JsonView::Text(jev::severity_name(j.severity))),
    ).push(("category"@, JsonView::Text(jev::category_name(j.category))));
    let b = json::push_some(
        a,
        "importance_confidence"@,
        json::real_value(j.importance_confidence),
    );
    let c = json::push_some(b, "severity_confidence"@, json::real_value(j.severity_confidence));
    let d = json::push_some(c, "category_confidence"@, json::real_value(j.category_confidence));
    JsonView::Object(
        json::push_some(d, "analysis_error"@, json::text_value(j.analysis_error)),
    )
}

pub fn write_judgment(j: &Judgment) -> (r: Json)
    ensures
        r@ == judgment_json(j@),
{
    Fields::new().with("importance", json::string(j.importance.label())).with(
        "severity",
        json::string(j.severity.label()),
    ).with("category", json::string(j.category.label())).with_real(
        "importance_confidence",
        &j.importance_confidence,
    ).with_real("severity_confidence", &j.severity_confidence).with_real(
        "category_confidence",
        &j.category_confidence,
    ).with_text("analysis_error", &j.analysis_error).object()
}

/// A notification as a JSON object.
pub open spec fn notification_json(n: NotificationView) -> JsonView {
    JsonView::Object(
        seq![].push(("schema"@, json::integer(n.schema as int))).push(
            ("notification_id"@, JsonView::Text(n.notification_id)),
        ).push(("incident_id"@, JsonView::Text(n.incident_id))).push(
            ("decision"@, JsonView::Text(policy::decision_name(n.decision))),
        ).push(("escalation_level"@, json::integer(n.escalation_level as int))).push(
            ("recurrence_count"@, json::integer(n.recurrence_count as int)),
        ).push(("observed_at"@, json::integer(n.observed_at as int))).push(
            ("evidence_timestamp"@, json::optional_text(n.evidence_timestamp)),
        ).push(("evidence"@, JsonView::Text(n.evidence))).push(
            ("source"@, JsonView::Object(n.source)),
        ).push(("truncated"@, JsonView::Bool(n.truncated))).push(
            ("judgment"@, judgment_json(n.judgment)),
        ).push(("policy"@, policy::policy_json(n.policy))).push(
            ("advisory_only"@, JsonView::Bool(n.advisory_only)),
        ),
    )
}

impl Notification {
    pub closed spec fn view(&self) -> NotificationView {
        NotificationView {
            schema: self.schema,
            notification_id: self.notification_id@,
            incident_id: self.incident_id@,
            decision: self.decision,
            escalation_level: self.escalation_level,
            recurrence_count: self.recurrence_count,
            observed_at: self.observed_at,
            evidence_timestamp: text::optional_view(self.evidence_timestamp),
            evidence: self.evidence@,
            source: self.source@,
            truncated: self.truncated,
            judgment: self.judgment@,
            policy: self.policy@,
            advisory_only: self.advisory_only,
        }
    }

    pub fn new(
        id: &str,
        key: &str,
        event: &Event,
        policy: &Policy,
        decision: Decision,
        level: u32,
        count: u32,
        at: i64,
    ) -> (r: Self)
        ensures
            r@ == notification(id@, key@, event@, policy@, decision, level, count, at),
    {
        let source = show(&event.source);
        let mut judgment = event.judgment.clone();
        if judgment.analysis_error.is_some() {
            judgment.analysis_error = Some("Classification unavailable".to_owned());
        }
        assert(judgment@ =~= without_error(event@.judgment));
        let evidence_timestamp = match &event.timestamp {
            Some(s) => match moment::read_moment(s.as_str()) {
                Some(m) => Some(m.text),
                None => None,
            },
            None => None,
        };
        Notification {
            schema: 1,
            notification_id: id.to_owned(),
            incident_id: key.to_owned(),
            decision,
            escalation_level: level,
            recurrence_count: count,
            observed_at: at,
            evidence_timestamp,
            evidence: event.text.clone(),
            source,
            truncated: event.truncated,
            judgment,
            policy: policy.clone(),
            advisory_only: true,
        }
    }

    /// The notification as a JSON object.
    pub fn json(&self) -> (r: Json)
        ensures
            r@ == notification_json(self@),
    {
        Fields::new().with("schema", json::unsigned(self.schema as u64)).with(
            "notification_id",
            json::string(self.notification_id.as_str()),
        ).with("incident_id", json::string(self.incident_id.as_str())).with(
            "decision",
            json::string(self.decision.label()),
        ).with("escalation_level", json::unsigned(self.escalation_level as u64)).with(
            "recurrence_count",
            json::unsigned(self.recurrence_count as u64),
        ).with("observed_at", json::signed(self.observed_at)).with(
            "evidence_timestamp",
            json::optional(&self.evidence_timestamp),
        ).with("evidence", json::string(self.evidence.as_str())).with(
            "source",
            self.source.json(),
        ).with("truncated", Json::Bool(self.truncated)).with(
            "judgment",
            write_judgment(&self.judgment),
        ).with("policy", self.policy.json()).with(
            "advisory_only",
            Json::Bool(self.advisory_only),
        ).object()
    }
}

}
