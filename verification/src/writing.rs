//! What is written as JSON: each thing under its own name, and nothing but what there is.
use vstd::prelude::*;

use crate::cli;
use crate::controller;
use crate::controller::inspect;
use crate::controller::inspect::{IncidentView, Shown};
use crate::controller::policy;
use crate::controller::policy::{Abstention, PolicyView};
use crate::controller::ContractView;
use crate::events;
use crate::events::EventView;
use crate::jev::{Category, Importance, JudgmentView, Severity, UsageView};
use crate::json;
use crate::json::JsonView;
use crate::report;
use crate::report::{CoverageView, GroupView, MetricsView};
use crate::search;

verus! {

/// The word that is written for an importance.
pub open spec fn importance_shown(v: Importance) -> JsonView {
    JsonView::Text(
        match v {
            Importance::Important => "important"@,
            Importance::Routine => "routine"@,
            Importance::Uncertain => "uncertain"@,
            Importance::Unknown => "unknown"@,
        },
    )
}

/// The word that is written for a severity.
pub open spec fn severity_shown(v: Severity) -> JsonView {
    JsonView::Text(
        match v {
            Severity::Noise => "noise"@,
            Severity::Info => "info"@,
            Severity::Degraded => "degraded"@,
            Severity::Impact => "impact"@,
            Severity::Outage => "outage"@,
            Severity::Unknown => "unknown"@,
        },
    )
}

/// The word that is written for a category.
pub open spec fn category_shown(v: Category) -> JsonView {
    JsonView::Text(
        match v {
            Category::Deploy => "deploy"@,
            Category::Capacity => "capacity"@,
            Category::Dependency => "dependency"@,
            Category::Security => "security"@,
            Category::Fraud => "fraud"@,
            Category::Data => "data"@,
            Category::Config => "config"@,
            Category::Transient => "transient"@,
            Category::Routine => "routine"@,
            Category::Unknown => "unknown"@,
        },
    )
}

/// The word that is written for what is done without firm judgment.
pub open spec fn abstention_shown(v: Abstention) -> JsonView {
    JsonView::Text(
        match v {
            Abstention::Record => "record"@,
            Abstention::Review => "review"@,
        },
    )
}

/// A number where there is something, none otherwise.
pub open spec fn one_if(there: bool) -> nat {
    if there {
        1
    } else {
        0
    }
}

/// A text, or `null` where there is none.
pub open spec fn text_or_null(t: Option<Seq<char>>) -> JsonView {
    match t {
        Some(t) => JsonView::Text(t),
        None => JsonView::Null,
    }
}

/// Whether fields hold a judgment: its importance, severity and category, and of its confidences and
/// its error what there is.
pub open spec fn holds_judgment(f: Seq<(Seq<char>, JsonView)>, j: JudgmentView) -> bool {
    &&& f.contains(("importance"@, importance_shown(j.importance)))
    &&& f.contains(("severity"@, severity_shown(j.severity)))
    &&& f.contains(("category"@, category_shown(j.category)))
    &&& j.importance_confidence matches Some(c) ==> f.contains(
        ("importance_confidence"@, json::real_number(c)),
    )
    &&& j.severity_confidence matches Some(c) ==> f.contains(
        ("severity_confidence"@, json::real_number(c)),
    )
    &&& j.category_confidence matches Some(c) ==> f.contains(
        ("category_confidence"@, json::real_number(c)),
    )
    &&& j.analysis_error matches Some(t) ==> f.contains(("analysis_error"@, JsonView::Text(t)))
}

/// How many fields a judgment has.
pub open spec fn judgment_size(j: JudgmentView) -> nat {
    3 + one_if(j.importance_confidence is Some) + one_if(j.severity_confidence is Some) + one_if(
        j.category_confidence is Some,
    ) + one_if(j.analysis_error is Some)
}

/// A judgment is written whole.
pub proof fn judgments_are_written_whole(j: JudgmentView)
    ensures
        controller::judgment_json(j) matches JsonView::Object(f) && f.len() == judgment_size(j)
            && holds_judgment(f, j),
{
    broadcast use vstd::seq_lib::group_seq_properties;

    let f = controller::judgment_json(j)->Object_0;
    assert(f[0] == ("importance"@, importance_shown(j.importance)));
    assert(f[1] == ("severity"@, severity_shown(j.severity)));
    assert(f[2] == ("category"@, category_shown(j.category)));
}

/// An event is written whole: with its judgment, its place, its text and what the local rules say.
pub proof fn events_are_written_whole(e: EventView)
    ensures
        ({
            let rules = JsonView::Object(
                seq![
                    ("important"@, JsonView::Bool(e.baseline.important)),
                    ("signals"@, json::text_list(e.baseline.signals)),
                ],
            );
            &&& events::event_json(e) matches JsonView::Object(f)
            &&& f.len() == 11 + judgment_size(e.judgment) + one_if(
                e.analysis_representative_id is Some,
            )
            &&& holds_judgment(f, e.judgment)
            &&& e.analysis_representative_id matches Some(t) ==> f.contains(
                ("analysis_representative_id"@, JsonView::Text(t)),
            )
            &&& f.contains(("analysis_reused"@, JsonView::Bool(e.analysis_reused)))
            &&& f.contains(("baseline"@, rules))
            &&& f.contains(("group_id"@, JsonView::Text(e.group_id)))
            &&& f.contains(("id"@, JsonView::Text(e.id)))
            &&& f.contains(("line_count"@, json::integer(e.line_count as int)))
            &&& f.contains(("line_end"@, json::integer(e.line_end as int)))
            &&& f.contains(("line_start"@, json::integer(e.line_start as int)))
            &&& f.contains(("source"@, JsonView::Object(e.source)))
            &&& f.contains(("text"@, JsonView::Text(e.text)))
            &&& f.contains(("timestamp"@, text_or_null(e.timestamp)))
            &&& f.contains(("truncated"@, JsonView::Bool(e.truncated)))
        }),
{
    broadcast use vstd::seq_lib::group_seq_properties;

    let rules = events::baseline_json(e.baseline);
    assert(rules->Object_0 =~= seq![
        ("important"@, JsonView::Bool(e.baseline.important)),
        ("signals"@, json::text_list(e.baseline.signals)),
    ]);
}

/// What requests have cost is written whole.
pub proof fn usage_is_written_whole(u: UsageView)
    ensures
        ({
            &&& report::usage_json(u) matches JsonView::Object(f)
            &&& f.len() == 11
            &&& f.contains(("cost_complete"@, JsonView::Bool(u.cost_complete)))
            &&& f.contains(("estimated_cost_usd"@, json::real_number(u.estimated_cost_usd)))
            &&& f.contains(("input_tokens"@, json::integer(u.input_tokens as int)))
            &&& f.contains(("input_usd_per_million"@, json::real_number(u.input_usd_per_million)))
            &&& f.contains(("metered_requests"@, json::integer(u.metered_requests as int)))
            &&& f.contains(("missing_output_usage"@, json::integer(u.missing_output_usage as int)))
            &&& f.contains(("output_tokens"@, json::integer(u.output_tokens as int)))
            &&& f.contains(("output_usd_per_million"@, json::real_number(u.output_usd_per_million)))
            &&& f.contains(("request_attempts"@, json::integer(u.request_attempts as int)))
            &&& f.contains(("requests_finished"@, json::integer(u.requests_finished as int)))
            &&& f.contains(("unmetered_requests"@, json::integer(u.unmetered_requests as int)))
        }),
{
    let f = report::usage_json(u)->Object_0;
    assert(f[0] == ("cost_complete"@, JsonView::Bool(u.cost_complete)));
    assert(f[1] == ("estimated_cost_usd"@, json::real_number(u.estimated_cost_usd)));
    assert(f[2] == ("input_tokens"@, json::integer(u.input_tokens as int)));
    assert(f[3] == ("input_usd_per_million"@, json::real_number(u.input_usd_per_million)));
    assert(f[4] == ("metered_requests"@, json::integer(u.metered_requests as int)));
    assert(f[5] == ("missing_output_usage"@, json::integer(u.missing_output_usage as int)));
    assert(f[6] == ("output_tokens"@, json::integer(u.output_tokens as int)));
    assert(f[7] == ("output_usd_per_million"@, json::real_number(u.output_usd_per_million)));
    assert(f[8] == ("request_attempts"@, json::integer(u.request_attempts as int)));
    assert(f[9] == ("requests_finished"@, json::integer(u.requests_finished as int)));
    assert(f[10] == ("unmetered_requests"@, json::integer(u.unmetered_requests as int)));
}

/// A group of important events is written whole.
pub proof fn groups_are_written_whole(g: GroupView)
    ensures
        ({
            &&& report::group_json(g) matches JsonView::Object(f)
            &&& f.len() == 7
            &&& f.contains(("category"@, category_shown(g.category)))
            &&& f.contains(("count"@, json::integer(g.count as int)))
            &&& f.contains(("event_ids"@, json::text_list(g.event_ids)))
            &&& f.contains(("id"@, JsonView::Text(g.id)))
            &&& f.contains(("severity"@, severity_shown(g.severity)))
            &&& f.contains(("source"@, JsonView::Object(g.source)))
            &&& f.contains(("text"@, JsonView::Text(g.text)))
        }),
{
    let f = report::group_json(g)->Object_0;
    assert(f[0] == ("category"@, category_shown(g.category)));
    assert(f[1] == ("count"@, json::integer(g.count as int)));
    assert(f[2] == ("event_ids"@, json::text_list(g.event_ids)));
    assert(f[3] == ("id"@, JsonView::Text(g.id)));
    assert(f[4] == ("severity"@, severity_shown(g.severity)));
    assert(f[5] == ("source"@, JsonView::Object(g.source)));
    assert(f[6] == ("text"@, JsonView::Text(g.text)));
}

/// A coverage record is written whole.
pub proof fn coverage_is_written_whole(c: CoverageView)
    ensures
        ({
            &&& report::coverage_json(c) matches JsonView::Object(f)
            &&& f.len() == 3
            &&& f.contains(("source"@, JsonView::Object(c.source)))
            &&& f.contains(("status"@, JsonView::Text(c.status)))
            &&& f.contains(("warnings"@, json::text_list(c.warnings)))
        }),
{
    let f = report::coverage_json(c)->Object_0;
    assert(f[0] == ("source"@, JsonView::Object(c.source)));
    assert(f[1] == ("status"@, JsonView::Text(c.status)));
    assert(f[2] == ("warnings"@, json::text_list(c.warnings)));
}

/// Each count of a run is written under its own name.
pub proof fn counts_are_written_whole(m: MetricsView)
    ensures
        ({
            &&& report::metrics_json(m) matches JsonView::Object(f)
            &&& f.len() == 35
            &&& f.contains(("active_streams"@, json::integer(m.active_streams as int)))
            &&& f.contains(("coverage_gaps"@, json::integer(m.coverage_gaps as int)))
            &&& f.contains(("coverage_records_omitted"@, json::integer(m.coverage_records_omitted as int)))
            &&& f.contains(("dedup_overflows"@, json::integer(m.dedup_overflows as int)))
            &&& f.contains(("dropped"@, json::integer(m.dropped as int)))
            &&& f.contains(("duplicates"@, json::integer(m.duplicates as int)))
            &&& f.contains(("estimated_cost_usd"@, json::real_number(m.estimated_cost_usd)))
            &&& f.contains(("notification_attempts"@, json::integer(m.notification_attempts as int)))
            &&& f.contains(("notification_delivered"@, json::integer(m.notification_delivered as int)))
            &&& f.contains(("notification_failures"@, json::integer(m.notification_failures as int)))
            &&& f.contains(("notifications_enqueued"@, json::integer(m.notifications_enqueued as int)))
            &&& f.contains(("novelty_duplicates"@, json::integer(m.novelty_duplicates as int)))
            &&& f.contains(("outbox_dead"@, json::integer(m.outbox_dead as int)))
            &&& f.contains(("outbox_pending"@, json::integer(m.outbox_pending as int)))
            &&& f.contains(("policy_abstain"@, json::integer(m.policy_abstain as int)))
            &&& f.contains(("policy_ignore"@, json::integer(m.policy_ignore as int)))
            &&& f.contains(("policy_notify"@, json::integer(m.policy_notify as int)))
            &&& f.contains(("policy_review"@, json::integer(m.policy_review as int)))
            &&& f.contains(("provider_attempts"@, json::integer(m.provider_attempts as int)))
            &&& f.contains(("provider_batches"@, json::integer(m.provider_batches as int)))
            &&& f.contains(("provider_input_tokens"@, json::integer(m.provider_input_tokens as int)))
            &&& f.contains(("provider_output_tokens"@, json::integer(m.provider_output_tokens as int)))
            &&& f.contains(("provider_unmetered_requests"@, json::integer(m.provider_unmetered_requests as int)))
            &&& f.contains(("queue_depth"@, json::integer(m.queue_depth as int)))
            &&& f.contains(("queue_high_water"@, json::integer(m.queue_high_water as int)))
            &&& f.contains(("received"@, json::integer(m.received as int)))
            &&& f.contains(("reconnects"@, json::integer(m.reconnects as int)))
            &&& f.contains(("state_pruned"@, json::integer(m.state_pruned as int)))
            &&& f.contains(("store_failures"@, json::integer(m.store_failures as int)))
            &&& f.contains(("streams_started"@, json::integer(m.streams_started as int)))
            &&& f.contains(("unfollowed_observations"@, json::integer(m.unfollowed_observations as int)))
            &&& f.contains(("untimestamped_lines"@, json::integer(m.untimestamped_lines as int)))
            &&& f.contains(("verdict_expirations"@, json::integer(m.verdict_expirations as int)))
            &&& f.contains(("verdict_hits"@, json::integer(m.verdict_hits as int)))
            &&& f.contains(("verdict_misses"@, json::integer(m.verdict_misses as int)))
        }),
{
    let f = report::metrics_json(m)->Object_0;
    assert(f[0] == ("active_streams"@, json::integer(m.active_streams as int)));
    assert(f[1] == ("coverage_gaps"@, json::integer(m.coverage_gaps as int)));
    assert(f[2] == ("coverage_records_omitted"@, json::integer(m.coverage_records_omitted as int)));
    assert(f[3] == ("dedup_overflows"@, json::integer(m.dedup_overflows as int)));
    assert(f[4] == ("dropped"@, json::integer(m.dropped as int)));
    assert(f[5] == ("duplicates"@, json::integer(m.duplicates as int)));
    assert(f[6] == ("estimated_cost_usd"@, json::real_number(m.estimated_cost_usd)));
    assert(f[7] == ("notification_attempts"@, json::integer(m.notification_attempts as int)));
    assert(f[8] == ("notification_delivered"@, json::integer(m.notification_delivered as int)));
    assert(f[9] == ("notification_failures"@, json::integer(m.notification_failures as int)));
    assert(f[10] == ("notifications_enqueued"@, json::integer(m.notifications_enqueued as int)));
    assert(f[11] == ("novelty_duplicates"@, json::integer(m.novelty_duplicates as int)));
    assert(f[12] == ("outbox_dead"@, json::integer(m.outbox_dead as int)));
    assert(f[13] == ("outbox_pending"@, json::integer(m.outbox_pending as int)));
    assert(f[14] == ("policy_abstain"@, json::integer(m.policy_abstain as int)));
    assert(f[15] == ("policy_ignore"@, json::integer(m.policy_ignore as int)));
    assert(f[16] == ("policy_notify"@, json::integer(m.policy_notify as int)));
    assert(f[17] == ("policy_review"@, json::integer(m.policy_review as int)));
    assert(f[18] == ("provider_attempts"@, json::integer(m.provider_attempts as int)));
    assert(f[19] == ("provider_batches"@, json::integer(m.provider_batches as int)));
    assert(f[20] == ("provider_input_tokens"@, json::integer(m.provider_input_tokens as int)));
    assert(f[21] == ("provider_output_tokens"@, json::integer(m.provider_output_tokens as int)));
    assert(f[22] == ("provider_unmetered_requests"@, json::integer(m.provider_unmetered_requests as int)));
    assert(f[23] == ("queue_depth"@, json::integer(m.queue_depth as int)));
    assert(f[24] == ("queue_high_water"@, json::integer(m.queue_high_water as int)));
    assert(f[25] == ("received"@, json::integer(m.received as int)));
    assert(f[26] == ("reconnects"@, json::integer(m.reconnects as int)));
    assert(f[27] == ("state_pruned"@, json::integer(m.state_pruned as int)));
    assert(f[28] == ("store_failures"@, json::integer(m.store_failures as int)));
    assert(f[29] == ("streams_started"@, json::integer(m.streams_started as int)));
    assert(f[30] == ("unfollowed_observations"@, json::integer(m.unfollowed_observations as int)));
    assert(f[31] == ("untimestamped_lines"@, json::integer(m.untimestamped_lines as int)));
    assert(f[32] == ("verdict_expirations"@, json::integer(m.verdict_expirations as int)));
    assert(f[33] == ("verdict_hits"@, json::integer(m.verdict_hits as int)));
    assert(f[34] == ("verdict_misses"@, json::integer(m.verdict_misses as int)));
}

/// An incident is written whole.
pub proof fn incidents_are_written_whole(i: IncidentView)
    ensures
        ({
            &&& inspect::incident_json(i) matches JsonView::Object(f)
            &&& f.len() == 6
            &&& f.contains(("escalation_level"@, json::integer(i.escalation_level as int)))
            &&& f.contains(("id"@, JsonView::Text(i.id)))
            &&& f.contains(("last_decision"@, text_or_null(i.last_decision)))
            &&& f.contains(("notification_sequence"@, json::integer(i.notification_sequence as int)))
            &&& f.contains(("recurrence_count"@, json::integer(i.recurrence_count as int)))
            &&& f.contains(("touched_at"@, json::integer(i.touched_at as int)))
        }),
{
    let f = inspect::incident_json(i)->Object_0;
    assert(f[0] == ("escalation_level"@, json::integer(i.escalation_level as int)));
    assert(f[1] == ("id"@, JsonView::Text(i.id)));
    assert(f[2] == ("last_decision"@, text_or_null(i.last_decision)));
    assert(f[3] == ("notification_sequence"@, json::integer(i.notification_sequence as int)));
    assert(f[4] == ("recurrence_count"@, json::integer(i.recurrence_count as int)));
    assert(f[5] == ("touched_at"@, json::integer(i.touched_at as int)));
}

/// What is shown of an incident is the incident and its last notification with how far that has come;
/// where there is none, `null` stands in each of its places.
pub proof fn details_are_written_whole(i: IncidentView, n: Option<Shown>)
    ensures
        ({
            &&& inspect::detail_json(i, n) matches JsonView::Object(f)
            &&& f.len() == 5
            &&& f.contains(("incident"@, inspect::incident_json(i)))
            &&& f.contains(("schema"@, json::integer(1)))
            &&& n matches Some(s) ==> f.contains(
                ("delivery_attempts"@, json::integer(s.attempts as int)),
            ) && f.contains(("delivery_status"@, JsonView::Text(s.status))) && f.contains(
                ("last_notification"@, s.payload),
            )
            &&& n is None ==> f.contains(("delivery_attempts"@, JsonView::Null)) && f.contains(
                ("delivery_status"@, JsonView::Null),
            ) && f.contains(("last_notification"@, JsonView::Null))
        }),
{
    let f = inspect::detail_json(i, n)->Object_0;
    assert(f[0].0 == "delivery_attempts"@ && f[1].0 == "delivery_status"@);
    assert(f[2] == ("incident"@, inspect::incident_json(i)));
    assert(f[3].0 == "last_notification"@);
    assert(f[4] == ("schema"@, json::integer(1)));
    assert(f.contains(f[0]) && f.contains(f[1]) && f.contains(f[3]));
}

/// A policy is written whole.
pub proof fn policies_are_written_whole(p: PolicyView)
    ensures
        ({
            &&& policy::policy_json(p) matches JsonView::Object(f)
            &&& f.len() == 8
            &&& f.contains(("categories"@, JsonView::List(Seq::new(p.categories.len(), |i: int| category_shown(p.categories[i])))))
            &&& f.contains(("severities"@, JsonView::List(Seq::new(p.severities.len(), |i: int| severity_shown(p.severities[i])))))
            &&& f.contains(("min_confidence"@, json::real_number(p.min_confidence)))
            &&& f.contains(("cooldown_seconds"@, json::integer(p.cooldown_seconds as int)))
            &&& f.contains(("recurrence_window_seconds"@, json::integer(p.recurrence_window_seconds as int)))
            &&& f.contains(("recurrence_count"@, json::integer(p.recurrence_count as int)))
            &&& f.contains(("max_escalation"@, json::integer(p.max_escalation as int)))
            &&& f.contains(("abstention"@, abstention_shown(p.abstention)))
        }),
{
    let f = policy::policy_json(p)->Object_0;
    assert(f[0].1->List_0 =~= Seq::new(
        p.categories.len(),
        |i: int| category_shown(p.categories[i]),
    ));
    assert(f[1].1->List_0 =~= Seq::new(
        p.severities.len(),
        |i: int| severity_shown(p.severities[i]),
    ));
    assert(f[0] == ("categories"@, JsonView::List(Seq::new(p.categories.len(), |i: int| category_shown(p.categories[i])))));
    assert(f[1] == ("severities"@, JsonView::List(Seq::new(p.severities.len(), |i: int| severity_shown(p.severities[i])))));
    assert(f[2] == ("min_confidence"@, json::real_number(p.min_confidence)));
    assert(f[3] == ("cooldown_seconds"@, json::integer(p.cooldown_seconds as int)));
    assert(f[4] == ("recurrence_window_seconds"@, json::integer(p.recurrence_window_seconds as int)));
    assert(f[5] == ("recurrence_count"@, json::integer(p.recurrence_count as int)));
    assert(f[6] == ("max_escalation"@, json::integer(p.max_escalation as int)));
    assert(f[7] == ("abstention"@, abstention_shown(p.abstention)));
}

/// The terms of a verdict are written whole.
pub proof fn contracts_are_written_whole(c: ContractView)
    ensures
        ({
            &&& controller::contract_json(c) matches JsonView::Object(f)
            &&& f.len() == 3
            &&& f.contains(("provider"@, JsonView::Text(c.provider)))
            &&& f.contains(("model"@, JsonView::Text(c.model)))
            &&& f.contains(("version"@, JsonView::Text(c.version)))
        }),
{
    let f = controller::contract_json(c)->Object_0;
    assert(f[0] == ("provider"@, JsonView::Text(c.provider)));
    assert(f[1] == ("model"@, JsonView::Text(c.model)));
    assert(f[2] == ("version"@, JsonView::Text(c.version)));
}

/// The scope of a run on a cluster is written whole.
pub proof fn scopes_are_written_whole(
    cluster: Seq<char>,
    namespace: Option<Seq<char>>,
    selector: Option<Seq<char>>,
    since: i64,
    tail: i64,
    live: bool,
)
    ensures
        ({
            &&& cli::cluster_json(cluster, namespace, selector, since, tail, live) matches JsonView::Object(f)
            &&& f.len() == 6
            &&& f.contains(("context"@, JsonView::Text(cluster)))
            &&& f.contains(("live"@, JsonView::Bool(live)))
            &&& f.contains(("namespace"@, text_or_null(namespace)))
            &&& f.contains(("selector"@, text_or_null(selector)))
            &&& f.contains(("since_seconds"@, json::integer(since as int)))
            &&& f.contains(("tail"@, json::integer(tail as int)))
        }),
{
    let f = cli::cluster_json(cluster, namespace, selector, since, tail, live)->Object_0;
    assert(f[0] == ("context"@, JsonView::Text(cluster)));
    assert(f[1] == ("live"@, JsonView::Bool(live)));
    assert(f[2] == ("namespace"@, text_or_null(namespace)));
    assert(f[3] == ("selector"@, text_or_null(selector)));
    assert(f[4] == ("since_seconds"@, json::integer(since as int)));
    assert(f[5] == ("tail"@, json::integer(tail as int)));
}

/// How often a group occurred is written with the first and the last time.
pub proof fn occurrences_are_written_whole(g: search::GroupView)
    ensures
        ({
            &&& search::occurrences_json(g) matches JsonView::Object(f)
            &&& f.len() == 3
            &&& f.contains(("count"@, json::integer(g.events.len() as int)))
            &&& f.contains(("first_seen"@, text_or_null(g.first)))
            &&& f.contains(("last_seen"@, text_or_null(g.last)))
        }),
{
    let f = search::occurrences_json(g)->Object_0;
    assert(f[0] == ("count"@, json::integer(g.events.len() as int)));
    assert(f[1] == ("first_seen"@, text_or_null(g.first)));
    assert(f[2] == ("last_seen"@, text_or_null(g.last)));
}

}
