//! What a run has seen and what it says of it.
use std::collections::VecDeque;

use vstd::prelude::*;

use crate::events;
use crate::events::{Event, EventView, Source};
use crate::ieee::{Real, RealView};
use crate::jev;
use crate::jev::{Category, Importance, Severity, Usage, UsageView};
use crate::json;
use crate::json::{Fields, Items, Json, JsonView};
use crate::moment;
use crate::names::Names;
use crate::order;
use crate::order::Ranked;
use crate::text;

verus! {

/// How much of a source was covered.
pub struct Coverage {
    pub source: Source,
    pub status: String,
    pub warnings: Vec<String>,
}

#[verifier::ext_equal]
pub struct CoverageView {
    pub source: Seq<(Seq<char>, JsonView)>,
    pub status: Seq<char>,
    pub warnings: Seq<Seq<char>>,
}

impl Coverage {
    pub open spec fn view(&self) -> CoverageView {
        CoverageView {
            source: self.source@,
            status: self.status@,
            warnings: text::list_view(self.warnings@),
        }
    }
}

/// The views of a list of coverage records.
pub open spec fn coverage_view(v: Seq<Coverage>) -> Seq<CoverageView> {
    Seq::new(v.len(), |i: int| v[i]@)
}

/// What a run counts.
pub struct Metrics {
    pub verdict_hits: u64,
    pub verdict_misses: u64,
    pub verdict_expirations: u64,
    pub novelty_duplicates: u64,
    pub store_failures: u64,
    pub state_pruned: u64,
    pub notifications_enqueued: u64,
    pub notification_attempts: u64,
    pub notification_delivered: u64,
    pub notification_failures: u64,
    pub outbox_pending: u64,
    pub outbox_dead: u64,
    pub policy_notify: u64,
    pub policy_review: u64,
    pub policy_abstain: u64,
    pub policy_ignore: u64,
    pub provider_batches: u64,
    pub provider_attempts: u64,
    pub provider_input_tokens: u64,
    pub provider_output_tokens: u64,
    pub provider_unmetered_requests: u64,
    pub estimated_cost_usd: Real,
    pub received: u64,
    pub dropped: u64,
    pub reconnects: u64,
    pub duplicates: u64,
    pub dedup_overflows: u64,
    pub untimestamped_lines: u64,
    pub streams_started: u64,
    pub unfollowed_observations: u64,
    pub queue_high_water: usize,
    pub queue_depth: usize,
    pub active_streams: usize,
    pub coverage_gaps: u64,
    pub coverage_records_omitted: u64,
    pub coverage: VecDeque<Coverage>,
}

#[verifier::ext_equal]
pub struct MetricsView {
    pub verdict_hits: u64,
    pub verdict_misses: u64,
    pub verdict_expirations: u64,
    pub novelty_duplicates: u64,
    pub store_failures: u64,
    pub state_pruned: u64,
    pub notifications_enqueued: u64,
    pub notification_attempts: u64,
    pub notification_delivered: u64,
    pub notification_failures: u64,
    pub outbox_pending: u64,
    pub outbox_dead: u64,
    pub policy_notify: u64,
    pub policy_review: u64,
    pub policy_abstain: u64,
    pub policy_ignore: u64,
    pub provider_batches: u64,
    pub provider_attempts: u64,
    pub provider_input_tokens: u64,
    pub provider_output_tokens: u64,
    pub provider_unmetered_requests: u64,
    pub estimated_cost_usd: RealView,
    pub received: u64,
    pub dropped: u64,
    pub reconnects: u64,
    pub duplicates: u64,
    pub dedup_overflows: u64,
    pub untimestamped_lines: u64,
    pub streams_started: u64,
    pub unfollowed_observations: u64,
    pub queue_high_water: usize,
    pub queue_depth: usize,
    pub active_streams: usize,
    pub coverage_gaps: u64,
    pub coverage_records_omitted: u64,
    pub coverage: Seq<CoverageView>,
}

impl Metrics {
    pub open spec fn view(&self) -> MetricsView {
        MetricsView {
            verdict_hits: self.verdict_hits,
            verdict_misses: self.verdict_misses,
            verdict_expirations: self.verdict_expirations,
            novelty_duplicates: self.novelty_duplicates,
            store_failures: self.store_failures,
            state_pruned: self.state_pruned,
            notifications_enqueued: self.notifications_enqueued,
            notification_attempts: self.notification_attempts,
            notification_delivered: self.notification_delivered,
            notification_failures: self.notification_failures,
            outbox_pending: self.outbox_pending,
            outbox_dead: self.outbox_dead,
            policy_notify: self.policy_notify,
            policy_review: self.policy_review,
            policy_abstain: self.policy_abstain,
            policy_ignore: self.policy_ignore,
            provider_batches: self.provider_batches,
            provider_attempts: self.provider_attempts,
            provider_input_tokens: self.provider_input_tokens,
            provider_output_tokens: self.provider_output_tokens,
            provider_unmetered_requests: self.provider_unmetered_requests,
            estimated_cost_usd: self.estimated_cost_usd@,
            received: self.received,
            dropped: self.dropped,
            reconnects: self.reconnects,
            duplicates: self.duplicates,
            dedup_overflows: self.dedup_overflows,
            untimestamped_lines: self.untimestamped_lines,
            streams_started: self.streams_started,
            unfollowed_observations: self.unfollowed_observations,
            queue_high_water: self.queue_high_water,
            queue_depth: self.queue_depth,
            active_streams: self.active_streams,
            coverage_gaps: self.coverage_gaps,
            coverage_records_omitted: self.coverage_records_omitted,
            coverage: coverage_view(self.coverage@),
        }
    }
}

/// Nothing was counted yet.
pub open spec fn no_metrics() -> MetricsView {
    MetricsView {
        verdict_hits: 0,
        verdict_misses: 0,
        verdict_expirations: 0,
        novelty_duplicates: 0,
        store_failures: 0,
        state_pruned: 0,
        notifications_enqueued: 0,
        notification_attempts: 0,
        notification_delivered: 0,
        notification_failures: 0,
        outbox_pending: 0,
        outbox_dead: 0,
        policy_notify: 0,
        policy_review: 0,
        policy_abstain: 0,
        policy_ignore: 0,
        provider_batches: 0,
        provider_attempts: 0,
        provider_input_tokens: 0,
        provider_output_tokens: 0,
        provider_unmetered_requests: 0,
        estimated_cost_usd: jev::no_cost(),
        received: 0,
        dropped: 0,
        reconnects: 0,
        duplicates: 0,
        dedup_overflows: 0,
        untimestamped_lines: 0,
        streams_started: 0,
        unfollowed_observations: 0,
        queue_high_water: 0,
        queue_depth: 0,
        active_streams: 0,
        coverage_gaps: 0,
        coverage_records_omitted: 0,
        coverage: seq![],
    }
}

impl Default for Metrics {
    fn default() -> (r: Self)
        ensures
            r@ == no_metrics(),
    {
        let r = Metrics {
            verdict_hits: 0,
            verdict_misses: 0,
            verdict_expirations: 0,
            novelty_duplicates: 0,
            store_failures: 0,
            state_pruned: 0,
            notifications_enqueued: 0,
            notification_attempts: 0,
            notification_delivered: 0,
            notification_failures: 0,
            outbox_pending: 0,
            outbox_dead: 0,
            policy_notify: 0,
            policy_review: 0,
            policy_abstain: 0,
            policy_ignore: 0,
            provider_batches: 0,
            provider_attempts: 0,
            provider_input_tokens: 0,
            provider_output_tokens: 0,
            provider_unmetered_requests: 0,
            estimated_cost_usd: Real { bits: 0, text: "0.0".to_owned() },
            received: 0,
            dropped: 0,
            reconnects: 0,
            duplicates: 0,
            dedup_overflows: 0,
            untimestamped_lines: 0,
            streams_started: 0,
            unfollowed_observations: 0,
            queue_high_water: 0,
            queue_depth: 0,
            active_streams: 0,
            coverage_gaps: 0,
            coverage_records_omitted: 0,
            coverage: VecDeque::new(),
        };
        assert(r@.coverage =~= seq![]);
        r
    }
}

/// The counts as a JSON object, without the coverage records.
pub open spec fn metrics_json(m: MetricsView) -> JsonView {
    JsonView::Object(metrics_fields(m))
}

pub open spec fn metrics_fields(m: MetricsView) -> Seq<(Seq<char>, JsonView)> {
    seq![].push(
        ("active_streams"@, json::integer(m.active_streams as int)),
    ).push(
        ("coverage_gaps"@, json::integer(m.coverage_gaps as int)),
    ).push(
        ("coverage_records_omitted"@, json::integer(m.coverage_records_omitted as int)),
    ).push(
        ("dedup_overflows"@, json::integer(m.dedup_overflows as int)),
    ).push(
        ("dropped"@, json::integer(m.dropped as int)),
    ).push(
        ("duplicates"@, json::integer(m.duplicates as int)),
    ).push(
        ("estimated_cost_usd"@, json::real_number(m.estimated_cost_usd)),
    ).push(
        ("notification_attempts"@, json::integer(m.notification_attempts as int)),
    ).push(
        ("notification_delivered"@, json::integer(m.notification_delivered as int)),
    ).push(
        ("notification_failures"@, json::integer(m.notification_failures as int)),
    ).push(
        ("notifications_enqueued"@, json::integer(m.notifications_enqueued as int)),
    ).push(
        ("novelty_duplicates"@, json::integer(m.novelty_duplicates as int)),
    ).push(
        ("outbox_dead"@, json::integer(m.outbox_dead as int)),
    ).push(
        ("outbox_pending"@, json::integer(m.outbox_pending as int)),
    ).push(
        ("policy_abstain"@, json::integer(m.policy_abstain as int)),
    ).push(
        ("policy_ignore"@, json::integer(m.policy_ignore as int)),
    ).push(
        ("policy_notify"@, json::integer(m.policy_notify as int)),
    ).push(
        ("policy_review"@, json::integer(m.policy_review as int)),
    ).push(
        ("provider_attempts"@, json::integer(m.provider_attempts as int)),
    ).push(
        ("provider_batches"@, json::integer(m.provider_batches as int)),
    ).push(
        ("provider_input_tokens"@, json::integer(m.provider_input_tokens as int)),
    ).push(
        ("provider_output_tokens"@, json::integer(m.provider_output_tokens as int)),
    ).push(
        ("provider_unmetered_requests"@, json::integer(m.provider_unmetered_requests as int)),
    ).push(
        ("queue_depth"@, json::integer(m.queue_depth as int)),
    ).push(
        ("queue_high_water"@, json::integer(m.queue_high_water as int)),
    ).push(
        ("received"@, json::integer(m.received as int)),
    ).push(
        ("reconnects"@, json::integer(m.reconnects as int)),
    ).push(
        ("state_pruned"@, json::integer(m.state_pruned as int)),
    ).push(
        ("store_failures"@, json::integer(m.store_failures as int)),
    ).push(
        ("streams_started"@, json::integer(m.streams_started as int)),
    ).push(
        ("unfollowed_observations"@, json::integer(m.unfollowed_observations as int)),
    ).push(
        ("untimestamped_lines"@, json::integer(m.untimestamped_lines as int)),
    ).push(
        ("verdict_expirations"@, json::integer(m.verdict_expirations as int)),
    ).push(
        ("verdict_hits"@, json::integer(m.verdict_hits as int)),
    ).push(
        ("verdict_misses"@, json::integer(m.verdict_misses as int)),
    )
}

impl Metrics {
    /// The counts as a JSON object, without the coverage records.
    pub fn json(&self) -> (r: Json)
        ensures
            r@ == metrics_json(self@),
    {
        Fields::new().with(
            "active_streams",
            json::unsigned(self.active_streams as u64),
        ).with(
            "coverage_gaps",
            json::unsigned(self.coverage_gaps),
        ).with(
            "coverage_records_omitted",
            json::unsigned(self.coverage_records_omitted),
        ).with(
            "dedup_overflows",
            json::unsigned(self.dedup_overflows),
        ).with(
            "dropped",
            json::unsigned(self.dropped),
        ).with(
            "duplicates",
            json::unsigned(self.duplicates),
        ).with(
            "estimated_cost_usd",
            json::number(&self.estimated_cost_usd),
        ).with(
            "notification_attempts",
            json::unsigned(self.notification_attempts),
        ).with(
            "notification_delivered",
            json::unsigned(self.notification_delivered),
        ).with(
            "notification_failures",
            json::unsigned(self.notification_failures),
        ).with(
            "notifications_enqueued",
            json::unsigned(self.notifications_enqueued),
        ).with(
            "novelty_duplicates",
            json::unsigned(self.novelty_duplicates),
        ).with(
            "outbox_dead",
            json::unsigned(self.outbox_dead),
        ).with(
            "outbox_pending",
            json::unsigned(self.outbox_pending),
        ).with(
            "policy_abstain",
            json::unsigned(self.policy_abstain),
        ).with(
            "policy_ignore",
            json::unsigned(self.policy_ignore),
        ).with(
            "policy_notify",
            json::unsigned(self.policy_notify),
        ).with(
            "policy_review",
            json::unsigned(self.policy_review),
        ).with(
            "provider_attempts",
            json::unsigned(self.provider_attempts),
        ).with(
            "provider_batches",
            json::unsigned(self.provider_batches),
        ).with(
            "provider_input_tokens",
            json::unsigned(self.provider_input_tokens),
        ).with(
            "provider_output_tokens",
            json::unsigned(self.provider_output_tokens),
        ).with(
            "provider_unmetered_requests",
            json::unsigned(self.provider_unmetered_requests),
        ).with(
            "queue_depth",
            json::unsigned(self.queue_depth as u64),
        ).with(
            "queue_high_water",
            json::unsigned(self.queue_high_water as u64),
        ).with(
            "received",
            json::unsigned(self.received),
        ).with(
            "reconnects",
            json::unsigned(self.reconnects),
        ).with(
            "state_pruned",
            json::unsigned(self.state_pruned),
        ).with(
            "store_failures",
            json::unsigned(self.store_failures),
        ).with(
            "streams_started",
            json::unsigned(self.streams_started),
        ).with(
            "unfollowed_observations",
            json::unsigned(self.unfollowed_observations),
        ).with(
            "untimestamped_lines",
            json::unsigned(self.untimestamped_lines),
        ).with(
            "verdict_expirations",
            json::unsigned(self.verdict_expirations),
        ).with(
            "verdict_hits",
            json::unsigned(self.verdict_hits),
        ).with(
            "verdict_misses",
            json::unsigned(self.verdict_misses),
        ).object()
    }
}

/// How many coverage records are kept.
pub const COVERAGE_LIMIT: usize = 500;

impl MetricsView {
    /// The counts with a coverage record added. The oldest goes where there are too many.
    pub open spec fn with_gap(
        self,
        source: Seq<(Seq<char>, JsonView)>,
        status: Seq<char>,
        warning: Seq<char>,
    ) -> MetricsView {
        let record = CoverageView {
            source,
            status,
            warnings: if warning.len() == 0 {
                seq![]
            } else {
                seq![warning]
            },
        };
        let full = self.coverage.len() == COVERAGE_LIMIT;
        MetricsView {
            coverage_gaps: if status == "ok"@ {
                self.coverage_gaps
            } else {
                (self.coverage_gaps + 1) as u64
            },
            coverage_records_omitted: if full {
                (self.coverage_records_omitted + 1) as u64
            } else {
                self.coverage_records_omitted
            },
            coverage: (if full {
                self.coverage.drop_first()
            } else {
                self.coverage
            }).push(record),
            ..self
        }
    }

    /// Whether one more coverage record can be counted.
    pub open spec fn gap_countable(self) -> bool {
        self.coverage_gaps < u64::MAX && self.coverage_records_omitted < u64::MAX
    }
}

/// Adds a coverage record.
pub fn gap(metrics: &mut Metrics, source: &Source, status: &str, warning: &str)
    requires
        old(metrics)@.gap_countable(),
    ensures
        final(metrics)@ == old(metrics)@.with_gap(source@, status@, warning@),
{
    let ghost before = metrics@;
    if !text::same(status, "ok") {
        metrics.coverage_gaps = metrics.coverage_gaps + 1;
    }
    if metrics.coverage.len() == COVERAGE_LIMIT {
        let _ = metrics.coverage.pop_front();
        metrics.coverage_records_omitted = metrics.coverage_records_omitted + 1;
        assert(coverage_view(metrics.coverage@) =~= before.coverage.drop_first());
    }
    let ghost kept = coverage_view(metrics.coverage@);
    let mut warnings: Vec<String> = Vec::new();
    if !warning.is_empty() {
        warnings.push(warning.to_owned());
    }
    let record = Coverage { source: source.clone(), status: status.to_owned(), warnings };
    assert(record@.warnings =~= (if warning@.len() == 0 {
        seq![]
    } else {
        seq![warning@]
    }));
    metrics.coverage.push_back(record);
    assert(coverage_view(metrics.coverage@) =~= kept.push(record@));
    assert(metrics@ =~= before.with_gap(source@, status@, warning@));
}

/// No more coverage records are kept than there may be; those that had to go are counted.
pub proof fn coverage_is_bounded(
    m: MetricsView,
    source: Seq<(Seq<char>, JsonView)>,
    status: Seq<char>,
    warning: Seq<char>,
)
    requires
        m.gap_countable(),
        m.coverage.len() <= COVERAGE_LIMIT,
    ensures
        ({
            let n = m.with_gap(source, status, warning);
            &&& n.coverage.len() <= COVERAGE_LIMIT
            &&& n.coverage.len() + n.coverage_records_omitted == m.coverage.len()
                + m.coverage_records_omitted + 1
            &&& n.coverage.last().status == status
        }),
{
}

/// The number of a severity, the highest for the worst.
pub open spec fn rank_of(s: Severity) -> u8 {
    match s {
        Severity::Outage => 5,
        Severity::Impact => 4,
        Severity::Degraded => 3,
        Severity::Info => 2,
        Severity::Noise => 1,
        Severity::Unknown => 0,
    }
}

pub fn severity_rank(severity: Severity) -> (r: u8)
    ensures
        r == rank_of(severity),
{
    match severity {
        Severity::Outage => 5,
        Severity::Impact => 4,
        Severity::Degraded => 3,
        Severity::Info => 2,
        Severity::Noise => 1,
        Severity::Unknown => 0,
    }
}

/// How many events there were of each importance.
#[derive(Clone, Copy, Debug, PartialEq, Eq, Structural)]
pub struct Counts {
    pub important: u64,
    pub routine: u64,
    pub uncertain: u64,
    pub unknown: u64,
}

impl Counts {
    pub open spec fn of(self, i: Importance) -> u64 {
        match i {
            Importance::Important => self.important,
            Importance::Routine => self.routine,
            Importance::Uncertain => self.uncertain,
            Importance::Unknown => self.unknown,
        }
    }

    /// The counts with one more event of an importance.
    pub open spec fn more(self, i: Importance) -> Counts {
        match i {
            Importance::Important => Counts { important: (self.important + 1) as u64, ..self },
            Importance::Routine => Counts { routine: (self.routine + 1) as u64, ..self },
            Importance::Uncertain => Counts { uncertain: (self.uncertain + 1) as u64, ..self },
            Importance::Unknown => Counts { unknown: (self.unknown + 1) as u64, ..self },
        }
    }

    pub open spec fn sum(self) -> int {
        self.important + self.routine + self.uncertain + self.unknown
    }
}

/// The events that are retained, and the counts of all.
pub struct Report {
    pub events: VecDeque<Event>,
    pub counts: Counts,
    pub total: u64,
    pub lines: u64,
    pub reused: u64,
    pub evicted: u64,
    pub limit: usize,
    pub batches: u64,
}

#[verifier::ext_equal]
pub struct ReportView {
    pub events: Seq<EventView>,
    pub counts: Counts,
    pub total: u64,
    pub lines: u64,
    pub reused: u64,
    pub evicted: u64,
    pub limit: usize,
    pub batches: u64,
}

impl ReportView {
    pub open spec fn fresh(limit: usize) -> ReportView {
        ReportView {
            events: seq![],
            counts: Counts { important: 0, routine: 0, uncertain: 0, unknown: 0 },
            total: 0,
            lines: 0,
            reused: 0,
            evicted: 0,
            limit,
            batches: 0,
        }
    }

    /// Whether one more event can be counted.
    pub open spec fn countable(self, e: EventView) -> bool {
        &&& self.total < u64::MAX
        &&& self.lines + e.line_count <= u64::MAX
        &&& self.reused < u64::MAX
        &&& self.evicted < u64::MAX
        &&& self.counts.of(e.judgment.importance) < u64::MAX
    }

    /// The report with an event recorded. The oldest event goes where as many are retained as may
    /// be.
    pub open spec fn recorded(self, e: EventView) -> ReportView {
        let full = self.events.len() == self.limit && self.events.len() > 0;
        ReportView {
            total: (self.total + 1) as u64,
            lines: (self.lines + e.line_count) as u64,
            reused: if e.analysis_reused {
                (self.reused + 1) as u64
            } else {
                self.reused
            },
            counts: self.counts.more(e.judgment.importance),
            evicted: if self.events.len() == self.limit {
                (self.evicted + 1) as u64
            } else {
                self.evicted
            },
            events: (if full {
                self.events.drop_first()
            } else {
                self.events
            }).push(e),
            ..self
        }
    }

    /// The counts fit together: every event was counted under one importance, and is retained or
    /// was evicted, and no more are retained than may be.
    pub open spec fn balanced(self) -> bool {
        &&& self.limit > 0
        &&& self.events.len() <= self.limit
        &&& self.events.len() + self.evicted == self.total
        &&& self.counts.sum() == self.total
    }
}

impl Report {
    pub open spec fn view(&self) -> ReportView {
        ReportView {
            events: events::events_view(self.events@),
            counts: self.counts,
            total: self.total,
            lines: self.lines,
            reused: self.reused,
            evicted: self.evicted,
            limit: self.limit,
            batches: self.batches,
        }
    }

    pub fn new(limit: usize) -> (r: Self)
        ensures
            r@ == ReportView::fresh(limit),
    {
        let r = Report {
            events: VecDeque::new(),
            counts: Counts { important: 0, routine: 0, uncertain: 0, unknown: 0 },
            total: 0,
            lines: 0,
            reused: 0,
            evicted: 0,
            limit,
            batches: 0,
        };
        assert(r@.events =~= seq![]);
        r
    }

    pub fn record(&mut self, event: Event)
        requires
            old(self)@.countable(event@),
        ensures
            final(self)@ == old(self)@.recorded(event@),
    {
        let ghost before = self@;
        self.total = self.total + 1;
        self.lines = self.lines + event.line_count;
        if event.analysis_reused {
            self.reused = self.reused + 1;
        }
        match event.judgment.importance {
            Importance::Important => {
                self.counts.important = self.counts.important + 1;
            },
            Importance::Routine => {
                self.counts.routine = self.counts.routine + 1;
            },
            Importance::Uncertain => {
                self.counts.uncertain = self.counts.uncertain + 1;
            },
            Importance::Unknown => {
                self.counts.unknown = self.counts.unknown + 1;
            },
        }
        if self.events.len() == self.limit {
            let _ = self.events.pop_front();
            self.evicted = self.evicted + 1;
            assert(events::events_view(self.events@) =~= if before.events.len() > 0 {
                before.events.drop_first()
            } else {
                before.events
            });
        }
        let ghost kept = events::events_view(self.events@);
        self.events.push_back(event);
        assert(events::events_view(self.events@) =~= kept.push(event@));
        assert(self@ =~= before.recorded(event@));
    }
}

/// Recording keeps the counts together, and the newest event is always retained.
pub proof fn record_keeps_balance(r: ReportView, e: EventView)
    requires
        r.balanced(),
        r.countable(e),
    ensures
        r.recorded(e).balanced(),
        r.recorded(e).events.last() == e,
        r.recorded(e).total == r.total + 1,
{
}

/// The important events of one group.
pub struct ImportantGroup {
    pub id: String,
    pub source: Source,
    pub text: String,
    pub severity: Severity,
    pub category: Category,
    pub count: u64,
    pub event_ids: Vec<String>,
}

#[verifier::ext_equal]
pub struct GroupView {
    pub id: Seq<char>,
    pub source: Seq<(Seq<char>, JsonView)>,
    pub text: Seq<char>,
    pub severity: Severity,
    pub category: Category,
    pub count: u64,
    pub event_ids: Seq<Seq<char>>,
}

/// A group that one event makes.
pub open spec fn group_with(e: EventView) -> GroupView {
    GroupView {
        id: e.group_id,
        source: e.source,
        text: e.text,
        severity: e.judgment.severity,
        category: e.judgment.category,
        count: 1,
        event_ids: seq![e.id],
    }
}

/// Groups with an event added to its own, or as a new one.
pub open spec fn grouped_with(groups: Seq<GroupView>, e: EventView) -> Seq<GroupView>
    decreases groups.len(),
{
    if groups.len() == 0 {
        seq![group_with(e)]
    } else if groups[0].id == e.group_id {
        let g = groups[0];
        seq![GroupView { count: (g.count + 1) as u64, event_ids: g.event_ids.push(e.id), ..g }]
            + groups.drop_first()
    } else {
        seq![groups[0]] + grouped_with(groups.drop_first(), e)
    }
}

/// The groups of the important events, each under its first event.
pub open spec fn important_groups(events: Seq<EventView>) -> Seq<GroupView>
    decreases events.len(),
{
    if events.len() == 0 {
        seq![]
    } else {
        let before = important_groups(events.drop_last());
        if events.last().judgment.importance == Importance::Important {
            grouped_with(before, events.last())
        } else {
            before
        }
    }
}

/// Whether one group is shown before another: it is more severe, or as severe and larger, or as
/// large and of the smaller name.
pub open spec fn shown_before(a: GroupView, b: GroupView) -> bool {
    if rank_of(a.severity) != rank_of(b.severity) {
        rank_of(a.severity) > rank_of(b.severity)
    } else if a.count != b.count {
        a.count > b.count
    } else {
        text::before(a.id, b.id)
    }
}

/// Groups in the order in which they are shown.
pub open spec fn ordered(groups: Seq<GroupView>) -> Seq<GroupView> {
    order::ordered(groups, ImportantGroup::first())
}

/// Whether no group stands before one that should come first.
pub open spec fn in_order(groups: Seq<GroupView>) -> bool {
    forall|i: int, j: int|
        0 <= i < j < groups.len() ==> !shown_before(#[trigger] groups[j], #[trigger] groups[i])
}

proof fn shown_before_order(a: GroupView, b: GroupView, c: GroupView)
    ensures
        shown_before(a, b) ==> !shown_before(b, a),
        shown_before(a, b) && !shown_before(c, b) ==> shown_before(a, c),
{
    if shown_before(a, b) && shown_before(b, a) {
        text::before_transitive(a.id, b.id, a.id);
        text::before_irreflexive(a.id);
    }
    if text::before(a.id, b.id) && text::before(b.id, c.id) {
        text::before_transitive(a.id, b.id, c.id);
    }
    if text::before(a.id, b.id) && !text::before(c.id, b.id) {
        text::before_total(c.id, b.id);
        if text::before(b.id, c.id) {
            text::before_transitive(a.id, b.id, c.id);
        }
    }
}

impl Ranked for ImportantGroup {
    type Model = GroupView;

    open spec fn model(&self) -> GroupView {
        self@
    }

    open spec fn first() -> spec_fn(GroupView, GroupView) -> bool {
        |a: GroupView, b: GroupView| shown_before(a, b)
    }

    proof fn is_consistent() {
        let first = ImportantGroup::first();
        assert forall|a: GroupView, b: GroupView| #[trigger] first(a, b) implies !first(b, a) by {
            shown_before_order(a, b, a);
        }
        assert forall|a: GroupView, b: GroupView, c: GroupView|
            #[trigger] first(a, b) && !(#[trigger] first(c, b)) implies first(a, c) by {
            shown_before_order(a, b, c);
        }
    }

    fn comes_first(&self, other: &Self) -> (r: bool) {
        let x = severity_rank(self.severity);
        let y = severity_rank(other.severity);
        if x != y {
            x > y
        } else if self.count != other.count {
            self.count > other.count
        } else {
            text::sorts_before(self.id.as_str(), other.id.as_str())
        }
    }
}

/// The groups come in order of severity, size and name, and none is lost or doubled by ordering
/// them.
pub proof fn groups_are_ordered(groups: Seq<GroupView>)
    ensures
        in_order(ordered(groups)),
        ordered(groups).to_multiset() == groups.to_multiset(),
{
    ImportantGroup::is_consistent();
    order::ordering_keeps_all(groups, ImportantGroup::first());
    let r = ordered(groups);
    assert forall|i: int, j: int| 0 <= i < j < r.len() implies !shown_before(
        #[trigger] r[j],
        #[trigger] r[i],
    ) by {
        assert(!(ImportantGroup::first())(r[j], r[i]));
    }
}

proof fn grouped_with_bounds(groups: Seq<GroupView>, e: EventView, most: int)
    requires
        forall|i: int|
            0 <= i < groups.len() ==> (#[trigger] groups[i]).event_ids.len() == groups[i].count
                <= most,
        0 <= most < u64::MAX,
    ensures
        ({
            let r = grouped_with(groups, e);
            &&& r.len() <= groups.len() + 1
            &&& forall|i: int|
                0 <= i < r.len() ==> (#[trigger] r[i]).event_ids.len() == r[i].count <= most + 1
        }),
    decreases groups.len(),
{
    let r = grouped_with(groups, e);
    if groups.len() == 0 {
    } else if groups[0].id == e.group_id {
        assert forall|i: int| 0 <= i < r.len() implies (#[trigger] r[i]).event_ids.len()
            == r[i].count <= most + 1 by {
            if i > 0 {
                assert(r[i] == groups[i]);
            } else {
                assert(groups[0].event_ids.len() == groups[0].count <= most);
            }
        }
    } else {
        let rest = groups.drop_first();
        assert forall|i: int| 0 <= i < rest.len() implies (#[trigger] rest[i]).event_ids.len()
            == rest[i].count <= most by {
            assert(groups[i + 1] == rest[i]);
        }
        grouped_with_bounds(rest, e, most);
        let tail = grouped_with(rest, e);
        assert forall|i: int| 0 <= i < r.len() implies (#[trigger] r[i]).event_ids.len()
            == r[i].count <= most + 1 by {
            if i > 0 {
                assert(r[i] == tail[i - 1]);
            } else {
                assert(r[0] == groups[0]);
                assert(groups[0].count <= most);
            }
        }
    }
}

proof fn group_counts(events: Seq<EventView>)
    requires
        events.len() < u64::MAX,
    ensures
        forall|i: int|
            0 <= i < important_groups(events).len() ==> (#[trigger] important_groups(
                events,
            )[i]).event_ids.len() == important_groups(events)[i].count <= events.len(),
        important_groups(events).len() <= events.len(),
    decreases events.len(),
{
    if events.len() > 0 {
        group_counts(events.drop_last());
        grouped_with_bounds(
            important_groups(events.drop_last()),
            events.last(),
            events.len() - 1,
        );
    }
}

impl ImportantGroup {
    pub open spec fn view(&self) -> GroupView {
        GroupView {
            id: self.id@,
            source: self.source@,
            text: self.text@,
            severity: self.severity,
            category: self.category,
            count: self.count,
            event_ids: text::list_view(self.event_ids@),
        }
    }
}

/// The views of a list of groups.
pub open spec fn groups_view(v: Seq<ImportantGroup>) -> Seq<GroupView> {
    Seq::new(v.len(), |i: int| v[i]@)
}

/// The names of groups.
spec fn group_ids(groups: Seq<GroupView>) -> Seq<Seq<char>> {
    Seq::new(groups.len(), |i: int| groups[i].id)
}

proof fn grouped_with_at(groups: Seq<GroupView>, e: EventView, i: int)
    requires
        0 <= i <= groups.len(),
        forall|k: int| 0 <= k < i ==> (#[trigger] groups[k]).id != e.group_id,
    ensures
        grouped_with(groups, e) == groups.take(i) + grouped_with(groups.skip(i), e),
    decreases i,
{
    if i == 0 {
        assert(groups.skip(0) =~= groups);
        assert(groups.take(0) + grouped_with(groups, e) =~= grouped_with(groups, e));
    } else {
        let rest = groups.drop_first();
        assert(groups[0].id != e.group_id);
        assert forall|k: int| 0 <= k < i - 1 implies (#[trigger] rest[k]).id != e.group_id by {
            assert(rest[k] == groups[k + 1]);
        }
        grouped_with_at(rest, e, i - 1);
        assert(rest.skip(i - 1) =~= groups.skip(i));
        assert(seq![groups[0]] + (rest.take(i - 1) + grouped_with(groups.skip(i), e))
            =~= groups.take(i) + grouped_with(groups.skip(i), e));
    }
}

fn add_event(groups: &mut Vec<ImportantGroup>, names: &mut Names, e: &Event)
    requires
        old(names).wf(),
        old(names)@ == group_ids(groups_view(old(groups)@)),
        old(groups)@.len() < usize::MAX,
        forall|i: int|
            0 <= i < old(groups)@.len() ==> (#[trigger] groups_view(old(groups)@)[i]).count
                < u64::MAX,
    ensures
        groups_view(final(groups)@) == grouped_with(groups_view(old(groups)@), e@),
        final(names).wf(),
        final(names)@ == group_ids(groups_view(final(groups)@)),
{
    let ghost before = groups_view(groups@);
    match names.find(e.group_id.as_str()) {
        Some(i) => {
            proof {
                assert forall|k: int| 0 <= k < i implies (#[trigger] before[k]).id
                    != e@.group_id by {
                    assert(names@[k] == before[k].id);
                }
                grouped_with_at(before, e@, i as int);
                assert(names@[i as int] == before[i as int].id);
            }
            let ghost was = groups@[i as int]@;
            assert(before[i as int] == was);
            assert(before.skip(i as int)[0] == was);
            let id = e.id.clone();
            groups[i].count += 1;
            groups[i].event_ids.push(id);
            let ghost now = groups@[i as int]@;
            assert(now.event_ids =~= was.event_ids.push(e@.id));
            assert(now == (GroupView {
                count: (was.count + 1) as u64,
                event_ids: was.event_ids.push(e@.id),
                ..was
            }));
            assert(groups_view(groups@) =~= before.take(i as int) + grouped_with(
                before.skip(i as int),
                e@,
            ));
        },
        None => {
            proof {
                assert forall|k: int| 0 <= k < before.len() implies (#[trigger] before[k]).id
                    != e@.group_id by {
                    assert(names@[k] == before[k].id);
                }
                grouped_with_at(before, e@, before.len() as int);
                assert(before.skip(before.len() as int) =~= seq![]);
            }
            let mut event_ids: Vec<String> = Vec::new();
            event_ids.push(e.id.clone());
            let g = ImportantGroup {
                id: e.group_id.clone(),
                source: e.source.clone(),
                text: e.text.clone(),
                severity: e.judgment.severity,
                category: e.judgment.category,
                count: 1,
                event_ids,
            };
            assert(g@.event_ids =~= seq![e@.id]);
            assert(g@ == group_with(e@));
            names.add_name(e.group_id.clone());
            groups.push(g);
            assert(groups_view(groups@) =~= before.take(before.len() as int) + seq![
                group_with(e@),
            ]);
        },
    }
    assert(names@ =~= group_ids(groups_view(groups@)));
}

impl Report {
    /// The groups of the important events that are retained, in the order in which they are
    /// shown.
    pub fn groups(&self) -> (r: Vec<ImportantGroup>)
        ensures
            groups_view(r@) == ordered(important_groups(self@.events)),
    {
        let ghost all = self@.events;
        let mut found: Vec<ImportantGroup> = Vec::new();
        let mut names = Names::new();
        let mut i: usize = 0;
        assert(all.take(0) =~= seq![]);
        assert(groups_view(found@) =~= seq![]);
        assert(names@ =~= group_ids(groups_view(found@)));
        while i < self.events.len()
            invariant
                all == self@.events,
                i <= self.events@.len(),
                names.wf(),
                names@ == group_ids(groups_view(found@)),
                groups_view(found@) == important_groups(all.take(i as int)),
            decreases self.events@.len() - i,
        {
            let e = &self.events[i];
            let ghost taken = all.take(i + 1);
            assert(taken.drop_last() =~= all.take(i as int));
            assert(taken.last() == e@);
            if e.judgment.importance == Importance::Important {
                proof {
                    group_counts(all.take(i as int));
                    assert(found@.len() == groups_view(found@).len());
                }
                add_event(&mut found, &mut names, e);
            }
            i += 1;
        }
        assert(all.take(i as int) =~= all);
        assert(order::models(found@) =~= groups_view(found@));
        let out = order::sort(found);
        assert(order::models(out@) =~= groups_view(out@));
        out
    }
}

/// What requests have cost, as a JSON object.
pub open spec fn usage_json(u: UsageView) -> JsonView {
    JsonView::Object(
        seq![].push(("cost_complete"@, JsonView::Bool(u.cost_complete))).push(("estimated_cost_usd"@, json::real_number(u.estimated_cost_usd))).push(("input_tokens"@, json::integer(u.input_tokens as int))).push(("input_usd_per_million"@, json::real_number(u.input_usd_per_million))).push(("metered_requests"@, json::integer(u.metered_requests as int))).push(("missing_output_usage"@, json::integer(u.missing_output_usage as int))).push(("output_tokens"@, json::integer(u.output_tokens as int))).push(("output_usd_per_million"@, json::real_number(u.output_usd_per_million))).push(("request_attempts"@, json::integer(u.request_attempts as int))).push(("requests_finished"@, json::integer(u.requests_finished as int))).push(("unmetered_requests"@, json::integer(u.unmetered_requests as int))),
    )
}

pub fn write_usage(u: &Usage) -> (r: Json)
    ensures
        r@ == usage_json(u@),
{
    Fields::new().with("cost_complete", Json::Bool(u.cost_complete)).with("estimated_cost_usd", json::number(&u.estimated_cost_usd)).with("input_tokens", json::unsigned(u.input_tokens)).with("input_usd_per_million", json::number(&u.input_usd_per_million)).with("metered_requests", json::unsigned(u.metered_requests)).with("missing_output_usage", json::unsigned(u.missing_output_usage)).with("output_tokens", json::unsigned(u.output_tokens)).with("output_usd_per_million", json::number(&u.output_usd_per_million)).with("request_attempts", json::unsigned(u.request_attempts)).with("requests_finished", json::unsigned(u.requests_finished)).with("unmetered_requests", json::unsigned(u.unmetered_requests)).object()
}

/// A coverage record as a JSON object.
pub open spec fn coverage_json(c: CoverageView) -> JsonView {
    JsonView::Object(
        seq![].push(("source"@, JsonView::Object(c.source))).push(
            ("status"@, JsonView::Text(c.status)),
        ).push(("warnings"@, json::text_list(c.warnings))),
    )
}

fn write_coverage(c: &VecDeque<Coverage>) -> (r: Json)
    ensures
        r@ == JsonView::List(
            Seq::new(c@.len(), |i: int| coverage_json(coverage_view(c@)[i])),
        ),
{
    let ghost all = coverage_view(c@);
    let mut list = Items::new();
    let mut i: usize = 0;
    while i < c.len()
        invariant
            all == coverage_view(c@),
            i <= c@.len(),
            list@ == Seq::new(i as nat, |k: int| coverage_json(all[k])),
        decreases c@.len() - i,
    {
        let item = &c[i];
        list = list.with(
            Fields::new().with("source", item.source.json()).with(
                "status",
                json::string(item.status.as_str()),
            ).with("warnings", json::strings(&item.warnings)).object(),
        );
        assert(list@ =~= Seq::new((i + 1) as nat, |k: int| coverage_json(all[k])));
        i += 1;
    }
    list.list()
}

/// A group as a JSON object.
pub open spec fn group_json(g: GroupView) -> JsonView {
    JsonView::Object(
        seq![].push(("category"@, JsonView::Text(jev::category_name(g.category)))).push(
            ("count"@, json::integer(g.count as int)),
        ).push(("event_ids"@, json::text_list(g.event_ids))).push(
            ("id"@, JsonView::Text(g.id)),
        ).push(("severity"@, JsonView::Text(jev::severity_name(g.severity)))).push(
            ("source"@, JsonView::Object(g.source)),
        ).push(("text"@, JsonView::Text(g.text))),
    )
}

fn write_groups(groups: &Vec<ImportantGroup>) -> (r: Json)
    ensures
        r@ == JsonView::List(
            Seq::new(groups@.len(), |i: int| group_json(groups_view(groups@)[i])),
        ),
{
    let ghost all = groups_view(groups@);
    let mut list = Items::new();
    let mut i: usize = 0;
    while i < groups.len()
        invariant
            all == groups_view(groups@),
            i <= groups@.len(),
            list@ == Seq::new(i as nat, |k: int| group_json(all[k])),
        decreases groups@.len() - i,
    {
        let g = &groups[i];
        list = list.with(
            Fields::new().with("category", json::string(g.category.label())).with(
                "count",
                json::unsigned(g.count),
            ).with("event_ids", json::strings(&g.event_ids)).with(
                "id",
                json::string(g.id.as_str()),
            ).with("severity", json::string(g.severity.label())).with(
                "source",
                g.source.json(),
            ).with("text", json::string(g.text.as_str())).object(),
        );
        assert(list@ =~= Seq::new((i + 1) as nat, |k: int| group_json(all[k])));
        i += 1;
    }
    list.list()
}

fn write_events(v: &VecDeque<Event>) -> (r: Json)
    ensures
        r@ == JsonView::List(
            Seq::new(v@.len(), |i: int| events::event_json(events::events_view(v@)[i])),
        ),
{
    let ghost all = events::events_view(v@);
    let mut list = Items::new();
    let mut i: usize = 0;
    while i < v.len()
        invariant
            all == events::events_view(v@),
            i <= v@.len(),
            list@ == Seq::new(i as nat, |k: int| events::event_json(all[k])),
        decreases v@.len() - i,
    {
        list = list.with(v[i].json());
        assert(list@ =~= Seq::new((i + 1) as nat, |k: int| events::event_json(all[k])));
        i += 1;
    }
    list.list()
}

/// Whether a run has seen all that there was: it was no live one, nothing was missed, dropped or
/// evicted, and every event has a verdict.
pub open spec fn complete(r: ReportView, m: MetricsView, live: bool) -> bool {
    !live && m.coverage_gaps == 0 && m.dropped == 0 && r.evicted == 0 && r.counts.unknown == 0
}

/// The counts of a run as a JSON object.
pub open spec fn summary_json(
    r: ReportView,
    m: MetricsView,
    u: UsageView,
    live: bool,
    elapsed: RealView,
) -> JsonView {
    JsonView::Object(
        seq![].push(("api_requests"@, json::integer(u.request_attempts as int))).push(
            ("complete_within_window"@, JsonView::Bool(complete(r, m, live))),
        ).push(("coverage_gaps"@, json::integer(m.coverage_gaps as int))).push(
            ("elapsed_seconds"@, json::real_number(elapsed)),
        ).push(("events"@, json::integer(r.total as int))).push(
            ("evicted_events"@, json::integer(r.evicted as int)),
        ).push(("important"@, json::integer(r.counts.important as int))).push(
            ("lines"@, json::integer(r.lines as int)),
        ).push(("retained_events"@, json::integer(r.events.len() as int))).push(
            ("reused_events"@, json::integer(r.reused as int)),
        ).push(("routine"@, json::integer(r.counts.routine as int))).push(
            ("streams"@, json::integer(m.streams_started as int)),
        ).push(("uncertain"@, json::integer(r.counts.uncertain as int))).push(
            ("unknown"@, json::integer(r.counts.unknown as int)),
        ),
    )
}

/// How a run judged its events.
pub open spec fn mode_name(offline: bool) -> Seq<char> {
    if offline {
        "offline-rules"@
    } else {
        "jev"@
    }
}

/// The report on a run as a JSON object.
pub open spec fn report_json(
    r: ReportView,
    m: MetricsView,
    u: UsageView,
    scope: JsonView,
    offline: bool,
    live: bool,
    elapsed: RealView,
    created_at: Seq<char>,
) -> JsonView {
    let groups = ordered(important_groups(r.events));
    JsonView::Object(
        seq![].push(("batches"@, json::integer(r.batches as int))).push(
            (
                "coverage"@,
                JsonView::List(
                    Seq::new(m.coverage.len(), |i: int| coverage_json(m.coverage[i])),
                ),
            ),
        ).push(("created_at"@, JsonView::Text(created_at))).push(
            (
                "events"@,
                JsonView::List(
                    Seq::new(r.events.len(), |i: int| events::event_json(r.events[i])),
                ),
            ),
        ).push(
            (
                "important_groups"@,
                JsonView::List(Seq::new(groups.len(), |i: int| group_json(groups[i]))),
            ),
        ).push(("metrics"@, metrics_json(m))).push(
            ("mode"@, JsonView::Text(mode_name(offline))),
        ).push(("runtime"@, JsonView::Text("rust"@))).push(
            ("schema_version"@, json::integer(2)),
        ).push(("scope"@, scope)).push(("summary"@, summary_json(r, m, u, live, elapsed))).push(
            ("usage"@, usage_json(u)),
        ),
    )
}

impl Report {
    /// Whether the run has seen all that there was.
    pub fn is_complete(&self, metrics: &Metrics, live: bool) -> (r: bool)
        ensures
            r == complete(self@, metrics@, live),
    {
        !live && metrics.coverage_gaps == 0 && metrics.dropped == 0 && self.evicted == 0
            && self.counts.unknown == 0
    }

    /// The report on a run, as it stands at a time.
    pub fn value_at(
        &self,
        metrics: &Metrics,
        usage: &Usage,
        scope: Json,
        offline: bool,
        live: bool,
        elapsed: &Real,
        created_at: &str,
    ) -> (r: Json)
        ensures
            r@ == report_json(
                self@,
                metrics@,
                usage@,
                scope@,
                offline,
                live,
                elapsed@,
                created_at@,
            ),
    {
        let groups = self.groups();
        let mode = if offline {
            "offline-rules"
        } else {
            "jev"
        };
        let summary = Fields::new().with("api_requests", json::unsigned(usage.request_attempts)).with(
            "complete_within_window",
            Json::Bool(self.is_complete(metrics, live)),
        ).with("coverage_gaps", json::unsigned(metrics.coverage_gaps)).with(
            "elapsed_seconds",
            json::number(elapsed),
        ).with("events", json::unsigned(self.total)).with(
            "evicted_events",
            json::unsigned(self.evicted),
        ).with("important", json::unsigned(self.counts.important)).with(
            "lines",
            json::unsigned(self.lines),
        ).with("retained_events", json::unsigned(self.events.len() as u64)).with(
            "reused_events",
            json::unsigned(self.reused),
        ).with("routine", json::unsigned(self.counts.routine)).with(
            "streams",
            json::unsigned(metrics.streams_started),
        ).with("uncertain", json::unsigned(self.counts.uncertain)).with(
            "unknown",
            json::unsigned(self.counts.unknown),
        ).object();
        Fields::new().with("batches", json::unsigned(self.batches)).with(
            "coverage",
            write_coverage(&metrics.coverage),
        ).with("created_at", json::string(created_at)).with(
            "events",
            write_events(&self.events),
        ).with("important_groups", write_groups(&groups)).with("metrics", metrics.json()).with(
            "mode",
            json::string(mode),
        ).with("runtime", json::string("rust")).with("schema_version", json::unsigned(2)).with(
            "scope",
            scope,
        ).with("summary", summary).with("usage", write_usage(usage)).object()
    }

    /// The report on a run, as it stands now.
    pub fn value(
        &self,
        metrics: &Metrics,
        usage: &Usage,
        scope: Json,
        offline: bool,
        live: bool,
        elapsed: &Real,
    ) -> (r: Json)
        ensures
            exists|at: Seq<char>|
                r@ == #[trigger] report_json(
                    self@,
                    metrics@,
                    usage@,
                    scope@,
                    offline,
                    live,
                    elapsed@,
                    at,
                ),
    {
        let at = moment::clock_text();
        self.value_at(metrics, usage, scope, offline, live, elapsed, at.as_str())
    }
}

}
