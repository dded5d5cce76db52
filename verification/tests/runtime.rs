//! Finite inputs, and events that are judged batch by batch.
use jevernetes::events::{Event, Line, Parser, Source};
use jevernetes::ieee::Real;
use jevernetes::jev::{decode, Importance, Usage};
use jevernetes::progress::Progress;
use jevernetes::report::{gap, Metrics, Report};
use jevernetes::runtime::{
    emitted, stop_at_limit, AnalyzeOptions, Arrival, Ingest, Lane, Shortfall,
};

fn number(v: f64) -> Real {
    Real {
        bits: v.to_bits(),
        text: serde_json::to_string(&v).unwrap(),
    }
}

fn verdict() -> Vec<u8> {
    br#"{"answers":{"e0_importance":{"type":"choice","choice":"important","confidence":0.99},"e0_severity":{"type":"choice","choice":"impact","confidence":0.9},"e0_category":{"type":"choice","choice":"fraud","confidence":0.8}},"usage":{"input_tokens":100,"output_tokens":0}}"#.to_vec()
}

/// Reads an input to its end or its limit.
fn ingest(bytes: &[u8], max_bytes: u64, metrics: &mut Metrics) -> Vec<Event> {
    let mut input = Ingest::new(Source::new(), max_bytes);
    let mut rest = bytes;
    let mut events = vec![];
    loop {
        let came = Arrival::Count(input.want().max(1).min(rest.len()));
        let Some(n) = input.arrived(came, metrics) else { break };
        events.extend(input.take(&rest[..n]));
        rest = &rest[n..];
    }
    events.extend(input.finish(false));
    events
}

fn options(batch_size: usize, max_batches: u64, retain: usize, live: bool) -> AnalyzeOptions {
    AnalyzeOptions {
        batch_size,
        max_batches,
        max_cost: number(1.0),
        grouping: true,
        retain,
        max_events: 100,
        live,
        print_events: false,
    }
}

/// Judges events as a run does; the service answers from what was prepared.
fn analyze(
    events: Vec<Event>,
    metrics: &mut Metrics,
    options: AnalyzeOptions,
    mut service: Option<Vec<Result<Vec<u8>, String>>>,
    usage: &mut Usage,
) -> (Report, Vec<usize>) {
    let online = service.is_some();
    let mut lane = Lane::new(options);
    let mut asked = vec![];
    let mut waiting = events;
    while !waiting.is_empty() {
        let n = lane.batch_limit().unwrap().min(waiting.len());
        let mut batch: Vec<Event> = waiting.drain(..n).collect();
        let known = vec![];
        let plan = lane.prepare(&mut batch, &known, online, 0);
        if let (Some(replies), false) = (&mut service, plan.owned.is_empty()) {
            if let Some(why) = lane.refusal(false, &usage.estimated_cost_usd) {
                lane.settle(&mut batch, &plan, Err(why.to_string()), 0);
            } else {
                lane.count_batch();
                let questions = lane.questions(&batch, &plan);
                asked.push(questions.len());
                let result = match replies.remove(0) {
                    Ok(raw) => {
                        usage.record(&raw);
                        decode(&raw, questions.len()).map_err(|e| e.to_string())
                    }
                    Err(e) => Err(e),
                };
                lane.settle(&mut batch, &plan, result, 0);
            }
        }
        lane.finish(batch, metrics);
    }
    (lane.report, asked)
}

#[test]
fn queue_bounds_drops_and_byte_limits() {
    let mut metrics = Metrics::default();
    emitted(&mut metrics, true, 1);
    emitted(&mut metrics, false, 1);
    assert_eq!(metrics.dropped, 1);
    assert_eq!((metrics.received, metrics.queue_high_water), (2, 1));
    ingest(b"\n\n\n\n\n", 3, &mut metrics);
    assert_eq!(metrics.coverage_gaps, 1);
}

#[test]
fn retention_and_offline_batching() {
    let mut metrics = Metrics::default();
    let events = ingest(b"ERROR failed\nINFO ready\nWARN slow\n", 1000, &mut metrics);
    let mut usage = Usage::new(number(0.0), number(0.0));
    let (r, _) = analyze(
        events,
        &mut metrics,
        options(2, 1, 2, false),
        None,
        &mut usage,
    );
    assert_eq!(r.total, 3);
    assert_eq!(r.events.len(), 2);
    assert_eq!(r.evicted, 1);
    assert_eq!(r.counts.important, 2);
}

#[test]
fn actual_http_grouping_reuses_across_batches_and_preserves_occurrences() {
    let mut metrics = Metrics::default();
    let events = ingest(
        b"ERROR payment failed\nERROR payment failed\nERROR payment failed\n",
        1000,
        &mut metrics,
    );
    let mut usage = Usage::new(number(0.0), number(0.0));
    let (r, asked) = analyze(
        events,
        &mut metrics,
        options(2, 1, 4, true),
        Some(vec![Ok(verdict())]),
        &mut usage,
    );
    assert_eq!(r.batches, 1);
    assert_eq!(r.reused, 2);
    assert_eq!(r.total, 3);
    let ids: std::collections::HashSet<_> = r.events.iter().map(|e| &e.id).collect();
    assert_eq!(ids.len(), 3);
    assert!(r
        .events
        .iter()
        .all(|e| e.judgment.importance == Importance::Important));
    assert_eq!(usage.input_tokens, 100);
    assert_eq!(asked, vec![1]);
}

#[test]
fn failed_judgments_retry_next_batch_and_never_claim_reuse() {
    let mut metrics = Metrics::default();
    let events = ingest(
        b"ERROR failed\nERROR failed\nERROR failed\n",
        1000,
        &mut metrics,
    );
    let mut usage = Usage::new(number(0.0), number(0.0));
    let (r, asked) = analyze(
        events,
        &mut metrics,
        options(2, 2, 4, false),
        Some(vec![Err("Jev HTTP 401".into()), Ok(verdict())]),
        &mut usage,
    );
    assert_eq!(r.batches, 2);
    assert_eq!(r.reused, 0);
    assert_eq!(r.counts.unknown, 2);
    assert_eq!(r.counts.important, 1);
    assert_eq!(asked.len(), 2);
}

#[test]
fn an_exhausted_budget_leaves_events_unknown() {
    let mut metrics = Metrics::default();
    let events = ingest(b"ERROR one\nERROR two\n", 1000, &mut metrics);
    let mut usage = Usage::new(number(0.0), number(0.0));
    let (r, asked) = analyze(
        events,
        &mut metrics,
        options(1, 1, 4, false),
        Some(vec![Ok(verdict())]),
        &mut usage,
    );
    assert_eq!((r.counts.important, r.counts.unknown), (1, 1));
    assert_eq!(asked, vec![1]);
    let last = r.events.back().unwrap();
    assert_eq!(
        last.judgment.analysis_error.as_deref(),
        Some("AI batch budget exhausted")
    );
    let mut costly = options(1, 9, 4, true);
    costly.max_cost = number(0.25);
    let lane = Lane::new(costly);
    assert_eq!(
        lane.refusal(false, &number(0.25)),
        Some("Estimated cost threshold reached")
    );
    assert_eq!(
        lane.refusal(true, &number(0.0)),
        Some("Stopped before classification")
    );
    assert_eq!(lane.refusal(false, &number(0.24)), None);
    assert!(lane.ends(false, &number(0.3)));
    assert!(!lane.ends(false, &number(0.2)));
}

#[test]
fn event_cap_is_global_and_exact_boundary_is_not_a_gap() {
    for (input, gaps) in [(&b"one\ntwo\nthree\n"[..], 1), (&b"one\ntwo\n"[..], 0)] {
        let mut metrics = Metrics::default();
        let mut events = ingest(input, 1000, &mut metrics);
        let mut o = options(8, 1, 2, false);
        o.max_events = 2;
        let mut lane = Lane::new(o);
        while let Some(n) = lane.batch_limit() {
            let n = n.min(events.len());
            if n == 0 {
                break;
            }
            let mut batch: Vec<Event> = events.drain(..n).collect();
            let known = vec![];
            lane.prepare(&mut batch, &known, false, 0);
            lane.finish(batch, &mut metrics);
        }
        if !events.is_empty() {
            stop_at_limit(&mut metrics, events.len() as u64 - 1);
        }
        assert_eq!(lane.report.total, 2);
        assert_eq!(lane.report.events.len(), 2);
        assert_eq!(metrics.coverage_gaps, gaps);
        assert_eq!(metrics.dropped, gaps);
        assert_eq!(lane.report.is_complete(&metrics, false), gaps == 0);
    }
}

#[test]
fn a_cut_input_is_marked() {
    let mut metrics = Metrics::default();
    let events = ingest(b"ERROR failed\nINFO ready\n", 5, &mut metrics);
    assert_eq!(events.len(), 1);
    assert!(events[0].truncated);
    assert_eq!(events[0].text, "ERROR");
    assert_eq!(
        metrics.coverage[0].warnings[0],
        "Decompressed input byte limit reached"
    );
    let mut input = Ingest::new(Source::new(), 100);
    input.take(b"INFO waiting");
    let rest = input.finish(true);
    assert!(rest[0].truncated);
    input.fall_short(Shortfall::Queued, &mut metrics);
    input.fall_short(Shortfall::Stopped, &mut metrics);
    input.fall_short(Shortfall::ReadFailed, &mut metrics);
    assert!(metrics.coverage[1].warnings[0].contains("queued evidence"));
    assert_eq!(metrics.coverage[3].status, "error");
    assert_eq!(metrics.coverage_gaps, 4);
}

#[test]
fn coverage_records_are_bounded() {
    let mut metrics = Metrics::default();
    gap(&mut metrics, &Source::new(), "ok", "");
    assert_eq!(metrics.coverage_gaps, 0);
    assert!(metrics.coverage[0].warnings.is_empty());
    for _ in 0..500 {
        gap(&mut metrics, &Source::new(), "error", "x");
    }
    assert_eq!(metrics.coverage.len(), 500);
    assert_eq!(metrics.coverage_records_omitted, 1);
    assert_eq!(metrics.coverage_gaps, 500);
}

#[test]
fn reports_put_the_worst_first() {
    let mut metrics = Metrics::default();
    let mut events = ingest(b"ERROR a\nERROR b\nERROR b\nINFO c\n", 1000, &mut metrics);
    for e in events.iter_mut().take(3) {
        e.judgment.importance = Importance::Important;
    }
    let mut r = Report::new(10);
    for e in events {
        r.record(e);
    }
    let groups = r.groups();
    assert_eq!(groups.len(), 2);
    assert_eq!((groups[0].text.as_str(), groups[0].count), ("ERROR b", 2));
    let usage = Usage::new(number(0.042), number(0.0));
    let v = r.value(
        &metrics,
        &usage,
        jevernetes::cli::files_scope(),
        true,
        false,
        &number(1.5),
    );
    let v: serde_json::Value = serde_json::from_str(&v.text()).unwrap();
    assert_eq!(v["schema_version"], 2);
    assert_eq!(v["mode"], "offline-rules");
    assert_eq!(v["summary"]["events"], 4);
    assert_eq!(v["summary"]["elapsed_seconds"], 1.5);
    assert_eq!(v["important_groups"][0]["count"], 2);
    assert_eq!(v["scope"]["kind"], "files");
    assert_eq!(v["usage"]["input_usd_per_million"], 0.042);
}

#[test]
fn progress_keeps_a_window() {
    let mut parser = Parser::new(Source::new());
    let mut events = vec![];
    for n in 0..4 {
        events.extend(parser.feed(Line {
            bytes: format!("INFO {n}").into_bytes(),
            truncated: false,
            private: false,
        }));
    }
    events.extend(parser.flush());
    let mut p = Progress::new(2, Usage::new(number(0.0), number(0.0)));
    p.begin(&events);
    assert_eq!(p.pending.len(), 4);
    p.commit(&events, None);
    assert_eq!((p.events.len(), p.total, p.evicted), (2, 4, 2));
    assert_eq!(p.events[1].text, "INFO 3");
    assert!(p.pending.is_empty());
    p.finish("Complete");
    assert_eq!((p.phase, p.revision), ("Complete", 3));
    assert_eq!(p.counters().events.len(), 0);
}

#[test]
fn an_input_that_ends_at_its_limit_has_no_gap() {
    let mut metrics = Metrics::default();
    let events = ingest(b"ERROR failed\n", 13, &mut metrics);
    assert_eq!(events.len(), 1);
    assert_eq!(events[0].text, "ERROR failed");
    assert_eq!(metrics.coverage_gaps, 0);
    ingest(b"ERROR failed\n", 12, &mut metrics);
    assert_eq!(metrics.coverage_gaps, 1);
}

#[test]
fn what_came_of_a_read_decides() {
    let mut metrics = Metrics::default();
    let mut input = Ingest::new(Source::new(), 4);
    assert_eq!(input.arrived(Arrival::Count(4), &mut metrics), Some(4));
    assert_eq!(input.arrived(Arrival::Count(0), &mut metrics), None);
    assert_eq!(metrics.coverage_gaps, 0);
    assert_eq!(input.arrived(Arrival::Cancelled, &mut metrics), None);
    assert_eq!(
        metrics.coverage[0].warnings[0],
        "Collection stopped before end of input"
    );
    assert_eq!(input.arrived(Arrival::Failed, &mut metrics), None);
    assert_eq!(metrics.coverage[1].warnings[0], "Input read failed");
    input.take(b"INFO");
    assert_eq!(input.want(), 0);
    assert_eq!(input.arrived(Arrival::Count(0), &mut metrics), None);
    assert_eq!(input.arrived(Arrival::Cancelled, &mut metrics), None);
    assert_eq!(metrics.coverage_gaps, 2);
    assert_eq!(input.arrived(Arrival::Count(1), &mut metrics), None);
    assert_eq!(input.arrived(Arrival::Failed, &mut metrics), None);
    assert_eq!(metrics.coverage_gaps, 4);
    assert_eq!(
        metrics.coverage[3].warnings[0],
        "Decompressed input byte limit reached"
    );
}
