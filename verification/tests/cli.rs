//! The command line, and the paths of a controller.
use jevernetes::cli::{
    analyze_options, cluster_scope, compressed, environment_key, exit_code, file_key, file_source,
    positive, since, summary, write_tail, Flags,
};
use jevernetes::controller::paths;
use jevernetes::controller::paths::{FileId, Last, Step, Whole};
use jevernetes::events::{Line, Parser};
use jevernetes::ieee::Real;
use jevernetes::jev::Importance;
use jevernetes::report::{Metrics, Report};

#[test]
fn numbers_and_times_are_read() {
    assert_eq!(positive("1"), Ok(1));
    assert_eq!(positive("1000000"), Ok(1_000_000));
    for bad in ["0", "1000001", "-1", "x", ""] {
        assert_eq!(positive(bad), Err("must be between 1 and 1000000"));
    }
    for (text, seconds) in [("60", 60), ("60s", 60), ("30m", 1800), ("1h", 3600), ("2d", 172800)] {
        assert_eq!(since(text), Ok(seconds));
    }
    for bad in ["-1", "h", "", "1.5h", "9223372036854775807m", "1w"] {
        assert_eq!(
            since(bad),
            Err("use a nonnegative duration such as 1h, 30m or 60s")
        );
    }
}

#[test]
fn options_follow_the_flags() {
    let mut flags = Flags {
        batch_size: 8,
        max_batches: 500,
        max_cost: Real {
            bits: 0.25f64.to_bits(),
            text: "0.25".into(),
        },
        no_grouping: false,
        max_events: 100_000,
        retain_events: 2000,
        live: true,
        json: false,
        tui: false,
    };
    let o = analyze_options(&flags);
    assert_eq!((o.retain, o.live, o.print_events, o.grouping), (2000, true, true, true));
    flags.json = true;
    assert!(!analyze_options(&flags).print_events);
    flags.live = false;
    flags.no_grouping = true;
    let o = analyze_options(&flags);
    assert_eq!((o.retain, o.grouping), (100_000, false));
}

#[test]
fn keys_come_from_the_environment_or_a_file() {
    let some = |s: &str| Some(s.to_string());
    assert_eq!(environment_key(&some("a"), &some("b")), some("a"));
    assert_eq!(environment_key(&some("  "), &some("b")), some("b"));
    assert_eq!(environment_key(&None, &some("\n")), None);
    assert_eq!(file_key(b"k\n"), Ok(some("k\n")));
    assert_eq!(file_key(b" "), Ok(None));
    assert_eq!(file_key(&vec![b'x'; 16385]), Err("Jev key file exceeds limit"));
    assert_eq!(file_key(b"\xff"), Err("Invalid Jev key file"));
}

#[test]
fn scopes_and_sources_are_described() {
    assert_eq!(
        file_source("a.log").json().text(),
        "{\"path\":\"a.log\",\"type\":\"file\"}"
    );
    assert!(compressed("x.gz") && !compressed("gz") && !compressed("x.gz.txt"));
    assert_eq!(
        cluster_scope("c", &None, &Some("app=x".into()), 60, 5, true).text(),
        "{\"context\":\"c\",\"live\":true,\"namespace\":null,\"selector\":\"app=x\",\"since_seconds\":60,\"tail\":5}"
    );
    assert_eq!(exit_code(true, true), 130);
    assert_eq!(exit_code(false, true), 0);
    assert_eq!(exit_code(false, false), 2);
}

#[test]
fn runs_are_summed_up() {
    let mut p = Parser::new(file_source("x"));
    p.feed(Line {
        bytes: b"ERROR\tfailed".to_vec(),
        truncated: false,
        private: false,
    });
    let mut e = p.flush().unwrap();
    e.judgment.importance = Importance::Important;
    let mut r = Report::new(5);
    r.record(e);
    let mut m = Metrics::default();
    m.dropped = 2;
    assert_eq!(
        summary(&r, &m, true, "0.00000000"),
        "jevernetes · offline-rules\n1 events / 1 lines · important 1 · uncertain 0 · unknown 0\ncoverage gaps 0 · dropped 2 · estimated $0.00000000\n[unknown / unknown] ×1 ERROR failed\n"
    );
    assert_eq!(
        write_tail(&m),
        "[tail] streams=0 queue=0 high_water=0 dropped=2 reconnects=0 gaps=0"
    );
}

fn file(path: &str, node: Option<(u64, u64)>) -> FileId {
    FileId {
        path: path.as_bytes().to_vec(),
        node,
    }
}

#[test]
fn outputs_never_replace_the_state() {
    let state = vec![
        Some(file("/s/db", Some((1, 10)))),
        Some(file("/s/db.lock", None)),
        Some(file("/s/db-wal", None)),
    ];
    assert!(paths::validate(&state, &file("/s/report.json", Some((1, 11)))).is_ok());
    for bad in [
        file("/s/db", None),
        file("/s/db-wal", None),
        file("/elsewhere", Some((1, 10))),
    ] {
        assert_eq!(paths::validate(&state, &bad).err(), Some(paths::CONFLICT));
    }
    let doubtful = vec![Some(file("/s/db", None)), None, Some(file("/s/db-wal", None))];
    for (output, expected) in [
        ("/s/db", paths::CONFLICT),
        ("/s/db-wal", paths::UNRESOLVED),
        ("/s/report.json", paths::UNRESOLVED),
    ] {
        assert_eq!(paths::validate(&doubtful, &file(output, None)).err(), Some(expected));
    }
    assert_eq!(paths::sidecars(), ["", ".lock", "-journal", "-wal", "-shm"]);
}

#[test]
fn paths_are_resolved_step_by_step() {
    let whole = paths::resolve(0, Whole::Resolved, Last::Other);
    assert_eq!(whole, Step::Done);
    assert_eq!(paths::resolve(3, Whole::Missing, Last::Link), Step::FollowLink);
    assert_eq!(
        paths::resolve(3, Whole::Missing, Last::Missing),
        Step::ResolveParent
    );
    assert_eq!(paths::resolve(3, Whole::Missing, Last::Other), Step::Fail);
    assert_eq!(paths::resolve(3, Whole::Unreadable, Last::Link), Step::Fail);
    assert_eq!(
        paths::resolve(paths::MAX_DEPTH + 1, Whole::Missing, Last::Link),
        Step::Fail
    );
}
