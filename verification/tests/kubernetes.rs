//! Pods, their logs, and what is read of them again.
use jevernetes::events::Line;
use jevernetes::kubernetes::{
    begin_read, cluster_name, end_read, params, same_instance, targets, ContainerStatus,
    Containers, Cursor, Discovery, Follow, Observation, Options, Pod,
};
use jevernetes::report::{Metrics, Report};

fn line(s: &str) -> Line {
    Line {
        bytes: s.as_bytes().to_vec(),
        truncated: false,
        private: false,
    }
}

fn names(list: &[&str]) -> Containers {
    Containers {
        names: list.iter().map(|s| s.to_string()).collect(),
        statuses: vec![],
    }
}

fn pod(name: &str, uid: &str, restarts: i32) -> Pod {
    Pod {
        uid: Some(uid.into()),
        name: Some(name.into()),
        namespace: Some("test".into()),
        specified: true,
        containers: Containers {
            names: vec!["app".into()],
            statuses: vec![ContainerStatus {
                name: "app".into(),
                restart_count: restarts,
                running: true,
            }],
        },
        init: names(&["init"]),
        ephemeral: names(&["debug"]),
    }
}

fn options() -> Options {
    Options {
        context: None,
        namespace: Some("test".into()),
        selector: Some("app=synthetic".into()),
        since: 3600,
        tail: 100,
        max_bytes: 1024,
        max_streams: 1,
        previous: true,
        in_cluster: false,
    }
}

#[test]
fn reconnect_preserves_multiplicity_and_is_bounded() {
    let mut c = Cursor::new(2);
    let a = line("2026-09-20T12:00:00Z same");
    assert!(c.accept(&a));
    assert!(c.accept(&a));
    c.reconnect();
    assert!(!c.accept(&a));
    assert!(!c.accept(&a));
    assert!(c.accept(&a));
    assert!(c.accept(&line("2026-09-20T12:00:00Z other")));
    assert!(c.accept(&line("2026-09-20T12:00:00Z overflow")));
    assert_eq!(c.distinct_lines(), 2);
    assert_eq!(c.overflows, 1);
    assert!(c.accept(&line("2026-09-20T12:00:00.000000001Z new")));
    assert!(!c.accept(&a));
    assert!(c.accept(&line("without timestamp")));
    assert_eq!(c.unstamped, 1);
}

#[test]
fn discovery_tracks_uid_restart_previous_and_container_kinds() {
    let pod1 = pod("synthetic", "uid1", 2);
    let all = targets(&pod1, "cluster", false, true);
    assert_eq!(all.len(), 4);
    let live = targets(&pod1, "cluster", true, false);
    assert_eq!(live.len(), 1);
    assert_eq!(live[0].restart, 2);
    let changed = pod("synthetic", "uid2", 2);
    assert_ne!(
        live[0].id(),
        targets(&changed, "cluster", true, false)[0].id()
    );
}

#[test]
fn snapshot_requests_are_read_only_and_scoped() {
    let p = pod("synthetic", "uid1", 0);
    let t = targets(&p, "cluster", true, false);
    assert!(same_instance(&p, &t[0]));
    assert!(!same_instance(&pod("synthetic", "uid2", 0), &t[0]));
    assert!(!same_instance(&pod("synthetic", "uid1", 1), &t[0]));
    let q = params(&options(), &t[0], false);
    assert_eq!(
        (q.container.as_str(), q.follow, q.previous, q.timestamps),
        ("app", false, false, true)
    );
    assert_eq!((q.since_seconds, q.tail_lines), (Some(3600), Some(100)));
    let mut m = Metrics::default();
    assert!(begin_read(Some(&p), &t[0], &options(), &mut m).is_some());
    assert_eq!((m.streams_started, m.coverage_gaps), (1, 0));
    assert!(begin_read(None, &t[0], &options(), &mut m).is_none());
    assert_eq!(m.coverage_gaps, 1);
    end_read(true, &t[0], &mut m);
    assert_eq!(m.coverage_gaps, 2);
    end_read(false, &t[0], &mut m);
    assert_eq!(m.coverage_gaps, 4);
}

#[test]
fn live_reconnect_deduplicates() {
    let p = pod("synthetic", "uid1", 0);
    let target = targets(&p, "cluster", true, false).remove(0);
    let mut follow = Follow::new(target);
    let mut m = Metrics::default();
    let q = follow.request(&options());
    assert_eq!(q.since_time, None);
    let mut events = follow.receive(b"2026-09-20T12:00:00Z one\n", &mut m);
    events.extend(follow.end(&mut m));
    assert_eq!(events.len(), 1);
    assert_eq!(follow.disconnected(&mut m), 2);
    let q = follow.request(&options());
    assert_eq!((q.since_seconds, q.tail_lines), (None, None));
    assert_eq!(q.since_time, Some(1789905600));
    let mut again = follow.receive(
        b"2026-09-20T12:00:00Z one\n2026-09-20T12:00:01Z two\n",
        &mut m,
    );
    assert!(follow.has_pending());
    again.extend(follow.flush());
    assert_eq!(again.len(), 1);
    assert_eq!(again[0].text, "two");
    assert_eq!((m.duplicates, m.reconnects), (1, 1));
    assert_eq!(follow.unconfirmed(&mut m), 2);
}

#[test]
fn discovery_is_bounded_and_follows_what_is_there() {
    let mut d = Discovery::new("cluster".into(), 1);
    let mut m = Metrics::default();
    let none = vec![];
    d.observe(Observation::Init, &none, &mut m);
    assert!(d.is_initializing());
    let moves = d.observe(Observation::Apply(pod("a", "uid1", 0)), &none, &mut m);
    assert_eq!(moves.start.len(), 1);
    let moves = d.observe(Observation::Apply(pod("b", "uid2", 0)), &none, &mut m);
    assert_eq!(moves.start.len(), 0);
    assert_eq!(m.unfollowed_observations, 1);
    d.observe(Observation::InitDone, &none, &mut m);
    assert!(!d.is_initializing());
    let first = d.followed();
    assert_eq!(first.len(), 1);
    let moves = d.observe(Observation::Apply(pod("a", "uid1", 1)), &none, &mut m);
    assert_eq!(moves.retire, first);
    assert_eq!(moves.start.len(), 1);
    let moves = d.observe(Observation::Delete(pod("a", "uid1", 1)), &none, &mut m);
    assert_eq!(moves.retire.len(), 1);
    assert!(d.followed().is_empty());
    d.observe(Observation::Apply(pod("b", "uid2", 0)), &none, &mut m);
    assert_eq!(d.close(&mut m).len(), 1);
    assert_eq!(m.active_streams, 0);
}

#[test]
fn clusters_are_named_by_choice_and_address() {
    let mut o = options();
    let inferred = cluster_name(&o, "https://one");
    assert!(inferred.starts_with("inferred:"));
    assert_ne!(inferred, cluster_name(&o, "https://two"));
    o.in_cluster = true;
    assert!(cluster_name(&o, "https://one").starts_with("in-cluster:"));
    o.context = Some("prod".into());
    assert!(cluster_name(&o, "https://one").starts_with("prod:"));
}

#[test]
fn reports_on_clusters_are_partial() {
    let target = targets(&pod("synthetic", "uid1", 0), "cluster", true, false).remove(0);
    let report = Report::new(10);
    let mut m = Metrics::default();
    assert!(report.is_complete(&m, false));
    assert!(!report.is_complete(&m, true));
    end_read(true, &target, &mut m);
    assert!(!report.is_complete(&m, false));
}

#[test]
fn replays_are_counted_among_other_lines() {
    let mut c = Cursor::new(8);
    let a = line("2026-09-20T12:00:00Z same");
    let b = line("2026-09-20T12:00:00Z other");
    let old = line("2026-09-20T11:59:59Z old");
    assert!(c.accept(&a));
    assert!(c.accept(&b));
    assert!(c.accept(&a));
    c.reconnect();
    assert!(!c.accept(&old));
    assert!(!c.accept(&a));
    assert!(!c.accept(&b));
    assert!(!c.accept(&a));
    assert!(!c.accept(&old));
    assert!(c.accept(&a));
    assert!(c.accept(&b));
    assert!(c.accept(&a));
    assert!(!c.accept(&old));
    assert_eq!(c.overflows, 0);
}

#[test]
fn the_lowest_restart_count_is_followed() {
    let lowest = pod("synthetic", "uid1", i32::MIN);
    let live = targets(&lowest, "cluster", true, true);
    assert_eq!(live.len(), 1);
    assert_eq!(live[0].restart, i32::MIN);
    assert_eq!(targets(&lowest, "cluster", false, false).len(), 3);
    assert!(!lowest.countable());
    assert!(pod("synthetic", "uid1", i32::MIN + 1).countable());
}
