//! Exact groups, and judgments that are remembered for them.
use jevernetes::events::{Event, Line, Parser, Source};
use jevernetes::grouping::{group_id, Cache};
use jevernetes::jev::{Importance, Judgment};
use jevernetes::json;

const SECOND: u64 = 1_000_000_000;

fn event() -> Event {
    let mut p = Parser::new(Source::new());
    p.feed(Line {
        bytes: b"ERROR count=1".to_vec(),
        truncated: false,
        private: false,
    });
    let mut e = p.flush().unwrap();
    e.judgment.importance = Importance::Important;
    e
}

#[test]
fn exact_scope_limits_ttl_and_failures() {
    let mut c = Cache::new(1, 300 * SECOND);
    let now = 1000 * SECOND;
    let a = event();
    let mut b = a.clone();
    b.id = "other".into();
    b.timestamp = Some("later".into());
    assert_eq!(group_id(&a), group_id(&b));
    c.insert(&a, now);
    assert!(c.get(&b, now).is_some());
    assert!(c.get(&b, now + 300 * SECOND).is_none());
    for changed in ["number", "source", "truncated", "stack"] {
        let mut b = a.clone();
        match changed {
            "number" => b.text = "ERROR count=2".into(),
            "source" => {
                b.source.insert("restart_count", json::unsigned(1));
            }
            "truncated" => b.truncated = true,
            _ => b.text.push_str("\n at elsewhere"),
        };
        assert_ne!(group_id(&a), group_id(&b));
    }
    b.text = "different".into();
    c.insert(&a, now);
    c.insert(&b, now);
    assert!(c.get(&a, now).is_none());
    b.truncated = true;
    c.insert(&b, now);
    assert!(c.get(&b, now).is_none());
    let mut failed = a.clone();
    failed.judgment = Judgment::failed("synthetic failure");
    c.insert(&failed, now);
    assert!(c.get(&failed, now).is_none());
}

#[test]
fn a_remembered_judgment_names_its_first_event() {
    let mut c = Cache::new(2, 300 * SECOND);
    let a = event();
    c.insert(&a, 0);
    let (judgment, id) = c.get(&a, 299 * SECOND).unwrap();
    assert_eq!(judgment.importance, Importance::Important);
    assert_eq!(id, a.id);
}

#[test]
fn the_least_recently_used_judgment_goes_first() {
    let mut c = Cache::new(2, 300 * SECOND);
    let mut events: Vec<Event> = Vec::new();
    for n in 0..3 {
        let mut e = event();
        e.text = format!("event {n}");
        events.push(e);
    }
    c.insert(&events[0], 0);
    c.insert(&events[1], 0);
    assert!(c.get(&events[0], 1).is_some());
    c.insert(&events[2], 2);
    assert!(c.get(&events[1], 3).is_none());
    assert!(c.get(&events[0], 3).is_some());
    assert!(c.get(&events[2], 3).is_some());
}

#[test]
fn groups_are_exact_in_both_directions() {
    let a = event();
    let mut b = a.clone();
    b.source.insert("restart_count", json::unsigned(1));
    let mut c = a.clone();
    c.source.insert("restart_count", json::string("1"));
    assert_ne!(group_id(&b), group_id(&c));
    b.source = Source::new();
    b.id = "other".into();
    b.line_start = 9;
    b.judgment = Judgment::failed("synthetic failure");
    assert_eq!(group_id(&a), group_id(&b));
    let mut cut = a.clone();
    cut.truncated = true;
    let mut other = cut.clone();
    assert_eq!(group_id(&cut), group_id(&other));
    assert_ne!(group_id(&cut), group_id(&a));
    other.id = "other".into();
    assert_ne!(group_id(&cut), group_id(&other));
}

#[test]
fn any_number_of_judgments_may_be_remembered() {
    let mut c = Cache::new(usize::MAX, 300 * SECOND);
    let a = event();
    c.insert(&a, 0);
    assert!(c.get(&a, 1).is_some());
}
