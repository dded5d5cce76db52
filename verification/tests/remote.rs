//! Inspection of a running controller.
use jevernetes::controller::inspect::{
    frame, read_request, refuse, route, Detail, Incident, Refusal, Route, Snapshot, MAX_RESPONSE,
};
use jevernetes::json;
use jevernetes::remote::{
    check_named, decode, incident_id, next, printed, render, report, select_pod, write_request,
    Args, Listed, Next, Response, Search,
};

#[test]
fn rejects_truncated_oversized_and_unsupported_responses() {
    assert!(decode(b"HTTP/1.1 200 OK\r\nContent-Length: 99\r\n\r\n{}").is_err());
    assert!(decode(b"HTTP/1.1 200 OK\r\nContent-Length: 12\r\n\r\n{\"schema\":2}").is_err());
    let body = vec![b' '; MAX_RESPONSE + 1];
    let mut response =
        format!("HTTP/1.1 200 OK\r\nContent-Length: {}\r\n\r\n", body.len()).into_bytes();
    response.extend(body);
    assert!(decode(&response).is_err());
    assert_eq!(
        decode(b"HTTP/1.1 503 Busy\r\n\r\nprivate response").err().unwrap(),
        "Controller inspection busy or unavailable; retry shortly"
    );
    assert!(incident_id("../metrics").is_err());
}

#[test]
fn reads_fragmented_http_without_a_local_listener() {
    assert!(write_request("/v1/status").starts_with("GET /v1/status HTTP/1.1"));
    let mut bytes = b"HTTP/1.1 200 OK\r\nContent-Length: 12\r\n\r\n".to_vec();
    bytes.extend(b"{\"schema\":1}");
    let v = decode(&bytes).ok().unwrap();
    assert_eq!(v.get("schema").unwrap().text(), "1");
}

#[test]
fn each_flaw_of_a_response_is_named() {
    let long = [vec![b'x'; 8193], b"\r\n\r\n{}".to_vec()].concat();
    for (bytes, error) in [
        (&b"no header"[..], "Invalid controller HTTP response"),
        (&long[..], "Invalid controller HTTP response"),
        (&b"HTTP/1.1 \xff\r\n\r\n"[..], "Invalid controller HTTP headers"),
        (&b"HTTP/1.1\r\n\r\n"[..], "Controller inspection request failed"),
        (&b"HTTP/1.1 500 x\r\n\r\n"[..], "Controller inspection request failed"),
        (
            &b"HTTP/1.1 404 x\r\n\r\n"[..],
            "Inspection endpoint or incident not found; check controller version and incident ID",
        ),
        (
            &b"HTTP/1.1 200 OK\r\n\r\n{}"[..],
            "Incomplete or unsupported controller response",
        ),
        (
            &b"HTTP/1.1 200 OK\r\nContent-Length: 2\r\ncontent-length: 2\r\n\r\n{}"[..],
            "Incomplete or unsupported controller response",
        ),
        (
            &b"HTTP/1.1 200 OK\r\nContent-Length: 2\r\nTransfer-Encoding: chunked\r\n\r\n{}"[..],
            "Incomplete or unsupported controller response",
        ),
        (
            &b"HTTP/1.1 200 OK\r\nContent-Length: 1\r\n\r\n{"[..],
            "Invalid controller JSON",
        ),
        (
            &b"HTTP/1.1 200 OK\r\nContent-Length: 14\r\n\r\n{\"schema\":1.0}"[..],
            "Unsupported controller inspection schema",
        ),
    ] {
        assert_eq!(decode(bytes).err(), Some(error));
    }
    assert!(decode(b"HTTP/1.1 200\r\nCONTENT-LENGTH: +12\r\n\r\n{\"schema\":1}").is_ok());
}

fn args() -> Args {
    Args {
        context: None,
        namespace: "synthetic".into(),
        pod: None,
        selector: None,
        port: 9091,
        incident: None,
        watch: false,
        interval: 5,
    }
}

#[test]
fn incidents_are_asked_for_by_lowercase_names() {
    let id = incident_id(&"aF".repeat(32)).ok().unwrap();
    assert_eq!(id, "af".repeat(32));
    let mut a = args();
    assert_eq!(a.path(), "/v1/status");
    a.incident = Some(id.clone());
    assert_eq!(a.path(), format!("/v1/incidents/{id}"));
    assert!(matches!(a.search(), Search::Labelled(s) if s == "app=jevernetes"));
    a.selector = Some("x=y".into());
    assert!(matches!(a.search(), Search::Labelled(s) if s == "x=y"));
    a.pod = Some("p".into());
    assert!(matches!(a.search(), Search::Named(s) if s == "p"));
    assert_eq!(a.options().namespace.as_deref(), Some("synthetic"));
}

#[test]
fn exactly_one_running_pod_is_chosen() {
    let listed = |name: Option<&str>, terminating: bool| Listed {
        name: name.map(|s| s.to_string()),
        terminating,
    };
    assert_eq!(
        select_pod(&vec![listed(Some("a"), false)], &Some("".into())).ok().as_deref(),
        Some("a")
    );
    let many = Some("Expected one running controller pod; use --pod or narrow --selector");
    assert_eq!(select_pod(&vec![], &None).err(), many);
    assert_eq!(
        select_pod(&vec![listed(Some("a"), false)], &Some("more".into())).err(),
        many
    );
    assert_eq!(
        select_pod(&vec![listed(Some("a"), true)], &None).err(),
        Some("Controller pod is terminating; retry shortly")
    );
    assert_eq!(
        select_pod(&vec![listed(None, false)], &None).err(),
        Some("Controller pod has no name")
    );
    assert!(check_named(false, &Some("Running".into())).is_ok());
    assert!(check_named(true, &Some("Running".into())).is_err());
    assert!(check_named(false, &Some("Pending".into())).is_err());
    assert!(check_named(false, &None).is_err());
}

fn incident(id: &str) -> Incident {
    Incident {
        id: id.into(),
        recurrence_count: 3,
        escalation_level: 1,
        notification_sequence: 2,
        last_decision: None,
        touched_at: 5,
    }
}

#[test]
fn states_and_incidents_are_rendered_without_controls() {
    let metrics = json::parse(br#"{"received":7,"dropped":0,"estimated_cost_usd":0.5}"#).unwrap();
    let snapshot = |n: usize| Snapshot {
        schema: 1,
        sampled_at: -1,
        ready: false,
        coverage_complete: false,
        metrics: metrics.clone(),
        incident_count: 1,
        outbox_pending: 2,
        outbox_dead: 3,
        recent_incidents: (0..n).map(|_| incident("a\x1b[31mb")).collect(),
    };
    let text = render(&Response::Status(snapshot(1))).ok().unwrap();
    assert!(text.starts_with("Controller: NOT READY | sampled at -1 | coverage partial\n"));
    assert!(text.contains("Logs: 7 received | null streams | queue null | 0 dropped"));
    assert!(text.contains("Delivery: 2 pending | 3 dead | null delivered | null failures\n"));
    assert!(text.contains("estimated $0.5 |"));
    assert!(text.contains("\nab | unknown | 3 | 1 | 2\n"));
    assert_eq!(
        render(&Response::Status(snapshot(21))).err(),
        Some("Controller incident list exceeds limit")
    );
    let mut detail = Detail {
        schema: 1,
        incident: incident("id"),
        last_notification: None,
        delivery_status: None,
        delivery_attempts: None,
    };
    let bare = render(&Response::Incident(Detail {
        incident: incident("id"),
        last_notification: None,
        delivery_status: None,
        ..detail
    }))
    .ok()
    .unwrap();
    assert!(bare.contains("Delivery: not retained | attempts 0\n"));
    assert!(bare.contains("no longer retained"));
    detail.last_notification = json::parse(b"{\"a\":[1]}");
    detail.delivery_status = Some("delivered".into());
    detail.delivery_attempts = Some(4);
    let text = render(&Response::Incident(detail)).ok().unwrap();
    assert_eq!(
        text,
        "Incident id | unknown | count 3 | level 1 | notification sequence 2\nDelivery: delivered | attempts 4\nLast enqueued notification (may precede the latest observation):\n{\n  \"a\": [\n    1\n  ]\n}\n"
    );
}

#[test]
fn samples_are_reported_and_watched() {
    let v = json::parse(b"{\"schema\":1}").unwrap();
    let r = report("ns", "pod", &v, 9);
    assert_eq!(
        r.text(),
        "{\"controller\":{\"schema\":1},\"sampled_at\":9,\"target\":{\"namespace\":\"ns\",\"pod\":\"pod\"}}"
    );
    assert_eq!(printed(true, &r, "ns", "pod", "x"), format!("{}\n", r.text()));
    assert_eq!(printed(false, &r, "ns", "pod", "x"), "\nns/pod\nx");
    assert!(matches!(next(None, true), Next::Wait));
    assert!(matches!(next(None, false), Next::Stop));
    assert!(matches!(next(Some("e"), false), Next::Fail("e")));
    assert!(matches!(
        next(Some("e"), true),
        Next::Warn(t) if t == "[remote] e; previous output is stale; retrying"
    ));
}

#[test]
fn controllers_and_inspectors_understand_each_other() {
    let id = "AB".repeat(32);
    let mut asked = args();
    asked.incident = Some(incident_id(&id).ok().unwrap());
    let path = read_request(write_request(&asked.path()).as_bytes()).unwrap();
    assert_eq!(path, asked.path());
    assert!(matches!(route(&path), Route::Incident(x) if x == id.to_lowercase()));
    asked.incident = None;
    let path = read_request(write_request(&asked.path()).as_bytes()).unwrap();
    assert!(matches!(route(&path), Route::Status));
    let value = json::parse(br#"{"schema":1,"text":"Content-Length: 1\r\n\r\n"}"#).unwrap();
    let reply = frame(200, &value).unwrap();
    assert_eq!(decode(reply.as_bytes()).ok().unwrap().text(), value.text());
    let (status, value) = refuse(Refusal::Missing);
    let reply = frame(status, &value).unwrap();
    assert_eq!(
        decode(reply.as_bytes()).err().unwrap(),
        "Inspection endpoint or incident not found; check controller version and incident ID"
    );
}

#[test]
fn what_is_rendered_holds_no_controls_but_line_ends() {
    let detail = |text: &str| {
        let mut i = incident("a\x1b[31m\u{85}b\x07");
        i.last_decision = Some("no\ttify".into());
        render(&Response::Incident(Detail {
            schema: 1,
            incident: i,
            last_notification: Some(json::string(text)),
            delivery_status: Some("\x1bdead".into()),
            delivery_attempts: None,
        }))
        .ok()
        .unwrap()
    };
    let shown = detail("\x1b]0;title\x07\r\n");
    assert!(shown.chars().all(|c| c == '\n' || !c.is_control()));
    assert!(shown.starts_with("Incident a b  | no tify | count 3"));
    assert!(shown.contains("\"\\u001b]0;title\\u0007\\r\\n\"\n"));
    assert!(detail("\u{9b}").contains('\u{9b}'));
}
