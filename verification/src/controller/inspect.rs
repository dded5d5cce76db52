//! Read-only, bounded inspection on pod loopback; never on the public health listener.
use vstd::prelude::*;

use crate::controller::delivery;
use crate::controller::store;
use crate::controller::store::{IncidentBody, IncidentRow, Status, Store, StoreView};
use crate::json;
use crate::json::{Fields, Items, Json, JsonView};
use crate::order;
use crate::order::Ranked;
use crate::report;
use crate::report::{Metrics, MetricsView};
use crate::rows;
use crate::rows::Row;
use crate::text;
use crate::wire;

verus! {

/// The most bytes of a reply.
pub const MAX_RESPONSE: usize = 262_144;

/// How many incidents are listed.
pub const RECENT_LIMIT: usize = 20;

/// The most bytes of a notification that is shown.
pub const MAX_PAYLOAD: usize = 131_072;

/// An incident as it is shown.
pub struct Incident {
    pub id: String,
    pub recurrence_count: u32,
    pub escalation_level: u32,
    pub notification_sequence: i64,
    pub last_decision: Option<String>,
    pub touched_at: i64,
}

#[verifier::ext_equal]
pub struct IncidentView {
    pub id: Seq<char>,
    pub recurrence_count: u32,
    pub escalation_level: u32,
    pub notification_sequence: i64,
    pub last_decision: Option<Seq<char>>,
    pub touched_at: i64,
}

impl Incident {
    pub open spec fn view(&self) -> IncidentView {
        IncidentView {
            id: self.id@,
            recurrence_count: self.recurrence_count,
            escalation_level: self.escalation_level,
            notification_sequence: self.notification_sequence,
            last_decision: text::optional_view(self.last_decision),
            touched_at: self.touched_at,
        }
    }
}

/// The views of a list of incidents.
pub open spec fn incidents_view(v: Seq<Incident>) -> Seq<IncidentView> {
    Seq::new(v.len(), |i: int| v[i]@)
}

/// An incident of the state as it is shown.
pub open spec fn shown(id: Seq<char>, b: IncidentBody) -> IncidentView {
    IncidentView {
        id,
        recurrence_count: b.count,
        escalation_level: b.level,
        notification_sequence: b.sequence,
        last_decision: b.last_decision,
        touched_at: b.touched,
    }
}

fn show(r: &IncidentRow) -> (i: Incident)
    ensures
        i@ == shown(r.name(), r.body()),
{
    Incident {
        id: r.key.clone(),
        recurrence_count: r.count,
        escalation_level: r.level,
        notification_sequence: r.sequence,
        last_decision: text::clone_optional(&r.last_decision),
        touched_at: r.touched,
    }
}

/// The state of a controller as it is shown.
pub struct Snapshot {
    pub schema: u32,
    pub sampled_at: i64,
    pub ready: bool,
    pub coverage_complete: bool,
    pub metrics: Json,
    pub incident_count: u64,
    pub outbox_pending: u64,
    pub outbox_dead: u64,
    pub recent_incidents: Vec<Incident>,
}

/// An incident with the last notification that was made of it, which is not necessarily the latest
/// observation, and may be gone.
pub struct Detail {
    pub schema: u32,
    pub incident: Incident,
    pub last_notification: Option<Json>,
    pub delivery_status: Option<String>,
    pub delivery_attempts: Option<u32>,
}

impl Detail {
    pub open spec fn view(&self) -> DetailView {
        DetailView::Found(
            self.incident@,
            match self.last_notification {
                Some(v) => Some(
                    Shown {
                        payload: v@,
                        status: text::optional_view(self.delivery_status).unwrap(),
                        attempts: self.delivery_attempts.unwrap(),
                    },
                ),
                None => None,
            },
        )
    }

    /// Whether what is said of a delivery is said of the notification that is shown.
    pub open spec fn wf(&self) -> bool {
        &&& self.schema == 1
        &&& self.delivery_status is Some <==> self.last_notification is Some
        &&& self.delivery_attempts is Some <==> self.last_notification is Some
    }
}

/// Whether a text can be the name of an incident: 64 hexadecimal digits.
pub open spec fn id_allowed(id: Seq<char>) -> bool {
    id.len() == 64 && delivery::all_hex(id)
}

pub fn valid_id(id: &str) -> (r: bool)
    ensures
        r == id_allowed(id@),
{
    let v = text::chars(id);
    if v.len() != 64 {
        return false;
    }
    let mut i: usize = 0;
    while i < v.len()
        invariant
            v@ == id@,
            i <= v@.len(),
            forall|k: int| 0 <= k < i ==> text::ascii_hex(#[trigger] id@[k]),
        decreases v@.len() - i,
    {
        if !text::is_ascii_hex(v[i]) {
            assert(!text::ascii_hex(id@[i as int]));
            return false;
        }
        i += 1;
    }
    true
}

/// Whether one incident is listed before another: it was touched later, or at the same time and has
/// the smaller name.
pub open spec fn listed_before(a: IncidentView, b: IncidentView) -> bool {
    a.touched_at > b.touched_at || a.touched_at == b.touched_at && text::before(a.id, b.id)
}

/// Incidents as they are shown.
pub open spec fn all_shown(incidents: Seq<(Seq<char>, IncidentBody)>) -> Seq<IncidentView> {
    Seq::new(incidents.len(), |i: int| shown(incidents[i].0, incidents[i].1))
}

/// All incidents in the order in which they are listed.
pub open spec fn listing(incidents: Seq<(Seq<char>, IncidentBody)>) -> Seq<IncidentView> {
    order::ordered(all_shown(incidents), Incident::first())
}

/// Whether no incident stands behind one that should come later.
pub open spec fn in_order(list: Seq<IncidentView>) -> bool {
    forall|i: int, j: int|
        0 <= i < j < list.len() ==> !listed_before(#[trigger] list[j], #[trigger] list[i])
}

proof fn listed_before_order(a: IncidentView, b: IncidentView, c: IncidentView)
    ensures
        listed_before(a, b) ==> !listed_before(b, a),
        listed_before(a, b) && !listed_before(c, b) ==> listed_before(a, c),
{
    if listed_before(a, b) && listed_before(b, a) {
        text::before_transitive(a.id, b.id, a.id);
        text::before_irreflexive(a.id);
    }
    if text::before(a.id, b.id) && !text::before(c.id, b.id) {
        text::before_total(c.id, b.id);
        if text::before(b.id, c.id) {
            text::before_transitive(a.id, b.id, c.id);
        }
    }
}

impl Ranked for Incident {
    type Model = IncidentView;

    open spec fn model(&self) -> IncidentView {
        self@
    }

    open spec fn first() -> spec_fn(IncidentView, IncidentView) -> bool {
        |a: IncidentView, b: IncidentView| listed_before(a, b)
    }

    proof fn is_consistent() {
        let first = Incident::first();
        assert forall|a: IncidentView, b: IncidentView| #[trigger] first(a, b) implies !first(
            b,
            a,
        ) by {
            listed_before_order(a, b, a);
        }
        assert forall|a: IncidentView, b: IncidentView, c: IncidentView|
            #[trigger] first(a, b) && !(#[trigger] first(c, b)) implies first(a, c) by {
            listed_before_order(a, b, c);
        }
    }

    fn comes_first(&self, other: &Self) -> (r: bool) {
        self.touched_at > other.touched_at || self.touched_at == other.touched_at
            && text::sorts_before(self.id.as_str(), other.id.as_str())
    }
}

/// The incidents that are listed are those that were touched last, the latest first: the listing
/// has every incident once, and no incident that is left out should stand before one that is not.
pub proof fn latest_incidents_are_listed(incidents: Seq<(Seq<char>, IncidentBody)>, n: nat)
    ensures
        in_order(listing(incidents)),
        listing(incidents).to_multiset() == all_shown(incidents).to_multiset(),
        order::top(listing(incidents), n).is_prefix_of(listing(incidents)),
        order::top(listing(incidents), n).len() == if n < incidents.len() {
            n
        } else {
            incidents.len()
        },
{
    Incident::is_consistent();
    order::ordering_keeps_all(all_shown(incidents), Incident::first());
    let r = listing(incidents);
    assert forall|i: int, j: int| 0 <= i < j < r.len() implies !listed_before(
        #[trigger] r[j],
        #[trigger] r[i],
    ) by {
        assert(!(Incident::first())(r[j], r[i]));
    }
}

/// A notification as it is shown.
pub struct Shown {
    pub payload: JsonView,
    pub status: Seq<char>,
    pub attempts: u32,
}

/// What is shown of an incident.
pub enum DetailView {
    Missing,
    TooLong,
    Unreadable,
    Found(IncidentView, Option<Shown>),
}

impl StoreView {
    /// What is shown of an incident: the last notification that was made of it, if it is still
    /// there.
    pub open spec fn detail(self, id: Seq<char>) -> DetailView {
        match rows::find(self.incidents, id) {
            None => DetailView::Missing,
            Some(b) => match rows::find(
                self.outbox,
                store::notification_key(id, b.sequence as int),
            ) {
                None => DetailView::Found(shown(id, b), None),
                Some(n) => if text::utf8_len(n.payload) > MAX_PAYLOAD {
                    DetailView::TooLong
                } else {
                    match json::parsed_text(n.payload) {
                        Some(v) => DetailView::Found(
                            shown(id, b),
                            Some(Shown { payload: v, status: store::status_name(n.status), attempts: n.attempts }),
                        ),
                        None => DetailView::Unreadable,
                    }
                },
            },
        }
    }
}

impl Store {
    /// How many incidents there are, how many notifications are pending and were given up, and the
    /// incidents that were touched last.
    pub fn inspection(&self) -> (r: (u64, u64, u64, Vec<Incident>))
        ensures
            r.0 == self@.incidents.len(),
            r.1 == store::tally(self@.outbox, Status::Pending),
            r.2 == store::tally(self@.outbox, Status::Dead),
            incidents_view(r.3@) == order::top(listing(self@.incidents), RECENT_LIMIT as nat),
    {
        let ghost all = self@.incidents;
        let ghost first = Incident::first();
        let ghost limit = RECENT_LIMIT as nat;
        let mut recent: Vec<Incident> = Vec::new();
        let n = self.incident_count();
        let mut i: usize = 0;
        assert(all_shown(all.take(0)) =~= seq![]);
        assert(order::models(recent@) =~= order::top(listing(all.take(0)), limit));
        while i < n
            invariant
                all == self@.incidents,
                first == Incident::first(),
                limit == RECENT_LIMIT,
                n == all.len(),
                i <= n,
                recent@.len() <= RECENT_LIMIT,
                order::models(recent@) == order::top(listing(all.take(i as int)), limit),
            decreases n - i,
        {
            let row = self.incident_at(i);
            let next = show(row);
            proof {
                let before = all_shown(all.take(i as int));
                assert(all_shown(all.take(i + 1)).drop_last() =~= before);
                assert(all_shown(all.take(i + 1)).last() == next@);
                Incident::is_consistent();
                order::ordering_keeps_all(before, first);
                order::top_of_placed(listing(all.take(i as int)), next@, first, limit);
            }
            order::place(&mut recent, next);
            let ghost whole = order::models(recent@);
            if recent.len() > RECENT_LIMIT {
                let _ = recent.pop();
                assert(order::models(recent@) =~= whole.take(RECENT_LIMIT as int));
            }
            i += 1;
        }
        assert(all.take(i as int) =~= all);
        assert(order::models(recent@) =~= incidents_view(recent@));
        let (pending, dead) = self.counts();
        (n as u64, pending, dead, recent)
    }

    /// What is shown of an incident.
    pub fn incident_detail(&self, id: &String) -> (r: Result<Option<Detail>, &'static str>)
        ensures
            match r {
                Ok(None) => self@.detail(id@) == DetailView::Missing,
                Ok(Some(d)) => self@.detail(id@) == d@ && d.wf(),
                Err(e) => self@.detail(id@) == DetailView::TooLong && e@
                    == "Inspection payload exceeds limit"@ || self@.detail(id@)
                    == DetailView::Unreadable && e@ == "Invalid persisted notification"@,
            },
    {
        let row = match self.find_incident(id) {
            Some(row) => row,
            None => {
                return Ok(None);
            },
        };
        let incident = show(row);
        let key = store::key_of_notification(id.as_str(), row.sequence);
        let n = match self.find_notification(&key) {
            Some(n) => n,
            None => {
                return Ok(
                    Some(
                        Detail {
                            schema: 1,
                            incident,
                            last_notification: None,
                            delivery_status: None,
                            delivery_attempts: None,
                        },
                    ),
                );
            },
        };
        if text::byte_len(n.payload.as_str()) > MAX_PAYLOAD {
            return Err("Inspection payload exceeds limit");
        }
        match json::parse(n.payload.as_str().as_bytes()) {
            Some(v) => Ok(
                Some(
                    Detail {
                        schema: 1,
                        incident,
                        last_notification: Some(v),
                        delivery_status: Some(n.status.label().to_owned()),
                        delivery_attempts: Some(n.attempts),
                    },
                ),
            ),
            None => Err("Invalid persisted notification"),
        }
    }
}

/// An incident as JSON.
pub open spec fn incident_json(i: IncidentView) -> JsonView {
    JsonView::Object(
        seq![
            ("escalation_level"@, json::integer(i.escalation_level as int)),
            ("id"@, JsonView::Text(i.id)),
            ("last_decision"@, json::optional_text(i.last_decision)),
            ("notification_sequence"@, json::integer(i.notification_sequence as int)),
            ("recurrence_count"@, json::integer(i.recurrence_count as int)),
            ("touched_at"@, json::integer(i.touched_at as int)),
        ],
    )
}

/// Incidents as a JSON list.
pub open spec fn incidents_json(v: Seq<IncidentView>) -> JsonView {
    JsonView::List(Seq::new(v.len(), |i: int| incident_json(v[i])))
}

impl Incident {
    pub fn json(&self) -> (r: Json)
        ensures
            r@ == incident_json(self@),
    {
        let fields = Fields::new().with(
            "escalation_level",
            json::unsigned(self.escalation_level as u64),
        ).with("id", json::string(self.id.as_str())).with(
            "last_decision",
            json::optional(&self.last_decision),
        ).with("notification_sequence", json::signed(self.notification_sequence)).with(
            "recurrence_count",
            json::unsigned(self.recurrence_count as u64),
        ).with("touched_at", json::signed(self.touched_at));
        assert(fields@ =~= incident_json(self@)->Object_0);
        fields.object()
    }
}

fn write_incidents(v: &Vec<Incident>) -> (r: Json)
    ensures
        r@ == incidents_json(incidents_view(v@)),
{
    let ghost all = incidents_view(v@);
    let mut items = Items::new();
    let mut i: usize = 0;
    while i < v.len()
        invariant
            all == incidents_view(v@),
            i <= v@.len(),
            items@ == Seq::new(i as nat, |k: int| incident_json(all[k])),
        decreases v@.len() - i,
    {
        items = items.with(v[i].json());
        assert(items@ =~= Seq::new((i + 1) as nat, |k: int| incident_json(all[k])));
        i += 1;
    }
    items.list()
}

/// What is shown of a whole state, as JSON.
pub open spec fn status_json(
    state: StoreView,
    metrics: MetricsView,
    ready: bool,
    now: i64,
) -> JsonView {
    JsonView::Object(
        seq![
            ("coverage_complete"@, JsonView::Bool(false)),
            ("incident_count"@, json::integer(state.incidents.len() as int)),
            ("metrics"@, report::metrics_json(metrics)),
            ("outbox_dead"@, json::integer(store::tally(state.outbox, Status::Dead) as int)),
            ("outbox_pending"@, json::integer(store::tally(state.outbox, Status::Pending) as int)),
            ("ready"@, JsonView::Bool(ready)),
            ("recent_incidents"@, incidents_json(order::top(listing(state.incidents), RECENT_LIMIT as nat))),
            ("sampled_at"@, json::integer(now as int)),
            ("schema"@, json::integer(1)),
        ],
    )
}

impl Snapshot {
    /// What is shown of a whole state. Coverage is never claimed to be complete.
    pub fn new(store: &Store, metrics: &Metrics, ready: bool, now: i64) -> (r: Self)
        ensures
            r.value() == status_json(store@, metrics@, ready, now),
    {
        let (incident_count, outbox_pending, outbox_dead, recent_incidents) = store.inspection();
        Snapshot {
            schema: 1,
            sampled_at: now,
            ready,
            coverage_complete: false,
            metrics: metrics.json(),
            incident_count,
            outbox_pending,
            outbox_dead,
            recent_incidents,
        }
    }

    pub open spec fn value(&self) -> JsonView {
        JsonView::Object(
            seq![
                ("coverage_complete"@, JsonView::Bool(self.coverage_complete)),
                ("incident_count"@, json::integer(self.incident_count as int)),
                ("metrics"@, self.metrics@),
                ("outbox_dead"@, json::integer(self.outbox_dead as int)),
                ("outbox_pending"@, json::integer(self.outbox_pending as int)),
                ("ready"@, JsonView::Bool(self.ready)),
                ("recent_incidents"@, incidents_json(incidents_view(self.recent_incidents@))),
                ("sampled_at"@, json::integer(self.sampled_at as int)),
                ("schema"@, json::integer(self.schema as int)),
            ],
        )
    }

    pub fn json(&self) -> (r: Json)
        ensures
            r@ == self.value(),
    {
        let fields = Fields::new().with(
            "coverage_complete",
            Json::Bool(self.coverage_complete),
        ).with("incident_count", json::unsigned(self.incident_count)).with(
            "metrics",
            self.metrics.clone(),
        ).with("outbox_dead", json::unsigned(self.outbox_dead)).with(
            "outbox_pending",
            json::unsigned(self.outbox_pending),
        ).with("ready", Json::Bool(self.ready)).with(
            "recent_incidents",
            write_incidents(&self.recent_incidents),
        ).with("sampled_at", json::signed(self.sampled_at)).with(
            "schema",
            json::unsigned(self.schema as u64),
        );
        assert(fields@ =~= self.value()->Object_0);
        fields.object()
    }
}

/// What is shown of an incident, as JSON.
pub open spec fn detail_json(i: IncidentView, n: Option<Shown>) -> JsonView {
    JsonView::Object(
        seq![
            (
                "delivery_attempts"@,
                match n {
                    Some(s) => json::integer(s.attempts as int),
                    None => JsonView::Null,
                },
            ),
            (
                "delivery_status"@,
                match n {
                    Some(s) => JsonView::Text(s.status),
                    None => JsonView::Null,
                },
            ),
            ("incident"@, incident_json(i)),
            (
                "last_notification"@,
                match n {
                    Some(s) => s.payload,
                    None => JsonView::Null,
                },
            ),
            ("schema"@, json::integer(1)),
        ],
    )
}

impl Detail {
    pub fn json(&self) -> (r: Json)
        requires
            self.wf(),
        ensures
            self@ matches DetailView::Found(i, n) && r@ == detail_json(i, n),
    {
        let attempts = match self.delivery_attempts {
            Some(n) => json::unsigned(n as u64),
            None => Json::Null,
        };
        let payload = match &self.last_notification {
            Some(v) => v.clone(),
            None => Json::Null,
        };
        let fields = Fields::new().with("delivery_attempts", attempts).with(
            "delivery_status",
            json::optional(&self.delivery_status),
        ).with("incident", self.incident.json()).with("last_notification", payload).with(
            "schema",
            json::unsigned(self.schema as u64),
        );
        proof {
            if let DetailView::Found(i, n) = self@ {
                assert(fields@ =~= detail_json(i, n)->Object_0);
            }
        }
        fields.object()
    }
}

/// What a request asks for.
pub enum Route {
    Status,
    Incident(String),
    Unknown,
}

pub enum RouteView {
    Status,
    Incident(Seq<char>),
    Unknown,
}

impl Route {
    pub open spec fn view(&self) -> RouteView {
        match self {
            Route::Status => RouteView::Status,
            Route::Incident(id) => RouteView::Incident(id@),
            Route::Unknown => RouteView::Unknown,
        }
    }
}

/// What a path asks for: the whole state, or an incident, whose name is read without regard to
/// case.
pub open spec fn route_of(path: Seq<char>) -> RouteView {
    if path == "/v1/status"@ {
        RouteView::Status
    } else {
        match text::behind(path, "/v1/incidents/"@) {
            Some(id) => if id_allowed(id) {
                RouteView::Incident(text::ascii_lowered(id))
            } else {
                RouteView::Unknown
            },
            None => RouteView::Unknown,
        }
    }
}

pub fn route(path: &str) -> (r: Route)
    ensures
        r@ == route_of(path@),
{
    if text::same(path, "/v1/status") {
        return Route::Status;
    }
    match text::strip_prefix(path, "/v1/incidents/") {
        Some(id) => if valid_id(id.as_str()) {
            Route::Incident(text::ascii_lowercase(id.as_str()))
        } else {
            Route::Unknown
        },
        None => Route::Unknown,
    }
}

/// An error as JSON.
pub open spec fn error_json(message: Seq<char>) -> JsonView {
    JsonView::Object(seq![("error"@, JsonView::Text(message))])
}

fn write_error(message: &str) -> (r: Json)
    ensures
        r@ == error_json(message@),
{
    let fields = Fields::new().with("error", json::string(message));
    assert(fields@ =~= error_json(message@)->Object_0);
    fields.object()
}

/// Why nothing can be shown.
pub enum Refusal {
    /// The request is no bounded `GET` request.
    Malformed,
    /// The path is not known.
    Endpoint,
    /// There is no such incident.
    Missing,
    /// The state is in use, or what it holds cannot be shown.
    State,
    /// The counts are in use.
    Metrics,
}

pub open spec fn refusal_status(r: Refusal) -> u16 {
    match r {
        Refusal::Malformed => 400,
        Refusal::Endpoint | Refusal::Missing => 404,
        Refusal::State | Refusal::Metrics => 503,
    }
}

pub open spec fn refusal_message(r: Refusal) -> Seq<char> {
    match r {
        Refusal::Malformed => "Expected bounded GET request"@,
        Refusal::Endpoint => "Unknown inspection endpoint"@,
        Refusal::Missing => "Incident not found"@,
        Refusal::State => "Controller inspection unavailable; retry shortly"@,
        Refusal::Metrics => "Controller metrics busy"@,
    }
}

/// The answer where nothing can be shown.
pub fn refuse(why: Refusal) -> (r: (u16, Json))
    ensures
        r.0 == refusal_status(why),
        r.1@ == error_json(refusal_message(why)),
{
    match why {
        Refusal::Malformed => (400, write_error("Expected bounded GET request")),
        Refusal::Endpoint => (404, write_error("Unknown inspection endpoint")),
        Refusal::Missing => (404, write_error("Incident not found")),
        Refusal::State => (503, write_error("Controller inspection unavailable; retry shortly")),
        Refusal::Metrics => (503, write_error("Controller metrics busy")),
    }
}

/// The answer to a request: a status, and what is shown.
pub open spec fn answered(
    route: RouteView,
    state: Option<StoreView>,
    metrics: Option<MetricsView>,
    ready: bool,
    now: i64,
) -> (u16, JsonView) {
    match (route, state) {
        (RouteView::Unknown, _) => refused(Refusal::Endpoint),
        (_, None) => refused(Refusal::State),
        (RouteView::Status, Some(s)) => match metrics {
            Some(m) => (200, status_json(s, m, ready, now)),
            None => refused(Refusal::Metrics),
        },
        (RouteView::Incident(id), Some(s)) => match s.detail(id) {
            DetailView::Found(i, n) => (200, detail_json(i, n)),
            DetailView::Missing => refused(Refusal::Missing),
            DetailView::TooLong | DetailView::Unreadable => refused(Refusal::State),
        },
    }
}

pub open spec fn refused(why: Refusal) -> (u16, JsonView) {
    (refusal_status(why), error_json(refusal_message(why)))
}

pub open spec fn state_view(s: Option<&Store>) -> Option<StoreView> {
    match s {
        Some(s) => Some(s@),
        None => None,
    }
}

pub open spec fn counts_view(m: Option<&Metrics>) -> Option<MetricsView> {
    match m {
        Some(m) => Some(m@),
        None => None,
    }
}

/// The answer to a request, where the state and the counts could be read at once. Nothing waits for
/// them, so that a reader never holds up ingestion.
pub fn response(
    route: &Route,
    state: Option<&Store>,
    metrics: Option<&Metrics>,
    ready: bool,
    now: i64,
) -> (r: (u16, Json))
    ensures
        (r.0, r.1@) == answered(route@, state_view(state), counts_view(metrics), ready, now),
{
    match route {
        Route::Unknown => refuse(Refusal::Endpoint),
        Route::Status => match state {
            None => refuse(Refusal::State),
            Some(s) => match metrics {
                None => refuse(Refusal::Metrics),
                Some(m) => (200, Snapshot::new(s, m, ready, now).json()),
            },
        },
        Route::Incident(id) => match state {
            None => refuse(Refusal::State),
            Some(s) => match s.incident_detail(id) {
                Ok(Some(d)) => (200, d.json()),
                Ok(None) => refuse(Refusal::Missing),
                Err(_) => refuse(Refusal::State),
            },
        },
    }
}

/// Whether a text is a version of HTTP that is understood.
pub open spec fn version_known(v: Seq<char>) -> bool {
    v == "HTTP/1.0"@ || v == "HTTP/1.1"@
}

/// The path that a request asks for: its bytes are text with the end of a header, whose first line
/// has three words, `GET`, the path and a version of HTTP.
pub open spec fn asked(bytes: Seq<u8>) -> Option<Seq<char>> {
    if vstd::utf8::valid_utf8(bytes) {
        let header = vstd::utf8::decode_utf8(bytes);
        let words = text::words(text::first_line(header));
        if words.len() == 3 && words[0] == "GET"@ && version_known(words[2]) && text::holds(
            header,
            "\r\n\r\n"@,
        ) {
            Some(words[1])
        } else {
            None
        }
    } else {
        None
    }
}

/// Reads the path that a request asks for.
pub fn read_request(bytes: &[u8]) -> (r: Option<String>)
    ensures
        text::optional_view(r) == asked(bytes@),
{
    let header = match text::from_utf8(bytes) {
        Some(h) => h,
        None => {
            return None;
        },
    };
    let line = text::line_one(header.as_str());
    let words = text::split_words(line.as_str());
    if words.len() != 3 {
        return None;
    }
    assert(text::list_view(words@)[0] == words@[0]@);
    assert(text::list_view(words@)[1] == words@[1]@);
    assert(text::list_view(words@)[2] == words@[2]@);
    if !text::same(words[0].as_str(), "GET") {
        return None;
    }
    if !text::same(words[2].as_str(), "HTTP/1.0") && !text::same(words[2].as_str(), "HTTP/1.1") {
        return None;
    }
    if !text::contains(header.as_str(), "\r\n\r\n") {
        return None;
    }
    Some(words[1].clone())
}

pub const HEADERS: &'static str = "Content-Type: application/json\r\nCache-Control: no-store\r\n";

/// The bytes of a reply, or nothing where its body is longer than a reply may be.
pub fn frame(status: u16, value: &Json) -> (r: Option<String>)
    ensures
        match r {
            Some(t) => text::utf8_len(json::json_text(value@)) <= MAX_RESPONSE && t@
                == wire::reply_head(
                status,
                HEADERS@,
                text::utf8_len(json::json_text(value@)),
            ) + json::json_text(value@),
            None => text::utf8_len(json::json_text(value@)) > MAX_RESPONSE,
        },
{
    let body = value.text();
    if text::byte_len(body.as_str()) > MAX_RESPONSE {
        return None;
    }
    Some(wire::reply(status, HEADERS, body.as_str()))
}

/// A reader is answered from what the state holds alone: without the state nothing of it is shown,
/// and what is shown of an incident is the incident of that name.
pub proof fn inspection_shows_what_is_there(
    route: RouteView,
    state: Option<StoreView>,
    metrics: Option<MetricsView>,
    ready: bool,
    now: i64,
)
    ensures
        answered(route, state, metrics, ready, now).0 == 200 ==> state is Some && !(route
            is Unknown),
        route matches RouteView::Incident(id) ==> answered(route, state, metrics, ready, now).0
            == 200 ==> rows::find(state.unwrap().incidents, id) is Some,
        state is None ==> answered(route, state, metrics, ready, now).0 != 200,
{
}

}
