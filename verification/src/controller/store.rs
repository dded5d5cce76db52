//! The controller's state: verdicts, evidence that was seen, incidents and the outbox.
//!
//! Each operation first plans what it changes and only then changes it, so that a caller can make
//! the changes durable in one transaction before they take effect, and a refused operation leaves
//! no trace.
use vstd::prelude::*;

use crate::controller;
use crate::controller::policy::{cacheable, reliable, Decision, Policy, PolicyView};
use crate::controller::{Contract, ContractView, Notification};
use crate::digest;
use crate::events;
use crate::events::{Event, EventView};
use crate::jev::{Judgment, JudgmentView};
use crate::json;
use crate::json::{Items, Json, JsonView};
use crate::rows;
use crate::rows::Row;
use crate::text;

verus! {

/// The most verdicts, and the most pieces of evidence, that are kept.
pub const ROW_LIMIT: i64 = 100_000;

/// The most incidents, and the most notifications, that are kept.
pub const OUTBOX_LIMIT: i64 = 10_000;

/// How long evidence and delivered notifications are kept, in seconds: a week.
pub const RETENTION: i64 = 604_800;

/// The most rows of a table that one round of maintenance touches.
pub const PRUNE_BATCH: i64 = 256;

/// A verdict, and when it was given and how long it holds. A judgment that could not be read back
/// is missing.
pub struct VerdictRow {
    pub key: String,
    pub judgment: Option<Judgment>,
    pub created: i64,
    pub expires: i64,
}

#[verifier::ext_equal]
pub struct VerdictBody {
    pub judgment: Option<JudgmentView>,
    pub created: i64,
    pub expires: i64,
}

pub open spec fn judgment_view(j: Option<Judgment>) -> Option<JudgmentView> {
    match j {
        Some(x) => Some(x@),
        None => None,
    }
}

impl Row for VerdictRow {
    type Body = VerdictBody;

    open spec fn name(&self) -> Seq<char> {
        self.key@
    }

    open spec fn body(&self) -> VerdictBody {
        VerdictBody {
            judgment: judgment_view(self.judgment),
            created: self.created,
            expires: self.expires,
        }
    }

    fn key(&self) -> (r: &String) {
        &self.key
    }
}

/// Evidence that was seen, and what was decided on it.
pub struct SeenRow {
    pub key: String,
    pub at: i64,
    pub decision: String,
}

#[verifier::ext_equal]
pub struct SeenBody {
    pub at: i64,
    pub decision: Seq<char>,
}

impl Row for SeenRow {
    type Body = SeenBody;

    open spec fn name(&self) -> Seq<char> {
        self.key@
    }

    open spec fn body(&self) -> SeenBody {
        SeenBody { at: self.at, decision: self.decision@ }
    }

    fn key(&self) -> (r: &String) {
        &self.key
    }
}

/// An incident: how often its evidence came in the present window, how far it has escalated, when a
/// notification was last made of it and how many were made.
pub struct IncidentRow {
    pub key: String,
    pub window: i64,
    pub count: u32,
    pub level: u32,
    pub last: i64,
    pub sequence: i64,
    pub touched: i64,
    pub last_decision: Option<String>,
}

#[verifier::ext_equal]
pub struct IncidentBody {
    pub window: i64,
    pub count: u32,
    pub level: u32,
    pub last: i64,
    pub sequence: i64,
    pub touched: i64,
    pub last_decision: Option<Seq<char>>,
}

impl Row for IncidentRow {
    type Body = IncidentBody;

    open spec fn name(&self) -> Seq<char> {
        self.key@
    }

    open spec fn body(&self) -> IncidentBody {
        IncidentBody {
            window: self.window,
            count: self.count,
            level: self.level,
            last: self.last,
            sequence: self.sequence,
            touched: self.touched,
            last_decision: text::optional_view(self.last_decision),
        }
    }

    fn key(&self) -> (r: &String) {
        &self.key
    }
}

/// How far a notification has come.
#[derive(Clone, Copy, Debug, PartialEq, Eq, Structural)]
pub enum Status {
    Pending,
    Delivered,
    Dead,
}

pub open spec fn status_name(s: Status) -> Seq<char> {
    match s {
        Status::Pending => "pending"@,
        Status::Delivered => "delivered"@,
        Status::Dead => "dead"@,
    }
}

impl Status {
    pub fn label(self) -> (r: &'static str)
        ensures
            r@ == status_name(self),
    {
        match self {
            Status::Pending => "pending",
            Status::Delivered => "delivered",
            Status::Dead => "dead",
        }
    }
}

/// A notification that is to be delivered.
pub struct OutboxRow {
    pub id: String,
    pub incident: String,
    pub payload: String,
    pub status: Status,
    pub attempts: u32,
    pub due: i64,
    pub updated: i64,
}

#[verifier::ext_equal]
pub struct OutboxBody {
    pub incident: Seq<char>,
    pub payload: Seq<char>,
    pub status: Status,
    pub attempts: u32,
    pub due: i64,
    pub updated: i64,
}

impl Row for OutboxRow {
    type Body = OutboxBody;

    open spec fn name(&self) -> Seq<char> {
        self.id@
    }

    open spec fn body(&self) -> OutboxBody {
        OutboxBody {
            incident: self.incident@,
            payload: self.payload@,
            status: self.status,
            attempts: self.attempts,
            due: self.due,
            updated: self.updated,
        }
    }

    fn key(&self) -> (r: &String) {
        &self.id
    }
}

impl Clone for VerdictRow {
    fn clone(&self) -> (r: Self)
        ensures
            r.name() == self.name(),
            r.body() == self.body(),
    {
        VerdictRow {
            key: self.key.clone(),
            judgment: match &self.judgment {
                Some(j) => Some(j.clone()),
                None => None,
            },
            created: self.created,
            expires: self.expires,
        }
    }
}

impl Clone for SeenRow {
    fn clone(&self) -> (r: Self)
        ensures
            r.name() == self.name(),
            r.body() == self.body(),
    {
        SeenRow { key: self.key.clone(), at: self.at, decision: self.decision.clone() }
    }
}

impl Clone for IncidentRow {
    fn clone(&self) -> (r: Self)
        ensures
            r.name() == self.name(),
            r.body() == self.body(),
    {
        IncidentRow {
            key: self.key.clone(),
            window: self.window,
            count: self.count,
            level: self.level,
            last: self.last,
            sequence: self.sequence,
            touched: self.touched,
            last_decision: text::clone_optional(&self.last_decision),
        }
    }
}

impl Clone for OutboxRow {
    fn clone(&self) -> (r: Self)
        ensures
            r.name() == self.name(),
            r.body() == self.body(),
    {
        OutboxRow {
            id: self.id.clone(),
            incident: self.incident.clone(),
            payload: self.payload.clone(),
            status: self.status,
            attempts: self.attempts,
            due: self.due,
            updated: self.updated,
        }
    }
}

/// One change of the state.
pub enum Change {
    Verdict(VerdictRow),
    Seen(SeenRow),
    Incident(IncidentRow),
    Outbox(OutboxRow),
    ForgetVerdict(String),
    ForgetSeen(String),
    ForgetOutbox(String),
    /// No delivery before this time.
    Clock(i64),
}

pub enum ChangeView {
    Verdict(Seq<char>, VerdictBody),
    Seen(Seq<char>, SeenBody),
    Incident(Seq<char>, IncidentBody),
    Outbox(Seq<char>, OutboxBody),
    ForgetVerdict(Seq<char>),
    ForgetSeen(Seq<char>),
    ForgetOutbox(Seq<char>),
    Clock(i64),
}

impl Change {
    pub open spec fn view(&self) -> ChangeView {
        match self {
            Change::Verdict(r) => ChangeView::Verdict(r.name(), r.body()),
            Change::Seen(r) => ChangeView::Seen(r.name(), r.body()),
            Change::Incident(r) => ChangeView::Incident(r.name(), r.body()),
            Change::Outbox(r) => ChangeView::Outbox(r.name(), r.body()),
            Change::ForgetVerdict(k) => ChangeView::ForgetVerdict(k@),
            Change::ForgetSeen(k) => ChangeView::ForgetSeen(k@),
            Change::ForgetOutbox(k) => ChangeView::ForgetOutbox(k@),
            Change::Clock(t) => ChangeView::Clock(*t),
        }
    }
}

/// The views of a list of changes.
pub open spec fn changes_view(v: Seq<Change>) -> Seq<ChangeView> {
    Seq::new(v.len(), |i: int| v[i]@)
}

/// The state of the controller.
pub struct Store {
    verdicts: Vec<VerdictRow>,
    seen: Vec<SeenRow>,
    incidents: Vec<IncidentRow>,
    outbox: Vec<OutboxRow>,
    next: i64,
}

#[verifier::ext_equal]
pub struct StoreView {
    pub verdicts: Seq<(Seq<char>, VerdictBody)>,
    pub seen: Seq<(Seq<char>, SeenBody)>,
    pub incidents: Seq<(Seq<char>, IncidentBody)>,
    pub outbox: Seq<(Seq<char>, OutboxBody)>,
    pub next: i64,
}

/// The state before anything happened.
pub open spec fn empty_store() -> StoreView {
    StoreView { verdicts: seq![], seen: seq![], incidents: seq![], outbox: seq![], next: 0 }
}

impl StoreView {
    /// The state after a change.
    pub open spec fn changed(self, c: ChangeView) -> StoreView {
        match c {
            ChangeView::Verdict(k, b) => StoreView {
                verdicts: rows::put(self.verdicts, k, b),
                ..self
            },
            ChangeView::Seen(k, b) => StoreView { seen: rows::put(self.seen, k, b), ..self },
            ChangeView::Incident(k, b) => StoreView {
                incidents: rows::put(self.incidents, k, b),
                ..self
            },
            ChangeView::Outbox(k, b) => StoreView {
                outbox: rows::put(self.outbox, k, b),
                ..self
            },
            ChangeView::ForgetVerdict(k) => StoreView {
                verdicts: rows::remove(self.verdicts, k),
                ..self
            },
            ChangeView::ForgetSeen(k) => StoreView { seen: rows::remove(self.seen, k), ..self },
            ChangeView::ForgetOutbox(k) => StoreView {
                outbox: rows::remove(self.outbox, k),
                ..self
            },
            ChangeView::Clock(t) => StoreView { next: t, ..self },
        }
    }

    /// The state after changes, one after the other.
    pub open spec fn after(self, changes: Seq<ChangeView>) -> StoreView
        decreases changes.len(),
    {
        if changes.len() == 0 {
            self
        } else {
            self.after(changes.drop_last()).changed(changes.last())
        }
    }

    /// Every name occurs once in its table, and no table holds more than it may.
    pub open spec fn sound(self) -> bool {
        &&& rows::distinct(self.verdicts)
        &&& rows::distinct(self.seen)
        &&& rows::distinct(self.incidents)
        &&& rows::distinct(self.outbox)
        &&& self.verdicts.len() <= ROW_LIMIT
        &&& self.seen.len() <= ROW_LIMIT
        &&& self.incidents.len() <= OUTBOX_LIMIT
        &&& self.outbox.len() <= OUTBOX_LIMIT
    }
}

impl Store {
    pub closed spec fn view(&self) -> StoreView {
        StoreView {
            verdicts: rows::table(self.verdicts@),
            seen: rows::table(self.seen@),
            incidents: rows::table(self.incidents@),
            outbox: rows::table(self.outbox@),
            next: self.next,
        }
    }

    pub fn new() -> (r: Self)
        ensures
            r@ == empty_store(),
    {
        let r = Store {
            verdicts: Vec::new(),
            seen: Vec::new(),
            incidents: Vec::new(),
            outbox: Vec::new(),
            next: 0,
        };
        assert(r@ =~= empty_store());
        r
    }

    /// Makes a change. The state that was kept elsewhere is restored by one change for each of its
    /// rows.
    pub fn commit(&mut self, change: Change)
        ensures
            final(self)@ == old(self)@.changed(change@),
    {
        match change {
            Change::Verdict(r) => rows::put_row(&mut self.verdicts, r),
            Change::Seen(r) => rows::put_row(&mut self.seen, r),
            Change::Incident(r) => rows::put_row(&mut self.incidents, r),
            Change::Outbox(r) => rows::put_row(&mut self.outbox, r),
            Change::ForgetVerdict(k) => rows::remove_row(&mut self.verdicts, &k),
            Change::ForgetSeen(k) => rows::remove_row(&mut self.seen, &k),
            Change::ForgetOutbox(k) => rows::remove_row(&mut self.outbox, &k),
            Change::Clock(t) => {
                self.next = t;
            },
        }
    }

    /// Makes changes, one after the other.
    pub fn commit_all(&mut self, changes: Vec<Change>)
        ensures
            final(self)@ == old(self)@.after(changes_view(changes@)),
    {
        let ghost start = self@;
        let ghost all = changes_view(changes@);
        let mut rest: Vec<Change> = Vec::new();
        let mut todo = changes;
        while todo.len() > 0
            invariant
                todo@.len() + rest@.len() == all.len(),
                forall|i: int| 0 <= i < todo@.len() ==> (#[trigger] todo@[i])@ == all[i],
                forall|i: int|
                    0 <= i < rest@.len() ==> (#[trigger] rest@[i])@ == all[all.len() - 1 - i],
            decreases todo@.len(),
        {
            rest.push(todo.pop().unwrap());
        }
        assert(all.take(0) =~= seq![]);
        while rest.len() > 0
            invariant
                rest@.len() <= all.len(),
                forall|i: int|
                    0 <= i < rest@.len() ==> (#[trigger] rest@[i])@ == all[all.len() - 1 - i],
                self@ == start.after(all.take(all.len() - rest@.len())),
            decreases rest@.len(),
        {
            let ghost done = all.len() - rest@.len();
            let change = rest.pop().unwrap();
            assert(change@ == all[done]);
            assert(all.take(done + 1).drop_last() =~= all.take(done));
            self.commit(change);
        }
        assert(all.take(all.len() as int) =~= all);
    }
}

/// What is known of an event from an earlier verdict.
pub enum Lookup {
    Hit(Judgment),
    Miss,
    Expired,
}

/// A sum that stops at the bounds of its type.
pub open spec fn capped(n: int) -> i64 {
    if n > i64::MAX {
        i64::MAX
    } else if n < i64::MIN {
        i64::MIN
    } else {
        n as i64
    }
}

fn capped_add(a: i64, b: i64) -> (r: i64)
    ensures
        r == capped(a + b),
{
    let sum: i128 = a as i128 + b as i128;
    if sum > 9223372036854775807 {
        i64::MAX
    } else if sum < -9223372036854775808 {
        i64::MIN
    } else {
        sum as i64
    }
}

/// What is said where a verdict was kept that can no longer be read.
pub const UNREADABLE: &'static str = "Invalid persisted judgment";

/// The answer to a lookup: a verdict that still holds, none, an outdated one, or one that cannot be
/// read.
pub enum Found {
    Hit(JudgmentView),
    Miss,
    Expired,
    Unreadable,
}

impl StoreView {
    /// Whether a verdict holds at a time: it was given before, and neither its own time nor the
    /// caller's has run out.
    pub open spec fn holds(b: VerdictBody, now: i64, ttl: i64) -> bool {
        b.created <= now && now < b.expires && now < capped(b.created + ttl)
    }

    pub open spec fn looked_up(
        self,
        e: EventView,
        c: ContractView,
        now: i64,
        ttl: i64,
        rescore: bool,
    ) -> Found {
        if e.truncated || rescore {
            Found::Miss
        } else {
            match rows::find(self.verdicts, controller::verdict_key(c, e)) {
                Some(b) => if !Self::holds(b, now, ttl) {
                    Found::Expired
                } else {
                    match b.judgment {
                        Some(j) => if reliable(EventView { judgment: j, ..e }) {
                            Found::Hit(j)
                        } else {
                            Found::Miss
                        },
                        None => Found::Unreadable,
                    }
                },
                None => Found::Miss,
            }
        }
    }
}

impl Store {
    /// Looks for a verdict on an event that was given under the same contract and still holds.
    pub fn lookup(
        &self,
        event: &Event,
        contract: &Contract,
        now: i64,
        ttl: i64,
        rescore: bool,
    ) -> (r: Result<Lookup, &'static str>)
        ensures
            match r {
                Ok(Lookup::Hit(j)) => self@.looked_up(event@, contract@, now, ttl, rescore)
                    == Found::Hit(j@),
                Ok(Lookup::Miss) => self@.looked_up(event@, contract@, now, ttl, rescore)
                    == Found::Miss,
                Ok(Lookup::Expired) => self@.looked_up(event@, contract@, now, ttl, rescore)
                    == Found::Expired,
                Err(e) => self@.looked_up(event@, contract@, now, ttl, rescore)
                    == Found::Unreadable && e@ == UNREADABLE@,
            },
    {
        if event.truncated || rescore {
            return Ok(Lookup::Miss);
        }
        let key = contract.key(event);
        let at = rows::position(&self.verdicts, &key);
        if at == self.verdicts.len() {
            return Ok(Lookup::Miss);
        }
        let row = &self.verdicts[at];
        let limit = capped_add(row.created, ttl);
        if now < row.created || now >= row.expires || now >= limit {
            return Ok(Lookup::Expired);
        }
        match &row.judgment {
            Some(j) => {
                let mut checked = event.clone();
                checked.judgment = j.clone();
                assert(checked@ =~= (EventView { judgment: j@, ..event@ }));
                if !cacheable(&checked) {
                    return Ok(Lookup::Miss);
                }
                Ok(Lookup::Hit(j.clone()))
            },
            None => Err(UNREADABLE),
        }
    }
}

/// A hit is never stale nor taken from other evidence: the verdict stands under the event's own
/// name under the same contract, its time has not run out, and it can be relied on.
pub proof fn hits_are_fresh_and_exact(
    s: StoreView,
    e: EventView,
    c: ContractView,
    now: i64,
    ttl: i64,
    rescore: bool,
)
    requires
        s.looked_up(e, c, now, ttl, rescore) is Hit,
    ensures
        !rescore,
        reliable(EventView { judgment: s.looked_up(e, c, now, ttl, rescore)->Hit_0, ..e }),
        rows::find(s.verdicts, controller::verdict_key(c, e)) matches Some(b) && b.judgment == Some(
            s.looked_up(e, c, now, ttl, rescore)->Hit_0,
        ) && b.created <= now < b.expires && now < b.created + ttl,
{
}

/// What came of evidence.
#[derive(Clone, Copy, Debug, PartialEq, Eq, Structural)]
pub struct Applied {
    pub duplicate: bool,
    pub enqueued: bool,
    pub decision: Option<Decision>,
}

impl Default for Applied {
    fn default() -> (r: Self)
        ensures
            r == (Applied { duplicate: false, enqueued: false, decision: None }),
    {
        Applied { duplicate: false, enqueued: false, decision: None }
    }
}

/// What evidence is known by.
pub open spec fn seen_basis(e: EventView) -> JsonView {
    JsonView::List(
        seq![].push(JsonView::Object(e.source)).push(JsonView::Text(e.text)).push(
            JsonView::Bool(e.truncated),
        ).push(json::optional_text(e.timestamp)),
    )
}

/// What an incident is known by.
pub open spec fn incident_basis(e: EventView) -> JsonView {
    JsonView::List(
        seq![].push(JsonView::Text("incident-v1"@)).push(JsonView::Object(e.source)).push(
            JsonView::Text(e.text),
        ).push(JsonView::Bool(e.truncated)),
    )
}

/// What a decision is known by.
pub open spec fn signed_basis(c: ContractView, p: PolicyView, d: Decision) -> JsonView {
    JsonView::List(
        seq![].push(controller::contract_json(c)).push(controller::policy::policy_json(p)).push(
            JsonView::Text(controller::policy::decision_name(d)),
        ),
    )
}

/// What a notification is known by.
pub open spec fn notification_basis(incident: Seq<char>, sequence: int) -> JsonView {
    JsonView::List(seq![].push(JsonView::Text(incident)).push(json::integer(sequence)))
}

/// The name of a piece of evidence: its source, its text and its time.
pub open spec fn seen_key(e: EventView) -> Seq<char> {
    digest::fingerprint(seen_basis(e))
}

/// The name of a decision together with the terms on which it was made.
pub open spec fn signature(c: ContractView, p: PolicyView, d: Decision) -> Seq<char> {
    digest::fingerprint(signed_basis(c, p, d))
}

/// The name of the incident that evidence belongs to: its source and its text.
pub open spec fn incident_key(e: EventView) -> Seq<char> {
    digest::fingerprint(incident_basis(e))
}

/// The name of a notification: its incident and its number.
pub open spec fn notification_key(incident: Seq<char>, sequence: int) -> Seq<char> {
    digest::fingerprint(notification_basis(incident, sequence))
}

/// Whether at least a span of time lies between two moments.
pub open spec fn apart(now: i64, then: i64, span: i64) -> bool {
    now - then >= span
}

fn is_apart(now: i64, then: i64, span: i64) -> (r: bool)
    ensures
        r == apart(now, then, span),
{
    now as i128 - then as i128 >= span as i128
}

/// Whether the window of an incident is over.
pub open spec fn window_over(b: IncidentBody, p: PolicyView, now: i64) -> bool {
    now < b.window || apart(now, b.window, p.recurrence_window_seconds)
}

/// How often the evidence of an incident came in its present window, with this time.
pub open spec fn recurrence(
    old: Option<IncidentBody>,
    p: PolicyView,
    now: i64,
    fresh: bool,
) -> u32 {
    let before: u32 = match old {
        Some(b) => if window_over(b, p, now) {
            0
        } else {
            b.count
        },
        None => 0,
    };
    if fresh && before < u32::MAX {
        (before + 1) as u32
    } else {
        before
    }
}

/// Whether an incident escalates: its evidence came another so many times, and there is a level
/// left.
pub open spec fn escalates(
    old: Option<IncidentBody>,
    p: PolicyView,
    now: i64,
    fresh: bool,
) -> bool {
    let count = recurrence(old, p, now, fresh);
    let level: u32 = match old {
        Some(b) => b.level,
        None => 0,
    };
    &&& fresh
    &&& count > 0
    &&& p.recurrence_count != 0 && count % p.recurrence_count == 0
    &&& level < p.max_escalation
}

/// Whether a notification is due: the incident is new, its decision has changed, it escalates, or
/// the last notification lies far enough back.
pub open spec fn sends(old: Option<IncidentBody>, p: PolicyView, now: i64, fresh: bool) -> bool {
    match old {
        None => true,
        Some(b) => !fresh || escalates(old, p, now, fresh) || now < b.last || apart(
            now,
            b.last,
            p.cooldown_seconds,
        ),
    }
}

/// An incident after evidence for it came.
pub open spec fn advanced(
    old: Option<IncidentBody>,
    p: PolicyView,
    d: Decision,
    now: i64,
    fresh: bool,
) -> IncidentBody {
    let send = sends(old, p, now, fresh);
    let level: u32 = match old {
        Some(b) => b.level,
        None => 0,
    };
    IncidentBody {
        window: match old {
            Some(b) => if window_over(b, p, now) {
                now
            } else {
                b.window
            },
            None => now,
        },
        count: recurrence(old, p, now, fresh),
        level: if escalates(old, p, now, fresh) {
            (level + 1) as u32
        } else {
            level
        },
        last: match old {
            Some(b) => if send {
                now
            } else {
                b.last
            },
            None => now,
        },
        sequence: match old {
            Some(b) => if send {
                (b.sequence + 1) as i64
            } else {
                b.sequence
            },
            None => 1,
        },
        touched: now,
        last_decision: Some(controller::policy::decision_name(d)),
    }
}

/// What was decided before on the same evidence, if it is not too long ago.
pub open spec fn prior_decision(s: StoreView, e: EventView, now: i64) -> Option<Seq<char>> {
    match rows::find(s.seen, seen_key(e)) {
        Some(b) => if b.at > now - RETENTION {
            Some(b.decision)
        } else {
            None
        },
        None => None,
    }
}

/// The outbox row of a new notification.
pub open spec fn outbox_entry(
    e: EventView,
    p: PolicyView,
    d: Decision,
    b: IncidentBody,
    now: i64,
) -> OutboxBody {
    let key = incident_key(e);
    let id = notification_key(key, b.sequence as int);
    OutboxBody {
        incident: key,
        payload: json::json_text(
            controller::notification_json(
                controller::notification(id, key, e, p, d, b.level, b.count, now),
            ),
        ),
        status: Status::Pending,
        attempts: 0,
        due: now,
        updated: now,
    }
}

/// What evidence is to do, or why it is refused.
pub type Planned = Result<(Applied, Seq<ChangeView>), Seq<char>>;

impl StoreView {
    /// The change that keeps the verdict on an event, where it can be relied on and is new.
    pub open spec fn verdict_change(
        self,
        e: EventView,
        c: ContractView,
        now: i64,
        ttl: i64,
    ) -> Seq<ChangeView> {
        if reliable(e) && !e.analysis_reused {
            seq![
                ChangeView::Verdict(
                    controller::verdict_key(c, e),
                    VerdictBody {
                        judgment: Some(e.judgment),
                        created: now,
                        expires: capped(now + ttl),
                    },
                ),
            ]
        } else {
            seq![]
        }
    }

    /// What evidence that calls for a human does, behind the changes that it makes anyway.
    pub open spec fn raised(
        self,
        e: EventView,
        p: PolicyView,
        d: Decision,
        now: i64,
        fresh: bool,
        changes: Seq<ChangeView>,
    ) -> Planned {
        let key = incident_key(e);
        let old = rows::find(self.incidents, key);
        let next = advanced(old, p, d, now, fresh);
        let send = sends(old, p, now, fresh);
        let id = notification_key(key, next.sequence as int);
        if old is None && self.incidents.len() >= OUTBOX_LIMIT {
            Err("Controller incident capacity exhausted"@)
        } else if send && self.outbox.len() >= OUTBOX_LIMIT {
            Err("Controller outbox capacity exhausted"@)
        } else if send && rows::find(self.outbox, id) is Some {
            Err("Controller state operation failed"@)
        } else if send {
            Ok(
                (
                    Applied { duplicate: false, enqueued: true, decision: Some(d) },
                    changes.push(ChangeView::Outbox(id, outbox_entry(e, p, d, next, now))).push(
                        ChangeView::Incident(key, next),
                    ),
                ),
            )
        } else {
            Ok(
                (
                    Applied { duplicate: false, enqueued: false, decision: Some(d) },
                    changes.push(ChangeView::Incident(key, next)),
                ),
            )
        }
    }

    /// What evidence does: the verdict is kept, a replay is recognised, and a human is told where
    /// the policy says so.
    pub open spec fn planned(
        self,
        e: EventView,
        c: ContractView,
        p: PolicyView,
        now: i64,
        ttl: i64,
    ) -> Planned {
        let verdict = self.verdict_change(e, c, now, ttl);
        let d = p.decided(e);
        let told = signature(c, p, d);
        let prior = prior_decision(self, e, now);
        let fresh = e.timestamp is None || prior is None;
        let seen = ChangeView::Seen(seen_key(e), SeenBody { at: now, decision: told });
        let changes = if e.timestamp is Some {
            verdict.push(seen)
        } else {
            verdict
        };
        if text::utf8_len(e.text) > events::MAX_EVENT {
            Err("Controller evidence exceeds limit"@)
        } else if verdict.len() > 0 && rows::find(
            self.verdicts,
            controller::verdict_key(c, e),
        ) is None && self.verdicts.len() >= ROW_LIMIT {
            Err("Controller verdict capacity exhausted"@)
        } else if e.timestamp is Some && prior == Some(told) {
            Ok((Applied { duplicate: true, enqueued: false, decision: None }, verdict))
        } else if e.timestamp is Some && fresh && self.seen.len() >= ROW_LIMIT {
            Err("Controller novelty capacity exhausted"@)
        } else if d == Decision::Notify || d == Decision::Review {
            self.raised(e, p, d, now, fresh, changes)
        } else {
            Ok((Applied { duplicate: false, enqueued: false, decision: Some(d) }, changes))
        }
    }

    /// Whether one more notification can be numbered.
    pub open spec fn numberable(self, e: EventView) -> bool {
        rows::find(self.incidents, incident_key(e)) matches Some(b) ==> b.sequence < i64::MAX
    }
}

fn key_of_evidence(e: &Event) -> (r: String)
    ensures
        r@ == seen_key(e@),
{
    controller::digest(
        &Items::new().with(e.source.json()).with(json::string(e.text.as_str())).with(
            Json::Bool(e.truncated),
        ).with(json::optional(&e.timestamp)).list(),
    )
}

fn sign(c: &Contract, p: &Policy, d: Decision) -> (r: String)
    ensures
        r@ == signature(c@, p@, d),
{
    controller::digest(
        &Items::new().with(c.json()).with(p.json()).with(json::string(d.label())).list(),
    )
}

fn key_of_incident(e: &Event) -> (r: String)
    ensures
        r@ == incident_key(e@),
{
    controller::digest(
        &Items::new().with(json::string("incident-v1")).with(e.source.json()).with(
            json::string(e.text.as_str()),
        ).with(Json::Bool(e.truncated)).list(),
    )
}

pub fn key_of_notification(incident: &str, sequence: i64) -> (r: String)
    ensures
        r@ == notification_key(incident@, sequence as int),
{
    controller::digest(
        &Items::new().with(json::string(incident)).with(json::signed(sequence)).list(),
    )
}

fn advance(
    key: String,
    old: Option<&IncidentRow>,
    policy: &Policy,
    decision: Decision,
    now: i64,
    fresh: bool,
) -> (r: (IncidentRow, bool))
    requires
        old matches Some(b) ==> b.sequence < i64::MAX,
    ensures
        ({
            let before = match old {
                Some(b) => Some(b.body()),
                None => None,
            };
            &&& r.0.name() == key@
            &&& r.0.body() == advanced(before, policy@, decision, now, fresh)
            &&& r.1 == sends(before, policy@, now, fresh)
        }),
{
    let mut window: i64 = now;
    let mut count: u32 = 0;
    let mut level: u32 = 0;
    let mut last: i64 = now;
    let mut sequence: i64 = 0;
    if let Some(b) = old {
        if !(now < b.window || is_apart(now, b.window, policy.recurrence_window_seconds)) {
            window = b.window;
            count = b.count;
        }
        level = b.level;
        last = b.last;
        sequence = b.sequence;
    }
    if fresh && count < u32::MAX {
        count = count + 1;
    }
    let escalate = fresh && count > 0 && policy.recurrence_count != 0 && count
        % policy.recurrence_count == 0 && level < policy.max_escalation;
    if escalate {
        level = level + 1;
    }
    let send = match old {
        None => true,
        Some(b) => !fresh || escalate || now < b.last || is_apart(
            now,
            b.last,
            policy.cooldown_seconds,
        ),
    };
    if send {
        last = now;
        sequence = sequence + 1;
    }
    (
        IncidentRow {
            key,
            window,
            count,
            level,
            last,
            sequence,
            touched: now,
            last_decision: Some(decision.label().to_owned()),
        },
        send,
    )
}

proof fn changes_pushed(v: Seq<Change>, c: Change)
    ensures
        changes_view(v.push(c)) == changes_view(v).push(c@),
{
    assert(changes_view(v.push(c)) =~= changes_view(v).push(c@));
}

impl Store {
    /// Plans what evidence does.
    pub fn plan_apply(
        &self,
        event: &Event,
        contract: &Contract,
        policy: &Policy,
        now: i64,
        ttl: i64,
    ) -> (r: Result<(Applied, Vec<Change>), &'static str>)
        requires
            self@.numberable(event@),
        ensures
            match r {
                Ok((applied, changes)) => self@.planned(event@, contract@, policy@, now, ttl)
                    == Planned::Ok((applied, changes_view(changes@))),
                Err(e) => self@.planned(event@, contract@, policy@, now, ttl) == Planned::Err(e@),
            },
    {
        if text::byte_len(event.text.as_str()) > events::MAX_EVENT {
            return Err("Controller evidence exceeds limit");
        }
        let mut changes: Vec<Change> = Vec::new();
        let ghost verdict = self@.verdict_change(event@, contract@, now, ttl);
        assert(changes_view(changes@) =~= seq![]);
        if cacheable(event) && !event.analysis_reused {
            let key = contract.key(event);
            let at = rows::position(&self.verdicts, &key);
            if at == self.verdicts.len() && self.verdicts.len() >= 100_000 {
                return Err("Controller verdict capacity exhausted");
            }
            changes.push(
                Change::Verdict(
                    VerdictRow {
                        key,
                        judgment: Some(event.judgment.clone()),
                        created: now,
                        expires: capped_add(now, ttl),
                    },
                ),
            );
            assert(changes_view(changes@) =~= verdict);
        }
        assert(changes_view(changes@) == verdict);
        let decision = policy.decide(event);
        let told = sign(contract, policy, decision);
        let mut fresh = true;
        if event.timestamp.is_some() {
            let key = key_of_evidence(event);
            let at = rows::position(&self.seen, &key);
            if at < self.seen.len() && !is_apart(now, self.seen[at].at, RETENTION) {
                fresh = false;
                if self.seen[at].decision == told {
                    return Ok(
                        (Applied { duplicate: true, enqueued: false, decision: None }, changes),
                    );
                }
            }
            if fresh && self.seen.len() >= 100_000 {
                return Err("Controller novelty capacity exhausted");
            }
            let row = Change::Seen(SeenRow { key, at: now, decision: told });
            proof {
                changes_pushed(changes@, row);
            }
            changes.push(row);
        }
        if decision == Decision::Notify || decision == Decision::Review {
            self.plan_incident(event, policy, decision, now, fresh, changes)
        } else {
            Ok(
                (
                    Applied { duplicate: false, enqueued: false, decision: Some(decision) },
                    changes,
                ),
            )
        }
    }

    fn plan_incident(
        &self,
        event: &Event,
        policy: &Policy,
        decision: Decision,
        now: i64,
        fresh: bool,
        changes: Vec<Change>,
    ) -> (r: Result<(Applied, Vec<Change>), &'static str>)
        requires
            self@.numberable(event@),
        ensures
            ({
                let plan = self@.raised(
                    event@,
                    policy@,
                    decision,
                    now,
                    fresh,
                    changes_view(changes@),
                );
                match r {
                    Ok((applied, all)) => plan == Planned::Ok((applied, changes_view(all@))),
                    Err(e) => plan == Planned::Err(e@),
                }
            }),
    {
        let key = key_of_incident(event);
        let at = rows::position(&self.incidents, &key);
        let old = if at < self.incidents.len() {
            Some(&self.incidents[at])
        } else {
            None
        };
        let (next, send) = advance(key.clone(), old, policy, decision, now, fresh);
        if old.is_none() && self.incidents.len() >= 10_000 {
            return Err("Controller incident capacity exhausted");
        }
        let mut all = changes;
        if send {
            if self.outbox.len() >= 10_000 {
                return Err("Controller outbox capacity exhausted");
            }
            let id = key_of_notification(key.as_str(), next.sequence);
            if rows::position(&self.outbox, &id) < self.outbox.len() {
                return Err("Controller state operation failed");
            }
            let notification = Notification::new(
                id.as_str(),
                key.as_str(),
                event,
                policy,
                decision,
                next.level,
                next.count,
                now,
            );
            let row = Change::Outbox(
                OutboxRow {
                    id,
                    incident: key,
                    payload: notification.json().text(),
                    status: Status::Pending,
                    attempts: 0,
                    due: now,
                    updated: now,
                },
            );
            proof {
                changes_pushed(all@, row);
            }
            all.push(row);
        }
        let row = Change::Incident(next);
        proof {
            changes_pushed(all@, row);
        }
        all.push(row);
        Ok((Applied { duplicate: false, enqueued: send, decision: Some(decision) }, all))
    }

    /// Applies evidence: all that it does takes effect, or nothing does.
    pub fn apply(
        &mut self,
        event: &Event,
        contract: &Contract,
        policy: &Policy,
        now: i64,
        ttl: i64,
    ) -> (r: Result<Applied, &'static str>)
        requires
            old(self)@.numberable(event@),
        ensures
            match r {
                Ok(applied) => old(self)@.planned(event@, contract@, policy@, now, ttl) matches Ok(
                    plan,
                ) && plan.0 == applied && final(self)@ == old(self)@.after(plan.1),
                Err(e) => old(self)@.planned(event@, contract@, policy@, now, ttl)
                    == Planned::Err(e@) && final(self)@ == old(self)@,
            },
    {
        match self.plan_apply(event, contract, policy, now, ttl) {
            Ok((applied, changes)) => {
                self.commit_all(changes);
                Ok(applied)
            },
            Err(e) => Err(e),
        }
    }
}

/// A notification that was taken out for delivery, and how often it was by now.
pub struct Pending {
    pub id: String,
    pub payload: String,
    pub attempts: u32,
}

/// Whether the last attempt on a notification has run out without a word.
pub open spec fn spent(b: OutboxBody, now: i64, max_attempts: u32) -> bool {
    b.status == Status::Pending && b.due <= now && b.attempts >= max_attempts
}

/// Whether a notification can be delivered now.
pub open spec fn ready(b: OutboxBody, now: i64, max_attempts: u32) -> bool {
    b.status == Status::Pending && b.due <= now && b.attempts < max_attempts
}

/// The changes that give up the first `room` spent notifications of a table.
pub open spec fn given_up(
    outbox: Seq<(Seq<char>, OutboxBody)>,
    now: i64,
    max_attempts: u32,
    room: nat,
) -> Seq<ChangeView>
    decreases outbox.len(),
{
    if outbox.len() == 0 {
        seq![]
    } else {
        let before = given_up(outbox.drop_last(), now, max_attempts, room);
        let (id, b) = outbox.last();
        if spent(b, now, max_attempts) && before.len() < room {
            before.push(
                ChangeView::Outbox(id, OutboxBody { status: Status::Dead, updated: now, ..b }),
            )
        } else {
            before
        }
    }
}

/// Whether one notification comes before another: it is due earlier, or at the same time and has
/// the smaller name.
pub open spec fn first_of(a: (Seq<char>, OutboxBody), b: (Seq<char>, OutboxBody)) -> bool {
    a.1.due < b.1.due || a.1.due == b.1.due && text::before(a.0, b.0)
}

/// The place of the notification that is to be delivered next.
pub open spec fn next_ready(
    outbox: Seq<(Seq<char>, OutboxBody)>,
    now: i64,
    max_attempts: u32,
) -> Option<int>
    decreases outbox.len(),
{
    if outbox.len() == 0 {
        None
    } else {
        let best = next_ready(outbox.drop_last(), now, max_attempts);
        let here = outbox.len() - 1;
        if !ready(outbox.last().1, now, max_attempts) {
            best
        } else {
            match best {
                Some(i) => if first_of(outbox.last(), outbox[i]) {
                    Some(here)
                } else {
                    best
                },
                None => Some(here),
            }
        }
    }
}

/// The lease of a delivery, in seconds: an attempt that was interrupted can be made again behind
/// it.
pub const LEASE: i64 = 30;

impl StoreView {
    /// The changes that taking out a notification makes.
    pub open spec fn claim_changes(
        self,
        now: i64,
        max_attempts: u32,
        interval: i64,
    ) -> Seq<ChangeView> {
        let dead = given_up(self.outbox, now, max_attempts, PRUNE_BATCH as nat);
        match self.claimable(now, max_attempts) {
            Some(i) => {
                let (id, b) = self.outbox[i];
                dead.push(
                    ChangeView::Outbox(
                        id,
                        OutboxBody {
                            attempts: (b.attempts + 1) as u32,
                            due: (now + LEASE) as i64,
                            updated: now,
                            ..b
                        },
                    ),
                ).push(ChangeView::Clock((now + interval) as i64))
            },
            None => dead,
        }
    }

    /// The place of the notification that can be taken out now, if the pace of delivery allows
    /// one.
    pub open spec fn claimable(self, now: i64, max_attempts: u32) -> Option<int> {
        if now < self.next {
            None
        } else {
            next_ready(self.outbox, now, max_attempts)
        }
    }
}

proof fn next_ready_is(
    outbox: Seq<(Seq<char>, OutboxBody)>,
    now: i64,
    max_attempts: u32,
)
    ensures
        match next_ready(outbox, now, max_attempts) {
            Some(i) => {
                &&& 0 <= i < outbox.len()
                &&& ready(outbox[i].1, now, max_attempts)
                &&& forall|j: int|
                    0 <= j < outbox.len() && ready((#[trigger] outbox[j]).1, now, max_attempts)
                        ==> !first_of(outbox[j], outbox[i])
            },
            None => forall|j: int|
                0 <= j < outbox.len() ==> !ready((#[trigger] outbox[j]).1, now, max_attempts),
        },
    decreases outbox.len(),
{
    if outbox.len() > 0 {
        let rest = outbox.drop_last();
        next_ready_is(rest, now, max_attempts);
        let here = outbox.len() - 1;
        assert(forall|j: int| 0 <= j < rest.len() ==> rest[j] == outbox[j]);
        match next_ready(rest, now, max_attempts) {
            Some(i) => {
                assert(rest[i] == outbox[i]);
                let last = outbox[here];
                assert forall|j: int|
                    0 <= j < outbox.len() && ready(
                        (#[trigger] outbox[j]).1,
                        now,
                        max_attempts,
                    ) implies !first_of(
                    outbox[j],
                    outbox[next_ready(outbox, now, max_attempts)->Some_0],
                ) by {
                    if j < here {
                        assert(rest[j] == outbox[j]);
                        if ready(last.1, now, max_attempts) && first_of(last, outbox[i]) && first_of(
                            outbox[j],
                            last,
                        ) {
                            if last.1.due == outbox[i].1.due && outbox[j].1.due == last.1.due {
                                text::before_transitive(outbox[j].0, last.0, outbox[i].0);
                            }
                        }
                    } else {
                        text::before_irreflexive(last.0);
                    }
                }
            },
            None => {
                text::before_irreflexive(outbox[here].0);
                assert forall|j: int|
                    0 <= j < outbox.len() && ready(
                        (#[trigger] outbox[j]).1,
                        now,
                        max_attempts,
                    ) implies j == here by {
                    if j < here {
                        assert(rest[j] == outbox[j]);
                    }
                }
            },
        }
    }
}

impl Store {
    fn plan_given_up(&self, now: i64, max_attempts: u32) -> (r: Vec<Change>)
        ensures
            changes_view(r@) == given_up(self@.outbox, now, max_attempts, PRUNE_BATCH as nat),
    {
        let ghost outbox = self@.outbox;
        let mut r: Vec<Change> = Vec::new();
        let mut i: usize = 0;
        assert(outbox.take(0) =~= seq![]);
        assert(changes_view(r@) =~= seq![]);
        while i < self.outbox.len()
            invariant
                outbox == self@.outbox,
                i <= self.outbox@.len(),
                changes_view(r@) == given_up(
                    outbox.take(i as int),
                    now,
                    max_attempts,
                    PRUNE_BATCH as nat,
                ),
            decreases self.outbox@.len() - i,
        {
            let row = &self.outbox[i];
            let ghost now_taken = outbox.take(i + 1);
            assert(now_taken.drop_last() =~= outbox.take(i as int));
            assert(now_taken.last() == (row.name(), row.body()));
            assert(changes_view(r@).len() == r@.len());
            if row.status == Status::Pending && row.due <= now && row.attempts >= max_attempts
                && r.len() < 256 {
                let mut dead = row.clone();
                dead.status = Status::Dead;
                dead.updated = now;
                assert(dead.body() =~= (OutboxBody {
                    status: Status::Dead,
                    updated: now,
                    ..row.body()
                }));
                let change = Change::Outbox(dead);
                proof {
                    changes_pushed(r@, change);
                }
                r.push(change);
            }
            i += 1;
        }
        assert(outbox.take(i as int) =~= outbox);
        r
    }

    fn find_ready(&self, now: i64, max_attempts: u32) -> (r: Option<usize>)
        ensures
            match r {
                Some(i) => next_ready(self@.outbox, now, max_attempts) == Some(i as int) && i
                    < self.outbox@.len() && ready(
                    self.outbox@[i as int].body(),
                    now,
                    max_attempts,
                ),
                None => next_ready(self@.outbox, now, max_attempts) is None,
            },
    {
        let ghost outbox = self@.outbox;
        let mut best: Option<usize> = None;
        let mut i: usize = 0;
        assert(outbox.take(0) =~= seq![]);
        while i < self.outbox.len()
            invariant
                outbox == self@.outbox,
                i <= self.outbox@.len(),
                match best {
                    Some(k) => k < i && next_ready(outbox.take(i as int), now, max_attempts)
                        == Some(k as int) && ready(
                        self.outbox@[k as int].body(),
                        now,
                        max_attempts,
                    ),
                    None => next_ready(outbox.take(i as int), now, max_attempts) is None,
                },
            decreases self.outbox@.len() - i,
        {
            let row = &self.outbox[i];
            let ghost now_taken = outbox.take(i + 1);
            assert(now_taken.drop_last() =~= outbox.take(i as int));
            assert(now_taken.last() == (row.name(), row.body()));
            if row.status == Status::Pending && row.due <= now && row.attempts < max_attempts {
                match best {
                    Some(k) => {
                        let held = &self.outbox[k];
                        assert(now_taken[k as int] == (held.name(), held.body()));
                        assert(outbox.take(i as int)[k as int] == now_taken[k as int]);
                        if row.due < held.due || row.due == held.due && text::sorts_before(
                            row.id.as_str(),
                            held.id.as_str(),
                        ) {
                            best = Some(i);
                        }
                    },
                    None => {
                        best = Some(i);
                    },
                }
            }
            i += 1;
        }
        assert(outbox.take(i as int) =~= outbox);
        best
    }

    /// Plans the delivery of the next notification: the attempt and the pace are reserved before
    /// anything is sent. An attempt that is interrupted can be made again behind its lease, under
    /// the same name; notifications whose last attempt has run out are given up.
    pub fn plan_claim(
        &self,
        now: i64,
        max_attempts: u32,
        interval: i64,
    ) -> (r: (Option<Pending>, Vec<Change>))
        requires
            now + LEASE <= i64::MAX,
            i64::MIN <= now + interval <= i64::MAX,
        ensures
            changes_view(r.1@) == self@.claim_changes(now, max_attempts, interval),
            match r.0 {
                Some(p) => self@.claimable(now, max_attempts) matches Some(i) && p.id@
                    == self@.outbox[i].0 && p.payload@ == self@.outbox[i].1.payload && p.attempts
                    == self@.outbox[i].1.attempts + 1,
                None => self@.claimable(now, max_attempts) is None,
            },
    {
        let mut changes = self.plan_given_up(now, max_attempts);
        if now < self.next {
            return (None, changes);
        }
        match self.find_ready(now, max_attempts) {
            Some(i) => {
                let row = &self.outbox[i];
                assert(self@.outbox[i as int] == (row.name(), row.body()));
                let mut taken = row.clone();
                taken.attempts = taken.attempts + 1;
                taken.due = now + LEASE;
                taken.updated = now;
                let pending = Pending {
                    id: row.id.clone(),
                    payload: row.payload.clone(),
                    attempts: taken.attempts,
                };
                let change = Change::Outbox(taken);
                proof {
                    changes_pushed(changes@, change);
                    changes_pushed(
                        changes@.push(change),
                        Change::Clock((now + interval) as i64),
                    );
                }
                changes.push(change);
                changes.push(Change::Clock(now + interval));
                (Some(pending), changes)
            },
            None => (None, changes),
        }
    }

    /// Takes out the next notification for delivery.
    pub fn claim(&mut self, now: i64, max_attempts: u32, interval: i64) -> (r: Option<Pending>)
        requires
            now + LEASE <= i64::MAX,
            i64::MIN <= now + interval <= i64::MAX,
        ensures
            final(self)@ == old(self)@.after(
                old(self)@.claim_changes(now, max_attempts, interval),
            ),
            match r {
                Some(p) => old(self)@.claimable(now, max_attempts) matches Some(i) && p.id@ == old(
                    self,
                )@.outbox[i].0 && p.payload@ == old(self)@.outbox[i].1.payload && p.attempts
                    == old(self)@.outbox[i].1.attempts + 1,
                None => old(self)@.claimable(now, max_attempts) is None,
            },
    {
        let (pending, changes) = self.plan_claim(now, max_attempts, interval);
        self.commit_all(changes);
        pending
    }
}

/// How long a notification waits behind a failed attempt: twice as long each time, with a little
/// spread, and five minutes at most.
pub open spec fn delay(attempts: u32, jitter: u64) -> int {
    let base: int = if attempts == 0 {
        1
    } else if attempts == 1 {
        2
    } else if attempts == 2 {
        4
    } else if attempts == 3 {
        8
    } else if attempts == 4 {
        16
    } else if attempts == 5 {
        32
    } else if attempts == 6 {
        64
    } else if attempts == 7 {
        128
    } else {
        256
    };
    let whole = base + (jitter % 4) as int;
    if whole > 300 {
        300
    } else {
        whole
    }
}

fn wait_for(attempts: u32, jitter: u64) -> (r: i64)
    ensures
        r == delay(attempts, jitter),
        1 <= r <= 300,
{
    let base: i64 = if attempts == 0 {
        1
    } else if attempts == 1 {
        2
    } else if attempts == 2 {
        4
    } else if attempts == 3 {
        8
    } else if attempts == 4 {
        16
    } else if attempts == 5 {
        32
    } else if attempts == 6 {
        64
    } else if attempts == 7 {
        128
    } else {
        256
    };
    let whole = base + (jitter % 4) as i64;
    if whole > 300 {
        300
    } else {
        whole
    }
}

/// How far a notification has come after an attempt.
pub open spec fn outcome(attempts: u32, success: bool, max_attempts: u32) -> Status {
    if success {
        Status::Delivered
    } else if attempts >= max_attempts {
        Status::Dead
    } else {
        Status::Pending
    }
}

impl StoreView {
    /// The changes that the end of an attempt makes. A notification that is gone stays gone.
    pub open spec fn finish_changes(
        self,
        id: Seq<char>,
        attempts: u32,
        now: i64,
        success: bool,
        max_attempts: u32,
        jitter: u64,
    ) -> Seq<ChangeView> {
        match rows::find(self.outbox, id) {
            Some(b) => seq![
                ChangeView::Outbox(
                    id,
                    OutboxBody {
                        status: outcome(attempts, success, max_attempts),
                        due: (now + delay(attempts, jitter)) as i64,
                        updated: now,
                        ..b
                    },
                ),
            ],
            None => seq![],
        }
    }
}

impl Store {
    /// Plans what the end of an attempt does.
    pub fn plan_finish(
        &self,
        row: &Pending,
        now: i64,
        success: bool,
        max_attempts: u32,
        jitter: u64,
    ) -> (r: Vec<Change>)
        requires
            now + 300 <= i64::MAX,
        ensures
            changes_view(r@) == self@.finish_changes(
                row.id@,
                row.attempts,
                now,
                success,
                max_attempts,
                jitter,
            ),
    {
        let mut r: Vec<Change> = Vec::new();
        let at = rows::position(&self.outbox, &row.id);
        if at < self.outbox.len() {
            let mut next = self.outbox[at].clone();
            next.status = if success {
                Status::Delivered
            } else if row.attempts >= max_attempts {
                Status::Dead
            } else {
                Status::Pending
            };
            next.due = now + wait_for(row.attempts, jitter);
            next.updated = now;
            r.push(Change::Outbox(next));
        }
        assert(changes_view(r@) =~= self@.finish_changes(
            row.id@,
            row.attempts,
            now,
            success,
            max_attempts,
            jitter,
        ));
        r
    }

    /// Ends an attempt.
    pub fn finish(
        &mut self,
        row: &Pending,
        now: i64,
        success: bool,
        max_attempts: u32,
        jitter: u64,
    )
        requires
            now + 300 <= i64::MAX,
        ensures
            final(self)@ == old(self)@.after(
                old(self)@.finish_changes(
                    row.id@,
                    row.attempts,
                    now,
                    success,
                    max_attempts,
                    jitter,
                ),
            ),
    {
        let changes = self.plan_finish(row, now, success, max_attempts, jitter);
        self.commit_all(changes);
    }
}

/// The earliest time at which a pending notification is due.
pub open spec fn earliest(outbox: Seq<(Seq<char>, OutboxBody)>) -> Option<i64>
    decreases outbox.len(),
{
    if outbox.len() == 0 {
        None
    } else {
        let best = earliest(outbox.drop_last());
        let b = outbox.last().1;
        if b.status != Status::Pending {
            best
        } else {
            match best {
                Some(t) => if b.due < t {
                    Some(b.due)
                } else {
                    best
                },
                None => Some(b.due),
            }
        }
    }
}

/// How many notifications have come so far.
pub open spec fn tally(outbox: Seq<(Seq<char>, OutboxBody)>, status: Status) -> nat
    decreases outbox.len(),
{
    if outbox.len() == 0 {
        0
    } else {
        tally(outbox.drop_last(), status) + if outbox.last().1.status == status {
            1nat
        } else {
            0nat
        }
    }
}

impl StoreView {
    /// When to look at the outbox again: where something is pending, as soon as it is due and the
    /// pace allows, but in a second at the earliest; in a minute at the latest.
    pub open spec fn wake_at(self, now: i64) -> int {
        match earliest(self.outbox) {
            Some(due) => {
                let a = if due < self.next {
                    self.next
                } else {
                    due
                };
                let b = if a < now + 1 {
                    now + 1
                } else {
                    a as int
                };
                if b > now + 60 {
                    now + 60
                } else {
                    b
                }
            },
            None => now + 60,
        }
    }
}

impl Store {
    /// When to look at the outbox again.
    pub fn next_due(&self, now: i64) -> (r: i64)
        requires
            now + 60 <= i64::MAX,
        ensures
            r == self@.wake_at(now),
    {
        let ghost outbox = self@.outbox;
        let mut best: Option<i64> = None;
        let mut i: usize = 0;
        assert(outbox.take(0) =~= seq![]);
        while i < self.outbox.len()
            invariant
                outbox == self@.outbox,
                i <= self.outbox@.len(),
                best == earliest(outbox.take(i as int)),
            decreases self.outbox@.len() - i,
        {
            let row = &self.outbox[i];
            let ghost now_taken = outbox.take(i + 1);
            assert(now_taken.drop_last() =~= outbox.take(i as int));
            assert(now_taken.last() == (row.name(), row.body()));
            if row.status == Status::Pending {
                match best {
                    Some(t) => if row.due < t {
                        best = Some(row.due);
                    },
                    None => {
                        best = Some(row.due);
                    },
                }
            }
            i += 1;
        }
        assert(outbox.take(i as int) =~= outbox);
        match best {
            Some(due) => {
                let a = if due < self.next {
                    self.next
                } else {
                    due
                };
                let b = if a < now + 1 {
                    now + 1
                } else {
                    a
                };
                if b > now + 60 {
                    now + 60
                } else {
                    b
                }
            },
            None => now + 60,
        }
    }

    /// How many notifications are pending, and how many were given up.
    pub fn counts(&self) -> (r: (u64, u64))
        ensures
            r.0 == tally(self@.outbox, Status::Pending),
            r.1 == tally(self@.outbox, Status::Dead),
    {
        let ghost outbox = self@.outbox;
        let mut pending: u64 = 0;
        let mut dead: u64 = 0;
        let mut i: usize = 0;
        assert(outbox.take(0) =~= seq![]);
        while i < self.outbox.len()
            invariant
                outbox == self@.outbox,
                i <= self.outbox@.len(),
                pending == tally(outbox.take(i as int), Status::Pending),
                dead == tally(outbox.take(i as int), Status::Dead),
                pending <= i,
                dead <= i,
            decreases self.outbox@.len() - i,
        {
            let row = &self.outbox[i];
            let ghost now_taken = outbox.take(i + 1);
            assert(now_taken.drop_last() =~= outbox.take(i as int));
            assert(now_taken.last() == (row.name(), row.body()));
            match row.status {
                Status::Pending => {
                    pending += 1;
                },
                Status::Dead => {
                    dead += 1;
                },
                Status::Delivered => {},
            }
            i += 1;
        }
        assert(outbox.take(i as int) =~= outbox);
        (pending, dead)
    }
}

/// The changes that forget the first `room` verdicts of a table whose time has run out.
pub open spec fn stale_verdicts(
    verdicts: Seq<(Seq<char>, VerdictBody)>,
    now: i64,
    room: nat,
) -> Seq<ChangeView>
    decreases verdicts.len(),
{
    if verdicts.len() == 0 {
        seq![]
    } else {
        let before = stale_verdicts(verdicts.drop_last(), now, room);
        if verdicts.last().1.expires <= now && before.len() < room {
            before.push(ChangeView::ForgetVerdict(verdicts.last().0))
        } else {
            before
        }
    }
}

/// The changes that forget the first `room` pieces of evidence of a table that were seen too long
/// ago.
pub open spec fn stale_seen(
    seen: Seq<(Seq<char>, SeenBody)>,
    now: i64,
    room: nat,
) -> Seq<ChangeView>
    decreases seen.len(),
{
    if seen.len() == 0 {
        seq![]
    } else {
        let before = stale_seen(seen.drop_last(), now, room);
        if apart(now, seen.last().1.at, RETENTION) && before.len() < room {
            before.push(ChangeView::ForgetSeen(seen.last().0))
        } else {
            before
        }
    }
}

/// The changes that forget the first `room` notifications of a table that were delivered too long
/// ago.
pub open spec fn stale_outbox(
    outbox: Seq<(Seq<char>, OutboxBody)>,
    now: i64,
    room: nat,
) -> Seq<ChangeView>
    decreases outbox.len(),
{
    if outbox.len() == 0 {
        seq![]
    } else {
        let before = stale_outbox(outbox.drop_last(), now, room);
        let b = outbox.last().1;
        if b.status == Status::Delivered && apart(now, b.updated, RETENTION) && before.len()
            < room {
            before.push(ChangeView::ForgetOutbox(outbox.last().0))
        } else {
            before
        }
    }
}

impl StoreView {
    /// The changes of one round of maintenance.
    pub open spec fn prune_changes(self, now: i64) -> Seq<ChangeView> {
        stale_verdicts(self.verdicts, now, PRUNE_BATCH as nat) + stale_seen(
            self.seen,
            now,
            PRUNE_BATCH as nat,
        ) + stale_outbox(self.outbox, now, PRUNE_BATCH as nat)
    }
}

impl Store {
    /// Plans one round of maintenance.
    pub fn plan_prune(&self, now: i64) -> (r: Vec<Change>)
        ensures
            changes_view(r@) == self@.prune_changes(now),
            r@.len() <= 3 * PRUNE_BATCH,
    {
        let ghost s = self@;
        let mut r: Vec<Change> = Vec::new();
        assert(changes_view(r@) =~= seq![]);
        let mut i: usize = 0;
        assert(s.verdicts.take(0) =~= seq![]);
        while i < self.verdicts.len()
            invariant
                s == self@,
                i <= self.verdicts@.len(),
                changes_view(r@) == stale_verdicts(
                    s.verdicts.take(i as int),
                    now,
                    PRUNE_BATCH as nat,
                ),
                r@.len() <= 256,
            decreases self.verdicts@.len() - i,
        {
            let row = &self.verdicts[i];
            let ghost now_taken = s.verdicts.take(i + 1);
            assert(now_taken.drop_last() =~= s.verdicts.take(i as int));
            assert(now_taken.last() == (row.name(), row.body()));
            assert(changes_view(r@).len() == r@.len());
            if row.expires <= now && r.len() < 256 {
                let change = Change::ForgetVerdict(row.key.clone());
                proof {
                    changes_pushed(r@, change);
                }
                r.push(change);
            }
            i += 1;
        }
        assert(s.verdicts.take(i as int) =~= s.verdicts);
        let ghost first = changes_view(r@);
        let from = r.len();
        let mut i: usize = 0;
        assert(s.seen.take(0) =~= seq![]);
        assert(first + stale_seen(seq![], now, PRUNE_BATCH as nat) =~= first);
        while i < self.seen.len()
            invariant
                s == self@,
                i <= self.seen@.len(),
                from <= 256,
                from == first.len(),
                from <= r@.len() <= from + 256,
                changes_view(r@) == first + stale_seen(
                    s.seen.take(i as int),
                    now,
                    PRUNE_BATCH as nat,
                ),
            decreases self.seen@.len() - i,
        {
            let row = &self.seen[i];
            let ghost now_taken = s.seen.take(i + 1);
            assert(now_taken.drop_last() =~= s.seen.take(i as int));
            assert(now_taken.last() == (row.name(), row.body()));
            assert(changes_view(r@).len() == r@.len());
            if is_apart(now, row.at, RETENTION) && r.len() - from < 256 {
                let change = Change::ForgetSeen(row.key.clone());
                proof {
                    changes_pushed(r@, change);
                }
                r.push(change);
                assert(changes_view(r@) =~= first + stale_seen(
                    now_taken,
                    now,
                    PRUNE_BATCH as nat,
                ));
            }
            i += 1;
        }
        assert(s.seen.take(i as int) =~= s.seen);
        let ghost second = changes_view(r@);
        let from = r.len();
        let mut i: usize = 0;
        assert(s.outbox.take(0) =~= seq![]);
        assert(second + stale_outbox(seq![], now, PRUNE_BATCH as nat) =~= second);
        while i < self.outbox.len()
            invariant
                s == self@,
                i <= self.outbox@.len(),
                from <= 512,
                from == second.len(),
                from <= r@.len() <= from + 256,
                changes_view(r@) == second + stale_outbox(
                    s.outbox.take(i as int),
                    now,
                    PRUNE_BATCH as nat,
                ),
            decreases self.outbox@.len() - i,
        {
            let row = &self.outbox[i];
            let ghost now_taken = s.outbox.take(i + 1);
            assert(now_taken.drop_last() =~= s.outbox.take(i as int));
            assert(now_taken.last() == (row.name(), row.body()));
            assert(changes_view(r@).len() == r@.len());
            if row.status == Status::Delivered && is_apart(now, row.updated, RETENTION) && r.len()
                - from < 256 {
                let change = Change::ForgetOutbox(row.id.clone());
                proof {
                    changes_pushed(r@, change);
                }
                r.push(change);
                assert(changes_view(r@) =~= second + stale_outbox(
                    now_taken,
                    now,
                    PRUNE_BATCH as nat,
                ));
            }
            i += 1;
        }
        assert(s.outbox.take(i as int) =~= s.outbox);
        r
    }

    /// One round of maintenance: the number of rows that it forgot.
    pub fn prune(&mut self, now: i64) -> (r: usize)
        ensures
            final(self)@ == old(self)@.after(old(self)@.prune_changes(now)),
            r == old(self)@.prune_changes(now).len(),
            r <= 3 * PRUNE_BATCH,
    {
        let changes = self.plan_prune(now);
        assert(changes_view(changes@).len() == changes@.len());
        let n = changes.len();
        self.commit_all(changes);
        n
    }
}

proof fn after_push(s: StoreView, changes: Seq<ChangeView>, c: ChangeView)
    ensures
        s.after(changes.push(c)) == s.after(changes).changed(c),
{
    assert(changes.push(c).drop_last() =~= changes);
}

/// The changes that evidence makes, one table at a time.
pub proof fn applied_tables(
    s: StoreView,
    e: EventView,
    c: ContractView,
    p: PolicyView,
    now: i64,
    ttl: i64,
)
    requires
        s.planned(e, c, p, now, ttl) is Ok,
    ensures
        ({
            let (applied, changes) = s.planned(e, c, p, now, ttl)->Ok_0;
            let t = s.after(changes);
            let d = p.decided(e);
            let key = incident_key(e);
            let old = rows::find(s.incidents, key);
            let fresh = e.timestamp is None || prior_decision(s, e, now) is None;
            let next = advanced(old, p, d, now, fresh);
            &&& t.next == s.next
            &&& t.verdicts == (if reliable(e) && !e.analysis_reused {
                rows::put(
                    s.verdicts,
                    controller::verdict_key(c, e),
                    VerdictBody {
                        judgment: Some(e.judgment),
                        created: now,
                        expires: capped(now + ttl),
                    },
                )
            } else {
                s.verdicts
            })
            &&& t.seen == (if e.timestamp is Some && !applied.duplicate {
                rows::put(
                    s.seen,
                    seen_key(e),
                    SeenBody { at: now, decision: signature(c, p, d) },
                )
            } else {
                s.seen
            })
            &&& t.incidents == (if !applied.duplicate && (d == Decision::Notify || d
                == Decision::Review) {
                rows::put(s.incidents, key, next)
            } else {
                s.incidents
            })
            &&& t.outbox == (if applied.enqueued {
                rows::put(
                    s.outbox,
                    notification_key(key, next.sequence as int),
                    outbox_entry(e, p, d, next, now),
                )
            } else {
                s.outbox
            })
        }),
{
    let (applied, changes) = s.planned(e, c, p, now, ttl)->Ok_0;
    let verdict = s.verdict_change(e, c, now, ttl);
    let d = p.decided(e);
    let key = incident_key(e);
    let old = rows::find(s.incidents, key);
    let fresh = e.timestamp is None || prior_decision(s, e, now) is None;
    let next = advanced(old, p, d, now, fresh);
    let id = notification_key(key, next.sequence as int);
    let seen = ChangeView::Seen(
        seen_key(e),
        SeenBody { at: now, decision: signature(c, p, d) },
    );
    assert(s.after(seq![]) == s);
    if verdict.len() > 0 {
        assert(verdict.drop_last() =~= seq![]);
    }
    if !applied.duplicate {
        let base = if e.timestamp is Some {
            verdict.push(seen)
        } else {
            verdict
        };
        after_push(s, verdict, seen);
        if d == Decision::Notify || d == Decision::Review {
            let sent = ChangeView::Outbox(id, outbox_entry(e, p, d, next, now));
            after_push(s, base, sent);
            after_push(s, base.push(sent), ChangeView::Incident(key, next));
            after_push(s, base, ChangeView::Incident(key, next));
        }
    }
}

/// What a write puts down, a read gives back: the verdict on evidence that was applied is found
/// for the same evidence under the same contract, as long as it holds, and not from then on.
pub proof fn applied_verdicts_are_found(
    s: StoreView,
    e: EventView,
    c: ContractView,
    p: PolicyView,
    now: i64,
    ttl: i64,
    later: i64,
)
    requires
        s.planned(e, c, p, now, ttl) is Ok,
        reliable(e),
        !e.analysis_reused,
    ensures
        s.after(s.planned(e, c, p, now, ttl)->Ok_0.1).looked_up(e, c, later, ttl, false) == (
        if now <= later && later < capped(now + ttl) {
            Found::Hit(e.judgment)
        } else {
            Found::Expired
        }),
{
    applied_tables(s, e, c, p, now, ttl);
    rows::put_then_find(
        s.verdicts,
        controller::verdict_key(c, e),
        VerdictBody { judgment: Some(e.judgment), created: now, expires: capped(now + ttl) },
        controller::verdict_key(c, e),
    );
    assert(EventView { judgment: e.judgment, ..e } == e);
}

/// An exact replay of evidence is recognised as long as the evidence is remembered: it is a
/// duplicate, and makes no incident recur and no notification.
pub proof fn replays_are_duplicates(
    s: StoreView,
    e: EventView,
    c: ContractView,
    p: PolicyView,
    now: i64,
    ttl: i64,
    later: i64,
    again: i64,
)
    requires
        s.planned(e, c, p, now, ttl) matches Ok(plan) && !plan.0.duplicate,
        e.timestamp is Some,
        later - now < RETENTION,
    ensures
        ({
            let t = s.after(s.planned(e, c, p, now, ttl)->Ok_0.1);
            &&& t.planned(e, c, p, later, again) == Planned::Ok(
                (
                    Applied { duplicate: true, enqueued: false, decision: None },
                    t.verdict_change(e, c, later, again),
                ),
            )
            &&& t.after(t.planned(e, c, p, later, again)->Ok_0.1).incidents == t.incidents
            &&& t.after(t.planned(e, c, p, later, again)->Ok_0.1).outbox == t.outbox
        }),
{
    applied_tables(s, e, c, p, now, ttl);
    let t = s.after(s.planned(e, c, p, now, ttl)->Ok_0.1);
    rows::put_then_find(
        s.seen,
        seen_key(e),
        SeenBody { at: now, decision: signature(c, p, p.decided(e)) },
        seen_key(e),
    );
    rows::put_then_find(
        s.verdicts,
        controller::verdict_key(c, e),
        VerdictBody { judgment: Some(e.judgment), created: now, expires: capped(now + ttl) },
        controller::verdict_key(c, e),
    );
    applied_tables(t, e, c, p, later, again);
}

/// A decision that has changed on evidence that was seen before is told to a human, but the
/// evidence does not count again: neither the recurrence nor the level of the incident rises.
pub proof fn changed_decisions_do_not_recur(
    old: IncidentBody,
    p: PolicyView,
    d: Decision,
    now: i64,
)
    ensures
        sends(Some(old), p, now, false),
        advanced(Some(old), p, d, now, false).count <= old.count,
        advanced(Some(old), p, d, now, false).level == old.level,
{
}

/// Numbers of notifications are never used twice and levels never fall: each notification of an
/// incident has a number one above that of the last, and an incident escalates by one level at a
/// time, up to the highest that the policy allows.
pub proof fn incidents_only_advance(
    old: Option<IncidentBody>,
    p: PolicyView,
    d: Decision,
    now: i64,
    fresh: bool,
)
    requires
        old matches Some(b) ==> b.sequence < i64::MAX,
    ensures
        ({
            let next = advanced(old, p, d, now, fresh);
            let sequence: int = match old {
                Some(b) => b.sequence as int,
                None => 0,
            };
            let level: int = match old {
                Some(b) => b.level as int,
                None => 0,
            };
            &&& next.sequence == sequence + if sends(old, p, now, fresh) {
                1int
            } else {
                0int
            }
            &&& level <= next.level <= level + 1
            &&& next.level > level ==> next.level <= p.max_escalation
            &&& escalates(old, p, now, fresh) ==> sends(old, p, now, fresh)
        }),
{
}

/// Between two notifications of one incident, without escalation and on the same decision, the
/// policy's pause is kept.
pub proof fn cooldown_is_kept(old: IncidentBody, p: PolicyView, now: i64)
    requires
        sends(Some(old), p, now, true),
        !escalates(Some(old), p, now, true),
        old.last <= now,
    ensures
        now - old.last >= p.cooldown_seconds,
{
}

/// The state stays sound whatever evidence is applied: no name occurs twice, and no table outgrows
/// its limit. Evidence that finds no room is refused.
pub proof fn apply_keeps_state_sound(
    s: StoreView,
    e: EventView,
    c: ContractView,
    p: PolicyView,
    now: i64,
    ttl: i64,
)
    requires
        s.sound(),
        s.planned(e, c, p, now, ttl) is Ok,
    ensures
        s.after(s.planned(e, c, p, now, ttl)->Ok_0.1).sound(),
{
    applied_tables(s, e, c, p, now, ttl);
    let d = p.decided(e);
    let key = incident_key(e);
    let fresh = e.timestamp is None || prior_decision(s, e, now) is None;
    let next = advanced(rows::find(s.incidents, key), p, d, now, fresh);
    rows::put_then_find(
        s.verdicts,
        controller::verdict_key(c, e),
        VerdictBody { judgment: Some(e.judgment), created: now, expires: capped(now + ttl) },
        key,
    );
    rows::put_then_find(
        s.seen,
        seen_key(e),
        SeenBody { at: now, decision: signature(c, p, d) },
        key,
    );
    rows::put_then_find(s.incidents, key, next, key);
    rows::put_then_find(
        s.outbox,
        notification_key(key, next.sequence as int),
        outbox_entry(e, p, d, next, now),
        key,
    );
}

/// Whether a change gives an outbox row that is there a new body.
spec fn updates_outbox(s: StoreView, c: ChangeView) -> bool {
    match c {
        ChangeView::Outbox(id, b) => rows::find(s.outbox, id) is Some,
        ChangeView::Clock(t) => true,
        _ => false,
    }
}

proof fn updates_keep_sound(s: StoreView, changes: Seq<ChangeView>)
    requires
        s.sound(),
        forall|i: int| 0 <= i < changes.len() ==> updates_outbox(s, #[trigger] changes[i]),
    ensures
        s.after(changes).sound(),
        s.after(changes).incidents == s.incidents,
        s.after(changes).verdicts == s.verdicts,
        s.after(changes).seen == s.seen,
        s.after(changes).outbox.len() == s.outbox.len(),
        forall|id: Seq<char>|
            (#[trigger] rows::find(s.after(changes).outbox, id) is Some) == (rows::find(
                s.outbox,
                id,
            ) is Some),
    decreases changes.len(),
{
    if changes.len() > 0 {
        let rest = changes.drop_last();
        assert forall|i: int| 0 <= i < rest.len() implies updates_outbox(
            s,
            #[trigger] rest[i],
        ) by {
            assert(changes[i] == rest[i]);
        }
        updates_keep_sound(s, rest);
        let t = s.after(rest);
        assert(updates_outbox(s, changes[changes.len() - 1]));
        match changes.last() {
            ChangeView::Outbox(id, b) => {
                assert forall|other: Seq<char>|
                    (#[trigger] rows::find(s.after(changes).outbox, other) is Some) == (rows::find(
                        s.outbox,
                        other,
                    ) is Some) by {
                    rows::put_then_find(t.outbox, id, b, other);
                }
                rows::put_then_find(t.outbox, id, b, id);
            },
            _ => {},
        }
    }
}

proof fn given_up_updates(
    outbox: Seq<(Seq<char>, OutboxBody)>,
    now: i64,
    max_attempts: u32,
    room: nat,
)
    ensures
        given_up(outbox, now, max_attempts, room).len() <= room,
        forall|i: int|
            0 <= i < given_up(outbox, now, max_attempts, room).len() ==> (
            #[trigger] given_up(outbox, now, max_attempts, room)[i] matches ChangeView::Outbox(
                id,
                b,
            ) && b.status == Status::Dead && b.attempts >= max_attempts && exists|j: int|
                0 <= j < outbox.len() && (#[trigger] outbox[j]).0 == id && spent(
                    outbox[j].1,
                    now,
                    max_attempts,
                )),
    decreases outbox.len(),
{
    if outbox.len() > 0 {
        let rest = outbox.drop_last();
        given_up_updates(rest, now, max_attempts, room);
        let before = given_up(rest, now, max_attempts, room);
        let all = given_up(outbox, now, max_attempts, room);
        assert forall|i: int| 0 <= i < all.len() implies (
        #[trigger] all[i] matches ChangeView::Outbox(id, b) && b.status == Status::Dead
            && b.attempts >= max_attempts && exists|j: int|
            0 <= j < outbox.len() && (#[trigger] outbox[j]).0 == id && spent(
                outbox[j].1,
                now,
                max_attempts,
            )) by {
            if i < before.len() {
                assert(all[i] == before[i]);
                let id = before[i]->Outbox_0;
                let j = choose|j: int|
                    0 <= j < rest.len() && (#[trigger] rest[j]).0 == id && spent(
                        rest[j].1,
                        now,
                        max_attempts,
                    );
                assert(outbox[j] == rest[j]);
            } else {
                assert(outbox[outbox.len() - 1] == outbox.last());
            }
        }
    }
}

proof fn found_at<B>(t: Seq<(Seq<char>, B)>, j: int)
    requires
        0 <= j < t.len(),
    ensures
        rows::find(t, t[j].0) is Some,
        rows::distinct(t) ==> rows::find(t, t[j].0) == Some(t[j].1),
{
    rows::place_of(t, t[j].0);
}

/// Taking out a notification keeps the state sound, forgets nothing and touches no incident and no
/// verdict. What is taken out was pending and due, has been tried less often than allowed, and no
/// other such notification was due before it.
pub proof fn claim_is_fair_and_capped(s: StoreView, now: i64, max_attempts: u32, interval: i64)
    requires
        s.sound(),
        now + LEASE <= i64::MAX,
        i64::MIN <= now + interval <= i64::MAX,
    ensures
        ({
            let t = s.after(s.claim_changes(now, max_attempts, interval));
            &&& t.sound()
            &&& t.incidents == s.incidents
            &&& t.verdicts == s.verdicts
            &&& t.seen == s.seen
            &&& t.outbox.len() == s.outbox.len()
            &&& s.claimable(now, max_attempts) matches Some(i) ==> {
                &&& 0 <= i < s.outbox.len()
                &&& s.next <= now
                &&& s.outbox[i].1.status == Status::Pending
                &&& s.outbox[i].1.due <= now
                &&& s.outbox[i].1.attempts + 1 <= max_attempts
                &&& t.next == now + interval
                &&& forall|j: int|
                    0 <= j < s.outbox.len() && ready((#[trigger] s.outbox[j]).1, now, max_attempts)
                        ==> !first_of(s.outbox[j], s.outbox[i])
            }
        }),
{
    let dead = given_up(s.outbox, now, max_attempts, PRUNE_BATCH as nat);
    let changes = s.claim_changes(now, max_attempts, interval);
    next_ready_is(s.outbox, now, max_attempts);
    given_up_updates(s.outbox, now, max_attempts, PRUNE_BATCH as nat);
    assert forall|i: int| 0 <= i < changes.len() implies updates_outbox(
        s,
        #[trigger] changes[i],
    ) by {
        if i < dead.len() {
            assert(changes[i] == dead[i]);
            let id = dead[i]->Outbox_0;
            let j = choose|j: int|
                0 <= j < s.outbox.len() && (#[trigger] s.outbox[j]).0 == id && spent(
                    s.outbox[j].1,
                    now,
                    max_attempts,
                );
            found_at(s.outbox, j);
        } else {
            let k = s.claimable(now, max_attempts)->Some_0;
            found_at(s.outbox, k);
        }
    }
    updates_keep_sound(s, changes);
}

/// Deliveries keep their pace: behind one that was taken out, none is taken out before the interval
/// is over.
pub proof fn pace_is_kept(
    s: StoreView,
    now: i64,
    max_attempts: u32,
    interval: i64,
    soon: i64,
)
    requires
        s.claimable(now, max_attempts) is Some,
        i64::MIN <= now + interval <= i64::MAX,
        soon < now + interval,
    ensures
        s.after(s.claim_changes(now, max_attempts, interval)).claimable(soon, max_attempts) is None,
{
    let dead = given_up(s.outbox, now, max_attempts, PRUNE_BATCH as nat);
    let changes = s.claim_changes(now, max_attempts, interval);
    assert(changes.last() == ChangeView::Clock((now + interval) as i64));
}

/// A delivery that ends is recorded where its notification still is, and nowhere else: a success
/// delivers it, a failure of the last attempt gives it up, any other failure leaves it pending.
pub proof fn finish_records_the_outcome(
    s: StoreView,
    id: Seq<char>,
    attempts: u32,
    now: i64,
    success: bool,
    max_attempts: u32,
    jitter: u64,
    other: Seq<char>,
)
    requires
        s.sound(),
        now + 300 <= i64::MAX,
    ensures
        ({
            let t = s.after(
                s.finish_changes(id, attempts, now, success, max_attempts, jitter),
            );
            &&& t.sound()
            &&& t.incidents == s.incidents
            &&& t.seen == s.seen
            &&& other != id ==> rows::find(t.outbox, other) == rows::find(s.outbox, other)
            &&& match rows::find(s.outbox, id) {
                Some(b) => rows::find(t.outbox, id) matches Some(after) && after.status == (
                if success {
                    Status::Delivered
                } else if attempts >= max_attempts {
                    Status::Dead
                } else {
                    Status::Pending
                }) && after.payload == b.payload && after.attempts == b.attempts && after.due > now,
                None => rows::find(t.outbox, id) is None,
            }
        }),
{
    let changes = s.finish_changes(id, attempts, now, success, max_attempts, jitter);
    assert(s.after(seq![]) == s);
    if rows::find(s.outbox, id) is Some {
        assert(changes.drop_last() =~= seq![]);
        rows::put_then_find(s.outbox, id, changes[0]->Outbox_1, other);
        rows::put_then_find(s.outbox, id, changes[0]->Outbox_1, id);
    }
}

/// Whether evidence is as it was, or is forgotten and was seen too long ago.
pub open spec fn kept_or_stale(
    before: Option<SeenBody>,
    after: Option<SeenBody>,
    now: i64,
) -> bool {
    after == before || (after is None && match before {
        Some(b) => apart(now, b.at, RETENTION),
        None => false,
    })
}

/// Whether a notification was not delivered, or not long ago.
pub open spec fn still_needed(b: Option<OutboxBody>, now: i64) -> bool {
    match b {
        Some(b) => b.status != Status::Delivered || !apart(now, b.updated, RETENTION),
        None => true,
    }
}

/// Whether a change forgets something that has served its time.
spec fn forgets_stale(s: StoreView, now: i64, c: ChangeView) -> bool {
    match c {
        ChangeView::ForgetVerdict(k) => true,
        ChangeView::ForgetSeen(k) => rows::find(s.seen, k) matches Some(b) && apart(
            now,
            b.at,
            RETENTION,
        ),
        ChangeView::ForgetOutbox(k) => rows::find(s.outbox, k) matches Some(b) && b.status
            == Status::Delivered && apart(now, b.updated, RETENTION),
        _ => false,
    }
}

proof fn stale_outbox_is(
    outbox: Seq<(Seq<char>, OutboxBody)>,
    now: i64,
    room: nat,
)
    ensures
        forall|i: int|
            0 <= i < stale_outbox(outbox, now, room).len() ==> (
            #[trigger] stale_outbox(outbox, now, room)[i] matches ChangeView::ForgetOutbox(k)
                && exists|j: int|
                0 <= j < outbox.len() && (#[trigger] outbox[j]).0 == k && outbox[j].1.status
                    == Status::Delivered && apart(now, outbox[j].1.updated, RETENTION)),
    decreases outbox.len(),
{
    if outbox.len() > 0 {
        let rest = outbox.drop_last();
        stale_outbox_is(rest, now, room);
        let before = stale_outbox(rest, now, room);
        let all = stale_outbox(outbox, now, room);
        assert forall|i: int| 0 <= i < all.len() implies (
        #[trigger] all[i] matches ChangeView::ForgetOutbox(k) && exists|j: int|
            0 <= j < outbox.len() && (#[trigger] outbox[j]).0 == k && outbox[j].1.status
                == Status::Delivered && apart(now, outbox[j].1.updated, RETENTION)) by {
            if i < before.len() {
                assert(all[i] == before[i]);
                let k = before[i]->ForgetOutbox_0;
                let j = choose|j: int|
                    0 <= j < rest.len() && (#[trigger] rest[j]).0 == k && rest[j].1.status
                        == Status::Delivered && apart(now, rest[j].1.updated, RETENTION);
                assert(outbox[j] == rest[j]);
            } else {
                assert(outbox[outbox.len() - 1] == outbox.last());
            }
        }
    }
}

proof fn stale_verdicts_is(verdicts: Seq<(Seq<char>, VerdictBody)>, now: i64, room: nat)
    ensures
        forall|i: int|
            0 <= i < stale_verdicts(verdicts, now, room).len() ==> #[trigger] stale_verdicts(
                verdicts,
                now,
                room,
            )[i] is ForgetVerdict,
    decreases verdicts.len(),
{
    if verdicts.len() > 0 {
        stale_verdicts_is(verdicts.drop_last(), now, room);
    }
}

proof fn stale_seen_is(seen: Seq<(Seq<char>, SeenBody)>, now: i64, room: nat)
    ensures
        forall|i: int|
            0 <= i < stale_seen(seen, now, room).len() ==> (
            #[trigger] stale_seen(seen, now, room)[i] matches ChangeView::ForgetSeen(k)
                && exists|j: int|
                0 <= j < seen.len() && (#[trigger] seen[j]).0 == k && apart(
                    now,
                    seen[j].1.at,
                    RETENTION,
                )),
    decreases seen.len(),
{
    if seen.len() > 0 {
        let rest = seen.drop_last();
        stale_seen_is(rest, now, room);
        let before = stale_seen(rest, now, room);
        let all = stale_seen(seen, now, room);
        assert forall|i: int| 0 <= i < all.len() implies (
        #[trigger] all[i] matches ChangeView::ForgetSeen(k) && exists|j: int|
            0 <= j < seen.len() && (#[trigger] seen[j]).0 == k && apart(
                now,
                seen[j].1.at,
                RETENTION,
            )) by {
            if i < before.len() {
                assert(all[i] == before[i]);
                let k = before[i]->ForgetSeen_0;
                let j = choose|j: int|
                    0 <= j < rest.len() && (#[trigger] rest[j]).0 == k && apart(
                        now,
                        rest[j].1.at,
                        RETENTION,
                    );
                assert(seen[j] == rest[j]);
            } else {
                assert(seen[seen.len() - 1] == seen.last());
            }
        }
    }
}

proof fn forgetting_keeps(
    s: StoreView,
    now: i64,
    changes: Seq<ChangeView>,
    id: Seq<char>,
)
    requires
        s.sound(),
        forall|i: int| 0 <= i < changes.len() ==> forgets_stale(s, now, #[trigger] changes[i]),
    ensures
        s.after(changes).sound(),
        s.after(changes).incidents == s.incidents,
        s.after(changes).next == s.next,
        still_needed(rows::find(s.outbox, id), now) ==> rows::find(s.after(changes).outbox, id)
            == rows::find(s.outbox, id),
        forall|key: Seq<char>|
            #![trigger rows::find(s.after(changes).seen, key)]
            kept_or_stale(
                rows::find(s.seen, key),
                rows::find(s.after(changes).seen, key),
                now,
            ),
    decreases changes.len(),
{
    if changes.len() > 0 {
        let rest = changes.drop_last();
        assert forall|i: int| 0 <= i < rest.len() implies forgets_stale(
            s,
            now,
            #[trigger] rest[i],
        ) by {
            assert(changes[i] == rest[i]);
        }
        forgetting_keeps(s, now, rest, id);
        let t = s.after(rest);
        assert(forgets_stale(s, now, changes[changes.len() - 1]));
        match changes.last() {
            ChangeView::ForgetVerdict(k) => rows::remove_then_find(t.verdicts, k, id),
            ChangeView::ForgetSeen(k) => {
                assert forall|key: Seq<char>|
                    #![trigger rows::find(s.after(changes).seen, key)]
                    kept_or_stale(
                        rows::find(s.seen, key),
                        rows::find(s.after(changes).seen, key),
                        now,
                    ) by {
                    rows::remove_then_find(t.seen, k, key);
                    assert(kept_or_stale(rows::find(s.seen, key), rows::find(t.seen, key), now));
                }
                rows::remove_then_find(t.seen, k, id);
            },
            ChangeView::ForgetOutbox(k) => {
                rows::remove_then_find(t.outbox, k, id);
            },
            _ => {},
        }
    }
}

/// Maintenance forgets no incident, no notification but one that was delivered a week ago, and no
/// evidence but such as was seen a week ago: a notification that is pending or was given up stays.
pub proof fn prune_keeps_what_matters(s: StoreView, now: i64, id: Seq<char>)
    requires
        s.sound(),
    ensures
        ({
            let t = s.after(s.prune_changes(now));
            &&& t.sound()
            &&& t.incidents == s.incidents
            &&& still_needed(rows::find(s.outbox, id), now) ==> rows::find(t.outbox, id)
                == rows::find(s.outbox, id)
            &&& forall|key: Seq<char>|
                #![trigger rows::find(t.seen, key)]
                kept_or_stale(rows::find(s.seen, key), rows::find(t.seen, key), now)
        }),
{
    let a = stale_verdicts(s.verdicts, now, PRUNE_BATCH as nat);
    let b = stale_seen(s.seen, now, PRUNE_BATCH as nat);
    let c = stale_outbox(s.outbox, now, PRUNE_BATCH as nat);
    let changes = s.prune_changes(now);
    stale_verdicts_is(s.verdicts, now, PRUNE_BATCH as nat);
    stale_seen_is(s.seen, now, PRUNE_BATCH as nat);
    stale_outbox_is(s.outbox, now, PRUNE_BATCH as nat);
    assert forall|i: int| 0 <= i < changes.len() implies forgets_stale(
        s,
        now,
        #[trigger] changes[i],
    ) by {
        if i < a.len() {
            assert(changes[i] == a[i]);
        } else if i < a.len() + b.len() {
            let k = i - a.len();
            assert(changes[i] == b[k]);
            let key = b[k]->ForgetSeen_0;
            let j = choose|j: int|
                0 <= j < s.seen.len() && (#[trigger] s.seen[j]).0 == key && apart(
                    now,
                    s.seen[j].1.at,
                    RETENTION,
                );
            found_at(s.seen, j);
        } else {
            let k = i - a.len() - b.len();
            assert(changes[i] == c[k]);
            let key = c[k]->ForgetOutbox_0;
            let j = choose|j: int|
                0 <= j < s.outbox.len() && (#[trigger] s.outbox[j]).0 == key
                    && s.outbox[j].1.status == Status::Delivered && apart(
                    now,
                    s.outbox[j].1.updated,
                    RETENTION,
                );
            found_at(s.outbox, j);
        }
    }
    forgetting_keeps(s, now, changes, id);
}

impl Store {
    /// How many pieces of evidence are remembered.
    pub fn seen_count(&self) -> (r: usize)
        ensures
            r == self@.seen.len(),
    {
        self.seen.len()
    }

    pub fn incident_count(&self) -> (r: usize)
        ensures
            r == self@.incidents.len(),
    {
        self.incidents.len()
    }

    /// The incident at a place.
    pub fn incident_at(&self, i: usize) -> (r: &IncidentRow)
        requires
            i < self@.incidents.len(),
        ensures
            self@.incidents[i as int] == (r.name(), r.body()),
    {
        &self.incidents[i]
    }

    /// The incident of a name.
    pub fn find_incident(&self, key: &String) -> (r: Option<&IncidentRow>)
        ensures
            match r {
                Some(row) => row.name() == key@ && rows::find(self@.incidents, key@) == Some(
                    row.body(),
                ),
                None => rows::find(self@.incidents, key@) is None,
            },
    {
        let at = rows::position(&self.incidents, key);
        if at < self.incidents.len() {
            Some(&self.incidents[at])
        } else {
            None
        }
    }

    /// The notification of a name.
    pub fn find_notification(&self, id: &String) -> (r: Option<&OutboxRow>)
        ensures
            match r {
                Some(row) => row.name() == id@ && rows::find(self@.outbox, id@) == Some(
                    row.body(),
                ),
                None => rows::find(self@.outbox, id@) is None,
            },
    {
        let at = rows::position(&self.outbox, id);
        if at < self.outbox.len() {
            Some(&self.outbox[at])
        } else {
            None
        }
    }
}

}
