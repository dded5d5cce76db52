//! What evidence does: it counts, escalates, and is told to a human exactly where the policy says.
use vstd::prelude::*;

use crate::controller;
use crate::controller::policy::{Abstention, Decision, PolicyView};
use crate::controller::store;
use crate::controller::store::{
    incident_key, notification_key, seen_key, IncidentBody, Status, StoreView,
};
use crate::controller::ContractView;
use crate::events::EventView;
use crate::ieee;
use crate::jev;
use crate::jev::{Category, Importance, Severity};
use crate::json;
use crate::json::JsonView;
use crate::rows;
use crate::text;

verus! {

/// Whether a confidence is one, and not below a bound.
pub open spec fn firm(c: Option<ieee::RealView>, least: ieee::RealView) -> bool {
    c matches Some(x) && ieee::in_unit(x.bits) && !ieee::less(x.bits, least.bits)
}

/// Whether a judgment allows a decision: it is on whole evidence, without an error, names an
/// importance that is not in doubt, a severity and a category, and all three with confidence.
pub open spec fn firmly_judged(p: PolicyView, e: EventView) -> bool {
    let j = e.judgment;
    &&& !e.truncated && j.analysis_error is None
    &&& j.importance == Importance::Important || j.importance == Importance::Routine
    &&& j.severity != Severity::Unknown && j.category != Category::Unknown
    &&& firm(j.importance_confidence, p.min_confidence)
    &&& firm(j.severity_confidence, p.min_confidence)
    &&& firm(j.category_confidence, p.min_confidence)
}

/// What a policy decides. Nobody is spared a notification: on firm judgment, important evidence of
/// a listed category and a listed severity is told, and all other is ignored. Without firm
/// judgment nothing is ignored and nothing told: it is recorded or reviewed, as the policy says.
pub proof fn decisions_follow_the_policy(p: PolicyView, e: EventView)
    ensures
        p.decided(e) == Decision::Notify <==> firmly_judged(p, e) && e.judgment.importance
            == Importance::Important && (exists|i: int|
            0 <= i < p.categories.len() && #[trigger] p.categories[i] == e.judgment.category) && (
        exists|i: int|
            0 <= i < p.severities.len() && #[trigger] p.severities[i] == e.judgment.severity),
        p.decided(e) == Decision::Ignore <==> firmly_judged(p, e) && p.decided(e)
            != Decision::Notify,
        p.decided(e) == Decision::Abstain <==> !firmly_judged(p, e) && p.abstention
            == Abstention::Record,
        p.decided(e) == Decision::Review <==> !firmly_judged(p, e) && p.abstention
            == Abstention::Review,
{
    if p.categories.contains(e.judgment.category) {
        let i = choose|i: int| 0 <= i < p.categories.len() && p.categories[i] == e.judgment.category;
        assert(p.categories[i] == e.judgment.category);
    }
    if p.severities.contains(e.judgment.severity) {
        let i = choose|i: int| 0 <= i < p.severities.len() && p.severities[i] == e.judgment.severity;
        assert(p.severities[i] == e.judgment.severity);
    }
}

/// Whether an incident is still in the window in which its evidence is counted.
pub open spec fn in_window(old: Option<IncidentBody>, p: PolicyView, now: i64) -> bool {
    old matches Some(b) && b.window <= now < b.window + p.recurrence_window_seconds
}

/// The level that an incident was at.
pub open spec fn level_of(old: Option<IncidentBody>) -> int {
    match old {
        Some(b) => b.level as int,
        None => 0,
    }
}

/// How often the evidence of an incident came in its window before.
pub open spec fn counted_before(old: Option<IncidentBody>, p: PolicyView, now: i64) -> int {
    if in_window(old, p, now) {
        old->Some_0.count as int
    } else {
        0
    }
}

/// Recurrence is counted within a window: each new piece of evidence counts one more, a known one
/// none, and where the window is over, or lies ahead, a new one begins with it.
pub proof fn recurrence_is_counted(
    old: Option<IncidentBody>,
    p: PolicyView,
    d: Decision,
    now: i64,
    fresh: bool,
)
    ensures
        ({
            let next = store::advanced(old, p, d, now, fresh);
            &&& counted_before(old, p, now) < u32::MAX ==> next.count == counted_before(
                old,
                p,
                now,
            ) + (if fresh {
                1int
            } else {
                0int
            })
            &&& counted_before(old, p, now) == u32::MAX ==> next.count == u32::MAX
            &&& next.window == (if in_window(old, p, now) {
                old->Some_0.window
            } else {
                now
            })
            &&& next.touched == now
            &&& next.last_decision == Some(controller::policy::decision_name(d))
        }),
{
}

/// Escalation is not withheld: where the count of new evidence in its window reaches a multiple of
/// the policy's number and a level is left, the level rises by one and a notification is sent; and
/// only there does it rise. It never falls.
pub proof fn escalation_is_not_withheld(
    old: Option<IncidentBody>,
    p: PolicyView,
    d: Decision,
    now: i64,
    fresh: bool,
)
    requires
        p.recurrence_count > 0,
    ensures
        ({
            let next = store::advanced(old, p, d, now, fresh);
            let due = fresh && next.count > 0 && next.count % p.recurrence_count == 0 && level_of(
                old,
            ) < p.max_escalation;
            &&& due ==> next.level == level_of(old) + 1 && store::sends(old, p, now, fresh)
            &&& !due ==> next.level == level_of(old)
        }),
{
}

/// A notification is sent exactly where an incident is new, where the decision on known evidence
/// has changed, where the incident escalates, and where the last one lies ahead or at least the
/// policy's pause back. Its number is one above that of the last, and its time is remembered.
pub proof fn notifications_are_sent_when_due(
    old: Option<IncidentBody>,
    p: PolicyView,
    d: Decision,
    now: i64,
    fresh: bool,
)
    requires
        old matches Some(b) ==> b.sequence < i64::MAX,
    ensures
        ({
            let next = store::advanced(old, p, d, now, fresh);
            let sent = store::sends(old, p, now, fresh);
            &&& sent <==> old is None || !fresh || next.level > level_of(old) || now
                < old->Some_0.last || now - old->Some_0.last >= p.cooldown_seconds
            &&& next.sequence == (match old {
                Some(b) => b.sequence as int,
                None => 0,
            }) + (if sent {
                1int
            } else {
                0int
            })
            &&& next.last == (if sent {
                now
            } else {
                old->Some_0.last
            })
        }),
{
}

/// An incident after new evidence came for it at times, one after the other.
pub open spec fn after_evidence(p: PolicyView, d: Decision, times: Seq<i64>) -> Option<IncidentBody>
    decreases times.len(),
{
    if times.len() == 0 {
        None
    } else {
        Some(
            store::advanced(after_evidence(p, d, times.drop_last()), p, d, times.last(), true),
        )
    }
}

proof fn multiples_count(n: int, m: int)
    requires
        n > 0,
        m > 0,
    ensures
        n % m == 0 ==> n / m == (n - 1) / m + 1,
        n % m != 0 ==> n / m == (n - 1) / m,
{
    let q = n / m;
    let r = n % m;
    vstd::arithmetic::div_mod::lemma_fundamental_div_mod(n, m);
    assert(n == m * q + r);
    vstd::arithmetic::div_mod::lemma_mod_bound(n, m);
    if r == 0 {
        assert(n - 1 == (q - 1) * m + (m - 1)) by (nonlinear_arith)
            requires
                n == m * q + r,
                r == 0,
        ;
        vstd::arithmetic::div_mod::lemma_fundamental_div_mod_converse(n - 1, m, q - 1, m - 1);
    } else {
        assert(n - 1 == q * m + (r - 1)) by (nonlinear_arith)
            requires
                n == m * q + r,
        ;
        vstd::arithmetic::div_mod::lemma_fundamental_div_mod_converse(n - 1, m, q, r - 1);
    }
}

/// Whatever came of the same evidence so many times within one window: it was counted as often, and
/// its incident has risen by one level for every full number of times that the policy names, as far
/// as the policy's levels go.
pub proof fn incidents_rise_with_their_evidence(p: PolicyView, d: Decision, times: Seq<i64>)
    requires
        0 < times.len() < u32::MAX,
        p.recurrence_count > 0,
        forall|i: int|
            0 <= i < times.len() ==> times[0] <= #[trigger] times[i] < times[0]
                + p.recurrence_window_seconds,
    ensures
        after_evidence(p, d, times) matches Some(b) && b.count == times.len() && b.window == times[0]
            && b.level == (if times.len() / (p.recurrence_count as nat) < p.max_escalation {
            times.len() / (p.recurrence_count as nat)
        } else {
            p.max_escalation as nat
        }),
    decreases times.len(),
{
    let n = times.len() as int;
    let m = p.recurrence_count as int;
    multiples_count(n, m);
    if n == 1 {
        assert(times.drop_last() =~= seq![]);
        assert(after_evidence(p, d, times.drop_last()) is None);
        assert((n - 1) / m == 0) by (nonlinear_arith)
            requires
                n == 1,
                m > 0,
        ;
    } else {
        let rest = times.drop_last();
        assert forall|i: int| 0 <= i < rest.len() implies rest[0] <= #[trigger] rest[i] < rest[0]
            + p.recurrence_window_seconds by {
            assert(rest[i] == times[i]);
        }
        incidents_rise_with_their_evidence(p, d, rest);
        assert(times[n - 1] == times.last());
    }
}

/// Whether evidence was seen at a time that is not too long ago: within the last seven days.
pub open spec fn seen_lately(s: StoreView, e: EventView, now: i64) -> bool {
    rows::find(s.seen, seen_key(e)) matches Some(b) && b.at > now - 604_800
}

/// Whether evidence is new to the state: it has no time, or was not seen lately.
pub open spec fn is_new(s: StoreView, e: EventView, now: i64) -> bool {
    e.timestamp is None || !seen_lately(s, e, now)
}

/// Whether a decision calls for a human.
pub open spec fn calls(d: Decision) -> bool {
    d == Decision::Notify || d == Decision::Review
}

/// Evidence that calls for a human advances its own incident and leaves the others as they are;
/// where a notification is due it is queued under its own name, to be delivered at once, and
/// otherwise nothing is. Other evidence changes no incident and queues nothing.
pub proof fn evidence_advances_its_incident(
    s: StoreView,
    e: EventView,
    c: ContractView,
    p: PolicyView,
    now: i64,
    ttl: i64,
    other: Seq<char>,
)
    requires
        s.planned(e, c, p, now, ttl) is Ok,
        s.numberable(e),
    ensures
        ({
            let (applied, changes) = s.planned(e, c, p, now, ttl)->Ok_0;
            let t = s.after(changes);
            let key = incident_key(e);
            let old = rows::find(s.incidents, key);
            let d = p.decided(e);
            let new = is_new(s, e, now);
            if applied.duplicate || !calls(d) {
                &&& !applied.enqueued && t.incidents == s.incidents && t.outbox == s.outbox
                &&& !applied.duplicate ==> applied.decision == Some(d)
            } else {
                let next = store::advanced(old, p, d, now, new);
                let id = notification_key(key, next.sequence as int);
                &&& applied.decision == Some(d)
                &&& rows::find(t.incidents, key) == Some(next)
                &&& other != key ==> rows::find(t.incidents, other) == rows::find(
                    s.incidents,
                    other,
                )
                &&& applied.enqueued <==> old is None || !new || next.level > level_of(old) || now
                    < old->Some_0.last || now - old->Some_0.last >= p.cooldown_seconds
                &&& !applied.enqueued ==> t.outbox == s.outbox
                &&& applied.enqueued ==> {
                    &&& rows::find(s.outbox, id) is None
                    &&& other != id ==> rows::find(t.outbox, other) == rows::find(s.outbox, other)
                    &&& rows::find(t.outbox, id) matches Some(b) && b.incident == key && b.status
                        == Status::Pending && b.attempts == 0 && b.due == now && b.updated == now
                }
            }
        }),
{
    store::applied_tables(s, e, c, p, now, ttl);
    let key = incident_key(e);
    let old = rows::find(s.incidents, key);
    let d = p.decided(e);
    let new = is_new(s, e, now);
    let next = store::advanced(old, p, d, now, new);
    let id = notification_key(key, next.sequence as int);
    rows::put_then_find(s.incidents, key, next, key);
    rows::put_then_find(s.incidents, key, next, other);
    rows::put_then_find(s.outbox, id, store::outbox_entry(e, p, d, next, now), id);
    rows::put_then_find(s.outbox, id, store::outbox_entry(e, p, d, next, now), other);
}

/// When evidence is refused: it is too long, or a row that it needs finds no room in its table.
/// Nothing else is refused, but for a notification whose name is taken.
pub proof fn evidence_is_refused_only_without_room(
    s: StoreView,
    e: EventView,
    c: ContractView,
    p: PolicyView,
    now: i64,
    ttl: i64,
)
    ensures
        ({
            let d = p.decided(e);
            let key = incident_key(e);
            let old = rows::find(s.incidents, key);
            let new = is_new(s, e, now);
            let sent = store::sends(old, p, now, new);
            let id = notification_key(
                key,
                store::advanced(old, p, d, now, new).sequence as int,
            );
            let long = text::utf8_len(e.text) > 16_000;
            let verdicts = controller::policy::reliable(e) && !e.analysis_reused && rows::find(
                s.verdicts,
                controller::verdict_key(c, e),
            ) is None && s.verdicts.len() >= store::ROW_LIMIT;
            let again = e.timestamp is Some && (rows::find(s.seen, seen_key(e)) matches Some(b)
                && b.at > now - 604_800 && b.decision == store::signature(c, p, d));
            let seen = e.timestamp is Some && new && s.seen.len() >= store::ROW_LIMIT;
            let incidents = calls(d) && old is None && s.incidents.len() >= store::OUTBOX_LIMIT;
            let outbox = calls(d) && sent && s.outbox.len() >= store::OUTBOX_LIMIT;
            let taken = calls(d) && sent && rows::find(s.outbox, id) is Some;
            &&& s.planned(e, c, p, now, ttl) is Err <==> long || verdicts || !again && (seen
                || incidents || outbox || taken)
            &&& s.planned(e, c, p, now, ttl) matches Ok(plan) ==> plan.0.duplicate == again
        }),
{
}

/// A verdict that can be relied on is kept under the name of its evidence, for as long as it holds;
/// one that was itself reused, or cannot be relied on, changes no verdict.
pub proof fn verdicts_are_kept(
    s: StoreView,
    e: EventView,
    c: ContractView,
    p: PolicyView,
    now: i64,
    ttl: i64,
    other: Seq<char>,
)
    requires
        s.planned(e, c, p, now, ttl) is Ok,
        now + ttl <= i64::MAX,
        0 <= ttl,
    ensures
        ({
            let t = s.after(s.planned(e, c, p, now, ttl)->Ok_0.1);
            let key = controller::verdict_key(c, e);
            let kept = controller::policy::reliable(e) && !e.analysis_reused;
            &&& kept ==> (rows::find(t.verdicts, key) matches Some(b) && b.judgment == Some(
                e.judgment,
            ) && b.created == now && b.expires == now + ttl)
            &&& kept && other != key ==> rows::find(t.verdicts, other) == rows::find(
                s.verdicts,
                other,
            )
            &&& !kept ==> t.verdicts == s.verdicts
        }),
{
    store::applied_tables(s, e, c, p, now, ttl);
    let key = controller::verdict_key(c, e);
    let body = store::VerdictBody {
        judgment: Some(e.judgment),
        created: now,
        expires: store::capped(now + ttl),
    };
    rows::put_then_find(s.verdicts, key, body, key);
    rows::put_then_find(s.verdicts, key, body, other);
}

/// What a notification says: which incident it is of and under which number, what was decided, how
/// far the incident has risen and how often its evidence came, when, and the evidence itself with
/// its judgment and the policy. What the service said of a failure is not passed on.
pub open spec fn says_what_was_decided(
    fields: Seq<(Seq<char>, JsonView)>,
    judged: Seq<(Seq<char>, JsonView)>,
    e: EventView,
    p: PolicyView,
    d: Decision,
    b: IncidentBody,
    now: i64,
) -> bool {
    let key = incident_key(e);
    let j = e.judgment;
    &&& fields.contains(
        ("notification_id"@, JsonView::Text(notification_key(key, b.sequence as int))),
    )
    &&& fields.contains(("incident_id"@, JsonView::Text(key)))
    &&& fields.contains(("decision"@, JsonView::Text(controller::policy::decision_name(d))))
    &&& fields.contains(("escalation_level"@, json::integer(b.level as int)))
    &&& fields.contains(("recurrence_count"@, json::integer(b.count as int)))
    &&& fields.contains(("observed_at"@, json::integer(now as int)))
    &&& fields.contains(("evidence"@, JsonView::Text(e.text)))
    &&& fields.contains(("truncated"@, JsonView::Bool(e.truncated)))
    &&& fields.contains(("advisory_only"@, JsonView::Bool(true)))
    &&& fields.contains(("policy"@, controller::policy::policy_json(p)))
    &&& fields.contains(("judgment"@, JsonView::Object(judged)))
    &&& judged.contains(("importance"@, JsonView::Text(jev::importance_name(j.importance))))
    &&& judged.contains(("severity"@, JsonView::Text(jev::severity_name(j.severity))))
    &&& judged.contains(("category"@, JsonView::Text(jev::category_name(j.category))))
    &&& j.analysis_error is Some ==> judged.contains(
        ("analysis_error"@, JsonView::Text("Classification unavailable"@)),
    )
}

/// A notification is a JSON object that says what was decided.
pub proof fn notifications_tell_what_was_decided(
    e: EventView,
    p: PolicyView,
    d: Decision,
    b: IncidentBody,
    now: i64,
)
    ensures
        exists|fields: Seq<(Seq<char>, JsonView)>, judged: Seq<(Seq<char>, JsonView)>|
            #[trigger] says_what_was_decided(fields, judged, e, p, d, b, now)
                && store::outbox_entry(e, p, d, b, now).payload == json::json_text(
                JsonView::Object(fields),
            ),
{
    let key = incident_key(e);
    let id = notification_key(key, b.sequence as int);
    let n = controller::notification(id, key, e, p, d, b.level, b.count, now);
    let fields = controller::notification_json(n)->Object_0;
    let judged = controller::judgment_json(n.judgment)->Object_0;
    assert(fields[1] == ("notification_id"@, JsonView::Text(id)));
    assert(fields[2] == ("incident_id"@, JsonView::Text(key)));
    assert(fields[3].0 == "decision"@);
    assert(fields[4] == ("escalation_level"@, json::integer(b.level as int)));
    assert(fields[5] == ("recurrence_count"@, json::integer(b.count as int)));
    assert(fields[6] == ("observed_at"@, json::integer(now as int)));
    assert(fields[8] == ("evidence"@, JsonView::Text(e.text)));
    assert(fields[10] == ("truncated"@, JsonView::Bool(e.truncated)));
    assert(fields[11] == ("judgment"@, JsonView::Object(judged)));
    assert(fields[12] == ("policy"@, controller::policy::policy_json(p)));
    assert(fields[13] == ("advisory_only"@, JsonView::Bool(true)));
    assert(judged[0].0 == "importance"@);
    assert(judged[1].0 == "severity"@);
    assert(judged[2].0 == "category"@);
    if e.judgment.analysis_error is Some {
        assert(judged[judged.len() - 1] == (
            "analysis_error"@,
            JsonView::Text("Classification unavailable"@),
        ));
    }
    assert(says_what_was_decided(fields, judged, e, p, d, b, now));
}

/// A verdict is found again exactly where one was kept for the same evidence under the same terms and
/// still holds: neither given later than now, nor past its own time or the caller's. One that no
/// longer holds is outdated, one that cannot be read is said to be, and evidence that was cut short
/// or is to be judged anew has none.
pub proof fn verdicts_are_found_again(
    s: StoreView,
    e: EventView,
    c: ContractView,
    now: i64,
    ttl: i64,
    rescore: bool,
    b: store::VerdictBody,
)
    requires
        0 <= ttl,
        rows::find(s.verdicts, controller::verdict_key(c, e)) == Some(b),
        b.created + ttl <= i64::MAX,
    ensures
        ({
            let found = s.looked_up(e, c, now, ttl, rescore);
            let current = b.created <= now < b.expires && now - b.created < ttl;
            let usable = b.judgment matches Some(j) && controller::policy::reliable(
                EventView { judgment: j, ..e },
            );
            &&& e.truncated || rescore ==> found is Miss
            &&& !e.truncated && !rescore ==> {
                &&& found is Expired <==> !current
                &&& found is Unreadable <==> current && b.judgment is None
                &&& found is Hit <==> current && usable
                &&& found is Miss <==> current && b.judgment is Some && !usable
                &&& found matches store::Found::Hit(j) ==> b.judgment == Some(j)
            }
        }),
{
}

/// Where no verdict was kept, none is found.
pub proof fn no_verdict_is_made_up(
    s: StoreView,
    e: EventView,
    c: ContractView,
    now: i64,
    ttl: i64,
    rescore: bool,
)
    requires
        rows::find(s.verdicts, controller::verdict_key(c, e)) is None,
    ensures
        s.looked_up(e, c, now, ttl, rescore) is Miss,
{
}

}
