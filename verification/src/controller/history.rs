//! What holds of the controller's state over everything that was done with it.
use vstd::prelude::*;

use crate::controller::keys;
use crate::controller::policy;
use crate::controller::policy::{Decision, PolicyView};
use crate::controller::store;
use crate::controller::store::{
    empty_store, kept_or_stale, seen_basis, seen_key, signature, signed_basis, SeenBody, StoreView,
    LEASE, RETENTION,
};
use crate::controller::ContractView;
use crate::digest;
use crate::events::EventView;
use crate::exact;
use crate::json::JsonView;
use crate::rows;

verus! {

/// What is done with the state.
pub enum Step {
    Apply { e: EventView, c: ContractView, p: PolicyView, now: i64, ttl: i64 },
    Claim { now: i64, max_attempts: u32, interval: i64 },
    Finish {
        id: Seq<char>,
        attempts: u32,
        now: i64,
        success: bool,
        max_attempts: u32,
        jitter: u64,
    },
    Prune { now: i64 },
}

/// The state after one step. Evidence that is refused changes nothing.
pub open spec fn stepped(s: StoreView, step: Step) -> StoreView {
    match step {
        Step::Apply { e, c, p, now, ttl } => match s.planned(e, c, p, now, ttl) {
            Ok(plan) => s.after(plan.1),
            Err(_) => s,
        },
        Step::Claim { now, max_attempts, interval } => s.after(
            s.claim_changes(now, max_attempts, interval),
        ),
        Step::Finish { id, attempts, now, success, max_attempts, jitter } => s.after(
            s.finish_changes(id, attempts, now, success, max_attempts, jitter),
        ),
        Step::Prune { now } => s.after(s.prune_changes(now)),
    }
}

/// The state after steps from the beginning.
pub open spec fn lived(steps: Seq<Step>) -> StoreView
    decreases steps.len(),
{
    if steps.len() == 0 {
        empty_store()
    } else {
        stepped(lived(steps.drop_last()), steps.last())
    }
}

/// Whether times can be reckoned with in a step, and maintenance does not run ahead of a time.
pub open spec fn timely(step: Step, now: i64) -> bool {
    match step {
        Step::Apply { .. } => true,
        Step::Claim { now: at, max_attempts, interval } => at + LEASE <= i64::MAX && i64::MIN <= at
            + interval <= i64::MAX,
        Step::Finish { id, attempts, now: at, success, max_attempts, jitter } => at + 300
            <= i64::MAX,
        Step::Prune { now: at } => at <= now,
    }
}

/// The last time that evidence of a name was taken in as new, or with a new decision: when that
/// was, and what was decided.
pub open spec fn last_taken(steps: Seq<Step>, key: Seq<char>) -> Option<SeenBody>
    decreases steps.len(),
{
    if steps.len() == 0 {
        None
    } else {
        let before = last_taken(steps.drop_last(), key);
        match steps.last() {
            Step::Apply { e, c, p, now, ttl } => match lived(steps.drop_last()).planned(
                e,
                c,
                p,
                now,
                ttl,
            ) {
                Ok(plan) => if !plan.0.duplicate && e.timestamp is Some && seen_key(e) == key {
                    Some(SeenBody { at: now, decision: signature(c, p, p.decided(e)) })
                } else {
                    before
                },
                Err(_) => before,
            },
            _ => before,
        }
    }
}

proof fn memory_follows_history(steps: Seq<Step>, key: Seq<char>, now: i64)
    requires
        forall|i: int| 0 <= i < steps.len() ==> timely(#[trigger] steps[i], now),
    ensures
        lived(steps).sound(),
        kept_or_stale(last_taken(steps, key), rows::find(lived(steps).seen, key), now),
    decreases steps.len(),
{
    if steps.len() > 0 {
        let rest = steps.drop_last();
        assert forall|i: int| 0 <= i < rest.len() implies timely(#[trigger] rest[i], now) by {
            assert(rest[i] == steps[i]);
        }
        memory_follows_history(rest, key, now);
        assert(timely(steps[steps.len() - 1], now));
        let s = lived(rest);
        match steps.last() {
            Step::Apply { e, c, p, now: at, ttl } => {
                if s.planned(e, c, p, at, ttl) is Ok {
                    store::apply_keeps_state_sound(s, e, c, p, at, ttl);
                    store::applied_tables(s, e, c, p, at, ttl);
                    rows::put_then_find(
                        s.seen,
                        seen_key(e),
                        SeenBody { at, decision: signature(c, p, p.decided(e)) },
                        key,
                    );
                }
            },
            Step::Claim { now: at, max_attempts, interval } => {
                store::claim_is_fair_and_capped(s, at, max_attempts, interval);
            },
            Step::Finish { id, attempts, now: at, success, max_attempts, jitter } => {
                store::finish_records_the_outcome(
                    s,
                    id,
                    attempts,
                    at,
                    success,
                    max_attempts,
                    jitter,
                    id,
                );
            },
            Step::Prune { now: at } => {
                store::prune_keeps_what_matters(s, at, key);
                assert(kept_or_stale(
                    rows::find(s.seen, key),
                    rows::find(lived(steps).seen, key),
                    at,
                ));
            },
        }
    }
}

/// Whatever was done with the state before, evidence is a duplicate exactly where it has a time and
/// the last time that evidence of its name was taken in lies within the retention, on the same
/// terms and with the same decision. A duplicate is told to nobody, and leaves what was seen, the
/// incidents and the notifications as they were.
pub proof fn duplicates_are_recent_replays(
    steps: Seq<Step>,
    e: EventView,
    c: ContractView,
    p: PolicyView,
    now: i64,
    ttl: i64,
)
    requires
        forall|i: int| 0 <= i < steps.len() ==> timely(#[trigger] steps[i], now),
        lived(steps).planned(e, c, p, now, ttl) is Ok,
    ensures
        ({
            let s = lived(steps);
            let (applied, changes) = s.planned(e, c, p, now, ttl)->Ok_0;
            let t = s.after(changes);
            &&& applied.duplicate == (e.timestamp is Some && match last_taken(steps, seen_key(e)) {
                Some(b) => b.at > now - RETENTION && b.decision == signature(c, p, p.decided(e)),
                None => false,
            })
            &&& applied.duplicate ==> !applied.enqueued && applied.decision is None && t.seen
                == s.seen && t.incidents == s.incidents && t.outbox == s.outbox
        }),
{
    memory_follows_history(steps, seen_key(e), now);
    store::applied_tables(lived(steps), e, c, p, now, ttl);
}

/// Whether two pieces of evidence are the same: of alike sources, with the same text at the same
/// time, and both or neither cut short.
pub open spec fn same_evidence(a: EventView, b: EventView) -> bool {
    &&& exact::alike(JsonView::Object(a.source), JsonView::Object(b.source))
    &&& a.text == b.text
    &&& a.truncated == b.truncated
    &&& a.timestamp == b.timestamp
}

/// A decision on evidence: when, under which contract and policy, and which.
pub struct Taken {
    pub at: i64,
    pub c: ContractView,
    pub p: PolicyView,
    pub d: Decision,
}

/// The last time that the very evidence was taken in as new, or with a new decision.
pub open spec fn last_decided(steps: Seq<Step>, evidence: EventView) -> Option<Taken>
    decreases steps.len(),
{
    if steps.len() == 0 {
        None
    } else {
        let before = last_decided(steps.drop_last(), evidence);
        match steps.last() {
            Step::Apply { e, c, p, now, ttl } => match lived(steps.drop_last()).planned(
                e,
                c,
                p,
                now,
                ttl,
            ) {
                Ok(plan) => if !plan.0.duplicate && e.timestamp is Some && same_evidence(
                    e,
                    evidence,
                ) {
                    Some(Taken { at: now, c, p, d: p.decided(e) })
                } else {
                    before
                },
                Err(_) => before,
            },
            _ => before,
        }
    }
}

/// Whether the hash tells a step from evidence that is applied under a contract and a policy, and
/// the numbers in both have the texts of numbers.
pub open spec fn told_apart(step: Step, e: EventView, c: ContractView, p: PolicyView) -> bool {
    match step {
        Step::Apply { e: x, c: xc, p: xp, .. } => {
            &&& exact::written(JsonView::Object(x.source))
            &&& exact::written(policy::policy_json(xp))
            &&& digest::no_collision(seen_basis(x), seen_basis(e))
            &&& digest::no_collision(
                signed_basis(xc, xp, xp.decided(x)),
                signed_basis(c, p, p.decided(e)),
            )
        },
        _ => true,
    }
}

proof fn names_follow_evidence(
    steps: Seq<Step>,
    e: EventView,
    c: ContractView,
    p: PolicyView,
)
    requires
        exact::written(JsonView::Object(e.source)),
        forall|i: int| 0 <= i < steps.len() ==> told_apart(#[trigger] steps[i], e, c, p),
    ensures
        match last_decided(steps, e) {
            Some(t) => last_taken(steps, seen_key(e)) == Some(
                SeenBody { at: t.at, decision: signature(t.c, t.p, t.d) },
            ) && exact::written(policy::policy_json(t.p)) && digest::no_collision(
                signed_basis(t.c, t.p, t.d),
                signed_basis(c, p, p.decided(e)),
            ),
            None => last_taken(steps, seen_key(e)) is None,
        },
    decreases steps.len(),
{
    if steps.len() > 0 {
        let before = steps.drop_last();
        assert forall|i: int| 0 <= i < before.len() implies told_apart(
            #[trigger] before[i],
            e,
            c,
            p,
        ) by {
            assert(before[i] == steps[i]);
        }
        names_follow_evidence(before, e, c, p);
        assert(told_apart(steps[steps.len() - 1], e, c, p));
        match steps.last() {
            Step::Apply { e: x, .. } => {
                keys::evidence_is_named_exactly(x, e);
            },
            _ => {},
        }
    }
}

/// Unless the hash collides, evidence is a duplicate exactly where it has a time and the very same
/// evidence was last taken in within the retention, under the same contract, under a policy that
/// is written alike, and with the same decision.
pub proof fn duplicates_repeat_a_decision(
    steps: Seq<Step>,
    e: EventView,
    c: ContractView,
    p: PolicyView,
    now: i64,
    ttl: i64,
)
    requires
        forall|i: int| 0 <= i < steps.len() ==> timely(#[trigger] steps[i], now),
        lived(steps).planned(e, c, p, now, ttl) is Ok,
        exact::written(JsonView::Object(e.source)),
        exact::written(policy::policy_json(p)),
    ensures
        (forall|i: int| 0 <= i < steps.len() ==> told_apart(#[trigger] steps[i], e, c, p)) ==> (
        lived(steps).planned(e, c, p, now, ttl)->Ok_0.0.duplicate == (e.timestamp is Some
            && match last_decided(steps, e) {
            Some(t) => t.at > now - RETENTION && t.c == c && exact::alike(
                policy::policy_json(t.p),
                policy::policy_json(p),
            ) && t.d == p.decided(e),
            None => false,
        })),
{
    duplicates_are_recent_replays(steps, e, c, p, now, ttl);
    if forall|i: int| 0 <= i < steps.len() ==> told_apart(#[trigger] steps[i], e, c, p) {
        names_follow_evidence(steps, e, c, p);
        match last_decided(steps, e) {
            Some(t) => {
                keys::decisions_are_named_exactly(t.c, t.p, t.d, c, p, p.decided(e));
            },
            None => {},
        }
    }
}

/// The state stays sound over any history.
pub proof fn histories_are_sound(steps: Seq<Step>, now: i64)
    requires
        forall|i: int| 0 <= i < steps.len() ==> timely(#[trigger] steps[i], now),
    ensures
        lived(steps).sound(),
{
    memory_follows_history(steps, seq![], now);
}

}
