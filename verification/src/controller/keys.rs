//! The names by which the controller finds evidence, decisions and incidents again tell them apart.
use vstd::prelude::*;

use crate::controller;
use crate::controller::policy;
use crate::controller::policy::{Decision, PolicyView};
use crate::controller::store::{
    incident_basis, incident_key, notification_basis, notification_key, seen_basis, seen_key,
    signature, signed_basis,
};
use crate::controller::ContractView;
use crate::digest;
use crate::events::EventView;
use crate::exact;
use crate::json::JsonView;

verus! {

/// Unless the hash collides, two pieces of evidence have one name if and only if their sources are
/// alike, their texts and times are the same, and both or neither were cut short.
pub proof fn evidence_is_named_exactly(a: EventView, b: EventView)
    requires
        exact::written(JsonView::Object(a.source)),
        exact::written(JsonView::Object(b.source)),
    ensures
        digest::no_collision(seen_basis(a), seen_basis(b)) ==> (seen_key(a) == seen_key(b)
            <==> exact::alike(JsonView::Object(a.source), JsonView::Object(b.source)) && a.text
            == b.text && a.truncated == b.truncated && a.timestamp == b.timestamp),
{
    let x = seen_basis(a)->List_0;
    let y = seen_basis(b)->List_0;
    assert(exact::written(x[0]) && exact::written(x[1]) && exact::written(x[2])
        && exact::written(x[3]));
    assert(exact::written(y[0]) && exact::written(y[1]) && exact::written(y[2])
        && exact::written(y[3]));
    exact::texts_are_exact(seen_basis(a), seen_basis(b));
    exact::alike_in_fours(x, y);
}

/// Unless the hash collides, two pieces of evidence belong to one incident if and only if their
/// sources are alike, their texts are the same, and both or neither were cut short.
pub proof fn incidents_are_named_exactly(a: EventView, b: EventView)
    requires
        exact::written(JsonView::Object(a.source)),
        exact::written(JsonView::Object(b.source)),
    ensures
        digest::no_collision(incident_basis(a), incident_basis(b)) ==> (incident_key(a)
            == incident_key(b) <==> exact::alike(
            JsonView::Object(a.source),
            JsonView::Object(b.source),
        ) && a.text == b.text && a.truncated == b.truncated),
{
    let x = incident_basis(a)->List_0;
    let y = incident_basis(b)->List_0;
    assert(exact::written(x[0]) && exact::written(x[1]) && exact::written(x[2])
        && exact::written(x[3]));
    assert(exact::written(y[0]) && exact::written(y[1]) && exact::written(y[2])
        && exact::written(y[3]));
    exact::texts_are_exact(incident_basis(a), incident_basis(b));
    exact::alike_in_fours(x, y);
}

/// Unless the hash collides, two notifications have one name if and only if they are of the same
/// incident and number.
pub proof fn notifications_are_named_exactly(a: Seq<char>, i: int, b: Seq<char>, j: int)
    ensures
        digest::no_collision(notification_basis(a, i), notification_basis(b, j)) ==> (
        notification_key(a, i) == notification_key(b, j) <==> a == b && i == j),
{
    let x = notification_basis(a, i)->List_0;
    let y = notification_basis(b, j)->List_0;
    exact::integers_are_exact(i, j);
    exact::integers_are_exact(j, i);
    assert(exact::written(x[0]) && exact::written(x[1]));
    assert(exact::written(y[0]) && exact::written(y[1]));
    exact::texts_are_exact(notification_basis(a, i), notification_basis(b, j));
    if a == b && i == j {
        assert(x =~= y);
    } else {
        assert(!exact::alike(x[0], y[0]) || !exact::alike(x[1], y[1]));
    }
}

proof fn contracts_are_exact(c: ContractView, d: ContractView)
    ensures
        exact::written(controller::contract_json(c)),
        exact::alike(controller::contract_json(c), controller::contract_json(d)) <==> c == d,
{
    let x = controller::contract_json(c)->Object_0;
    let y = controller::contract_json(d)->Object_0;
    assert(exact::written(x[0].1) && exact::written(x[1].1) && exact::written(x[2].1));
    assert forall|i: int| 0 <= i < x.len() implies exact::written((#[trigger] x[i]).1) by {
        assert(i == 0 || i == 1 || i == 2);
    }
    if exact::alike(controller::contract_json(c), controller::contract_json(d)) {
        assert(exact::alike(x[0].1, y[0].1) && exact::alike(x[1].1, y[1].1) && exact::alike(
            x[2].1,
            y[2].1,
        ));
    }
    if c == d {
        assert forall|i: int| 0 <= i < x.len() implies (#[trigger] x[i]).0 == y[i].0
            && exact::alike(x[i].1, y[i].1) by {
            assert(i == 0 || i == 1 || i == 2);
        }
    }
}

/// A policy is written with numbers where its confidence has the text of one.
pub proof fn policies_are_written(p: PolicyView)
    ensures
        exact::written(policy::policy_json(p)) <==> exact::numeral(p.min_confidence.text),
{
    let x = policy::policy_json(p)->Object_0;
    let categories = x[0].1->List_0;
    let severities = x[1].1->List_0;
    exact::fields_are_written(x);
    assert(forall|i: int| 0 <= i < categories.len() ==> exact::written(#[trigger] categories[i]));
    assert(forall|i: int| 0 <= i < severities.len() ==> exact::written(#[trigger] severities[i]));
    assert(exact::written(x[0].1) && exact::written(x[1].1));
    assert(exact::written(x[2].1) == exact::numeral(p.min_confidence.text));
    exact::integers_are_exact(p.cooldown_seconds as int, 0);
    exact::integers_are_exact(p.recurrence_window_seconds as int, 0);
    exact::integers_are_exact(p.recurrence_count as int, 0);
    exact::integers_are_exact(p.max_escalation as int, 0);
    assert(exact::written(x[7].1));
    if exact::numeral(p.min_confidence.text) {
        assert forall|i: int| 0 <= i < x.len() implies exact::written((#[trigger] x[i]).1) by {
            assert(i == 0 || i == 1 || i == 2 || i == 3 || i == 4 || i == 5 || i == 6 || i == 7);
        }
    }
}

/// Unless the hash collides, two decisions are signed alike if and only if they are the same, made
/// under the same contract and under policies that are written alike.
pub proof fn decisions_are_named_exactly(
    c: ContractView,
    p: PolicyView,
    d: Decision,
    other_c: ContractView,
    other_p: PolicyView,
    other_d: Decision,
)
    requires
        exact::written(policy::policy_json(p)),
        exact::written(policy::policy_json(other_p)),
    ensures
        digest::no_collision(signed_basis(c, p, d), signed_basis(other_c, other_p, other_d)) ==> (
        signature(c, p, d) == signature(other_c, other_p, other_d) <==> c == other_c
            && exact::alike(policy::policy_json(p), policy::policy_json(other_p)) && d == other_d),
{
    let v = signed_basis(c, p, d);
    let w = signed_basis(other_c, other_p, other_d);
    let x = v->List_0;
    let y = w->List_0;
    contracts_are_exact(c, other_c);
    contracts_are_exact(other_c, c);
    assert(exact::written(x[0]) && exact::written(x[1]) && exact::written(x[2]));
    assert(exact::written(y[0]) && exact::written(y[1]) && exact::written(y[2]));
    exact::texts_are_exact(v, w);
    reveal_strlit("ignore");
    reveal_strlit("abstain");
    reveal_strlit("review");
    reveal_strlit("notify");
    assert(policy::decision_name(d) == policy::decision_name(other_d) <==> d == other_d) by {
        if policy::decision_name(d) == policy::decision_name(other_d) {
            assert("review"@[0] == 'r' && "notify"@[0] == 'n' && "ignore"@[0] == 'i'
                && "abstain"@[0] == 'a');
        }
    }
    if exact::alike(v, w) {
        assert(exact::alike(x[0], y[0]) && exact::alike(x[1], y[1]) && exact::alike(x[2], y[2]));
    }
    if c == other_c && exact::alike(x[1], y[1]) && d == other_d {
        assert forall|i: int| 0 <= i < x.len() implies exact::alike(#[trigger] x[i], y[i]) by {
            assert(i == 0 || i == 1 || i == 2);
        }
    }
}

}
