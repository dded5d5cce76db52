//! What time does: notifications are taken out in turn, tried again and given up, and what has
//! served its time is forgotten.
use vstd::prelude::*;

use crate::controller::store;
use crate::controller::store::{
    ChangeView, OutboxBody, SeenBody, Status, StoreView, VerdictBody,
};
use crate::rows;
use crate::text;

verus! {

/// How many rows of a table have a property.
pub open spec fn number<B>(t: Seq<(Seq<char>, B)>, p: spec_fn(B) -> bool) -> nat
    decreases t.len(),
{
    if t.len() == 0 {
        0
    } else {
        number(t.drop_last(), p) + if p(t.last().1) {
            1nat
        } else {
            0nat
        }
    }
}

/// Whether a row is among the first 256 of its table that have a property.
pub open spec fn in_batch<B>(t: Seq<(Seq<char>, B)>, p: spec_fn(B) -> bool, j: int) -> bool {
    p(t[j].1) && number(t.take(j), p) < 256
}

/// Whether a notification waits and its time has come.
pub open spec fn waiting(b: OutboxBody, now: i64) -> bool {
    b.status == Status::Pending && b.due <= now
}

/// Notifications that wait without an attempt left.
pub open spec fn without_attempts(now: i64, max_attempts: u32) -> spec_fn(OutboxBody) -> bool {
    |b: OutboxBody| waiting(b, now) && b.attempts >= max_attempts
}

/// Verdicts whose time is over.
pub open spec fn over(now: i64) -> spec_fn(VerdictBody) -> bool {
    |b: VerdictBody| b.expires <= now
}

/// Evidence that was seen at least seven days ago.
pub open spec fn old_evidence(now: i64) -> spec_fn(SeenBody) -> bool {
    |b: SeenBody| now - b.at >= 7 * 24 * 60 * 60
}

/// Notifications that were delivered at least seven days ago.
pub open spec fn old_deliveries(now: i64) -> spec_fn(OutboxBody) -> bool {
    |b: OutboxBody| b.status == Status::Delivered && now - b.updated >= 7 * 24 * 60 * 60
}

/// A notification that is given up.
pub open spec fn dead(b: OutboxBody, now: i64) -> OutboxBody {
    OutboxBody {
        incident: b.incident,
        payload: b.payload,
        status: Status::Dead,
        attempts: b.attempts,
        due: b.due,
        updated: now,
    }
}

/// A notification that is being tried once more.
pub open spec fn tried(b: OutboxBody, now: i64) -> OutboxBody {
    OutboxBody {
        incident: b.incident,
        payload: b.payload,
        status: Status::Pending,
        attempts: (b.attempts + 1) as u32,
        due: (now + 30) as i64,
        updated: now,
    }
}

proof fn taken<B>(t: Seq<(Seq<char>, B)>, j: int)
    requires
        0 <= j < t.len(),
    ensures
        t.drop_last().take(j) == t.take(j),
{
    assert(t.drop_last().take(j) =~= t.take(j));
}

proof fn shorter<B>(t: Seq<(Seq<char>, B)>)
    requires
        rows::distinct(t),
        t.len() > 0,
    ensures
        rows::distinct(t.drop_last()),
{
    let r = t.drop_last();
    assert forall|i: int, j: int| 0 <= i < j < r.len() implies (#[trigger] r[i]).0 != (
    #[trigger] r[j]).0 by {
        assert(t[i] == r[i] && t[j] == r[j]);
    }
}

/// Whether a change is made for a row of the table.
pub open spec fn gives_up(
    t: Seq<(Seq<char>, OutboxBody)>,
    now: i64,
    c: ChangeView,
    k: int,
) -> bool {
    0 <= k < t.len() && c == ChangeView::Outbox(t[k].0, dead(t[k].1, now))
}

spec fn given_up_one(t: Seq<(Seq<char>, OutboxBody)>, now: i64, c: ChangeView) -> bool {
    exists|k: int| gives_up(t, now, c, k)
}

proof fn giving_up(t: Seq<(Seq<char>, OutboxBody)>, now: i64, max_attempts: u32)
    requires
        rows::distinct(t),
    ensures
        ({
            let c = store::given_up(t, now, max_attempts, 256);
            let p = without_attempts(now, max_attempts);
            &&& c.len() == if number(t, p) < 256 {
                number(t, p)
            } else {
                256
            }
            &&& forall|i: int|
                0 <= i < c.len() ==> given_up_one(t, now, #[trigger] c[i])
            &&& forall|j: int|
                0 <= j < t.len() ==> (c.contains(
                    ChangeView::Outbox((#[trigger] t[j]).0, dead(t[j].1, now)),
                ) <==> in_batch(t, p, j))
        }),
    decreases t.len(),
{
    let c = store::given_up(t, now, max_attempts, 256);
    let p = without_attempts(now, max_attempts);
    if t.len() > 0 {
        let r = t.drop_last();
        shorter(t);
        giving_up(r, now, max_attempts);
        let d = store::given_up(r, now, max_attempts, 256);
        let n = t.len() - 1;
        assert(r =~= t.take(n));
        assert forall|i: int| 0 <= i < c.len() implies given_up_one(t, now, #[trigger] c[i]) by {
            if i < d.len() {
                assert(c[i] == d[i]);
                let k = choose|k: int| #[trigger] gives_up(r, now, d[i], k);
                assert(gives_up(t, now, c[i], k));
            } else {
                assert(gives_up(t, now, c[i], n));
            }
        }
        assert forall|j: int| 0 <= j < t.len() implies (c.contains(
            ChangeView::Outbox((#[trigger] t[j]).0, dead(t[j].1, now)),
        ) <==> in_batch(t, p, j)) by {
            let x = ChangeView::Outbox(t[j].0, dead(t[j].1, now));
            if j < n {
                assert(r[j] == t[j]);
                taken(t, j);
                assert(d.contains(x) <==> in_batch(t, p, j));
                if d.contains(x) {
                    let i = choose|i: int| 0 <= i < d.len() && d[i] == x;
                    assert(c[i] == x);
                }
                if c.contains(x) {
                    let i = choose|i: int| 0 <= i < c.len() && c[i] == x;
                    if i < d.len() {
                        assert(d[i] == x);
                    } else {
                        assert(c[i]->Outbox_0 == t[n].0);
                        assert(t[j].0 != t[n].0);
                    }
                }
            } else {
                if c.len() > d.len() {
                    assert(c[d.len() as int] == x);
                }
                if d.contains(x) {
                    let i = choose|i: int| 0 <= i < d.len() && d[i] == x;
                    let k = choose|k: int| #[trigger] gives_up(r, now, d[i], k);
                    assert(r[k] == t[k]);
                    assert(t[k].0 != t[n].0);
                }
            }
        }
    }
}

proof fn found<B>(t: Seq<(Seq<char>, B)>, j: int)
    requires
        0 <= j < t.len(),
        rows::distinct(t),
    ensures
        rows::find(t, t[j].0) == Some(t[j].1),
{
    rows::place_of(t, t[j].0);
}

/// What a run of changes, each giving up a row, leaves of the row under a name.
proof fn all_given_up(s: StoreView, c: Seq<ChangeView>, now: i64, j: int)
    requires
        rows::distinct(s.outbox),
        0 <= j < s.outbox.len(),
        forall|i: int|
            0 <= i < c.len() ==> given_up_one(s.outbox, now, #[trigger] c[i]),
    ensures
        ({
            let b = s.outbox[j].1;
            let t = s.after(c);
            &&& t.next == s.next
            &&& rows::find(t.outbox, s.outbox[j].0) == Some(
                if c.contains(ChangeView::Outbox(s.outbox[j].0, dead(b, now))) {
                    dead(b, now)
                } else {
                    b
                },
            )
        }),
    decreases c.len(),
{
    let x = ChangeView::Outbox(s.outbox[j].0, dead(s.outbox[j].1, now));
    found(s.outbox, j);
    if c.len() > 0 {
        let d = c.drop_last();
        assert forall|i: int| 0 <= i < d.len() implies given_up_one(s.outbox, now, #[trigger] d[i]) by {
            assert(d[i] == c[i]);
        }
        all_given_up(s, d, now, j);
        let n = c.len() - 1;
        let k = choose|k: int| #[trigger] gives_up(s.outbox, now, c[n], k);
        assert(c[n] == c.last());
        let (id, b) = (s.outbox[k].0, dead(s.outbox[k].1, now));
        rows::put_then_find(s.after(d).outbox, id, b, s.outbox[j].0);
        if k == j {
            assert(c[n] == x);
        } else {
            assert(s.outbox[k].0 != s.outbox[j].0);
            if c.contains(x) {
                let i = choose|i: int| 0 <= i < c.len() && c[i] == x;
                assert(d[i] == x);
            }
            if d.contains(x) {
                let i = choose|i: int| 0 <= i < d.len() && d[i] == x;
                assert(c[i] == x);
            }
        }
    } else {
        assert(!c.contains(x));
    }
}

proof fn first_is_found(t: Seq<(Seq<char>, OutboxBody)>, now: i64, max_attempts: u32)
    ensures
        match store::next_ready(t, now, max_attempts) {
            Some(i) => 0 <= i < t.len() && waiting(t[i].1, now) && t[i].1.attempts < max_attempts
                && forall|j: int|
                0 <= j < t.len() && waiting((#[trigger] t[j]).1, now) && t[j].1.attempts
                    < max_attempts ==> t[i].1.due < t[j].1.due || t[i].1.due == t[j].1.due
                    && !text::before(t[j].0, t[i].0),
            None => forall|j: int|
                0 <= j < t.len() && waiting((#[trigger] t[j]).1, now) ==> t[j].1.attempts
                    >= max_attempts,
        },
    decreases t.len(),
{
    if t.len() > 0 {
        let r = t.drop_last();
        first_is_found(r, now, max_attempts);
        assert forall|j: int| 0 <= j < r.len() implies (#[trigger] t[j]) == r[j] by {}
        let n = t.len() - 1;
        assert(t[n] == t.last());
        text::before_irreflexive(t.last().0);
        match store::next_ready(r, now, max_attempts) {
            Some(i) => {
                assert(t[i] == r[i]);
                assert forall|j: int| #![trigger t[j]]
                    0 <= j < t.len() && store::first_of(t.last(), t[i]) && t[i].1.due == t[j].1.due
                        && t.last().1.due == t[j].1.due && !text::before(
                        t[j].0,
                        t[i].0,
                    ) implies !text::before(t[j].0, t.last().0) by {
                    if text::before(t[j].0, t.last().0) {
                        text::before_transitive(t[j].0, t.last().0, t[i].0);
                    }
                }
            },
            None => {},
        }
    }
}

/// Notifications are taken out in turn. One is taken out exactly where the pace allows it and one
/// waits whose time has come and that has an attempt left; it is the one that was due first, and of
/// those that of the smallest name. It counts one attempt more and can be taken out again in half a
/// minute, and the next one in an interval. The first 256 that wait without an attempt left are
/// given up, and every other notification stays as it is.
pub proof fn notifications_are_taken_out_in_turn(
    s: StoreView,
    now: i64,
    max_attempts: u32,
    interval: i64,
    j: int,
)
    requires
        s.sound(),
        now + 30 <= i64::MAX,
        i64::MIN <= now + interval <= i64::MAX,
        0 <= j < s.outbox.len(),
    ensures
        ({
            let t = s.after(s.claim_changes(now, max_attempts, interval));
            let after = rows::find(t.outbox, s.outbox[j].0);
            let b = s.outbox[j].1;
            let next = s.claimable(now, max_attempts);
            &&& next is Some <==> s.next <= now && exists|k: int|
                0 <= k < s.outbox.len() && waiting((#[trigger] s.outbox[k]).1, now)
                    && s.outbox[k].1.attempts < max_attempts
            &&& t.next == if next is Some {
                now + interval
            } else {
                s.next as int
            }
            &&& next == Some(j) ==> {
                &&& waiting(b, now) && b.attempts < max_attempts
                &&& after == Some(tried(b, now))
                &&& forall|k: int|
                    0 <= k < s.outbox.len() && waiting((#[trigger] s.outbox[k]).1, now)
                        && s.outbox[k].1.attempts < max_attempts ==> b.due < s.outbox[k].1.due
                        || b.due == s.outbox[k].1.due && !text::before(
                        s.outbox[k].0,
                        s.outbox[j].0,
                    )
            }
            &&& next != Some(j) ==> after == Some(
                if in_batch(s.outbox, without_attempts(now, max_attempts), j) {
                    dead(b, now)
                } else {
                    b
                },
            )
        }),
{
    let c = store::given_up(s.outbox, now, max_attempts, 256);
    let all = s.claim_changes(now, max_attempts, interval);
    let p = without_attempts(now, max_attempts);
    giving_up(s.outbox, now, max_attempts);
    all_given_up(s, c, now, j);
    first_is_found(s.outbox, now, max_attempts);
    let id = s.outbox[j].0;
    match s.claimable(now, max_attempts) {
        Some(i) => {
            let x = all.drop_last().last();
            assert(all.drop_last().drop_last() =~= c);
            assert(x == ChangeView::Outbox(s.outbox[i].0, tried(s.outbox[i].1, now)));
            assert(all.last() == ChangeView::Clock((now + interval) as i64));
            let u = s.after(c);
            assert(s.after(all.drop_last()) == u.changed(x));
            rows::put_then_find(u.outbox, s.outbox[i].0, tried(s.outbox[i].1, now), id);
            if i != j {
                assert(s.outbox[i].0 != s.outbox[j].0);
            }
        },
        None => {
            assert(all == c);
        },
    }
}

/// Two to a power.
pub open spec fn doubled(n: nat) -> nat
    decreases n,
{
    if n == 0 {
        1
    } else {
        2 * doubled((n - 1) as nat)
    }
}

/// How an attempt ends. A success delivers its notification, and a failure leaves it to be tried
/// again unless all attempts are used up: twice as late as after the attempt before, but no later
/// than after the eighth, with up to three seconds of spread. Nothing else of it changes.
pub proof fn attempts_end_as_they_went(
    s: StoreView,
    id: Seq<char>,
    attempts: u32,
    now: i64,
    success: bool,
    max_attempts: u32,
    jitter: u64,
    b: OutboxBody,
)
    requires
        s.sound(),
        now + 300 <= i64::MAX,
        rows::find(s.outbox, id) == Some(b),
    ensures
        ({
            let t = s.after(s.finish_changes(id, attempts, now, success, max_attempts, jitter));
            let late = doubled(
                if attempts < 8 {
                    attempts as nat
                } else {
                    8
                },
            );
            &&& rows::find(t.outbox, id) matches Some(a)
            &&& a.incident == b.incident && a.payload == b.payload && a.attempts == b.attempts
            &&& a.updated == now
            &&& a.due == now + late + jitter % 4
            &&& a.status == Status::Delivered <==> success
            &&& a.status == Status::Pending <==> !success && attempts < max_attempts
            &&& a.status == Status::Dead <==> !success && attempts >= max_attempts
            &&& t.next == s.next && t.verdicts == s.verdicts
        }),
{
    let changes = s.finish_changes(id, attempts, now, success, max_attempts, jitter);
    assert(changes.drop_last() =~= seq![]);
    assert(s.after(seq![]) == s);
    assert(s.after(changes.drop_last()) == s);
    rows::put_then_find(s.outbox, id, changes[0]->Outbox_1, id);
    reveal_with_fuel(doubled, 9);
}

proof fn earliest_is_first(t: Seq<(Seq<char>, OutboxBody)>)
    ensures
        match store::earliest(t) {
            Some(x) => (exists|k: int|
                0 <= k < t.len() && (#[trigger] t[k]).1.status == Status::Pending && t[k].1.due
                    == x) && forall|k: int|
                0 <= k < t.len() && (#[trigger] t[k]).1.status == Status::Pending ==> x
                    <= t[k].1.due,
            None => forall|k: int|
                0 <= k < t.len() ==> (#[trigger] t[k]).1.status != Status::Pending,
        },
    decreases t.len(),
{
    if t.len() > 0 {
        let r = t.drop_last();
        earliest_is_first(r);
        assert forall|k: int| 0 <= k < r.len() implies #[trigger] t[k] == r[k] by {}
        let n = t.len() - 1;
        assert(t[n] == t.last());
        match store::earliest(r) {
            Some(x) => {
                let k = choose|k: int|
                    0 <= k < r.len() && (#[trigger] r[k]).1.status == Status::Pending && r[k].1.due
                        == x;
                assert(t[k] == r[k]);
            },
            None => {},
        }
    }
}

/// When the outbox is looked at again: within a minute, not within a second, and between the two as
/// soon as the pace allows a delivery and one is due.
pub proof fn the_outbox_is_looked_at_in_time(s: StoreView, now: i64, at: int)
    requires
        now + 1 <= at < now + 60,
    ensures
        now + 1 <= s.wake_at(now) <= now + 60,
        s.wake_at(now) <= at <==> s.next <= at && exists|k: int|
            0 <= k < s.outbox.len() && (#[trigger] s.outbox[k]).1.status == Status::Pending
                && s.outbox[k].1.due <= at,
{
    earliest_is_first(s.outbox);
    match store::earliest(s.outbox) {
        Some(x) => {
            let k = choose|k: int|
                0 <= k < s.outbox.len() && (#[trigger] s.outbox[k]).1.status == Status::Pending
                    && s.outbox[k].1.due == x;
            assert(s.outbox[k].1.due == x);
        },
        None => {},
    }
}

/// What is counted of the outbox are the notifications that have come so far, each once.
pub proof fn the_outbox_is_counted(t: Seq<(Seq<char>, OutboxBody)>, status: Status)
    ensures
        store::tally(t, status) == number(t, |b: OutboxBody| b.status == status),
    decreases t.len(),
{
    if t.len() > 0 {
        the_outbox_is_counted(t.drop_last(), status);
    }
}

/// Whether a table has a row under a name.
pub open spec fn named<B>(t: Seq<(Seq<char>, B)>, key: Seq<char>) -> bool {
    exists|k: int| 0 <= k < t.len() && (#[trigger] t[k]).0 == key
}

proof fn verdicts_forgotten(t: Seq<(Seq<char>, VerdictBody)>, now: i64)
    requires
        rows::distinct(t),
    ensures
        ({
            let c = store::stale_verdicts(t, now, 256);
            let p = over(now);
            &&& c.len() == if number(t, p) < 256 {
                number(t, p)
            } else {
                256
            }
            &&& forall|i: int|
                0 <= i < c.len() ==> #[trigger] c[i] is ForgetVerdict && named(t, c[i]->ForgetVerdict_0)
            &&& forall|j: int|
                0 <= j < t.len() ==> (c.contains(ChangeView::ForgetVerdict((#[trigger] t[j]).0))
                    <==> in_batch(t, p, j))
        }),
    decreases t.len(),
{
    let c = store::stale_verdicts(t, now, 256);
    let p = over(now);
    if t.len() > 0 {
        let r = t.drop_last();
        shorter(t);
        verdicts_forgotten(r, now);
        let d = store::stale_verdicts(r, now, 256);
        let n = t.len() - 1;
        assert(r =~= t.take(n));
        assert forall|i: int| 0 <= i < c.len() implies #[trigger] c[i] is ForgetVerdict && named(
            t,
            c[i]->ForgetVerdict_0,
        ) by {
            if i < d.len() {
                assert(c[i] == d[i]);
                let k = choose|k: int|
                    0 <= k < r.len() && (#[trigger] r[k]).0 == d[i]->ForgetVerdict_0;
                assert(t[k] == r[k]);
            } else {
                assert(t[n].0 == c[i]->ForgetVerdict_0);
            }
        }
        assert forall|j: int| 0 <= j < t.len() implies (c.contains(
            ChangeView::ForgetVerdict((#[trigger] t[j]).0),
        ) <==> in_batch(t, p, j)) by {
            let x = ChangeView::ForgetVerdict(t[j].0);
            if d.contains(x) {
                let i = choose|i: int| 0 <= i < d.len() && d[i] == x;
                assert(c[i] == x);
                let k = choose|k: int|
                    0 <= k < r.len() && (#[trigger] r[k]).0 == d[i]->ForgetVerdict_0;
                assert(t[k] == r[k]);
                assert(t[k].0 != t[n].0);
            }
            if j < n {
                assert(r[j] == t[j]);
                taken(t, j);
                if c.contains(x) {
                    let i = choose|i: int| 0 <= i < c.len() && c[i] == x;
                    assert(t[j].0 != t[n].0);
                    assert(i < d.len());
                    assert(d[i] == x);
                }
            } else {
                if c.len() > d.len() {
                    assert(c[d.len() as int] == x);
                }
                if c.contains(x) {
                    let i = choose|i: int| 0 <= i < c.len() && c[i] == x;
                    if i < d.len() {
                        assert(d[i] == x);
                    }
                }
            }
        }
    }
}

proof fn evidence_forgotten(t: Seq<(Seq<char>, SeenBody)>, now: i64)
    requires
        rows::distinct(t),
    ensures
        ({
            let c = store::stale_seen(t, now, 256);
            let p = old_evidence(now);
            &&& c.len() == if number(t, p) < 256 {
                number(t, p)
            } else {
                256
            }
            &&& forall|i: int|
                0 <= i < c.len() ==> #[trigger] c[i] is ForgetSeen && named(t, c[i]->ForgetSeen_0)
            &&& forall|j: int|
                0 <= j < t.len() ==> (c.contains(ChangeView::ForgetSeen((#[trigger] t[j]).0))
                    <==> in_batch(t, p, j))
        }),
    decreases t.len(),
{
    let c = store::stale_seen(t, now, 256);
    let p = old_evidence(now);
    if t.len() > 0 {
        let r = t.drop_last();
        shorter(t);
        evidence_forgotten(r, now);
        let d = store::stale_seen(r, now, 256);
        let n = t.len() - 1;
        assert(r =~= t.take(n));
        assert forall|i: int| 0 <= i < c.len() implies #[trigger] c[i] is ForgetSeen && named(
            t,
            c[i]->ForgetSeen_0,
        ) by {
            if i < d.len() {
                assert(c[i] == d[i]);
                let k = choose|k: int|
                    0 <= k < r.len() && (#[trigger] r[k]).0 == d[i]->ForgetSeen_0;
                assert(t[k] == r[k]);
            } else {
                assert(t[n].0 == c[i]->ForgetSeen_0);
            }
        }
        assert forall|j: int| 0 <= j < t.len() implies (c.contains(
            ChangeView::ForgetSeen((#[trigger] t[j]).0),
        ) <==> in_batch(t, p, j)) by {
            let x = ChangeView::ForgetSeen(t[j].0);
            if d.contains(x) {
                let i = choose|i: int| 0 <= i < d.len() && d[i] == x;
                assert(c[i] == x);
                let k = choose|k: int|
                    0 <= k < r.len() && (#[trigger] r[k]).0 == d[i]->ForgetSeen_0;
                assert(t[k] == r[k]);
                assert(t[k].0 != t[n].0);
            }
            if j < n {
                assert(r[j] == t[j]);
                taken(t, j);
                if c.contains(x) {
                    let i = choose|i: int| 0 <= i < c.len() && c[i] == x;
                    assert(t[j].0 != t[n].0);
                    assert(i < d.len());
                    assert(d[i] == x);
                }
            } else {
                if c.len() > d.len() {
                    assert(c[d.len() as int] == x);
                }
                if c.contains(x) {
                    let i = choose|i: int| 0 <= i < c.len() && c[i] == x;
                    if i < d.len() {
                        assert(d[i] == x);
                    }
                }
            }
        }
    }
}

proof fn deliveries_forgotten(t: Seq<(Seq<char>, OutboxBody)>, now: i64)
    requires
        rows::distinct(t),
    ensures
        ({
            let c = store::stale_outbox(t, now, 256);
            let p = old_deliveries(now);
            &&& c.len() == if number(t, p) < 256 {
                number(t, p)
            } else {
                256
            }
            &&& forall|i: int|
                0 <= i < c.len() ==> #[trigger] c[i] is ForgetOutbox && named(t, c[i]->ForgetOutbox_0)
            &&& forall|j: int|
                0 <= j < t.len() ==> (c.contains(ChangeView::ForgetOutbox((#[trigger] t[j]).0))
                    <==> in_batch(t, p, j))
        }),
    decreases t.len(),
{
    let c = store::stale_outbox(t, now, 256);
    let p = old_deliveries(now);
    if t.len() > 0 {
        let r = t.drop_last();
        shorter(t);
        deliveries_forgotten(r, now);
        let d = store::stale_outbox(r, now, 256);
        let n = t.len() - 1;
        assert(r =~= t.take(n));
        assert forall|i: int| 0 <= i < c.len() implies #[trigger] c[i] is ForgetOutbox && named(
            t,
            c[i]->ForgetOutbox_0,
        ) by {
            if i < d.len() {
                assert(c[i] == d[i]);
                let k = choose|k: int|
                    0 <= k < r.len() && (#[trigger] r[k]).0 == d[i]->ForgetOutbox_0;
                assert(t[k] == r[k]);
            } else {
                assert(t[n].0 == c[i]->ForgetOutbox_0);
            }
        }
        assert forall|j: int| 0 <= j < t.len() implies (c.contains(
            ChangeView::ForgetOutbox((#[trigger] t[j]).0),
        ) <==> in_batch(t, p, j)) by {
            let x = ChangeView::ForgetOutbox(t[j].0);
            if d.contains(x) {
                let i = choose|i: int| 0 <= i < d.len() && d[i] == x;
                assert(c[i] == x);
                let k = choose|k: int|
                    0 <= k < r.len() && (#[trigger] r[k]).0 == d[i]->ForgetOutbox_0;
                assert(t[k] == r[k]);
                assert(t[k].0 != t[n].0);
            }
            if j < n {
                assert(r[j] == t[j]);
                taken(t, j);
                if c.contains(x) {
                    let i = choose|i: int| 0 <= i < c.len() && c[i] == x;
                    assert(t[j].0 != t[n].0);
                    assert(i < d.len());
                    assert(d[i] == x);
                }
            } else {
                if c.len() > d.len() {
                    assert(c[d.len() as int] == x);
                }
                if c.contains(x) {
                    let i = choose|i: int| 0 <= i < c.len() && c[i] == x;
                    if i < d.len() {
                        assert(d[i] == x);
                    }
                }
            }
        }
    }
}

spec fn forgets(c: ChangeView) -> bool {
    c is ForgetVerdict || c is ForgetSeen || c is ForgetOutbox
}

spec fn left<B>(before: Option<B>, gone: bool) -> Option<B> {
    if gone {
        None
    } else {
        before
    }
}

proof fn all_forgotten(s: StoreView, c: Seq<ChangeView>, key: Seq<char>)
    requires
        s.sound(),
        forall|i: int| 0 <= i < c.len() ==> forgets(#[trigger] c[i]),
    ensures
        ({
            let t = s.after(c);
            &&& t.sound()
            &&& rows::find(t.verdicts, key) == left(
                rows::find(s.verdicts, key),
                c.contains(ChangeView::ForgetVerdict(key)),
            )
            &&& rows::find(t.seen, key) == left(
                rows::find(s.seen, key),
                c.contains(ChangeView::ForgetSeen(key)),
            )
            &&& rows::find(t.outbox, key) == left(
                rows::find(s.outbox, key),
                c.contains(ChangeView::ForgetOutbox(key)),
            )
            &&& t.incidents == s.incidents && t.next == s.next
        }),
    decreases c.len(),
{
    if c.len() > 0 {
        let d = c.drop_last();
        let x = c.last();
        let n = c.len() - 1;
        assert forall|i: int| 0 <= i < d.len() implies forgets(#[trigger] d[i]) by {
            assert(d[i] == c[i]);
        }
        all_forgotten(s, d, key);
        assert(forgets(c[n]));
        assert forall|y: ChangeView| #[trigger] c.contains(y) <==> d.contains(y) || y == x by {
            if c.contains(y) {
                let i = choose|i: int| 0 <= i < c.len() && c[i] == y;
                if i < n {
                    assert(d[i] == y);
                }
            }
            if d.contains(y) {
                let i = choose|i: int| 0 <= i < d.len() && d[i] == y;
                assert(c[i] == y);
            }
            assert(c[n] == x);
        }
        assert(c.contains(ChangeView::ForgetVerdict(key)) || true);
        assert(c.contains(ChangeView::ForgetSeen(key)) || true);
        assert(c.contains(ChangeView::ForgetOutbox(key)) || true);
        let t = s.after(d);
        match x {
            ChangeView::ForgetVerdict(k) => rows::remove_then_find(t.verdicts, k, key),
            ChangeView::ForgetSeen(k) => rows::remove_then_find(t.seen, k, key),
            ChangeView::ForgetOutbox(k) => rows::remove_then_find(t.outbox, k, key),
            _ => {},
        }
    }
}

/// Maintenance forgets what has served its time, and nothing else: of each table the first 256 rows
/// among the verdicts whose time is over, the evidence that was seen a week ago and the
/// notifications that were delivered a week ago.
pub proof fn maintenance_forgets_what_has_served(s: StoreView, now: i64, i: int, j: int, k: int)
    requires
        s.sound(),
        0 <= i < s.verdicts.len(),
        0 <= j < s.seen.len(),
        0 <= k < s.outbox.len(),
    ensures
        ({
            let t = s.after(s.prune_changes(now));
            &&& in_batch(s.verdicts, over(now), i) ==> rows::find(
                t.verdicts,
                s.verdicts[i].0,
            ) is None
            &&& !in_batch(s.verdicts, over(now), i) ==> rows::find(t.verdicts, s.verdicts[i].0)
                == Some(s.verdicts[i].1)
            &&& in_batch(s.seen, old_evidence(now), j) ==> rows::find(t.seen, s.seen[j].0) is None
            &&& !in_batch(s.seen, old_evidence(now), j) ==> rows::find(t.seen, s.seen[j].0) == Some(
                s.seen[j].1,
            )
            &&& in_batch(s.outbox, old_deliveries(now), k) ==> rows::find(
                t.outbox,
                s.outbox[k].0,
            ) is None
            &&& !in_batch(s.outbox, old_deliveries(now), k) ==> rows::find(t.outbox, s.outbox[k].0)
                == Some(s.outbox[k].1)
            &&& t.incidents == s.incidents && t.next == s.next
        }),
{
    let a = store::stale_verdicts(s.verdicts, now, 256);
    let b = store::stale_seen(s.seen, now, 256);
    let c = store::stale_outbox(s.outbox, now, 256);
    let all = s.prune_changes(now);
    verdicts_forgotten(s.verdicts, now);
    evidence_forgotten(s.seen, now);
    deliveries_forgotten(s.outbox, now);
    assert(all =~= a + b + c);
    assert forall|n: int| 0 <= n < all.len() implies forgets(#[trigger] all[n]) by {
        if n < a.len() {
            assert(all[n] == a[n]);
        } else if n < a.len() + b.len() {
            assert(all[n] == b[n - a.len()]);
        } else {
            assert(all[n] == c[n - a.len() - b.len()]);
        }
    }
    assert forall|y: ChangeView| #[trigger]
        all.contains(y) <==> a.contains(y) || b.contains(y) || c.contains(y) by {
        if all.contains(y) {
            let n = choose|n: int| 0 <= n < all.len() && all[n] == y;
            if n < a.len() {
                assert(a[n] == y);
            } else if n < a.len() + b.len() {
                assert(b[n - a.len()] == y);
            } else {
                assert(c[n - a.len() - b.len()] == y);
            }
        }
        if a.contains(y) {
            let n = choose|n: int| 0 <= n < a.len() && a[n] == y;
            assert(all[n] == y);
        }
        if b.contains(y) {
            let n = choose|n: int| 0 <= n < b.len() && b[n] == y;
            assert(all[a.len() + n] == y);
        }
        if c.contains(y) {
            let n = choose|n: int| 0 <= n < c.len() && c[n] == y;
            assert(all[a.len() + b.len() + n] == y);
        }
    }
    found(s.verdicts, i);
    found(s.seen, j);
    found(s.outbox, k);
    all_forgotten(s, all, s.verdicts[i].0);
    all_forgotten(s, all, s.seen[j].0);
    all_forgotten(s, all, s.outbox[k].0);
}

}
