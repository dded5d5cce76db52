//! What the controller tells of itself: true counts, and answers without any evidence.
use vstd::prelude::*;

use crate::controller::delivery;
use crate::controller::health;
use crate::controller::policy::Decision;
use crate::controller::sink;
use crate::controller::store::Applied;
use crate::json;
use crate::json::JsonView;
use crate::report;
use crate::report::MetricsView;
use crate::text;
use crate::wire;

verus! {

/// How many pieces of evidence had an outcome of a kind.
pub open spec fn outcomes(all: Seq<Applied>, p: spec_fn(Applied) -> bool) -> nat
    decreases all.len(),
{
    if all.len() == 0 {
        0
    } else {
        outcomes(all.drop_last(), p) + if p(all.last()) {
            1nat
        } else {
            0nat
        }
    }
}

proof fn no_more_than_all(all: Seq<Applied>, p: spec_fn(Applied) -> bool)
    ensures
        outcomes(all, p) <= all.len(),
    decreases all.len(),
{
    if all.len() > 0 {
        no_more_than_all(all.drop_last(), p);
    }
}

/// The counts after the outcomes of evidence, one after the other.
pub open spec fn after_all(m: MetricsView, all: Seq<Applied>) -> MetricsView
    decreases all.len(),
{
    if all.len() == 0 {
        m
    } else {
        after_all(m, all.drop_last()).with_applied(all.last())
    }
}

/// Evidence is counted by what came of it: as a duplicate, as a notification, and by what was
/// decided on it; and nothing else is counted.
pub proof fn evidence_is_counted_by_its_outcome(m: MetricsView, all: Seq<Applied>)
    requires
        m.novelty_duplicates + all.len() <= u64::MAX,
        m.notifications_enqueued + all.len() <= u64::MAX,
        m.policy_notify + all.len() <= u64::MAX,
        m.policy_review + all.len() <= u64::MAX,
        m.policy_abstain + all.len() <= u64::MAX,
        m.policy_ignore + all.len() <= u64::MAX,
    ensures
        ({
            let n = after_all(m, all);
            &&& n.novelty_duplicates == m.novelty_duplicates + outcomes(
                all,
                |a: Applied| a.duplicate,
            )
            &&& n.notifications_enqueued == m.notifications_enqueued + outcomes(
                all,
                |a: Applied| a.enqueued,
            )
            &&& n.policy_notify == m.policy_notify + outcomes(
                all,
                |a: Applied| a.decision == Some(Decision::Notify),
            )
            &&& n.policy_review == m.policy_review + outcomes(
                all,
                |a: Applied| a.decision == Some(Decision::Review),
            )
            &&& n.policy_abstain == m.policy_abstain + outcomes(
                all,
                |a: Applied| a.decision == Some(Decision::Abstain),
            )
            &&& n.policy_ignore == m.policy_ignore + outcomes(
                all,
                |a: Applied| a.decision == Some(Decision::Ignore),
            )
            &&& m == (MetricsView {
                novelty_duplicates: m.novelty_duplicates,
                notifications_enqueued: m.notifications_enqueued,
                policy_notify: m.policy_notify,
                policy_review: m.policy_review,
                policy_abstain: m.policy_abstain,
                policy_ignore: m.policy_ignore,
                ..n
            })
        }),
    decreases all.len(),
{
    if all.len() > 0 {
        evidence_is_counted_by_its_outcome(m, all.drop_last());
        let r = all.drop_last();
        no_more_than_all(r, |a: Applied| a.duplicate);
        no_more_than_all(r, |a: Applied| a.enqueued);
        no_more_than_all(r, |a: Applied| a.decision == Some(Decision::Notify));
        no_more_than_all(r, |a: Applied| a.decision == Some(Decision::Review));
        no_more_than_all(r, |a: Applied| a.decision == Some(Decision::Abstain));
        no_more_than_all(r, |a: Applied| a.decision == Some(Decision::Ignore));
    }
}

/// How many events were handed to the queue and found no place.
pub open spec fn lost(sent: Seq<(bool, usize)>) -> nat
    decreases sent.len(),
{
    if sent.len() == 0 {
        0
    } else {
        lost(sent.drop_last()) + if sent.last().0 {
            0nat
        } else {
            1nat
        }
    }
}

/// The counts after events were handed to the queue, one after the other.
pub open spec fn after_sending(m: MetricsView, sent: Seq<(bool, usize)>) -> MetricsView
    decreases sent.len(),
{
    if sent.len() == 0 {
        m
    } else {
        after_sending(m, sent.drop_last()).queued(sent.last().0, sent.last().1)
    }
}

/// Events are counted as they come: every one that is received, every one that is dropped, how many
/// places of the queue are taken now, and how many were taken at most.
pub proof fn events_are_counted_as_they_come(m: MetricsView, sent: Seq<(bool, usize)>)
    requires
        m.received + sent.len() <= u64::MAX,
        m.dropped + sent.len() <= u64::MAX,
    ensures
        ({
            let n = after_sending(m, sent);
            &&& lost(sent) <= sent.len()
            &&& n.received == m.received + sent.len()
            &&& n.dropped == m.dropped + lost(sent)
            &&& sent.len() > 0 ==> n.queue_depth == sent.last().1
            &&& m.queue_high_water <= n.queue_high_water
            &&& forall|i: int|
                0 <= i < sent.len() ==> (#[trigger] sent[i]).1 <= n.queue_high_water
            &&& n.queue_high_water == m.queue_high_water || exists|i: int|
                0 <= i < sent.len() && (#[trigger] sent[i]).1 == n.queue_high_water
            &&& m == (MetricsView {
                received: m.received,
                dropped: m.dropped,
                queue_depth: m.queue_depth,
                queue_high_water: m.queue_high_water,
                ..n
            })
        }),
    decreases sent.len(),
{
    if sent.len() > 0 {
        let r = sent.drop_last();
        events_are_counted_as_they_come(m, r);
        let before = after_sending(m, r);
        assert forall|i: int| 0 <= i < r.len() implies (#[trigger] sent[i]) == r[i] by {}
        assert(sent[sent.len() - 1] == sent.last());
        if before.queue_high_water != m.queue_high_water {
            let i = choose|i: int|
                0 <= i < r.len() && (#[trigger] r[i]).1 == before.queue_high_water;
            assert(sent[i] == r[i]);
        }
    }
}

/// Where notifications may be sent: to an address over TLS, or to this machine itself in a local
/// trial, with neither a user nor a password nor a fragment in it; and with a token that can stand
/// in a header, if with any. What is wrong is said, an address before a token.
pub proof fn endpoints_are_refused_for_a_reason(
    url: Seq<char>,
    token: Option<Seq<char>>,
    local_test: bool,
)
    ensures
        ({
            let here = |host: Option<Seq<char>>| host == Some("127.0.0.1"@) || host == Some("[::1]"@);
            let e = sink::endpoint_error(url, token, local_test);
            match wire::address_of(url) {
                None => e == Some("Invalid webhook URL"@),
                Some(a) => {
                    let secure = a.scheme == "https"@ || (local_test && a.scheme == "http"@ && here(
                        a.host,
                    ));
                    let bare = a.username.len() == 0 && !a.password && !a.fragment;
                    &&& !(secure && bare) ==> e == Some(
                        "Webhook requires HTTPS without userinfo or fragment"@,
                    )
                    &&& secure && bare ==> match token {
                        Some(t) => if wire::header_text(wire::bearer(t)) {
                            e is None
                        } else {
                            e == Some("Invalid webhook token"@)
                        },
                        None => e is None,
                    }
                },
            }
        }),
{
}

/// Whether a text begins with another.
pub open spec fn begins(t: Seq<char>, start: Seq<char>) -> bool {
    start.len() <= t.len() && t.subrange(0, start.len() as int) == start
}

/// What the health listener answers: it is alive whenever it answers at all, it is ready while the
/// controller is, its counts are those of the controller, and it knows nothing else.
pub proof fn health_is_told_as_it_is(request: Seq<char>, ready: bool, m: MetricsView)
    ensures
        ({
            let (status, body) = health::answered(request, ready, m);
            let live = begins(request, "GET /livez HTTP/1."@);
            let asks = begins(request, "GET /readyz HTTP/1."@);
            let counts = begins(request, "GET /metrics HTTP/1."@);
            &&& live ==> status == 200 && body == "live\n"@
            &&& asks && !live ==> (if ready {
                status == 200 && body == "ready\n"@
            } else {
                status == 503 && body == "collection stopped or state unavailable\n"@
            })
            &&& counts && !asks && !live ==> status == 200 && body == health::metrics_text(m, ready)
            &&& !counts && !asks && !live ==> status == 404 && body == "not found\n"@
        }),
{
    begins_is_prefix(request, "GET /livez HTTP/1."@);
    begins_is_prefix(request, "GET /readyz HTTP/1."@);
    begins_is_prefix(request, "GET /metrics HTTP/1."@);
}

proof fn begins_is_prefix(t: Seq<char>, start: Seq<char>)
    ensures
        begins(t, start) == start.is_prefix_of(t),
{
}

/// Whether a text holds another as a part.
pub open spec fn part_of(t: Seq<char>, part: Seq<char>) -> bool {
    exists|a: Seq<char>, b: Seq<char>| #[trigger] parted(t, a, part, b)
}

pub open spec fn parted(t: Seq<char>, a: Seq<char>, part: Seq<char>, b: Seq<char>) -> bool {
    t == a + part + b
}

proof fn every_line(fields: Seq<(Seq<char>, JsonView)>, k: int)
    requires
        0 <= k < fields.len(),
        fields[k].1 is Number,
    ensures
        part_of(
            health::metric_lines(fields),
            "jevernetes_"@ + fields[k].0 + " "@ + json::json_text(fields[k].1) + "\n"@,
        ),
    decreases fields.len(),
{
    let line = "jevernetes_"@ + fields[k].0 + " "@ + json::json_text(fields[k].1) + "\n"@;
    let r = fields.drop_last();
    let t = health::metric_lines(fields);
    if k < r.len() {
        every_line(r, k);
        assert(r[k] == fields[k]);
        let (a, b) = choose|a: Seq<char>, b: Seq<char>| #[trigger]
            parted(health::metric_lines(r), a, line, b);
        let more = health::metric_line(fields.last().0, fields.last().1);
        assert(t =~= a + line + (b + more));
        assert(parted(t, a, line, b + more));
    } else {
        assert(t =~= health::metric_lines(r) + line + seq![]);
        assert(parted(t, health::metric_lines(r), line, seq![]));
    }
}

/// Every count has its own line, with its name and its value, and so has whether the controller is
/// ready. Coverage is never claimed to be complete.
pub proof fn counts_are_told_line_by_line(m: MetricsView, ready: bool, k: int)
    requires
        0 <= k < report::metrics_fields(m).len(),
    ensures
        ({
            let f = report::metrics_fields(m);
            let t = health::metrics_text(m, ready);
            &&& part_of(t, "jevernetes_"@ + f[k].0 + " "@ + json::json_text(f[k].1) + "\n"@)
            &&& part_of(t, "jevernetes_state_ready "@ + (if ready {
                "1\n"@
            } else {
                "0\n"@
            }))
            &&& part_of(t, "jevernetes_coverage_complete 0\n"@)
        }),
{
    let f = report::metrics_fields(m);
    let t = health::metrics_text(m, ready);
    let lines = health::metric_lines(f);
    let line = "jevernetes_"@ + f[k].0 + " "@ + json::json_text(f[k].1) + "\n"@;
    let state = "jevernetes_state_ready "@ + (if ready {
        "1\n"@
    } else {
        "0\n"@
    });
    let cover = "jevernetes_coverage_complete 0\n"@;
    assert(f[k].1 is Number);
    every_line(f, k);
    let (a, b) = choose|a: Seq<char>, b: Seq<char>| #[trigger] parted(lines, a, line, b);
    assert(t =~= a + line + (b + state + cover));
    assert(parted(t, a, line, b + state + cover));
    assert(t =~= lines + state + cover);
    assert(parted(t, lines, state, cover));
    assert(t =~= (lines + state) + cover + seq![]);
    assert(parted(t, lines + state, cover, seq![]));
}

/// Whether a character is a hexadecimal digit in lower case.
pub open spec fn lower_hex(c: char) -> bool {
    '0' as int <= c as int <= '9' as int || 'a' as int <= c as int <= 'f' as int
}

proof fn digits_tell(a: Seq<char>, b: Seq<char>)
    requires
        a.len() == b.len(),
        forall|i: int| 0 <= i < a.len() ==> lower_hex(#[trigger] a[i]),
        forall|i: int| 0 <= i < b.len() ==> lower_hex(#[trigger] b[i]),
    ensures
        delivery::hex_value(a) == delivery::hex_value(b) ==> a == b,
        (forall|i: int| 0 <= i < a.len() ==> text::ascii_hex(#[trigger] a[i])),
    decreases a.len(),
{
    if a.len() > 0 {
        assert(lower_hex(a[a.len() - 1]) && lower_hex(b[b.len() - 1]));
        let (x, y) = (a.drop_last(), b.drop_last());
        assert forall|i: int| 0 <= i < x.len() implies lower_hex(#[trigger] x[i]) by {
            assert(x[i] == a[i]);
        }
        assert forall|i: int| 0 <= i < y.len() implies lower_hex(#[trigger] y[i]) by {
            assert(y[i] == b[i]);
        }
        digits_tell(x, y);
        assert forall|i: int| 0 <= i < a.len() implies text::ascii_hex(#[trigger] a[i]) by {
            if i < x.len() {
                assert(x[i] == a[i]);
            }
        }
        assert(a.last() == a[a.len() - 1] && b.last() == b[b.len() - 1]);
        if delivery::hex_value(a) == delivery::hex_value(b) {
            assert(delivery::hex_digit(a.last()) < 16 && delivery::hex_digit(b.last()) < 16);
            assert(delivery::hex_digit(a.last()) == delivery::hex_digit(b.last()));
            assert(x == y);
            assert(a =~= x.push(a.last()));
            assert(b =~= y.push(b.last()));
            assert(a =~= b);
        }
    }
}

/// The spread of a notification's retries goes by the first eight digits of its name, read as one
/// number: two names that differ there have different numbers, what stands behind them does not
/// matter, and a name that does not begin with digits counts as zero.
pub proof fn names_are_spread_by_their_digits(a: Seq<char>, b: Seq<char>)
    requires
        a.len() >= 8,
        b.len() >= 8,
        forall|i: int| 0 <= i < 8 ==> lower_hex(#[trigger] a[i]),
        forall|i: int| 0 <= i < 8 ==> lower_hex(#[trigger] b[i]),
    ensures
        delivery::leading_number(a) == delivery::leading_number(b) <==> a.subrange(0, 8)
            == b.subrange(0, 8),
        delivery::leading_number(a.update(7, '0')) + delivery::leading_number(
            "00000000"@.update(7, a[7]),
        ) == delivery::leading_number(a),
{
    let (x, y) = (a.take(8), b.take(8));
    assert(x =~= a.subrange(0, 8) && y =~= b.subrange(0, 8));
    assert(forall|i: int| 0 <= i < 8 ==> lower_hex(#[trigger] x[i])) by {
        assert(forall|i: int| 0 <= i < 8 ==> x[i] == a[i]);
    }
    assert(forall|i: int| 0 <= i < 8 ==> lower_hex(#[trigger] y[i])) by {
        assert(forall|i: int| 0 <= i < 8 ==> y[i] == b[i]);
    }
    digits_tell(x, y);
    digits_tell(y, x);
    assert(x[0] != '+' && y[0] != '+') by {
        assert(lower_hex(x[0]) && lower_hex(y[0]));
    }
    assert(delivery::hex_number(x) == delivery::hex_value(x));
    assert(delivery::hex_number(y) == delivery::hex_value(y));
    let z = a.update(7, '0').take(8);
    reveal_strlit("00000000");
    let o = "00000000"@.update(7, a[7]).take(8);
    assert(z.drop_last() =~= x.drop_last());
    assert(z.last() == '0' && x.last() == a[7] && o.last() == a[7]);
    assert(forall|i: int| 0 <= i < 8 ==> lower_hex(#[trigger] z[i])) by {
        assert(forall|i: int| 0 <= i < 7 ==> z[i] == a[i]);
    }
    assert(forall|i: int| 0 <= i < 8 ==> lower_hex(#[trigger] o[i])) by {
        assert(forall|i: int| 0 <= i < 7 ==> o[i] == '0');
        assert(lower_hex(a[7]));
        assert(o[7] == a[7]);
    }
    digits_tell(z, z);
    digits_tell(o, o);
    assert(z[0] != '+' && o[0] != '+') by {
        assert(lower_hex(z[0]) && lower_hex(o[0]));
    }
    zeros(o.drop_last());
}

proof fn zeros(s: Seq<char>)
    requires
        forall|i: int| 0 <= i < s.len() ==> #[trigger] s[i] == '0',
    ensures
        delivery::hex_value(s) == 0,
    decreases s.len(),
{
    if s.len() > 0 {
        let r = s.drop_last();
        assert(forall|i: int| 0 <= i < r.len() ==> r[i] == s[i]);
        zeros(r);
        assert(s.last() == s[s.len() - 1]);
    }
}

}
