//! What the controller counts, and how it paces the delivery of notifications.
use vstd::prelude::*;

use crate::controller::policy::{Decision, Policy};
use crate::controller::store::{Applied, Lookup};
use crate::report::{Metrics, MetricsView};
use crate::text;

verus! {

/// How often the delivery of a notification is tried.
pub const MAX_ATTEMPTS: u32 = 8;

/// How many seconds lie between two deliveries at least.
pub const INTERVAL: i64 = 1;

/// Whether verdicts may be kept for so many seconds.
pub open spec fn ttl_allowed(ttl: i64) -> bool {
    1 <= ttl <= 604800
}

/// Checks the terms on which a controller works.
pub fn check_terms(policy: &Policy, ttl: i64) -> (r: Result<(), &'static str>)
    ensures
        match r {
            Ok(()) => policy@.valid() && ttl_allowed(ttl),
            Err(e) => if !policy@.valid() {
                e@ == "Invalid controller policy"@
            } else {
                !ttl_allowed(ttl) && e@ == "Verdict TTL must be 1..604800 seconds"@
            },
        },
{
    match policy.validate() {
        Ok(()) => {},
        Err(e) => {
            return Err(e);
        },
    }
    if ttl < 1 || ttl > 604800 {
        return Err("Verdict TTL must be 1..604800 seconds");
    }
    Ok(())
}

/// Counts the answer to a lookup.
pub fn count_lookup(metrics: &mut Metrics, found: &Lookup)
    requires
        old(metrics)@.verdict_hits < u64::MAX,
        old(metrics)@.verdict_misses < u64::MAX,
        old(metrics)@.verdict_expirations < u64::MAX,
    ensures
        final(metrics)@ == (match found {
            Lookup::Hit(_) => MetricsView {
                verdict_hits: (old(metrics)@.verdict_hits + 1) as u64,
                ..old(metrics)@
            },
            Lookup::Miss => MetricsView {
                verdict_misses: (old(metrics)@.verdict_misses + 1) as u64,
                ..old(metrics)@
            },
            Lookup::Expired => MetricsView {
                verdict_expirations: (old(metrics)@.verdict_expirations + 1) as u64,
                verdict_misses: (old(metrics)@.verdict_misses + 1) as u64,
                ..old(metrics)@
            },
        }),
{
    match found {
        Lookup::Hit(_) => {
            metrics.verdict_hits = metrics.verdict_hits + 1;
        },
        Lookup::Miss => {
            metrics.verdict_misses = metrics.verdict_misses + 1;
        },
        Lookup::Expired => {
            metrics.verdict_expirations = metrics.verdict_expirations + 1;
            metrics.verdict_misses = metrics.verdict_misses + 1;
        },
    }
}

impl MetricsView {
    /// Whether what came of one more piece of evidence can be counted.
    pub open spec fn evidence_countable(self) -> bool {
        &&& self.novelty_duplicates < u64::MAX
        &&& self.notifications_enqueued < u64::MAX
        &&& self.policy_review < u64::MAX
        &&& self.policy_abstain < u64::MAX
        &&& self.policy_notify < u64::MAX
        &&& self.policy_ignore < u64::MAX
    }

    /// The counts with what came of a piece of evidence.
    pub open spec fn with_applied(self, a: Applied) -> MetricsView {
        let m = MetricsView {
            novelty_duplicates: if a.duplicate {
                (self.novelty_duplicates + 1) as u64
            } else {
                self.novelty_duplicates
            },
            notifications_enqueued: if a.enqueued {
                (self.notifications_enqueued + 1) as u64
            } else {
                self.notifications_enqueued
            },
            ..self
        };
        match a.decision {
            Some(Decision::Review) => MetricsView {
                policy_review: (m.policy_review + 1) as u64,
                ..m
            },
            Some(Decision::Abstain) => MetricsView {
                policy_abstain: (m.policy_abstain + 1) as u64,
                ..m
            },
            Some(Decision::Notify) => MetricsView {
                policy_notify: (m.policy_notify + 1) as u64,
                ..m
            },
            Some(Decision::Ignore) => MetricsView {
                policy_ignore: (m.policy_ignore + 1) as u64,
                ..m
            },
            None => m,
        }
    }
}

/// Counts what came of a piece of evidence.
pub fn count_applied(metrics: &mut Metrics, applied: &Applied)
    requires
        old(metrics)@.evidence_countable(),
    ensures
        final(metrics)@ == old(metrics)@.with_applied(*applied),
{
    if applied.duplicate {
        metrics.novelty_duplicates = metrics.novelty_duplicates + 1;
    }
    if applied.enqueued {
        metrics.notifications_enqueued = metrics.notifications_enqueued + 1;
    }
    match applied.decision {
        Some(Decision::Review) => {
            metrics.policy_review = metrics.policy_review + 1;
        },
        Some(Decision::Abstain) => {
            metrics.policy_abstain = metrics.policy_abstain + 1;
        },
        Some(Decision::Notify) => {
            metrics.policy_notify = metrics.policy_notify + 1;
        },
        Some(Decision::Ignore) => {
            metrics.policy_ignore = metrics.policy_ignore + 1;
        },
        None => {},
    }
}

/// Counts an attempt to deliver a notification that begins.
pub fn begin_attempt(metrics: &mut Metrics)
    requires
        old(metrics)@.notification_attempts < u64::MAX,
    ensures
        final(metrics)@ == (MetricsView {
            notification_attempts: (old(metrics)@.notification_attempts + 1) as u64,
            ..old(metrics)@
        }),
{
    metrics.notification_attempts = metrics.notification_attempts + 1;
}

/// Counts how an attempt to deliver a notification ended.
pub fn count_attempt(metrics: &mut Metrics, success: bool)
    requires
        old(metrics)@.notification_delivered < u64::MAX,
        old(metrics)@.notification_failures < u64::MAX,
    ensures
        final(metrics)@ == (if success {
            MetricsView {
                notification_delivered: (old(metrics)@.notification_delivered + 1) as u64,
                ..old(metrics)@
            }
        } else {
            MetricsView {
                notification_failures: (old(metrics)@.notification_failures + 1) as u64,
                ..old(metrics)@
            }
        }),
{
    if success {
        metrics.notification_delivered = metrics.notification_delivered + 1;
    } else {
        metrics.notification_failures = metrics.notification_failures + 1;
    }
}

/// When maintenance is due.
pub struct Upkeep {
    pub due: i64,
}

impl Upkeep {
    pub fn new() -> (r: Self)
        ensures
            r.due == 0,
    {
        Upkeep { due: 0 }
    }

    /// Whether maintenance is due at a time. If so, it is due again in a minute.
    pub fn is_due(&mut self, now: i64) -> (r: bool)
        requires
            now + 60 <= i64::MAX,
        ensures
            r == (now >= old(self).due),
            final(self).due == (if now >= old(self).due {
                now + 60
            } else {
                old(self).due as int
            }),
    {
        if now >= self.due {
            self.due = now + 60;
            true
        } else {
            false
        }
    }
}

/// How many seconds to wait until a time: one at least.
pub fn pause(due: i64, now: i64) -> (r: u64)
    ensures
        r == (if due - now < 1 {
            1
        } else {
            due - now
        }),
{
    let gap: i128 = due as i128 - now as i128;
    if gap < 1 {
        1
    } else {
        gap as u64
    }
}

/// The value of a hexadecimal digit.
pub open spec fn hex_digit(c: char) -> nat {
    let n = c as int;
    if text::ascii_digit(c) {
        (n - '0' as int) as nat
    } else if 'a' as int <= n <= 'f' as int {
        (n - 'a' as int + 10) as nat
    } else {
        (n - 'A' as int + 10) as nat
    }
}

/// The value of hexadecimal digits.
pub open spec fn hex_value(s: Seq<char>) -> nat
    decreases s.len(),
{
    if s.len() == 0 {
        0
    } else {
        hex_value(s.drop_last()) * 16 + hex_digit(s.last())
    }
}

/// The number that up to eight hexadecimal digits, with a plus sign before them or not, denote; zero
/// where they denote none.
pub open spec fn hex_number(s: Seq<char>) -> nat {
    let digits = without_plus(s);
    if digits.len() > 0 && all_hex(digits) {
        hex_value(digits)
    } else {
        0
    }
}

pub open spec fn without_plus(s: Seq<char>) -> Seq<char> {
    if s.len() > 0 && s[0] == '+' {
        s.drop_first()
    } else {
        s
    }
}

pub open spec fn all_hex(s: Seq<char>) -> bool {
    forall|i: int| 0 <= i < s.len() ==> text::ascii_hex(#[trigger] s[i])
}

/// The number that the first eight characters of a name denote; zero where it has fewer.
pub open spec fn leading_number(id: Seq<char>) -> nat {
    if id.len() < 8 {
        0
    } else {
        hex_number(id.take(8))
    }
}

fn read_hex(c: char) -> (r: Option<u64>)
    ensures
        match r {
            Some(n) => text::ascii_hex(c) && n == hex_digit(c) && n < 16,
            None => !text::ascii_hex(c),
        },
{
    if '0' <= c && c <= '9' {
        Some((c as u32 - '0' as u32) as u64)
    } else if 'a' <= c && c <= 'f' {
        Some((c as u32 - 'a' as u32 + 10) as u64)
    } else if 'A' <= c && c <= 'F' {
        Some((c as u32 - 'A' as u32 + 10) as u64)
    } else {
        None
    }
}

fn leading(id: &str) -> (r: u64)
    ensures
        r == leading_number(id@),
        r < 0x1_0000_0000,
{
    let v = text::chars(id);
    if v.len() < 8 {
        return 0;
    }
    let ghost head = id@.take(8);
    let from: usize = if v[0] == '+' {
        1
    } else {
        0
    };
    let ghost digits = without_plus(head);
    assert(digits =~= v@.subrange(from as int, 8));
    let mut n: u64 = 0;
    let mut i: usize = from;
    assert(digits.take(0) =~= seq![]);
    let ghost mut most: int = 1;
    while i < 8
        invariant
            from <= i <= 8,
            from <= 1,
            v@.len() >= 8,
            v@ == id@,
            digits == v@.subrange(from as int, 8),
            head == id@.take(8),
            digits == without_plus(head),
            digits.len() == 8 - from,
            n == hex_value(digits.take(i - from)),
            n < most,
            most == (if i - from == 0 {
                1int
            } else if i - from == 1 {
                0x10
            } else if i - from == 2 {
                0x100
            } else if i - from == 3 {
                0x1000
            } else if i - from == 4 {
                0x1_0000
            } else if i - from == 5 {
                0x10_0000
            } else if i - from == 6 {
                0x100_0000
            } else if i - from == 7 {
                0x1000_0000
            } else {
                0x1_0000_0000
            }),
            forall|k: int| 0 <= k < i - from ==> text::ascii_hex(#[trigger] digits[k]),
        decreases 8 - i,
    {
        assert(digits[i - from] == v@[i as int]);
        let d = match read_hex(v[i]) {
            Some(d) => d,
            None => {
                assert(!text::ascii_hex(digits[i - from]));
                assert(!all_hex(digits));
                return 0;
            },
        };
        assert(digits.take(i - from + 1).drop_last() =~= digits.take(i - from));
        n = n * 16 + d;
        proof {
            most = most * 16;
        }
        i += 1;
    }
    assert(digits.take(8 - from) =~= digits);
    n
}

/// The spread of the retries of a notification: the same for the same notification and attempt, so
/// that the schedule can be replayed, and different for different ones.
pub open spec fn spread(id: Seq<char>, attempts: u32) -> u64 {
    (leading_number(id) as u64) ^ (attempts as u64)
}

pub fn jitter(id: &str, attempts: u32) -> (r: u64)
    ensures
        r == spread(id@, attempts),
{
    leading(id) ^ (attempts as u64)
}

}
