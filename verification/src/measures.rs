//! What the numbers of the library mean: how real numbers are ordered, and what bounds are kept.
use vstd::arithmetic::power2::{lemma_pow2_pos, lemma_pow2_strictly_increases, lemma_pow2_unfold, pow2};
use vstd::prelude::*;

use crate::controller::delivery;
use crate::controller::paths;
use crate::controller::paths::{FileIdView, Last, Step, Whole};
use crate::controller::policy::PolicyView;
use crate::ieee;
use crate::jev::{Category, Severity};

verus! {

/// The exponent that a pattern states.
pub open spec fn exponent(bits: u64) -> nat {
    ((bits as int % 0x8000_0000_0000_0000) / 0x10_0000_0000_0000) as nat
}

/// The fraction that a pattern states.
pub open spec fn fraction(bits: u64) -> nat {
    (bits as int % 0x10_0000_0000_0000) as nat
}

/// How large the number of a pattern is, without its sign, in units of the smallest number above
/// zero.
pub open spec fn magnitude(bits: u64) -> nat {
    let (e, f) = (exponent(bits), fraction(bits));
    if e == 0 {
        f
    } else {
        (0x10_0000_0000_0000 + f) * pow2((e - 1) as nat)
    }
}

/// The number of a pattern, in units of the smallest number above zero.
pub open spec fn value(bits: u64) -> int {
    if bits < 0x8000_0000_0000_0000 {
        magnitude(bits) as int
    } else {
        -(magnitude(bits) as int)
    }
}

/// Whether a pattern is that of a number or of an infinity.
pub open spec fn is_number(bits: u64) -> bool {
    exponent(bits) < 2047 || fraction(bits) == 0
}

proof fn larger_patterns_are_larger(p: u64, q: u64)
    requires
        p < q < 0x8000_0000_0000_0000,
    ensures
        magnitude(p) < magnitude(q),
{
    let (e, f) = (exponent(p), fraction(p));
    let (d, g) = (exponent(q), fraction(q));
    let m: int = 0x10_0000_0000_0000;
    assert(p as int == e * m + f && q as int == d * m + g);
    assert(0 <= f < m && 0 <= g < m);
    assert(e <= d);
    if e == d {
        assert(f < g);
        if e > 0 {
            let s = pow2((e - 1) as nat) as int;
            lemma_pow2_pos((e - 1) as nat);
            assert((m + f) * s < (m + g) * s) by (nonlinear_arith)
                requires
                    f < g,
                    s > 0,
            ;
        }
    } else {
        let t = pow2((d - 1) as nat) as int;
        lemma_pow2_pos((d - 1) as nat);
        assert((m + g) * t >= m * t) by (nonlinear_arith)
            requires
                g >= 0,
                t > 0,
        ;
        if e == 0 {
            assert(m * t >= m) by (nonlinear_arith)
                requires
                    m > 0,
                    t >= 1,
            ;
        } else {
            let s = pow2((e - 1) as nat) as int;
            lemma_pow2_pos((e - 1) as nat);
            lemma_pow2_unfold(e);
            if e < d - 1 {
                lemma_pow2_strictly_increases(e, (d - 1) as nat);
            }
            assert(t >= 2 * s);
            assert((m + f) * s < m * t) by (nonlinear_arith)
                requires
                    f < m,
                    m > 0,
                    s > 0,
                    t >= 2 * s,
            ;
        }
    }
}

/// The sign of a pattern does not count for its magnitude.
proof fn sign_apart(bits: u64)
    requires
        bits >= 0x8000_0000_0000_0000,
    ensures
        magnitude(bits) == magnitude((bits - 0x8000_0000_0000_0000) as u64),
        exponent(bits) == exponent((bits - 0x8000_0000_0000_0000) as u64),
        fraction(bits) == fraction((bits - 0x8000_0000_0000_0000) as u64),
{
}

/// Patterns are ordered as the numbers that they stand for, and what is no number is neither less
/// than anything nor more. The patterns from zero to one, the two zeros among them, are those whose
/// numbers are.
pub proof fn patterns_are_ordered_as_their_numbers(a: u64, b: u64)
    ensures
        ieee::less(a, b) <==> is_number(a) && is_number(b) && value(a) < value(b),
        ieee::at_most(a, b) <==> is_number(a) && is_number(b) && value(a) <= value(b),
        ieee::zero(a) <==> value(a) == 0,
        ieee::in_unit(a) <==> is_number(a) && 0 <= value(a) <= 0x10_0000_0000_0000 * pow2(1022),
{
    let top: u64 = 0x8000_0000_0000_0000;
    let x: u64 = if a < top {
        a
    } else {
        (a - top) as u64
    };
    let y: u64 = if b < top {
        b
    } else {
        (b - top) as u64
    };
    if a >= top {
        sign_apart(a);
    }
    if b >= top {
        sign_apart(b);
    }
    assert(magnitude(0) == 0);
    let one: u64 = 0x3ff0_0000_0000_0000;
    assert(exponent(one) == 1023 && fraction(one) == 0);
    assert(magnitude(one) == 0x10_0000_0000_0000 * pow2(1022));
    if x > 0 {
        larger_patterns_are_larger(0, x);
    }
    if y > 0 {
        larger_patterns_are_larger(0, y);
    }
    if x < y {
        larger_patterns_are_larger(x, y);
    } else if y < x {
        larger_patterns_are_larger(y, x);
    }
    if x < one {
        larger_patterns_are_larger(x, one);
    } else if one < x {
        larger_patterns_are_larger(one, x);
    }
    assert(ieee::is_nan(a) <==> !is_number(a));
    assert(ieee::is_nan(b) <==> !is_number(b));
}

/// In the total order numbers stand as they are ordered, negative zero before zero; and no two
/// patterns stand in one place.
pub proof fn the_total_order_is_total(a: u64, b: u64)
    ensures
        a != b ==> ieee::total_key(a) != ieee::total_key(b),
        ieee::less(a, b) ==> ieee::total_key(a) < ieee::total_key(b),
        is_number(a) && is_number(b) && ieee::total_key(a) < ieee::total_key(b) ==> value(a)
            <= value(b),
        ieee::total_key(0x8000_0000_0000_0000) < ieee::total_key(0),
{
    patterns_are_ordered_as_their_numbers(a, b);
}

/// A policy is valid where it lists categories and severities that are known, nine and five of them
/// at most, its least confidence is one, a notification is held back for a day at most and a
/// recurrence looked for in a week at most, and it escalates at the second occurrence at the
/// earliest, and no more than 32 times.
pub proof fn policies_are_valid_within_bounds(p: PolicyView)
    ensures
        p.valid() <==> {
            &&& p.categories.len() > 0 && p.categories.len() <= 9 && p.severities.len() > 0
                && p.severities.len() <= 5
            &&& forall|i: int|
                0 <= i < p.categories.len() ==> #[trigger] p.categories[i] != Category::Unknown
            &&& forall|i: int|
                0 <= i < p.severities.len() ==> #[trigger] p.severities[i] != Severity::Unknown
            &&& is_number(p.min_confidence.bits) && 0 <= value(p.min_confidence.bits)
                <= 0x10_0000_0000_0000 * pow2(1022)
            &&& 0 < p.cooldown_seconds <= 24 * 60 * 60
            &&& 0 < p.recurrence_window_seconds <= 7 * 24 * 60 * 60
            &&& 2 <= p.recurrence_count <= 100_000
            &&& 0 < p.max_escalation <= 32
        },
{
    patterns_are_ordered_as_their_numbers(p.min_confidence.bits, 0);
    if p.categories.contains(Category::Unknown) {
        let i = choose|i: int|
            0 <= i < p.categories.len() && p.categories[i] == Category::Unknown;
        assert(p.categories[i] == Category::Unknown);
    }
    if p.severities.contains(Severity::Unknown) {
        let i = choose|i: int|
            0 <= i < p.severities.len() && p.severities[i] == Severity::Unknown;
        assert(p.severities[i] == Severity::Unknown);
    }
}

/// Verdicts may be kept for a second at least and for a week at most.
pub proof fn verdicts_are_kept_within_bounds(ttl: i64)
    ensures
        delivery::ttl_allowed(ttl) <==> 0 < ttl && ttl <= 7 * 24 * 60 * 60,
{
}

/// Two paths are of one file where they are the same or the machine says so; a file that does not
/// exist is no other than the one of its own path. It does not matter which is held against which.
pub proof fn files_are_told_apart(a: FileIdView, b: FileIdView)
    ensures
        a.path == b.path ==> paths::same_file(a, b),
        a.node is Some && b.node is Some && a.node->Some_0 == b.node->Some_0 ==> paths::same_file(
            a,
            b,
        ),
        a.path != b.path && (a.node is None || b.node is None || a.node->Some_0 != b.node->Some_0)
            ==> !paths::same_file(a, b),
        paths::same_file(a, b) == paths::same_file(b, a),
        paths::same_file(a, a),
{
}

/// How a path is resolved: it is done where the file system resolves it; a link that leads nowhere is
/// followed, and a part that is missing is looked for in its directory; everything else fails, and so
/// does every path after 128 steps.
pub proof fn paths_are_resolved_step_by_step(depth: usize, whole: Whole, last: Last)
    ensures
        ({
            let s = paths::resolution(depth, whole, last);
            let early = depth <= 128;
            &&& s == Step::Done <==> early && whole == Whole::Resolved
            &&& s == Step::FollowLink <==> early && whole == Whole::Missing && last == Last::Link
            &&& s == Step::ResolveParent <==> early && whole == Whole::Missing && last
                == Last::Missing
            &&& s == Step::Fail <==> !early || whole == Whole::Unreadable || (whole
                == Whole::Missing && last == Last::Other)
        }),
{
}

}
