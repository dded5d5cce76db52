//! What asking the judging service costs and how often it is tried.
use vstd::prelude::*;

use crate::ieee;
use crate::ieee::RealView;
use crate::jev;
use crate::jev::{Failure, Next, Outcome, UsageView};
use crate::json;
use crate::json::JsonView;
use crate::text;

verus! {

/// Whether a response states how many tokens of a kind it took: a whole number that is not negative,
/// under its name in the object under `usage`.
pub open spec fn states(v: JsonView, kind: Seq<char>, n: u64) -> bool {
    v matches JsonView::Object(fields) && exists|usage: Seq<(Seq<char>, JsonView)>| #[trigger]
        states_in(fields, usage, kind, n)
}

pub open spec fn states_in(
    fields: Seq<(Seq<char>, JsonView)>,
    usage: Seq<(Seq<char>, JsonView)>,
    kind: Seq<char>,
    n: u64,
) -> bool {
    json::holds(fields, "usage"@, JsonView::Object(usage)) && exists|x: JsonView| #[trigger]
        json::holds(usage, kind, x) && is_count(x, n)
}

/// Whether a value is a whole number that is not negative.
pub open spec fn is_count(x: JsonView, n: u64) -> bool {
    x matches JsonView::Number(number) && number.unsigned == Some(n)
}

proof fn stated(v: JsonView, kind: Seq<char>)
    ensures
        forall|n: u64|
            #![auto]
            jev::stated_tokens(v, kind) == Some(n) <==> states(v, kind, n),
{
    match v {
        JsonView::Object(fields) => {
            json::lookups_find_what_is_held(fields, "usage"@);
            assert forall|n: u64|
                #![auto]
                jev::stated_tokens(v, kind) == Some(n) <==> states(v, kind, n) by {
                match json::lookup(fields, "usage"@) {
                    Some(JsonView::Object(usage)) => {
                        json::lookups_find_what_is_held(usage, kind);
                        assert(json::holds(fields, "usage"@, JsonView::Object(usage)));
                        if jev::stated_tokens(v, kind) == Some(n) {
                            let x = json::lookup(usage, kind)->Some_0;
                            assert(json::holds(usage, kind, x));
                            assert(states_in(fields, usage, kind, n));
                        }
                        if states(v, kind, n) {
                            let u = choose|u: Seq<(Seq<char>, JsonView)>| #[trigger]
                                states_in(fields, u, kind, n);
                            assert(json::lookup(fields, "usage"@) == Some(JsonView::Object(u)));
                            assert(u == usage);
                        }
                    },
                    Some(other) => {
                        if states(v, kind, n) {
                            let u = choose|u: Seq<(Seq<char>, JsonView)>| #[trigger]
                                states_in(fields, u, kind, n);
                            assert(json::lookup(fields, "usage"@) == Some(JsonView::Object(u)));
                        }
                    },
                    None => {
                        if states(v, kind, n) {
                            let u = choose|u: Seq<(Seq<char>, JsonView)>| #[trigger]
                                states_in(fields, u, kind, n);
                            assert(json::lookup(fields, "usage"@) == Some(JsonView::Object(u)));
                        }
                    },
                }
            }
        },
        _ => {},
    }
}

/// The tokens that a response states, none where it states none.
pub open spec fn tokens(v: JsonView, kind: Seq<char>) -> nat {
    if silent(v, kind) {
        0
    } else {
        (choose|n: u64| states(v, kind, n)) as nat
    }
}

/// Whether a response does not state how many tokens of a kind it took.
pub open spec fn silent(v: JsonView, kind: Seq<char>) -> bool {
    forall|n: u64| !states(v, kind, n)
}

proof fn stated_once(v: JsonView, kind: Seq<char>)
    ensures
        match jev::stated_tokens(v, kind) {
            Some(n) => !silent(v, kind) && tokens(v, kind) == n,
            None => silent(v, kind),
        },
{
    stated(v, kind);
    match jev::stated_tokens(v, kind) {
        Some(n) => {
            assert(states(v, kind, n));
            let m = choose|m: u64| states(v, kind, m);
            assert(states(v, kind, m));
        },
        None => {
            assert forall|n: u64| !states(v, kind, n) by {
                assert(jev::stated_tokens(v, kind) != Some(n));
            }
        },
    }
}

/// The tokens of a kind that all responses state together.
pub open spec fn total(responses: Seq<JsonView>, kind: Seq<char>) -> nat
    decreases responses.len(),
{
    if responses.len() == 0 {
        0
    } else {
        total(responses.drop_last(), kind) + tokens(responses.last(), kind)
    }
}

/// How many responses do not state their tokens of a kind.
pub open spec fn silences(responses: Seq<JsonView>, kind: Seq<char>) -> nat
    decreases responses.len(),
{
    if responses.len() == 0 {
        0
    } else {
        silences(responses.drop_last(), kind) + if silent(responses.last(), kind) {
            1nat
        } else {
            0nat
        }
    }
}

/// The usage after responses, one after the other.
pub open spec fn counted(u: UsageView, responses: Seq<JsonView>) -> UsageView
    decreases responses.len(),
{
    if responses.len() == 0 {
        u
    } else {
        counted(u, responses.drop_last()).recorded(responses.last())
    }
}

/// The accounts are true: after any number of responses every one is counted, with the tokens that
/// it states and with those that it does not; and the cost is called complete exactly where every
/// request was answered, every answer states its input, and every answer states its output or that
/// is free.
pub proof fn the_accounts_are_true(
    input: RealView,
    output: RealView,
    attempts: u64,
    responses: Seq<JsonView>,
)
    requires
        responses.len() < u64::MAX,
    ensures
        ({
            let fresh = UsageView {
                request_attempts: attempts,
                ..UsageView::fresh(input, output)
            };
            let u = counted(fresh, responses);
            let (ins, outs) = ("input_tokens"@, "output_tokens"@);
            &&& u.request_attempts == attempts
            &&& u.requests_finished == responses.len()
            &&& u.unmetered_requests == silences(responses, ins)
            &&& u.metered_requests == responses.len() - silences(responses, ins)
            &&& u.missing_output_usage == silences(responses, outs)
            &&& u.input_tokens == at_most(total(responses, ins))
            &&& u.output_tokens == at_most(total(responses, outs))
            &&& u.input_usd_per_million == input && u.output_usd_per_million == output
            &&& responses.len() > 0 ==> (u.cost_complete <==> attempts == responses.len()
                && silences(responses, ins) == 0 && (ieee::zero(output.bits) || silences(
                responses,
                outs,
            ) == 0))
            &&& silences(responses, ins) <= responses.len()
            &&& silences(responses, outs) <= responses.len()
        }),
    decreases responses.len(),
{
    if responses.len() > 0 {
        let v = responses.last();
        the_accounts_are_true(input, output, attempts, responses.drop_last());
        stated_once(v, "input_tokens"@);
        stated_once(v, "output_tokens"@);
    }
}

/// A number, but no more than can be counted to.
pub open spec fn at_most(n: nat) -> nat {
    if n < u64::MAX {
        n
    } else {
        u64::MAX as nat
    }
}

/// Whether a status says that the service is busy or has failed for now.
pub open spec fn passing(status: u16) -> bool {
    status == 429 || (500 <= status <= 504 && status != 501)
}

/// A request is tried again exactly where the service answers that it is busy or has failed for
/// now, and twice at most: after a second, and after two more. A good answer is passed on as it is,
/// every other one by its status alone, and no answer by its reason.
pub proof fn requests_are_tried_again_while_it_passes(outcome: Outcome, attempt: u32, next: Next)
    requires
        attempt < 3,
        jev::follows(outcome, attempt, next),
    ensures
        next is Retry <==> (outcome matches Outcome::Response { status, raw } && passing(status)
            && attempt < 2),
        next matches Next::Retry { seconds } ==> seconds == attempt + 1,
        next matches Next::Finish(Ok(body)) ==> (outcome matches Outcome::Response { status, raw }
            && status / 100 == 2 && body@ == raw@),
        outcome matches Outcome::Response { status, raw } ==> (status / 100 == 2 ==> next
            matches Next::Finish(Ok(body))),
        next matches Next::Finish(Err(e)) ==> match outcome {
            Outcome::Response { status, raw } => e@ == "Jev HTTP "@ + text::decimal(status as nat)
                && status / 100 != 2,
            Outcome::Failed(Failure::Stopped) => e@ == "Analysis stopped during request"@,
            Outcome::Failed(Failure::Network) => e@ == "Jev network/TLS/timeout failure"@,
            Outcome::Failed(Failure::TooLarge) => e@ == "Jev response exceeds 1 MiB"@,
        },
{
}

}
