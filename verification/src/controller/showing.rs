//! What an inspection shows: the state as it is, the latest incidents first, and why nothing is shown.
use vstd::prelude::*;

use crate::controller::inspect;
use crate::controller::inspect::{DetailView, IncidentView, Refusal, RouteView};
use crate::controller::store;
use crate::controller::store::{IncidentBody, OutboxBody, Status, StoreView};
use crate::controller::upkeep;
use crate::json;
use crate::json::JsonView;
use crate::order;
use crate::report;
use crate::report::MetricsView;
use crate::rows;
use crate::text;

verus! {

/// Whether an incident is shown with what is known of it.
pub open spec fn shows(i: IncidentView, id: Seq<char>, b: IncidentBody) -> bool {
    &&& i.id == id
    &&& i.recurrence_count == b.count
    &&& i.escalation_level == b.level
    &&& i.notification_sequence == b.sequence
    &&& i.last_decision == b.last_decision
    &&& i.touched_at == b.touched
}

/// The incidents of a state are listed by the time of their last evidence, the latest first and by
/// their names where two times are the same; each that is listed is one of the state, and shown as
/// it is; and no more than twenty are, though as many as there are up to that.
pub proof fn the_latest_incidents_come_first(
    incidents: Seq<(Seq<char>, IncidentBody)>,
    i: int,
    j: int,
)
    requires
        0 <= i < j < inspect::listing(incidents).len(),
    ensures
        ({
            let all = inspect::listing(incidents);
            &&& all.len() == incidents.len()
            &&& all[i].touched_at >= all[j].touched_at
            &&& all[i].touched_at == all[j].touched_at ==> !text::before(all[j].id, all[i].id)
            &&& exists|k: int|
                0 <= k < incidents.len() && shows(
                    all[i],
                    (#[trigger] incidents[k]).0,
                    incidents[k].1,
                )
            &&& order::top(all, 20).len() == if all.len() < 20 {
                all.len()
            } else {
                20
            }
            &&& i < 20 ==> order::top(all, 20)[i] == all[i]
        }),
{
    let all = inspect::listing(incidents);
    let shown = inspect::all_shown(incidents);
    inspect::latest_incidents_are_listed(incidents, 20);
    assert(!inspect::listed_before(all[j], all[i]));
    all.to_multiset_ensures();
    shown.to_multiset_ensures();
    assert(all.to_multiset().len() == shown.to_multiset().len());
    assert(all.contains(all[i]));
    assert(all.to_multiset().count(all[i]) > 0);
    assert(shown.to_multiset().count(all[i]) > 0);
    assert(shown.contains(all[i]));
    let k = choose|k: int| 0 <= k < shown.len() && shown[k] == all[i];
    assert(shows(all[i], incidents[k].0, incidents[k].1));
}

/// The word for how far a notification has come.
pub open spec fn status_word(s: Status) -> Seq<char> {
    match s {
        Status::Pending => "pending"@,
        Status::Delivered => "delivered"@,
        Status::Dead => "dead"@,
    }
}

/// What is shown of an incident: nothing where there is none; the incident alone where its last
/// notification is gone; and otherwise that notification with how far it has come and how often it
/// was tried, unless it is longer than 128 kibibytes or no JSON.
pub proof fn incidents_are_shown_with_their_last_notification(s: StoreView, id: Seq<char>)
    ensures
        ({
            let d = s.detail(id);
            let b = rows::find(s.incidents, id);
            let n = rows::find(s.outbox, store::notification_key(id, b->Some_0.sequence as int));
            &&& d is Missing <==> b is None
            &&& d is TooLong <==> b is Some && n is Some && text::utf8_len(n->Some_0.payload) > 128
                * 1024
            &&& d is Unreadable <==> b is Some && n is Some && text::utf8_len(n->Some_0.payload)
                <= 128 * 1024 && json::parsed_text(n->Some_0.payload) is None
            &&& d matches DetailView::Found(i, shown) ==> {
                &&& b is Some && shows(i, id, b->Some_0)
                &&& shown is None <==> n is None
                &&& shown matches Some(x) ==> {
                    &&& json::parsed_text(n->Some_0.payload) == Some(x.payload)
                    &&& x.status == status_word(n->Some_0.status)
                    &&& x.attempts == n->Some_0.attempts
                }
            }
        }),
{
}

/// What is shown of a state as a whole: how many incidents it has, how many notifications are pending
/// and were given up, the counts, and the twenty latest incidents. It is said when it was taken and
/// whether the controller is ready, and never that coverage is complete.
pub proof fn states_are_shown_as_they_are(
    s: StoreView,
    m: MetricsView,
    ready: bool,
    now: i64,
)
    ensures
        ({
            let latest = order::top(inspect::listing(s.incidents), 20);
            let pending = upkeep::number(s.outbox, |b: OutboxBody| b.status == Status::Pending);
            let given_up = upkeep::number(s.outbox, |b: OutboxBody| b.status == Status::Dead);
            &&& inspect::status_json(s, m, ready, now) matches JsonView::Object(f)
            &&& f.len() == 9
            &&& f.contains(("coverage_complete"@, JsonView::Bool(false)))
            &&& f.contains(("incident_count"@, json::integer(s.incidents.len() as int)))
            &&& f.contains(("metrics"@, report::metrics_json(m)))
            &&& f.contains(("outbox_dead"@, json::integer(given_up as int)))
            &&& f.contains(("outbox_pending"@, json::integer(pending as int)))
            &&& f.contains(("ready"@, JsonView::Bool(ready)))
            &&& f.contains(
                (
                    "recent_incidents"@,
                    JsonView::List(
                        Seq::new(latest.len(), |i: int| inspect::incident_json(latest[i])),
                    ),
                ),
            )
            &&& f.contains(("sampled_at"@, json::integer(now as int)))
            &&& f.contains(("schema"@, json::integer(1)))
        }),
{
    let f = inspect::status_json(s, m, ready, now)->Object_0;
    upkeep::the_outbox_is_counted(s.outbox, Status::Pending);
    upkeep::the_outbox_is_counted(s.outbox, Status::Dead);
    assert(f[0].0 == "coverage_complete"@ && f[1].0 == "incident_count"@ && f[2].0 == "metrics"@);
    assert(f[3].0 == "outbox_dead"@ && f[4].0 == "outbox_pending"@ && f[5].0 == "ready"@);
    assert(f[6].0 == "recent_incidents"@ && f[7].0 == "sampled_at"@ && f[8].0 == "schema"@);
    assert(f.contains(f[0]) && f.contains(f[1]) && f.contains(f[2]) && f.contains(f[3])
        && f.contains(f[4]) && f.contains(f[5]) && f.contains(f[6]) && f.contains(f[7])
        && f.contains(f[8]));
}

/// The answer to a reader that is told why nothing is shown.
pub open spec fn says_why(answer: (u16, JsonView), status: u16, message: Seq<char>) -> bool {
    answer.0 == status && answer.1 == JsonView::Object(
        seq![("error"@, JsonView::Text(message))],
    )
}

/// What a reader is answered: the state or an incident of it where there is one to show, and a reason
/// everywhere else. A path that is not known is refused before anything else.
pub proof fn readers_are_answered(
    route: RouteView,
    state: Option<StoreView>,
    metrics: Option<MetricsView>,
    ready: bool,
    now: i64,
)
    ensures
        ({
            let a = inspect::answered(route, state, metrics, ready, now);
            let busy = "Controller inspection unavailable; retry shortly"@;
            &&& route is Unknown ==> says_why(a, 404, "Unknown inspection endpoint"@)
            &&& !(route is Unknown) && state is None ==> says_why(a, 503, busy)
            &&& route is Status ==> (state matches Some(s) ==> match metrics {
                Some(m) => a.0 == 200 && a.1 == inspect::status_json(s, m, ready, now),
                None => says_why(a, 503, "Controller metrics busy"@),
            })
            &&& route matches RouteView::Incident(id) ==> (state matches Some(s) ==> match s.detail(
                id,
            ) {
                DetailView::Found(i, n) => a.0 == 200 && a.1 == inspect::detail_json(i, n),
                DetailView::Missing => says_why(a, 404, "Incident not found"@),
                DetailView::TooLong => says_why(a, 503, busy),
                DetailView::Unreadable => says_why(a, 503, busy),
            })
        }),
        inspect::refusal_status(Refusal::Malformed) == 400,
        inspect::refusal_message(Refusal::Malformed) == "Expected bounded GET request"@,
{
}

/// A request is understood exactly where its bytes are text, its first line is `GET`, a path and a
/// version of HTTP that is known, with nothing but white space between and around them, and its
/// header has its end.
pub proof fn requests_are_understood_whole(bytes: Seq<u8>, path: Seq<char>)
    ensures
        inspect::asked(bytes) == Some(path) <==> {
            let header = vstd::utf8::decode_utf8(bytes);
            let words = text::words(text::first_line(header));
            &&& vstd::utf8::valid_utf8(bytes)
            &&& words == seq!["GET"@, path, "HTTP/1.0"@] || words == seq![
                "GET"@,
                path,
                "HTTP/1.1"@,
            ]
            &&& text::holds(header, "\r\n\r\n"@)
        },
{
    let header = vstd::utf8::decode_utf8(bytes);
    let words = text::words(text::first_line(header));
    let old_style = seq!["GET"@, path, "HTTP/1.0"@];
    let new_style = seq!["GET"@, path, "HTTP/1.1"@];
    if words.len() == 3 && words[0] == "GET"@ && words[1] == path {
        if words[2] == "HTTP/1.0"@ {
            assert(words =~= old_style);
        }
        if words[2] == "HTTP/1.1"@ {
            assert(words =~= new_style);
        }
    }
    assert(old_style[0] == "GET"@ && old_style[1] == path && old_style[2] == "HTTP/1.0"@);
    assert(new_style[0] == "GET"@ && new_style[1] == path && new_style[2] == "HTTP/1.1"@);
}

}
