//! What following a cluster promises: every log that is there is followed, as long as there is room
//! for it, and no line is lost or repeated.
use vstd::prelude::*;

use crate::events::LineView;
use crate::json;
use crate::json::JsonView;
use crate::kubernetes;
use crate::kubernetes::{
    pod_targets, ActiveView, ContainersView, CursorView, DiscoveryView, FollowView, ObservationView,
    Options, PodView, Scope, StatusView, StreamView, TargetView,
};
use crate::moment::MomentView;
use crate::report::MetricsView;
use crate::rows;

verus! {

/// Whether a status is the first of its name.
pub open spec fn first_status(statuses: Seq<StatusView>, name: Seq<char>, j: int) -> bool {
    &&& 0 <= j < statuses.len()
    &&& statuses[j].name == name
    &&& forall|m: int| 0 <= m < j ==> (#[trigger] statuses[m]).name != name
}

/// Whether a container of a name was restarted so often, as far as it is known; one of which
/// nothing is known was not.
pub open spec fn restarted(c: ContainersView, name: Seq<char>, times: int) -> bool {
    ||| exists|j: int|
        #[trigger] first_status(c.statuses, name, j) && c.statuses[j].restart_count == times
    ||| times == 0 && forall|j: int|
        0 <= j < c.statuses.len() ==> (#[trigger] c.statuses[j]).name != name
}

/// Whether a container of a name is known to run.
pub open spec fn running(c: ContainersView, name: Seq<char>) -> bool {
    exists|j: int| #[trigger] first_status(c.statuses, name, j) && c.statuses[j].running
}

/// The containers of a pod by their kinds.
pub open spec fn kinds(p: PodView) -> Seq<(Seq<char>, ContainersView)> {
    seq![("container"@, p.containers), ("init"@, p.init), ("ephemeral"@, p.ephemeral)]
}

/// A place in a pod: the kind, the number of the container among those of its kind, and whether it
/// is the log from before the last restart.
pub struct Place {
    pub kind: int,
    pub number: int,
    pub before: bool,
}

/// Whether one place comes before another.
pub open spec fn precedes(a: Place, b: Place) -> bool {
    ||| a.kind < b.kind
    ||| a.kind == b.kind && a.number < b.number
    ||| a.kind == b.kind && a.number == b.number && !a.before && b.before
}

/// Whether a pod has such a container, and its log is wanted: of one that is followed, where it
/// runs; else always, and the one from before a restart where that was asked for and there was one.
pub open spec fn wanted(p: PodView, live: bool, previous: bool, at: Place) -> bool {
    &&& 0 <= at.kind < 3
    &&& 0 <= at.number < kinds(p)[at.kind].1.names.len()
    &&& live ==> !at.before && running(
        kinds(p)[at.kind].1,
        kinds(p)[at.kind].1.names[at.number],
    )
    &&& at.before ==> previous && !restarted(
        kinds(p)[at.kind].1,
        kinds(p)[at.kind].1.names[at.number],
        0,
    )
}

/// Whether a source tells of a log.
pub open spec fn tells(
    source: Seq<(Seq<char>, JsonView)>,
    p: PodView,
    cluster: Seq<char>,
    kind: Seq<char>,
    container: Seq<char>,
    restart: int,
    before: bool,
) -> bool {
    &&& json::holds(source, "type"@, JsonView::Text("kubernetes"@))
    &&& json::holds(source, "context"@, JsonView::Text(cluster))
    &&& json::holds(source, "namespace"@, JsonView::Text(p.namespace->Some_0))
    &&& json::holds(source, "pod"@, JsonView::Text(p.name->Some_0))
    &&& json::holds(source, "pod_uid"@, JsonView::Text(p.uid->Some_0))
    &&& json::holds(source, "container"@, JsonView::Text(container))
    &&& json::holds(source, "kind"@, JsonView::Text(kind))
    &&& json::holds(source, "restart_count"@, json::integer(restart))
    &&& json::holds(source, "previous"@, JsonView::Bool(before))
}

/// Whether a log is the one at a place of a pod.
pub open spec fn is_log(t: TargetView, p: PodView, cluster: Seq<char>, at: Place) -> bool {
    let (kind, c) = kinds(p)[at.kind];
    let name = c.names[at.number];
    &&& p.namespace == Some(t.namespace) && p.name == Some(t.pod) && p.uid == Some(t.uid)
    &&& t.container == name
    &&& t.previous == at.before
    &&& restarted(
        c,
        name,
        if at.before {
            t.restart + 1
        } else {
            t.restart as int
        },
    )
    &&& tells(t.source, p, cluster, kind, name, t.restart as int, at.before)
}

/// Whether logs are exactly those at the places of a pod that are wanted, each once and in order.
pub open spec fn listed(
    all: Seq<TargetView>,
    p: PodView,
    cluster: Seq<char>,
    live: bool,
    previous: bool,
    places: Seq<Place>,
) -> bool {
    &&& places.len() == all.len()
    &&& forall|i: int|
        0 <= i < all.len() ==> wanted(p, live, previous, #[trigger] places[i]) && is_log(
            all[i],
            p,
            cluster,
            places[i],
        )
    &&& forall|i: int, j: int|
        0 <= i < j < all.len() ==> precedes(#[trigger] places[i], #[trigger] places[j])
    &&& forall|at: Place| #[trigger] wanted(p, live, previous, at) ==> places.contains(at)
}

proof fn status_is_first(statuses: Seq<StatusView>, name: Seq<char>)
    ensures
        match kubernetes::status_of(statuses, name) {
            Some(s) => exists|j: int| #[trigger] first_status(statuses, name, j) && statuses[j] == s,
            None => forall|j: int| 0 <= j < statuses.len() ==> (#[trigger] statuses[j]).name != name,
        },
    decreases statuses.len(),
{
    if statuses.len() > 0 {
        if statuses[0].name == name {
            assert(first_status(statuses, name, 0));
        } else {
            let rest = statuses.drop_first();
            status_is_first(rest, name);
            assert(forall|j: int| 0 <= j < rest.len() ==> #[trigger] rest[j] == statuses[j + 1]);
            match kubernetes::status_of(rest, name) {
                Some(s) => {
                    let j = choose|j: int| #[trigger] first_status(rest, name, j) && rest[j] == s;
                    assert forall|m: int| 0 <= m < j + 1 implies (#[trigger] statuses[m]).name
                        != name by {
                        if m > 0 {
                            assert(rest[m - 1].name != name);
                        }
                    }
                    assert(first_status(statuses, name, j + 1));
                },
                None => {
                    assert forall|j: int| 0 <= j < statuses.len() implies (#[trigger] statuses[
                        j]).name != name by {
                        if j > 0 {
                            assert(rest[j - 1].name != name);
                        }
                    }
                },
            }
        }
    }
}

proof fn first_is_one(statuses: Seq<StatusView>, name: Seq<char>, j: int, k: int)
    requires
        first_status(statuses, name, j),
        first_status(statuses, name, k),
    ensures
        j == k,
{
}

/// What is known of a container is what its first status says.
pub proof fn containers_are_as_their_status(c: ContainersView, name: Seq<char>)
    ensures
        running(c, name) == kubernetes::runs(c, name),
        forall|n: int|
            #[trigger] restarted(c, name, n) <==> n == kubernetes::restarts(c, name),
{
    status_is_first(c.statuses, name);
    match kubernetes::status_of(c.statuses, name) {
        Some(s) => {
            let j = choose|j: int|
                #[trigger] first_status(c.statuses, name, j) && c.statuses[j] == s;
            assert(restarted(c, name, s.restart_count as int));
            assert forall|n: int| #[trigger] restarted(c, name, n) implies n == s.restart_count by {
                if exists|k: int|
                    #[trigger] first_status(c.statuses, name, k) && c.statuses[k].restart_count
                        == n {
                    let k = choose|k: int|
                        #[trigger] first_status(c.statuses, name, k) && c.statuses[k].restart_count
                            == n;
                    first_is_one(c.statuses, name, j, k);
                } else {
                    assert(c.statuses[j].name == name);
                }
            }
            if running(c, name) {
                let k = choose|k: int|
                    #[trigger] first_status(c.statuses, name, k) && c.statuses[k].running;
                first_is_one(c.statuses, name, j, k);
            }
        },
        None => {},
    }
}

proof fn names_of_fields_differ()
    ensures
        "type"@ != "context"@ && "type"@ != "namespace"@ && "type"@ != "pod"@ && "type"@
            != "pod_uid"@ && "type"@ != "container"@ && "type"@ != "kind"@ && "type"@
            != "restart_count"@ && "type"@ != "previous"@,
        "context"@ != "namespace"@ && "context"@ != "pod"@ && "context"@ != "pod_uid"@
            && "context"@ != "container"@ && "context"@ != "kind"@ && "context"@
            != "restart_count"@ && "context"@ != "previous"@,
        "namespace"@ != "pod"@ && "namespace"@ != "pod_uid"@ && "namespace"@ != "container"@
            && "namespace"@ != "kind"@ && "namespace"@ != "restart_count"@ && "namespace"@
            != "previous"@,
        "pod"@ != "pod_uid"@ && "pod"@ != "container"@ && "pod"@ != "kind"@ && "pod"@
            != "restart_count"@ && "pod"@ != "previous"@,
        "pod_uid"@ != "container"@ && "pod_uid"@ != "kind"@ && "pod_uid"@ != "restart_count"@
            && "pod_uid"@ != "previous"@,
        "container"@ != "kind"@ && "container"@ != "restart_count"@ && "container"@ != "previous"@,
        "kind"@ != "restart_count"@ && "kind"@ != "previous"@,
        "restart_count"@ != "previous"@,
{
    reveal_strlit("type");
    reveal_strlit("context");
    reveal_strlit("namespace");
    reveal_strlit("pod");
    reveal_strlit("pod_uid");
    reveal_strlit("container");
    reveal_strlit("kind");
    reveal_strlit("restart_count");
    reveal_strlit("previous");
    assert("type"@.len() == 4 && "type"@[0] == 't');
    assert("context"@.len() == 7 && "context"@[0] == 'c');
    assert("namespace"@.len() == 9 && "namespace"@[0] == 'n');
    assert("pod"@.len() == 3);
    assert("pod_uid"@.len() == 7 && "pod_uid"@[0] == 'p');
    assert("container"@.len() == 9 && "container"@[0] == 'c');
    assert("kind"@.len() == 4 && "kind"@[0] == 'k');
    assert("restart_count"@.len() == 13);
    assert("previous"@.len() == 8);
}

proof fn source_tells(
    p: PodView,
    s: Scope,
    kind: Seq<char>,
    container: Seq<char>,
    restart: int,
    before: bool,
)
    requires
        p.namespace == Some(s.namespace),
        p.name == Some(s.pod),
        p.uid == Some(s.uid),
    ensures
        tells(
            kubernetes::target_of(s, kind, container, restart, before).source,
            p,
            s.cluster,
            kind,
            container,
            restart,
            before,
        ),
{
    names_of_fields_differ();
    let none: Seq<(Seq<char>, JsonView)> = seq![];
    let a = json::put(none, "type"@, JsonView::Text("kubernetes"@));
    let b = json::put(a, "context"@, JsonView::Text(s.cluster));
    let c = json::put(b, "namespace"@, JsonView::Text(s.namespace));
    let d = json::put(c, "pod"@, JsonView::Text(s.pod));
    let e = json::put(d, "pod_uid"@, JsonView::Text(s.uid));
    let f = json::put(e, "container"@, JsonView::Text(container));
    let g = json::put(f, "kind"@, JsonView::Text(kind));
    let h = json::put(g, "restart_count"@, json::integer(restart));
    json::put_is_held(none, "type"@, JsonView::Text("kubernetes"@));
    json::put_is_held(a, "context"@, JsonView::Text(s.cluster));
    json::put_is_held(b, "namespace"@, JsonView::Text(s.namespace));
    json::put_is_held(c, "pod"@, JsonView::Text(s.pod));
    json::put_is_held(d, "pod_uid"@, JsonView::Text(s.uid));
    json::put_is_held(e, "container"@, JsonView::Text(container));
    json::put_is_held(f, "kind"@, JsonView::Text(kind));
    json::put_is_held(g, "restart_count"@, json::integer(restart));
    json::put_is_held(h, "previous"@, JsonView::Bool(before));
}

/// The places of the first `n` containers of a kind whose logs are wanted.
spec fn places_of(p: PodView, kind: int, live: bool, previous: bool, n: nat) -> Seq<Place>
    decreases n,
{
    if n == 0 {
        seq![]
    } else {
        let rest = places_of(p, kind, live, previous, (n - 1) as nat);
        let c = kinds(p)[kind].1;
        let name = c.names[n - 1];
        let now = Place { kind, number: n - 1, before: false };
        if live && !kubernetes::runs(c, name) {
            rest
        } else if live || !previous || kubernetes::restarts(c, name) == 0 {
            rest.push(now)
        } else {
            rest.push(now).push(Place { kind, number: n - 1, before: true })
        }
    }
}

proof fn places_are_listed(
    p: PodView,
    s: Scope,
    kind: int,
    live: bool,
    previous: bool,
    n: nat,
)
    requires
        p.namespace == Some(s.namespace),
        p.name == Some(s.pod),
        p.uid == Some(s.uid),
        0 <= kind < 3,
        n <= kinds(p)[kind].1.names.len(),
        previous && !live ==> kubernetes::countable_back(kinds(p)[kind].1),
    ensures
        ({
            let places = places_of(p, kind, live, previous, n);
            let all = kubernetes::targets_of(
                s,
                kinds(p)[kind].0,
                kinds(p)[kind].1,
                live,
                previous,
                n,
            );
            &&& places.len() == all.len()
            &&& forall|i: int|
                0 <= i < all.len() ==> wanted(p, live, previous, #[trigger] places[i]) && is_log(
                    all[i],
                    p,
                    s.cluster,
                    places[i],
                ) && places[i].kind == kind && places[i].number < n
            &&& forall|i: int, j: int|
                0 <= i < j < all.len() ==> precedes(#[trigger] places[i], #[trigger] places[j])
            &&& forall|at: Place|
                #[trigger] wanted(p, live, previous, at) && at.kind == kind && at.number < n
                    ==> places.contains(at)
        }),
    decreases n,
{
    if n > 0 {
        let m = (n - 1) as nat;
        places_are_listed(p, s, kind, live, previous, m);
        let (label, c) = kinds(p)[kind];
        let name = c.names[m as int];
        let restart = kubernetes::restarts(c, name);
        containers_are_as_their_status(c, name);
        assert(restarted(c, name, restart as int));
        source_tells(p, s, label, name, restart as int, false);
        source_tells(p, s, label, name, restart - 1, true);
        let rest = places_of(p, kind, live, previous, m);
        let places = places_of(p, kind, live, previous, n);
        let now = Place { kind, number: m as int, before: false };
        let was = Place { kind, number: m as int, before: true };
        assert(places.len() >= rest.len());
        assert(forall|i: int| 0 <= i < rest.len() ==> places[i] == rest[i]);
        assert forall|at: Place|
            #[trigger] wanted(p, live, previous, at) && at.kind == kind && at.number
                < n implies places.contains(at) by {
            if at.number < m {
                let i = choose|i: int| 0 <= i < rest.len() && rest[i] == at;
                assert(places[i] == at);
            } else if at.before {
                assert(at == was);
                assert(!restarted(c, name, 0));
                assert(places[places.len() - 1] == was);
            } else {
                assert(at == now);
                assert(places[rest.len() as int] == now);
            }
        }
    }
}

/// Whether a pod is known well enough to have logs.
pub open spec fn known(p: PodView) -> bool {
    p.specified && p.uid is Some && p.name is Some && p.namespace is Some
}

/// The logs of a pod are complete: every container whose log is wanted has one, and none has more.
/// They are listed by kind and by container, that of a container as it is before the one from
/// before its last restart. A pod that is not known well enough has none.
pub proof fn logs_are_complete(p: PodView, cluster: Seq<char>, live: bool, previous: bool)
    requires
        previous && !live ==> kubernetes::countable_back(p.containers) && kubernetes::countable_back(
            p.init,
        ) && kubernetes::countable_back(p.ephemeral),
    ensures
        known(p) ==> exists|places: Seq<Place>|
            #[trigger] listed(
                pod_targets(p, cluster, live, previous),
                p,
                cluster,
                live,
                previous,
                places,
            ),
        !known(p) ==> pod_targets(p, cluster, live, previous).len() == 0,
{
    if known(p) {
        let s = Scope {
            cluster,
            namespace: p.namespace->Some_0,
            pod: p.name->Some_0,
            uid: p.uid->Some_0,
        };
        let all = pod_targets(p, cluster, live, previous);
        let a = places_of(p, 0, live, previous, p.containers.names.len());
        let b = places_of(p, 1, live, previous, p.init.names.len());
        let c = places_of(p, 2, live, previous, p.ephemeral.names.len());
        assert(kinds(p)[0].1 == p.containers && kinds(p)[1].1 == p.init && kinds(p)[2].1
            == p.ephemeral);
        places_are_listed(p, s, 0, live, previous, p.containers.names.len());
        places_are_listed(p, s, 1, live, previous, p.init.names.len());
        places_are_listed(p, s, 2, live, previous, p.ephemeral.names.len());
        let places = a + b + c;
        let x = kubernetes::targets_of(
            s,
            "container"@,
            p.containers,
            live,
            previous,
            p.containers.names.len(),
        );
        let y = kubernetes::targets_of(s, "init"@, p.init, live, previous, p.init.names.len());
        let z = kubernetes::targets_of(
            s,
            "ephemeral"@,
            p.ephemeral,
            live,
            previous,
            p.ephemeral.names.len(),
        );
        assert(all =~= x + y + z);
        assert forall|i: int| 0 <= i < all.len() implies wanted(
            p,
            live,
            previous,
            #[trigger] places[i],
        ) && is_log(all[i], p, cluster, places[i]) by {
            if i < a.len() {
                assert(places[i] == a[i] && all[i] == x[i]);
            } else if i < a.len() + b.len() {
                assert(places[i] == b[i - a.len()] && all[i] == y[i - a.len()]);
            } else {
                assert(places[i] == c[i - a.len() - b.len()] && all[i] == z[i - a.len() - b.len()]);
            }
        }
        assert forall|i: int, j: int| 0 <= i < j < all.len() implies precedes(
            #[trigger] places[i],
            #[trigger] places[j],
        ) by {
            if j < a.len() {
                assert(places[i] == a[i] && places[j] == a[j]);
            } else if j < a.len() + b.len() {
                assert(places[j] == b[j - a.len()]);
                if i < a.len() {
                    assert(places[i] == a[i]);
                } else {
                    assert(places[i] == b[i - a.len()]);
                }
            } else {
                assert(places[j] == c[j - a.len() - b.len()]);
                if i < a.len() {
                    assert(places[i] == a[i]);
                } else if i < a.len() + b.len() {
                    assert(places[i] == b[i - a.len()]);
                } else {
                    assert(places[i] == c[i - a.len() - b.len()]);
                }
            }
        }
        assert forall|at: Place| #[trigger] wanted(p, live, previous, at) implies places.contains(
            at,
        ) by {
            if at.kind == 0 {
                let i = choose|i: int| 0 <= i < a.len() && a[i] == at;
                assert(places[i] == at);
            } else if at.kind == 1 {
                let i = choose|i: int| 0 <= i < b.len() && b[i] == at;
                assert(places[a.len() + i] == at);
            } else {
                let i = choose|i: int| 0 <= i < c.len() && c[i] == at;
                assert(places[a.len() + b.len() + i] == at);
            }
        }
        assert(listed(all, p, cluster, live, previous, places));
    }
}

/// Every container that a pod lists has its log among the pod's, as it is now: where logs are
/// followed each that runs, else each.
pub proof fn every_container_has_its_log(
    p: PodView,
    cluster: Seq<char>,
    live: bool,
    previous: bool,
    kind: int,
    number: int,
)
    requires
        previous && !live ==> kubernetes::countable_back(p.containers) && kubernetes::countable_back(
            p.init,
        ) && kubernetes::countable_back(p.ephemeral),
        known(p),
        0 <= kind < 3,
        0 <= number < kinds(p)[kind].1.names.len(),
        live ==> running(kinds(p)[kind].1, kinds(p)[kind].1.names[number]),
    ensures
        exists|i: int|
            0 <= i < pod_targets(p, cluster, live, previous).len() && is_log(
                #[trigger] pod_targets(p, cluster, live, previous)[i],
                p,
                cluster,
                Place { kind, number, before: false },
            ),
{
    logs_are_complete(p, cluster, live, previous);
    let all = pod_targets(p, cluster, live, previous);
    let places = choose|places: Seq<Place>|
        #[trigger] listed(all, p, cluster, live, previous, places);
    let at = Place { kind, number, before: false };
    assert(wanted(p, live, previous, at));
    let i = choose|i: int| 0 <= i < places.len() && places[i] == at;
    assert(is_log(all[i], p, cluster, places[i]));
}

/// A pod still has a log exactly where it lists the container, of whatever kind, and the container
/// was restarted as often as when the log was found; a log from before a restart counts one less.
pub proof fn logs_are_recognised(p: PodView, t: TargetView)
    requires
        kubernetes::countable_back(p.containers),
        kubernetes::countable_back(p.init),
        kubernetes::countable_back(p.ephemeral),
    ensures
        kubernetes::still_has(p, t) <==> known(p) && p.uid == Some(t.uid) && exists|at: Place|
            #[trigger] wanted(p, false, true, at) && kinds(p)[at.kind].1.names[at.number]
                == t.container && at.before == t.previous && restarted(
                kinds(p)[at.kind].1,
                t.container,
                if t.previous {
                    t.restart + 1
                } else {
                    t.restart as int
                },
            ),
{
    logs_are_complete(p, ""@, false, true);
    let all = pod_targets(p, ""@, false, true);
    if known(p) {
        let places = choose|places: Seq<Place>|
            #[trigger] listed(all, p, ""@, false, true, places);
        if kubernetes::still_has(p, t) {
            let i = choose|i: int|
                0 <= i < all.len() && kubernetes::same_log(#[trigger] all[i], t);
            assert(wanted(p, false, true, places[i]) && is_log(all[i], p, ""@, places[i]));
        }
        if p.uid == Some(t.uid) && exists|at: Place|
            #[trigger] wanted(p, false, true, at) && kinds(p)[at.kind].1.names[at.number]
                == t.container && at.before == t.previous && restarted(
                kinds(p)[at.kind].1,
                t.container,
                if t.previous {
                    t.restart + 1
                } else {
                    t.restart as int
                },
            ) {
            let at = choose|at: Place|
                #[trigger] wanted(p, false, true, at) && kinds(p)[at.kind].1.names[at.number]
                    == t.container && at.before == t.previous && restarted(
                    kinds(p)[at.kind].1,
                    t.container,
                    if t.previous {
                        t.restart + 1
                    } else {
                        t.restart as int
                    },
                );
            let i = choose|i: int| 0 <= i < places.len() && places[i] == at;
            assert(is_log(all[i], p, ""@, places[i]));
            containers_are_as_their_status(kinds(p)[at.kind].1, t.container);
            assert(kubernetes::same_log(all[i], t));
        }
    }
}

/// Whether a log is followed.
pub open spec fn followed(d: DiscoveryView, id: Seq<char>) -> bool {
    exists|j: int| 0 <= j < d.active.len() && (#[trigger] d.active[j]).id == id
}

/// Whether two entries are of the same log.
pub open spec fn same_entry(a: ActiveView, b: ActiveView) -> bool {
    a.id == b.id && a.uid == b.uid && a.pod == b.pod && a.namespace == b.namespace
}

/// Whether an entry is the one of a log.
pub open spec fn entry_of(a: ActiveView, t: TargetView) -> bool {
    a.id == t.identity() && a.uid == t.uid && a.pod == t.pod && a.namespace == t.namespace && a.seen
}

proof fn offers_are_taken(d: DiscoveryView, wanted: Seq<TargetView>, m: MetricsView)
    requires
        d.bounded(),
        kubernetes::metrics_room(m, wanted.len()),
    ensures
        ({
            let (e, n, start) = d.offered_all(wanted, m);
            &&& e.bounded() && e.max_streams == d.max_streams && e.cluster == d.cluster
            &&& e.initializing == d.initializing
            &&& kubernetes::metrics_room(n, 0)
            &&& n.coverage_gaps <= m.coverage_gaps + wanted.len()
            &&& n.coverage_records_omitted <= m.coverage_records_omitted + wanted.len()
            &&& n.unfollowed_observations <= m.unfollowed_observations + wanted.len()
            &&& n.unfollowed_observations >= m.unfollowed_observations
            &&& d.overflow ==> e.overflow
            &&& n.streams_started == m.streams_started + start.len()
            &&& start.len() <= wanted.len()
            &&& e.active.len() == d.active.len() + start.len()
            &&& forall|k: int|
                0 <= k < d.active.len() ==> same_entry(#[trigger] d.active[k], e.active[k]) && (
                d.active[k].seen ==> e.active[k].seen)
            &&& forall|k: int|
                0 <= k < start.len() ==> wanted.contains(#[trigger] start[k]) && entry_of(
                    e.active[d.active.len() + k],
                    start[k],
                )
            &&& forall|i: int|
                0 <= i < wanted.len() ==> {
                    ||| exists|j: int|
                        0 <= j < e.active.len() && (#[trigger] e.active[j]).id
                            == wanted[i].identity() && e.active[j].seen
                    ||| e.active.len() >= e.max_streams && e.overflow && n.unfollowed_observations
                        > m.unfollowed_observations && !followed(e, #[trigger] wanted[i].identity())
                }
        }),
    decreases wanted.len(),
{
    if wanted.len() > 0 {
        let rest = wanted.drop_last();
        let t = wanted.last();
        offers_are_taken(d, rest, m);
        let (e, n, start) = d.offered_all(rest, m);
        let (f, o, more) = d.offered_all(wanted, m);
        kubernetes::seats_are_found(e.active, t.identity());
        assert(wanted[wanted.len() - 1] == t);
        assert forall|k: int| 0 <= k < more.len() implies wanted.contains(#[trigger] more[k]) by {
            if k < start.len() {
                let i = choose|i: int| 0 <= i < rest.len() && rest[i] == start[k];
                assert(wanted[i] == start[k]);
            }
        }
        match kubernetes::seat(e.active, t.identity()) {
            Some(s) => {
                assert(f.active[s].id == t.identity() && f.active[s].seen);
                assert(forall|j: int|
                    0 <= j < e.active.len() ==> same_entry(#[trigger] f.active[j], e.active[j]) && (
                    e.active[j].seen ==> f.active[j].seen));
            },
            None => {
                if e.active.len() < e.max_streams {
                    assert(f.active[e.active.len() as int].id == t.identity());
                }
                assert(forall|j: int|
                    0 <= j < e.active.len() ==> #[trigger] f.active[j] == e.active[j]);
            },
        }
        assert forall|i: int| 0 <= i < wanted.len() implies {
            ||| exists|j: int|
                0 <= j < f.active.len() && (#[trigger] f.active[j]).id == wanted[i].identity()
                    && f.active[j].seen
            ||| f.active.len() >= f.max_streams && f.overflow && o.unfollowed_observations
                > m.unfollowed_observations && !followed(f, #[trigger] wanted[i].identity())
        } by {
            if i < rest.len() {
                assert(rest[i] == wanted[i]);
                if exists|j: int|
                    0 <= j < e.active.len() && (#[trigger] e.active[j]).id == rest[i].identity()
                        && e.active[j].seen {
                    let j = choose|j: int|
                        0 <= j < e.active.len() && (#[trigger] e.active[j]).id
                            == rest[i].identity() && e.active[j].seen;
                    assert(f.active[j].id == wanted[i].identity() && f.active[j].seen);
                } else {
                    assert(!followed(e, rest[i].identity()));
                    if followed(f, rest[i].identity()) {
                        let j = choose|j: int|
                            0 <= j < f.active.len() && (#[trigger] f.active[j]).id
                                == rest[i].identity();
                        assert(e.active[j].id == rest[i].identity());
                    }
                }
            } else {
                assert(wanted[i] == t);
                if kubernetes::seat(e.active, t.identity()) is None && e.active.len()
                    >= e.max_streams {
                    assert(f.active == e.active);
                }
            }
        }
    }
}

/// Whether a log that is followed has to be given up once a pod is known as it is: its stream has
/// ended, another pod has taken the name of its pod, or its pod no longer has it.
pub open spec fn given_up(
    a: ActiveView,
    p: PodView,
    cluster: Seq<char>,
    finished: Seq<Seq<char>>,
) -> bool {
    ||| exists|k: int| 0 <= k < finished.len() && #[trigger] finished[k] == a.id
    ||| p.name == Some(a.pod) && p.namespace == Some(a.namespace) && p.uid != Some(a.uid)
    ||| p.uid == Some(a.uid) && forall|i: int|
        0 <= i < pod_targets(p, cluster, true, false).len() ==> a.id != (
        #[trigger] pod_targets(p, cluster, true, false)[i]).identity()
}

proof fn giving_up_is_outdated(
    a: ActiveView,
    p: PodView,
    cluster: Seq<char>,
    finished: Seq<Seq<char>>,
)
    ensures
        given_up(a, p, cluster, finished) == kubernetes::outdated(
            p,
            kubernetes::identities(pod_targets(p, cluster, true, false)),
            finished,
        )(a),
{
    let all = pod_targets(p, cluster, true, false);
    let ids = kubernetes::identities(all);
    assert(ids.contains(a.id) == exists|i: int|
        0 <= i < all.len() && a.id == (#[trigger] all[i]).identity()) by {
        if ids.contains(a.id) {
            let i = choose|i: int| 0 <= i < ids.len() && ids[i] == a.id;
            assert(all[i].identity() == a.id);
        }
        if exists|i: int| 0 <= i < all.len() && a.id == (#[trigger] all[i]).identity() {
            let i = choose|i: int| 0 <= i < all.len() && a.id == (#[trigger] all[i]).identity();
            assert(ids[i] == a.id);
        }
    }
}

/// Once a pod is known as it is, each of its logs is followed, unless there is no more room; then
/// that is counted. A log that was not followed before, or was given up, is started, and no other.
pub proof fn known_pods_are_followed(
    d: DiscoveryView,
    p: PodView,
    finished: Seq<Seq<char>>,
    m: MetricsView,
    i: int,
)
    requires
        d.bounded(),
        kubernetes::metrics_room(m, pod_targets(p, d.cluster, true, false).len()),
        0 <= i < pod_targets(p, d.cluster, true, false).len(),
    ensures
        ({
            let (e, n, moves) = d.observed(ObservationView::Apply(p), finished, m);
            let t = pod_targets(p, d.cluster, true, false)[i];
            &&& followed(e, t.identity()) || e.active.len() >= d.max_streams && e.overflow
                && n.unfollowed_observations > m.unfollowed_observations
            &&& followed(e, t.identity()) ==> {
                ||| exists|k: int|
                    0 <= k < d.active.len() && (#[trigger] d.active[k]).id == t.identity()
                        && !given_up(d.active[k], p, d.cluster, finished)
                ||| exists|k: int|
                    0 <= k < moves.start.len() && (#[trigger] moves.start[k]).identity()
                        == t.identity()
            }
            &&& n.streams_started == m.streams_started + moves.start.len()
        }),
{
    let wanted = pod_targets(p, d.cluster, true, false);
    let leaves = kubernetes::outdated(p, kubernetes::identities(wanted), finished);
    let kept = d.rid_of(leaves);
    kubernetes::discovery_stays_bounded(d, ObservationView::Apply(p), finished, m);
    kubernetes::parting_stays_bounded(d, leaves);
    kubernetes::parting_is_exact(d.active, leaves);
    offers_are_taken(kept, wanted, m);
    let (e, n, start) = kept.offered_all(wanted, m);
    let t = wanted[i];
    assert(wanted[i].identity() == t.identity());
    let moves = d.observed(ObservationView::Apply(p), finished, m).2;
    assert(d.observed(ObservationView::Apply(p), finished, m).0 == e);
    assert(moves.start == start);
    if exists|j: int|
        0 <= j < e.active.len() && (#[trigger] e.active[j]).id == wanted[i].identity()
            && e.active[j].seen {
        let j = choose|j: int|
            0 <= j < e.active.len() && (#[trigger] e.active[j]).id == wanted[i].identity()
                && e.active[j].seen;
        assert(followed(e, t.identity()));
    }
    if followed(e, t.identity()) {
        let j = choose|j: int| 0 <= j < e.active.len() && (#[trigger] e.active[j]).id == t.identity();
        if j < kept.active.len() {
            assert(same_entry(kept.active[j], e.active[j]));
            assert(d.active.contains(kept.active[j]));
            let k = choose|k: int| 0 <= k < d.active.len() && d.active[k] == kept.active[j];
            assert(!leaves(kept.active[j]));
            giving_up_is_outdated(d.active[k], p, d.cluster, finished);
        } else {
            let k = j - kept.active.len();
            assert(entry_of(e.active[kept.active.len() + k], start[k]));
            assert(0 <= k < moves.start.len() && moves.start[k].identity() == t.identity());
        }
    }
}

/// Once a pod is known as it is, exactly the logs that have to be given up are retired; all others,
/// those of other pods too, are followed on. Only logs of the pod are started, and none that is
/// followed on.
pub proof fn others_are_left_alone(
    d: DiscoveryView,
    p: PodView,
    finished: Seq<Seq<char>>,
    m: MetricsView,
    k: int,
)
    requires
        d.bounded(),
        kubernetes::metrics_room(m, pod_targets(p, d.cluster, true, false).len()),
    ensures
        ({
            let (e, n, moves) = d.observed(ObservationView::Apply(p), finished, m);
            let all = pod_targets(p, d.cluster, true, false);
            &&& 0 <= k < d.active.len() ==> {
                let a = d.active[k];
                if given_up(a, p, d.cluster, finished) {
                    moves.retire.contains(a.id)
                } else {
                    &&& !moves.retire.contains(a.id)
                    &&& exists|j: int|
                        0 <= j < e.active.len() && same_entry(#[trigger] e.active[j], a) && (a.seen
                            ==> e.active[j].seen)
                    &&& forall|s: int|
                        0 <= s < moves.start.len() ==> (#[trigger] moves.start[s]).identity()
                            != a.id
                }
            }
            &&& 0 <= k < moves.start.len() ==> all.contains(moves.start[k]) && followed(
                e,
                moves.start[k].identity(),
            )
            &&& 0 <= k < moves.retire.len() ==> followed(d, moves.retire[k])
            &&& e.max_streams == d.max_streams && e.cluster == d.cluster && e.initializing
                == d.initializing
        }),
{
    let wanted = pod_targets(p, d.cluster, true, false);
    let leaves = kubernetes::outdated(p, kubernetes::identities(wanted), finished);
    let kept = d.rid_of(leaves);
    kubernetes::parting_stays_bounded(d, leaves);
    kubernetes::parting_is_exact(d.active, leaves);
    offers_are_taken(kept, wanted, m);
    let (e, n, start) = kept.offered_all(wanted, m);
    let retire = kubernetes::leaving(d.active, leaves);
    let moves = d.observed(ObservationView::Apply(p), finished, m).2;
    assert(d.observed(ObservationView::Apply(p), finished, m).0 == e);
    assert(moves.start == start && moves.retire == retire);
    if 0 <= k < d.active.len() {
        let a = d.active[k];
        giving_up_is_outdated(a, p, d.cluster, finished);
        if !leaves(a) {
            assert(kept.active.contains(a));
            let j = choose|j: int| 0 <= j < kept.active.len() && kept.active[j] == a;
            assert(same_entry(kept.active[j], e.active[j]));
            assert(same_entry(e.active[j], a));
            if retire.contains(a.id) {
                let r = choose|r: int| 0 <= r < retire.len() && retire[r] == a.id;
                assert(kubernetes::names_one_that_leaves(d.active, leaves, retire[r]));
                let x = choose|x: int|
                    0 <= x < d.active.len() && leaves(#[trigger] d.active[x]) && d.active[x].id
                        == retire[r];
                assert(d.active[x].id == d.active[k].id);
            }
            assert forall|s: int| 0 <= s < start.len() implies (#[trigger] start[s]).identity()
                != a.id by {
                assert(entry_of(e.active[kept.active.len() + s], start[s]));
                assert(e.active[j].id != e.active[kept.active.len() + s].id);
            }
        }
    }
    if 0 <= k < start.len() {
        assert(wanted.contains(start[k]));
        assert(entry_of(e.active[kept.active.len() + k], start[k]));
        assert(followed(e, start[k].identity()));
    }
    if 0 <= k < retire.len() {
        assert(kubernetes::names_one_that_leaves(d.active, leaves, retire[k]));
    }
}

/// A list of all pods begins by doubting every log and ends by retiring those that no pod of the
/// list had; a pod that is gone takes its logs with it, and no other. None of this starts a log.
/// An interruption changes nothing but that it is put on record.
pub proof fn lists_and_deletions_are_followed(
    d: DiscoveryView,
    p: PodView,
    finished: Seq<Seq<char>>,
    m: MetricsView,
    k: int,
)
    requires
        d.bounded(),
        0 <= k < d.active.len(),
    ensures
        ({
            let a = d.active[k];
            let (begun, m1, none1) = d.observed(ObservationView::Init, finished, m);
            let (done, m2, ended) = d.observed(ObservationView::InitDone, finished, m);
            let (gone, m3, deleted) = d.observed(ObservationView::Delete(p), finished, m);
            let (same, m4, none2) = d.observed(ObservationView::Interrupted, finished, m);
            &&& begun.active.len() == d.active.len() && same_entry(begun.active[k], a)
                && !begun.active[k].seen && begun.initializing && !begun.overflow
            &&& none1.retire.len() == 0 && none1.start.len() == 0
            &&& !done.initializing && ended.start.len() == 0
            &&& ended.retire.contains(a.id) == !a.seen
            &&& done.active.contains(a) == a.seen
            &&& deleted.start.len() == 0
            &&& deleted.retire.contains(a.id) == (p.uid == Some(a.uid))
            &&& gone.active.contains(a) == (p.uid != Some(a.uid))
            &&& same == d && none2.retire.len() == 0 && none2.start.len() == 0
        }),
{
    let a = d.active[k];
    let unseen = |a: ActiveView| !a.seen;
    let own = |a: ActiveView| p.uid == Some(a.uid);
    kubernetes::parting_is_exact(d.active, unseen);
    kubernetes::parting_is_exact(d.active, own);
    leaving_is_own(d, unseen, k);
    leaving_is_own(d, own, k);
}

proof fn leaving_is_own(d: DiscoveryView, leaves: spec_fn(ActiveView) -> bool, k: int)
    requires
        d.bounded(),
        0 <= k < d.active.len(),
    ensures
        kubernetes::leaving(d.active, leaves).contains(d.active[k].id) == leaves(d.active[k]),
        kubernetes::staying(d.active, leaves).contains(d.active[k]) == !leaves(d.active[k]),
{
    kubernetes::parting_is_exact(d.active, leaves);
    let retire = kubernetes::leaving(d.active, leaves);
    let stay = kubernetes::staying(d.active, leaves);
    let a = d.active[k];
    if retire.contains(a.id) {
        let r = choose|r: int| 0 <= r < retire.len() && retire[r] == a.id;
        assert(kubernetes::names_one_that_leaves(d.active, leaves, retire[r]));
        let x = choose|x: int|
            0 <= x < d.active.len() && leaves(#[trigger] d.active[x]) && d.active[x].id
                == retire[r];
        assert(d.active[x].id == d.active[k].id);
    }
    if stay.contains(a) {
        let j = choose|j: int| 0 <= j < stay.len() && stay[j] == a;
        assert(!leaves(stay[j]));
    }
}

/// How often a line stands in a table of counts.
pub open spec fn tally(counts: Seq<(Seq<char>, u64)>, key: Seq<char>) -> int {
    match rows::find(counts, key) {
        Some(n) => n as int,
        None => 0,
    }
}

/// Whether a moment comes before another: by the second, and within one by the nanosecond.
pub open spec fn sooner(a: MomentView, b: MomentView) -> bool {
    a.seconds < b.seconds || a.seconds == b.seconds && a.nanos < b.nanos
}

/// What makes a line new. One without a moment is, and is counted as such. One of an earlier moment
/// than the last is not. One of a later moment is, and begins the count anew. One of the last moment
/// is new unless it is expected again; a line that was cut short, or for which there is no room,
/// is new and counted as an overflow. Every other line keeps its counts.
pub proof fn what_is_new(c: CursorView, line: LineView, other: Seq<char>)
    requires
        c.bounded(),
        c.overflows < u64::MAX,
        c.unstamped < u64::MAX,
    ensures
        ({
            let (d, new) = c.accepted(line);
            let key = kubernetes::line_key(line.bytes);
            match kubernetes::line_moment(line) {
                None => new && d.unstamped == c.unstamped + 1 && d.at == c.at && d.counts
                    == c.counts && d.replay == c.replay && d.overflows == c.overflows,
                Some(m) => {
                    let later = c.at is None || sooner(c.at->Some_0, m);
                    &&& d.unstamped == c.unstamped
                    &&& c.at is Some && sooner(m, c.at->Some_0) ==> !new && d == c
                    &&& later ==> {
                        &&& new && d.at == Some(m)
                        &&& d.timestamp == Some(kubernetes::line_stamp(line))
                        &&& tally(d.replay, other) == 0
                        &&& tally(d.counts, other) == (if other == key && !line.truncated
                            && c.limit > 0 {
                            1int
                        } else {
                            0int
                        })
                        &&& d.overflows == c.overflows + (if line.truncated || c.limit == 0 {
                            1int
                        } else {
                            0int
                        })
                    }
                    &&& !later && !sooner(m, c.at->Some_0) ==> {
                        let replayed = !line.truncated && tally(c.replay, key) > 0;
                        let room = tally(c.counts, key) > 0 || c.counts.len() < c.limit;
                        &&& new == !replayed
                        &&& d.at == c.at && d.timestamp == c.timestamp
                        &&& tally(d.replay, other) == tally(c.replay, other) - (if replayed && other
                            == key {
                            1int
                        } else {
                            0int
                        })
                        &&& other != key || replayed || line.truncated ==> tally(d.counts, other)
                            == tally(c.counts, other)
                        &&& !replayed && !line.truncated && room && tally(c.counts, key) < u64::MAX
                            ==> tally(d.counts, key) == tally(c.counts, key) + 1 && d.overflows
                            == c.overflows
                        &&& line.truncated ==> d.overflows == c.overflows + 1
                        &&& !replayed && rows::find(c.counts, key) is None && c.counts.len()
                            >= c.limit ==> d.overflows == c.overflows + 1
                    }
                },
            }
        }),
        tally(c.reconnected().replay, other) == tally(c.counts, other),
        tally(c.reconnected().counts, other) == tally(c.counts, other),
{
    let key = kubernetes::line_key(line.bytes);
    let none: Seq<(Seq<char>, u64)> = seq![];
    rows::put_then_find(none, key, 1, other);
    rows::put_then_find(none, key, 1, key);
    rows::put_then_find(c.replay, key, (c.expected(key) - 1) as u64, other);
    rows::put_then_find(c.replay, key, (c.expected(key) - 1) as u64, key);
    rows::put_then_find(c.counts, key, 1, other);
    rows::put_then_find(c.counts, key, 1, key);
    let n = tally(c.counts, key);
    let up: u64 = if n < u64::MAX {
        (n + 1) as u64
    } else {
        n as u64
    };
    rows::put_then_find(c.counts, key, up, other);
    rows::put_then_find(c.counts, key, up, key);
}

/// A log is asked for from the second of the last moment on, without a bound on what was missed; at
/// first, by the span and the number of lines that were chosen. The lines of the last moment are
/// expected again, and no others.
pub proof fn logs_are_resumed(f: FollowView, o: Options)
    ensures
        ({
            let r = f.request(o);
            &&& r.container == f.target.container && r.follow && r.timestamps
            &&& r.previous == f.target.previous
            &&& match f.cursor.at {
                Some(m) => r.since_time == Some(m.seconds) && r.since_seconds is None
                    && r.tail_lines is None,
                None => r.since_time is None && r.since_seconds == Some(o.since) && r.tail_lines
                    == Some(o.tail),
            }
        }),
{
}

/// The pause before an attempt starts at one second, doubles with every attempt that fails, and
/// stays at 32 seconds; once bytes come it starts again.
pub proof fn pauses_double(f: FollowView, attempt: u32, bytes: Seq<u8>, m: MetricsView)
    ensures
        kubernetes::pause_before(0) == 1,
        attempt <= 5 ==> kubernetes::pause_before(kubernetes::next_attempt(attempt)) == (if 2
            * kubernetes::pause_before(attempt) > 32 {
            32
        } else {
            2 * kubernetes::pause_before(attempt)
        }),
        attempt > 5 ==> kubernetes::pause_before(kubernetes::next_attempt(attempt)) == 32,
        f.received(bytes, m).0.attempt == 0,
        f.received(bytes, m).0.target == f.target,
{
}

/// The lines among others that a cursor takes for new.
pub open spec fn news(c: CursorView, lines: Seq<LineView>) -> Seq<LineView>
    decreases lines.len(),
{
    if lines.len() == 0 {
        seq![]
    } else {
        let before = news(c, lines.drop_last());
        if kubernetes::read_on(c, lines.drop_last()).accepted(lines.last()).1 {
            before.push(lines.last())
        } else {
            before
        }
    }
}

/// Every new line of a stream is parsed, once and in order, and no other is: what comes of the
/// lines of a stream is what comes of its new lines alone. The others are counted as duplicates.
pub proof fn new_lines_are_parsed(s: StreamView, lines: Seq<LineView>)
    requires
        s.has_room(lines.len()),
    ensures
        s.fed_all(lines).0.parser == s.parser.fed_all(news(s.cursor, lines)).0,
        s.fed_all(lines).1 == s.parser.fed_all(news(s.cursor, lines)).1,
        s.fed_all(lines).0.cursor == kubernetes::read_on(s.cursor, lines),
        s.fed_all(lines).0.metrics.duplicates + news(s.cursor, lines).len()
            == s.metrics.duplicates + lines.len(),
        news(s.cursor, lines).len() <= lines.len(),
    decreases lines.len(),
{
    if lines.len() > 0 {
        let rest = lines.drop_last();
        new_lines_are_parsed(s, rest);
        let n = news(s.cursor, rest);
        let all = news(s.cursor, lines);
        if kubernetes::read_on(s.cursor, rest).accepted(lines.last()).1 {
            assert(all.drop_last() =~= n);
            assert(all.last() == lines.last());
        }
    }
}

/// What becomes of a log that could be followed. One that is followed already is only noted as seen.
/// Where there is no room it is counted, and a gap is put on record for the first such log. Every
/// other is followed from now on and counted, with a record of what its history may lack.
pub proof fn logs_are_taken_in_or_counted(
    d: DiscoveryView,
    t: TargetView,
    m: MetricsView,
    start: Seq<TargetView>,
)
    requires
        m.gap_countable(),
        m.unfollowed_observations < u64::MAX,
        m.streams_started < u64::MAX,
    ensures
        ({
            let (e, n, go) = d.offered(t, m, start);
            let known = exists|i: int|
                0 <= i < d.active.len() && (#[trigger] d.active[i]).id == t.identity();
            let full = d.active.len() >= d.max_streams;
            &&& known ==> n == m && go == start && e.active.len() == d.active.len() && e.overflow
                == d.overflow
            &&& !known && full ==> {
                &&& e.active == d.active && go == start && e.overflow
                &&& n.unfollowed_observations == m.unfollowed_observations + 1
                &&& n.streams_started == m.streams_started
                &&& n.coverage_gaps == m.coverage_gaps + (if d.overflow {
                    0int
                } else {
                    1int
                })
            }
            &&& !known && !full ==> {
                &&& e.active.len() == d.active.len() + 1 && e.overflow == d.overflow
                &&& e.active[d.active.len() as int] == (ActiveView {
                    id: t.identity(),
                    uid: t.uid,
                    pod: t.pod,
                    namespace: t.namespace,
                    seen: true,
                })
                &&& go == start.push(t)
                &&& n.streams_started == m.streams_started + 1
                &&& n.unfollowed_observations == m.unfollowed_observations
                &&& n.coverage_gaps == m.coverage_gaps + 1
                &&& n.coverage[n.coverage.len() - 1].source == t.source
                &&& n.coverage[n.coverage.len() - 1].status == "limited"@
            }
            &&& e.max_streams == d.max_streams && e.cluster == d.cluster && e.initializing
                == d.initializing
        }),
{
    reveal_strlit("limited");
    reveal_strlit("ok");
    assert("limited"@.len() == 7 && "ok"@.len() == 2);
    kubernetes::seats_are_found(d.active, t.identity());
    match kubernetes::seat(d.active, t.identity()) {
        Some(i) => {
            assert(d.active[i].id == t.identity());
        },
        None => {},
    }
}

/// What is asked of a log at first: its own container, as it is or as it was before, with the times of
/// its lines, and no more than was said of its history.
pub proof fn logs_are_asked_for_within_bounds(o: Options, t: TargetView, follow: bool)
    ensures
        ({
            let r = kubernetes::log_request(o, t, follow);
            &&& r.container == t.container && r.previous == t.previous && r.follow == follow
            &&& r.timestamps
            &&& r.since_seconds == Some(o.since) && r.tail_lines == Some(o.tail)
            &&& r.since_time is None
        }),
{
}

}
