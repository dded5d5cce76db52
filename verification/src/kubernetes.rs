//! Read-only paginated inventory, discovery and bounded log streams.
use vstd::prelude::*;

use crate::digest;
use crate::events;
use crate::events::{
    Event, EventView, Framer, FramerView, Line, LineView, Parser, ParserView, Source,
};
use crate::exact;
use crate::json;
use crate::json::{Json, JsonView};
use crate::moment;
use crate::moment::{Moment, MomentView};
use crate::report;
use crate::report::{Metrics, MetricsView, ReportView};
use crate::rows;
use crate::rows::Row;
use crate::text;

verus! {

/// What is read of a cluster.
pub struct Options {
    pub context: Option<String>,
    pub namespace: Option<String>,
    pub selector: Option<String>,
    pub since: i64,
    pub tail: i64,
    pub max_bytes: u64,
    pub max_streams: usize,
    pub previous: bool,
    pub in_cluster: bool,
}

impl Clone for Options {
    fn clone(&self) -> (r: Self)
        ensures
            text::optional_view(r.context) == text::optional_view(self.context),
            text::optional_view(r.namespace) == text::optional_view(self.namespace),
            text::optional_view(r.selector) == text::optional_view(self.selector),
            r.since == self.since,
            r.tail == self.tail,
            r.max_bytes == self.max_bytes,
            r.max_streams == self.max_streams,
            r.previous == self.previous,
            r.in_cluster == self.in_cluster,
    {
        Options {
            context: text::clone_optional(&self.context),
            namespace: text::clone_optional(&self.namespace),
            selector: text::clone_optional(&self.selector),
            since: self.since,
            tail: self.tail,
            max_bytes: self.max_bytes,
            max_streams: self.max_streams,
            previous: self.previous,
            in_cluster: self.in_cluster,
        }
    }
}

/// The name of a cluster: how it was chosen, and the identity of its address.
pub open spec fn cluster_label(
    context: Option<Seq<char>>,
    in_cluster: bool,
    url: Seq<char>,
) -> Seq<char> {
    (match context {
        Some(c) => c,
        None => if in_cluster {
            "in-cluster"@
        } else {
            "inferred"@
        },
    }) + ":"@ + events::identity(JsonView::Text(url))
}

pub fn cluster_name(options: &Options, url: &str) -> (r: String)
    ensures
        r@ == cluster_label(text::optional_view(options.context), options.in_cluster, url@),
{
    let mut r = match &options.context {
        Some(c) => c.clone(),
        None => if options.in_cluster {
            "in-cluster".to_owned()
        } else {
            "inferred".to_owned()
        },
    };
    r.append(":");
    let id = events::hash(&json::string(url));
    r.append(id.as_str());
    r
}

/// What is known of a container of a pod.
pub struct ContainerStatus {
    pub name: String,
    pub restart_count: i32,
    pub running: bool,
}

#[verifier::ext_equal]
pub struct StatusView {
    pub name: Seq<char>,
    pub restart_count: i32,
    pub running: bool,
}

impl ContainerStatus {
    pub open spec fn view(&self) -> StatusView {
        StatusView {
            name: self.name@,
            restart_count: self.restart_count,
            running: self.running,
        }
    }
}

pub open spec fn statuses_view(v: Seq<ContainerStatus>) -> Seq<StatusView> {
    Seq::new(v.len(), |i: int| v[i]@)
}

/// The names of the containers of one kind, and what is known of them.
pub struct Containers {
    pub names: Vec<String>,
    pub statuses: Vec<ContainerStatus>,
}

#[verifier::ext_equal]
pub struct ContainersView {
    pub names: Seq<Seq<char>>,
    pub statuses: Seq<StatusView>,
}

impl Containers {
    pub open spec fn view(&self) -> ContainersView {
        ContainersView {
            names: text::list_view(self.names@),
            statuses: statuses_view(self.statuses@),
        }
    }
}

/// What is read of a pod. One without a specification has none of its containers listed.
pub struct Pod {
    pub uid: Option<String>,
    pub name: Option<String>,
    pub namespace: Option<String>,
    pub specified: bool,
    pub containers: Containers,
    pub init: Containers,
    pub ephemeral: Containers,
}

#[verifier::ext_equal]
pub struct PodView {
    pub uid: Option<Seq<char>>,
    pub name: Option<Seq<char>>,
    pub namespace: Option<Seq<char>>,
    pub specified: bool,
    pub containers: ContainersView,
    pub init: ContainersView,
    pub ephemeral: ContainersView,
}

impl Pod {
    pub open spec fn view(&self) -> PodView {
        PodView {
            uid: text::optional_view(self.uid),
            name: text::optional_view(self.name),
            namespace: text::optional_view(self.namespace),
            specified: self.specified,
            containers: self.containers@,
            init: self.init@,
            ephemeral: self.ephemeral@,
        }
    }
}

/// One log: of a container as it is, or as it was before its last restart.
pub struct Target {
    pub source: Source,
    pub namespace: String,
    pub pod: String,
    pub uid: String,
    pub container: String,
    pub restart: i32,
    pub previous: bool,
}

#[verifier::ext_equal]
pub struct TargetView {
    pub source: Seq<(Seq<char>, JsonView)>,
    pub namespace: Seq<char>,
    pub pod: Seq<char>,
    pub uid: Seq<char>,
    pub container: Seq<char>,
    pub restart: i32,
    pub previous: bool,
}

impl Clone for Target {
    fn clone(&self) -> (r: Self)
        ensures
            r@ == self@,
    {
        Target {
            source: self.source.clone(),
            namespace: self.namespace.clone(),
            pod: self.pod.clone(),
            uid: self.uid.clone(),
            container: self.container.clone(),
            restart: self.restart,
            previous: self.previous,
        }
    }
}

impl TargetView {
    /// The identity of a log.
    pub open spec fn identity(self) -> Seq<char> {
        events::identity(JsonView::Object(self.source))
    }
}

impl Target {
    pub open spec fn view(&self) -> TargetView {
        TargetView {
            source: self.source@,
            namespace: self.namespace@,
            pod: self.pod@,
            uid: self.uid@,
            container: self.container@,
            restart: self.restart,
            previous: self.previous,
        }
    }

    pub fn id(&self) -> (r: String)
        ensures
            r@ == self@.identity(),
            r@.len() == 20,
    {
        events::hash(&self.source.json())
    }
}

/// The views of a list of logs.
pub open spec fn targets_view(v: Seq<Target>) -> Seq<TargetView> {
    Seq::new(v.len(), |i: int| v[i]@)
}

/// Where the evidence of a log comes from.
pub open spec fn log_source(
    cluster: Seq<char>,
    namespace: Seq<char>,
    pod: Seq<char>,
    uid: Seq<char>,
    container: Seq<char>,
    kind: Seq<char>,
    restart: int,
    previous: bool,
) -> Seq<(Seq<char>, JsonView)> {
    let a = json::put(seq![], "type"@, JsonView::Text("kubernetes"@));
    let b = json::put(a, "context"@, JsonView::Text(cluster));
    let c = json::put(b, "namespace"@, JsonView::Text(namespace));
    let d = json::put(c, "pod"@, JsonView::Text(pod));
    let e = json::put(d, "pod_uid"@, JsonView::Text(uid));
    let f = json::put(e, "container"@, JsonView::Text(container));
    let g = json::put(f, "kind"@, JsonView::Text(kind));
    let h = json::put(g, "restart_count"@, json::integer(restart));
    json::put(h, "previous"@, JsonView::Bool(previous))
}

proof fn log_source_is_written(
    s: Scope,
    container: Seq<char>,
    kind: Seq<char>,
    restart: int,
    previous: bool,
)
    ensures
        exact::written(
            JsonView::Object(
                log_source(s.cluster, s.namespace, s.pod, s.uid, container, kind, restart, previous),
            ),
        ),
{
    exact::integers_are_exact(restart, restart);
    let a = json::put(seq![], "type"@, JsonView::Text("kubernetes"@));
    let b = json::put(a, "context"@, JsonView::Text(s.cluster));
    let c = json::put(b, "namespace"@, JsonView::Text(s.namespace));
    let d = json::put(c, "pod"@, JsonView::Text(s.pod));
    let e = json::put(d, "pod_uid"@, JsonView::Text(s.uid));
    let f = json::put(e, "container"@, JsonView::Text(container));
    let g = json::put(f, "kind"@, JsonView::Text(kind));
    let h = json::put(g, "restart_count"@, json::integer(restart));
    exact::put_is_written(seq![], "type"@, JsonView::Text("kubernetes"@));
    exact::put_is_written(a, "context"@, JsonView::Text(s.cluster));
    exact::put_is_written(b, "namespace"@, JsonView::Text(s.namespace));
    exact::put_is_written(c, "pod"@, JsonView::Text(s.pod));
    exact::put_is_written(d, "pod_uid"@, JsonView::Text(s.uid));
    exact::put_is_written(e, "container"@, JsonView::Text(container));
    exact::put_is_written(f, "kind"@, JsonView::Text(kind));
    exact::put_is_written(g, "restart_count"@, json::integer(restart));
    exact::put_is_written(h, "previous"@, JsonView::Bool(previous));
}

/// What is known of the container of a name.
pub open spec fn status_of(statuses: Seq<StatusView>, name: Seq<char>) -> Option<StatusView>
    decreases statuses.len(),
{
    if statuses.len() == 0 {
        None
    } else if statuses[0].name == name {
        Some(statuses[0])
    } else {
        status_of(statuses.drop_first(), name)
    }
}

/// How often the container of a name was restarted.
pub open spec fn restarts(c: ContainersView, name: Seq<char>) -> i32 {
    match status_of(c.statuses, name) {
        Some(s) => s.restart_count,
        None => 0,
    }
}

/// Whether the container of a name runs.
pub open spec fn runs(c: ContainersView, name: Seq<char>) -> bool {
    match status_of(c.statuses, name) {
        Some(s) => s.running,
        None => false,
    }
}

/// What the logs of one pod have in common.
pub struct Scope {
    pub cluster: Seq<char>,
    pub namespace: Seq<char>,
    pub pod: Seq<char>,
    pub uid: Seq<char>,
}

/// A log of a container.
pub open spec fn target_of(
    s: Scope,
    kind: Seq<char>,
    container: Seq<char>,
    restart: int,
    previous: bool,
) -> TargetView {
    TargetView {
        source: log_source(
            s.cluster,
            s.namespace,
            s.pod,
            s.uid,
            container,
            kind,
            restart,
            previous,
        ),
        namespace: s.namespace,
        pod: s.pod,
        uid: s.uid,
        container,
        restart: restart as i32,
        previous,
    }
}

/// The logs of the first `n` containers of a kind. Where containers are followed, only those that
/// run have one; else each has one, and another from before its last restart where that is wanted.
pub open spec fn targets_of(
    s: Scope,
    kind: Seq<char>,
    c: ContainersView,
    live: bool,
    previous: bool,
    n: nat,
) -> Seq<TargetView>
    decreases n,
{
    if n == 0 {
        seq![]
    } else {
        let before = targets_of(s, kind, c, live, previous, (n - 1) as nat);
        let name = c.names[n - 1];
        let restart = restarts(c, name);
        if live && !runs(c, name) {
            before
        } else if live || !previous || restart == 0 {
            before.push(target_of(s, kind, name, restart as int, false))
        } else {
            before.push(target_of(s, kind, name, restart as int, false)).push(
                target_of(s, kind, name, restart - 1, true),
            )
        }
    }
}

/// The logs of a pod.
pub open spec fn pod_targets(
    p: PodView,
    cluster: Seq<char>,
    live: bool,
    previous: bool,
) -> Seq<TargetView> {
    match (p.uid, p.name, p.namespace) {
        (Some(uid), Some(pod), Some(namespace)) => if p.specified {
            let s = Scope { cluster, namespace, pod, uid };
            targets_of(
                s,
                "container"@,
                p.containers,
                live,
                previous,
                p.containers.names.len(),
            ) + targets_of(s, "init"@, p.init, live, previous, p.init.names.len()) + targets_of(
                s,
                "ephemeral"@,
                p.ephemeral,
                live,
                previous,
                p.ephemeral.names.len(),
            )
        } else {
            seq![]
        },
        _ => seq![],
    }
}

/// Whether the restarts of each container can be counted back by one.
pub open spec fn countable_back(c: ContainersView) -> bool {
    forall|i: int| 0 <= i < c.names.len() ==> restarts(c, #[trigger] c.names[i]) > i32::MIN
}

impl Containers {
    /// Whether the restarts of each container can be counted back by one.
    fn countable(&self) -> (r: bool)
        ensures
            r == countable_back(self@),
    {
        let mut i: usize = 0;
        while i < self.names.len()
            invariant
                i <= self.names@.len(),
                forall|k: int| 0 <= k < i ==> restarts(self@, #[trigger] self@.names[k]) > i32::MIN,
            decreases self.names@.len() - i,
        {
            assert(self@.names[i as int] == self.names@[i as int]@);
            let restart: i32 = match find_status(&self.statuses, &self.names[i]) {
                Some(s) => s.restart_count,
                None => 0,
            };
            if restart == i32::MIN {
                return false;
            }
            i += 1;
        }
        true
    }
}

impl Pod {
    /// Whether the log from before the last restart of each container can be named.
    pub fn countable(&self) -> (r: bool)
        ensures
            r == (countable_back(self@.containers) && countable_back(self@.init) && countable_back(
                self@.ephemeral,
            )),
    {
        self.containers.countable() && self.init.countable() && self.ephemeral.countable()
    }
}

fn find_status<'a>(statuses: &'a Vec<ContainerStatus>, name: &String) -> (r: Option<
    &'a ContainerStatus,
>)
    ensures
        match r {
            Some(s) => status_of(statuses_view(statuses@), name@) == Some(s@),
            None => status_of(statuses_view(statuses@), name@) is None,
        },
{
    let ghost all = statuses_view(statuses@);
    let mut i: usize = 0;
    assert(all.skip(0) =~= all);
    while i < statuses.len()
        invariant
            all == statuses_view(statuses@),
            i <= statuses@.len(),
            status_of(all.skip(i as int), name@) == status_of(all, name@),
        decreases statuses@.len() - i,
    {
        assert(all.skip(i as int)[0] == statuses@[i as int]@);
        if statuses[i].name == *name {
            return Some(&statuses[i]);
        }
        assert(all.skip(i as int).drop_first() =~= all.skip(i + 1));
        i += 1;
    }
    None
}

fn make_target(
    cluster: &str,
    namespace: &String,
    pod: &String,
    uid: &String,
    kind: &str,
    container: &String,
    restart: i32,
    previous: bool,
) -> (r: Target)
    ensures
        r@ == target_of(
            Scope { cluster: cluster@, namespace: namespace@, pod: pod@, uid: uid@ },
            kind@,
            container@,
            restart as int,
            previous,
        ),
{
    let mut source = Source::new();
    source.insert("type", json::string("kubernetes"));
    source.insert("context", json::string(cluster));
    source.insert("namespace", json::string(namespace.as_str()));
    source.insert("pod", json::string(pod.as_str()));
    source.insert("pod_uid", json::string(uid.as_str()));
    source.insert("container", json::string(container.as_str()));
    source.insert("kind", json::string(kind));
    source.insert("restart_count", json::signed(restart as i64));
    source.insert("previous", Json::Bool(previous));
    Target {
        source,
        namespace: namespace.clone(),
        pod: pod.clone(),
        uid: uid.clone(),
        container: container.clone(),
        restart,
        previous,
    }
}

fn add_targets(
    out: &mut Vec<Target>,
    cluster: &str,
    namespace: &String,
    pod: &String,
    uid: &String,
    kind: &str,
    c: &Containers,
    live: bool,
    previous: bool,
)
    requires
        previous && !live ==> countable_back(c@),
    ensures
        targets_view(final(out)@) == targets_view(old(out)@) + targets_of(
            Scope { cluster: cluster@, namespace: namespace@, pod: pod@, uid: uid@ },
            kind@,
            c@,
            live,
            previous,
            c@.names.len(),
        ),
{
    let ghost s = Scope { cluster: cluster@, namespace: namespace@, pod: pod@, uid: uid@ };
    let ghost before = targets_view(out@);
    let mut i: usize = 0;
    assert(before + targets_of(s, kind@, c@, live, previous, 0) =~= before);
    while i < c.names.len()
        invariant
            s == (Scope { cluster: cluster@, namespace: namespace@, pod: pod@, uid: uid@ }),
            previous && !live ==> countable_back(c@),
            i <= c.names@.len(),
            targets_view(out@) == before + targets_of(s, kind@, c@, live, previous, i as nat),
        decreases c.names@.len() - i,
    {
        let name = &c.names[i];
        assert(c@.names[i as int] == name@);
        let ghost sofar = targets_view(out@);
        let status = find_status(&c.statuses, name);
        let restart = match status {
            Some(s) => s.restart_count,
            None => 0,
        };
        let running = match status {
            Some(s) => s.running,
            None => false,
        };
        if !(live && !running) {
            let now = make_target(cluster, namespace, pod, uid, kind, name, restart, false);
            let ghost first = now@;
            out.push(now);
            assert(targets_view(out@) =~= sofar.push(first));
            if !(live || !previous || restart == 0) {
                let was = make_target(
                    cluster,
                    namespace,
                    pod,
                    uid,
                    kind,
                    name,
                    restart - 1,
                    true,
                );
                let ghost second = was@;
                out.push(was);
                assert(targets_view(out@) =~= sofar.push(first).push(second));
            }
        }
        assert(targets_view(out@) =~= before + targets_of(
            s,
            kind@,
            c@,
            live,
            previous,
            (i + 1) as nat,
        ));
        i += 1;
    }
}

/// The logs of a pod.
pub fn targets(pod: &Pod, cluster: &str, live: bool, previous: bool) -> (r: Vec<Target>)
    requires
        previous && !live ==> countable_back(pod@.containers) && countable_back(pod@.init)
            && countable_back(pod@.ephemeral),
    ensures
        targets_view(r@) == pod_targets(pod@, cluster@, live, previous),
        forall|i: int|
            0 <= i < r@.len() ==> exact::written(JsonView::Object((#[trigger] r@[i])@.source)),
{
    proof {
        assert forall|i: int|
            0 <= i < pod_targets(pod@, cluster@, live, previous).len() implies exact::written(
            JsonView::Object(
                (#[trigger] pod_targets(pod@, cluster@, live, previous)[i]).source,
            ),
        ) by {
            targets_belong_to_the_pod(pod@, cluster@, live, previous, i);
        }
    }
    let mut out: Vec<Target> = Vec::new();
    assert(targets_view(out@) =~= seq![]);
    match (&pod.uid, &pod.name, &pod.namespace) {
        (Some(uid), Some(name), Some(namespace)) => {
            if pod.specified {
                add_targets(
                    &mut out,
                    cluster,
                    namespace,
                    name,
                    uid,
                    "container",
                    &pod.containers,
                    live,
                    previous,
                );
                add_targets(
                    &mut out,
                    cluster,
                    namespace,
                    name,
                    uid,
                    "init",
                    &pod.init,
                    live,
                    previous,
                );
                add_targets(
                    &mut out,
                    cluster,
                    namespace,
                    name,
                    uid,
                    "ephemeral",
                    &pod.ephemeral,
                    live,
                    previous,
                );
                assert(targets_view(out@) =~= pod_targets(pod@, cluster@, live, previous));
            }
            assert forall|i: int| 0 <= i < out@.len() implies exact::written(
                JsonView::Object((#[trigger] out@[i])@.source),
            ) by {
                assert(targets_view(out@)[i] == out@[i]@);
            }
            out
        },
        _ => out,
    }
}

proof fn targets_of_are(
    s: Scope,
    kind: Seq<char>,
    c: ContainersView,
    live: bool,
    previous: bool,
    n: nat,
)
    requires
        n <= c.names.len(),
    ensures
        forall|i: int|
            0 <= i < targets_of(s, kind, c, live, previous, n).len() ==> {
                let t = #[trigger] targets_of(s, kind, c, live, previous, n)[i];
                &&& t.uid == s.uid && t.pod == s.pod && t.namespace == s.namespace
                &&& c.names.contains(t.container)
                &&& live ==> runs(c, t.container) && !t.previous && t.restart == restarts(
                    c,
                    t.container,
                )
                &&& t.previous ==> previous && restarts(c, t.container) != 0
                &&& exact::written(JsonView::Object(t.source))
            },
    decreases n,
{
    if n > 0 {
        targets_of_are(s, kind, c, live, previous, (n - 1) as nat);
        assert(c.names[n - 1] == c.names[n - 1]);
        let before = targets_of(s, kind, c, live, previous, (n - 1) as nat);
        let all = targets_of(s, kind, c, live, previous, n);
        assert forall|i: int| 0 <= i < all.len() implies ({
            let t = #[trigger] all[i];
            &&& t.uid == s.uid && t.pod == s.pod && t.namespace == s.namespace
            &&& c.names.contains(t.container)
            &&& live ==> runs(c, t.container) && !t.previous && t.restart == restarts(
                c,
                t.container,
            )
            &&& t.previous ==> previous && restarts(c, t.container) != 0
            &&& exact::written(JsonView::Object(t.source))
        }) by {
            if i < before.len() {
                assert(all[i] == before[i]);
            }
            let name = c.names[n - 1];
            let restart = restarts(c, name);
            log_source_is_written(s, name, kind, restart as int, false);
            log_source_is_written(s, name, kind, restart - 1, true);
        }
    }
}

/// Whether a pod lists a container of a name that runs.
pub open spec fn has_running(p: PodView, name: Seq<char>) -> bool {
    ||| p.containers.names.contains(name) && runs(p.containers, name)
    ||| p.init.names.contains(name) && runs(p.init, name)
    ||| p.ephemeral.names.contains(name) && runs(p.ephemeral, name)
}

/// The logs of a pod are its own. Those that are followed are of containers that run, as they are
/// now; a log from before a restart is read only where that is wanted. The numbers in the source of
/// a log have the texts of numbers.
pub proof fn targets_belong_to_the_pod(
    p: PodView,
    cluster: Seq<char>,
    live: bool,
    previous: bool,
    i: int,
)
    requires
        0 <= i < pod_targets(p, cluster, live, previous).len(),
    ensures
        ({
            let t = pod_targets(p, cluster, live, previous)[i];
            &&& p.uid == Some(t.uid) && p.name == Some(t.pod) && p.namespace == Some(t.namespace)
            &&& live ==> has_running(p, t.container) && !t.previous
            &&& t.previous ==> previous && !live
            &&& exact::written(JsonView::Object(t.source))
        }),
{
    let s = Scope {
        cluster,
        namespace: p.namespace->Some_0,
        pod: p.name->Some_0,
        uid: p.uid->Some_0,
    };
    targets_of_are(s, "container"@, p.containers, live, previous, p.containers.names.len());
    targets_of_are(s, "init"@, p.init, live, previous, p.init.names.len());
    targets_of_are(s, "ephemeral"@, p.ephemeral, live, previous, p.ephemeral.names.len());
    let a = targets_of(s, "container"@, p.containers, live, previous, p.containers.names.len());
    let b = targets_of(s, "init"@, p.init, live, previous, p.init.names.len());
    let c = targets_of(s, "ephemeral"@, p.ephemeral, live, previous, p.ephemeral.names.len());
    let t = pod_targets(p, cluster, live, previous)[i];
    if i < a.len() {
        assert(t == a[i]);
    } else if i < a.len() + b.len() {
        assert(t == b[i - a.len()]);
    } else {
        assert(t == c[i - a.len() - b.len()]);
    }
}

/// Whether two logs are of the same instance of a container.
pub open spec fn same_log(a: TargetView, b: TargetView) -> bool {
    a.uid == b.uid && a.container == b.container && a.restart == b.restart && a.previous
        == b.previous
}

/// Whether a pod still has a log.
pub open spec fn still_has(p: PodView, t: TargetView) -> bool {
    exists|i: int|
        0 <= i < pod_targets(p, ""@, false, true).len() && same_log(
            #[trigger] pod_targets(p, ""@, false, true)[i],
            t,
        )
}

/// Whether a pod, as it is now, still has the log that was found before.
pub fn same_instance(pod: &Pod, target: &Target) -> (r: bool)
    requires
        countable_back(pod@.containers),
        countable_back(pod@.init),
        countable_back(pod@.ephemeral),
    ensures
        r == still_has(pod@, target@),
{
    let now = targets(pod, "", false, true);
    let ghost all = pod_targets(pod@, ""@, false, true);
    let mut i: usize = 0;
    while i < now.len()
        invariant
            all == pod_targets(pod@, ""@, false, true),
            targets_view(now@) == all,
            i <= now@.len(),
            forall|k: int| 0 <= k < i ==> !same_log(#[trigger] all[k], target@),
        decreases now@.len() - i,
    {
        let t = &now[i];
        assert(all[i as int] == t@);
        if text::same(t.uid.as_str(), target.uid.as_str()) && text::same(
            t.container.as_str(),
            target.container.as_str(),
        ) && t.restart == target.restart && t.previous == target.previous {
            assert(same_log(all[i as int], target@));
            return true;
        }
        i += 1;
    }
    assert(all.len() == now@.len());
    false
}

/// What is asked of the log of a container.
pub struct LogRequest {
    pub container: String,
    pub follow: bool,
    pub previous: bool,
    pub timestamps: bool,
    pub since_seconds: Option<i64>,
    pub since_time: Option<i64>,
    pub tail_lines: Option<i64>,
}

#[verifier::ext_equal]
pub struct LogRequestView {
    pub container: Seq<char>,
    pub follow: bool,
    pub previous: bool,
    pub timestamps: bool,
    pub since_seconds: Option<i64>,
    pub since_time: Option<i64>,
    pub tail_lines: Option<i64>,
}

impl LogRequest {
    pub open spec fn view(&self) -> LogRequestView {
        LogRequestView {
            container: self.container@,
            follow: self.follow,
            previous: self.previous,
            timestamps: self.timestamps,
            since_seconds: self.since_seconds,
            since_time: self.since_time,
            tail_lines: self.tail_lines,
        }
    }
}

/// What is asked of a log at first: a bounded part of what there is.
pub open spec fn log_request(o: Options, t: TargetView, follow: bool) -> LogRequestView {
    LogRequestView {
        container: t.container,
        follow,
        previous: t.previous,
        timestamps: true,
        since_seconds: Some(o.since),
        since_time: None,
        tail_lines: Some(o.tail),
    }
}

pub fn params(options: &Options, target: &Target, follow: bool) -> (r: LogRequest)
    ensures
        r@ == log_request(*options, target@, follow),
{
    LogRequest {
        container: target.container.clone(),
        follow,
        previous: target.previous,
        timestamps: true,
        since_seconds: Some(options.since),
        since_time: None,
        tail_lines: Some(options.tail),
    }
}

/// How often a line came.
pub struct Tally {
    pub key: String,
    pub count: u64,
}

impl Row for Tally {
    type Body = u64;

    open spec fn name(&self) -> Seq<char> {
        self.key@
    }

    open spec fn body(&self) -> u64 {
        self.count
    }

    fn key(&self) -> (r: &String) {
        &self.key
    }
}

/// The name of a line: the hash of its bytes.
pub open spec fn line_key(bytes: Seq<u8>) -> Seq<char> {
    text::hex(digest::sha256(bytes))
}

/// Where a log was read to. Behind a reconnect the lines of the last moment come again: as many of
/// each as were counted are recognised as replayed, so that evidence which really occurred more
/// than once is kept. Where more different lines came than can be counted, too much evidence is
/// kept rather than too little.
pub struct Cursor {
    pub timestamp: Option<String>,
    at: Option<Moment>,
    counts: Vec<Tally>,
    replay: Vec<Tally>,
    limit: usize,
    pub overflows: u64,
    pub unstamped: u64,
}

#[verifier::ext_equal]
pub struct CursorView {
    pub timestamp: Option<Seq<char>>,
    pub at: Option<MomentView>,
    pub counts: Seq<(Seq<char>, u64)>,
    pub replay: Seq<(Seq<char>, u64)>,
    pub limit: usize,
    pub overflows: u64,
    pub unstamped: u64,
}

/// The moment that a line states in its first word.
pub open spec fn line_moment(line: LineView) -> Option<MomentView> {
    moment::stated_moment(line_stamp(line))
}

pub open spec fn line_stamp(line: LineView) -> Seq<char> {
    text::first_word(text::lossy(line.bytes))
}

impl CursorView {
    pub open spec fn fresh(limit: usize) -> CursorView {
        CursorView {
            timestamp: None,
            at: None,
            counts: seq![],
            replay: seq![],
            limit,
            overflows: 0,
            unstamped: 0,
        }
    }

    /// The state behind a reconnect: what was counted is expected again.
    pub open spec fn reconnected(self) -> CursorView {
        CursorView { replay: self.counts, ..self }
    }

    /// The state at a line of a moment: a later moment starts the count anew.
    pub open spec fn moved_to(self, at: MomentView, stamp: Seq<char>) -> CursorView {
        if self.at is None || self.at->Some_0.earlier(at) {
            CursorView {
                at: Some(at),
                timestamp: Some(stamp),
                counts: seq![],
                replay: seq![],
                ..self
            }
        } else {
            self
        }
    }

    /// How often a line is still expected again.
    pub open spec fn expected(self, key: Seq<char>) -> u64 {
        match rows::find(self.replay, key) {
            Some(n) => n,
            None => 0,
        }
    }

    /// Counts a line of the present moment: the next state, and whether the line is new.
    pub open spec fn counted(self, line: LineView) -> (CursorView, bool) {
        let key = line_key(line.bytes);
        if line.truncated {
            (CursorView { overflows: (self.overflows + 1) as u64, ..self }, true)
        } else if self.expected(key) > 0 {
            (
                CursorView {
                    replay: rows::put(self.replay, key, (self.expected(key) - 1) as u64),
                    ..self
                },
                false,
            )
        } else {
            match rows::find(self.counts, key) {
                Some(n) => (
                    CursorView {
                        counts: rows::put(
                            self.counts,
                            key,
                            if n < u64::MAX {
                                (n + 1) as u64
                            } else {
                                n
                            },
                        ),
                        ..self
                    },
                    true,
                ),
                None => if self.counts.len() >= self.limit {
                    (CursorView { overflows: (self.overflows + 1) as u64, ..self }, true)
                } else {
                    (CursorView { counts: rows::put(self.counts, key, 1), ..self }, true)
                },
            }
        }
    }

    /// Takes in a line: the next state, and whether the line is new. A line without a moment is
    /// new, one of an earlier moment is not.
    pub open spec fn accepted(self, line: LineView) -> (CursorView, bool) {
        match line_moment(line) {
            None => (CursorView { unstamped: (self.unstamped + 1) as u64, ..self }, true),
            Some(at) => if self.at is Some && at.earlier(self.at->Some_0) {
                (self, false)
            } else {
                self.moved_to(at, line_stamp(line)).counted(line)
            },
        }
    }

    /// No more different lines are counted than may be.
    pub open spec fn bounded(self) -> bool {
        &&& self.counts.len() <= self.limit
        &&& self.replay.len() <= self.limit
        &&& rows::distinct(self.counts)
        &&& rows::distinct(self.replay)
    }
}

fn clone_tallies(v: &Vec<Tally>) -> (r: Vec<Tally>)
    ensures
        rows::table(r@) == rows::table(v@),
{
    let mut r: Vec<Tally> = Vec::new();
    let mut i: usize = 0;
    while i < v.len()
        invariant
            i <= v@.len(),
            r@.len() == i,
            forall|k: int|
                0 <= k < i ==> (#[trigger] r@[k]).key@ == v@[k].key@ && r@[k].count == v@[k].count,
        decreases v@.len() - i,
    {
        r.push(Tally { key: v[i].key.clone(), count: v[i].count });
        i += 1;
    }
    assert(rows::table(r@) =~= rows::table(v@));
    r
}

pub open spec fn moment_view(m: Option<Moment>) -> Option<MomentView> {
    match m {
        Some(x) => Some(x@),
        None => None,
    }
}

impl Cursor {
    pub closed spec fn view(&self) -> CursorView {
        CursorView {
            timestamp: text::optional_view(self.timestamp),
            at: moment_view(self.at),
            counts: rows::table(self.counts@),
            replay: rows::table(self.replay@),
            limit: self.limit,
            overflows: self.overflows,
            unstamped: self.unstamped,
        }
    }

    pub fn new(limit: usize) -> (r: Self)
        ensures
            r@ == CursorView::fresh(limit),
    {
        let r = Cursor {
            timestamp: None,
            at: None,
            counts: Vec::new(),
            replay: Vec::new(),
            limit,
            overflows: 0,
            unstamped: 0,
        };
        assert(r@ =~= CursorView::fresh(limit));
        r
    }

    pub fn reconnect(&mut self)
        ensures
            final(self)@ == old(self)@.reconnected(),
    {
        self.replay = clone_tallies(&self.counts);
    }

    /// How many different lines are counted.
    pub fn distinct_lines(&self) -> (r: usize)
        ensures
            r == self@.counts.len(),
    {
        self.counts.len()
    }

    /// The second of the last moment, if there is one.
    pub fn second(&self) -> (r: Option<i64>)
        ensures
            r == (match self@.at {
                Some(m) => Some(m.seconds),
                None => None,
            }),
    {
        match &self.at {
            Some(m) => Some(m.seconds),
            None => None,
        }
    }

    /// Takes in a line: whether it is new.
    pub fn accept(&mut self, line: &Line) -> (r: bool)
        requires
            old(self)@.overflows < u64::MAX,
            old(self)@.unstamped < u64::MAX,
        ensures
            (final(self)@, r) == old(self)@.accepted(line@),
    {
        let ghost before = self@;
        let raw = text::lossy_text(line.bytes.as_slice());
        let stamp = text::leading_word(raw.as_str());
        let at = match moment::read_moment(stamp.as_str()) {
            Some(m) => m,
            None => {
                self.unstamped = self.unstamped + 1;
                return true;
            },
        };
        let mut later = true;
        if let Some(last) = &self.at {
            if at.is_earlier(last) {
                return false;
            }
            later = last.is_earlier(&at);
        }
        let ghost moved = before.moved_to(at@, stamp@);
        if later {
            self.at = Some(at);
            self.timestamp = Some(stamp);
            self.counts = Vec::new();
            self.replay = Vec::new();
            assert(rows::table(self.counts@) =~= seq![]);
            assert(rows::table(self.replay@) =~= seq![]);
        }
        assert(self@ =~= moved);
        if line.truncated {
            self.overflows = self.overflows + 1;
            return true;
        }
        let key = digest::hex_digest(line.bytes.as_slice());
        let i = rows::position(&self.replay, &key);
        if i < self.replay.len() && self.replay[i].count > 0 {
            let left = self.replay[i].count - 1;
            rows::put_row(&mut self.replay, Tally { key, count: left });
            return false;
        }
        let k = rows::position(&self.counts, &key);
        if k == self.counts.len() && self.counts.len() >= self.limit {
            self.overflows = self.overflows + 1;
            return true;
        }
        let mut count: u64 = 1;
        if k < self.counts.len() {
            let n = self.counts[k].count;
            count = if n < u64::MAX {
                n + 1
            } else {
                n
            };
        }
        rows::put_row(&mut self.counts, Tally { key, count });
        true
    }
}

/// However many lines come, no more of them are counted than may be.
pub proof fn cursor_stays_bounded(c: CursorView, line: LineView)
    requires
        c.bounded(),
    ensures
        c.accepted(line).0.bounded(),
        c.reconnected().bounded(),
        c.accepted(line).0.limit == c.limit,
{
    if let Some(at) = line_moment(line) {
        let moved = c.moved_to(at, line_stamp(line));
        let key = line_key(line.bytes);
        rows::put_then_find(moved.replay, key, (moved.expected(key) - 1) as u64, key);
        match rows::find(moved.counts, key) {
            Some(n) => rows::put_then_find(
                moved.counts,
                key,
                if n < u64::MAX {
                    (n + 1) as u64
                } else {
                    n
                },
                key,
            ),
            None => rows::put_then_find(moved.counts, key, 1, key),
        }
    }
}

/// A whole line of the last moment that is new is counted, where it was counted before or there is
/// room for it.
pub proof fn new_lines_are_counted(c: CursorView, line: LineView)
    requires
        c.at matches Some(at) && of_moment(line, at),
        !line.truncated,
        c.expected(line_key(line.bytes)) == 0,
        rows::find(c.counts, line_key(line.bytes)) is Some || c.counts.len() < c.limit,
    ensures
        c.accepted(line).1,
        rows::find(c.accepted(line).0.counts, line_key(line.bytes)) == Some(
            match rows::find(c.counts, line_key(line.bytes)) {
                Some(n) => if n < u64::MAX {
                    (n + 1) as u64
                } else {
                    n
                },
                None => 1,
            },
        ),
{
    let key = line_key(line.bytes);
    let n: u64 = match rows::find(c.counts, key) {
        Some(n) => if n < u64::MAX {
            (n + 1) as u64
        } else {
            n
        },
        None => 1,
    };
    rows::put_then_find(c.counts, key, n, key);
}

/// Takes in lines, one after the other: the state behind them.
pub open spec fn read_on(c: CursorView, lines: Seq<LineView>) -> CursorView
    decreases lines.len(),
{
    if lines.len() == 0 {
        c
    } else {
        read_on(c, lines.drop_last()).accepted(lines.last()).0
    }
}

/// Whether a line is of a moment that is neither earlier nor later than another.
pub open spec fn of_moment(line: LineView, at: MomentView) -> bool {
    line_moment(line) matches Some(m) && !m.earlier(at) && !at.earlier(m)
}

/// Whether a line is of no later moment than another; one without a moment is not.
pub open spec fn not_later(line: LineView, at: MomentView) -> bool {
    line_moment(line) matches Some(m) ==> !at.earlier(m)
}

/// How often a whole line of a moment occurs among others, by its hash.
pub open spec fn offers(lines: Seq<LineView>, line: LineView, at: MomentView) -> nat
    decreases lines.len(),
{
    if lines.len() == 0 {
        0
    } else {
        let l = lines.last();
        offers(lines.drop_last(), line, at) + if !l.truncated && of_moment(l, at) && line_key(
            l.bytes,
        ) == line_key(line.bytes) {
            1nat
        } else {
            0nat
        }
    }
}

/// Multiplicity is kept across a reconnect: a whole line of the last moment that was counted `n`
/// times is taken for a replay the next `n` times it comes, and for new evidence after that,
/// whatever other lines of no later moment come between. Lines of an earlier moment are never new.
pub proof fn replays_keep_multiplicity(
    c: CursorView,
    line: LineView,
    n: u64,
    lines: Seq<LineView>,
    other: LineView,
)
    requires
        c.at matches Some(at) && of_moment(line, at) && forall|i: int|
            0 <= i < lines.len() ==> not_later(#[trigger] lines[i], at),
        !line.truncated,
        rows::find(c.counts, line_key(line.bytes)) == Some(n),
    ensures
        ({
            let d = read_on(c.reconnected(), lines);
            let k = offers(lines, line, c.at->Some_0);
            &&& d.at == c.at
            &&& d.expected(line_key(line.bytes)) == (if k < n {
                n - k
            } else {
                0
            })
            &&& d.accepted(line).1 == (k >= n)
            &&& (line_moment(other) matches Some(m) && m.earlier(c.at->Some_0))
                ==> !d.accepted(other).1
        }),
    decreases lines.len(),
{
    let key = line_key(line.bytes);
    if lines.len() > 0 {
        let rest = lines.drop_last();
        let l = lines.last();
        let at = c.at->Some_0;
        assert forall|i: int| 0 <= i < rest.len() implies not_later(#[trigger] rest[i], at) by {
            assert(rest[i] == lines[i]);
        }
        assert(not_later(lines[lines.len() - 1], at));
        replays_keep_multiplicity(c, line, n, rest, other);
        let d = read_on(c.reconnected(), rest);
        let name = line_key(l.bytes);
        rows::put_then_find(d.replay, name, (d.expected(name) - 1) as u64, key);
        rows::put_then_find(d.replay, name, (d.expected(name) - 1) as u64, name);
    }
}

/// Nothing is lost in doubt: a line is taken for known only where it is of an earlier moment than
/// the last, or is expected again.
pub proof fn only_known_lines_are_dropped(c: CursorView, line: LineView)
    requires
        !c.accepted(line).1,
    ensures
        c.at is Some,
        line_moment(line) matches Some(at) && (at.earlier(c.at->Some_0) || c.moved_to(
            at,
            line_stamp(line),
        ).expected(line_key(line.bytes)) > 0),
{
}

/// A stream of lines as it is read: through the cursor, into the parser.
#[verifier::ext_equal]
pub struct StreamView {
    pub cursor: CursorView,
    pub parser: ParserView,
    pub metrics: MetricsView,
}

impl StreamView {
    /// Takes in a line: the next state, and the event that it completes.
    pub open spec fn fed(self, line: LineView) -> (StreamView, Option<EventView>) {
        let (cursor, new) = self.cursor.accepted(line);
        let (parser, event) = if new {
            self.parser.fed(line)
        } else {
            (self.parser, None)
        };
        let metrics = MetricsView {
            duplicates: if new {
                self.metrics.duplicates
            } else {
                (self.metrics.duplicates + 1) as u64
            },
            dedup_overflows: (self.metrics.dedup_overflows + (cursor.overflows
                - self.cursor.overflows)) as u64,
            untimestamped_lines: (self.metrics.untimestamped_lines + (cursor.unstamped
                - self.cursor.unstamped)) as u64,
            ..self.metrics
        };
        (StreamView { cursor, parser, metrics }, event)
    }

    /// Takes in lines, one after the other.
    pub open spec fn fed_all(self, lines: Seq<LineView>) -> (StreamView, Seq<EventView>)
        decreases lines.len(),
    {
        if lines.len() == 0 {
            (self, seq![])
        } else {
            let (before, done) = self.fed_all(lines.drop_last());
            let (after, event) = before.fed(lines.last());
            (
                after,
                match event {
                    Some(e) => done.push(e),
                    None => done,
                },
            )
        }
    }

    /// Whether so many lines can be counted.
    pub open spec fn has_room(self, n: nat) -> bool {
        &&& self.cursor.overflows + n <= u64::MAX
        &&& self.cursor.unstamped + n <= u64::MAX
        &&& self.parser.line + n <= u64::MAX
        &&& self.metrics.duplicates + n <= u64::MAX
        &&& self.metrics.dedup_overflows + n <= u64::MAX
        &&& self.metrics.untimestamped_lines + n <= u64::MAX
    }
}

/// Takes in a line of a stream, and gives back the event that it completes.
pub fn feed_line(
    line: Line,
    cursor: &mut Cursor,
    parser: &mut Parser,
    metrics: &mut Metrics,
) -> (r: Option<Event>)
    requires
        old(parser).wf(),
        (StreamView {
            cursor: old(cursor)@,
            parser: old(parser)@,
            metrics: old(metrics)@,
        }).has_room(1),
    ensures
        final(parser).wf(),
        ({
            let (s, e) = (StreamView {
                cursor: old(cursor)@,
                parser: old(parser)@,
                metrics: old(metrics)@,
            }).fed(line@);
            &&& s == (StreamView {
                cursor: final(cursor)@,
                parser: final(parser)@,
                metrics: final(metrics)@,
            })
            &&& match r {
                Some(x) => e == Some(x@),
                None => e is None,
            }
        }),
{
    let ghost was = cursor@;
    let overflows = cursor.overflows;
    let unstamped = cursor.unstamped;
    let new = cursor.accept(&line);
    assert(cursor@.overflows <= was.overflows + 1 && cursor@.overflows >= was.overflows);
    assert(cursor@.unstamped <= was.unstamped + 1 && cursor@.unstamped >= was.unstamped);
    let r = if new {
        parser.feed(line)
    } else {
        metrics.duplicates = metrics.duplicates + 1;
        None
    };
    metrics.dedup_overflows = metrics.dedup_overflows + (cursor.overflows - overflows);
    metrics.untimestamped_lines = metrics.untimestamped_lines + (cursor.unstamped - unstamped);
    r
}

/// How many different lines of a moment are counted in a log that is followed.
pub const CURSOR_LIMIT: usize = 4096;

/// A log that is followed, across interruptions.
pub struct Follow {
    target: Target,
    cursor: Cursor,
    parser: Parser,
    framer: Framer,
    attempt: u32,
}

#[verifier::ext_equal]
pub struct FollowView {
    pub target: TargetView,
    pub cursor: CursorView,
    pub parser: ParserView,
    pub framer: FramerView,
    pub attempt: u32,
}

/// The number of the next attempt; it does not rise for ever.
pub open spec fn next_attempt(attempt: u32) -> u32 {
    if attempt >= 5 {
        5
    } else {
        (attempt + 1) as u32
    }
}

/// How many seconds to wait before an attempt: twice as many each time.
pub open spec fn pause_before(attempt: u32) -> u64 {
    if attempt == 0 {
        1
    } else if attempt == 1 {
        2
    } else if attempt == 2 {
        4
    } else if attempt == 3 {
        8
    } else if attempt == 4 {
        16
    } else {
        32
    }
}

fn pause_for(attempt: u32) -> (r: u64)
    ensures
        r == pause_before(attempt),
{
    if attempt == 0 {
        1
    } else if attempt == 1 {
        2
    } else if attempt == 2 {
        4
    } else if attempt == 3 {
        8
    } else if attempt == 4 {
        16
    } else {
        32
    }
}

/// What is said where a log cannot be confirmed to be the one that was found.
pub open spec fn unconfirmed_text() -> Seq<char> {
    "Container identity unavailable or changed; retrying validation while awaiting discovery"@
}

/// What is said where the stream of a log ends.
pub open spec fn disconnected_text() -> Seq<char> {
    "Log stream disconnected; reconnecting, rotation or disconnect may leave gaps"@
}

impl FollowView {
    pub open spec fn stream(self, metrics: MetricsView) -> StreamView {
        StreamView { cursor: self.cursor, parser: self.parser, metrics }
    }

    /// What is asked for next: the log from the last moment on, where there is one. The request is
    /// for the whole second of that moment; what was read of it is recognised.
    pub open spec fn request(self, o: Options) -> LogRequestView {
        let first = log_request(o, self.target, true);
        match self.cursor.at {
            Some(m) => LogRequestView {
                since_time: Some(m.seconds),
                since_seconds: None,
                tail_lines: None,
                ..first
            },
            None => first,
        }
    }

    /// The state and the counts behind bytes that were read, and the events that they complete.
    pub open spec fn received(
        self,
        bytes: Seq<u8>,
        metrics: MetricsView,
    ) -> (FollowView, MetricsView, Seq<EventView>) {
        let (framer, lines) = self.framer.pushed(bytes);
        let (s, done) = self.stream(metrics).fed_all(lines);
        (
            FollowView { attempt: 0, framer, cursor: s.cursor, parser: s.parser, ..self },
            s.metrics,
            done,
        )
    }

    /// The state and the counts behind the end of a stream, and the events that are left of it. A
    /// line without an end counts as cut short.
    pub open spec fn ended(
        self,
        metrics: MetricsView,
    ) -> (FollowView, MetricsView, Seq<EventView>) {
        let (s, first) = match self.framer.line() {
            Some(line) => self.stream(metrics).fed(LineView { truncated: true, ..line }),
            None => (self.stream(metrics), None),
        };
        let a = match first {
            Some(e) => seq![e],
            None => seq![],
        };
        (
            FollowView {
                framer: self.framer.cleared(),
                cursor: s.cursor,
                parser: ParserView { pending: None, ..s.parser },
                ..self
            },
            s.metrics,
            match s.parser.flushed() {
                Some(e) => a.push(e),
                None => a,
            },
        )
    }
}

proof fn stream_counts(s: StreamView, lines: Seq<LineView>)
    requires
        s.has_room(lines.len()),
    ensures
        ({
            let t = s.fed_all(lines).0;
            &&& t.cursor.overflows <= s.cursor.overflows + lines.len()
            &&& t.cursor.unstamped <= s.cursor.unstamped + lines.len()
            &&& t.parser.line <= s.parser.line + lines.len()
            &&& t.metrics.duplicates <= s.metrics.duplicates + lines.len()
            &&& t.metrics.dedup_overflows <= s.metrics.dedup_overflows + lines.len()
            &&& t.metrics.untimestamped_lines <= s.metrics.untimestamped_lines + lines.len()
        }),
    decreases lines.len(),
{
    if lines.len() > 0 {
        stream_counts(s, lines.drop_last());
    }
}

fn feed_lines(
    lines: Vec<Line>,
    cursor: &mut Cursor,
    parser: &mut Parser,
    metrics: &mut Metrics,
) -> (r: Vec<Event>)
    requires
        old(parser).wf(),
        (StreamView {
            cursor: old(cursor)@,
            parser: old(parser)@,
            metrics: old(metrics)@,
        }).has_room(lines@.len()),
    ensures
        final(parser).wf(),
        (
            StreamView {
                cursor: final(cursor)@,
                parser: final(parser)@,
                metrics: final(metrics)@,
            },
            events::events_view(r@),
        ) == (StreamView {
            cursor: old(cursor)@,
            parser: old(parser)@,
            metrics: old(metrics)@,
        }).fed_all(events::lines_view(lines@)),
{
    let ghost start = StreamView { cursor: cursor@, parser: parser@, metrics: metrics@ };
    let ghost all = events::lines_view(lines@);
    let mut todo: Vec<Line> = Vec::new();
    let mut given = lines;
    while given.len() > 0
        invariant
            given@.len() + todo@.len() == all.len(),
            forall|i: int| 0 <= i < given@.len() ==> (#[trigger] given@[i])@ == all[i],
            forall|i: int|
                0 <= i < todo@.len() ==> (#[trigger] todo@[i])@ == all[all.len() - 1 - i],
        decreases given@.len(),
    {
        todo.push(given.pop().unwrap());
    }
    let mut r: Vec<Event> = Vec::new();
    assert(all.take(0) =~= seq![]);
    assert(events::events_view(r@) =~= seq![]);
    while todo.len() > 0
        invariant
            parser.wf(),
            start.has_room(all.len()),
            todo@.len() <= all.len(),
            forall|i: int|
                0 <= i < todo@.len() ==> (#[trigger] todo@[i])@ == all[all.len() - 1 - i],
            (
                StreamView { cursor: cursor@, parser: parser@, metrics: metrics@ },
                events::events_view(r@),
            ) == start.fed_all(all.take(all.len() - todo@.len())),
        decreases todo@.len(),
    {
        let ghost done = all.len() - todo@.len();
        let ghost before = events::events_view(r@);
        proof {
            stream_counts(start, all.take(done));
        }
        let line = todo.pop().unwrap();
        assert(line@ == all[done]);
        assert(all.take(done + 1).drop_last() =~= all.take(done));
        match feed_line(line, cursor, parser, metrics) {
            Some(e) => {
                r.push(e);
                assert(events::events_view(r@) =~= before.push(e@));
            },
            None => {},
        }
    }
    assert(all.take(all.len() as int) =~= all);
    r
}

impl Follow {
    pub closed spec fn view(&self) -> FollowView {
        FollowView {
            target: self.target@,
            cursor: self.cursor@,
            parser: self.parser@,
            framer: self.framer@,
            attempt: self.attempt,
        }
    }

    pub closed spec fn wf(&self) -> bool {
        self.parser.wf() && self.framer.wf()
    }

    pub fn new(target: Target) -> (r: Self)
        ensures
            r.wf(),
            r@ == (FollowView {
                target: target@,
                cursor: CursorView::fresh(CURSOR_LIMIT),
                parser: ParserView { source: target@.source, pending: None, line: 0 },
                framer: events::framer_start(),
                attempt: 0,
            }),
    {
        let parser = Parser::new(target.source.clone());
        Follow {
            target,
            cursor: Cursor::new(CURSOR_LIMIT),
            parser,
            framer: Framer::default(),
            attempt: 0,
        }
    }

    /// Puts on record that the log could not be confirmed; the seconds to wait before the next
    /// attempt.
    pub fn unconfirmed(&mut self, metrics: &mut Metrics) -> (pause: u64)
        requires
            old(self).wf(),
            old(metrics)@.gap_countable(),
        ensures
            final(self).wf(),
            final(self)@ == (FollowView {
                attempt: next_attempt(old(self)@.attempt),
                ..old(self)@
            }),
            final(metrics)@ == old(metrics)@.with_gap(
                old(self)@.target.source,
                "error"@,
                unconfirmed_text(),
            ),
            pause == pause_before(next_attempt(old(self)@.attempt)),
    {
        report::gap(
            metrics,
            &self.target.source,
            "error",
            "Container identity unavailable or changed; retrying validation while awaiting discovery",
        );
        self.attempt = if self.attempt >= 5 {
            5
        } else {
            self.attempt + 1
        };
        pause_for(self.attempt)
    }

    /// What to ask for next. What was read of the last moment is expected again.
    pub fn request(&mut self, options: &Options) -> (r: LogRequest)
        requires
            old(self).wf(),
        ensures
            final(self).wf(),
            r@ == old(self)@.request(*options),
            final(self)@ == (FollowView {
                cursor: old(self)@.cursor.reconnected(),
                ..old(self)@
            }),
    {
        let mut r = params(options, &self.target, true);
        if let Some(second) = self.cursor.second() {
            r.since_time = Some(second);
            r.since_seconds = None;
            r.tail_lines = None;
        }
        self.cursor.reconnect();
        r
    }

    /// Takes in bytes of the log, and gives back the events that they complete.
    pub fn receive(&mut self, bytes: &[u8], metrics: &mut Metrics) -> (r: Vec<Event>)
        requires
            old(self).wf(),
            old(self)@.stream(old(metrics)@).has_room(bytes@.len()),
        ensures
            final(self).wf(),
            (final(self)@, final(metrics)@, events::events_view(r@)) == old(self)@.received(
                bytes@,
                old(metrics)@,
            ),
    {
        proof {
            events::lines_take_bytes(self.framer@, bytes@);
        }
        self.attempt = 0;
        let lines = self.framer.push(bytes);
        assert(events::lines_view(lines@).len() == lines@.len());
        feed_lines(lines, &mut self.cursor, &mut self.parser, metrics)
    }

    /// Whether an event is being put together.
    pub fn has_pending(&self) -> (r: bool)
        ensures
            r == (self@.parser.pending is Some),
    {
        self.parser.has_pending()
    }

    /// Gives back the event that is being put together, where nothing came for a while.
    pub fn flush(&mut self) -> (r: Option<Event>)
        requires
            old(self).wf(),
        ensures
            final(self).wf(),
            final(self)@ == (FollowView {
                parser: ParserView { pending: None, ..old(self)@.parser },
                ..old(self)@
            }),
            match r {
                Some(e) => old(self)@.parser.flushed() == Some(e@),
                None => old(self)@.parser.flushed() is None,
            },
    {
        self.parser.flush()
    }

    /// Ends a stream, and gives back the events that are left of it.
    pub fn end(&mut self, metrics: &mut Metrics) -> (r: Vec<Event>)
        requires
            old(self).wf(),
            old(self)@.stream(old(metrics)@).has_room(1),
        ensures
            final(self).wf(),
            (final(self)@, final(metrics)@, events::events_view(r@)) == old(self)@.ended(
                old(metrics)@,
            ),
    {
        let mut r: Vec<Event> = Vec::new();
        assert(events::events_view(r@) =~= seq![]);
        match self.framer.finish() {
            Some(line) => {
                let mut last = line;
                last.truncated = true;
                match feed_line(last, &mut self.cursor, &mut self.parser, metrics) {
                    Some(e) => {
                        r.push(e);
                        assert(events::events_view(r@) =~= seq![e@]);
                    },
                    None => {},
                }
            },
            None => {},
        }
        let ghost first = events::events_view(r@);
        match self.parser.flush() {
            Some(e) => {
                r.push(e);
                assert(events::events_view(r@) =~= first.push(e@));
            },
            None => {},
        }
        r
    }

    /// Puts on record that the stream ended; the seconds to wait before the next attempt.
    pub fn disconnected(&mut self, metrics: &mut Metrics) -> (pause: u64)
        requires
            old(self).wf(),
            old(metrics)@.gap_countable(),
            old(metrics)@.reconnects < u64::MAX,
        ensures
            final(self).wf(),
            final(self)@ == (FollowView {
                attempt: next_attempt(old(self)@.attempt),
                ..old(self)@
            }),
            final(metrics)@ == (MetricsView {
                reconnects: (old(metrics)@.reconnects + 1) as u64,
                ..old(metrics)@.with_gap(
                    old(self)@.target.source,
                    "limited"@,
                    disconnected_text(),
                )
            }),
            pause == pause_before(next_attempt(old(self)@.attempt)),
    {
        report::gap(
            metrics,
            &self.target.source,
            "limited",
            "Log stream disconnected; reconnecting, rotation or disconnect may leave gaps",
        );
        metrics.reconnects = metrics.reconnects + 1;
        self.attempt = if self.attempt >= 5 {
            5
        } else {
            self.attempt + 1
        };
        pause_for(self.attempt)
    }
}

/// A log that is being followed.
pub struct Active {
    pub id: String,
    pub uid: String,
    pub pod: String,
    pub namespace: String,
    pub seen: bool,
}

#[verifier::ext_equal]
pub struct ActiveView {
    pub id: Seq<char>,
    pub uid: Seq<char>,
    pub pod: Seq<char>,
    pub namespace: Seq<char>,
    pub seen: bool,
}

impl Active {
    pub open spec fn view(&self) -> ActiveView {
        ActiveView {
            id: self.id@,
            uid: self.uid@,
            pod: self.pod@,
            namespace: self.namespace@,
            seen: self.seen,
        }
    }
}

impl Clone for Active {
    fn clone(&self) -> (r: Self)
        ensures
            r@ == self@,
    {
        Active {
            id: self.id.clone(),
            uid: self.uid.clone(),
            pod: self.pod.clone(),
            namespace: self.namespace.clone(),
            seen: self.seen,
        }
    }
}

/// The views of a list of logs that are being followed.
pub open spec fn active_view(v: Seq<Active>) -> Seq<ActiveView> {
    Seq::new(v.len(), |i: int| v[i]@)
}

/// Which logs are followed, as far as the cluster's pods are known.
pub struct Discovery {
    active: Vec<Active>,
    overflow: bool,
    initializing: bool,
    max_streams: usize,
    cluster: String,
}

#[verifier::ext_equal]
pub struct DiscoveryView {
    pub active: Seq<ActiveView>,
    pub overflow: bool,
    pub initializing: bool,
    pub max_streams: usize,
    pub cluster: Seq<char>,
}

/// What is to be done: logs that are no longer followed, and logs that are followed from now on.
pub struct Moves {
    pub retire: Vec<String>,
    pub start: Vec<Target>,
}

#[verifier::ext_equal]
pub struct MovesView {
    pub retire: Seq<Seq<char>>,
    pub start: Seq<TargetView>,
}

impl Moves {
    pub open spec fn view(&self) -> MovesView {
        MovesView {
            retire: text::list_view(self.retire@),
            start: targets_view(self.start@),
        }
    }
}

/// What is observed of the cluster.
pub enum Observation {
    /// The list of all pods begins.
    Init,
    /// The list of all pods is at its end.
    InitDone,
    /// A pod is gone.
    Delete(Pod),
    /// A pod is there, or has changed.
    Apply(Pod),
    /// The view of the cluster was interrupted.
    Interrupted,
}

/// Logs that stay, and the names of those that do not, by what leaves.
pub open spec fn staying(active: Seq<ActiveView>, leaves: spec_fn(ActiveView) -> bool) -> Seq<
    ActiveView,
>
    decreases active.len(),
{
    if active.len() == 0 {
        seq![]
    } else {
        let before = staying(active.drop_last(), leaves);
        if leaves(active.last()) {
            before
        } else {
            before.push(active.last())
        }
    }
}

pub open spec fn leaving(active: Seq<ActiveView>, leaves: spec_fn(ActiveView) -> bool) -> Seq<
    Seq<char>,
>
    decreases active.len(),
{
    if active.len() == 0 {
        seq![]
    } else {
        let before = leaving(active.drop_last(), leaves);
        if leaves(active.last()) {
            before.push(active.last().id)
        } else {
            before
        }
    }
}

/// The identities of logs.
pub open spec fn identities(targets: Seq<TargetView>) -> Seq<Seq<char>> {
    Seq::new(targets.len(), |i: int| targets[i].identity())
}

/// Whether a log is no longer followed once a pod is known as it is: its stream has ended, the pod
/// of its name is another one, or the pod no longer has it.
pub open spec fn outdated(
    p: PodView,
    wanted: Seq<Seq<char>>,
    finished: Seq<Seq<char>>,
) -> spec_fn(ActiveView) -> bool {
    |a: ActiveView|
        finished.contains(a.id) || (p.name == Some(a.pod) && p.namespace == Some(a.namespace)
            && p.uid != Some(a.uid)) || (p.uid == Some(a.uid) && !wanted.contains(a.id))
}

/// The place of a log among those that are followed.
pub open spec fn seat(active: Seq<ActiveView>, id: Seq<char>) -> Option<int>
    decreases active.len(),
{
    if active.len() == 0 {
        None
    } else if active.last().id == id {
        Some(active.len() - 1)
    } else {
        seat(active.drop_last(), id)
    }
}

/// What is said where more logs could be followed than may be.
pub open spec fn crowded_text() -> Seq<char> {
    "Running containers exceed stream limit; omitted streams reconsidered on updates or five-minute resync"@
}

/// What is said of every log that is followed.
pub open spec fn history_text() -> Seq<char> {
    "Live initial history is restricted by since/tail; no durable replay guarantee"@
}

/// What is said where the view of the cluster was interrupted.
pub open spec fn interrupted_text() -> Seq<char> {
    "Kubernetes discovery interrupted; retrying with backoff"@
}

impl DiscoveryView {
    /// Looks at a log that could be followed: it is followed already, there is no room for it, or
    /// it is followed from now on.
    pub open spec fn offered(
        self,
        t: TargetView,
        metrics: MetricsView,
        start: Seq<TargetView>,
    ) -> (DiscoveryView, MetricsView, Seq<TargetView>) {
        match seat(self.active, t.identity()) {
            Some(i) => (
                DiscoveryView {
                    active: self.active.update(
                        i,
                        ActiveView { seen: true, ..self.active[i] },
                    ),
                    ..self
                },
                metrics,
                start,
            ),
            None => if self.active.len() >= self.max_streams {
                let counted = MetricsView {
                    unfollowed_observations: (metrics.unfollowed_observations + 1) as u64,
                    ..metrics
                };
                (
                    DiscoveryView { overflow: true, ..self },
                    if self.overflow {
                        counted
                    } else {
                        counted.with_gap(seq![], "limited"@, crowded_text())
                    },
                    start,
                )
            } else {
                let noted = metrics.with_gap(t.source, "limited"@, history_text());
                (
                    DiscoveryView {
                        active: self.active.push(
                            ActiveView {
                                id: t.identity(),
                                uid: t.uid,
                                pod: t.pod,
                                namespace: t.namespace,
                                seen: true,
                            },
                        ),
                        ..self
                    },
                    MetricsView {
                        streams_started: (noted.streams_started + 1) as u64,
                        ..noted
                    },
                    start.push(t),
                )
            },
        }
    }

    pub open spec fn offered_all(
        self,
        wanted: Seq<TargetView>,
        metrics: MetricsView,
    ) -> (DiscoveryView, MetricsView, Seq<TargetView>)
        decreases wanted.len(),
    {
        if wanted.len() == 0 {
            (self, metrics, seq![])
        } else {
            let (d, m, start) = self.offered_all(wanted.drop_last(), metrics);
            d.offered(wanted.last(), m, start)
        }
    }

    /// The logs that leave are gone.
    pub open spec fn rid_of(self, leaves: spec_fn(ActiveView) -> bool) -> DiscoveryView {
        DiscoveryView { active: staying(self.active, leaves), ..self }
    }

    /// The state, the counts and what is to be done behind an observation.
    pub open spec fn observed(
        self,
        o: ObservationView,
        finished: Seq<Seq<char>>,
        metrics: MetricsView,
    ) -> (DiscoveryView, MetricsView, MovesView) {
        let (d, m, moves) = match o {
            ObservationView::Init => (
                DiscoveryView {
                    initializing: true,
                    overflow: false,
                    active: self.active.map_values(
                        |a: ActiveView| ActiveView { seen: false, ..a },
                    ),
                    ..self
                },
                metrics,
                MovesView { retire: seq![], start: seq![] },
            ),
            ObservationView::InitDone => {
                let leaves = |a: ActiveView| !a.seen;
                (
                    DiscoveryView { initializing: false, ..self.rid_of(leaves) },
                    metrics,
                    MovesView { retire: leaving(self.active, leaves), start: seq![] },
                )
            },
            ObservationView::Delete(p) => {
                let leaves = |a: ActiveView| p.uid == Some(a.uid);
                (
                    self.rid_of(leaves),
                    metrics,
                    MovesView { retire: leaving(self.active, leaves), start: seq![] },
                )
            },
            ObservationView::Apply(p) => {
                let wanted = pod_targets(p, self.cluster, true, false);
                let leaves = outdated(p, identities(wanted), finished);
                let (d, m, start) = self.rid_of(leaves).offered_all(wanted, metrics);
                (d, m, MovesView { retire: leaving(self.active, leaves), start })
            },
            ObservationView::Interrupted => (
                self,
                metrics.with_gap(seq![], "error"@, interrupted_text()),
                MovesView { retire: seq![], start: seq![] },
            ),
        };
        (d, MetricsView { active_streams: d.active.len() as usize, ..m }, moves)
    }

    /// No more logs are followed than may be, and none twice.
    pub open spec fn bounded(self) -> bool {
        &&& self.active.len() <= self.max_streams
        &&& forall|i: int, j: int|
            0 <= i < j < self.active.len() ==> (#[trigger] self.active[i]).id != (
            #[trigger] self.active[j]).id
    }
}

pub enum ObservationView {
    Init,
    InitDone,
    Delete(PodView),
    Apply(PodView),
    Interrupted,
}

impl Observation {
    pub open spec fn view(&self) -> ObservationView {
        match self {
            Observation::Init => ObservationView::Init,
            Observation::InitDone => ObservationView::InitDone,
            Observation::Delete(p) => ObservationView::Delete(p@),
            Observation::Apply(p) => ObservationView::Apply(p@),
            Observation::Interrupted => ObservationView::Interrupted,
        }
    }

}

/// Whether so many logs can be counted.
pub open spec fn metrics_room(m: MetricsView, n: nat) -> bool {
    &&& m.coverage_gaps + n <= u64::MAX
    &&& m.coverage_records_omitted + n <= u64::MAX
    &&& m.unfollowed_observations + n <= u64::MAX
    &&& m.streams_started + n <= u64::MAX
}

fn equals(a: &Option<String>, b: &String) -> (r: bool)
    ensures
        r == (text::optional_view(*a) == Some(b@)),
{
    match a {
        Some(x) => *x == *b,
        None => false,
    }
}

fn all_ids(targets: &Vec<Target>) -> (r: Vec<String>)
    ensures
        text::list_view(r@) == identities(targets_view(targets@)),
{
    let mut r: Vec<String> = Vec::new();
    let mut i: usize = 0;
    while i < targets.len()
        invariant
            i <= targets@.len(),
            r@.len() == i,
            forall|k: int| 0 <= k < i ==> (#[trigger] r@[k])@ == targets@[k]@.identity(),
        decreases targets@.len() - i,
    {
        r.push(targets[i].id());
        i += 1;
    }
    assert(text::list_view(r@) =~= identities(targets_view(targets@)));
    r
}

/// Which logs an observation ends.
enum Leave<'a> {
    Unseen,
    OfPod(&'a Option<String>),
    Outdated { pod: &'a Pod, wanted: &'a Vec<String>, finished: &'a Vec<String> },
}

spec fn leave_view(l: Leave) -> spec_fn(ActiveView) -> bool {
    match l {
        Leave::Unseen => |a: ActiveView| !a.seen,
        Leave::OfPod(uid) => {
            let u = text::optional_view(*uid);
            |a: ActiveView| u == Some(a.uid)
        },
        Leave::Outdated { pod, wanted, finished } => outdated(
            pod@,
            text::list_view(wanted@),
            text::list_view(finished@),
        ),
    }
}

fn does_leave(l: &Leave, a: &Active) -> (r: bool)
    ensures
        r == leave_view(*l)(a@),
{
    match l {
        Leave::Unseen => !a.seen,
        Leave::OfPod(uid) => equals(uid, &a.uid),
        Leave::Outdated { pod, wanted, finished } => text::list_has(finished, a.id.as_str()) || (equals(
            &pod.name,
            &a.pod,
        ) && equals(&pod.namespace, &a.namespace) && !equals(&pod.uid, &a.uid)) || (equals(
            &pod.uid,
            &a.uid,
        ) && !text::list_has(wanted, a.id.as_str())),
    }
}

impl Discovery {
    pub closed spec fn view(&self) -> DiscoveryView {
        DiscoveryView {
            active: active_view(self.active@),
            overflow: self.overflow,
            initializing: self.initializing,
            max_streams: self.max_streams,
            cluster: self.cluster@,
        }
    }

    pub fn new(cluster: String, max_streams: usize) -> (r: Self)
        ensures
            r@ == (DiscoveryView {
                active: seq![],
                overflow: false,
                initializing: true,
                max_streams,
                cluster: cluster@,
            }),
    {
        let r = Discovery {
            active: Vec::new(),
            overflow: false,
            initializing: true,
            max_streams,
            cluster,
        };
        assert(r@.active =~= seq![]);
        r
    }

    /// Whether the list of all pods is still being read.
    pub fn is_initializing(&self) -> (r: bool)
        ensures
            r == self@.initializing,
    {
        self.initializing
    }

    /// The view of the cluster begins anew.
    pub fn resync(&mut self)
        ensures
            final(self)@ == (DiscoveryView { initializing: true, ..old(self)@ }),
    {
        self.initializing = true;
    }

    /// The names of the logs that are followed.
    pub fn followed(&self) -> (r: Vec<String>)
        ensures
            text::list_view(r@) == Seq::new(self@.active.len(), |i: int| self@.active[i].id),
    {
        let mut r: Vec<String> = Vec::new();
        let mut i: usize = 0;
        while i < self.active.len()
            invariant
                i <= self.active@.len(),
                r@.len() == i,
                forall|k: int| 0 <= k < i ==> (#[trigger] r@[k])@ == self.active@[k]@.id,
            decreases self.active@.len() - i,
        {
            r.push(self.active[i].id.clone());
            i += 1;
        }
        assert(text::list_view(r@) =~= Seq::new(
            self@.active.len(),
            |i: int| self@.active[i].id,
        ));
        r
    }

    fn remove(&mut self, l: &Leave) -> (r: Vec<String>)
        ensures
            final(self)@ == old(self)@.rid_of(leave_view(*l)),
            text::list_view(r@) == leaving(old(self)@.active, leave_view(*l)),
    {
        let ghost all = self@.active;
        let ghost leaves = leave_view(*l);
        let mut r: Vec<String> = Vec::new();
        let mut kept: Vec<Active> = Vec::new();
        let mut i: usize = 0;
        assert(all.take(0) =~= seq![]);
        assert(active_view(kept@) =~= seq![]);
        assert(text::list_view(r@) =~= seq![]);
        while i < self.active.len()
            invariant
                all == self@.active,
                *self == *old(self),
                leaves == leave_view(*l),
                i <= self.active@.len(),
                active_view(kept@) == staying(all.take(i as int), leaves),
                text::list_view(r@) == leaving(all.take(i as int), leaves),
            decreases self.active@.len() - i,
        {
            let ghost taken = all.take(i + 1);
            assert(taken.drop_last() =~= all.take(i as int));
            assert(taken.last() == self.active@[i as int]@);
            let ghost stay = active_view(kept@);
            let ghost gone = text::list_view(r@);
            if does_leave(l, &self.active[i]) {
                r.push(self.active[i].id.clone());
                assert(text::list_view(r@) =~= gone.push(self.active@[i as int]@.id));
            } else {
                let a = self.active[i].clone();
                kept.push(a);
                assert(active_view(kept@) =~= stay.push(self.active@[i as int]@));
            }
            i += 1;
        }
        assert(all.take(i as int) =~= all);
        self.active = kept;
        r
    }

    fn find_seat(&self, id: &String) -> (r: Option<usize>)
        ensures
            match r {
                Some(i) => seat(self@.active, id@) == Some(i as int) && i < self.active@.len(),
                None => seat(self@.active, id@) is None,
            },
    {
        let ghost all = self@.active;
        let mut n: usize = self.active.len();
        assert(all.take(n as int) =~= all);
        while n > 0
            invariant
                all == self@.active,
                n <= self.active@.len(),
                seat(all.take(n as int), id@) == seat(all, id@),
            decreases n,
        {
            assert(all.take(n as int).last() == self.active@[n - 1]@);
            if self.active[n - 1].id == *id {
                return Some(n - 1);
            }
            assert(all.take(n as int).drop_last() =~= all.take(n - 1));
            n -= 1;
        }
        None
    }

    fn offer(&mut self, t: &Target, metrics: &mut Metrics, start: &mut Vec<Target>)
        requires
            metrics_room(old(metrics)@, 1),
        ensures
            (final(self)@, final(metrics)@, targets_view(final(start)@)) == old(self)@.offered(
                t@,
                old(metrics)@,
                targets_view(old(start)@),
            ),
    {
        let ghost before = self@;
        let ghost begun = targets_view(start@);
        let id = t.id();
        match self.find_seat(&id) {
            Some(i) => {
                self.active[i].seen = true;
                assert(active_view(self.active@) =~= before.active.update(
                    i as int,
                    ActiveView { seen: true, ..before.active[i as int] },
                ));
            },
            None => {
                if self.active.len() >= self.max_streams {
                    metrics.unfollowed_observations = metrics.unfollowed_observations + 1;
                    if !self.overflow {
                        report::gap(
                            metrics,
                            &Source::new(),
                            "limited",
                            "Running containers exceed stream limit; omitted streams reconsidered on updates or five-minute resync",
                        );
                        self.overflow = true;
                    }
                    return ;
                }
                report::gap(
                    metrics,
                    &t.source,
                    "limited",
                    "Live initial history is restricted by since/tail; no durable replay guarantee",
                );
                metrics.streams_started = metrics.streams_started + 1;
                let a = Active {
                    id,
                    uid: t.uid.clone(),
                    pod: t.pod.clone(),
                    namespace: t.namespace.clone(),
                    seen: true,
                };
                let ghost added = a@;
                self.active.push(a);
                assert(active_view(self.active@) =~= before.active.push(added));
                start.push(t.clone());
                assert(targets_view(start@) =~= begun.push(t@));
            },
        }
    }

    /// Takes in an observation: what is to be done. `finished` holds the names of the logs whose
    /// streams have ended of themselves.
    pub fn observe(
        &mut self,
        o: Observation,
        finished: &Vec<String>,
        metrics: &mut Metrics,
    ) -> (moves: Moves)
        requires
            o matches Observation::Apply(p) ==> metrics_room(
                old(metrics)@,
                pod_targets(p@, old(self)@.cluster, true, false).len(),
            ),
            o is Interrupted ==> old(metrics)@.gap_countable(),
        ensures
            (final(self)@, final(metrics)@, moves@) == old(self)@.observed(
                o@,
                text::list_view(finished@),
                old(metrics)@,
            ),
    {
        let ghost before = self@;
        let ghost counted = metrics@;
        let mut retire: Vec<String> = Vec::new();
        let mut start: Vec<Target> = Vec::new();
        assert(text::list_view(retire@) =~= seq![]);
        assert(targets_view(start@) =~= seq![]);
        match o {
            Observation::Init => {
                self.initializing = true;
                self.overflow = false;
                let mut i: usize = 0;
                let ghost unseen = before.active.map_values(
                    |a: ActiveView| ActiveView { seen: false, ..a },
                );
                while i < self.active.len()
                    invariant
                        i <= self.active@.len(),
                        self@ == (DiscoveryView {
                            initializing: true,
                            overflow: false,
                            active: unseen.take(i as int) + before.active.skip(i as int),
                            ..before
                        }),
                        unseen == before.active.map_values(
                            |a: ActiveView| ActiveView { seen: false, ..a },
                        ),
                        before.active.len() == self.active@.len(),
                    decreases self.active@.len() - i,
                {
                    let ghost was = self@.active;
                    assert(was[i as int] == before.active[i as int]);
                    self.active[i].seen = false;
                    let ghost now = active_view(self.active@);
                    let ghost want = unseen.take(i + 1) + before.active.skip(i + 1);
                    assert(now[i as int] == (ActiveView { seen: false, ..was[i as int] }));
                    assert forall|k: int| 0 <= k < now.len() implies now[k] == want[k] by {
                        if k != i {
                            assert(now[k] == was[k]);
                        }
                    }
                    assert(now =~= want);
                    i += 1;
                }
                assert(unseen.take(i as int) + before.active.skip(i as int) =~= unseen);
            },
            Observation::InitDone => {
                retire = self.remove(&Leave::Unseen);
                self.initializing = false;
            },
            Observation::Delete(p) => {
                retire = self.remove(&Leave::OfPod(&p.uid));
            },
            Observation::Apply(p) => {
                let wanted = targets(&p, self.cluster.as_str(), true, false);
                let ghost all = targets_view(wanted@);
                let ids = all_ids(&wanted);
                retire = self.remove(
                    &Leave::Outdated { pod: &p, wanted: &ids, finished },
                );
                let ghost rest = self@;
                let mut i: usize = 0;
                assert(all.take(0) =~= seq![]);
                while i < wanted.len()
                    invariant
                        all == targets_view(wanted@),
                        i <= wanted@.len(),
                        metrics_room(counted, all.len()),
                        (self@, metrics@, targets_view(start@)) == rest.offered_all(
                            all.take(i as int),
                            counted,
                        ),
                    decreases wanted@.len() - i,
                {
                    assert(all.take(i + 1).drop_last() =~= all.take(i as int));
                    assert(all.take(i + 1).last() == wanted@[i as int]@);
                    proof {
                        offers_are_counted(rest, all.take(i as int), counted);
                    }
                    self.offer(&wanted[i], metrics, &mut start);
                    i += 1;
                }
                assert(all.take(i as int) =~= all);
            },
            Observation::Interrupted => {
                report::gap(
                    metrics,
                    &Source::new(),
                    "error",
                    "Kubernetes discovery interrupted; retrying with backoff",
                );
            },
        }
        metrics.active_streams = self.active.len();
        Moves { retire, start }
    }

    /// Ends everything: the names of the logs that were followed.
    pub fn close(&mut self, metrics: &mut Metrics) -> (r: Vec<String>)
        ensures
            text::list_view(r@) == Seq::new(
                old(self)@.active.len(),
                |i: int| old(self)@.active[i].id,
            ),
            final(self)@ == (DiscoveryView { active: seq![], ..old(self)@ }),
            final(metrics)@ == (MetricsView { active_streams: 0, ..old(metrics)@ }),
    {
        let r = self.followed();
        self.active = Vec::new();
        assert(active_view(self.active@) =~= seq![]);
        metrics.active_streams = 0;
        r
    }
}

proof fn offers_are_counted(d: DiscoveryView, wanted: Seq<TargetView>, m: MetricsView)
    requires
        metrics_room(m, wanted.len()),
    ensures
        ({
            let n = d.offered_all(wanted, m).1;
            &&& n.coverage_gaps <= m.coverage_gaps + wanted.len()
            &&& n.coverage_records_omitted <= m.coverage_records_omitted + wanted.len()
            &&& n.unfollowed_observations <= m.unfollowed_observations + wanted.len()
            &&& n.streams_started <= m.streams_started + wanted.len()
        }),
    decreases wanted.len(),
{
    if wanted.len() > 0 {
        offers_are_counted(d, wanted.drop_last(), m);
    }
}

/// A place that is found for a log is the place of that log, and a log that has a place is found.
pub proof fn seats_are_found(active: Seq<ActiveView>, id: Seq<char>)
    ensures
        match seat(active, id) {
            Some(i) => 0 <= i < active.len() && active[i].id == id,
            None => forall|i: int| 0 <= i < active.len() ==> (#[trigger] active[i]).id != id,
        },
{
    seat_is(active, id);
}

/// Where logs leave, those that stay are no more than may be, and none twice.
pub proof fn parting_stays_bounded(d: DiscoveryView, leaves: spec_fn(ActiveView) -> bool)
    requires
        d.bounded(),
    ensures
        d.rid_of(leaves).bounded(),
{
    staying_distinct(d, leaves);
}

/// Whether a name is that of a log that leaves.
pub open spec fn names_one_that_leaves(
    active: Seq<ActiveView>,
    leaves: spec_fn(ActiveView) -> bool,
    id: Seq<char>,
) -> bool {
    exists|i: int| 0 <= i < active.len() && leaves(#[trigger] active[i]) && active[i].id == id
}

/// What stays is what does not leave, and what leaves is named.
pub proof fn parting_is_exact(active: Seq<ActiveView>, leaves: spec_fn(ActiveView) -> bool)
    ensures
        forall|i: int|
            0 <= i < staying(active, leaves).len() ==> !leaves(
                #[trigger] staying(active, leaves)[i],
            ) && active.contains(staying(active, leaves)[i]),
        forall|i: int|
            0 <= i < active.len() && !leaves(#[trigger] active[i]) ==> staying(
                active,
                leaves,
            ).contains(active[i]),
        forall|i: int|
            0 <= i < active.len() && leaves(#[trigger] active[i]) ==> leaving(
                active,
                leaves,
            ).contains(active[i].id),
        forall|k: int|
            0 <= k < leaving(active, leaves).len() ==> names_one_that_leaves(
                active,
                leaves,
                #[trigger] leaving(active, leaves)[k],
            ),
        staying(active, leaves).len() + leaving(active, leaves).len() == active.len(),
    decreases active.len(),
{
    staying_is(active, leaves);
    if active.len() > 0 {
        let rest = active.drop_last();
        parting_is_exact(rest, leaves);
        let before = leaving(rest, leaves);
        let after = leaving(active, leaves);
        assert forall|i: int| 0 <= i < active.len() && leaves(
            #[trigger] active[i],
        ) implies after.contains(active[i].id) by {
            if i < rest.len() {
                assert(rest[i] == active[i]);
                let k = choose|k: int| 0 <= k < before.len() && before[k] == active[i].id;
                assert(after[k] == active[i].id);
            } else {
                assert(after[after.len() - 1] == active[i].id);
            }
        }
        assert forall|k: int| 0 <= k < after.len() implies names_one_that_leaves(
            active,
            leaves,
            #[trigger] after[k],
        ) by {
            if k < before.len() {
                assert(after[k] == before[k]);
                assert(names_one_that_leaves(rest, leaves, before[k]));
                let i = choose|i: int|
                    0 <= i < rest.len() && leaves(#[trigger] rest[i]) && rest[i].id == before[k];
                assert(active[i] == rest[i]);
            } else {
                assert(leaves(active[active.len() - 1]));
            }
        }
    }
}

proof fn seat_is(active: Seq<ActiveView>, id: Seq<char>)
    ensures
        match seat(active, id) {
            Some(i) => 0 <= i < active.len() && active[i].id == id,
            None => forall|i: int| 0 <= i < active.len() ==> (#[trigger] active[i]).id != id,
        },
    decreases active.len(),
{
    if active.len() > 0 && active.last().id != id {
        seat_is(active.drop_last(), id);
        assert forall|i: int|
            seat(active, id) is None && 0 <= i < active.len() implies (#[trigger] active[i]).id
            != id by {
            if i < active.len() - 1 {
                assert(active.drop_last()[i] == active[i]);
            }
        }
    }
}

proof fn staying_is(active: Seq<ActiveView>, leaves: spec_fn(ActiveView) -> bool)
    ensures
        staying(active, leaves).len() <= active.len(),
        forall|i: int|
            0 <= i < staying(active, leaves).len() ==> !leaves(
                #[trigger] staying(active, leaves)[i],
            ) && active.contains(staying(active, leaves)[i]),
        forall|i: int|
            0 <= i < active.len() && !leaves(#[trigger] active[i]) ==> staying(
                active,
                leaves,
            ).contains(active[i]),
    decreases active.len(),
{
    if active.len() > 0 {
        let rest = active.drop_last();
        staying_is(rest, leaves);
        let before = staying(rest, leaves);
        let all = staying(active, leaves);
        assert forall|i: int| 0 <= i < all.len() implies !leaves(#[trigger] all[i])
            && active.contains(all[i]) by {
            if i < before.len() {
                assert(all[i] == before[i]);
                let k = choose|k: int| 0 <= k < rest.len() && rest[k] == before[i];
                assert(active[k] == all[i]);
            } else {
                assert(active[active.len() - 1] == all[i]);
            }
        }
        assert forall|i: int| 0 <= i < active.len() && !leaves(#[trigger] active[i]) implies all.contains(
            active[i],
        ) by {
            if i < rest.len() {
                assert(rest[i] == active[i]);
                let k = choose|k: int| 0 <= k < before.len() && before[k] == rest[i];
                assert(all[k] == active[i]);
            } else {
                assert(all[all.len() - 1] == active[i]);
            }
        }
    }
}

proof fn staying_distinct(d: DiscoveryView, leaves: spec_fn(ActiveView) -> bool)
    requires
        d.bounded(),
    ensures
        d.rid_of(leaves).bounded(),
    decreases d.active.len(),
{
    if d.active.len() > 0 {
        let rest = DiscoveryView { active: d.active.drop_last(), ..d };
        assert(rest.bounded()) by {
            assert forall|i: int, j: int| 0 <= i < j < rest.active.len() implies (
            #[trigger] rest.active[i]).id != (#[trigger] rest.active[j]).id by {
                assert(d.active[i] == rest.active[i] && d.active[j] == rest.active[j]);
            }
        }
        staying_distinct(rest, leaves);
        staying_is(rest.active, leaves);
        staying_is(d.active, leaves);
        let before = staying(rest.active, leaves);
        let all = staying(d.active, leaves);
        assert forall|i: int, j: int| 0 <= i < j < all.len() implies (#[trigger] all[i]).id != (
        #[trigger] all[j]).id by {
            assert(all[i] == before[i]);
            if j < before.len() {
                assert(all[j] == before[j]);
                assert(rest.rid_of(leaves).active == before);
            } else {
                let k = choose|k: int| 0 <= k < rest.active.len() && rest.active[k] == before[i];
                assert(d.active[k] == all[i]);
                assert(d.active[d.active.len() - 1] == all[j]);
            }
        }
    }
}

proof fn offers_stay_bounded(d: DiscoveryView, wanted: Seq<TargetView>, m: MetricsView)
    requires
        d.bounded(),
    ensures
        d.offered_all(wanted, m).0.bounded(),
        d.offered_all(wanted, m).0.max_streams == d.max_streams,
        d.active.len() + d.offered_all(wanted, m).2.len() == d.offered_all(wanted, m).0.active.len(),
    decreases wanted.len(),
{
    if wanted.len() > 0 {
        offers_stay_bounded(d, wanted.drop_last(), m);
        let (e, n, start) = d.offered_all(wanted.drop_last(), m);
        let t = wanted.last();
        seat_is(e.active, t.identity());
        let after = e.offered(t, n, start).0;
        assert forall|i: int, j: int| 0 <= i < j < after.active.len() implies (
        #[trigger] after.active[i]).id != (#[trigger] after.active[j]).id by {
            if i < e.active.len() {
                assert(after.active[i].id == e.active[i].id);
            }
            if j < e.active.len() {
                assert(after.active[j].id == e.active[j].id);
            }
        }
    }
}

/// Whatever is observed, no more logs are followed than may be, and none twice; and the number of
/// logs that are followed is the one that is reported.
pub proof fn discovery_stays_bounded(
    d: DiscoveryView,
    o: ObservationView,
    finished: Seq<Seq<char>>,
    m: MetricsView,
)
    requires
        d.bounded(),
    ensures
        d.observed(o, finished, m).0.bounded(),
        d.observed(o, finished, m).0.max_streams == d.max_streams,
        d.observed(o, finished, m).1.active_streams == d.observed(o, finished, m).0.active.len(),
{
    match o {
        ObservationView::Init => {
            let after = d.observed(o, finished, m).0;
            assert forall|i: int, j: int| 0 <= i < j < after.active.len() implies (
            #[trigger] after.active[i]).id != (#[trigger] after.active[j]).id by {
                assert(d.active[i].id != d.active[j].id);
            }
        },
        ObservationView::InitDone => {
            staying_distinct(d, |a: ActiveView| !a.seen);
        },
        ObservationView::Delete(p) => {
            staying_distinct(d, |a: ActiveView| p.uid == Some(a.uid));
        },
        ObservationView::Apply(p) => {
            let wanted = pod_targets(p, d.cluster, true, false);
            let leaves = outdated(p, identities(wanted), finished);
            staying_distinct(d, leaves);
            offers_stay_bounded(d.rid_of(leaves), wanted, m);
        },
        ObservationView::Interrupted => {},
    }
}

/// Once the list of all pods is at its end, only logs that it had are followed; and of a pod that
/// is gone none is.
pub proof fn gone_pods_are_not_followed(
    d: DiscoveryView,
    p: PodView,
    finished: Seq<Seq<char>>,
    m: MetricsView,
    i: int,
)
    ensures
        0 <= i < d.observed(ObservationView::InitDone, finished, m).0.active.len() ==> d.observed(
            ObservationView::InitDone,
            finished,
            m,
        ).0.active[i].seen,
        0 <= i < d.observed(ObservationView::Delete(p), finished, m).0.active.len() ==> p.uid
            != Some(d.observed(ObservationView::Delete(p), finished, m).0.active[i].uid),
{
    staying_is(d.active, |a: ActiveView| !a.seen);
    staying_is(d.active, |a: ActiveView| p.uid == Some(a.uid));
}

/// What is put on record of a cluster that is read once.
#[derive(Clone, Copy, Debug, PartialEq, Eq, Structural)]
pub enum Notice {
    InventoryUnavailable,
    InventoryStalled,
    IdentityChanged,
    StoppedReading,
    ReadFailed,
    HistoryRestricted,
}

pub open spec fn notice_status(n: Notice) -> Seq<char> {
    match n {
        Notice::InventoryUnavailable => "error"@,
        Notice::InventoryStalled => "error"@,
        Notice::IdentityChanged => "error"@,
        Notice::StoppedReading => "limited"@,
        Notice::ReadFailed => "error"@,
        Notice::HistoryRestricted => "limited"@,
    }
}

pub open spec fn notice_text(n: Notice) -> Seq<char> {
    match n {
        Notice::InventoryUnavailable =>
            "Kubernetes inventory unavailable; check connectivity and read-only RBAC"@,
        Notice::InventoryStalled => "Kubernetes inventory stalled; restarting discovery"@,
        Notice::IdentityChanged => "Container identity unavailable or changed before log read"@,
        Notice::StoppedReading => "Snapshot stopped during log read"@,
        Notice::ReadFailed => "Kubernetes log read failed or timed out"@,
        Notice::HistoryRestricted =>
            "Kubernetes history is restricted by since/tail and server retention"@,
    }
}

/// Puts a notice on record.
pub fn notice(n: Notice, source: &Source, metrics: &mut Metrics)
    requires
        old(metrics)@.gap_countable(),
    ensures
        final(metrics)@ == old(metrics)@.with_gap(source@, notice_status(n), notice_text(n)),
{
    match n {
        Notice::InventoryUnavailable => report::gap(
            metrics,
            source,
            "error",
            "Kubernetes inventory unavailable; check connectivity and read-only RBAC",
        ),
        Notice::InventoryStalled => report::gap(
            metrics,
            source,
            "error",
            "Kubernetes inventory stalled; restarting discovery",
        ),
        Notice::IdentityChanged => report::gap(
            metrics,
            source,
            "error",
            "Container identity unavailable or changed before log read",
        ),
        Notice::StoppedReading => report::gap(
            metrics,
            source,
            "limited",
            "Snapshot stopped during log read",
        ),
        Notice::ReadFailed => report::gap(
            metrics,
            source,
            "error",
            "Kubernetes log read failed or timed out",
        ),
        Notice::HistoryRestricted => report::gap(
            metrics,
            source,
            "limited",
            "Kubernetes history is restricted by since/tail and server retention",
        ),
    }
}

/// Begins to read a log once, where the pod, as far as it could be asked for, still has it: what to
/// ask for. Otherwise that is put on record.
pub fn begin_read(
    pod: Option<&Pod>,
    target: &Target,
    options: &Options,
    metrics: &mut Metrics,
) -> (r: Option<LogRequest>)
    requires
        pod matches Some(p) ==> countable_back(p@.containers) && countable_back(p@.init)
            && countable_back(p@.ephemeral),
        old(metrics)@.gap_countable(),
        old(metrics)@.streams_started < u64::MAX,
    ensures
        ({
            let there = pod matches Some(p) && still_has(p@, target@);
            &&& match r {
                Some(q) => there && q@ == log_request(*options, target@, false),
                None => !there,
            }
            &&& final(metrics)@ == (if there {
                MetricsView {
                    streams_started: (old(metrics)@.streams_started + 1) as u64,
                    ..old(metrics)@
                }
            } else {
                old(metrics)@.with_gap(
                    target@.source,
                    notice_status(Notice::IdentityChanged),
                    notice_text(Notice::IdentityChanged),
                )
            })
        }),
{
    let there = match pod {
        Some(p) => same_instance(p, target),
        None => false,
    };
    if !there {
        notice(Notice::IdentityChanged, &target.source, metrics);
        return None;
    }
    metrics.streams_started = metrics.streams_started + 1;
    Some(params(options, target, false))
}

/// What is on record once the reading of a log has ended: where it failed that, and in any case
/// that the log may not be the whole history.
pub open spec fn read_ended(
    m: MetricsView,
    source: Seq<(Seq<char>, JsonView)>,
    was_read: bool,
) -> MetricsView {
    (if was_read {
        m
    } else {
        m.with_gap(source, notice_status(Notice::ReadFailed), notice_text(Notice::ReadFailed))
    }).with_gap(
        source,
        notice_status(Notice::HistoryRestricted),
        notice_text(Notice::HistoryRestricted),
    )
}

/// No report on a cluster claims to be whole: not one on a live run, and not one behind the
/// reading of a log, however that ended and whatever gaps follow.
pub proof fn cluster_reports_are_partial(
    r: ReportView,
    m: MetricsView,
    source: Seq<(Seq<char>, JsonView)>,
    was_read: bool,
    later: MetricsView,
)
    requires
        m.coverage_gaps + 2 <= u64::MAX,
        later.coverage_gaps >= read_ended(m, source, was_read).coverage_gaps,
    ensures
        !report::complete(r, m, true),
        !report::complete(r, later, false),
{
    reveal_strlit("limited");
    reveal_strlit("error");
    reveal_strlit("ok");
    assert("limited"@.len() == 7 && "error"@.len() == 5 && "ok"@.len() == 2);
}

/// Ends the reading of a log once. Even where all could be read, nobody certifies that all was
/// there.
pub fn end_read(was_read: bool, target: &Target, metrics: &mut Metrics)
    requires
        old(metrics)@.coverage_gaps + 2 <= u64::MAX,
        old(metrics)@.coverage_records_omitted + 2 <= u64::MAX,
    ensures
        final(metrics)@ == read_ended(old(metrics)@, target@.source, was_read),
{
    if !was_read {
        notice(Notice::ReadFailed, &target.source, metrics);
    }
    notice(Notice::HistoryRestricted, &target.source, metrics);
}

}
