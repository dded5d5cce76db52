//! What the command line means: its numbers, the options of a run, and how a run is summed up.
use vstd::prelude::*;
use vstd::utf8;

use crate::events;
use crate::events::Source;
use crate::exact;
use crate::ieee::Real;
use crate::jev;
use crate::json;
use crate::json::{Fields, Json, JsonView};
use crate::report;
use crate::report::{GroupView, ImportantGroup, Metrics, MetricsView, Report, ReportView};
use crate::runtime::AnalyzeOptions;
use crate::text;

verus! {

/// The largest number that counts anything.
pub const MOST: usize = 1_000_000;

/// Reads a number of things: at least one, and at most a million.
pub fn positive(s: &str) -> (r: Result<usize, &'static str>)
    ensures
        match r {
            Ok(n) => text::unsigned_number(s@, usize::MAX as nat) == Some(n as nat) && 1 <= n
                <= MOST,
            Err(e) => e@ == "must be between 1 and 1000000"@ && !(text::unsigned_number(
                s@,
                usize::MAX as nat,
            ) matches Some(n) && 1 <= n <= MOST),
        },
{
    match text::parse_unsigned(s, usize::MAX as u64) {
        Some(n) => if 1 <= n && n <= 1_000_000 {
            Ok(n as usize)
        } else {
            Err("must be between 1 and 1000000")
        },
        None => Err("must be between 1 and 1000000"),
    }
}

/// How many seconds the unit of a time has, by the character that it ends with.
pub open spec fn unit(c: char) -> Option<int> {
    if c == 's' {
        Some(1)
    } else if c == 'm' {
        Some(60)
    } else if c == 'h' {
        Some(3600)
    } else if c == 'd' {
        Some(86400)
    } else {
        None
    }
}

/// The number and the unit of a time: seconds where no unit is given.
pub open spec fn scaled(s: Seq<char>) -> (Seq<char>, int) {
    if s.len() > 0 && unit(s.last()) is Some {
        (s.drop_last(), unit(s.last()).unwrap())
    } else {
        (s, 1)
    }
}

/// The seconds that a time denotes: a number that is not negative, with a unit, as long as they can
/// be counted.
pub open spec fn seconds(s: Seq<char>) -> Option<int> {
    let (n, mult) = scaled(s);
    match text::signed_number(n) {
        Some(v) => if v >= 0 && v * mult <= i64::MAX {
            Some(v * mult)
        } else {
            None
        },
        None => None,
    }
}

/// Reads a time such as `1h`, `30m` or `60s`.
pub fn since(s: &str) -> (r: Result<i64, &'static str>)
    ensures
        match r {
            Ok(n) => seconds(s@) == Some(n as int),
            Err(e) => seconds(s@) is None && e@
                == "use a nonnegative duration such as 1h, 30m or 60s"@,
        },
{
    let v = text::chars(s);
    let mut end = v.len();
    let mut mult: i64 = 1;
    if v.len() > 0 {
        let c = v[v.len() - 1];
        if c == 's' {
            end = v.len() - 1;
        } else if c == 'm' {
            end = v.len() - 1;
            mult = 60;
        } else if c == 'h' {
            end = v.len() - 1;
            mult = 3600;
        } else if c == 'd' {
            end = v.len() - 1;
            mult = 86400;
        }
    }
    let number = text::slice(&v, 0, end);
    assert(number@ =~= scaled(s@).0);
    assert(mult == scaled(s@).1);
    match text::parse_signed(number.as_str()) {
        Some(n) => {
            if n < 0 {
                return Err("use a nonnegative duration such as 1h, 30m or 60s");
            }
            let total: i128 = n as i128 * mult as i128;
            if total > i64::MAX as i128 {
                return Err("use a nonnegative duration such as 1h, 30m or 60s");
            }
            Ok(total as i64)
        },
        None => Err("use a nonnegative duration such as 1h, 30m or 60s"),
    }
}

/// The options of the command line that say how events are judged.
pub struct Flags {
    pub batch_size: u8,
    pub max_batches: usize,
    pub max_cost: Real,
    pub no_grouping: bool,
    pub max_events: usize,
    pub retain_events: usize,
    pub live: bool,
    pub json: bool,
    pub tui: bool,
}

/// How events are judged. A live run keeps a window of its events, another all that it may have;
/// events are printed where neither a report nor a browser takes the screen.
pub fn analyze_options(flags: &Flags) -> (r: AnalyzeOptions)
    ensures
        r.batch_size == flags.batch_size,
        r.max_batches == flags.max_batches,
        r.max_cost@ == flags.max_cost@,
        r.grouping == !flags.no_grouping,
        r.retain == (if flags.live {
            flags.retain_events
        } else {
            flags.max_events
        }),
        r.max_events == flags.max_events,
        r.live == flags.live,
        r.print_events == (flags.live && !flags.json && !flags.tui),
{
    AnalyzeOptions {
        batch_size: flags.batch_size as usize,
        max_batches: flags.max_batches as u64,
        max_cost: flags.max_cost.clone(),
        grouping: !flags.no_grouping,
        retain: if flags.live {
            flags.retain_events
        } else {
            flags.max_events
        },
        max_events: flags.max_events as u64,
        live: flags.live,
        print_events: flags.live && !flags.json && !flags.tui,
    }
}

/// Whether a text is there and is more than white space.
pub open spec fn is_set(s: Option<Seq<char>>) -> bool {
    match s {
        Some(t) => text::trimmed(t).len() > 0,
        None => false,
    }
}

fn is_given(s: &Option<String>) -> (r: bool)
    ensures
        r == is_set(text::optional_view(*s)),
{
    match s {
        Some(t) => {
            let trimmed = text::trim(t.as_str());
            proof {
                text::utf8_len_zero(trimmed@);
            }
            text::byte_len(trimmed.as_str()) > 0
        },
        None => false,
    }
}

/// The key to the service out of the two places of the environment, the first before the second.
pub fn environment_key(first: &Option<String>, second: &Option<String>) -> (r: Option<String>)
    ensures
        text::optional_view(r) == (if is_set(text::optional_view(*first)) {
            text::optional_view(*first)
        } else if is_set(text::optional_view(*second)) {
            text::optional_view(*second)
        } else {
            None
        }),
{
    if is_given(first) {
        return text::clone_optional(first);
    }
    if is_given(second) {
        return text::clone_optional(second);
    }
    None
}

/// The most bytes of a key.
pub const MAX_KEY: usize = 16_384;

/// Reads the key to the service out of a file; an empty one has none.
pub fn file_key(bytes: &[u8]) -> (r: Result<Option<String>, &'static str>)
    ensures
        match r {
            Ok(k) => bytes@.len() <= MAX_KEY && utf8::valid_utf8(bytes@) && text::optional_view(k)
                == (if is_set(Some(utf8::decode_utf8(bytes@))) {
                Some(utf8::decode_utf8(bytes@))
            } else {
                None
            }),
            Err(e) => if bytes@.len() > MAX_KEY {
                e@ == "Jev key file exceeds limit"@
            } else {
                !utf8::valid_utf8(bytes@) && e@ == "Invalid Jev key file"@
            },
        },
{
    if bytes.len() > MAX_KEY {
        return Err("Jev key file exceeds limit");
    }
    match text::from_utf8(bytes) {
        Some(value) => {
            let key = Some(value);
            if is_given(&key) {
                Ok(key)
            } else {
                Ok(None)
            }
        },
        None => Err("Invalid Jev key file"),
    }
}

/// What is said where there is no key to the service.
pub const NO_KEY: &'static str = "Set TYPESAFE_API_KEY, TYPESAFEAI_API_KEY or TYPESAFE_API_KEY_FILE; use --offline for local rules";

/// The source of the events of a file.
pub fn file_source(path: &str) -> (r: Source)
    ensures
        r@ == seq![("path"@, JsonView::Text(path@)), ("type"@, JsonView::Text("file"@))],
        exact::written(JsonView::Object(r@)),
{
    let mut r = Source::new();
    r.insert("path", json::string(path));
    let ghost one = seq![("path"@, JsonView::Text(path@))];
    assert(r@ =~= one);
    r.insert("type", json::string("file"));
    proof {
        reveal_strlit("path");
        reveal_strlit("type");
        assert(!text::before("type"@, "path"@)) by {
            assert("type"@[0] == 't' && "path"@[0] == 'p');
        }
        assert("type"@ != "path"@) by {
            assert("type"@[0] == 't' && "path"@[0] == 'p');
        }
        exact::put_is_written(seq![], "path"@, JsonView::Text(path@));
        exact::put_is_written(one, "type"@, JsonView::Text("file"@));
        assert(one.drop_first() =~= seq![]);
        assert(json::put(one.drop_first(), "type"@, JsonView::Text("file"@)) =~= seq![
            ("type"@, JsonView::Text("file"@)),
        ]);
        assert(r@ =~= seq![("path"@, JsonView::Text(path@)), ("type"@, JsonView::Text("file"@))]);
    }
    r
}

/// Whether a path names a compressed file.
pub open spec fn is_compressed(path: Seq<char>) -> bool {
    ".gz"@.is_suffix_of(path)
}

pub fn compressed(path: &str) -> (r: bool)
    ensures
        r == is_compressed(path@),
{
    let v = text::chars(path);
    let n = v.len();
    proof {
        reveal_strlit(".gz");
    }
    if n < 3 {
        return false;
    }
    let tail = text::slice(&v, n - 3, n);
    text::same(tail.as_str(), ".gz")
}

/// The scope of a run on files.
pub fn files_scope() -> (r: Json)
    ensures
        r@ == JsonView::Object(seq![("kind"@, JsonView::Text("files"@))]),
{
    let fields = Fields::new().with("kind", json::string("files"));
    assert(fields@ =~= seq![("kind"@, JsonView::Text("files"@))]);
    fields.object()
}

/// The scope of a run on a cluster.
pub open spec fn cluster_json(
    cluster: Seq<char>,
    namespace: Option<Seq<char>>,
    selector: Option<Seq<char>>,
    since: i64,
    tail: i64,
    live: bool,
) -> JsonView {
    JsonView::Object(
        seq![
            ("context"@, JsonView::Text(cluster)),
            ("live"@, JsonView::Bool(live)),
            ("namespace"@, json::optional_text(namespace)),
            ("selector"@, json::optional_text(selector)),
            ("since_seconds"@, json::integer(since as int)),
            ("tail"@, json::integer(tail as int)),
        ],
    )
}

pub fn cluster_scope(
    cluster: &str,
    namespace: &Option<String>,
    selector: &Option<String>,
    since: i64,
    tail: i64,
    live: bool,
) -> (r: Json)
    ensures
        r@ == cluster_json(
            cluster@,
            text::optional_view(*namespace),
            text::optional_view(*selector),
            since,
            tail,
            live,
        ),
{
    let fields = Fields::new().with("context", json::string(cluster)).with(
        "live",
        Json::Bool(live),
    ).with("namespace", json::optional(namespace)).with(
        "selector",
        json::optional(selector),
    ).with("since_seconds", json::signed(since)).with("tail", json::signed(tail));
    assert(fields@ =~= cluster_json(
        cluster@,
        text::optional_view(*namespace),
        text::optional_view(*selector),
        since,
        tail,
        live,
    )->Object_0);
    fields.object()
}

/// How a run ends: it was interrupted, has seen all that there was, or has not.
pub fn exit_code(interrupted: bool, complete: bool) -> (r: i32)
    ensures
        interrupted ==> r == 130,
        !interrupted && complete ==> r == 0,
        !interrupted && !complete ==> r == 2,
{
    if interrupted {
        130
    } else if complete {
        0
    } else {
        2
    }
}

/// How many groups are shown of a run.
pub const SHOWN: usize = 15;

/// The line of a group of important events.
pub open spec fn group_line(g: GroupView) -> Seq<char> {
    "["@ + jev::severity_name(g.severity) + " / "@ + jev::category_name(g.category) + "] ×"@ + text::decimal(g.count as nat) + " "@ + events::printable(g.text) + "\n"@
}

fn write_group_line(g: &ImportantGroup) -> (out: String)
    ensures
        out@ == group_line(g@),
{
    let mut out = "[".to_owned();
    out.append(g.severity.label());
    out.append(" / ");
    out.append(g.category.label());
    out.append("] ×");
    let part_0 = text::decimal_text(g.count);
    out.append(part_0.as_str());
    out.append(" ");
    let part_1 = events::console(g.text.as_str());
    out.append(part_1.as_str());
    out.append("\n");
    out
}

/// The lines that head the summary of a run.
pub open spec fn summary_head(r: ReportView, m: MetricsView, offline: bool, cost: Seq<char>) -> Seq<char> {
    "jevernetes · "@ + report::mode_name(offline) + "\n"@ + text::decimal(r.total as nat) + " events / "@ + text::decimal(r.lines as nat) + " lines · important "@ + text::decimal(r.counts.important as nat) + " · uncertain "@ + text::decimal(r.counts.uncertain as nat) + " · unknown "@ + text::decimal(r.counts.unknown as nat) + "\ncoverage gaps "@ + text::decimal(m.coverage_gaps as nat) + " · dropped "@ + text::decimal(m.dropped as nat) + " · estimated $"@ + cost + "\n"@
}

fn write_head(r: &Report, m: &Metrics, offline: bool, cost: &str) -> (out: String)
    ensures
        out@ == summary_head(r@, m@, offline, cost@),
{
    let mut out = "jevernetes · ".to_owned();
    out.append(mode_text(offline));
    out.append("\n");
    let part_0 = text::decimal_text(r.total as u64);
    out.append(part_0.as_str());
    out.append(" events / ");
    let part_1 = text::decimal_text(r.lines as u64);
    out.append(part_1.as_str());
    out.append(" lines · important ");
    let part_2 = text::decimal_text(r.counts.important as u64);
    out.append(part_2.as_str());
    out.append(" · uncertain ");
    let part_3 = text::decimal_text(r.counts.uncertain as u64);
    out.append(part_3.as_str());
    out.append(" · unknown ");
    let part_4 = text::decimal_text(r.counts.unknown as u64);
    out.append(part_4.as_str());
    out.append("\ncoverage gaps ");
    let part_5 = text::decimal_text(m.coverage_gaps as u64);
    out.append(part_5.as_str());
    out.append(" · dropped ");
    let part_6 = text::decimal_text(m.dropped as u64);
    out.append(part_6.as_str());
    out.append(" · estimated $");
    out.append(cost);
    out.append("\n");
    out
}

/// What is reported of a live run while it goes on.
pub open spec fn tail_line(m: MetricsView) -> Seq<char> {
    "[tail] streams="@ + text::decimal(m.active_streams as nat) + " queue="@ + text::decimal(m.queue_depth as nat) + " high_water="@ + text::decimal(m.queue_high_water as nat) + " dropped="@ + text::decimal(m.dropped as nat) + " reconnects="@ + text::decimal(m.reconnects as nat) + " gaps="@ + text::decimal(m.coverage_gaps as nat)
}

pub fn write_tail(m: &Metrics) -> (out: String)
    ensures
        out@ == tail_line(m@),
{
    let mut out = "[tail] streams=".to_owned();
    let part_0 = text::decimal_text(m.active_streams as u64);
    out.append(part_0.as_str());
    out.append(" queue=");
    let part_1 = text::decimal_text(m.queue_depth as u64);
    out.append(part_1.as_str());
    out.append(" high_water=");
    let part_2 = text::decimal_text(m.queue_high_water as u64);
    out.append(part_2.as_str());
    out.append(" dropped=");
    let part_3 = text::decimal_text(m.dropped as u64);
    out.append(part_3.as_str());
    out.append(" reconnects=");
    let part_4 = text::decimal_text(m.reconnects as u64);
    out.append(part_4.as_str());
    out.append(" gaps=");
    let part_5 = text::decimal_text(m.coverage_gaps as u64);
    out.append(part_5.as_str());
    out
}

fn mode_text(offline: bool) -> (r: &'static str)
    ensures
        r@ == report::mode_name(offline),
{
    if offline {
        "offline-rules"
    } else {
        "jev"
    }
}

/// The lines of the first groups.
pub open spec fn group_lines(groups: Seq<GroupView>, n: nat) -> Seq<char>
    decreases n,
{
    if n == 0 {
        seq![]
    } else {
        group_lines(groups, (n - 1) as nat) + group_line(groups[n - 1])
    }
}

/// The summary of a run: its counts, and its most severe groups.
pub open spec fn summary_text(
    r: ReportView,
    m: MetricsView,
    offline: bool,
    cost: Seq<char>,
) -> Seq<char> {
    let groups = report::ordered(report::important_groups(r.events));
    summary_head(r, m, offline, cost) + group_lines(
        groups,
        if groups.len() < SHOWN {
            groups.len()
        } else {
            SHOWN as nat
        },
    )
}

/// Writes the summary of a run, which comes with the text of what it has cost.
pub fn summary(r: &Report, m: &Metrics, offline: bool, cost: &str) -> (out: String)
    ensures
        out@ == summary_text(r@, m@, offline, cost@),
{
    let mut out = write_head(r, m, offline, cost);
    let groups = r.groups();
    let ghost all = report::groups_view(groups@);
    let n = if groups.len() < SHOWN {
        groups.len()
    } else {
        SHOWN
    };
    let ghost head = out@;
    let mut i: usize = 0;
    assert(out@ =~= head + group_lines(all, 0));
    while i < n
        invariant
            all == report::groups_view(groups@),
            n <= groups@.len(),
            i <= n,
            out@ == head + group_lines(all, i as nat),
        decreases n - i,
    {
        assert(all[i as int] == groups@[i as int]@);
        let line = write_group_line(&groups[i]);
        out.append(line.as_str());
        assert(out@ =~= head + group_lines(all, (i + 1) as nat));
        i += 1;
    }
    out
}

}
