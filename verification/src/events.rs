//! Byte-bounded framing, multiline events, and best-effort redaction before storage.
use vstd::prelude::*;

use crate::digest;
use crate::exact;
use crate::grouping;
use crate::jev;
use crate::jev::{Judgment, JudgmentView};
use crate::json;
use crate::json::{Fields, Items, Json, JsonView, Table};
use crate::pattern;
use crate::text;

verus! {

/// The longest line that is kept whole, in bytes.
pub const MAX_LINE: usize = 65_536;

/// The longest event text that is kept whole, in bytes.
pub const MAX_EVENT: usize = 16_000;

/// The bytes that are read of one input unless told otherwise.
pub const MAX_INPUT: u64 = 33_554_432;

/// The identity of a value: the first 20 hexadecimal digits of the hash of its JSON text.
pub open spec fn identity(v: JsonView) -> Seq<char> {
    digest::fingerprint(v).take(20)
}

/// Whether the first 20 digits do not take the JSON texts of two values for the same where they
/// differ.
pub open spec fn no_clash(v: JsonView, w: JsonView) -> bool {
    identity(v) == identity(w) ==> json::json_text(v) == json::json_text(w)
}

pub fn hash(value: &Json) -> (r: String)
    ensures
        r@ == identity(value@),
        r@.len() == 20,
{
    let full = digest::fingerprint_of(value);
    text::first_chars(full.as_str(), 20)
}

/// Where evidence came from.
pub type Source = Table;

/// What the local rules say of a text: which of them it matches.
pub struct Baseline {
    pub important: bool,
    pub signals: Vec<String>,
}

#[verifier::ext_equal]
pub struct BaselineView {
    pub important: bool,
    pub signals: Seq<Seq<char>>,
}

impl Baseline {
    pub open spec fn view(&self) -> BaselineView {
        BaselineView { important: self.important, signals: text::list_view(self.signals@) }
    }
}

impl Default for Baseline {
    fn default() -> (r: Self)
        ensures
            r@ == (BaselineView { important: false, signals: seq![] }),
    {
        let r = Baseline { important: false, signals: Vec::new() };
        assert(r@.signals =~= seq![]);
        r
    }
}

impl Clone for Baseline {
    fn clone(&self) -> (r: Self)
        ensures
            r@ == self@,
    {
        Baseline { important: self.important, signals: text::clone_list(&self.signals) }
    }
}

/// One log event: a line with those that go on with it.
pub struct Event {
    pub id: String,
    pub source: Source,
    pub timestamp: Option<String>,
    pub text: String,
    pub line_start: u64,
    pub line_end: u64,
    pub line_count: u64,
    pub truncated: bool,
    pub group_id: String,
    pub judgment: Judgment,
    pub baseline: Baseline,
    pub analysis_reused: bool,
    pub analysis_representative_id: Option<String>,
}

#[verifier::ext_equal]
pub struct EventView {
    pub id: Seq<char>,
    pub source: Seq<(Seq<char>, JsonView)>,
    pub timestamp: Option<Seq<char>>,
    pub text: Seq<char>,
    pub line_start: u64,
    pub line_end: u64,
    pub line_count: u64,
    pub truncated: bool,
    pub group_id: Seq<char>,
    pub judgment: JudgmentView,
    pub baseline: BaselineView,
    pub analysis_reused: bool,
    pub analysis_representative_id: Option<Seq<char>>,
}

impl Event {
    pub open spec fn view(&self) -> EventView {
        EventView {
            id: self.id@,
            source: self.source@,
            timestamp: text::optional_view(self.timestamp),
            text: self.text@,
            line_start: self.line_start,
            line_end: self.line_end,
            line_count: self.line_count,
            truncated: self.truncated,
            group_id: self.group_id@,
            judgment: self.judgment@,
            baseline: self.baseline@,
            analysis_reused: self.analysis_reused,
            analysis_representative_id: text::optional_view(self.analysis_representative_id),
        }
    }
}

impl Clone for Event {
    fn clone(&self) -> (r: Self)
        ensures
            r@ == self@,
    {
        Event {
            id: self.id.clone(),
            source: self.source.clone(),
            timestamp: text::clone_optional(&self.timestamp),
            text: self.text.clone(),
            line_start: self.line_start,
            line_end: self.line_end,
            line_count: self.line_count,
            truncated: self.truncated,
            group_id: self.group_id.clone(),
            judgment: self.judgment.clone(),
            baseline: self.baseline.clone(),
            analysis_reused: self.analysis_reused,
            analysis_representative_id: text::clone_optional(&self.analysis_representative_id),
        }
    }
}

/// The views of a list of events.
pub open spec fn events_view(v: Seq<Event>) -> Seq<EventView> {
    Seq::new(v.len(), |i: int| v[i]@)
}

/// A baseline as a JSON object.
pub open spec fn baseline_json(b: BaselineView) -> JsonView {
    JsonView::Object(
        seq![].push(("important"@, JsonView::Bool(b.important))).push(
            ("signals"@, json::text_list(b.signals)),
        ),
    )
}

/// An event as a JSON object, its fields in the order of their names. What is not known of it has
/// no field, but for the timestamp.
pub open spec fn event_json(e: EventView) -> JsonView {
    let j = e.judgment;
    let a = json::push_some(seq![], "analysis_error"@, json::text_value(j.analysis_error));
    let b = json::push_some(
        a,
        "analysis_representative_id"@,
        json::text_value(e.analysis_representative_id),
    ).push(("analysis_reused"@, JsonView::Bool(e.analysis_reused))).push(
        ("baseline"@, baseline_json(e.baseline)),
    ).push(("category"@, JsonView::Text(jev::category_name(j.category))));
    let c = json::push_some(b, "category_confidence"@, json::real_value(j.category_confidence)).push(
        ("group_id"@, JsonView::Text(e.group_id)),
    ).push(("id"@, JsonView::Text(e.id))).push(
        ("importance"@, JsonView::Text(jev::importance_name(j.importance))),
    );
    let d = json::push_some(
        c,
        "importance_confidence"@,
        json::real_value(j.importance_confidence),
    ).push(("line_count"@, json::integer(e.line_count as int))).push(
        ("line_end"@, json::integer(e.line_end as int)),
    ).push(("line_start"@, json::integer(e.line_start as int))).push(
        ("severity"@, JsonView::Text(jev::severity_name(j.severity))),
    );
    let f = json::push_some(d, "severity_confidence"@, json::real_value(j.severity_confidence)).push(
        ("source"@, JsonView::Object(e.source)),
    ).push(("text"@, JsonView::Text(e.text))).push(
        ("timestamp"@, json::optional_text(e.timestamp)),
    ).push(("truncated"@, JsonView::Bool(e.truncated)));
    JsonView::Object(f)
}

impl Event {
    /// The event as a JSON object.
    pub fn json(&self) -> (r: Json)
        ensures
            r@ == event_json(self@),
    {
        let j = &self.judgment;
        let baseline = Fields::new().with("important", Json::Bool(self.baseline.important)).with(
            "signals",
            json::strings(&self.baseline.signals),
        ).object();
        Fields::new().with_text("analysis_error", &j.analysis_error).with_text(
            "analysis_representative_id",
            &self.analysis_representative_id,
        ).with("analysis_reused", Json::Bool(self.analysis_reused)).with("baseline", baseline).with(
            "category",
            json::string(j.category.label()),
        ).with_real("category_confidence", &j.category_confidence).with(
            "group_id",
            json::string(self.group_id.as_str()),
        ).with("id", json::string(self.id.as_str())).with(
            "importance",
            json::string(j.importance.label()),
        ).with_real("importance_confidence", &j.importance_confidence).with(
            "line_count",
            json::unsigned(self.line_count),
        ).with("line_end", json::unsigned(self.line_end)).with(
            "line_start",
            json::unsigned(self.line_start),
        ).with("severity", json::string(j.severity.label())).with_real(
            "severity_confidence",
            &j.severity_confidence,
        ).with("source", self.source.json()).with("text", json::string(self.text.as_str())).with(
            "timestamp",
            json::optional(&self.timestamp),
        ).with("truncated", Json::Bool(self.truncated)).object()
    }
}

/// A text without terminal control sequences; one without an escape character has none.
pub open spec fn stripped(t: Seq<char>) -> Seq<char> {
    if t.contains(pattern::ESCAPE) {
        pattern::replaced(pattern::ANSI@, t, ""@)
    } else {
        t
    }
}

/// A text without terminal control sequences, and with a space for every other control character.
pub open spec fn printable(t: Seq<char>) -> Seq<char> {
    blanked(stripped(t))
}

/// A text with a space for every control character.
pub open spec fn blanked(t: Seq<char>) -> Seq<char> {
    t.map_values(
        |c: char|
            if text::control(c) {
                ' '
            } else {
                c
            },
    )
}

/// Text for a terminal holds no control character and stays as it is when it is prepared once
/// more. A text without an escape character keeps its length, and loses nothing but its control
/// characters, which give way to spaces.
pub proof fn printing_is_settled(t: Seq<char>)
    ensures
        forall|i: int| 0 <= i < printable(t).len() ==> !text::control(#[trigger] printable(t)[i]),
        printable(printable(t)) == printable(t),
        !t.contains(pattern::ESCAPE) ==> printable(t) == blanked(t) && printable(t).len()
            == t.len(),
{
    let p = printable(t);
    assert(text::control(pattern::ESCAPE));
    if p.contains(pattern::ESCAPE) {
        let i = choose|i: int| 0 <= i < p.len() && p[i] == pattern::ESCAPE;
        assert(!text::control(p[i]));
    }
    assert(blanked(p) =~= p);
}

pub fn strip_ansi(text: &str) -> (r: String)
    ensures
        r@ == stripped(text@),
{
    pattern::replace_all(&pattern::rx(pattern::ANSI), text, "")
}

/// Text that can be shown on a terminal: no control character is left.
pub fn console(text: &str) -> (r: String)
    ensures
        r@ == printable(text@),
        forall|i: int| 0 <= i < r@.len() ==> !text::control(#[trigger] r@[i]),
{
    let plain = strip_ansi(text);
    let v = text::chars(plain.as_str());
    let mut out = String::new();
    let mut i: usize = 0;
    while i < v.len()
        invariant
            v@ == stripped(text@),
            i <= v@.len(),
            out@ == printable(text@).take(i as int),
        decreases v@.len() - i,
    {
        let c = v[i];
        out.push(
            if text::is_control(c) {
                ' '
            } else {
                c
            },
        );
        assert(out@ =~= printable(text@).take(i + 1));
        i += 1;
    }
    assert(out@ =~= printable(text@));
    out
}

/// A text with the credentials that can be recognised in it taken out.
pub open spec fn scrubbed(t: Seq<char>) -> Seq<char> {
    let a = pattern::replaced(pattern::AUTH@, t, "$1 [REDACTED]"@);
    let b = pattern::replaced(pattern::URL@, a, "$1[REDACTED]@"@);
    let c = pattern::replaced(pattern::JWT@, b, "[REDACTED]"@);
    pattern::replaced(pattern::SECRET@, c, "${1}\"[REDACTED]\""@)
}

/// Whether a field name stands for a credential.
pub open spec fn sensitive(name: Seq<char>) -> bool {
    pattern::matched(pattern::FIELD@, name)
}

/// A value with every field that stands for a credential redacted, and every other text scrubbed.
pub open spec fn cleaned(v: JsonView) -> JsonView
    decreases v,
{
    match v {
        JsonView::Object(fields) => JsonView::Object(
            Seq::new(
                fields.len(),
                |i: int|
                    if 0 <= i < fields.len() {
                        (
                            fields[i].0,
                            if sensitive(fields[i].0) {
                                JsonView::Text("[REDACTED]"@)
                            } else {
                                cleaned(fields[i].1)
                            },
                        )
                    } else {
                        (Seq::empty(), JsonView::Null)
                    },
            ),
        ),
        JsonView::List(items) => JsonView::List(
            Seq::new(
                items.len(),
                |i: int|
                    if 0 <= i < items.len() {
                        cleaned(items[i])
                    } else {
                        JsonView::Null
                    },
            ),
        ),
        JsonView::Text(t) => JsonView::Text(scrubbed(t)),
        _ => v,
    }
}

/// Whether every field that stands for a credential, at any depth, holds the mark of redaction.
pub open spec fn credential_free(v: JsonView) -> bool
    decreases v,
{
    match v {
        JsonView::Object(fields) => forall|i: int|
            0 <= i < fields.len() ==> if sensitive((#[trigger] fields[i]).0) {
                fields[i].1 == JsonView::Text("[REDACTED]"@)
            } else {
                credential_free(fields[i].1)
            },
        JsonView::List(items) => forall|i: int|
            0 <= i < items.len() ==> credential_free(#[trigger] items[i]),
        _ => true,
    }
}

/// No field that stands for a credential keeps its value, however deep it lies.
pub proof fn cleaned_is_credential_free(v: JsonView)
    ensures
        credential_free(cleaned(v)),
    decreases v,
{
    match v {
        JsonView::Object(fields) => {
            let after = cleaned(v)->Object_0;
            assert forall|i: int| 0 <= i < after.len() implies if sensitive(
                (#[trigger] after[i]).0,
            ) {
                after[i].1 == JsonView::Text("[REDACTED]"@)
            } else {
                credential_free(after[i].1)
            } by {
                assert(decreases_to!(v => v->Object_0));
                assert(decreases_to!(fields => fields[i]));
                cleaned_is_credential_free(fields[i].1);
            }
        },
        JsonView::List(items) => {
            let after = cleaned(v)->List_0;
            assert forall|i: int| 0 <= i < after.len() implies credential_free(
                #[trigger] after[i],
            ) by {
                assert(decreases_to!(v => v->List_0));
                assert(decreases_to!(items => items[i]));
                cleaned_is_credential_free(items[i]);
            }
        },
        _ => {},
    }
}

/// A text fit to be kept: without control sequences and recognisable credentials. A JSON text is
/// cleaned field by field.
pub open spec fn redacted(t: Seq<char>) -> Seq<char> {
    let plain = stripped(t);
    match json::parsed_text(plain) {
        Some(v) => json::json_text(cleaned(v)),
        None => scrubbed(plain),
    }
}

/// The names of the local rules that a text matches.
pub open spec fn signals_of(t: Seq<char>) -> Seq<Seq<char>> {
    let a = if pattern::matched(pattern::FAILURE@, t) {
        seq!["error_or_failure_keyword"@]
    } else {
        seq![]
    };
    let b = if pattern::matched(pattern::SERVER_ERROR@, t) {
        a.push("http_5xx"@)
    } else {
        a
    };
    if pattern::matched(pattern::WARNING@, t) {
        b.push("warning_level"@)
    } else {
        b
    }
}

pub open spec fn baseline_of(t: Seq<char>) -> BaselineView {
    BaselineView { important: signals_of(t).len() > 0, signals: signals_of(t) }
}

/// The expressions that reading a log takes, compiled once.
pub struct Patterns {
    ansi: regex::Regex,
    stamp: regex::Regex,
    continuation: regex::Regex,
    field: regex::Regex,
    secret: regex::Regex,
    auth: regex::Regex,
    url: regex::Regex,
    jwt: regex::Regex,
    failure: regex::Regex,
    server_error: regex::Regex,
    warning: regex::Regex,
}

impl Patterns {
    pub closed spec fn wf(&self) -> bool {
        &&& pattern::pattern_of(self.ansi) == pattern::ANSI@
        &&& pattern::pattern_of(self.stamp) == pattern::STAMP@
        &&& pattern::pattern_of(self.continuation) == pattern::CONTINUATION@
        &&& pattern::pattern_of(self.field) == pattern::FIELD@
        &&& pattern::pattern_of(self.secret) == pattern::SECRET@
        &&& pattern::pattern_of(self.auth) == pattern::AUTH@
        &&& pattern::pattern_of(self.url) == pattern::URL@
        &&& pattern::pattern_of(self.jwt) == pattern::JWT@
        &&& pattern::pattern_of(self.failure) == pattern::FAILURE@
        &&& pattern::pattern_of(self.server_error) == pattern::SERVER_ERROR@
        &&& pattern::pattern_of(self.warning) == pattern::WARNING@
    }

    pub fn new() -> (r: Self)
        ensures
            r.wf(),
    {
        Patterns {
            ansi: pattern::rx(pattern::ANSI),
            stamp: pattern::rx(pattern::STAMP),
            continuation: pattern::rx(pattern::CONTINUATION),
            field: pattern::rx(pattern::FIELD),
            secret: pattern::rx(pattern::SECRET),
            auth: pattern::rx(pattern::AUTH),
            url: pattern::rx(pattern::URL),
            jwt: pattern::rx(pattern::JWT),
            failure: pattern::rx(pattern::FAILURE),
            server_error: pattern::rx(pattern::SERVER_ERROR),
            warning: pattern::rx(pattern::WARNING),
        }
    }

    fn scrub(&self, text: &str) -> (r: String)
        requires
            self.wf(),
        ensures
            r@ == scrubbed(text@),
    {
        let a = pattern::replace_all(&self.auth, text, "$1 [REDACTED]");
        let b = pattern::replace_all(&self.url, a.as_str(), "$1[REDACTED]@");
        let c = pattern::replace_all(&self.jwt, b.as_str(), "[REDACTED]");
        pattern::replace_all(&self.secret, c.as_str(), "${1}\"[REDACTED]\"")
    }

    fn clean(&self, value: &Json) -> (r: Json)
        requires
            self.wf(),
        ensures
            r@ == cleaned(value@),
        decreases value,
    {
        broadcast use {json::view_of_list, json::view_of_object};

        match value {
            Json::Object(v) => {
                let mut out: Vec<(String, Json)> = Vec::new();
                let mut i: usize = 0;
                let ghost after = cleaned(value@)->Object_0;
                while i < v.len()
                    invariant
                        self.wf(),
                        value matches Json::Object(w) && w == v,
                        value@ == JsonView::Object(json::fields_view(v@)),
                        after == cleaned(value@)->Object_0,
                        i <= v@.len(),
                        out@.len() == i,
                        forall|k: int|
                            0 <= k < i ==> ((#[trigger] out@[k]).0@, out@[k].1@) == after[k],
                    decreases v@.len() - i,
                {
                    let key = v[i].0.clone();
                    assert(json::fields_view(v@)[i as int] == (v@[i as int].0@, v@[i as int].1@));
                    let item = if pattern::is_match(&self.field, key.as_str()) {
                        json::string("[REDACTED]")
                    } else {
                        self.clean(&v[i].1)
                    };
                    out.push((key, item));
                    i += 1;
                }
                assert(json::fields_view(out@) =~= after);
                Json::Object(out)
            },
            Json::List(v) => {
                let mut out: Vec<Json> = Vec::new();
                let mut i: usize = 0;
                let ghost after = cleaned(value@)->List_0;
                while i < v.len()
                    invariant
                        self.wf(),
                        value matches Json::List(w) && w == v,
                        value@ == JsonView::List(json::list_view(v@)),
                        after == cleaned(value@)->List_0,
                        i <= v@.len(),
                        out@.len() == i,
                        forall|k: int| 0 <= k < i ==> (#[trigger] out@[k])@ == after[k],
                    decreases v@.len() - i,
                {
                    assert(json::list_view(v@)[i as int] == v@[i as int]@);
                    out.push(self.clean(&v[i]));
                    i += 1;
                }
                assert(json::list_view(out@) =~= after);
                Json::List(out)
            },
            Json::Text(t) => Json::Text(self.scrub(t.as_str())),
            Json::Null => Json::Null,
            Json::Bool(b) => Json::Bool(*b),
            Json::Number(n) => Json::Number(n.clone()),
        }
    }

    fn redact(&self, text: &str) -> (r: String)
        requires
            self.wf(),
        ensures
            r@ == redacted(text@),
    {
        let plain = pattern::replace_all(&self.ansi, text, "");
        match json::parse(plain.as_str().as_bytes()) {
            Some(value) => self.clean(&value).text(),
            None => self.scrub(plain.as_str()),
        }
    }

    fn baseline(&self, text: &str) -> (r: Baseline)
        requires
            self.wf(),
        ensures
            r@ == baseline_of(text@),
    {
        let mut signals: Vec<String> = Vec::new();
        assert(text::list_view(signals@) =~= seq![]);
        if pattern::is_match(&self.failure, text) {
            signals.push("error_or_failure_keyword".to_owned());
            assert(text::list_view(signals@) =~= seq!["error_or_failure_keyword"@]);
        }
        let ghost a = text::list_view(signals@);
        if pattern::is_match(&self.server_error, text) {
            signals.push("http_5xx".to_owned());
            assert(text::list_view(signals@) =~= a.push("http_5xx"@));
        }
        let ghost b = text::list_view(signals@);
        if pattern::is_match(&self.warning, text) {
            signals.push("warning_level".to_owned());
            assert(text::list_view(signals@) =~= b.push("warning_level"@));
        }
        assert(text::list_view(signals@) == signals_of(text@));
        Baseline { important: signals.len() > 0, signals }
    }
}

pub fn redact(text: &str) -> (r: String)
    ensures
        r@ == redacted(text@),
{
    Patterns::new().redact(text)
}

pub fn baseline(text: &str) -> (r: Baseline)
    ensures
        r@ == baseline_of(text@),
{
    Patterns::new().baseline(text)
}

/// One line of input, with its line feed where it had one.
#[derive(Debug)]
pub struct Line {
    pub bytes: Vec<u8>,
    pub truncated: bool,
    pub private: bool,
}

#[verifier::ext_equal]
pub struct LineView {
    pub bytes: Seq<u8>,
    pub truncated: bool,
    pub private: bool,
}

impl Line {
    pub open spec fn view(&self) -> LineView {
        LineView { bytes: self.bytes@, truncated: self.truncated, private: self.private }
    }
}

/// The views of a list of lines.
pub open spec fn lines_view(v: Seq<Line>) -> Seq<LineView> {
    Seq::new(v.len(), |i: int| v[i]@)
}

/// Splits bytes into lines. It retains only `MAX_LINE` bytes of each, but looks for the marks of a
/// private key in the discarded bytes too, and in marks that two chunks share.
pub struct Framer {
    buffer: Vec<u8>,
    truncated: bool,
    private: bool,
    in_key: bool,
    marker: String,
    pem: regex::Regex,
}

#[verifier::ext_equal]
pub struct FramerView {
    pub buffer: Seq<u8>,
    pub truncated: bool,
    pub private: bool,
    pub in_key: bool,
    pub marker: Seq<char>,
}

/// The state before the first byte.
pub open spec fn framer_start() -> FramerView {
    FramerView {
        buffer: seq![],
        truncated: false,
        private: false,
        in_key: false,
        marker: seq![],
    }
}

/// The last `n` characters, or all of them.
pub open spec fn last_chars(t: Seq<char>, n: int) -> Seq<char> {
    if n < t.len() {
        t.skip(t.len() - n)
    } else {
        t
    }
}

impl FramerView {
    pub open spec fn room(self) -> int {
        MAX_LINE - self.buffer.len()
    }

    /// Takes in bytes of one line.
    pub open spec fn scanned(self, chunk: Seq<u8>) -> FramerView {
        let scan = self.marker + text::lossy(chunk);
        let marks = pattern::captured(pattern::PEM@, scan);
        FramerView {
            buffer: self.buffer + chunk.take(
                if chunk.len() <= self.room() {
                    chunk.len() as int
                } else {
                    self.room()
                },
            ),
            truncated: self.truncated || chunk.len() > self.room(),
            private: self.private || self.in_key || marks.len() > 0,
            in_key: if marks.len() > 0 {
                marks.last() == "BEGIN"@
            } else {
                self.in_key
            },
            marker: last_chars(scan, 128),
        }
    }

    /// The line at its end, if there is anything of one.
    pub open spec fn line(self) -> Option<LineView> {
        if self.buffer.len() == 0 && !self.truncated {
            None
        } else {
            Some(
                LineView {
                    bytes: self.buffer,
                    truncated: self.truncated,
                    private: self.private,
                },
            )
        }
    }

    /// The state behind the end of a line.
    pub open spec fn cleared(self) -> FramerView {
        if self.line() is None {
            self
        } else {
            FramerView {
                buffer: seq![],
                truncated: false,
                private: self.in_key,
                in_key: self.in_key,
                marker: seq![],
            }
        }
    }

    /// Takes in bytes that have a line feed at most at their end.
    pub open spec fn step(self, chunk: Seq<u8>) -> (FramerView, Seq<LineView>) {
        let after = self.scanned(chunk);
        if chunk.len() > 0 && chunk.last() == 10 {
            (
                after.cleared(),
                match after.line() {
                    Some(line) => seq![line],
                    None => seq![],
                },
            )
        } else {
            (after, seq![])
        }
    }

    /// Takes in bytes, line by line.
    pub open spec fn pushed(self, bytes: Seq<u8>) -> (FramerView, Seq<LineView>)
        decreases bytes.len(),
    {
        let n = through_feed(bytes);
        if bytes.len() == 0 || n <= 0 || n > bytes.len() {
            (self, seq![])
        } else {
            let (next, lines) = self.step(bytes.take(n));
            let (end, more) = next.pushed(bytes.skip(n));
            (end, lines + more)
        }
    }
}

/// The number of bytes up to and with the first line feed, or of all of them.
pub open spec fn through_feed(bytes: Seq<u8>) -> int
    decreases bytes.len(),
{
    if bytes.len() == 0 {
        0
    } else if bytes[0] == 10 {
        1
    } else {
        1 + through_feed(bytes.drop_first())
    }
}

proof fn through_feed_bound(bytes: Seq<u8>)
    ensures
        0 <= through_feed(bytes) <= bytes.len(),
        bytes.len() > 0 ==> through_feed(bytes) > 0,
    decreases bytes.len(),
{
    if bytes.len() > 0 {
        through_feed_bound(bytes.drop_first());
    }
}

fn next_chunk(bytes: &[u8], from: usize) -> (end: usize)
    requires
        from < bytes@.len(),
    ensures
        from < end <= bytes@.len(),
        end - from == through_feed(bytes@.skip(from as int)),
{
    let mut i: usize = from;
    loop
        invariant
            from <= i < bytes@.len(),
            i - from + through_feed(bytes@.skip(i as int)) == through_feed(
                bytes@.skip(from as int),
            ),
        decreases bytes@.len() - i,
    {
        assert(bytes@.skip(i as int).drop_first() =~= bytes@.skip(i + 1));
        assert(bytes@.skip(i as int)[0] == bytes@[i as int]);
        if bytes[i] == 10 || i + 1 == bytes.len() {
            assert(bytes@[i as int] != 10 ==> through_feed(bytes@.skip(i + 1)) == 0);
            return i + 1;
        }
        i += 1;
    }
}

fn last_128(t: &str) -> (r: String)
    ensures
        r@ == last_chars(t@, 128),
{
    let v = text::chars(t);
    if v.len() > 128 {
        let r = text::slice(&v, v.len() - 128, v.len());
        assert(r@ =~= t@.skip(t@.len() - 128));
        r
    } else {
        t.to_owned()
    }
}

impl Default for Framer {
    fn default() -> (r: Self)
        ensures
            r.wf(),
            r@ == framer_start(),
    {
        let r = Framer {
            buffer: Vec::new(),
            truncated: false,
            private: false,
            in_key: false,
            marker: String::new(),
            pem: pattern::rx(pattern::PEM),
        };
        assert(r@ =~= framer_start());
        r
    }
}

impl Framer {
    pub closed spec fn view(&self) -> FramerView {
        FramerView {
            buffer: self.buffer@,
            truncated: self.truncated,
            private: self.private,
            in_key: self.in_key,
            marker: self.marker@,
        }
    }

    /// No more than `MAX_LINE` bytes are held.
    pub closed spec fn wf(&self) -> bool {
        self.buffer@.len() <= MAX_LINE && pattern::pattern_of(self.pem) == pattern::PEM@
    }

    fn scan(&mut self, bytes: &[u8], from: usize, end: usize)
        requires
            old(self).wf(),
            from <= end <= bytes@.len(),
        ensures
            final(self).wf(),
            final(self)@ == old(self)@.scanned(bytes@.subrange(from as int, end as int)),
    {
        let ghost chunk = bytes@.subrange(from as int, end as int);
        let ghost before = self@;
        if self.in_key {
            self.private = true;
        }
        let part = vstd::slice::slice_subrange(bytes, from, end);
        let mut scan = self.marker.clone();
        let decoded = text::lossy_text(part);
        scan.append(decoded.as_str());
        let marks = pattern::first_groups(&self.pem, scan.as_str());
        let ghost found = pattern::captured(pattern::PEM@, before.marker + text::lossy(chunk));
        if marks.len() > 0 {
            self.private = true;
            self.in_key = text::same(marks[marks.len() - 1].as_str(), "BEGIN");
            assert(found.last() == marks@.last()@);
        }
        self.marker = last_128(scan.as_str());
        let room = MAX_LINE - self.buffer.len();
        let kept = if end - from <= room {
            end
        } else {
            from + room
        };
        let ghost grown = before.buffer;
        let mut i: usize = from;
        while i < kept
            invariant
                from <= i <= kept <= end <= bytes@.len(),
                kept - from <= MAX_LINE - grown.len(),
                self.buffer@ == grown + bytes@.subrange(from as int, i as int),
                self.truncated == before.truncated,
                self.private == (before.private || before.in_key || found.len() > 0),
                self.in_key == (if found.len() > 0 {
                    found.last() == "BEGIN"@
                } else {
                    before.in_key
                }),
                self.marker@ == last_chars(before.marker + text::lossy(chunk), 128),
                pattern::pattern_of(self.pem) == pattern::PEM@,
            decreases kept - i,
        {
            self.buffer.push(bytes[i]);
            assert(self.buffer@ =~= grown + bytes@.subrange(from as int, i + 1));
            i += 1;
        }
        assert(bytes@.subrange(from as int, kept as int) =~= chunk.take(kept - from));
        if end - from > room {
            self.truncated = true;
        }
        assert(self@ =~= before.scanned(chunk));
    }

    /// Takes in bytes, and gives back the lines that they complete.
    pub fn push(&mut self, bytes: &[u8]) -> (lines: Vec<Line>)
        requires
            old(self).wf(),
        ensures
            final(self).wf(),
            (final(self)@, lines_view(lines@)) == old(self)@.pushed(bytes@),
    {
        let ghost start = self@;
        let mut lines: Vec<Line> = Vec::new();
        let mut i: usize = 0;
        assert(bytes@.skip(0) =~= bytes@);
        assert(lines_view(lines@) + self@.pushed(bytes@).1 =~= start.pushed(bytes@).1);
        while i < bytes.len()
            invariant
                self.wf(),
                i <= bytes@.len(),
                self@.pushed(bytes@.skip(i as int)).0 == start.pushed(bytes@).0,
                lines_view(lines@) + self@.pushed(bytes@.skip(i as int)).1 == start.pushed(
                    bytes@,
                ).1,
            decreases bytes@.len() - i,
        {
            let ghost rest = bytes@.skip(i as int);
            let ghost state = self@;
            let ghost done = lines_view(lines@);
            let end = next_chunk(bytes, i);
            let ghost chunk = rest.take(end - i);
            assert(chunk =~= bytes@.subrange(i as int, end as int));
            assert(rest.skip(end - i) =~= bytes@.skip(end as int));
            self.scan(bytes, i, end);
            assert(chunk.last() == bytes@[end - 1]);
            let ghost (next, fresh) = state.step(chunk);
            if bytes[end - 1] == 10 {
                match self.finish() {
                    Some(line) => {
                        lines.push(line);
                        assert(lines_view(lines@) =~= done + fresh);
                    },
                    None => {
                        assert(lines_view(lines@) =~= done + fresh);
                    },
                }
            } else {
                assert(lines_view(lines@) =~= done + fresh);
            }
            assert(self@ == next);
            assert(lines_view(lines@) + next.pushed(bytes@.skip(end as int)).1 =~= done + (fresh
                + next.pushed(bytes@.skip(end as int)).1));
            i = end;
        }
        assert(bytes@.skip(i as int) =~= seq![]);
        assert(lines_view(lines@) =~= start.pushed(bytes@).1);
        lines
    }

    /// Ends the line that is held, if there is anything of one.
    pub fn finish(&mut self) -> (r: Option<Line>)
        requires
            old(self).wf(),
        ensures
            final(self).wf(),
            final(self)@ == old(self)@.cleared(),
            match r {
                Some(line) => old(self)@.line() == Some(line@),
                None => old(self)@.line() is None,
            },
    {
        let ghost before = self@;
        if self.buffer.len() == 0 && !self.truncated {
            return None;
        }
        let mut bytes: Vec<u8> = Vec::new();
        std::mem::swap(&mut bytes, &mut self.buffer);
        let line = Line { bytes, truncated: self.truncated, private: self.private };
        self.truncated = false;
        self.private = self.in_key;
        self.marker = String::new();
        assert(self@ =~= before.cleared());
        Some(line)
    }
}

/// The state of a framer without its search for keys.
pub open spec fn held(f: FramerView) -> (Seq<u8>, bool) {
    (f.buffer, f.truncated)
}

/// Lines without the mark of a private key.
pub open spec fn contents(lines: Seq<LineView>) -> Seq<(Seq<u8>, bool)> {
    Seq::new(lines.len(), |i: int| (lines[i].bytes, lines[i].truncated))
}

proof fn step_same(a: FramerView, b: FramerView, chunk: Seq<u8>)
    requires
        held(a) == held(b),
    ensures
        held(a.step(chunk).0) == held(b.step(chunk).0),
        contents(a.step(chunk).1) == contents(b.step(chunk).1),
{
    assert(contents(a.step(chunk).1) =~= contents(b.step(chunk).1));
}

proof fn pushed_same(a: FramerView, b: FramerView, bytes: Seq<u8>)
    requires
        held(a) == held(b),
    ensures
        held(a.pushed(bytes).0) == held(b.pushed(bytes).0),
        contents(a.pushed(bytes).1) == contents(b.pushed(bytes).1),
    decreases bytes.len(),
{
    through_feed_bound(bytes);
    if bytes.len() > 0 {
        let n = through_feed(bytes);
        step_same(a, b, bytes.take(n));
        pushed_same(a.step(bytes.take(n)).0, b.step(bytes.take(n)).0, bytes.skip(n));
        assert(contents(a.pushed(bytes).1) =~= contents(a.step(bytes.take(n)).1) + contents(
            a.step(bytes.take(n)).0.pushed(bytes.skip(n)).1,
        ));
        assert(contents(b.pushed(bytes).1) =~= contents(b.step(bytes.take(n)).1) + contents(
            b.step(bytes.take(n)).0.pushed(bytes.skip(n)).1,
        ));
    } else {
        assert(contents(a.pushed(bytes).1) =~= contents(b.pushed(bytes).1));
    }
}

/// Whether bytes hold no line feed, but for the last of them.
spec fn one_line(bytes: Seq<u8>) -> bool {
    forall|i: int| 0 <= i < bytes.len() - 1 ==> bytes[i] != 10
}

proof fn through_feed_one_line(bytes: Seq<u8>)
    ensures
        one_line(bytes.take(through_feed(bytes))),
        0 < through_feed(bytes) < bytes.len() ==> bytes[through_feed(bytes) - 1] == 10,
    decreases bytes.len(),
{
    through_feed_bound(bytes);
    if bytes.len() > 0 && bytes[0] != 10 {
        let rest = bytes.drop_first();
        through_feed_one_line(rest);
        through_feed_bound(rest);
        let n = through_feed(bytes);
        assert forall|i: int| 0 <= i < bytes.take(n).len() - 1 implies bytes.take(n)[i] != 10 by {
            if i > 0 {
                assert(rest.take(n - 1)[i - 1] == bytes.take(n)[i]);
            }
        }
        if 0 < n < bytes.len() {
            assert(0 < through_feed(rest) < rest.len() || rest.len() == 0);
            assert(rest[n - 2] == bytes[n - 1]);
        }
    }
}

proof fn through_feed_of_one_line(bytes: Seq<u8>, more: Seq<u8>)
    requires
        one_line(bytes),
        bytes.len() > 0,
    ensures
        through_feed(bytes) == bytes.len(),
        bytes.last() == 10 ==> through_feed(bytes + more) == bytes.len(),
        bytes.last() != 10 ==> through_feed(bytes + more) == bytes.len() + through_feed(more),
    decreases bytes.len(),
{
    let rest = bytes.drop_first();
    assert((bytes + more).drop_first() =~= rest + more);
    if bytes.len() > 1 {
        assert(bytes[0] != 10);
        assert forall|i: int| 0 <= i < rest.len() - 1 implies rest[i] != 10 by {
            assert(bytes[i + 1] == rest[i]);
        }
        through_feed_of_one_line(rest, more);
        assert(rest.last() == bytes.last());
    } else {
        assert(rest =~= seq![]);
        assert(rest + more =~= more);
        assert(bytes.last() == bytes[0]);
        assert(through_feed(rest) == 0);
    }
}

/// What a framer has taken in does not depend on how the bytes of one line were handed to it.
proof fn line_in_two(f: FramerView, a: Seq<u8>, b: Seq<u8>)
    requires
        f.buffer.len() <= MAX_LINE,
        one_line(a),
        a.len() == 0 || a.last() != 10,
    ensures
        held(f.scanned(a + b)) == held(f.scanned(a).scanned(b)),
{
    let whole = f.scanned(a + b);
    let parts = f.scanned(a).scanned(b);
    assert(whole.buffer =~= parts.buffer);
}

/// The lines that come out, and what is held afterwards, do not depend on how the input was cut
/// into pieces: two pieces one after the other give what both together give. (The search for
/// private keys looks back over 128 characters only, so it is left out.)
pub proof fn pieces_do_not_matter(f: FramerView, a: Seq<u8>, b: Seq<u8>)
    requires
        f.buffer.len() <= MAX_LINE,
    ensures
        held(f.pushed(a + b).0) == held(f.pushed(a).0.pushed(b).0),
        contents(f.pushed(a + b).1) == contents(f.pushed(a).1) + contents(
            f.pushed(a).0.pushed(b).1,
        ),
    decreases a.len(),
{
    through_feed_bound(a);
    through_feed_bound(a + b);
    if a.len() == 0 {
        assert(a + b =~= b);
        assert(contents(f.pushed(a + b).1) =~= contents(f.pushed(a).1) + contents(
            f.pushed(a).0.pushed(b).1,
        ));
        return ;
    }
    let n = through_feed(a);
    let head = a.take(n);
    let rest = a.skip(n);
    through_feed_one_line(a);
    assert(a =~= head + rest);
    assert(a + b =~= head + (rest + b));
    through_feed_of_one_line(head, rest + b);
    if head.last() == 10 {
        assert((a + b).take(n) =~= head);
        assert((a + b).skip(n) =~= rest + b);
        let next = f.step(head).0;
        pieces_do_not_matter(next, rest, b);
        let first = f.step(head).1;
        assert(contents(f.pushed(a + b).1) =~= contents(first) + contents(
            next.pushed(rest + b).1,
        ));
        assert(contents(f.pushed(a).1) =~= contents(first) + contents(next.pushed(rest).1));
        assert(contents(f.pushed(a + b).1) =~= contents(f.pushed(a).1) + contents(
            f.pushed(a).0.pushed(b).1,
        ));
    } else {
        assert(n == a.len());
        assert(head =~= a);
        assert(rest =~= seq![]);
        assert(rest + b =~= b);
        let mid = f.scanned(a);
        assert(f.pushed(a).0 == mid) by {
            assert(f.step(a).0.pushed(rest).0 == mid);
        }
        assert(contents(f.pushed(a).1) =~= seq![]) by {
            assert(f.pushed(a).1 =~= f.step(a).1 + mid.pushed(rest).1);
        }
        if b.len() == 0 {
            assert(a + b =~= a);
            assert(contents(f.pushed(a + b).1) =~= contents(f.pushed(a).1) + contents(
                f.pushed(a).0.pushed(b).1,
            ));
        } else {
            let m = through_feed(b);
            through_feed_bound(b);
            let first = b.take(m);
            let tail = b.skip(m);
            assert((a + b).take(n + m) =~= a + first);
            assert((a + b).skip(n + m) =~= tail);
            line_in_two(f, a, first);
            assert((a + first).last() == first.last());
            let one = f.step(a + first);
            let two = mid.step(first);
            assert(held(one.0) == held(two.0));
            assert(contents(one.1) =~= contents(two.1));
            pushed_same(one.0, two.0, tail);
            assert(contents(f.pushed(a + b).1) =~= contents(one.1) + contents(
                one.0.pushed(tail).1,
            ));
            assert(contents(mid.pushed(b).1) =~= contents(two.1) + contents(
                two.0.pushed(tail).1,
            ));
            assert(contents(f.pushed(a + b).1) =~= contents(f.pushed(a).1) + contents(
                f.pushed(a).0.pushed(b).1,
            ));
        }
    }
}

/// No line that comes out has more than `MAX_LINE` bytes, nor is more than that ever held.
pub proof fn lines_are_bounded(f: FramerView, bytes: Seq<u8>)
    requires
        f.buffer.len() <= MAX_LINE,
    ensures
        f.pushed(bytes).0.buffer.len() <= MAX_LINE,
        forall|i: int|
            0 <= i < f.pushed(bytes).1.len() ==> (#[trigger] f.pushed(bytes).1[i]).bytes.len()
                <= MAX_LINE,
    decreases bytes.len(),
{
    through_feed_bound(bytes);
    if bytes.len() > 0 {
        let n = through_feed(bytes);
        let (next, lines) = f.step(bytes.take(n));
        lines_are_bounded(next, bytes.skip(n));
    }
}

/// The bytes of lines, one after the other.
pub open spec fn joined(lines: Seq<LineView>) -> Seq<u8>
    decreases lines.len(),
{
    if lines.len() == 0 {
        seq![]
    } else {
        lines[0].bytes + joined(lines.drop_first())
    }
}

/// Where nothing was cut short, nothing is lost: the lines that came out and the bytes that are
/// still held are together the bytes that were held before and those that came in.
pub proof fn nothing_is_lost(f: FramerView, bytes: Seq<u8>)
    requires
        f.buffer.len() <= MAX_LINE,
        !f.pushed(bytes).0.truncated,
        forall|i: int|
            0 <= i < f.pushed(bytes).1.len() ==> !(#[trigger] f.pushed(bytes).1[i]).truncated,
        !f.truncated,
    ensures
        joined(f.pushed(bytes).1) + f.pushed(bytes).0.buffer == f.buffer + bytes,
    decreases bytes.len(),
{
    through_feed_bound(bytes);
    if bytes.len() == 0 {
        assert(joined(f.pushed(bytes).1) + f.pushed(bytes).0.buffer =~= f.buffer + bytes);
    } else {
        let n = through_feed(bytes);
        let chunk = bytes.take(n);
        let after = f.scanned(chunk);
        let (next, lines) = f.step(chunk);
        let (end, more) = next.pushed(bytes.skip(n));
        let all = f.pushed(bytes).1;
        assert(all == lines + more);
        assert forall|i: int| 0 <= i < more.len() implies !(#[trigger] more[i]).truncated by {
            assert(all[lines.len() + i] == more[i]);
        }
        if lines.len() > 0 {
            assert(all[0] == lines[0]);
            assert(!after.truncated);
            nothing_is_lost(next, bytes.skip(n));
            assert(all.drop_first() =~= more);
        } else {
            assert(all =~= more);
            if next.truncated {
                truncation_is_kept(next, bytes.skip(n));
            }
            nothing_is_lost(next, bytes.skip(n));
        }
        assert(after.buffer =~= f.buffer + chunk);
        assert(bytes =~= chunk + bytes.skip(n));
        assert(joined(all) + end.buffer =~= f.buffer + bytes);
    }
}

proof fn truncation_is_kept(f: FramerView, bytes: Seq<u8>)
    requires
        f.truncated,
    ensures
        f.pushed(bytes).0.truncated || (f.pushed(bytes).1.len() > 0 && f.pushed(
            bytes,
        ).1[0].truncated),
    decreases bytes.len(),
{
    through_feed_bound(bytes);
    if bytes.len() > 0 {
        let n = through_feed(bytes);
        let (next, lines) = f.step(bytes.take(n));
        if lines.len() == 0 {
            truncation_is_kept(next, bytes.skip(n));
            assert(lines + next.pushed(bytes.skip(n)).1 =~= next.pushed(bytes.skip(n)).1);
        } else {
            assert(f.pushed(bytes).1[0] == lines[0]);
        }
    }
}

/// A text without the carriage returns and line feeds at its end.
pub open spec fn without_feed(t: Seq<char>) -> Seq<char>
    decreases t.len(),
{
    if t.len() > 0 && (t.last() == '\r' || t.last() == '\n') {
        without_feed(t.drop_last())
    } else {
        t
    }
}

fn drop_feed(t: &str) -> (r: String)
    ensures
        r@ == without_feed(t@),
{
    let v = text::chars(t);
    let mut end: usize = v.len();
    assert(v@.take(end as int) =~= v@);
    while end > 0 && (v[end - 1] == '\r' || v[end - 1] == '\n')
        invariant
            end <= v@.len(),
            without_feed(v@.take(end as int)) == without_feed(v@),
        decreases end,
    {
        assert(v@.take(end as int).drop_last() =~= v@.take(end - 1));
        end -= 1;
    }
    let r = text::slice(&v, 0, end);
    assert(r@ =~= v@.take(end as int));
    r
}

/// Joins lines to events. Its state outlasts a reconnect of the stream that the lines come from.
pub struct Parser {
    source: Source,
    pending: Option<Event>,
    line: u64,
    patterns: Patterns,
}

#[verifier::ext_equal]
pub struct ParserView {
    pub source: Seq<(Seq<char>, JsonView)>,
    pub pending: Option<EventView>,
    pub line: u64,
}

/// What stands for the text of a line of a private key.
pub open spec fn private_text() -> Seq<char> {
    "[REDACTED PRIVATE KEY]"@
}

/// A line as far as the parser reads it: its timestamp, its body behind that, and the text that is
/// kept of the body.
pub open spec fn plain_text(line: LineView) -> Seq<char> {
    stripped(without_feed(text::lossy(line.bytes)))
}

pub open spec fn stamp_of(line: LineView) -> Option<Seq<char>> {
    match pattern::found(pattern::STAMP@, plain_text(line)) {
        Some((m, rest)) => Some(text::trimmed(m)),
        None => None,
    }
}

pub open spec fn body_of(line: LineView) -> Seq<char> {
    match pattern::found(pattern::STAMP@, plain_text(line)) {
        Some((m, rest)) => rest,
        None => plain_text(line),
    }
}

pub open spec fn safe_text(line: LineView) -> Seq<char> {
    if line.private {
        private_text()
    } else {
        redacted(body_of(line))
    }
}

/// What the identity of an event is made of.
pub open spec fn event_key(e: EventView) -> JsonView {
    JsonView::List(
        seq![].push(JsonView::Object(e.source)).push(json::integer(e.line_start as int)).push(
            json::optional_text(e.timestamp),
        ).push(JsonView::Text(e.text)),
    )
}

/// Unless the digits clash, events have the same identity if and only if their sources are alike
/// and they begin on the same line, at the same time, with the same text.
pub proof fn identities_are_exact(a: EventView, b: EventView)
    requires
        exact::written(JsonView::Object(a.source)),
        exact::written(JsonView::Object(b.source)),
    ensures
        no_clash(event_key(a), event_key(b)) ==> (identity(event_key(a)) == identity(event_key(b))
            <==> exact::alike(JsonView::Object(a.source), JsonView::Object(b.source)) && a.line_start
            == b.line_start && a.timestamp == b.timestamp && a.text == b.text),
{
    let x = event_key(a)->List_0;
    let y = event_key(b)->List_0;
    exact::integers_are_exact(a.line_start as int, b.line_start as int);
    exact::integers_are_exact(b.line_start as int, a.line_start as int);
    assert(exact::written(x[0]) && exact::written(x[1]) && exact::written(x[2])
        && exact::written(x[3]));
    assert(exact::written(y[0]) && exact::written(y[1]) && exact::written(y[2])
        && exact::written(y[3]));
    exact::texts_are_exact(event_key(a), event_key(b));
    exact::alike_in_fours(x, y);
}

/// An event with its identity, its group and what the local rules say of it.
pub open spec fn completed(e: EventView) -> EventView {
    let named = EventView { id: identity(event_key(e)), ..e };
    EventView {
        group_id: identity(grouping::group_key(named)),
        baseline: baseline_of(e.text),
        ..named
    }
}

/// An event that a line begins.
pub open spec fn opened(p: ParserView, line: LineView) -> EventView {
    EventView {
        id: seq![],
        source: p.source,
        timestamp: stamp_of(line),
        text: text::fitting(safe_text(line), MAX_EVENT as nat),
        line_start: (p.line + 1) as u64,
        line_end: (p.line + 1) as u64,
        line_count: 1,
        truncated: line.truncated || text::utf8_len(safe_text(line)) > MAX_EVENT,
        group_id: seq![],
        judgment: jev::no_judgment(),
        baseline: BaselineView { important: false, signals: seq![] },
        analysis_reused: false,
        analysis_representative_id: None,
    }
}

/// An event that a line goes on with.
pub open spec fn extended(e: EventView, p: ParserView, line: LineView) -> EventView {
    let whole = e.text.push('\n') + safe_text(line);
    EventView {
        text: text::fitting(whole, MAX_EVENT as nat),
        line_end: (p.line + 1) as u64,
        line_count: (e.line_count + 1) as u64,
        truncated: e.truncated || line.truncated || text::utf8_len(whole) > MAX_EVENT,
        ..e
    }
}

impl ParserView {
    /// Whether a line adds nothing.
    pub open spec fn ignores(self, line: LineView) -> bool {
        body_of(line).len() == 0 && !line.private
    }

    /// Whether a line goes on with the event that is pending.
    pub open spec fn continues(self, line: LineView) -> bool {
        self.pending is Some && pattern::matched(pattern::CONTINUATION@, body_of(line))
    }

    /// Takes in a line: the next state, and the event that the line completes.
    pub open spec fn fed(self, line: LineView) -> (ParserView, Option<EventView>) {
        let counted = ParserView { line: (self.line + 1) as u64, ..self };
        if self.ignores(line) {
            (counted, None)
        } else if self.continues(line) {
            (
                ParserView {
                    pending: Some(extended(self.pending->Some_0, self, line)),
                    ..counted
                },
                None,
            )
        } else {
            (ParserView { pending: Some(opened(self, line)), ..counted }, self.flushed())
        }
    }

    /// The event that is pending, completed.
    pub open spec fn flushed(self) -> Option<EventView> {
        match self.pending {
            Some(e) => Some(completed(e)),
            None => None,
        }
    }

    /// The pending event lies within the lines that were read, and within its bound.
    pub open spec fn within(self) -> bool {
        match self.pending {
            Some(e) => {
                &&& 1 <= e.line_start <= e.line_end <= self.line
                &&& 1 <= e.line_count <= e.line_end - e.line_start + 1
                &&& text::utf8_len(e.text) <= MAX_EVENT
            },
            None => true,
        }
    }
}

impl Parser {
    pub closed spec fn view(&self) -> ParserView {
        ParserView {
            source: self.source@,
            pending: match self.pending {
                Some(e) => Some(e@),
                None => None,
            },
            line: self.line,
        }
    }

    pub closed spec fn wf(&self) -> bool {
        self.patterns.wf() && self@.within()
    }

    pub fn new(source: Source) -> (r: Self)
        ensures
            r.wf(),
            r@ == (ParserView { source: source@, pending: None, line: 0 }),
    {
        Parser { source, pending: None, line: 0, patterns: Patterns::new() }
    }

    fn read(&self, line: &Line) -> (r: (Option<String>, String))
        requires
            self.wf(),
        ensures
            text::optional_view(r.0) == stamp_of(line@),
            r.1@ == body_of(line@),
    {
        let raw = text::lossy_text(line.bytes.as_slice());
        let bare = drop_feed(raw.as_str());
        let plain = pattern::replace_all(&self.patterns.ansi, bare.as_str(), "");
        match pattern::find(&self.patterns.stamp, plain.as_str()) {
            Some((stamp, rest)) => (Some(text::trim(stamp.as_str())), rest),
            None => (None, plain),
        }
    }

    /// Takes in a line, and gives back the event that it completes.
    pub fn feed(&mut self, line: Line) -> (r: Option<Event>)
        requires
            old(self).wf(),
            old(self)@.line < u64::MAX,
        ensures
            final(self).wf(),
            final(self)@ == old(self)@.fed(line@).0,
            match r {
                Some(e) => old(self)@.fed(line@).1 == Some(e@) && text::utf8_len(e@.text)
                    <= MAX_EVENT,
                None => old(self)@.fed(line@).1 is None,
            },
    {
        let ghost before = self@;
        let (timestamp, body) = self.read(&line);
        self.line = self.line + 1;
        if body.as_str().is_empty() && !line.private {
            assert(body@.len() == 0);
            assert(self@ =~= before.fed(line@).0);
            return None;
        }
        let safe = if line.private {
            "[REDACTED PRIVATE KEY]".to_owned()
        } else {
            self.patterns.redact(body.as_str())
        };
        proof {
            text::fitting_bound(safe@, MAX_EVENT as nat);
        }
        if pattern::is_match(&self.patterns.continuation, body.as_str()) && self.pending.is_some() {
            let mut e = self.pending.take().unwrap();
            let ghost was = e@;
            e.line_end = self.line;
            e.line_count = e.line_count + 1;
            e.text.push('\n');
            e.text.append(safe.as_str());
            if line.truncated || text::byte_len(e.text.as_str()) > MAX_EVENT {
                e.truncated = true;
            }
            e.text = text::truncated(e.text.as_str(), MAX_EVENT);
            assert(e@ =~= extended(was, before, line@));
            self.pending = Some(e);
            assert(self@ =~= before.fed(line@).0);
            return None;
        }
        let done = self.flush();
        let truncated = line.truncated || text::byte_len(safe.as_str()) > MAX_EVENT;
        let kept = text::truncated(safe.as_str(), MAX_EVENT);
        let e = Event {
            id: String::new(),
            source: self.source.clone(),
            timestamp,
            text: kept,
            line_start: self.line,
            line_end: self.line,
            line_count: 1,
            truncated,
            group_id: String::new(),
            judgment: Judgment::default(),
            baseline: Baseline::default(),
            analysis_reused: false,
            analysis_representative_id: None,
        };
        assert(e@ =~= opened(before, line@));
        self.pending = Some(e);
        assert(self@ =~= before.fed(line@).0);
        done
    }

    /// Gives back the event that is pending.
    pub fn flush(&mut self) -> (r: Option<Event>)
        requires
            old(self).wf(),
        ensures
            final(self).wf(),
            final(self)@ == (ParserView { pending: None, ..old(self)@ }),
            match r {
                Some(e) => old(self)@.flushed() == Some(e@) && text::utf8_len(e@.text)
                    <= MAX_EVENT,
                None => old(self)@.flushed() is None,
            },
    {
        match self.pending.take() {
            Some(mut e) => {
                let ghost was = e@;
                let key = Items::new().with(e.source.json()).with(
                    json::unsigned(e.line_start),
                ).with(json::optional(&e.timestamp)).with(json::string(e.text.as_str())).list();
                e.id = hash(&key);
                e.group_id = grouping::group_id(&e);
                e.baseline = self.patterns.baseline(e.text.as_str());
                assert(e@ =~= completed(was));
                Some(e)
            },
            None => None,
        }
    }

    pub fn has_pending(&self) -> (r: bool)
        ensures
            r == (self@.pending is Some),
    {
        self.pending.is_some()
    }
}

/// Nothing of a line of a private key is kept: whatever the line holds, it does the same to the
/// parser's texts.
pub proof fn private_lines_leave_no_text(p: ParserView, line: LineView)
    requires
        line.private,
    ensures
        safe_text(line) == private_text(),
        p.fed(line).0.pending matches Some(e) && e.text == text::fitting(
            if p.continues(line) {
                p.pending->Some_0.text.push('\n') + private_text()
            } else {
                private_text()
            },
            MAX_EVENT as nat,
        ),
{
}

/// An event's identity is made of its source, its place, its time and its text, without
/// credentials, and of nothing else.
pub proof fn identities_are_deterministic(a: EventView, b: EventView)
    requires
        a.source == b.source,
        a.line_start == b.line_start,
        a.timestamp == b.timestamp,
        a.text == b.text,
    ensures
        completed(a).id == completed(b).id,
{
}

impl ParserView {
    /// Takes in lines, one after the other: the next state, and the events that they complete.
    pub open spec fn fed_all(self, lines: Seq<LineView>) -> (ParserView, Seq<EventView>)
        decreases lines.len(),
    {
        if lines.len() == 0 {
            (self, seq![])
        } else {
            let (before, done) = self.fed_all(lines.drop_last());
            let (after, event) = before.fed(lines.last());
            (
                after,
                match event {
                    Some(e) => done.push(e),
                    None => done,
                },
            )
        }
    }
}

proof fn fed_all_counts(p: ParserView, lines: Seq<LineView>)
    requires
        p.line + lines.len() <= u64::MAX,
    ensures
        p.fed_all(lines).0.line == p.line + lines.len(),
        p.fed_all(lines).1.len() <= lines.len(),
        p.fed_all(lines).0.source == p.source,
    decreases lines.len(),
{
    if lines.len() > 0 {
        fed_all_counts(p, lines.drop_last());
    }
}

/// A framer completes at most as many lines as it takes in bytes.
pub proof fn lines_take_bytes(f: FramerView, bytes: Seq<u8>)
    ensures
        f.pushed(bytes).1.len() <= bytes.len(),
    decreases bytes.len(),
{
    through_feed_bound(bytes);
    if bytes.len() > 0 {
        let n = through_feed(bytes);
        lines_take_bytes(f.step(bytes.take(n)).0, bytes.skip(n));
    }
}

impl Parser {
    /// Takes in lines, and gives back the events that they complete.
    pub fn feed_all(&mut self, lines: Vec<Line>) -> (r: Vec<Event>)
        requires
            old(self).wf(),
            old(self)@.line + lines@.len() <= u64::MAX,
        ensures
            final(self).wf(),
            (final(self)@, events_view(r@)) == old(self)@.fed_all(lines_view(lines@)),
            final(self)@.line == old(self)@.line + lines@.len(),
    {
        let ghost start = self@;
        let ghost all = lines_view(lines@);
        let mut todo: Vec<Line> = Vec::new();
        let mut given = lines;
        while given.len() > 0
            invariant
                given@.len() + todo@.len() == all.len(),
                forall|i: int| 0 <= i < given@.len() ==> (#[trigger] given@[i])@ == all[i],
                forall|i: int|
                    0 <= i < todo@.len() ==> (#[trigger] todo@[i])@ == all[all.len() - 1 - i],
            decreases given@.len(),
        {
            todo.push(given.pop().unwrap());
        }
        let mut r: Vec<Event> = Vec::new();
        assert(all.take(0) =~= seq![]);
        assert(events_view(r@) =~= seq![]);
        while todo.len() > 0
            invariant
                self.wf(),
                start.line + all.len() <= u64::MAX,
                todo@.len() <= all.len(),
                forall|i: int|
                    0 <= i < todo@.len() ==> (#[trigger] todo@[i])@ == all[all.len() - 1 - i],
                (self@, events_view(r@)) == start.fed_all(all.take(all.len() - todo@.len())),
            decreases todo@.len(),
        {
            let ghost done = all.len() - todo@.len();
            let ghost before = events_view(r@);
            proof {
                fed_all_counts(start, all.take(done));
            }
            let line = todo.pop().unwrap();
            assert(line@ == all[done]);
            assert(all.take(done + 1).drop_last() =~= all.take(done));
            match self.feed(line) {
                Some(e) => {
                    r.push(e);
                    assert(events_view(r@) =~= before.push(e@));
                },
                None => {},
            }
        }
        assert(all.take(all.len() as int) =~= all);
        proof {
            fed_all_counts(start, all);
        }
        r
    }
}

}
