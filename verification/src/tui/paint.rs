//! What the browser shows: every frame is a list of texts with their places.
use vstd::prelude::*;

use crate::events;
use crate::json;
use crate::json::JsonView;
use crate::progress::{Progress, ProgressView};
use crate::report;
use crate::report::{Metrics, MetricsView};
use crate::search;
use crate::search::Mode;
use crate::text;
use crate::tui::list;
use crate::tui::list::{Row, RowView};
use crate::tui::{
    last_place, parts_in, Browser, BrowserView, Color, Editor, EditorView, Rect, Search, SearchView,
    SEARCH,
};

verus! {

/// What `UnicodeWidthChar::width` says of a character.
pub uninterp spec fn cells(c: char) -> Option<nat>;

/// Calls `unicode_width::UnicodeWidthChar::width`: how many cells of a terminal a character takes;
/// nothing for a control character. The number is read from a byte, so it is below 256.
#[verifier::external_body]
fn cells_of(c: char) -> (r: Option<usize>)
    ensures
        match r {
            Some(n) => cells(c) == Some(n as nat) && n < 256,
            None => cells(c) is None,
        },
{
    unicode_width::UnicodeWidthChar::width(c)
}

/// How many cells a character takes.
pub open spec fn cell_width(c: char) -> nat {
    match cells(c) {
        Some(n) => n,
        None => 0,
    }
}

/// How many cells a text takes.
pub open spec fn text_width(s: Seq<char>) -> nat
    decreases s.len(),
{
    if s.len() == 0 {
        0
    } else {
        text_width(s.drop_last()) + cell_width(s.last())
    }
}

/// A text that is being wrapped.
pub struct Wrap {
    pub lines: Seq<Seq<char>>,
    pub line: Seq<char>,
    pub used: nat,
}

impl Wrap {
    /// The text with a character more: on a line of its own where the last one has no room for it.
    pub open spec fn with(self, c: char, width: nat) -> Wrap {
        let full = self.line.len() > 0 && self.used + cell_width(c) > width;
        if full {
            Wrap { lines: self.lines.push(self.line), line: seq![c], used: cell_width(c) }
        } else {
            Wrap {
                lines: self.lines,
                line: self.line.push(c),
                used: self.used + cell_width(c),
            }
        }
    }

    /// A text wrapped to a width.
    pub open spec fn of(s: Seq<char>, width: nat) -> Wrap
        decreases s.len(),
    {
        if s.len() == 0 {
            Wrap { lines: seq![], line: seq![], used: 0 }
        } else {
            Wrap::of(s.drop_last(), width).with(s.last(), width)
        }
    }

    pub open spec fn all(self) -> Seq<Seq<char>> {
        self.lines.push(self.line)
    }
}

/// A width with room for something.
pub open spec fn room(width: nat) -> nat {
    if width == 0 {
        1
    } else {
        width
    }
}

/// The lines of a text that is made printable and wrapped to so many cells.
pub open spec fn wrapped(s: Seq<char>, width: nat) -> Seq<Seq<char>> {
    Wrap::of(events::printable(s), room(width)).all()
}

/// Texts one behind the other.
pub open spec fn flat(parts: Seq<Seq<char>>) -> Seq<char>
    decreases parts.len(),
{
    if parts.len() == 0 {
        seq![]
    } else {
        flat(parts.drop_last()) + parts.last()
    }
}

proof fn wrap_facts(s: Seq<char>, width: nat)
    ensures
        flat(Wrap::of(s, width).all()) == s,
        Wrap::of(s, width).used == text_width(Wrap::of(s, width).line),
        forall|i: int|
            0 <= i < Wrap::of(s, width).all().len() ==> fits(
                #[trigger] Wrap::of(s, width).all()[i],
                width,
            ),
    decreases s.len(),
{
    let w = Wrap::of(s, width);
    if s.len() == 0 {
        assert(w.all().drop_last() =~= seq![]);
        assert(flat(w.all().drop_last()) =~= seq![]);
        assert(flat(w.all()) =~= s);
    } else {
        let before = Wrap::of(s.drop_last(), width);
        wrap_facts(s.drop_last(), width);
        let c = s.last();
        assert(before.all().drop_last() =~= before.lines);
        assert(w.all().drop_last() =~= w.lines);
        if before.line.len() > 0 && before.used + cell_width(c) > width {
            assert(w.lines =~= before.all());
            assert(w.line.drop_last() =~= seq![]);
            assert(text_width(w.line.drop_last()) == 0);
            assert(flat(w.all()) == flat(w.lines) + w.line);
            assert(flat(w.all()) =~= s);
            assert forall|i: int| 0 <= i < w.all().len() implies fits(
                #[trigger] w.all()[i],
                width,
            ) by {
                if i < before.all().len() {
                    assert(w.all()[i] == before.all()[i]);
                }
            }
        } else {
            assert(w.line.drop_last() =~= before.line);
            assert(flat(w.all()) == flat(before.lines) + w.line);
            assert(flat(before.all()) == flat(before.lines) + before.line);
            assert(s =~= s.drop_last().push(c));
            assert(flat(w.all()) =~= s);
            if before.line.len() == 0 {
                assert(before.line =~= seq![]);
            }
            assert forall|i: int| 0 <= i < w.all().len() implies fits(
                #[trigger] w.all()[i],
                width,
            ) by {
                if i < before.lines.len() {
                    assert(w.all()[i] == before.all()[i]);
                }
            }
        }
    }
}

/// Whether a line has room in so many cells, or cannot be parted.
pub open spec fn fits(line: Seq<char>, width: nat) -> bool {
    text_width(line) <= width || line.len() <= 1
}

/// Wrapping loses no character that can be shown, and no line is wider than it may be, unless a
/// single character is.
pub proof fn wrapping_loses_nothing(s: Seq<char>, width: nat)
    ensures
        flat(wrapped(s, width)) == events::printable(s),
        forall|i: int|
            0 <= i < wrapped(s, width).len() ==> fits(#[trigger] wrapped(s, width)[i], room(width)),
        wrapped(s, width).len() >= 1,
{
    wrap_facts(events::printable(s), room(width));
}

/// Wraps a text to so many cells.
pub fn wrap_cells(text: &str, width: usize) -> (out: Vec<String>)
    ensures
        text::list_view(out@) == wrapped(text@, width as nat),
        out@.len() >= 1,
{
    let shown = events::console(text);
    let v = text::chars(shown.as_str());
    let limit: usize = if width == 0 {
        1
    } else {
        width
    };
    let mut lines: Vec<String> = Vec::new();
    let mut line = String::new();
    let mut empty = true;
    let mut used: usize = 0;
    let mut i: usize = 0;
    assert(v@.take(0) =~= seq![]);
    assert(text::list_view(lines@) =~= seq![]);
    assert(line@ =~= seq![]);
    while i < v.len()
        invariant
            v@ == events::printable(text@),
            limit == room(width as nat),
            i <= v@.len(),
            text::list_view(lines@) == Wrap::of(v@.take(i as int), limit as nat).lines,
            line@ == Wrap::of(v@.take(i as int), limit as nat).line,
            used == Wrap::of(v@.take(i as int), limit as nat).used,
            empty == (line@.len() == 0),
            empty ==> used == 0,
        decreases v@.len() - i,
    {
        let c = v[i];
        assert(v@.take(i + 1).drop_last() =~= v@.take(i as int));
        assert(v@.take(i + 1).last() == c);
        let n = match cells_of(c) {
            Some(n) => n,
            None => 0,
        };
        assert(n == cell_width(c));
        if !empty && (used > limit || n > limit - used) {
            let ghost before = text::list_view(lines@);
            let ghost done = line@;
            lines.push(line);
            assert(text::list_view(lines@) =~= before.push(done));
            line = String::new();
            line.push(c);
            assert(line@ =~= seq![c]);
            used = n;
        } else {
            line.push(c);
            used += n;
        }
        empty = false;
        i += 1;
    }
    assert(v@.take(i as int) =~= v@);
    let ghost before = text::list_view(lines@);
    let ghost done = line@;
    lines.push(line);
    assert(text::list_view(lines@) =~= before.push(done));
    lines
}

/// How a text looks.
#[derive(Clone, Copy, Debug, PartialEq, Eq, Structural)]
pub struct Style {
    pub foreground: Option<Color>,
    pub background: Option<Color>,
    pub bold: bool,
}

pub open spec fn plain() -> Style {
    Style { foreground: None, background: None, bold: false }
}

/// A text in a colour.
pub open spec fn tinted(c: Color) -> Style {
    Style { foreground: Some(c), background: None, bold: false }
}

fn no_style() -> (r: Style)
    ensures
        r == plain(),
{
    Style { foreground: None, background: None, bold: false }
}

fn in_color(c: Color) -> (r: Style)
    ensures
        r == tinted(c),
{
    Style { foreground: Some(c), background: None, bold: false }
}

/// A text in its place on the screen.
pub struct Put {
    pub y: u16,
    pub x: u16,
    pub width: u16,
    pub text: String,
    pub style: Style,
}

#[verifier::ext_equal]
pub struct PutView {
    pub y: u16,
    pub x: u16,
    pub width: u16,
    pub text: Seq<char>,
    pub style: Style,
}

impl Put {
    pub open spec fn view(&self) -> PutView {
        PutView { y: self.y, x: self.x, width: self.width, text: self.text@, style: self.style }
    }
}

/// A frame: the size of the screen, and what is put on it.
pub struct Canvas {
    pub width: u16,
    pub height: u16,
    pub puts: Vec<Put>,
}

#[verifier::ext_equal]
pub struct CanvasView {
    pub width: u16,
    pub height: u16,
    pub puts: Seq<PutView>,
}

pub open spec fn puts_view(v: Seq<Put>) -> Seq<PutView> {
    Seq::new(v.len(), |i: int| v[i]@)
}

impl CanvasView {
    /// The frame with a text put on it, as far as there is room. What cannot be shown is taken out.
    pub open spec fn put(self, y: int, x: int, width: int, t: Seq<char>, style: Style) -> CanvasView {
        if y < self.height && x < self.width {
            CanvasView {
                puts: self.puts.push(
                    PutView {
                        y: y as u16,
                        x: x as u16,
                        width: if width <= self.width - x {
                            width as u16
                        } else {
                            (self.width - x) as u16
                        },
                        text: events::printable(t),
                        style,
                    },
                ),
                ..self
            }
        } else {
            self
        }
    }

    /// The frame with a text put on a line of it.
    pub open spec fn line(self, y: int, t: Seq<char>, style: Style) -> CanvasView {
        self.put(y, 0, self.width as int, t, style)
    }

    /// The frame with the first lines of a text put on it.
    pub open spec fn lines(self, y: int, lines: Seq<Seq<char>>, style: Style, n: nat) -> CanvasView
        decreases n,
    {
        if n == 0 {
            self
        } else {
            self.lines(y, lines, style, (n - 1) as nat).line(y + n - 1, lines[n - 1], style)
        }
    }

    /// Whether everything lies on the screen, and nothing that is shown can control it.
    pub open spec fn sound(self) -> bool {
        forall|i: int|
            0 <= i < self.puts.len() ==> {
                let p = #[trigger] self.puts[i];
                p.y < self.height && p.x < self.width && p.x + p.width <= self.width
                    && forall|k: int| 0 <= k < p.text.len() ==> !text::control(#[trigger] p.text[k])
            }
    }
}

proof fn space_is_harmless()
    ensures
        !text::control(' '),
{
}

proof fn put_keeps_sound(c: CanvasView, y: int, x: int, width: int, t: Seq<char>, style: Style)
    requires
        c.sound(),
        0 <= y,
        0 <= x,
        0 <= width,
    ensures
        c.put(y, x, width, t, style).sound(),
        c.put(y, x, width, t, style).width == c.width,
        c.put(y, x, width, t, style).height == c.height,
{
    let n = c.put(y, x, width, t, style);
    assert forall|i: int| 0 <= i < n.puts.len() implies ({
        let p = #[trigger] n.puts[i];
        p.y < n.height && p.x < n.width && p.x + p.width <= n.width && forall|k: int|
            0 <= k < p.text.len() ==> !text::control(#[trigger] p.text[k])
    }) by {
        if i < c.puts.len() {
            assert(n.puts[i] == c.puts[i]);
        } else {
            space_is_harmless();
        }
    }
}

impl Canvas {
    pub open spec fn view(&self) -> CanvasView {
        CanvasView { width: self.width, height: self.height, puts: puts_view(self.puts@) }
    }

    fn put(&mut self, y: u16, x: u16, width: u16, t: &str, style: Style)
        requires
            old(self)@.sound(),
        ensures
            final(self)@ == old(self)@.put(y as int, x as int, width as int, t@, style),
            final(self)@.sound(),
            final(self)@.width == old(self)@.width,
            final(self)@.height == old(self)@.height,
    {
        proof {
            put_keeps_sound(self@, y as int, x as int, width as int, t@, style);
        }
        if y < self.height && x < self.width {
            let room = self.width - x;
            let ghost before = puts_view(self.puts@);
            let p = Put {
                y,
                x,
                width: if width <= room {
                    width
                } else {
                    room
                },
                text: events::console(t),
                style,
            };
            let ghost new = p@;
            self.puts.push(p);
            assert(puts_view(self.puts@) =~= before.push(new));
        }
    }

    fn line(&mut self, y: u16, t: &str, style: Style)
        requires
            old(self)@.sound(),
        ensures
            final(self)@ == old(self)@.line(y as int, t@, style),
            final(self)@.sound(),
            final(self)@.width == old(self)@.width,
            final(self)@.height == old(self)@.height,
    {
        let width = self.width;
        self.put(y, 0, width, t, style);
    }

    fn lines(&mut self, y: u16, lines: &Vec<String>, from: usize, n: usize, style: Style)
        requires
            old(self)@.sound(),
            from + n <= lines@.len(),
            y + n <= 65535,
        ensures
            final(self)@ == old(self)@.lines(
                y as int,
                text::list_view(lines@).skip(from as int),
                style,
                n as nat,
            ),
            final(self)@.sound(),
            final(self)@.width == old(self)@.width,
            final(self)@.height == old(self)@.height,
    {
        let ghost all = text::list_view(lines@).skip(from as int);
        let ghost start = self@;
        let mut i: usize = 0;
        let total = lines.len();
        while i < n
            invariant
                all == text::list_view(lines@).skip(from as int),
                total == lines@.len(),
                from + n <= total,
                y + n <= 65535,
                i <= n,
                self@ == start.lines(y as int, all, style, i as nat),
                self@.sound(),
                self@.width == start.width,
                self@.height == start.height,
            decreases n - i,
        {
            assert(all[i as int] == lines@[from + i]@);
            self.line(y + i as u16, lines[from + i].as_str(), style);
            i += 1;
        }
    }
}

fn show_mode(offline: bool) -> (r: &'static str)
    ensures
        r@ == report::mode_name(offline),
{
    if offline {
        "offline-rules"
    } else {
        "jev"
    }
}

/// A warning where a cost is not known in full.
pub open spec fn metering(complete: bool) -> Seq<char> {
    if complete {
        ""@
    } else {
        " (metering incomplete)"@
    }
}

fn show_metering(complete: bool) -> (r: &'static str)
    ensures
        r@ == metering(complete),
{
    if complete {
        ""
    } else {
        " (metering incomplete)"
    }
}

/// The name of a tab.
pub open spec fn tab_name(i: int) -> Seq<char> {
    if i == 0 {
        "Important"@
    } else if i == 1 {
        "Routine"@
    } else if i == 2 {
        "Needs Review"@
    } else if i == 3 {
        "All"@
    } else {
        "Search"@
    }
}

fn name_tab(i: usize) -> (r: &'static str)
    requires
        i < 5,
    ensures
        r@ == tab_name(i as int),
        r@.len() <= 12,
{
    proof {
        reveal_strlit("Important");
        reveal_strlit("Routine");
        reveal_strlit("Needs Review");
        reveal_strlit("All");
        reveal_strlit("Search");
    }
    if i == 0 {
        "Important"
    } else if i == 1 {
        "Routine"
    } else if i == 2 {
        "Needs Review"
    } else if i == 3 {
        "All"
    } else {
        "Search"
    }
}

/// A time as it is shown.
pub open spec fn stamp(t: Option<Seq<char>>) -> Seq<char> {
    match t {
        Some(t) => t,
        None => "-"@,
    }
}

fn show_stamp(t: &Option<String>) -> (r: String)
    ensures
        r@ == stamp(text::optional_view(*t)),
{
    match t {
        Some(t) => t.clone(),
        None => "-".to_owned(),
    }
}

pub open spec fn yes(b: bool) -> Seq<char> {
    if b {
        "true"@
    } else {
        "false"@
    }
}

fn show_yes(b: bool) -> (r: &'static str)
    ensures
        r@ == yes(b),
{
    if b {
        "true"
    } else {
        "false"
    }
}

/// What the rows of a list are.
pub open spec fn unit(grouped: bool) -> Seq<char> {
    if grouped {
        "groups"@
    } else {
        "instances"@
    }
}

fn show_unit(grouped: bool) -> (r: &'static str)
    ensures
        r@ == unit(grouped),
{
    if grouped {
        "groups"
    } else {
        "instances"
    }
}

/// The first line of the screen.
pub open spec fn title(phase: Seq<char>, offline: bool, kept: usize, waiting: usize) -> Seq<char> {
    "jevernetes | "@ + phase + " | "@ + report::mode_name(offline) + " | "@ + text::decimal(kept as nat) + " retained + "@ + text::decimal(waiting as nat) + " pending"@
}

fn write_title(phase: &str, offline: bool, kept: usize, waiting: usize) -> (out: String)
    ensures
        out@ == title(phase@, offline, kept, waiting),
{
    let mut out = "jevernetes | ".to_owned();
    out.append(phase);
    out.append(" | ");
    out.append(show_mode(offline));
    out.append(" | ");
    let part_0 = text::decimal_text(kept as u64);
    out.append(part_0.as_str());
    out.append(" retained + ");
    let part_1 = text::decimal_text(waiting as u64);
    out.append(part_1.as_str());
    out.append(" pending");
    out
}

/// What is shown of the events that were counted, and of what they cost.
pub open spec fn usage_line(total: u64, evicted: u64, tokens: u64, cost: Seq<char>, complete: bool) -> Seq<char> {
    text::decimal(total as nat) + " total | "@ + text::decimal(evicted as nat) + " evicted | "@ + text::decimal(tokens as nat) + " tokens | ~$"@ + cost + " estimated"@ + metering(complete)
}

fn write_usage(total: u64, evicted: u64, tokens: u64, cost: &str, complete: bool) -> (out: String)
    ensures
        out@ == usage_line(total, evicted, tokens, cost@, complete),
{
    let mut out = text::decimal_text(total);
    out.append(" total | ");
    let part_0 = text::decimal_text(evicted as u64);
    out.append(part_0.as_str());
    out.append(" evicted | ");
    let part_1 = text::decimal_text(tokens as u64);
    out.append(part_1.as_str());
    out.append(" tokens | ~$");
    out.append(cost);
    out.append(" estimated");
    out.append(show_metering(complete));
    out
}

/// What is shown of a tab.
pub open spec fn tab_label(i: usize, count: usize) -> Seq<char> {
    " "@ + text::decimal((i + 1) as nat) + " "@ + tab_name(i as int) + " ("@ + text::decimal(count as nat) + ") "@
}

fn write_tab(i: usize, count: usize) -> (out: String)
    requires
        i < 5,
    ensures
        out@ == tab_label(i, count),
{
    let mut out = " ".to_owned();
    let part_0 = text::decimal_text(i as u64 + 1);
    out.append(part_0.as_str());
    out.append(" ");
    out.append(name_tab(i));
    out.append(" (");
    let part_1 = text::decimal_text(count as u64);
    out.append(part_1.as_str());
    out.append(") ");
    out
}

/// What is shown of how a query is searched for.
pub open spec fn editor_line(mode: Mode, groups: usize, events: usize) -> Seq<char> {
    search::mode_label(mode) + " | "@ + text::decimal(groups as nat) + " new groups max | "@ + text::decimal(events as nat) + " instances"@
}

fn write_editor_line(mode: Mode, groups: usize, events: usize) -> (out: String)
    ensures
        out@ == editor_line(mode, groups, events),
{
    let mut out = mode.label().to_owned();
    out.append(" | ");
    let part_0 = text::decimal_text(groups as u64);
    out.append(part_0.as_str());
    out.append(" new groups max | ");
    let part_1 = text::decimal_text(events as u64);
    out.append(part_1.as_str());
    out.append(" instances");
    out
}

/// What is shown of a query.
pub open spec fn query_line(mode: Mode, query: Seq<char>) -> Seq<char> {
    "Search ["@ + search::mode_label(mode) + "]: "@ + query
}

fn write_query_line(mode: Mode, query: &str) -> (out: String)
    ensures
        out@ == query_line(mode, query@),
{
    let mut out = "Search [".to_owned();
    out.append(mode.label());
    out.append("]: ");
    out.append(query);
    out
}

/// What is shown of how far a search got.
pub open spec fn search_line(status: Seq<char>, checked: usize, groups: usize, events: usize) -> Seq<char> {
    status + " | "@ + text::decimal(checked as nat) + "/"@ + text::decimal(groups as nat) + " groups evaluated | "@ + text::decimal(events as nat) + " frozen instances"@
}

fn write_search_line(status: &str, checked: usize, groups: usize, events: usize) -> (out: String)
    ensures
        out@ == search_line(status@, checked, groups, events),
{
    let mut out = status.to_owned();
    out.append(" | ");
    let part_0 = text::decimal_text(checked as u64);
    out.append(part_0.as_str());
    out.append("/");
    let part_1 = text::decimal_text(groups as u64);
    out.append(part_1.as_str());
    out.append(" groups evaluated | ");
    let part_2 = text::decimal_text(events as u64);
    out.append(part_2.as_str());
    out.append(" frozen instances");
    out
}

/// What is shown of what a search cost.
pub open spec fn expense_line(requests: u64, cached: usize, cost: Seq<char>, complete: bool, message: Seq<char>) -> Seq<char> {
    text::decimal(requests as nat) + " requests | "@ + text::decimal(cached as nat) + " cached | ~$"@ + cost + metering(complete) + " | "@ + message
}

fn write_expense_line(requests: u64, cached: usize, cost: &str, complete: bool, message: &str) -> (out: String)
    ensures
        out@ == expense_line(requests, cached, cost@, complete, message@),
{
    let mut out = text::decimal_text(requests);
    out.append(" requests | ");
    let part_0 = text::decimal_text(cached as u64);
    out.append(part_0.as_str());
    out.append(" cached | ~$");
    out.append(cost);
    out.append(show_metering(complete));
    out.append(" | ");
    out.append(message);
    out
}

/// The line of a row in a list.
pub open spec fn row_line(row: RowView) -> Seq<char> {
    stamp(row.event.timestamp) + " | "@ + list::labelled(row) + " | "@ + list::origin(row.event.source)
}

fn write_row_line(row: &Row) -> (out: String)
    ensures
        out@ == row_line(row@),
{
    let mut out = show_stamp(&row.event.timestamp);
    out.append(" | ");
    let part_0 = list::label(row);
    out.append(part_0.as_str());
    out.append(" | ");
    let part_1 = list::source(&*row.event);
    out.append(part_1.as_str());
    out
}

/// The first line of a detail.
pub open spec fn place_line(row: RowView) -> Seq<char> {
    stamp(row.event.timestamp) + " | "@ + list::origin(row.event.source)
}

fn write_place_line(row: &Row) -> (out: String)
    ensures
        out@ == place_line(row@),
{
    let mut out = show_stamp(&row.event.timestamp);
    out.append(" | ");
    let part_0 = list::source(&*row.event);
    out.append(part_0.as_str());
    out
}

/// The second line of a detail.
pub open spec fn extent_line(row: RowView) -> Seq<char> {
    list::labelled(row) + " | lines "@ + text::decimal(row.event.line_start as nat) + "-"@ + text::decimal(row.event.line_end as nat) + " | truncated: "@ + yes(row.event.truncated)
}

fn write_extent_line(row: &Row) -> (out: String)
    ensures
        out@ == extent_line(row@),
{
    let mut out = list::label(row);
    out.append(" | lines ");
    let part_0 = text::decimal_text(row.event.line_start as u64);
    out.append(part_0.as_str());
    out.append("-");
    let part_1 = text::decimal_text(row.event.line_end as u64);
    out.append(part_1.as_str());
    out.append(" | truncated: ");
    out.append(show_yes(row.event.truncated));
    out
}

/// The third line of a detail.
pub open spec fn source_line(row: RowView) -> Seq<char> {
    "Source: "@ + json::json_text(JsonView::Object(row.event.source))
}

fn write_source_line(row: &Row) -> (out: String)
    ensures
        out@ == source_line(row@),
{
    let mut out = "Source: ".to_owned();
    let part_0 = row.event.source.json().text();
    out.append(part_0.as_str());
    out
}

/// What is shown of a list as a whole.
pub open spec fn list_line(tab: usize, rows: usize, grouped: bool, place: usize) -> Seq<char> {
    tab_name(tab as int) + ": "@ + text::decimal(rows as nat) + " "@ + unit(grouped) + " | row "@ + text::decimal(place as nat)
}

fn write_list_line(tab: usize, rows: usize, grouped: bool, place: usize) -> (out: String)
    requires
        tab < 5,
    ensures
        out@ == list_line(tab, rows, grouped, place),
{
    let mut out = name_tab(tab).to_owned();
    out.append(": ");
    let part_0 = text::decimal_text(rows as u64);
    out.append(part_0.as_str());
    out.append(" ");
    out.append(show_unit(grouped));
    out.append(" | row ");
    let part_1 = text::decimal_text(place as u64);
    out.append(part_1.as_str());
    out
}

/// What is shown of how a run gets on.
pub open spec fn status_shown(m: MetricsView) -> Seq<char> {
    "streams "@ + text::decimal(m.active_streams as nat) + " | queue "@ + text::decimal(m.queue_depth as nat) + " (peak "@ + text::decimal(m.queue_high_water as nat) + ") | dropped "@ + text::decimal(m.dropped as nat) + " | gaps "@ + text::decimal(m.coverage_gaps as nat)
}

pub fn write_status(m: &Metrics) -> (out: String)
    ensures
        out@ == status_shown(m@),
{
    let mut out = "streams ".to_owned();
    let part_0 = text::decimal_text(m.active_streams as u64);
    out.append(part_0.as_str());
    out.append(" | queue ");
    let part_1 = text::decimal_text(m.queue_depth as u64);
    out.append(part_1.as_str());
    out.append(" (peak ");
    let part_2 = text::decimal_text(m.queue_high_water as u64);
    out.append(part_2.as_str());
    out.append(") | dropped ");
    let part_3 = text::decimal_text(m.dropped as u64);
    out.append(part_3.as_str());
    out.append(" | gaps ");
    let part_4 = text::decimal_text(m.coverage_gaps as u64);
    out.append(part_4.as_str());
    out
}

impl BrowserView {
    /// The rows of the open tab.
    pub open spec fn rows_now(self) -> Seq<RowView> {
        if self.tab == SEARCH {
            match self.search {
                Some(s) => {
                    let found = list::found_rows(
                        s.groups,
                        s.state.decisions,
                        s.figures,
                        self.search_instances,
                        s.groups.len(),
                    );
                    if self.search_instances is None {
                        list::ordered(found)
                    } else {
                        found
                    }
                },
                None => seq![],
            }
        } else {
            list::filtered(self.events, self.tab as int)
        }
    }

    /// The place that is selected among rows: that of the event that was selected last, where it is
    /// still there, and otherwise the same place, as far as there are so many.
    pub open spec fn place_in(self, rows: Seq<RowView>) -> usize {
        let tab = self.tab as int;
        let wanted = match self.anchors[tab] {
            Some(id) => if list::row_named(rows, id) < rows.len() {
                list::row_named(rows, id) as int
            } else {
                self.selected[tab] as int
            },
            None => self.selected[tab] as int,
        };
        if wanted < last_place(rows.len()) {
            wanted as usize
        } else {
            last_place(rows.len()) as usize
        }
    }

    /// The browser with the rows of the open tab.
    pub open spec fn rebuilt(self) -> BrowserView {
        let rows = self.rows_now();
        BrowserView {
            rows,
            selected: self.selected.update(self.tab as int, self.place_in(rows)),
            ..self
        }
    }

    /// How many events or groups a tab has.
    pub open spec fn tab_count(self, i: int) -> nat {
        if i < SEARCH {
            list::filtered(self.events, i).len()
        } else {
            match self.search {
                Some(s) => list::hits(s.state.decisions),
                None => 0,
            }
        }
    }
}

/// An event that was selected stays selected while it is there, whatever comes before it.
pub proof fn selection_follows_the_event(b: BrowserView, id: Seq<char>, i: int)
    requires
        b.wf(),
        b.anchors[b.tab as int] == Some(id),
        0 <= i < b.rows_now().len() <= usize::MAX,
        b.rows_now()[i].event.id == id,
    ensures
        b.rebuilt().selected[b.tab as int] < b.rebuilt().rows.len(),
        b.rebuilt().rows[b.rebuilt().selected[b.tab as int] as int].event.id == id,
{
    list::row_named_found(b.rows_now(), id);
}

/// What is selected is there, as soon as there is anything.
pub proof fn selection_stays_in_range(b: BrowserView)
    requires
        b.wf(),
    ensures
        b.rebuilt().rows.len() > 0 ==> b.rebuilt().selected[b.tab as int] < b.rebuilt().rows.len(),
        b.rebuilt().rows.len() == 0 ==> b.rebuilt().selected[b.tab as int] == 0,
{
}

/// The tabs as far as they are drawn.
pub struct Bar {
    pub canvas: CanvasView,
    pub x: int,
    pub y: int,
    pub tabs: Seq<(usize, Rect)>,
}

/// A sum that stays in sixteen bits.
pub open spec fn capped(n: int) -> int {
    if n > 65535 {
        65535
    } else {
        n
    }
}

pub open spec fn tab_style(open: bool) -> Style {
    if open {
        Style { foreground: Some(Color::Black), background: Some(Color::Cyan), bold: true }
    } else {
        tinted(Color::Gray)
    }
}

fn style_tab(open: bool) -> (r: Style)
    ensures
        r == tab_style(open),
{
    if open {
        Style { foreground: Some(Color::Black), background: Some(Color::Cyan), bold: true }
    } else {
        in_color(Color::Gray)
    }
}

impl Bar {
    /// The bar with a tab more, on the next line where this one has no room for it.
    pub open spec fn with(self, i: usize, label: Seq<char>, open: bool) -> Bar {
        let w = self.canvas.width as int;
        let width = if text::utf8_len(label) < w {
            text::utf8_len(label) as int
        } else {
            w
        };
        let down = self.x > 0 && capped(self.x + width) > w;
        let x = if down {
            0
        } else {
            self.x
        };
        let y = if down {
            self.y + 1
        } else {
            self.y
        };
        Bar {
            canvas: self.canvas.put(y, x, width, label, tab_style(open)),
            x: capped(x + width + 1),
            y,
            tabs: self.tabs.push(
                (i, Rect { x: x as u16, y: y as u16, width: width as u16, height: 1 }),
            ),
        }
    }

    /// The bar with the first tabs of a browser.
    pub open spec fn of(canvas: CanvasView, b: BrowserView, n: nat) -> Bar
        decreases n,
    {
        if n == 0 {
            Bar { canvas, x: 0, y: 4, tabs: seq![] }
        } else {
            let i = (n - 1) as usize;
            Bar::of(canvas, b, (n - 1) as nat).with(
                i,
                tab_label(i, b.tab_count(i as int) as usize),
                i == b.tab,
            )
        }
    }
}

proof fn decimal_len(n: nat, k: nat)
    requires
        k >= 1,
        n < pow10(k),
    ensures
        text::decimal(n).len() <= k,
    decreases k,
{
    if n >= 10 {
        assert(k >= 2) by {
            if k == 1 {
                assert(pow10(1) == 10) by {
                    reveal_with_fuel(pow10, 2);
                }
            }
        }
        assert(n / 10 < pow10((k - 1) as nat)) by (nonlinear_arith)
            requires
                n < 10 * pow10((k - 1) as nat),
        ;
        decimal_len(n / 10, (k - 1) as nat);
    }
}

spec fn pow10(k: nat) -> nat
    decreases k,
{
    if k == 0 {
        1
    } else {
        10 * pow10((k - 1) as nat)
    }
}

proof fn u64_len(n: u64)
    ensures
        text::decimal(n as nat).len() <= 20,
{
    assert(pow10(20) == 100_000_000_000_000_000_000) by {
        reveal_with_fuel(pow10, 21);
    }
    decimal_len(n as nat, 20);
}

proof fn utf8_bound(s: Seq<char>)
    ensures
        text::utf8_len(s) <= 4 * s.len(),
    decreases s.len(),
{
    if s.len() == 0 {
        text::utf8_len_zero(s);
    } else {
        utf8_bound(s.drop_last());
        text::utf8_len_step(s);
    }
}

proof fn label_bound(i: usize, count: usize)
    requires
        i < 5,
    ensures
        text::utf8_len(tab_label(i, count)) <= 400,
{
    reveal_strlit(" ");
    reveal_strlit(" (");
    reveal_strlit(") ");
    reveal_strlit("Important");
    reveal_strlit("Routine");
    reveal_strlit("Needs Review");
    reveal_strlit("All");
    reveal_strlit("Search");
    u64_len((i + 1) as u64);
    u64_len(count as u64);
    utf8_bound(tab_label(i, count));
}

impl BrowserView {
    /// The lines that head every frame.
    pub open spec fn headed(
        self,
        c: CanvasView,
        p: ProgressView,
        status: Seq<char>,
        offline: bool,
        cost: Seq<char>,
    ) -> CanvasView {
        let waiting = list::waiting(self.events);
        c.line(
            0,
            title(p.phase, offline, (self.events.len() - waiting) as usize, waiting as usize),
            Style { foreground: Some(Color::Cyan), background: None, bold: true },
        ).line(1, status, plain()).line(
            2,
            usage_line(
                p.total,
                p.evicted,
                (p.usage.input_tokens + p.usage.output_tokens) as u64,
                cost,
                p.usage.cost_complete,
            ),
            tinted(Color::Gray),
        )
    }

    /// The frame while a query is written.
    pub open spec fn writing(self, c: CanvasView, y: int, e: EditorView) -> CanvasView {
        let foot = c.height - 1;
        let lines = wrapped("> "@ + e.text.insert(e.cursor as int, '|'), c.width as nat);
        let at = wrapped("> "@ + e.text.take(e.cursor as int), c.width as nat).len() - 1;
        let from = least(
            if at > 0 {
                at - 1
            } else {
                0
            },
            lines.len() as int,
        );
        let rest = lines.skip(from);
        c.line(y, "Search all retained logs, including Routine and pending."@, plain()).line(
            y + 1,
            editor_line(e.mode, (self.search_budget * 8) as usize, self.events.len() as usize),
            tinted(Color::Cyan),
        ).lines(
            y + 3,
            rest,
            tinted(Color::Yellow),
            if rest.len() < 2 {
                rest.len()
            } else {
                2
            },
        ).line(
            y + 6,
            "Exact text stays local. Jev receives redacted query + logs."@,
            plain(),
        ).line(
            y + 7,
            "Jev search: $0.01 estimated stop; in-flight work may exceed it."@,
            plain(),
        ).line(foot - 1, self.message, tinted(Color::Yellow)).line(
            foot,
            "Enter search | Tab mode | Ctrl+B budget | Ctrl+U clear | Esc back"@,
            tinted(Color::Cyan),
        )
    }

    /// The lines that are shown of a detail, before they are wrapped.
    pub open spec fn detail_lines(row: RowView) -> Seq<Seq<char>> {
        let head = seq![place_line(row), extent_line(row), source_line(row)];
        let judged = match row.event.judgment.analysis_error {
            Some(e) => head.push(e),
            None => head,
        };
        let decided = match row.decision {
            Some(d) => match d.error {
                Some(e) => judged.push(e),
                None => judged,
            },
            None => judged,
        };
        decided.push(""@) + text::text_lines(row.event.text)
    }
}

/// Lines wrapped one by one.
pub open spec fn wrapped_all(lines: Seq<Seq<char>>, width: nat) -> Seq<Seq<char>>
    decreases lines.len(),
{
    if lines.len() == 0 {
        seq![]
    } else {
        wrapped_all(lines.drop_last(), width) + wrapped(lines.last(), width)
    }
}

impl SearchView {
    /// The frame with what is shown of a search.
    pub open spec fn shown(self, c: CanvasView, y: int) -> CanvasView {
        c.line(y, query_line(self.state.mode, self.state.query), tinted(Color::Cyan)).line(
            y + 1,
            search_line(
                self.state.status,
                self.state.checked,
                self.groups.len() as usize,
                self.total_events,
            ),
            plain(),
        ).line(
            y + 2,
            expense_line(
                self.state.usage.request_attempts,
                self.state.cache_hits,
                self.cost,
                self.state.usage.cost_complete,
                self.state.message,
            ),
            tinted(
                if self.state.partial() {
                    Color::Yellow
                } else {
                    Color::Gray
                },
            ),
        )
    }
}

/// A list as far as it is drawn.
pub struct Page {
    pub canvas: CanvasView,
    pub hits: Seq<(usize, Rect)>,
}

impl Page {
    /// The page with a row more: a line about it, and the first line of its text.
    pub open spec fn with(self, row: RowView, i: usize, y: int, selected: bool) -> Page {
        let w = self.canvas.width as int;
        Page {
            canvas: self.canvas.put(y, 0, w, row_line(row), row_style(row, selected)).put(
                y + 1,
                2,
                w - 2,
                text::head_line(row.event.text),
                plain(),
            ),
            hits: self.hits.push(
                (i, Rect { x: 0, y: y as u16, width: self.canvas.width, height: 2 }),
            ),
        }
    }

    /// The page with so many rows, from the first of the page on.
    pub open spec fn of(
        canvas: CanvasView,
        rows: Seq<RowView>,
        selected: usize,
        first: int,
        y: int,
        n: nat,
    ) -> Page
        decreases n,
    {
        if n == 0 {
            Page { canvas, hits: seq![] }
        } else {
            let i = first + n - 1;
            Page::of(canvas, rows, selected, first, y, (n - 1) as nat).with(
                rows[i],
                i as usize,
                y + 2 * (n - 1),
                i == selected,
            )
        }
    }
}

pub open spec fn row_style(row: RowView, selected: bool) -> Style {
    Style {
        foreground: Some(list::tint(row)),
        background: if selected {
            Some(Color::DarkGray)
        } else {
            None
        },
        bold: selected,
    }
}

fn style_row(row: &Row, selected: bool) -> (r: Style)
    ensures
        r == row_style(row@, selected),
{
    Style {
        foreground: Some(list::color(row)),
        background: if selected {
            Some(Color::DarkGray)
        } else {
            None
        },
        bold: selected,
    }
}

/// The smaller of two numbers.
pub open spec fn least(a: int, b: int) -> int {
    if a < b {
        a
    } else {
        b
    }
}

impl BrowserView {
    /// The browser and its frame with the detail that is open.
    pub open spec fn with_detail(self, c: CanvasView, row: RowView, y: int, height: int) -> (
        BrowserView,
        CanvasView,
    ) {
        let lines = wrapped_all(Self::detail_lines(row), c.width as nat);
        let most = if lines.len() > height {
            lines.len() - height
        } else {
            0
        };
        let from = least(self.detail_offset as int, most);
        (
            BrowserView { detail_max: most as usize, detail_offset: from as usize, ..self },
            c.lines(
                y,
                lines.skip(from),
                plain(),
                least(height, lines.len() - from) as nat,
            ),
        )
    }

    /// The browser and its frame with a page of its rows.
    pub open spec fn with_rows(self, c: CanvasView, y: int) -> (BrowserView, CanvasView) {
        let chosen = self.selected[self.tab as int];
        let first = chosen as int / self.page_size as int * self.page_size as int;
        let n = if first < self.rows.len() {
            least(self.page_size as int, self.rows.len() - first)
        } else {
            0
        };
        let page = Page::of(c, self.rows, chosen, first, y, n as nat);
        (
            BrowserView { row_hits: page.hits, ..self },
            if self.rows.len() == 0 {
                page.canvas.line(y, "No matching events in this window."@, tinted(Color::Gray))
            } else {
                page.canvas
            },
        )
    }

    /// The browser and its frame with the part between the tabs and the foot.
    pub open spec fn with_body(self, c: CanvasView, y: int) -> (BrowserView, CanvasView) {
        let foot = c.height - 1;
        if capped(y + 3) >= foot {
            (self, c.line(foot - 1, "Enlarge terminal to show events"@, plain()))
        } else {
            let height = foot - y - 2;
            let sized = BrowserView {
                page_size: if height / 2 > 1 {
                    (height / 2) as usize
                } else {
                    1
                },
                ..self
            };
            let (b, d) = match self.detail {
                Some(row) => sized.with_detail(c, row, y, height),
                None => sized.with_rows(c, y),
            };
            (
                b,
                d.line(
                    foot - 2,
                    list_line(
                        self.tab,
                        self.rows.len() as usize,
                        self.tab == SEARCH && self.search_instances is None,
                        if self.rows.len() == 0 {
                            0
                        } else {
                            (self.selected[self.tab as int] + 1) as usize
                        },
                    ),
                    tinted(Color::Gray),
                ),
            )
        }
    }

    /// What stands above the last line.
    pub open spec fn hint(self, phase: Seq<char>) -> Seq<char> {
        if self.message.len() > 0 {
            self.message
        } else if self.tab == SEARCH {
            "Search covers a frozen window; / asks again on current logs."@
        } else if phase == "Collecting"@ {
            "Collecting logs; Enter opens a frozen event detail."@
        } else {
            "Collection finished; browse events or press q to exit."@
        }
    }

    /// What stands on the last line.
    pub open spec fn keys(self) -> Seq<char> {
        if self.tab == SEARCH {
            "/ ask | f local | i instances | x stop search | Enter detail | Esc back | q quit"@
        } else {
            "1-5 / Tab filters | Up/Down scroll | / ask | f find | Enter detail | q quit"@
        }
    }

    /// The browser and its frame while no query is written.
    pub open spec fn browsing(self, c: CanvasView, y: int, phase: Seq<char>) -> (
        BrowserView,
        CanvasView,
    ) {
        let (d, at) = if self.tab == SEARCH {
            match self.search {
                Some(s) => (s.shown(c, y), y + 4),
                None => (c, y),
            }
        } else {
            (c, y)
        };
        let (b, e) = self.rebuilt().with_body(d, at);
        let foot = c.height - 1;
        (
            b,
            e.line(foot - 1, self.hint(phase), tinted(Color::Gray)).line(
                foot,
                self.keys(),
                tinted(Color::Cyan),
            ),
        )
    }

    /// The browser and its frame on a screen of a size.
    pub open spec fn drawn(
        self,
        width: u16,
        height: u16,
        p: ProgressView,
        status: Seq<char>,
        offline: bool,
        cost: Seq<char>,
    ) -> (BrowserView, CanvasView) {
        let blank = CanvasView { width, height, puts: seq![] };
        let cleared = BrowserView { tabs: seq![], row_hits: seq![], ..self };
        if width < 35 || height < 10 {
            (
                cleared,
                blank.line(0, "Enlarge terminal (35x10 minimum)"@, plain()).line(
                    1,
                    "q: stop and exit"@,
                    plain(),
                ),
            )
        } else {
            let bar = Bar::of(self.headed(blank, p, status, offline, cost), self, 5);
            let tabbed = BrowserView { tabs: bar.tabs, ..cleared };
            match self.editor {
                Some(e) => (tabbed, tabbed.writing(bar.canvas, bar.y + 2, e)),
                None => tabbed.browsing(bar.canvas, bar.y + 2, p.phase),
            }
        }
    }
}

proof fn bar_bounds(c: CanvasView, b: BrowserView, n: nat)
    requires
        n <= 5,
        c.sound(),
    ensures
        Bar::of(c, b, n).canvas.width == c.width,
        Bar::of(c, b, n).canvas.height == c.height,
        0 <= Bar::of(c, b, n).x <= 65535,
        4 <= Bar::of(c, b, n).y <= 4 + n,
        parts_in(Bar::of(c, b, n).tabs, n as int),
        Bar::of(c, b, n).tabs.len() == n,
    decreases n,
{
    if n > 0 {
        bar_bounds(c, b, (n - 1) as nat);
    }
}

fn write_detail(row: &Row) -> (out: Vec<String>)
    ensures
        text::list_view(out@) == BrowserView::detail_lines(row@),
{
    let mut out: Vec<String> = Vec::new();
    out.push(write_place_line(row));
    out.push(write_extent_line(row));
    out.push(write_source_line(row));
    assert(text::list_view(out@) =~= seq![
        place_line(row@),
        extent_line(row@),
        source_line(row@),
    ]);
    let ghost head = text::list_view(out@);
    if let Some(e) = &row.event.judgment.analysis_error {
        out.push(e.clone());
        assert(text::list_view(out@) =~= head.push(e@));
    }
    let ghost judged = text::list_view(out@);
    if let Some(d) = &row.decision {
        if let Some(e) = &d.error {
            out.push(e.clone());
            assert(text::list_view(out@) =~= judged.push(e@));
        }
    }
    let ghost decided = text::list_view(out@);
    out.push("".to_owned());
    assert(text::list_view(out@) =~= decided.push(""@));
    let ghost before = text::list_view(out@);
    let mut lines = text::split_text_lines(row.event.text.as_str());
    let ghost more = text::list_view(lines@);
    out.append(&mut lines);
    assert(text::list_view(out@) =~= before + more);
    out
}

fn wrap_all(lines: &Vec<String>, width: u16) -> (out: Vec<String>)
    ensures
        text::list_view(out@) == wrapped_all(text::list_view(lines@), width as nat),
{
    let ghost all = text::list_view(lines@);
    let mut out: Vec<String> = Vec::new();
    let mut i: usize = 0;
    assert(all.take(0) =~= seq![]);
    assert(text::list_view(out@) =~= wrapped_all(all.take(0), width as nat));
    while i < lines.len()
        invariant
            all == text::list_view(lines@),
            i <= lines@.len(),
            text::list_view(out@) == wrapped_all(all.take(i as int), width as nat),
        decreases lines@.len() - i,
    {
        assert(all[i as int] == lines@[i as int]@);
        assert(all.take(i + 1).drop_last() =~= all.take(i as int));
        let ghost before = text::list_view(out@);
        let mut more = wrap_cells(lines[i].as_str(), width as usize);
        let ghost added = text::list_view(more@);
        out.append(&mut more);
        assert(text::list_view(out@) =~= before + added);
        i += 1;
    }
    assert(all.take(i as int) =~= all);
    out
}

/// The query with a mark at the cursor, behind a prompt.
fn write_query(e: &Editor) -> (out: String)
    requires
        e@.cursor <= e@.text.len(),
    ensures
        out@ == "> "@ + e@.text.insert(e@.cursor as int, '|'),
{
    let before = text::slice(&e.text, 0, e.cursor);
    let after = text::slice(&e.text, e.cursor, e.text.len());
    let mut out = "> ".to_owned();
    out.append(before.as_str());
    out.push('|');
    out.append(after.as_str());
    assert(out@ =~= "> "@ + e@.text.insert(e@.cursor as int, '|'));
    out
}

fn write_start(e: &Editor) -> (out: String)
    requires
        e@.cursor <= e@.text.len(),
    ensures
        out@ == "> "@ + e@.text.take(e@.cursor as int),
{
    let before = text::slice(&e.text, 0, e.cursor);
    assert(before@ =~= e@.text.take(e@.cursor as int));
    let mut out = "> ".to_owned();
    out.append(before.as_str());
    out
}

impl Browser {
    /// Brings the rows of the open tab up to date.
    pub fn rebuild_rows(&mut self)
        requires
            old(self)@.wf(),
            old(self)@.row_hits.len() == 0,
        ensures
            final(self)@ == old(self)@.rebuilt(),
            final(self)@.wf(),
    {
        let rows: Vec<Row> = if self.tab == SEARCH {
            match &self.search {
                Some(s) => {
                    let found = list::results(
                        &*s.window,
                        &s.state.decisions,
                        &s.figures,
                        self.search_instances,
                    );
                    if self.search_instances.is_none() {
                        list::sort(found)
                    } else {
                        found
                    }
                },
                None => Vec::new(),
            }
        } else {
            list::filter(&self.events, self.tab)
        };
        assert(list::rows_view(rows@) =~= old(self)@.rows_now());
        let tab = self.tab;
        let mut place = self.selected[tab];
        if let Some(id) = &self.anchors[tab] {
            assert(old(self)@.anchors[tab as int] == Some(id@));
            let i = list::find(&rows, id.as_str());
            if i < rows.len() {
                place = i;
            }
        }
        let last = if rows.len() == 0 {
            0
        } else {
            rows.len() - 1
        };
        if place >= last {
            place = last;
        }
        self.rows = rows;
        self.selected.set(tab, place);
    }

    fn count_tab(&self, i: usize) -> (n: usize)
        requires
            i < 5,
        ensures
            n == self@.tab_count(i as int),
    {
        if i < SEARCH {
            list::count(&self.events, i)
        } else {
            match &self.search {
                Some(s) => list::count_hits(&s.state.decisions),
                None => 0,
            }
        }
    }

    fn draw_bar(&mut self, canvas: &mut Canvas) -> (y: u16)
        requires
            old(self)@.wf(),
            old(self)@.tabs.len() == 0,
            old(canvas)@.sound(),
        ensures
            ({
                let bar = Bar::of(old(canvas)@, old(self)@, 5);
                final(canvas)@ == bar.canvas && y == bar.y && final(self)@ == (BrowserView {
                    tabs: bar.tabs,
                    ..old(self)@
                })
            }),
            final(canvas)@.sound(),
            final(canvas)@.width == old(canvas)@.width,
            final(canvas)@.height == old(canvas)@.height,
            4 <= y <= 9,
            final(self)@.wf(),
    {
        let ghost start = canvas@;
        let ghost b = self@;
        let mut tabs: Vec<(usize, Rect)> = Vec::new();
        let mut x: u16 = 0;
        let mut y: u16 = 4;
        let mut i: usize = 0;
        let w = canvas.width;
        assert(tabs@ =~= seq![]);
        while i < 5
            invariant
                i <= 5,
                self@ == b,
                b.wf(),
                w == start.width,
                start.sound(),
                canvas@ == Bar::of(start, b, i as nat).canvas,
                canvas@.sound(),
                canvas@.width == start.width,
                canvas@.height == start.height,
                x == Bar::of(start, b, i as nat).x,
                y == Bar::of(start, b, i as nat).y,
                y <= 4 + i,
                tabs@ == Bar::of(start, b, i as nat).tabs,
            decreases 5 - i,
        {
            let count = self.count_tab(i);
            let label = write_tab(i, count);
            proof {
                label_bound(i, count);
            }
            let bytes = text::byte_len(label.as_str());
            let width: u16 = if bytes < w as usize {
                bytes as u16
            } else {
                w
            };
            let end: u32 = x as u32 + width as u32;
            if x > 0 && (if end > 65535 {
                65535
            } else {
                end
            }) > w as u32 {
                y = y + 1;
                x = 0;
            }
            tabs.push((i, Rect { x, y, width, height: 1 }));
            canvas.put(y, x, width, label.as_str(), style_tab(i == self.tab));
            let next: u32 = x as u32 + width as u32 + 1;
            x = if next > 65535 {
                65535
            } else {
                next as u16
            };
            i += 1;
        }
        proof {
            bar_bounds(start, b, 5);
        }
        self.tabs = tabs;
        y
    }

    fn draw_editor(&self, canvas: &mut Canvas, y: u16)
        requires
            self@.wf(),
            self@.editor is Some,
            old(canvas)@.sound(),
            old(canvas)@.height >= 10,
            y <= 20,
        ensures
            final(canvas)@ == self@.writing(old(canvas)@, y as int, self@.editor.unwrap()),
            final(canvas)@.sound(),
    {
        let e = match &self.editor {
            Some(e) => e,
            None => {
                return ;
            },
        };
        let foot = canvas.height - 1;
        let width = canvas.width;
        canvas.line(
            y,
            "Search all retained logs, including Routine and pending.",
            no_style(),
        );
        let how = write_editor_line(e.mode, self.search_budget * 8, self.events.len());
        canvas.line(y + 1, how.as_str(), in_color(Color::Cyan));
        let query = write_query(e);
        let lines = wrap_cells(query.as_str(), width as usize);
        let start = write_start(e);
        let at = wrap_cells(start.as_str(), width as usize).len() - 1;
        let above = if at > 0 {
            at - 1
        } else {
            0
        };
        let from = if above < lines.len() {
            above
        } else {
            lines.len()
        };
        let rest = lines.len() - from;
        let n = if rest < 2 {
            rest
        } else {
            2
        };
        canvas.lines(y + 3, &lines, from, n, in_color(Color::Yellow));
        canvas.line(
            y + 6,
            "Exact text stays local. Jev receives redacted query + logs.",
            no_style(),
        );
        canvas.line(
            y + 7,
            "Jev search: $0.01 estimated stop; in-flight work may exceed it.",
            no_style(),
        );
        canvas.line(foot - 1, self.message.as_str(), in_color(Color::Yellow));
        canvas.line(
            foot,
            "Enter search | Tab mode | Ctrl+B budget | Ctrl+U clear | Esc back",
            in_color(Color::Cyan),
        );
    }

    fn draw_search(&self, canvas: &mut Canvas, y: u16)
        requires
            self@.wf(),
            self@.search is Some,
            old(canvas)@.sound(),
            y <= 20,
        ensures
            final(canvas)@ == self@.search.unwrap().shown(old(canvas)@, y as int),
            final(canvas)@.sound(),
            final(canvas)@.width == old(canvas)@.width,
            final(canvas)@.height == old(canvas)@.height,
    {
        let s = match &self.search {
            Some(s) => s,
            None => {
                return ;
            },
        };
        let query = write_query_line(s.state.mode, s.state.query.as_str());
        canvas.line(y, query.as_str(), in_color(Color::Cyan));
        let progress = write_search_line(
            s.state.status,
            s.state.checked,
            s.window.groups.len(),
            s.window.total_events,
        );
        canvas.line(y + 1, progress.as_str(), no_style());
        let expense = write_expense_line(
            s.state.usage.request_attempts,
            s.state.cache_hits,
            s.cost.as_str(),
            s.state.usage.cost_complete,
            s.state.message.as_str(),
        );
        let color = if s.state.partial() {
            Color::Yellow
        } else {
            Color::Gray
        };
        canvas.line(y + 2, expense.as_str(), in_color(color));
    }

    fn draw_detail(&mut self, canvas: &mut Canvas, y: u16, height: u16)
        requires
            old(self)@.wf(),
            old(self)@.detail is Some,
            old(canvas)@.sound(),
            y + height <= 65535,
        ensures
            (final(self)@, final(canvas)@) == old(self)@.with_detail(
                old(canvas)@,
                old(self)@.detail.unwrap(),
                y as int,
                height as int,
            ),
            final(self)@.wf(),
            final(canvas)@.sound(),
            final(canvas)@.width == old(canvas)@.width,
            final(canvas)@.height == old(canvas)@.height,
    {
        let unwrapped = match &self.detail {
            Some(row) => write_detail(row),
            None => {
                return ;
            },
        };
        let lines = wrap_all(&unwrapped, canvas.width);
        assert(text::list_view(lines@).len() == lines@.len());
        let most = if lines.len() > height as usize {
            lines.len() - height as usize
        } else {
            0
        };
        self.detail_max = most;
        if self.detail_offset >= most {
            self.detail_offset = most;
        }
        let from = self.detail_offset;
        let left = lines.len() - from;
        let n = if (height as usize) < left {
            height as usize
        } else {
            left
        };
        canvas.lines(y, &lines, from, n, no_style());
    }

    fn draw_rows(&mut self, canvas: &mut Canvas, y: u16)
        requires
            old(self)@.wf(),
            old(self)@.row_hits.len() == 0,
            old(canvas)@.sound(),
            old(canvas)@.width >= 35,
            y + 2 * old(self)@.page_size <= 65535,
        ensures
            (final(self)@, final(canvas)@) == old(self)@.with_rows(old(canvas)@, y as int),
            final(self)@.wf(),
            final(canvas)@.sound(),
            final(canvas)@.width == old(canvas)@.width,
            final(canvas)@.height == old(canvas)@.height,
    {
        let ghost start = canvas@;
        let ghost b = self@;
        let chosen = self.selected[self.tab];
        let page = self.page_size;
        proof {
            assert(chosen as int / page as int * page as int <= chosen) by (nonlinear_arith)
                requires
                    page >= 1,
                    chosen >= 0,
            ;
        }
        let first = chosen / page * page;
        let n = if first < self.rows.len() {
            let left = self.rows.len() - first;
            if page < left {
                page
            } else {
                left
            }
        } else {
            0
        };
        let mut hits: Vec<(usize, Rect)> = Vec::new();
        let width = canvas.width;
        let total = self.rows.len();
        let mut k: usize = 0;
        assert(hits@ =~= seq![]);
        while k < n
            invariant
                self@ == b,
                b.wf(),
                start.width >= 35,
                width == start.width,
                total == self.rows@.len(),
                n <= page,
                n > 0 ==> first + n <= total,
                k <= n,
                page == b.page_size,
                chosen == b.selected[b.tab as int],
                y + 2 * page <= 65535,
                canvas@ == Page::of(start, b.rows, chosen, first as int, y as int, k as nat).canvas,
                hits@ == Page::of(start, b.rows, chosen, first as int, y as int, k as nat).hits,
                parts_in(hits@, total as int),
                canvas@.sound(),
                canvas@.width == start.width,
                canvas@.height == start.height,
            decreases n - k,
        {
            let i = first + k;
            let at = y + 2 * (k as u16);
            assert(b.rows[i as int] == self.rows@[i as int]@);
            let line = write_row_line(&self.rows[i]);
            canvas.put(at, 0, width, line.as_str(), style_row(&self.rows[i], i == chosen));
            let head = text::leading_line(self.rows[i].event.text.as_str());
            canvas.put(at + 1, 2, width - 2, head.as_str(), no_style());
            hits.push((i, Rect { x: 0, y: at, width, height: 2 }));
            k += 1;
        }
        if self.rows.len() == 0 {
            canvas.line(y, "No matching events in this window.", in_color(Color::Gray));
        }
        self.row_hits = hits;
    }

    fn draw_body(&mut self, canvas: &mut Canvas, y: u16)
        requires
            old(self)@.wf(),
            old(self)@.row_hits.len() == 0,
            old(self)@.rows.len() > 0 ==> old(self)@.selected[old(self)@.tab as int]
                < old(self)@.rows.len(),
            old(canvas)@.sound(),
            old(canvas)@.width >= 35,
            old(canvas)@.height >= 10,
            y <= 20,
        ensures
            (final(self)@, final(canvas)@) == old(self)@.with_body(old(canvas)@, y as int),
            final(self)@.wf(),
            final(canvas)@.sound(),
            final(canvas)@.width == old(canvas)@.width,
            final(canvas)@.height == old(canvas)@.height,
    {
        let foot = canvas.height - 1;
        if y + 3 >= foot {
            canvas.line(foot - 1, "Enlarge terminal to show events", no_style());
            return ;
        }
        let height = foot - y - 2;
        let half = (height / 2) as usize;
        self.page_size = if half > 1 {
            half
        } else {
            1
        };
        let place = if self.rows.len() == 0 {
            0
        } else {
            self.selected[self.tab] + 1
        };
        let grouped = self.tab == SEARCH && self.search_instances.is_none();
        let summary = write_list_line(self.tab, self.rows.len(), grouped, place);
        if self.detail.is_some() {
            self.draw_detail(canvas, y, height);
        } else {
            self.draw_rows(canvas, y);
        }
        canvas.line(foot - 2, summary.as_str(), in_color(Color::Gray));
    }

    fn write_hint(&self, phase: &str) -> (r: String)
        ensures
            r@ == self@.hint(phase@),
    {
        proof {
            text::utf8_len_zero(self.message@);
        }
        if text::byte_len(self.message.as_str()) > 0 {
            self.message.clone()
        } else if self.tab == SEARCH {
            "Search covers a frozen window; / asks again on current logs.".to_owned()
        } else if text::same(phase, "Collecting") {
            "Collecting logs; Enter opens a frozen event detail.".to_owned()
        } else {
            "Collection finished; browse events or press q to exit.".to_owned()
        }
    }

    fn write_keys(&self) -> (r: &'static str)
        ensures
            r@ == self@.keys(),
    {
        if self.tab == SEARCH {
            "/ ask | f local | i instances | x stop search | Enter detail | Esc back | q quit"
        } else {
            "1-5 / Tab filters | Up/Down scroll | / ask | f find | Enter detail | q quit"
        }
    }

    fn draw_browsing(&mut self, canvas: &mut Canvas, y: u16, phase: &str)
        requires
            old(self)@.wf(),
            old(self)@.row_hits.len() == 0,
            old(canvas)@.sound(),
            old(canvas)@.width >= 35,
            old(canvas)@.height >= 10,
            y <= 15,
        ensures
            (final(self)@, final(canvas)@) == old(self)@.browsing(
                old(canvas)@,
                y as int,
                phase@,
            ),
            final(self)@.wf(),
            final(canvas)@.sound(),
    {
        let foot = canvas.height - 1;
        let hint = self.write_hint(phase);
        let keys = self.write_keys();
        let mut at = y;
        if self.tab == SEARCH && self.search.is_some() {
            self.draw_search(canvas, y);
            at = y + 4;
        }
        self.rebuild_rows();
        proof {
            selection_stays_in_range(old(self)@);
        }
        self.draw_body(canvas, at);
        canvas.line(foot - 1, hint.as_str(), in_color(Color::Gray));
        canvas.line(foot, keys, in_color(Color::Cyan));
    }

    /// Draws a frame. The run comes with the text of what it has cost.
    pub fn draw(
        &mut self,
        width: u16,
        height: u16,
        progress: &Progress,
        status: &str,
        offline: bool,
        cost: &str,
    ) -> (canvas: Canvas)
        requires
            old(self)@.wf(),
            progress@.usage.input_tokens + progress@.usage.output_tokens <= u64::MAX,
        ensures
            (final(self)@, canvas@) == old(self)@.drawn(
                width,
                height,
                progress@,
                status@,
                offline,
                cost@,
            ),
            final(self)@.wf(),
            canvas@.sound(),
    {
        let mut canvas = Canvas { width, height, puts: Vec::new() };
        assert(canvas@.puts =~= seq![]);
        self.tabs = Vec::new();
        self.row_hits = Vec::new();
        assert(self@.tabs =~= seq![]);
        assert(self@.row_hits =~= seq![]);
        if width < 35 || height < 10 {
            canvas.line(0, "Enlarge terminal (35x10 minimum)", no_style());
            canvas.line(1, "q: stop and exit", no_style());
            return canvas;
        }
        let waiting = list::count_waiting(&self.events);
        let head = write_title(progress.phase, offline, self.events.len() - waiting, waiting);
        canvas.line(
            0,
            head.as_str(),
            Style { foreground: Some(Color::Cyan), background: None, bold: true },
        );
        canvas.line(1, status, no_style());
        let used = write_usage(
            progress.total,
            progress.evicted,
            progress.usage.input_tokens + progress.usage.output_tokens,
            cost,
            progress.usage.cost_complete,
        );
        canvas.line(2, used.as_str(), in_color(Color::Gray));
        let ghost cleared = self@;
        assert(canvas@ == old(self)@.headed(
            (CanvasView { width, height, puts: seq![] }),
            progress@,
            status@,
            offline,
            cost@,
        ));
        proof {
            same_bar(canvas@, old(self)@, cleared, 5);
        }
        let y = self.draw_bar(&mut canvas);
        if self.editor.is_some() {
            self.draw_editor(&mut canvas, y + 2);
        } else {
            self.draw_browsing(&mut canvas, y + 2, progress.phase);
        }
        canvas
    }
}

proof fn same_bar(c: CanvasView, a: BrowserView, b: BrowserView, n: nat)
    requires
        b == (BrowserView { tabs: seq![], row_hits: seq![], ..a }),
    ensures
        Bar::of(c, a, n) == Bar::of(c, b, n),
    decreases n,
{
    if n > 0 {
        same_bar(c, a, b, (n - 1) as nat);
    }
}

}
