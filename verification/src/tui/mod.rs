//! The terminal browser: what it holds, what input does to it, and what it shows.
use std::sync::Arc;

use vstd::prelude::*;

use crate::events;
use crate::jev::{Usage, UsageView};
use crate::ieee::Real;
use crate::jev;
use crate::progress::Progress;
use crate::search;
use crate::search::{GroupView, Mode, State, StateView, Window};
use crate::text;
use crate::tui::list::{Row, RowView};

pub mod browsing;
pub mod list;
pub mod paint;

verus! {

/// A colour of the terminal.
#[derive(Clone, Copy, Debug, PartialEq, Eq, Structural)]
pub enum Color {
    Black,
    Cyan,
    DarkGray,
    Gray,
    Green,
    LightRed,
    Yellow,
}

/// A part of the terminal.
#[derive(Clone, Copy, Debug, PartialEq, Eq, Structural)]
pub struct Rect {
    pub x: u16,
    pub y: u16,
    pub width: u16,
    pub height: u16,
}

impl Rect {
    /// Whether a cell lies in the part.
    pub open spec fn has(self, x: u16, y: u16) -> bool {
        self.x <= x < self.x + self.width && self.y <= y < self.y + self.height
    }

    pub fn contains(self, x: u16, y: u16) -> (r: bool)
        ensures
            r == self.has(x, y),
    {
        self.x <= x && (x as u32) < self.x as u32 + self.width as u32 && self.y <= y && (y as u32)
            < self.y as u32 + self.height as u32
    }
}

/// Whether a browser can be shown: on a terminal, while no log is read from standard input.
pub fn validate(stdin_logs: bool, interactive: bool, term: &Option<String>) -> (r: Result<
    (),
    &'static str,
>)
    ensures
        match r {
            Ok(_) => !stdin_logs && interactive && term_usable(text::optional_view(*term)),
            Err(e) => if stdin_logs {
                e@ == "--tui cannot read log input from stdin; use file paths or omit --tui"@
            } else {
                !(interactive && term_usable(text::optional_view(*term))) && e@
                    == "--tui requires an interactive terminal; omit it for plain or piped output"@
            },
        },
{
    if stdin_logs {
        return Err("--tui cannot read log input from stdin; use file paths or omit --tui");
    }
    let usable = match term {
        Some(t) => text::byte_len(t.as_str()) > 0 && !text::same(t.as_str(), "dumb"),
        None => false,
    };
    proof {
        if let Some(t) = term {
            text::utf8_len_zero(t@);
        }
    }
    if !interactive || !usable {
        return Err("--tui requires an interactive terminal; omit it for plain or piped output");
    }
    Ok(())
}

/// Whether a kind of terminal can show a browser.
pub open spec fn term_usable(term: Option<Seq<char>>) -> bool {
    match term {
        Some(t) => t.len() > 0 && t != "dumb"@,
        None => false,
    }
}

/// A key.
#[derive(Clone, Copy, Debug, PartialEq, Eq, Structural)]
pub enum Key {
    Char(char),
    Enter,
    Esc,
    Tab,
    BackTab,
    Backspace,
    Delete,
    Left,
    Right,
    Up,
    Down,
    PageUp,
    PageDown,
    Home,
    End,
    Other,
}

/// What comes from the terminal.
#[derive(Clone, Copy, Debug, PartialEq, Eq, Structural)]
pub enum Input {
    Key { key: Key, control: bool, alt: bool, released: bool },
    ScrollUp,
    ScrollDown,
    Click { x: u16, y: u16 },
    Other,
}

/// What is to be done behind an input.
#[derive(Clone, Copy, Debug, PartialEq, Eq, Structural)]
pub enum Effect {
    Nothing,
    /// The search that was set up is started.
    Search,
    /// The search is stopped.
    Stop,
}

/// A query that is being written.
pub struct Editor {
    pub text: Vec<char>,
    pub cursor: usize,
    pub mode: Mode,
}

#[verifier::ext_equal]
pub struct EditorView {
    pub text: Seq<char>,
    pub cursor: usize,
    pub mode: Mode,
}

impl Editor {
    pub open spec fn view(&self) -> EditorView {
        EditorView { text: self.text@, cursor: self.cursor, mode: self.mode }
    }
}

/// A search of a window of events that does not change any more, as far as it got.
pub struct Search {
    pub window: Arc<Window>,
    pub state: State,
    pub running: bool,
    /// The confidence of each decision, as a whole number of percent.
    pub figures: Vec<String>,
    /// What the search has cost, in dollars.
    pub cost: String,
}

#[verifier::ext_equal]
pub struct SearchView {
    pub groups: Seq<GroupView>,
    pub total_events: usize,
    pub state: StateView,
    pub running: bool,
    pub figures: Seq<Seq<char>>,
    pub cost: Seq<char>,
}

impl SearchView {
    /// Every group has an event and a place for a decision.
    pub open spec fn wf(self) -> bool {
        &&& search::inhabited(self.groups)
        &&& self.state.decisions.len() == self.groups.len()
        &&& self.figures.len() == self.groups.len()
    }
}

impl Search {
    pub open spec fn view(&self) -> SearchView {
        SearchView {
            groups: search::groups_view(self.window.groups@),
            total_events: self.window.total_events,
            state: self.state@,
            running: self.running,
            figures: text::list_view(self.figures@),
            cost: self.cost@,
        }
    }
}

/// The number of the tab with the results of a search.
pub const SEARCH: usize = 4;

/// The most characters of a query.
pub const QUERY_LIMIT: usize = 500;

/// The browser.
pub struct Browser {
    pub tab: usize,
    pub return_tab: usize,
    pub selected: Vec<usize>,
    pub anchors: Vec<Option<String>>,
    pub rows: Vec<Row>,
    pub detail: Option<Row>,
    pub detail_offset: usize,
    pub detail_max: usize,
    pub page_size: usize,
    pub tabs: Vec<(usize, Rect)>,
    pub row_hits: Vec<(usize, Rect)>,
    pub events: Vec<Row>,
    pub revision: Option<u64>,
    pub editor: Option<Editor>,
    pub search: Option<Search>,
    pub search_instances: Option<usize>,
    /// What a search begins with where the service can be asked.
    pub client: Option<Usage>,
    pub search_budget: usize,
    pub message: String,
    pub interrupted: bool,
}

#[verifier::ext_equal]
pub struct BrowserView {
    pub tab: usize,
    pub return_tab: usize,
    pub selected: Seq<usize>,
    pub anchors: Seq<Option<Seq<char>>>,
    pub rows: Seq<RowView>,
    pub detail: Option<RowView>,
    pub detail_offset: usize,
    pub detail_max: usize,
    pub page_size: usize,
    pub tabs: Seq<(usize, Rect)>,
    pub row_hits: Seq<(usize, Rect)>,
    pub events: Seq<RowView>,
    pub revision: Option<u64>,
    pub editor: Option<EditorView>,
    pub search: Option<SearchView>,
    pub search_instances: Option<usize>,
    pub client: Option<UsageView>,
    pub search_budget: usize,
    pub message: Seq<char>,
    pub interrupted: bool,
}

pub open spec fn anchors_view(v: Seq<Option<String>>) -> Seq<Option<Seq<char>>> {
    Seq::new(v.len(), |i: int| text::optional_view(v[i]))
}

pub open spec fn row_view(r: Option<Row>) -> Option<RowView> {
    match r {
        Some(r) => Some(r@),
        None => None,
    }
}

pub open spec fn editor_view(e: Option<Editor>) -> Option<EditorView> {
    match e {
        Some(e) => Some(e@),
        None => None,
    }
}

pub open spec fn search_view(s: Option<Search>) -> Option<SearchView> {
    match s {
        Some(s) => Some(s@),
        None => None,
    }
}

pub open spec fn usage_view(u: Option<Usage>) -> Option<UsageView> {
    match u {
        Some(u) => Some(u@),
        None => None,
    }
}

/// A number moved by an amount, and kept between zero and a limit.
pub open spec fn clamped(v: int, limit: int) -> int {
    if v < 0 {
        0
    } else if v > limit {
        limit
    } else {
        v
    }
}

/// The last place of so many rows.
pub open spec fn last_place(n: nat) -> int {
    if n == 0 {
        0
    } else {
        n - 1
    }
}

/// The usage of a search that begins.
pub open spec fn fresh_usage(client: Option<UsageView>) -> UsageView {
    match client {
        Some(u) => u,
        None => UsageView::fresh(jev::no_cost(), jev::no_cost()),
    }
}

/// The first part of a screen that a cell lies in, or how many there are.
pub open spec fn hit(parts: Seq<(usize, Rect)>, x: u16, y: u16) -> nat
    decreases parts.len(),
{
    if parts.len() == 0 || parts[0].1.has(x, y) {
        0
    } else {
        1 + hit(parts.drop_first(), x, y)
    }
}

/// Whether parts of a screen belong to things that are there.
pub open spec fn parts_in(parts: Seq<(usize, Rect)>, n: int) -> bool {
    forall|i: int| 0 <= i < parts.len() ==> (#[trigger] parts[i]).0 < n
}

impl BrowserView {
    /// What holds of a browser at any time: a tab is open, and the one to return to is not that of
    /// the search; the cursor stands in the query; every group of a search has its place; and what
    /// can be clicked at is there.
    pub open spec fn wf(self) -> bool {
        &&& self.tab < 5
        &&& self.return_tab < SEARCH
        &&& self.selected.len() == 5
        &&& self.anchors.len() == 5
        &&& 1 <= self.page_size <= 65535
        &&& self.search_budget == 4 || self.search_budget == 16 || self.search_budget == 64
        &&& match self.editor {
            Some(e) => e.cursor <= e.text.len(),
            None => true,
        }
        &&& match self.search {
            Some(s) => s.wf(),
            None => true,
        }
        &&& parts_in(self.tabs, 5)
        &&& parts_in(self.row_hits, self.rows.len() as int)
    }

    /// The browser at its start.
    pub open spec fn start(client: Option<UsageView>) -> BrowserView {
        BrowserView {
            tab: 0,
            return_tab: 0,
            selected: seq![0, 0, 0, 0, 0],
            anchors: seq![None, None, None, None, None],
            rows: seq![],
            detail: None,
            detail_offset: 0,
            detail_max: 0,
            page_size: 1,
            tabs: seq![],
            row_hits: seq![],
            events: seq![],
            revision: None,
            editor: None,
            search: None,
            search_instances: None,
            client,
            search_budget: 16,
            message: ""@,
            interrupted: false,
        }
    }

    /// What is written when a query is asked for: the query of the last search.
    pub open spec fn last_query(self) -> Seq<char> {
        match self.search {
            Some(s) => s.state.query,
            None => seq![],
        }
    }

    /// The browser with a query asked for, unless a search still runs.
    pub open spec fn asked(self, mode: Mode) -> BrowserView {
        let opened = BrowserView {
            return_tab: if self.tab != SEARCH {
                self.tab
            } else {
                self.return_tab
            },
            tab: SEARCH,
            detail: None,
            ..self
        };
        if self.search matches Some(s) && s.running {
            BrowserView {
                message: "Search is running; press x to stop it before asking again"@,
                ..opened
            }
        } else {
            BrowserView {
                editor: Some(
                    EditorView {
                        text: self.last_query(),
                        cursor: self.last_query().len() as usize,
                        mode,
                    },
                ),
                message: ""@,
                ..opened
            }
        }
    }

    /// The search that begins with a query on the events that are there.
    pub open spec fn begun(self, query: Seq<char>, mode: Mode) -> SearchView {
        let groups = search::window_groups(list::row_events(self.events));
        SearchView {
            groups,
            total_events: search::seen_ids(list::row_events(self.events)).len() as usize,
            state: StateView {
                query,
                mode,
                decisions: Seq::new(groups.len(), |i: int| None),
                checked: 0,
                failed: 0,
                cache_hits: 0,
                usage: fresh_usage(self.client),
                status: "Searching"@,
                message: "Searching the frozen log window"@,
            },
            running: true,
            figures: Seq::new(groups.len(), |i: int| ""@),
            cost: "0.000000"@,
        }
    }

    /// The browser with the query that was written submitted, and whether a search begins.
    pub open spec fn submitted(self, e: EditorView) -> (BrowserView, Effect) {
        let query = text::trimmed(e.text);
        if !search::searchable(query) {
            (BrowserView { message: search::invalid_query(), ..self }, Effect::Nothing)
        } else if e.mode == Mode::Jev && self.client is None {
            (
                BrowserView {
                    message: "Jev search is unavailable in offline mode; Tab selects exact text"@,
                    ..self
                },
                Effect::Nothing,
            )
        } else {
            (
                BrowserView {
                    search: Some(self.begun(events::redacted(query), e.mode)),
                    editor: None,
                    search_instances: None,
                    message: ""@,
                    ..self.unselected()
                },
                Effect::Search,
            )
        }
    }

    /// The browser with nothing selected under the search.
    pub open spec fn unselected(self) -> BrowserView {
        BrowserView {
            selected: self.selected.update(SEARCH as int, 0),
            anchors: self.anchors.update(SEARCH as int, None),
            ..self
        }
    }

    /// The browser with a tab opened. Without a search, its tab asks for one.
    pub open spec fn switched(self, tab: usize) -> BrowserView {
        let opened = BrowserView {
            return_tab: if self.tab != SEARCH && tab == SEARCH {
                self.tab
            } else {
                self.return_tab
            },
            tab,
            detail: None,
            editor: None,
            ..self
        };
        if tab == SEARCH && self.search is None {
            opened.asked(
                if self.client is Some {
                    Mode::Jev
                } else {
                    Mode::Literal
                },
            )
        } else {
            opened
        }
    }

    /// The name of the event in a row.
    pub open spec fn row_id(self, i: int) -> Option<Seq<char>> {
        if 0 <= i < self.rows.len() {
            Some(self.rows[i].event.id)
        } else {
            None
        }
    }

    /// The browser with the detail scrolled, or another row selected.
    pub open spec fn moved(self, amount: int) -> BrowserView {
        if self.detail is Some {
            BrowserView {
                detail_offset: clamped(
                    self.detail_offset + amount,
                    self.detail_max as int,
                ) as usize,
                ..self
            }
        } else {
            let tab = self.tab as int;
            let place = clamped(self.selected[tab] + amount, last_place(self.rows.len()));
            BrowserView {
                selected: self.selected.update(tab, place as usize),
                anchors: self.anchors.update(tab, self.row_id(place)),
                ..self
            }
        }
    }

    /// The query with a key typed into it.
    pub open spec fn typed(e: EditorView, key: Key, control: bool, alt: bool) -> EditorView {
        match key {
            Key::Left => EditorView {
                cursor: clamped(e.cursor - 1, e.text.len() as int) as usize,
                ..e
            },
            Key::Right => EditorView {
                cursor: clamped(e.cursor + 1, e.text.len() as int) as usize,
                ..e
            },
            Key::Home => EditorView { cursor: 0, ..e },
            Key::End => EditorView { cursor: e.text.len() as usize, ..e },
            Key::Backspace => if e.cursor > 0 {
                EditorView {
                    cursor: (e.cursor - 1) as usize,
                    text: e.text.remove(e.cursor - 1),
                    ..e
                }
            } else {
                e
            },
            Key::Delete => if e.cursor < e.text.len() {
                EditorView { text: e.text.remove(e.cursor as int), ..e }
            } else {
                e
            },
            Key::Tab => EditorView {
                mode: if e.mode == Mode::Jev {
                    Mode::Literal
                } else {
                    Mode::Jev
                },
                ..e
            },
            Key::Char(c) => if c == 'u' && control {
                EditorView { text: seq![], cursor: 0, ..e }
            } else if !control && !alt && !text::control(c) && e.text.len() < QUERY_LIMIT {
                EditorView {
                    text: e.text.insert(e.cursor as int, c),
                    cursor: (e.cursor + 1) as usize,
                    ..e
                }
            } else {
                e
            },
            _ => e,
        }
    }

    /// How many requests a search may make next.
    pub open spec fn next_budget(budget: usize) -> usize {
        if budget == 4 {
            16
        } else if budget == 16 {
            64
        } else {
            4
        }
    }

    /// The browser with a key typed while a query is written.
    pub open spec fn edited(self, e: EditorView, key: Key, control: bool, alt: bool) -> (
        BrowserView,
        Effect,
    ) {
        match key {
            Key::Esc => (
                BrowserView {
                    editor: None,
                    tab: if self.search is None {
                        self.return_tab
                    } else {
                        self.tab
                    },
                    ..self
                },
                Effect::Nothing,
            ),
            Key::Enter => self.submitted(e),
            Key::Char('b') if control => (
                BrowserView { search_budget: Self::next_budget(self.search_budget), ..self },
                Effect::Nothing,
            ),
            _ => (
                BrowserView { editor: Some(Self::typed(e, key, control, alt)), ..self },
                Effect::Nothing,
            ),
        }
    }

    /// The browser left by one step.
    pub open spec fn back(self) -> BrowserView {
        let closed = BrowserView { detail: None, ..self };
        if self.detail is None && self.tab == SEARCH {
            if self.search_instances is Some {
                BrowserView { search_instances: None, ..closed.unselected() }
            } else {
                closed.switched(self.return_tab)
            }
        } else {
            closed
        }
    }

    /// The browser with the detail of the selected row open, if there is one.
    pub open spec fn entered(self) -> BrowserView {
        let i = self.selected[self.tab as int] as int;
        BrowserView {
            detail: if i < self.rows.len() {
                Some(self.rows[i])
            } else {
                None
            },
            detail_offset: 0,
            ..self
        }
    }

    /// The browser with the events of the selected group alone.
    pub open spec fn unfolded(self) -> BrowserView {
        let i = self.selected[SEARCH as int] as int;
        if i < self.rows.len() {
            BrowserView { search_instances: self.rows[i].group, ..self.unselected() }
        } else {
            self
        }
    }

    /// The browser with a key typed while no query is written; whether it goes on, and what is to
    /// be done.
    pub open spec fn pressed(self, key: Key) -> (BrowserView, bool, Effect) {
        let same = |b: BrowserView| (b, true, Effect::Nothing);
        match key {
            Key::Char(c) => if c == 'q' || c == 'Q' {
                (self, false, Effect::Nothing)
            } else if c == '/' || c == '?' {
                same(self.asked(Mode::Jev))
            } else if c == 'f' {
                same(self.asked(Mode::Literal))
            } else if '1' <= c <= '5' {
                same(self.switched((c as int - '1' as int) as usize))
            } else if c == 'k' {
                same(self.moved(-1))
            } else if c == 'j' {
                same(self.moved(1))
            } else if c == 'x' && self.tab == SEARCH && self.search is Some {
                (self, true, Effect::Stop)
            } else if c == 'i' && self.tab == SEARCH && self.detail is None {
                same(self.unfolded())
            } else {
                same(self)
            },
            Key::Tab | Key::Right => same(self.switched(((self.tab + 1) % 5) as usize)),
            Key::BackTab | Key::Left => same(self.switched(((self.tab + 4) % 5) as usize)),
            Key::Up => same(self.moved(-1)),
            Key::Down => same(self.moved(1)),
            Key::PageUp => same(self.moved(-(self.page_size as int))),
            Key::PageDown => same(self.moved(self.page_size as int)),
            Key::Home => same(self.moved(isize::MIN as int)),
            Key::End => same(self.moved(isize::MAX as int)),
            Key::Enter => if self.detail is None {
                same(self.entered())
            } else {
                same(self)
            },
            Key::Esc => same(self.back()),
            _ => same(self),
        }
    }

    /// The browser with a cell clicked at: a tab is opened, or a row selected.
    pub open spec fn clicked(self, x: u16, y: u16) -> BrowserView {
        let t = hit(self.tabs, x, y) as int;
        let r = hit(self.row_hits, x, y) as int;
        if t < self.tabs.len() {
            self.switched(self.tabs[t].0)
        } else if self.detail is None && self.editor is None && r < self.row_hits.len() {
            let i = self.row_hits[r].0;
            BrowserView {
                selected: self.selected.update(self.tab as int, i),
                anchors: self.anchors.update(self.tab as int, self.row_id(i as int)),
                ..self
            }
        } else {
            self
        }
    }

    /// What an input does: the browser behind it, whether it goes on, and what is to be done.
    pub open spec fn handled(self, input: Input) -> (BrowserView, bool, Effect) {
        match input {
            Input::Key { key, control, alt, released } => if released {
                (self, true, Effect::Nothing)
            } else if key == Key::Char('c') && control {
                (BrowserView { interrupted: true, ..self }, false, Effect::Nothing)
            } else {
                match self.editor {
                    Some(e) => {
                        let (b, effect) = self.edited(e, key, control, alt);
                        (b, true, effect)
                    },
                    None => self.pressed(key),
                }
            },
            Input::ScrollUp => (
                if self.editor is None {
                    self.moved(-3)
                } else {
                    self
                },
                true,
                Effect::Nothing,
            ),
            Input::ScrollDown => (
                if self.editor is None {
                    self.moved(3)
                } else {
                    self
                },
                true,
                Effect::Nothing,
            ),
            Input::Click { x, y } => (self.clicked(x, y), true, Effect::Nothing),
            Input::Other => (self, true, Effect::Nothing),
        }
    }
}

/// Whether an input is an interrupt.
pub open spec fn interrupts(input: Input) -> bool {
    input matches Input::Key { key, control, alt, released } && key == Key::Char('c') && control
        && !released
}

/// An interrupt ends the browser whatever it is doing, and nothing else reports one.
pub proof fn interrupts_always_end(b: BrowserView, input: Input)
    ensures
        interrupts(input) ==> b.handled(input).0.interrupted && !b.handled(input).1,
        !interrupts(input) ==> b.handled(input).0.interrupted == b.interrupted,
{
}

proof fn switched_wf(b: BrowserView, tab: usize)
    requires
        b.wf(),
        tab < 5,
    ensures
        b.switched(tab).wf(),
        tab != SEARCH ==> b.switched(tab).tab == tab,
{
}

proof fn hit_found(parts: Seq<(usize, Rect)>, x: u16, y: u16)
    ensures
        hit(parts, x, y) <= parts.len(),
    decreases parts.len(),
{
    if parts.len() > 0 && !parts[0].1.has(x, y) {
        hit_found(parts.drop_first(), x, y);
    }
}

/// No input breaks what holds of a browser: what is selected or clicked at is there, the cursor
/// stays in the query, and the tab to return to is never that of the search.
pub proof fn input_keeps_browser_sound(b: BrowserView, input: Input)
    requires
        b.wf(),
    ensures
        b.handled(input).0.wf(),
{
    match input {
        Input::Key { key, control, alt, released } => {
            match b.editor {
                Some(e) => {
                    if key == Key::Enter {
                        search::groups_part_the_window(list::row_events(b.events));
                    }
                },
                None => {
                    match key {
                        Key::Char(c) => {
                            if '1' <= c <= '5' {
                                switched_wf(b, (c as int - '1' as int) as usize);
                            }
                        },
                        Key::Tab | Key::Right => switched_wf(b, ((b.tab + 1) % 5) as usize),
                        Key::BackTab | Key::Left => switched_wf(b, ((b.tab + 4) % 5) as usize),
                        Key::Esc => {
                            switched_wf(
                                BrowserView { detail: None, ..b },
                                b.return_tab,
                            );
                        },
                        _ => {},
                    }
                },
            }
        },
        Input::Click { x, y } => {
            let t = hit(b.tabs, x, y) as int;
            let r = hit(b.row_hits, x, y) as int;
            hit_found(b.tabs, x, y);
            if t < b.tabs.len() {
                assert(b.tabs[t].0 < 5);
                switched_wf(b, b.tabs[t].0);
            }
        },
        _ => {},
    }
}

fn find_hit(parts: &Vec<(usize, Rect)>, x: u16, y: u16) -> (n: usize)
    ensures
        n == hit(parts@, x, y),
        n <= parts@.len(),
{
    let mut i: usize = 0;
    assert(parts@.skip(0) =~= parts@);
    while i < parts.len() && !parts[i].1.contains(x, y)
        invariant
            i <= parts@.len(),
            hit(parts@, x, y) == i + hit(parts@.skip(i as int), x, y),
        decreases parts@.len() - i,
    {
        assert(parts@.skip(i as int)[0] == parts@[i as int]);
        assert(parts@.skip(i as int).drop_first() =~= parts@.skip(i + 1));
        i += 1;
    }
    if i < parts.len() {
        assert(parts@.skip(i as int)[0] == parts@[i as int]);
    }
    i
}

fn shift(v: usize, amount: isize, limit: usize) -> (r: usize)
    ensures
        r == clamped(v + amount, limit as int),
{
    let moved: i128 = v as i128 + amount as i128;
    if moved < 0 {
        0
    } else if moved > limit as i128 {
        limit
    } else {
        moved as usize
    }
}

impl Browser {
    pub open spec fn view(&self) -> BrowserView {
        BrowserView {
            tab: self.tab,
            return_tab: self.return_tab,
            selected: self.selected@,
            anchors: anchors_view(self.anchors@),
            rows: list::rows_view(self.rows@),
            detail: row_view(self.detail),
            detail_offset: self.detail_offset,
            detail_max: self.detail_max,
            page_size: self.page_size,
            tabs: self.tabs@,
            row_hits: self.row_hits@,
            events: list::rows_view(self.events@),
            revision: self.revision,
            editor: editor_view(self.editor),
            search: search_view(self.search),
            search_instances: self.search_instances,
            client: usage_view(self.client),
            search_budget: self.search_budget,
            message: self.message@,
            interrupted: self.interrupted,
        }
    }

    /// A browser; the service can be asked where a client is there.
    pub fn new(client: Option<Usage>) -> (r: Self)
        ensures
            r@ == BrowserView::start(usage_view(client)),
            r@.wf(),
    {
        let mut selected: Vec<usize> = Vec::new();
        let mut anchors: Vec<Option<String>> = Vec::new();
        let mut i: usize = 0;
        while i < 5
            invariant
                i <= 5,
                selected@.len() == i,
                anchors@.len() == i,
                forall|k: int| 0 <= k < i ==> selected@[k] == 0,
                forall|k: int| 0 <= k < i ==> (#[trigger] anchors@[k]) is None,
            decreases 5 - i,
        {
            selected.push(0);
            anchors.push(None);
            i += 1;
        }
        let r = Browser {
            tab: 0,
            return_tab: 0,
            selected,
            anchors,
            rows: Vec::new(),
            detail: None,
            detail_offset: 0,
            detail_max: 0,
            page_size: 1,
            tabs: Vec::new(),
            row_hits: Vec::new(),
            events: Vec::new(),
            revision: None,
            editor: None,
            search: None,
            search_instances: None,
            client,
            search_budget: 16,
            message: "".to_owned(),
            interrupted: false,
        };
        assert(r@.selected =~= seq![0, 0, 0, 0, 0]);
        assert(r@.anchors =~= seq![None, None, None, None, None]);
        assert(r@.rows =~= seq![]);
        assert(r@.events =~= seq![]);
        assert(r@.tabs =~= seq![]);
        assert(r@.row_hits =~= seq![]);
        r
    }

    /// Takes over the events of a run, where they have changed. Each comes with the text of its
    /// confidence.
    pub fn refresh(&mut self, progress: &Progress, figures: &Vec<String>)
        requires
            figures@.len() == progress@.events.len() + progress@.pending.len(),
        ensures
            final(self)@ == (if old(self)@.revision == Some(progress@.revision) {
                old(self)@
            } else {
                BrowserView {
                    events: list::event_rows(
                        progress@.events,
                        progress@.pending,
                        text::list_view(figures@),
                    ),
                    revision: Some(progress@.revision),
                    ..old(self)@
                }
            }),
    {
        if self.revision == Some(progress.revision) {
            return;
        }
        let ghost all = list::event_rows(
            progress@.events,
            progress@.pending,
            text::list_view(figures@),
        );
        let mut rows: Vec<Row> = Vec::new();
        let n = progress.events.len();
        let mut i: usize = 0;
        assert(list::rows_view(rows@) =~= all.take(0));
        while i < n
            invariant
                n == progress.events@.len(),
                all == list::event_rows(
                    progress@.events,
                    progress@.pending,
                    text::list_view(figures@),
                ),
                figures@.len() == progress@.events.len() + progress@.pending.len(),
                i <= n,
                list::rows_view(rows@) == all.take(i as int),
            decreases n - i,
        {
            let ghost before = list::rows_view(rows@);
            let row = Row {
                event: Arc::clone(&progress.events[i]),
                pending: false,
                group: None,
                decision: None,
                count: 1,
                figure: figures[i].clone(),
            };
            assert(row@ == all[i as int]);
            rows.push(row);
            assert(list::rows_view(rows@) =~= before.push(all[i as int]));
            assert(all.take(i + 1) =~= all.take(i as int).push(all[i as int]));
            i += 1;
        }
        let m = progress.pending.len();
        assert(n + m == figures.len());
        let mut k: usize = 0;
        while k < m
            invariant
                n == progress.events@.len(),
                m == progress.pending@.len(),
                all == list::event_rows(
                    progress@.events,
                    progress@.pending,
                    text::list_view(figures@),
                ),
                figures@.len() == progress@.events.len() + progress@.pending.len(),
                k <= m,
                n + m <= usize::MAX,
                list::rows_view(rows@) == all.take(n + k),
            decreases m - k,
        {
            let ghost before = list::rows_view(rows@);
            let row = Row {
                event: Arc::clone(&progress.pending[k]),
                pending: true,
                group: None,
                decision: None,
                count: 1,
                figure: figures[n + k].clone(),
            };
            assert(row@ == all[n + k]);
            rows.push(row);
            assert(list::rows_view(rows@) =~= before.push(all[n + k]));
            assert(all.take(n + k + 1) =~= all.take(n + k).push(all[n + k]));
            k += 1;
        }
        assert(all.take(n + m) =~= all);
        self.events = rows;
        self.revision = Some(progress.revision);
    }

    /// Takes over how far a search got. Each decision comes with the text of its confidence.
    pub fn observe(&mut self, state: State, running: bool, figures: Vec<String>, cost: String)
        requires
            old(self)@.wf(),
            old(self)@.search matches Some(s) ==> state@.decisions.len() == s.groups.len()
                && figures@.len() == s.groups.len(),
        ensures
            final(self)@ == (match old(self)@.search {
                Some(s) => BrowserView {
                    search: Some(
                        SearchView {
                            state: state@,
                            running,
                            figures: text::list_view(figures@),
                            cost: cost@,
                            ..s
                        },
                    ),
                    ..old(self)@
                },
                None => old(self)@,
            }),
            final(self)@.wf(),
    {
        match self.search.take() {
            Some(s) => {
                self.search = Some(Search { window: s.window, state, running, figures, cost });
            },
            None => {},
        }
    }

    /// Asks for a query.
    pub fn ask(&mut self, mode: Mode)
        requires
            old(self)@.wf(),
        ensures
            final(self)@ == old(self)@.asked(mode),
            final(self)@.wf(),
    {
        if self.tab != SEARCH {
            self.return_tab = self.tab;
        }
        self.tab = SEARCH;
        self.detail = None;
        let running = match &self.search {
            Some(s) => s.running,
            None => false,
        };
        if running {
            self.message = "Search is running; press x to stop it before asking again".to_owned();
            return;
        }
        let text: Vec<char> = match &self.search {
            Some(s) => text::chars(s.state.query.as_str()),
            None => Vec::new(),
        };
        assert(text@ =~= old(self)@.last_query());
        self.editor = Some(Editor { cursor: text.len(), text, mode });
        self.message = "".to_owned();
    }

    fn unselect(&mut self)
        requires
            old(self)@.wf(),
        ensures
            final(self)@ == old(self)@.unselected(),
            final(self)@.wf(),
    {
        self.selected.set(SEARCH, 0);
        self.anchors.set(SEARCH, None);
        assert(self@.anchors =~= old(self)@.anchors.update(SEARCH as int, None));
    }

    /// Submits the query that was written.
    pub fn submit(&mut self) -> (effect: Effect)
        requires
            old(self)@.wf(),
            old(self)@.editor is Some,
        ensures
            (final(self)@, effect) == old(self)@.submitted(old(self)@.editor.unwrap()),
            final(self)@.wf(),
    {
        let (written, mode) = match &self.editor {
            Some(e) => (text::whole(&e.text), e.mode),
            None => {
                return Effect::Nothing;
            },
        };
        let query = match search::validate(written.as_str()) {
            Ok(q) => q,
            Err(e) => {
                self.message = e.to_owned();
                return Effect::Nothing;
            },
        };
        if mode == Mode::Jev && self.client.is_none() {
            self.message =
                "Jev search is unavailable in offline mode; Tab selects exact text".to_owned();
            return Effect::Nothing;
        }
        let shared = list::share_events(&self.events);
        let window = Window::new(&shared);
        proof {
            search::groups_part_the_window(list::row_events(self@.events));
        }
        let usage = match &self.client {
            Some(u) => u.clone(),
            None => Usage::new(
                Real { bits: 0, text: "0.0".to_owned() },
                Real { bits: 0, text: "0.0".to_owned() },
            ),
        };
        let n = window.groups.len();
        let mut figures: Vec<String> = Vec::new();
        let mut i: usize = 0;
        while i < n
            invariant
                i <= n,
                figures@.len() == i,
                forall|k: int| 0 <= k < i ==> (#[trigger] figures@[k])@ == ""@,
            decreases n - i,
        {
            figures.push("".to_owned());
            i += 1;
        }
        let state = State::new(query, mode, n, usage);
        let found = Search {
            window: Arc::new(window),
            state,
            running: true,
            figures,
            cost: "0.000000".to_owned(),
        };
        assert(found@.figures =~= Seq::new(n as nat, |i: int| ""@));
        assert(found@ == self@.begun(query@, mode));
        self.search = Some(found);
        self.editor = None;
        self.search_instances = None;
        self.unselect();
        self.message = "".to_owned();
        Effect::Search
    }

    /// Opens a tab.
    pub fn switch(&mut self, tab: usize)
        requires
            old(self)@.wf(),
            tab < 5,
        ensures
            final(self)@ == old(self)@.switched(tab),
            final(self)@.wf(),
    {
        if self.tab != SEARCH && tab == SEARCH {
            self.return_tab = self.tab;
        }
        self.tab = tab;
        self.detail = None;
        self.editor = None;
        if tab == SEARCH && self.search.is_none() {
            let mode = if self.client.is_some() {
                Mode::Jev
            } else {
                Mode::Literal
            };
            self.ask(mode);
        }
    }

    /// Scrolls the detail, or selects another row.
    pub fn move_by(&mut self, amount: isize)
        requires
            old(self)@.wf(),
        ensures
            final(self)@ == old(self)@.moved(amount as int),
            final(self)@.wf(),
    {
        if self.detail.is_some() {
            self.detail_offset = shift(self.detail_offset, amount, self.detail_max);
        } else {
            let last = if self.rows.len() == 0 {
                0
            } else {
                self.rows.len() - 1
            };
            let place = shift(self.selected[self.tab], amount, last);
            let tab = self.tab;
            self.selected.set(tab, place);
            let id = if place < self.rows.len() {
                Some(self.rows[place].event.id.clone())
            } else {
                None
            };
            self.anchors.set(tab, id);
            assert(self@.anchors =~= old(self)@.anchors.update(
                tab as int,
                old(self)@.row_id(place as int),
            ));
        }
    }

    /// Takes a key while a query is written.
    pub fn editor_key(&mut self, key: Key, control: bool, alt: bool) -> (effect: Effect)
        requires
            old(self)@.wf(),
            old(self)@.editor is Some,
        ensures
            (final(self)@, effect) == old(self)@.edited(
                old(self)@.editor.unwrap(),
                key,
                control,
                alt,
            ),
            final(self)@.wf(),
    {
        match key {
            Key::Esc => {
                self.editor = None;
                if self.search.is_none() {
                    self.tab = self.return_tab;
                }
                return Effect::Nothing;
            },
            Key::Enter => {
                return self.submit();
            },
            Key::Char(c) => {
                if c == 'b' && control {
                    self.search_budget = if self.search_budget == 4 {
                        16
                    } else if self.search_budget == 16 {
                        64
                    } else {
                        4
                    };
                    return Effect::Nothing;
                }
            },
            _ => {},
        }
        let mut e = match self.editor.take() {
            Some(e) => e,
            None => {
                return Effect::Nothing;
            },
        };
        let ghost before = e@;
        match key {
            Key::Left => {
                e.cursor = if e.cursor > 0 {
                    e.cursor - 1
                } else {
                    0
                };
            },
            Key::Right => {
                e.cursor = if e.cursor < e.text.len() {
                    e.cursor + 1
                } else {
                    e.text.len()
                };
            },
            Key::Home => {
                e.cursor = 0;
            },
            Key::End => {
                e.cursor = e.text.len();
            },
            Key::Backspace => {
                if e.cursor > 0 {
                    e.cursor = e.cursor - 1;
                    let at = e.cursor;
                    let _ = e.text.remove(at);
                }
            },
            Key::Delete => {
                if e.cursor < e.text.len() {
                    let at = e.cursor;
                    let _ = e.text.remove(at);
                }
            },
            Key::Tab => {
                e.mode = if e.mode == Mode::Jev {
                    Mode::Literal
                } else {
                    Mode::Jev
                };
            },
            Key::Char(c) => {
                if c == 'u' && control {
                    e.text.clear();
                    e.cursor = 0;
                    assert(e.text@ =~= seq![]);
                } else if !control && !alt && !text::is_control(c) && e.text.len() < QUERY_LIMIT {
                    let at = e.cursor;
                    e.text.insert(at, c);
                    e.cursor = e.cursor + 1;
                }
            },
            _ => {},
        }
        assert(e@ == BrowserView::typed(before, key, control, alt));
        self.editor = Some(e);
        Effect::Nothing
    }

    fn back(&mut self)
        requires
            old(self)@.wf(),
        ensures
            final(self)@ == old(self)@.back(),
            final(self)@.wf(),
    {
        let open = self.detail.is_some();
        self.detail = None;
        if !open && self.tab == SEARCH {
            if self.search_instances.is_some() {
                self.search_instances = None;
                self.unselect();
            } else {
                let tab = self.return_tab;
                self.switch(tab);
            }
        }
    }

    fn enter(&mut self)
        requires
            old(self)@.wf(),
        ensures
            final(self)@ == old(self)@.entered(),
            final(self)@.wf(),
    {
        let i = self.selected[self.tab];
        self.detail = if i < self.rows.len() {
            Some(self.rows[i].clone())
        } else {
            None
        };
        self.detail_offset = 0;
    }

    fn unfold(&mut self)
        requires
            old(self)@.wf(),
        ensures
            final(self)@ == old(self)@.unfolded(),
            final(self)@.wf(),
    {
        let i = self.selected[SEARCH];
        if i < self.rows.len() {
            self.search_instances = self.rows[i].group;
            self.unselect();
        }
    }

    fn press(&mut self, key: Key) -> (r: (bool, Effect))
        requires
            old(self)@.wf(),
        ensures
            (final(self)@, r.0, r.1) == old(self)@.pressed(key),
            final(self)@.wf(),
    {
        match key {
            Key::Char(c) => {
                if c == 'q' || c == 'Q' {
                    return (false, Effect::Nothing);
                } else if c == '/' || c == '?' {
                    self.ask(Mode::Jev);
                } else if c == 'f' {
                    self.ask(Mode::Literal);
                } else if '1' <= c && c <= '5' {
                    self.switch((c as u32 - '1' as u32) as usize);
                } else if c == 'k' {
                    self.move_by(-1);
                } else if c == 'j' {
                    self.move_by(1);
                } else if c == 'x' && self.tab == SEARCH && self.search.is_some() {
                    return (true, Effect::Stop);
                } else if c == 'i' && self.tab == SEARCH && self.detail.is_none() {
                    self.unfold();
                }
            },
            Key::Tab | Key::Right => {
                let tab = (self.tab + 1) % 5;
                self.switch(tab);
            },
            Key::BackTab | Key::Left => {
                let tab = (self.tab + 4) % 5;
                self.switch(tab);
            },
            Key::Up => {
                self.move_by(-1);
            },
            Key::Down => {
                self.move_by(1);
            },
            Key::PageUp => {
                let page = self.page_size as isize;
                self.move_by(-page);
            },
            Key::PageDown => {
                let page = self.page_size as isize;
                self.move_by(page);
            },
            Key::Home => {
                self.move_by(isize::MIN);
            },
            Key::End => {
                self.move_by(isize::MAX);
            },
            Key::Enter => {
                if self.detail.is_none() {
                    self.enter();
                }
            },
            Key::Esc => {
                self.back();
            },
            _ => {},
        }
        (true, Effect::Nothing)
    }

    fn click(&mut self, x: u16, y: u16)
        requires
            old(self)@.wf(),
        ensures
            final(self)@ == old(self)@.clicked(x, y),
            final(self)@.wf(),
    {
        let t = find_hit(&self.tabs, x, y);
        if t < self.tabs.len() {
            assert(self@.tabs[t as int].0 < 5);
            let tab = self.tabs[t].0;
            self.switch(tab);
        } else if self.detail.is_none() && self.editor.is_none() {
            let r = find_hit(&self.row_hits, x, y);
            if r < self.row_hits.len() {
                assert(self@.row_hits[r as int].0 < self@.rows.len());
                let i = self.row_hits[r].0;
                let tab = self.tab;
                self.selected.set(tab, i);
                let id = Some(self.rows[i].event.id.clone());
                self.anchors.set(tab, id);
                assert(self@.anchors =~= old(self)@.anchors.update(
                    tab as int,
                    old(self)@.row_id(i as int),
                ));
            }
        }
    }

    /// Takes an input: whether the browser goes on, and what is to be done.
    pub fn input(&mut self, input: Input) -> (r: (bool, Effect))
        requires
            old(self)@.wf(),
        ensures
            (final(self)@, r.0, r.1) == old(self)@.handled(input),
            final(self)@.wf(),
    {
        match input {
            Input::Key { key, control, alt, released } => {
                if released {
                    return (true, Effect::Nothing);
                }
                if let Key::Char(c) = key {
                    if c == 'c' && control {
                        self.interrupted = true;
                        return (false, Effect::Nothing);
                    }
                }
                if self.editor.is_some() {
                    let effect = self.editor_key(key, control, alt);
                    (true, effect)
                } else {
                    self.press(key)
                }
            },
            Input::ScrollUp => {
                if self.editor.is_none() {
                    self.move_by(-3);
                }
                (true, Effect::Nothing)
            },
            Input::ScrollDown => {
                if self.editor.is_none() {
                    self.move_by(3);
                }
                (true, Effect::Nothing)
            },
            Input::Click { x, y } => {
                self.click(x, y);
                (true, Effect::Nothing)
            },
            Input::Other => (true, Effect::Nothing),
        }
    }
}

}
