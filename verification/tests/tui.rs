//! The terminal browser.
use jevernetes::events::{Event, Line, Parser, Source};
use jevernetes::ieee::Real;
use jevernetes::jev::{Importance, Usage};
use jevernetes::progress::Progress;
use jevernetes::search::{conclude, look_at, Cache, Mode};
use jevernetes::tui::paint::{wrap_cells, write_status, Canvas};
use jevernetes::tui::{validate, Browser, Effect, Input, Key};

fn number(v: f64) -> Real {
    Real {
        bits: v.to_bits(),
        text: serde_json::to_string(&v).unwrap(),
    }
}

fn usage() -> Usage {
    Usage::new(number(0.0), number(0.0))
}

fn events() -> Vec<Event> {
    let mut parser = Parser::new(Source::new());
    let mut events = Vec::new();
    for text in ["ERROR failed", "INFO ready", "WARN retry", "INFO unknown"] {
        events.extend(parser.feed(Line {
            bytes: text.as_bytes().to_vec(),
            truncated: false,
            private: false,
        }));
    }
    events.extend(parser.flush());
    for (event, importance) in events.iter_mut().zip([
        Importance::Important,
        Importance::Routine,
        Importance::Uncertain,
        Importance::Unknown,
    ]) {
        event.judgment.importance = importance;
    }
    events
}

fn key(browser: &mut Browser, key: Key) -> bool {
    browser
        .input(Input::Key {
            key,
            control: false,
            alt: false,
            released: false,
        })
        .0
}

fn canvas(browser: &mut Browser, progress: &Progress, width: u16, height: u16) -> Canvas {
    let figures: Vec<String> = (0..progress.events.len() + progress.pending.len())
        .map(|_| String::new())
        .collect();
    browser.refresh(progress, &figures);
    browser.draw(
        width,
        height,
        &progress.counters(),
        "queue 0 | dropped 0",
        true,
        "0.000000",
    )
}

fn draw(browser: &mut Browser, progress: &Progress, width: u16, height: u16) -> String {
    canvas(browser, progress, width, height)
        .puts
        .iter()
        .map(|p| format!("{}\n", p.text))
        .collect()
}

#[test]
fn tabs_mouse_selection_and_live_eviction_preserve_the_selected_event() {
    let mut progress = Progress::new(4, usage());
    progress.commit(&events(), None);
    let mut browser = Browser::new(None);
    draw(&mut browser, &progress, 100, 24);
    assert_eq!(browser.rows.len(), 1);
    key(&mut browser, Key::Char('4'));
    draw(&mut browser, &progress, 100, 24);
    assert_eq!(browser.rows.len(), 4);
    key(&mut browser, Key::End);
    let selected = browser.anchors[3].clone();
    let mut event = events().remove(0);
    event.id = "new".into();
    progress.commit(&[event], None);
    draw(&mut browser, &progress, 100, 24);
    assert_eq!(
        Some(browser.rows[browser.selected[3]].event.id.clone()),
        selected
    );
    let rect = browser.tabs[1].1;
    browser.input(Input::Click {
        x: rect.x,
        y: rect.y,
    });
    draw(&mut browser, &progress, 100, 24);
    assert_eq!(browser.tab, 1);
    assert_eq!(browser.rows.len(), 1);
    assert!(!key(&mut browser, Key::Char('q')));
}

#[test]
fn pending_unknown_details_unicode_and_small_resizes_are_safe() {
    let mut progress = Progress::new(4, usage());
    let mut e = events();
    e[0].text = "ERROR failed\n  at example.rs:12\n界界 café \x1b]52;c;injected\x07".into();
    progress.commit(&e, None);
    let mut browser = Browser::new(None);
    draw(&mut browser, &progress, 100, 24);
    key(&mut browser, Key::Enter);
    progress.events.clear();
    progress.revision += 1;
    let rendered = draw(&mut browser, &progress, 100, 24);
    assert!(rendered.contains("example.rs:12"));
    assert!(!rendered.contains("injected"));
    assert!(rendered.contains("界"));
    assert_eq!(wrap_cells("界界abc", 4), ["界界", "abc"]);
    assert!(draw(&mut browser, &progress, 20, 3).contains("Enlarge terminal"));
    draw(&mut browser, &progress, 35, 10);
    key(&mut browser, Key::Esc);
    progress.begin(&e);
    key(&mut browser, Key::Char('4'));
    draw(&mut browser, &progress, 100, 24);
    assert!(browser.rows.iter().all(|r| r.pending));
    key(&mut browser, Key::Char('3'));
    draw(&mut browser, &progress, 100, 24);
    assert!(
        browser.rows.is_empty(),
        "pending events aren't falsely labeled unknown"
    );
}

#[test]
fn local_search_and_instances_survive_eviction_and_editor_handles_unicode() {
    let mut progress = Progress::new(4, usage());
    let mut events = events();
    events[0].text = "GET / client=192.0.2.1 status=200 café".into();
    let mut repeat = events[0].clone();
    repeat.id = "second".into();
    progress.commit(&[events[0].clone(), repeat, events[1].clone()], None);
    let mut browser = Browser::new(None);
    draw(&mut browser, &progress, 100, 24);
    key(&mut browser, Key::Char('f'));
    for c in "client=192.0.2.1 status=200 café".chars() {
        key(&mut browser, Key::Char(c));
    }
    key(&mut browser, Key::Backspace);
    key(&mut browser, Key::Char('é'));
    key(&mut browser, Key::Tab);
    key(&mut browser, Key::Tab);
    assert!(browser.editor.as_ref().unwrap().mode == Mode::Literal);
    let (_, effect) = browser.input(Input::Key {
        key: Key::Enter,
        control: false,
        alt: false,
        released: false,
    });
    assert_eq!(effect, Effect::Search);
    let search = browser.search.as_ref().unwrap();
    let window = search.window.clone();
    let mut state = search.state.clone();
    let mut cache = Cache::default();
    for (i, group) in window.groups.iter().enumerate() {
        assert!(look_at(i, group, &mut state, &mut cache, "", 0));
    }
    conclude(&mut state, false, false, false);
    let figures = window.groups.iter().map(|_| String::new()).collect();
    browser.observe(state, false, figures, "0.000000".into());
    progress.events.clear();
    progress.revision += 1;
    let rendered = draw(&mut browser, &progress, 120, 30);
    assert!(rendered.contains("local exact"));
    assert_eq!(browser.rows.len(), 1);
    assert_eq!(browser.rows[0].count, 2);
    assert_eq!(
        browser.search.as_ref().unwrap().state.usage.request_attempts,
        0
    );
    key(&mut browser, Key::Char('i'));
    draw(&mut browser, &progress, 120, 30);
    assert_eq!(browser.rows.len(), 2);
    key(&mut browser, Key::Down);
    key(&mut browser, Key::Enter);
    assert_eq!(browser.detail.as_ref().unwrap().event.id, "second");
    key(&mut browser, Key::Esc);
    key(&mut browser, Key::Esc);
    draw(&mut browser, &progress, 120, 30);
    assert_eq!(browser.rows.len(), 1);
}

#[test]
fn ctrl_c_exits_even_during_query_editing_and_stdin_validation_is_explicit() {
    let mut browser = Browser::new(None);
    browser.ask(Mode::Literal);
    assert!(
        !browser
            .input(Input::Key {
                key: Key::Char('c'),
                control: true,
                alt: false,
                released: false,
            })
            .0
    );
    assert!(browser.interrupted);
    assert!(validate(true, true, &Some("xterm".into()))
        .err()
        .unwrap()
        .contains("stdin"));
}

#[test]
fn browsers_need_a_terminal() {
    assert!(validate(false, true, &Some("xterm".into())).is_ok());
    for term in [None, Some(String::new()), Some("dumb".to_string())] {
        assert!(validate(false, true, &term).is_err());
    }
    assert!(validate(false, false, &Some("xterm".into())).is_err());
}

#[test]
fn frames_stay_on_the_screen() {
    let mut progress = Progress::new(40, usage());
    for _ in 0..8 {
        progress.commit(&events(), None);
    }
    let mut browser = Browser::new(None);
    key(&mut browser, Key::Char('4'));
    for (width, height) in [(35, 10), (36, 11), (60, 18), (200, 60)] {
        let c = canvas(&mut browser, &progress, width, height);
        assert!(c
            .puts
            .iter()
            .all(|p| p.y < height && p.x + p.width <= width));
        key(&mut browser, Key::PageDown);
    }
    assert!(browser.selected[3] < browser.rows.len());
    key(&mut browser, Key::Home);
    assert_eq!(browser.selected[3], 0);
}

#[test]
fn queries_are_edited_at_the_cursor() {
    let mut browser = Browser::new(None);
    key(&mut browser, Key::Char('/'));
    assert!(browser.editor.as_ref().unwrap().mode == Mode::Jev);
    for k in [
        Key::Char('a'),
        Key::Char('c'),
        Key::Left,
        Key::Char('b'),
        Key::Home,
        Key::Delete,
        Key::End,
        Key::Right,
    ] {
        key(&mut browser, k);
    }
    let e = browser.editor.as_ref().unwrap();
    assert_eq!((e.text.clone(), e.cursor), (vec!['b', 'c'], 2));
    assert_eq!(browser.submit(), Effect::Nothing);
    assert_eq!(
        browser.message,
        "Jev search is unavailable in offline mode; Tab selects exact text"
    );
    for budget in [64, 4, 16] {
        browser.input(Input::Key {
            key: Key::Char('b'),
            control: true,
            alt: false,
            released: false,
        });
        assert_eq!(browser.search_budget, budget);
    }
    browser.input(Input::Key {
        key: Key::Char('u'),
        control: true,
        alt: false,
        released: false,
    });
    assert!(browser.editor.as_ref().unwrap().text.is_empty());
    assert_eq!(browser.submit(), Effect::Nothing);
    assert!(browser.message.contains("between 1 and 500"));
    key(&mut browser, Key::Esc);
    assert_eq!(browser.tab, 0);
}

#[test]
fn running_searches_are_stopped_before_another() {
    let mut browser = Browser::new(Some(usage()));
    key(&mut browser, Key::Char('5'));
    key(&mut browser, Key::Char('x'));
    let (_, effect) = browser.input(Input::Key {
        key: Key::Enter,
        control: false,
        alt: false,
        released: false,
    });
    assert_eq!(effect, Effect::Search);
    key(&mut browser, Key::Char('/'));
    assert!(browser.editor.is_none());
    assert_eq!(
        browser.message,
        "Search is running; press x to stop it before asking again"
    );
    let (on, effect) = browser.input(Input::Key {
        key: Key::Char('x'),
        control: false,
        alt: false,
        released: false,
    });
    assert_eq!((on, effect), (true, Effect::Stop));
}

#[test]
fn wide_characters_wrap_by_cells() {
    assert_eq!(wrap_cells("", 4), [""]);
    assert_eq!(wrap_cells("abcdef", 4), ["abcd", "ef"]);
    assert_eq!(wrap_cells("a界b", 2), ["a", "界", "b"]);
    assert_eq!(wrap_cells("界", 0), ["界"]);
    assert_eq!(
        write_status(&jevernetes::report::Metrics::default()),
        "streams 0 | queue 0 (peak 0) | dropped 0 | gaps 0"
    );
}

#[test]
fn no_width_is_too_large() {
    assert_eq!(wrap_cells("ab\u{754c}", usize::MAX), ["ab\u{754c}"]);
    assert_eq!(wrap_cells("abc", 70_000), ["abc"]);
}
