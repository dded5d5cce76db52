//! What cleaning does to evidence: credentials go, everything else stays in its place.
use vstd::prelude::*;

use crate::events;
use crate::json;
use crate::json::JsonView;
use crate::pattern;
use crate::text;

verus! {

/// Whether a text went through the four expressions for credentials, one after the other: headers,
/// addresses, tokens and assignments.
pub open spec fn free_of_credentials(t: Seq<char>, out: Seq<char>) -> bool {
    exists|a: Seq<char>, b: Seq<char>, c: Seq<char>|
        #![trigger went_through(t, a, b, c, out)]
        went_through(t, a, b, c, out)
}

pub open spec fn went_through(
    t: Seq<char>,
    headers: Seq<char>,
    addresses: Seq<char>,
    tokens: Seq<char>,
    out: Seq<char>,
) -> bool {
    &&& headers == pattern::replaced(pattern::AUTH@, t, "$1 [REDACTED]"@)
    &&& addresses == pattern::replaced(pattern::URL@, headers, "$1[REDACTED]@"@)
    &&& tokens == pattern::replaced(pattern::JWT@, addresses, "[REDACTED]"@)
    &&& out == pattern::replaced(pattern::SECRET@, tokens, "${1}\"[REDACTED]\""@)
}

/// Whether one value is another one that was cleaned: objects have the same fields in the same
/// order and lists the same length, a field whose name stands for a credential holds the mark of
/// redaction, texts went through the expressions, and every other value is the same.
pub open spec fn cleaned_from(v: JsonView, w: JsonView) -> bool
    decreases v,
{
    match v {
        JsonView::Object(f) => match w {
            JsonView::Object(g) => f.len() == g.len() && forall|i: int|
                #![trigger f[i]]
                #![trigger g[i]]
                0 <= i < f.len() ==> f[i].0 == g[i].0 && if pattern::matched(
                    pattern::FIELD@,
                    f[i].0,
                ) {
                    g[i].1 == JsonView::Text("[REDACTED]"@)
                } else {
                    cleaned_from(f[i].1, g[i].1)
                },
            _ => false,
        },
        JsonView::List(a) => match w {
            JsonView::List(b) => a.len() == b.len() && forall|i: int|
                #![trigger a[i]]
                #![trigger b[i]]
                0 <= i < a.len() ==> cleaned_from(a[i], b[i]),
            _ => false,
        },
        JsonView::Text(t) => match w {
            JsonView::Text(u) => free_of_credentials(t, u),
            _ => false,
        },
        _ => w == v,
    }
}

/// Cleaning touches nothing but credentials: what was cleaned has the shape that it had.
pub proof fn cleaning_keeps_the_shape(v: JsonView)
    ensures
        cleaned_from(v, events::cleaned(v)),
    decreases v,
{
    match v {
        JsonView::Object(f) => {
            let g = events::cleaned(v)->Object_0;
            assert forall|i: int| 0 <= i < f.len() && !pattern::matched(
                pattern::FIELD@,
                (#[trigger] f[i]).0,
            ) implies cleaned_from(f[i].1, g[i].1) by {
                cleaning_keeps_the_shape(f[i].1);
            }
        },
        JsonView::List(a) => {
            let b = events::cleaned(v)->List_0;
            assert forall|i: int| 0 <= i < a.len() implies cleaned_from(#[trigger] a[i], b[i]) by {
                cleaning_keeps_the_shape(a[i]);
            }
        },
        JsonView::Text(t) => {
            texts_are_scrubbed(t);
        },
        _ => {},
    }
}

proof fn texts_are_scrubbed(t: Seq<char>)
    ensures
        free_of_credentials(t, events::scrubbed(t)),
{
    let a = pattern::replaced(pattern::AUTH@, t, "$1 [REDACTED]"@);
    let b = pattern::replaced(pattern::URL@, a, "$1[REDACTED]@"@);
    let c = pattern::replaced(pattern::JWT@, b, "[REDACTED]"@);
    assert(went_through(t, a, b, c, events::scrubbed(t)));
}

/// A text without its control sequences: itself where it has no escape character.
pub open spec fn without_sequences(t: Seq<char>) -> Seq<char> {
    if exists|i: int| 0 <= i < t.len() && #[trigger] t[i] == '\u{1b}' {
        pattern::replaced(pattern::ANSI@, t, ""@)
    } else {
        t
    }
}

/// What is kept of a text: without its control sequences it is JSON and is written again with its
/// value cleaned, or it is none and goes through the expressions for credentials.
pub proof fn texts_are_cleaned_before_they_are_kept(t: Seq<char>)
    ensures
        match json::parsed_text(without_sequences(t)) {
            Some(v) => exists|w: JsonView| #[trigger]
                cleaned_from(v, w) && events::redacted(t) == json::json_text(w),
            None => free_of_credentials(without_sequences(t), events::redacted(t)),
        },
{
    let plain = without_sequences(t);
    if t.contains('\u{1b}') {
        let i = choose|i: int| 0 <= i < t.len() && t[i] == '\u{1b}';
        assert(t[i] == '\u{1b}');
    }
    assert(plain == events::stripped(t));
    match json::parsed_text(plain) {
        Some(v) => {
            cleaning_keeps_the_shape(v);
            assert(cleaned_from(v, events::cleaned(v)));
        },
        None => {
            texts_are_scrubbed(plain);
        },
    }
}

/// What is shown of a text on a terminal: without its control sequences, each character stands in
/// its place, and a space where it is a control character.
pub proof fn shown_texts_keep_their_characters(t: Seq<char>, i: int)
    requires
        0 <= i < without_sequences(t).len(),
    ensures
        events::printable(t).len() == without_sequences(t).len(),
        events::printable(t)[i] == if text::control(without_sequences(t)[i]) {
            ' '
        } else {
            without_sequences(t)[i]
        },
{
    if t.contains('\u{1b}') {
        let i = choose|i: int| 0 <= i < t.len() && t[i] == '\u{1b}';
        assert(t[i] == '\u{1b}');
    }
    assert(without_sequences(t) == events::stripped(t));
}

/// Control characters are those below a space and those from the delete character to the end of
/// the second block of them.
pub proof fn control_characters_are_two_blocks(c: char)
    ensures
        text::control(c) <==> (c as int) < 32 || 127 <= (c as int) < 160,
{
}

/// Each local rule speaks under its own name and where its expression matches, and a text is
/// important to them where any of them speaks. They speak in a fixed order.
pub proof fn rules_speak_where_they_match(t: Seq<char>)
    ensures
        ({
            let b = events::baseline_of(t);
            let failure = pattern::matched(pattern::FAILURE@, t);
            let server = pattern::matched(pattern::SERVER_ERROR@, t);
            let warning = pattern::matched(pattern::WARNING@, t);
            &&& b.important <==> failure || server || warning
            &&& b.signals.len() == spoken(failure) + spoken(server) + spoken(warning)
            &&& failure ==> b.signals[0] == "error_or_failure_keyword"@
            &&& server ==> b.signals[spoken(failure)] == "http_5xx"@
            &&& warning ==> b.signals[spoken(failure) + spoken(server)] == "warning_level"@
        }),
{
}

/// One where a rule speaks.
pub open spec fn spoken(x: bool) -> int {
    if x {
        1
    } else {
        0
    }
}

}
