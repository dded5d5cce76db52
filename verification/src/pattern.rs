//! The regular expressions of the crate, and what the `regex` crate does with them.
use vstd::prelude::*;

verus! {

/// Terminal control sequences.
pub const ANSI: &'static str = r"\x1b(?:\[[0-?]*[ -/]*[@-~]|\][^\x07\x1b]*(?:\x07|\x1b\\))";

/// A date and time at the start of a line.
pub const STAMP: &'static str = r"^\d{4}-\d\d-\d\d[T ][\d:.]+(?:Z|[+-]\d\d:\d\d)?[ \t]";

/// The start of a line that goes on with the event before it.
pub const CONTINUATION: &'static str = r"^(?:\s+\S|Caused by:|Suppressed:|Traceback |[\w.]+(?:Error|Exception):|\s*\.\.\. \d+ more)";

/// A field name that stands for a credential.
pub const FIELD: &'static str = r"(?i)(password|passwd|secret|token|authorization|cookie|api[-_]?key|access[-_]?key(?:[-_]?id)?|private[-_]?key|credential)";

/// A credential assigned to a name.
pub const SECRET: &'static str = r#"(?ix)(["']?(?:password|passwd|secret|(?:access_|refresh_)?token|api[-_]?key|access[-_]?key(?:[-_]?id)?|private[-_]?key|authorization|cookie|credentials?)["']?\s*[:=]\s*)("(?:\\.|[^"\\\n])*"|'(?:\\.|[^'\\\n])*'|[^\s,;]+)"#;

/// An authorization scheme with its credential.
pub const AUTH: &'static str = r"(?i)\b(Bearer|Basic)\s+[A-Za-z0-9._~+/=-]+";

/// A URL with a user name and a password.
pub const URL: &'static str = r"(\b[a-zA-Z][a-zA-Z0-9+.-]{0,31}://)[^\s/@:]+:[^\s/@]+@";

/// A JSON web token.
pub const JWT: &'static str = r"\beyJ[A-Za-z0-9_-]+\.[A-Za-z0-9_-]+\.[A-Za-z0-9_-]+\b";

/// The first or last line of a private key.
pub const PEM: &'static str = r"-----(BEGIN|END) (?:[A-Z0-9]+ )*PRIVATE KEY-----";

/// Words of failure.
pub const FAILURE: &'static str = r"(?i)\b(error|fatal|panic|exception|critical|oomkilled|out of memory|crashloopbackoff)\b";

/// An HTTP status of the server-error class.
pub const SERVER_ERROR: &'static str = r#"(?i)(?:status["\s:=]+|HTTP/\d(?:\.\d)?["\s]+)5\d\d\b"#;

/// Words of warning.
pub const WARNING: &'static str = r"(?i)\b(warn|warning)\b";

/// The patterns above: each is a valid expression, so compiling it succeeds.
pub open spec fn known(pattern: Seq<char>) -> bool {
    ||| pattern == ANSI@
    ||| pattern == STAMP@
    ||| pattern == CONTINUATION@
    ||| pattern == FIELD@
    ||| pattern == SECRET@
    ||| pattern == AUTH@
    ||| pattern == URL@
    ||| pattern == JWT@
    ||| pattern == PEM@
    ||| pattern == FAILURE@
    ||| pattern == SERVER_ERROR@
    ||| pattern == WARNING@
}

/// The character that terminal control sequences begin with.
pub const ESCAPE: char = '\u{1b}';

/// `regex::Regex`, a compiled expression; nothing is known of it but its pattern, by `pattern_of`.
#[verifier::external_type_specification]
#[verifier::external_body]
pub struct ExRegex(regex::Regex);

/// The pattern that an expression was compiled from.
pub uninterp spec fn pattern_of(re: regex::Regex) -> Seq<char>;

/// What `Regex::replace_all` makes of a text.
pub uninterp spec fn replaced(pattern: Seq<char>, text: Seq<char>, by: Seq<char>) -> Seq<char>;

/// What `Regex::is_match` says of a text.
pub uninterp spec fn matched(pattern: Seq<char>, text: Seq<char>) -> bool;

/// What `Regex::find` finds in a text: the first match, and what stands behind it.
pub uninterp spec fn found(pattern: Seq<char>, text: Seq<char>) -> Option<(Seq<char>, Seq<char>)>;

/// What the first group holds in each match that `Regex::captures_iter` yields.
pub uninterp spec fn captured(pattern: Seq<char>, text: Seq<char>) -> Seq<Seq<char>>;

/// Calls `Regex::new`, on one of the patterns of this module, so that it cannot fail.
#[verifier::external_body]
pub(crate) fn rx(pattern: &str) -> (r: regex::Regex)
    requires
        known(pattern@),
    ensures
        pattern_of(r) == pattern@,
{
    regex::Regex::new(pattern).expect("constant regex")
}

/// Calls `Regex::replace_all`: every match in the text gives way to the replacement, in which
/// `$1` and `${1}` stand for the first group. A text without a match comes back as it is; every
/// match of `ANSI` begins with the escape character, so a text without one has none.
#[verifier::external_body]
pub(crate) fn replace_all(re: &regex::Regex, text: &str, by: &str) -> (r: String)
    ensures
        r@ == replaced(pattern_of(*re), text@, by@),
        pattern_of(*re) == ANSI@ && !text@.contains(ESCAPE) ==> r@ == text@,
{
    re.replace_all(text, by).into_owned()
}

/// Calls `Regex::is_match`: whether the text holds a match.
#[verifier::external_body]
pub(crate) fn is_match(re: &regex::Regex, text: &str) -> (r: bool)
    ensures
        r == matched(pattern_of(*re), text@),
{
    re.is_match(text)
}

/// Calls `Regex::find`: the text of the first match and the text behind it, which together end
/// the searched text.
#[verifier::external_body]
pub(crate) fn find(re: &regex::Regex, text: &str) -> (r: Option<(String, String)>)
    ensures
        match r {
            Some((m, rest)) => found(pattern_of(*re), text@) == Some((m@, rest@)) && (m@
                + rest@).is_suffix_of(text@),
            None => found(pattern_of(*re), text@) is None,
        },
{
    re.find(text).map(|m| (m.as_str().to_owned(), text[m.end()..].to_owned()))
}

/// Calls `Regex::captures_iter`: the text of the first group in each match, in order. Every
/// match of the patterns that it is used with has that group.
#[verifier::external_body]
pub(crate) fn first_groups(re: &regex::Regex, text: &str) -> (r: Vec<String>)
    requires
        pattern_of(*re) == PEM@,
    ensures
        crate::text::list_view(r@) == captured(pattern_of(*re), text@),
{
    re.captures_iter(text).map(|m| m[1].to_owned()).collect()
}

}
