//! Points in time: those that a text states, and the present.
use vstd::prelude::*;

verus! {

/// A point in time: the seconds since the start of 1970 in UTC, the nanoseconds beyond them, and
/// its text.
pub struct Moment {
    pub seconds: i64,
    pub nanos: u32,
    pub text: String,
}

#[verifier::ext_equal]
pub struct MomentView {
    pub seconds: i64,
    pub nanos: u32,
    pub text: Seq<char>,
}

impl Moment {
    pub open spec fn view(&self) -> MomentView {
        MomentView { seconds: self.seconds, nanos: self.nanos, text: self.text@ }
    }
}

impl MomentView {
    /// Whether the moment lies before another.
    pub open spec fn earlier(self, other: MomentView) -> bool {
        self.seconds < other.seconds || self.seconds == other.seconds && self.nanos < other.nanos
    }
}

impl Moment {
    pub fn is_earlier(&self, other: &Moment) -> (r: bool)
        ensures
            r == self@.earlier(other@),
    {
        self.seconds < other.seconds || self.seconds == other.seconds && self.nanos < other.nanos
    }
}

/// What `DateTime::parse_from_rfc3339` makes of a text, its text again by `DateTime::to_rfc3339`.
pub uninterp spec fn stated_moment(text: Seq<char>) -> Option<MomentView>;

/// Calls `chrono::DateTime::parse_from_rfc3339`: the moment that a text states, or nothing where it
/// states none in that form. The parts are those of `timestamp`, `timestamp_subsec_nanos` and
/// `to_rfc3339`.
#[verifier::external_body]
pub(crate) fn read_moment(text: &str) -> (r: Option<Moment>)
    ensures
        match r {
            Some(m) => stated_moment(text@) == Some(m@),
            None => stated_moment(text@) is None,
        },
{
    let stated = chrono::DateTime::parse_from_rfc3339(text).ok()?;
    Some(Moment { seconds: stated.timestamp(), nanos: stated.timestamp_subsec_nanos(), text: stated.to_rfc3339() })
}

/// Calls `std::time::SystemTime::now`: the whole seconds since the start of 1970 in UTC, or none
/// where the clock stands before that. Nothing is promised of the machine's clock.
#[verifier::external_body]
pub(crate) fn clock_seconds() -> (r: u64) {
    std::time::SystemTime::now().duration_since(std::time::UNIX_EPOCH).unwrap_or_default().as_secs()
}

/// Calls `chrono::Utc::now` and writes the result by `DateTime::to_rfc3339`. Nothing is promised of
/// the machine's clock.
#[verifier::external_body]
pub(crate) fn clock_text() -> (r: String) {
    chrono::Utc::now().to_rfc3339()
}

}
