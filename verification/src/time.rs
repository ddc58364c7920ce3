//! Points in time.
use vstd::prelude::*;
use vstd::string::*;

verus! {

/// The text that `chrono` renders for the time `seconds` after the epoch plus
/// `nanos`, if it knows such a time.
pub uninterp spec fn rfc3339_chars(seconds: i64, nanos: u32) -> Option<Seq<char>>;

/// The time that `chrono` reads from a text, as seconds after the epoch and
/// nanoseconds, if it reads one.
pub uninterp spec fn parsed_time(text: Seq<char>) -> Option<(i64, u32)>;

/// Renders a time with `chrono::DateTime::to_rfc3339`, in UTC. The result
/// depends on the time alone; there is none where
/// `chrono::DateTime::from_timestamp` knows no such time.
#[verifier::external_body]
fn render_time(seconds: i64, nanos: u32) -> (text: Option<String>)
    ensures
        crate::text::opt_text(text) == rfc3339_chars(seconds, nanos),
{
    chrono::DateTime::from_timestamp(seconds, nanos).map(|time| time.to_rfc3339())
}

/// Reads a time with `chrono::DateTime::parse_from_rfc3339`. The result
/// depends on the text alone, and what is read can be rendered.
#[verifier::external_body]
fn read_time(text: &str) -> (time: Option<(i64, u32)>)
    ensures
        time == parsed_time(text@),
        time matches Some(found) ==> rfc3339_chars(found.0, found.1) is Some,
{
    chrono::DateTime::parse_from_rfc3339(text)
        .ok()
        .map(|time| (time.timestamp(), time.timestamp_subsec_nanos()))
}

/// A point in time that can be rendered.
#[derive(Clone, Copy, Debug, PartialEq, Eq, Structural)]
pub struct Timestamp {
    seconds: i64,
    nanos: u32,
}

impl Timestamp {
    #[verifier::type_invariant]
    closed spec fn can_be_rendered(self) -> bool {
        rfc3339_chars(self.seconds, self.nanos) is Some
    }

    /// Whole seconds after the epoch.
    pub closed spec fn secs(self) -> i64 {
        self.seconds
    }

    /// Nanoseconds on top of the whole seconds.
    pub closed spec fn subsec_nanos(self) -> u32 {
        self.nanos
    }

    /// How the time reads.
    pub open spec fn chars(self) -> Seq<char> {
        rfc3339_chars(self.secs(), self.subsec_nanos())->0
    }

    /// The time so many seconds and nanoseconds after the epoch, if it can be
    /// rendered.
    pub fn new(seconds: i64, nanos: u32) -> (time: Option<Timestamp>)
        ensures
            time is Some <==> rfc3339_chars(seconds, nanos) is Some,
            time matches Some(found) ==> found.secs() == seconds && found.subsec_nanos() == nanos,
    {
        match render_time(seconds, nanos) {
            Some(_) => Some(Timestamp { seconds, nanos }),
            None => None,
        }
    }

    /// Renders the time in UTC.
    pub fn to_rfc3339(&self) -> (text: String)
        ensures
            text@ == self.chars(),
    {
        proof {
            use_type_invariant(self);
        }
        match render_time(self.seconds, self.nanos) {
            Some(text) => text,
            None => String::new(),
        }
    }
}

/// Reads a time.
pub fn parse_time(value: &str) -> (time: Option<Timestamp>)
    ensures
        match parsed_time(value@) {
            Some(found) => time matches Some(read) && read.secs() == found.0 && read.subsec_nanos()
                == found.1,
            None => time is None,
        },
{
    match read_time(value) {
        Some((seconds, nanos)) => Some(Timestamp { seconds, nanos }),
        None => None,
    }
}

/// The rendered form of an optional time.
pub open spec fn opt_time_chars(time: Option<Timestamp>) -> Option<Seq<char>> {
    match time {
        Some(found) => Some(found.chars()),
        None => None,
    }
}

/// Renders an optional time.
pub fn opt_time_text(time: &Option<Timestamp>) -> (text: Option<String>)
    ensures
        crate::text::opt_text(text) == opt_time_chars(*time),
{
    match time {
        Some(found) => Some(found.to_rfc3339()),
        None => None,
    }
}

} // verus!
