//! What a check reports when a newer version exists, and how it reads.

use vstd::prelude::*;

verus! {

/// A newer version of a package than the one running.
#[derive(Debug)]
pub struct UpdateResult {
    /// Name of the package.
    pub crate_name: String,
    /// The version in use.
    pub running_version: String,
    /// The newer version that the registry offers.
    pub available_version: String,
    /// When the newer version was published, in seconds since the Unix epoch.
    pub release_date: Option<i64>,
}

/// The plain value of an `UpdateResult`.
pub struct OutcomeView {
    pub crate_name: Seq<char>,
    pub running_version: Seq<char>,
    pub available_version: Seq<char>,
    pub release_date: Option<i64>,
}

impl View for UpdateResult {
    type V = OutcomeView;

    open spec fn view(&self) -> OutcomeView {
        OutcomeView {
            crate_name: self.crate_name@,
            running_version: self.running_version@,
            available_version: self.available_version@,
            release_date: self.release_date,
        }
    }
}

/// The plain value of an optional outcome.
pub open spec fn outcome_view(o: Option<UpdateResult>) -> Option<OutcomeView> {
    match o {
        Some(r) => Some(r@),
        None => None,
    }
}

/// The Unix time, in seconds, of an RFC 3339 timestamp, or `None` where the
/// text is not one.
pub uninterp spec fn rfc3339_seconds(s: Seq<char>) -> Option<i64>;

/// Relies on `chrono::DateTime::parse_from_rfc3339` (an error where the text
/// is not an RFC 3339 timestamp) and `DateTime::timestamp` (whole seconds
/// since the Unix epoch): the result depends on the text alone.
#[verifier::external_body]
fn parse_rfc3339(s: &str) -> (r: Option<i64>)
    ensures
        r == rfc3339_seconds(s@),
{
    chrono::DateTime::parse_from_rfc3339(s).ok().map(|d| d.timestamp())
}

/// The release time of an optional RFC 3339 timestamp: absent where there is
/// none or where it does not parse.
pub open spec fn release_seconds(release_date: Option<Seq<char>>) -> Option<i64> {
    match release_date {
        Some(d) => rfc3339_seconds(d),
        None => None,
    }
}

/// The text that an outcome reads as, given the rendered release time.
pub open spec fn message(o: OutcomeView, released: Seq<char>) -> Seq<char> {
    "Version "@ + o.running_version + " of "@ + o.crate_name + " is outdated. Version "@
        + o.available_version + " "@ + if o.release_date is Some {
        "was released "@ + released + "."@
    } else {
        "is available."@
    }
}

impl UpdateResult {
    /// An outcome for `package`, from `running` to `available`; the release
    /// time is parsed from an RFC 3339 timestamp, and is absent where that
    /// does not parse.
    pub fn new(package: String, running: String, available: String, release_date: Option<String>) -> (r: Self)
        ensures
            r.crate_name@ == package@,
            r.running_version@ == running@,
            r.available_version@ == available@,
            r.release_date == release_seconds(
                match release_date {
                    Some(d) => Some(d@),
                    None => None,
                },
            ),
    {
        let parsed = match release_date {
            Some(d) => parse_rfc3339(d.as_str()),
            None => None,
        };
        UpdateResult {
            crate_name: package,
            running_version: running,
            available_version: available,
            release_date: parsed,
        }
    }

    /// A copy of this outcome.
    pub fn duplicate(&self) -> (r: Self)
        ensures
            r@ == self@,
    {
        UpdateResult {
            crate_name: self.crate_name.clone(),
            running_version: self.running_version.clone(),
            available_version: self.available_version.clone(),
            release_date: self.release_date,
        }
    }

    /// The line that tells a user of this outcome. `released` is the
    /// rendered release time; it is used only where the release time is
    /// known.
    pub fn describe(&self, released: &str) -> (r: String)
        ensures
            r@ == message(self@, released@),
    {
        let mut out = String::from_str("Version ");
        out.append(self.running_version.as_str());
        out.append(" of ");
        out.append(self.crate_name.as_str());
        out.append(" is outdated. Version ");
        out.append(self.available_version.as_str());
        out.append(" ");
        match self.release_date {
            Some(_) => {
                out.append("was released ");
                out.append(released);
                out.append(".");
            },
            None => {
                out.append("is available.");
            },
        }
        out
    }
}

/// A copy of an optional outcome.
pub fn duplicate_outcome(o: &Option<UpdateResult>) -> (r: Option<UpdateResult>)
    ensures
        outcome_view(r) == outcome_view(*o),
{
    match o {
        Some(u) => Some(u.duplicate()),
        None => None,
    }
}

/// Seconds in a day.
pub const SECS_PER_DAY: u64 = 86400;

/// Up to this many whole days in the past, a release time reads as a
/// relative time; beyond it, as a calendar date.
pub const RECENT_DAYS: u64 = 7;

/// How a release time reads, from the seconds elapsed since it.
#[derive(Debug, Clone, Copy, PartialEq, Eq)]
pub enum DateStyle {
    /// As a calendar date and time.
    Calendar,
    /// As a time this many seconds ahead.
    Ahead(u64),
    /// As a time this many seconds ago.
    Ago(u64),
}

/// The absolute value of `e`.
pub open spec fn magnitude(e: int) -> int {
    if e >= 0 {
        e
    } else {
        -e
    }
}

/// Whole days in `e` seconds, rounded toward zero.
pub open spec fn whole_days(e: int) -> int {
    if e >= 0 {
        e / SECS_PER_DAY as int
    } else {
        -(magnitude(e) / SECS_PER_DAY as int)
    }
}

/// How a release time `elapsed` seconds in the past reads.
pub open spec fn style_of(elapsed: int) -> DateStyle {
    if whole_days(elapsed) > RECENT_DAYS as int {
        DateStyle::Calendar
    } else if whole_days(elapsed) < 0 {
        DateStyle::Ahead(magnitude(elapsed) as u64)
    } else if elapsed < 0 {
        DateStyle::Ago(0)
    } else {
        DateStyle::Ago(elapsed as u64)
    }
}

/// How a release time reads, given the seconds elapsed since it (negative
/// where it lies in the future): more than a week of whole days back, as a
/// date; a whole day or more ahead, as a time ahead; otherwise as a time ago,
/// never less than zero.
pub fn date_style(elapsed: i64) -> (r: DateStyle)
    ensures
        r == style_of(elapsed as int),
{
    let mag: u64 = if elapsed >= 0 {
        elapsed as u64
    } else {
        ((-(elapsed + 1)) as u64) + 1
    };
    let days: u64 = mag / SECS_PER_DAY;
    if elapsed >= 0 && days > RECENT_DAYS {
        DateStyle::Calendar
    } else if elapsed < 0 && days > 0 {
        DateStyle::Ahead(mag)
    } else if elapsed < 0 {
        DateStyle::Ago(0)
    } else {
        DateStyle::Ago(mag)
    }
}

} // verus!
