//! Who wrote a patch, and when.

use vstd::prelude::*;

verus! {

/// A point in time, with the time zone it was noted in.
#[derive(Clone, Copy, Debug, PartialEq, Eq, Structural)]
pub struct Timestamp {
    /// Seconds since the epoch.
    pub seconds: i64,
    /// Minutes east of Greenwich.
    pub offset_minutes: i32,
}

/// The time that chrono reads from `text` as a date of a mail, in seconds
/// since the epoch and seconds east of Greenwich; `None` where chrono does
/// not take `text` for such a date.
pub uninterp spec fn rfc2822_time(text: Seq<char>) -> Option<(i64, i32)>;

/// The time that chrono reads from `text` under the format `format`, in
/// seconds since the epoch and seconds east of Greenwich; `None` where
/// chrono does not find `text` to be of that format.
pub uninterp spec fn formatted_time(text: Seq<char>, format: Seq<char>) -> Option<(i64, i32)>;

/// Reads the date of a mail with chrono: `DateTime::parse_from_rfc2822`,
/// of whose answer `DateTime::timestamp` gives the seconds and the offset's
/// `local_minus_utc` the zone. The answer depends on the text alone;
/// nothing more is claimed of it.
#[verifier::external_body]
fn parse_rfc2822(text: &str) -> (r: Option<(i64, i32)>)
    ensures
        r == rfc2822_time(text@),
{
    match chrono::DateTime::parse_from_rfc2822(text) {
        Ok(t) => Some((t.timestamp(), t.offset().local_minus_utc())),
        Err(_) => None,
    }
}

/// Reads a date of a given format with chrono: `DateTime::parse_from_str`,
/// of whose answer `DateTime::timestamp` gives the seconds and the offset's
/// `local_minus_utc` the zone. The answer depends on the text and the
/// format alone; nothing more is claimed of it.
#[verifier::external_body]
fn parse_formatted(text: &str, format: &str) -> (r: Option<(i64, i32)>)
    ensures
        r == formatted_time(text@, format@),
{
    match chrono::DateTime::parse_from_str(text, format) {
        Ok(t) => Some((t.timestamp(), t.offset().local_minus_utc())),
        Err(_) => None,
    }
}

/// The point in time that is `t.0` seconds after the epoch, noted in a
/// zone `t.1` seconds east of Greenwich. Minutes of the zone are whole:
/// what is left of a minute is dropped, towards Greenwich.
pub open spec fn stamp_of(t: (i64, i32)) -> Timestamp {
    Timestamp {
        seconds: t.0,
        offset_minutes: if t.1 >= 0 {
            (t.1 / 60) as i32
        } else {
            (-((-t.1) / 60)) as i32
        },
    }
}

/// The time that a date names: read as the date of a mail, or else as
/// `YYYY-MM-DD HH:MM:SS +HHMM`, or else as git writes dates, such as
/// `Thu Apr 7 15:13:13 2005 -0700`. `None` where it is none of these.
pub open spec fn time_of(text: Seq<char>) -> Option<Timestamp> {
    match rfc2822_time(text) {
        Some(t) => Some(stamp_of(t)),
        None => match formatted_time(text, "%Y-%m-%d %H:%M:%S %z"@) {
            Some(t) => Some(stamp_of(t)),
            None => match formatted_time(text, "%a %b %e %H:%M:%S %Y %z"@) {
                Some(t) => Some(stamp_of(t)),
                None => None,
            },
        },
    }
}

/// The point in time that is `t.0` seconds after the epoch, noted in a
/// zone `t.1` seconds east of Greenwich.
pub fn stamp(t: (i64, i32)) -> (r: Timestamp)
    ensures
        r == stamp_of(t),
{
    let offset_minutes: i32 = if t.1 >= 0 {
        t.1 / 60
    } else if t.1 == i32::MIN {
        -35791394
    } else {
        -((-t.1) / 60)
    };
    Timestamp { seconds: t.0, offset_minutes }
}

/// Reads the time that a date names.
pub fn parse_time(text: &str) -> (r: Option<Timestamp>)
    ensures
        r == time_of(text@),
{
    match parse_rfc2822(text) {
        Some(t) => Some(stamp(t)),
        None => match parse_formatted(text, "%Y-%m-%d %H:%M:%S %z") {
            Some(t) => Some(stamp(t)),
            None => match parse_formatted(text, "%a %b %e %H:%M:%S %Y %z") {
                Some(t) => Some(stamp(t)),
                None => None,
            },
        },
    }
}

/// Who wrote a patch, and when.
#[derive(Debug, PartialEq, Eq)]
pub struct Author {
    pub name: String,
    pub email: String,
    pub time: Timestamp,
}

/// What an author stands for.
pub struct AuthorView {
    pub name: Seq<char>,
    pub email: Seq<char>,
    pub time: Timestamp,
}

impl View for Author {
    type V = AuthorView;

    open spec fn view(&self) -> AuthorView {
        AuthorView { name: self.name@, email: self.email@, time: self.time }
    }
}

/// The author of a patch: name, address and date as the headers give them,
/// and each that they do not give from the default. A date that could not
/// be read counts as not given.
pub fn reconstruct_author(
    name: Option<String>,
    email: Option<String>,
    date: Option<Timestamp>,
    default_author: &Author,
) -> (r: Author)
    ensures
        r.name@ == match name {
            Some(n) => n@,
            None => default_author.name@,
        },
        r.email@ == match email {
            Some(e) => e@,
            None => default_author.email@,
        },
        r.time == match date {
            Some(t) => t,
            None => default_author.time,
        },
{
    Author {
        name: match name {
            Some(n) => n,
            None => default_author.name.clone(),
        },
        email: match email {
            Some(e) => e,
            None => default_author.email.clone(),
        },
        time: match date {
            Some(t) => t,
            None => default_author.time,
        },
    }
}

} // verus!
