//! Text for the screens.

use vstd::prelude::*;
use crate::text::{join, joined, texts};
use crate::time::Timestamp;

verus! {

/// The tags, separated by a comma and a space; nothing where there are
/// none.
pub fn format_tags(tags: &Vec<String>) -> (text: String)
    ensures
        text@ == joined(texts(tags@), ", "@),
{
    join(tags, ", ")
}

/// The date and the minute of `dt` in the time zone of this machine, as
/// `chrono` formats them with `%Y-%m-%d %H:%M`; nothing where `chrono` has
/// no date for `dt`. Nothing is claimed of the text: it depends on the
/// machine's time zone.
#[verifier::external_body]
pub fn format_datetime(dt: Timestamp) -> (text: String) {
    match chrono::DateTime::from_timestamp(dt.secs, dt.nanos) {
        Some(utc) => chrono::DateTime::<chrono::Local>::from(utc).format(
            "%Y-%m-%d %H:%M",
        ).to_string(),
        None => String::new(),
    }
}

/// The date and the minute of `dt` in the time zone of this machine, or
/// `fallback` where there is no `dt`.
pub fn format_datetime_opt(dt: Option<Timestamp>, fallback: &str) -> (text: String)
    ensures
        dt is None ==> text@ == fallback@,
{
    match dt {
        Some(t) => format_datetime(t),
        None => fallback.to_owned(),
    }
}

} // verus!
