//! A moment in time and its text under a pattern, written by chrono.
//!
//! The library reads no clock. Whoever renders a message says when it is.

use vstd::prelude::*;

verus! {

/// A moment as a clock reads it.
#[derive(Clone, Copy, Debug, PartialEq, Eq, Structural)]
pub struct Moment {
    /// Whole seconds since 1970-01-01 00:00:00 UTC, leap seconds not
    /// counted.
    pub seconds: i64,
    /// The nanoseconds past the whole second.
    pub nanoseconds: u32,
    /// The seconds that local time is ahead of UTC at this moment.
    pub offset: i32,
}

/// The text that chrono writes for a moment under a `strftime` pattern;
/// `None` where it writes none.
pub uninterp spec fn chrono_text(
    seconds: int,
    nanoseconds: int,
    offset: int,
    pattern: Seq<char>,
) -> Option<Seq<char>>;

/// A text that is there or not, over plain characters.
pub open spec fn text_of(text: Option<String>) -> Option<Seq<char>> {
    match text {
        Some(text) => Some(text@),
        None => None,
    }
}

/// `chrono::DateTime::from_timestamp`, `FixedOffset::east_opt`,
/// `DateTime::with_timezone`, `DateTime::format` and
/// `DelayedFormat::write_to`, one after the other.
///
/// The result is what chrono makes of the four values, and of nothing
/// else: it reads neither a clock nor the time zone of the machine. `None`
/// stands for a moment outside chrono's range, an offset of a day or more,
/// or a pattern under which chrono refuses to write.
#[verifier::external_body]
pub(crate) fn moment_text(now: &Moment, pattern: &str) -> (r: Option<String>)
    ensures
        text_of(r) == chrono_text(
            now.seconds as int,
            now.nanoseconds as int,
            now.offset as int,
            pattern@,
        ),
{
    let utc = chrono::DateTime::from_timestamp(now.seconds, now.nanoseconds)?;
    let zone = chrono::FixedOffset::east_opt(now.offset)?;
    let mut out = String::new();
    match utc.with_timezone(&zone).format(pattern).write_to(&mut out) {
        Ok(()) => Some(out),
        Err(_) => None,
    }
}

} // verus!
