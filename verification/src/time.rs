//! Instants as plain integers, and spans of time in words.

use vstd::prelude::*;

verus! {

/// Nanoseconds in one second.
pub const NANOS_PER_SECOND: i64 = 1_000_000_000;

/// The earliest instant a `Timestamp` can hold, in nanoseconds from the epoch.
pub const EARLIEST_NANOS: i128 = -9_223_372_036_854_775_808_000_000_000;

/// The latest instant a `Timestamp` can hold, in nanoseconds from the epoch.
pub const LATEST_NANOS: i128 = 9_223_372_036_854_775_807_000_000_000 + 4_294_967_295;

/// A UTC instant: whole seconds from 1970-01-01T00:00:00Z, and nanoseconds
/// on top of them. Every pair is an instant; the nanoseconds need not stay
/// below one second.
#[derive(Clone, Copy, Debug, PartialEq, Eq, Structural)]
pub struct Timestamp {
    pub secs: i64,
    pub nanos: u32,
}

impl Timestamp {
    /// The instant in nanoseconds from the epoch, as a mathematical integer.
    pub open spec fn value(self) -> int {
        self.secs * 1_000_000_000 + self.nanos
    }

    /// The instant `nanos` nanoseconds after the epoch.
    pub fn from_nanos(nanos: i64) -> (t: Timestamp)
        ensures
            t.value() == nanos,
            t.nanos < 1_000_000_000,
    {
        let q: i64 = nanos / NANOS_PER_SECOND;
        let r: i64 = nanos % NANOS_PER_SECOND;
        if r < 0 {
            Timestamp { secs: q - 1, nanos: (r + NANOS_PER_SECOND) as u32 }
        } else {
            Timestamp { secs: q, nanos: r as u32 }
        }
    }

    /// The instant `nanos` nanoseconds after the second `secs` of the epoch.
    pub fn from_unix(secs: i64, nanos: u32) -> (t: Timestamp)
        ensures
            t.secs == secs,
            t.nanos == nanos,
    {
        Timestamp { secs, nanos }
    }

    /// The instant in nanoseconds from the epoch.
    pub fn to_nanos(self) -> (nanos: i128)
        ensures
            nanos == self.value(),
            EARLIEST_NANOS <= nanos <= LATEST_NANOS,
    {
        self.secs as i128 * 1_000_000_000 + self.nanos as i128
    }
}

/// The character of the decimal digit `d`.
pub open spec fn digit_char(d: nat) -> char {
    (48 + d) as u8 as char
}

/// The decimal digits of `n`, without leading zeros.
pub open spec fn decimal(n: nat) -> Seq<char>
    decreases n,
{
    if n < 10 {
        seq![digit_char(n)]
    } else {
        decimal(n / 10).push(digit_char(n % 10))
    }
}

/// The decimal digits of `n`, with a leading zero where there is one digit.
pub open spec fn two_digits(n: nat) -> Seq<char> {
    if n < 10 {
        seq!['0', digit_char(n)]
    } else {
        decimal(n)
    }
}

/// Hours, minutes and seconds as `HH:MM:SS`, the hours with as many digits as
/// they need.
pub open spec fn clock_text(hours: nat, minutes: nat, seconds: nat) -> Seq<char> {
    two_digits(hours) + seq![':'] + two_digits(minutes) + seq![':'] + two_digits(seconds)
}

/// The whole seconds of a span of `nanos` nanoseconds; none for a negative
/// span.
pub open spec fn span_seconds(nanos: int) -> nat {
    if nanos < 0 {
        0
    } else {
        (nanos / NANOS_PER_SECOND as int) as nat
    }
}

/// `format!` with three numbers in decimal, each padded with zeros to at
/// least two digits, and colons between them.
#[verifier::external_body]
pub(crate) fn clock_string(hours: u128, minutes: u128, seconds: u128) -> (text: String)
    ensures
        text@ == clock_text(hours as nat, minutes as nat, seconds as nat),
{
    format!("{hours:02}:{minutes:02}:{seconds:02}")
}

/// A span of `nanos` nanoseconds as `HH:MM:SS`. Fractions of a second are
/// dropped, and a negative span reads as zero.
pub fn format_duration(nanos: i128) -> (text: String)
    ensures
        text@ == clock_text(
            span_seconds(nanos as int) / 3600,
            (span_seconds(nanos as int) % 3600) / 60,
            span_seconds(nanos as int) % 60,
        ),
{
    let total_seconds: u128 = if nanos < 0 {
        0
    } else {
        (nanos / 1_000_000_000) as u128
    };
    let hours: u128 = total_seconds / 3600;
    let minutes: u128 = (total_seconds % 3600) / 60;
    let seconds: u128 = total_seconds % 60;
    clock_string(hours, minutes, seconds)
}

} // verus!
