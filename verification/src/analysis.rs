//! The result of analysing one track, and how its length is shown.
use vstd::prelude::*;

use crate::text::{decimal_text, push_char, push_decimal, push_two_digits, two_digit_text};

verus! {

/// A length of time: whole seconds and the nanoseconds past them
/// (`nanos` is below one billion, as in `std::time::Duration`).
#[derive(Debug, Clone, Copy, PartialEq, Eq, Structural)]
pub struct TrackDuration {
    pub secs: u64,
    pub nanos: u32,
}

impl TrackDuration {
    /// A length of whole seconds.
    pub fn from_secs(secs: u64) -> (d: Self)
        ensures
            d.secs == secs,
            d.nanos == 0,
    {
        TrackDuration { secs, nanos: 0 }
    }

    /// A length of `secs` seconds and `nanos` nanoseconds.
    pub fn new(secs: u64, nanos: u32) -> (d: Self)
        requires
            nanos < 1_000_000_000,
        ensures
            d.secs == secs,
            d.nanos == nanos,
    {
        TrackDuration { secs, nanos }
    }

    /// The whole seconds of this length.
    pub fn as_secs(&self) -> (s: u64)
        ensures
            s == self.secs,
    {
        self.secs
    }
}

/// What analysing a track found: its tempo (in thousandths of a beat per
/// minute), its key in standard shorthand (`Am`, `F#`) and on the
/// analyser's numbered wheel (`1B`), and its length.
#[derive(Debug, Clone)]
pub struct TrackAnalysis {
    pub bpm: i64,
    pub key_name: String,
    pub key_numerical: String,
    pub duration: TrackDuration,
}

/// `mm:ss`: whole minutes (at least two digits), a colon, and the seconds
/// past them (two digits).
pub open spec fn duration_text(secs: nat) -> Seq<char> {
    two_digit_text(secs / 60) + seq![':'] + two_digit_text(secs % 60)
}

/// Shows a length as `mm:ss`, dropping the fraction of a second.
pub fn format_duration(duration: TrackDuration) -> (r: String)
    ensures
        r@ == duration_text(duration.secs as nat),
{
    let total_seconds = duration.as_secs();
    let minutes = total_seconds / 60;
    let seconds = total_seconds % 60;
    let mut formatted = String::new();
    push_two_digits(&mut formatted, minutes);
    push_char(&mut formatted, ':');
    push_two_digits(&mut formatted, seconds);
    formatted
}


/// A tempo (thousandths of a beat per minute) with two decimals: the
/// thousandths rounded to hundredths, halves to the even neighbour, with
/// the sign of a negative value.
pub open spec fn bpm_text(m: int) -> Seq<char> {
    let a = if m < 0 {
        -m
    } else {
        m
    };
    let q = a / 10;
    let r = a % 10;
    let n = if r > 5 || (r == 5 && q % 2 == 1) {
        q + 1
    } else {
        q
    };
    (if m < 0 {
        seq!['-']
    } else {
        Seq::<char>::empty()
    }) + decimal_text((n / 100) as nat) + seq!['.'] + two_digit_text((n % 100) as nat)
}

/// Shows a tempo with two decimals (`bpm_text`).
pub fn format_bpm(bpm: i64) -> (r: String)
    ensures
        r@ == bpm_text(bpm as int),
{
    let a: u64 = if bpm < 0 {
        (0i128 - (bpm as i128)) as u64
    } else {
        bpm as u64
    };
    let q = a / 10;
    let rem = a % 10;
    let n = if rem > 5 || (rem == 5 && q % 2 == 1) {
        q + 1
    } else {
        q
    };
    let mut s = String::new();
    if bpm < 0 {
        push_char(&mut s, '-');
    }
    push_decimal(&mut s, n / 100);
    push_char(&mut s, '.');
    push_two_digits(&mut s, n % 100);
    s
}

} // verus!
