//! Calendar timestamps and their wire rendering.
//!
//! Stored timestamps carry no time zone and are treated as UTC. On the
//! wire they are rendered as RFC 3339 with a `Z` suffix and an
//! automatic fraction: none for a whole second, three digits for a
//! whole millisecond, six otherwise.

use vstd::prelude::*;
use crate::numbering::{padded_digits, push_padded_digits};

verus! {

/// A civil UTC timestamp, split into its calendar fields, with
/// microsecond precision.
#[derive(Clone, Copy, Debug, PartialEq, Eq, Structural)]
pub struct Timestamp {
    pub year: u32,
    pub month: u8,
    pub day: u8,
    pub hour: u8,
    pub minute: u8,
    pub second: u8,
    pub micros: u32,
}

impl Timestamp {
    /// The field ranges of a renderable timestamp: a four-digit year
    /// and in-range calendar and clock fields.
    pub open spec fn wf(self) -> bool {
        &&& self.year <= 9999
        &&& 1 <= self.month <= 12
        &&& 1 <= self.day <= 31
        &&& self.hour <= 23
        &&& self.minute <= 59
        &&& self.second <= 59
        &&& self.micros <= 999999
    }
}

/// The fractional-second part of the rendering: empty for a whole
/// second, `.` and three digits for a whole millisecond, `.` and six
/// digits otherwise.
pub open spec fn spec_fraction(micros: u32) -> Seq<char> {
    if micros == 0 {
        Seq::empty()
    } else if micros % 1000 == 0 {
        seq!['.'] + padded_digits((micros / 1000) as nat, 3)
    } else {
        seq!['.'] + padded_digits(micros as nat, 6)
    }
}

/// The RFC 3339 rendering of a timestamp taken as UTC:
/// `YYYY-MM-DDTHH:MM:SS`, the automatic fraction, and `Z`.
pub open spec fn spec_rfc3339(ts: Timestamp) -> Seq<char> {
    padded_digits(ts.year as nat, 4) + seq!['-'] + padded_digits(ts.month as nat, 2) + seq!['-']
        + padded_digits(ts.day as nat, 2) + seq!['T'] + padded_digits(ts.hour as nat, 2)
        + seq![':'] + padded_digits(ts.minute as nat, 2) + seq![':']
        + padded_digits(ts.second as nat, 2) + spec_fraction(ts.micros) + seq!['Z']
}

/// Appends one known separator character to `out`.
fn push_separator(out: &mut String, which: u8)
    requires
        which <= 4,
    ensures
        which == 0 ==> final(out)@ == old(out)@ + seq!['-'],
        which == 1 ==> final(out)@ == old(out)@ + seq!['T'],
        which == 2 ==> final(out)@ == old(out)@ + seq![':'],
        which == 3 ==> final(out)@ == old(out)@ + seq!['.'],
        which == 4 ==> final(out)@ == old(out)@ + seq!['Z'],
{
    if which == 0 {
        out.append("-");
        proof {
            reveal_strlit("-");
            assert(old(out)@ + "-"@ =~= old(out)@ + seq!['-']);
        }
    } else if which == 1 {
        out.append("T");
        proof {
            reveal_strlit("T");
            assert(old(out)@ + "T"@ =~= old(out)@ + seq!['T']);
        }
    } else if which == 2 {
        out.append(":");
        proof {
            reveal_strlit(":");
            assert(old(out)@ + ":"@ =~= old(out)@ + seq![':']);
        }
    } else if which == 3 {
        out.append(".");
        proof {
            reveal_strlit(".");
            assert(old(out)@ + "."@ =~= old(out)@ + seq!['.']);
        }
    } else {
        out.append("Z");
        proof {
            reveal_strlit("Z");
            assert(old(out)@ + "Z"@ =~= old(out)@ + seq!['Z']);
        }
    }
}

/// Renders a timestamp, treated as UTC, in RFC 3339 with a `Z` suffix:
/// the rendering a JSON body carries for every stored date.
pub fn format_rfc3339(ts: &Timestamp) -> (r: String)
    requires
        ts.wf(),
    ensures
        r@ == spec_rfc3339(*ts),
{
    let mut out = String::new();
    push_padded_digits(&mut out, ts.year as u64, 4);
    push_separator(&mut out, 0);
    push_padded_digits(&mut out, ts.month as u64, 2);
    push_separator(&mut out, 0);
    push_padded_digits(&mut out, ts.day as u64, 2);
    push_separator(&mut out, 1);
    push_padded_digits(&mut out, ts.hour as u64, 2);
    push_separator(&mut out, 2);
    push_padded_digits(&mut out, ts.minute as u64, 2);
    push_separator(&mut out, 2);
    push_padded_digits(&mut out, ts.second as u64, 2);
    if ts.micros != 0 {
        push_separator(&mut out, 3);
        if ts.micros % 1000 == 0 {
            push_padded_digits(&mut out, (ts.micros / 1000) as u64, 3);
        } else {
            push_padded_digits(&mut out, ts.micros as u64, 6);
        }
    }
    push_separator(&mut out, 4);
    proof {
        assert(out@ =~= spec_rfc3339(*ts));
    }
    out
}

} // verus!
