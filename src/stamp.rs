use vstd::prelude::*;
use vstd::string::*;
use chrono::{Datelike, Timelike};

verus! {

/// The character of a decimal digit.
pub open spec fn digit_char(d: nat) -> char {
    if d == 0 { '0' } else if d == 1 { '1' } else if d == 2 { '2' } else if d == 3 { '3' }
    else if d == 4 { '4' } else if d == 5 { '5' } else if d == 6 { '6' } else if d == 7 { '7' }
    else if d == 8 { '8' } else { '9' }
}

/// The decimal digits of `n`, most significant first, with no leading zero.
pub open spec fn digits_of(n: nat) -> Seq<char>
    decreases n,
{
    if n < 10 {
        seq![digit_char(n)]
    } else {
        digits_of(n / 10) + seq![digit_char(n % 10)]
    }
}

/// `k` zero characters.
pub open spec fn zeros(k: nat) -> Seq<char> {
    Seq::new(k, |i: int| '0')
}

/// The decimal digits of `n`, left-padded with zeros to at least `width` characters.
pub open spec fn padded(n: nat, width: nat) -> Seq<char> {
    if digits_of(n).len() < width {
        zeros((width - digits_of(n).len()) as nat) + digits_of(n)
    } else {
        digits_of(n)
    }
}

/// A UTC instant at minute resolution, as its calendar fields.
#[derive(Clone, Copy, Debug, PartialEq, Eq)]
pub struct MinuteStamp {
    /// The year of the common era, counted from 1.
    pub year: u32,
    pub month: u32,
    pub day: u32,
    pub hour: u32,
    pub minute: u32,
}

impl MinuteStamp {
    /// Every field lies in its calendar range.
    pub open spec fn wf(&self) -> bool {
        &&& 1 <= self.month <= 12
        &&& 1 <= self.day <= 31
        &&& self.hour < 24
        &&& self.minute < 60
    }

    /// The encoding `YYYY-MM-DD-HH-mm`, every field zero-padded and separated by a dash.
    pub open spec fn text(&self) -> Seq<char> {
        padded(self.year as nat, 4) + seq!['-'] + padded(self.month as nat, 2) + seq!['-']
            + padded(self.day as nat, 2) + seq!['-'] + padded(self.hour as nat, 2) + seq!['-']
            + padded(self.minute as nat, 2)
    }

    /// Builds a stamp from its fields; `None` where a field is out of its calendar range.
    pub fn new(year: u32, month: u32, day: u32, hour: u32, minute: u32) -> (r: Option<MinuteStamp>)
        ensures
            r matches Some(s) ==> s.wf() && s.year == year && s.month == month && s.day == day
                && s.hour == hour && s.minute == minute,
            r is Some <==> (1 <= month <= 12 && 1 <= day <= 31 && hour < 24 && minute < 60),
    {
        if 1 <= month && month <= 12 && 1 <= day && day <= 31 && hour < 24 && minute < 60 {
            Some(MinuteStamp { year, month, day, hour, minute })
        } else {
            None
        }
    }

    /// The current UTC minute, read from the system clock.
    pub fn now() -> (r: MinuteStamp)
        ensures
            r.wf(),
    {
        utc_now()
    }

    /// Encodes the stamp as `YYYY-MM-DD-HH-mm`.
    pub fn format(&self) -> (r: String)
        ensures
            r@ == self.text(),
    {
        let mut r = padded_decimal(self.year, 4);
        r.append("-");
        let m = padded_decimal(self.month, 2);
        r.append(m.as_str());
        r.append("-");
        let d = padded_decimal(self.day, 2);
        r.append(d.as_str());
        r.append("-");
        let h = padded_decimal(self.hour, 2);
        r.append(h.as_str());
        r.append("-");
        let mi = padded_decimal(self.minute, 2);
        r.append(mi.as_str());
        proof {
            reveal_strlit("-");
        }
        r
    }
}

/// Relies on chrono's `Utc::now` for the current instant, and on its `Datelike` and
/// `Timelike` accessors, whose documented ranges are month 1 to 12, day 1 to 31,
/// hour 0 to 23 and minute 0 to 59.
#[verifier::external_body]
fn utc_now() -> (r: MinuteStamp)
    ensures
        r.wf(),
{
    let now = chrono::Utc::now();
    MinuteStamp {
        year: now.year_ce().1,
        month: now.month(),
        day: now.day(),
        hour: now.hour(),
        minute: now.minute(),
    }
}

/// The one-character string of a decimal digit.
fn digit_str(d: u32) -> (r: &'static str)
    requires
        d < 10,
    ensures
        r@ == seq![digit_char(d as nat)],
{
    proof {
        reveal_strlit("0"); reveal_strlit("1"); reveal_strlit("2"); reveal_strlit("3");
        reveal_strlit("4"); reveal_strlit("5"); reveal_strlit("6"); reveal_strlit("7");
        reveal_strlit("8"); reveal_strlit("9");
    }
    if d == 0 { "0" } else if d == 1 { "1" } else if d == 2 { "2" } else if d == 3 { "3" }
    else if d == 4 { "4" } else if d == 5 { "5" } else if d == 6 { "6" } else if d == 7 { "7" }
    else if d == 8 { "8" } else { "9" }
}

/// The decimal text of `n`.
pub fn decimal(n: u32) -> (r: String)
    ensures
        r@ == digits_of(n as nat),
    decreases n,
{
    if n < 10 {
        String::from_str(digit_str(n))
    } else {
        let r = decimal(n / 10);
        r.concat(digit_str(n % 10))
    }
}

/// The decimal text of `n`, left-padded with zeros to at least `width` characters.
pub fn padded_decimal(n: u32, width: usize) -> (r: String)
    ensures
        r@ == padded(n as nat, width as nat),
{
    let d = decimal(n);
    let len = d.as_str().unicode_len();
    let mut r = String::new();
    let mut i: usize = len;
    while i < width
        invariant
            len == digits_of(n as nat).len(),
            len <= i,
            i >= width ==> i == len || i == width,
            r@ == zeros((i - len) as nat),
        decreases width - i,
    {
        r.append("0");
        proof {
            reveal_strlit("0");
            assert(r@ =~= zeros((i + 1 - len) as nat));
        }
        i = i + 1;
    }
    r.append(d.as_str());
    proof {
        if len < width {
            assert(i == width);
        } else {
            assert(r@ =~= digits_of(n as nat));
        }
    }
    r
}

} // verus!
