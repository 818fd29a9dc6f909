//! Points in the day, read from tokens such as `9`, `1:30` or `11:45pm`,
//! and the wording of durations.
use vstd::prelude::*;

use crate::text::{nat_str, nat_str2, push_nat, push_nat2, to_chars};

verus! {

/// Minutes in a day.
pub const MINUTES_PER_DAY: u32 = 1440;

/// A wall-clock time of a single day, as minutes after midnight.
#[derive(Clone, Copy, Debug, PartialEq, Eq, Structural)]
pub struct Time {
    pub minutes: u32,
}

pub open spec fn is_digit(c: char) -> bool {
    '0' <= c <= '9'
}

pub open spec fn digit_value(c: char) -> nat {
    ((c as int) - ('0' as int)) as nat
}

/// An hour written with one or two digits.
pub open spec fn parse_hour(s: Seq<char>) -> Option<nat> {
    if s.len() == 1 && is_digit(s[0]) {
        Some(digit_value(s[0]))
    } else if s.len() == 2 && is_digit(s[0]) && is_digit(s[1]) {
        Some(10 * digit_value(s[0]) + digit_value(s[1]))
    } else {
        None
    }
}

/// `H`, `HH`, `H:MM` or `HH:MM`, as hour and minute (not yet checked for range).
pub open spec fn parse_clock(s: Seq<char>) -> Option<(nat, nat)> {
    if s.len() >= 3 && s[s.len() - 3] == ':' {
        let a = s[s.len() - 2];
        let b = s[s.len() - 1];
        match parse_hour(s.take(s.len() - 3)) {
            Some(h) => if is_digit(a) && is_digit(b) {
                Some((h, 10 * digit_value(a) + digit_value(b)))
            } else {
                None
            },
            None => None,
        }
    } else {
        match parse_hour(s) {
            Some(h) => Some((h, 0)),
            None => None,
        }
    }
}

/// No suffix.
pub const CLOCK_PLAIN: u8 = 0;

/// An `am` suffix, in any case.
pub const CLOCK_AM: u8 = 1;

/// A `pm` suffix, in any case.
pub const CLOCK_PM: u8 = 2;

/// Which suffix the token `t` ends with.
pub open spec fn meridiem(t: Seq<char>) -> u8 {
    if t.len() >= 2 && (t.last() == 'm' || t.last() == 'M') {
        let c = t[t.len() - 2];
        if c == 'a' || c == 'A' {
            CLOCK_AM
        } else if c == 'p' || c == 'P' {
            CLOCK_PM
        } else {
            CLOCK_PLAIN
        }
    } else {
        CLOCK_PLAIN
    }
}

/// The token without its suffix.
pub open spec fn clock_body(t: Seq<char>) -> Seq<char> {
    if meridiem(t) == CLOCK_PLAIN {
        t
    } else {
        t.take(t.len() - 2)
    }
}

/// The hour of the day that hour `h` names under suffix `mer`.
///
/// With `am` or `pm` the hour must lie in 1 through 12. Without a suffix,
/// 0 and 7 through 23 stand as written, and 1 through 6 are taken as the
/// afternoon (13 through 18): a working day runs from morning into
/// afternoon, so `12:15-1:30` spans an hour and a quarter.
pub open spec fn hour_of_day(h: nat, mer: u8) -> Option<nat> {
    if mer == CLOCK_PLAIN {
        if h > 23 {
            None
        } else if 1 <= h <= 6 {
            Some(h + 12)
        } else {
            Some(h)
        }
    } else if h < 1 || h > 12 {
        None
    } else if mer == CLOCK_AM {
        Some(h % 12)
    } else {
        Some(h % 12 + 12)
    }
}

/// The minute of the day that the token `t` names, if it names one.
pub open spec fn parse_time_spec(t: Seq<char>) -> Option<nat> {
    match parse_clock(clock_body(t)) {
        Some((h, m)) => if m >= 60 {
            None
        } else {
            match hour_of_day(h, meridiem(t)) {
                Some(hh) => Some(hh * 60 + m),
                None => None,
            }
        },
        None => None,
    }
}

/// The hour on a twelve-hour dial: 12 for midnight and noon.
pub open spec fn dial_hour(minutes: nat) -> nat {
    if (minutes / 60) % 12 == 0 {
        12
    } else {
        (minutes / 60) % 12
    }
}

/// `h:mm` on a twelve-hour dial, without a suffix.
pub open spec fn clock_str(minutes: nat) -> Seq<char> {
    nat_str(dial_hour(minutes)) + seq![':'] + nat_str2(minutes % 60)
}

/// `n` followed by the unit, in the singular when `n` is one.
pub open spec fn count_str(n: nat, one: Seq<char>, many: Seq<char>) -> Seq<char> {
    nat_str(n) + seq![' '] + if n == 1 {
        one
    } else {
        many
    }
}

/// A duration in words: `0 minutes`, `45 minutes`, `2 hours`, `1 hour 30 minutes`.
pub open spec fn duration_str(minutes: nat) -> Seq<char> {
    let h = minutes / 60;
    let m = minutes % 60;
    if h == 0 {
        count_str(m, "minute"@, "minutes"@)
    } else if m == 0 {
        count_str(h, "hour"@, "hours"@)
    } else {
        count_str(h, "hour"@, "hours"@) + seq![' '] + count_str(m, "minute"@, "minutes"@)
    }
}

/// A duration in hours, rounded to hundredths: `1.50` for ninety minutes.
pub open spec fn decimal_hours_str(minutes: nat) -> Seq<char> {
    let hundredths = (minutes * 100 + 30) / 60;
    nat_str(hundredths / 100) + seq!['.'] + nat_str2(hundredths % 100)
}

fn digit_at(v: &Vec<char>, i: usize) -> (r: Option<u64>)
    requires
        i < v.len(),
    ensures
        r is Some <==> is_digit(v@[i as int]),
        r is Some ==> r->0 as nat == digit_value(v@[i as int]) && r->0 < 10,
{
    let c = v[i];
    if '0' <= c && c <= '9' {
        Some((c as u32 - '0' as u32) as u64)
    } else {
        None
    }
}

fn parse_hour_in(v: &Vec<char>, lo: usize, hi: usize) -> (r: Option<u64>)
    requires
        lo <= hi <= v.len(),
    ensures
        r is Some <==> parse_hour(v@.subrange(lo as int, hi as int)) is Some,
        r is Some ==> r->0 as nat == parse_hour(v@.subrange(lo as int, hi as int))->0,
        r is Some ==> r->0 < 100,
{
    let ghost s = v@.subrange(lo as int, hi as int);
    if hi - lo == 1 {
        assert(s[0] == v@[lo as int]);
        digit_at(v, lo)
    } else if hi - lo == 2 {
        assert(s[0] == v@[lo as int]);
        assert(s[1] == v@[lo + 1]);
        match (digit_at(v, lo), digit_at(v, lo + 1)) {
            (Some(a), Some(b)) => Some(10 * a + b),
            _ => None,
        }
    } else {
        None
    }
}

fn parse_clock_in(v: &Vec<char>, lo: usize, hi: usize) -> (r: Option<(u64, u64)>)
    requires
        lo <= hi <= v.len(),
    ensures
        match r {
            Some((h, m)) => parse_clock(v@.subrange(lo as int, hi as int)) == Some(
                (h as nat, m as nat),
            ) && h < 100 && m < 100,
            None => parse_clock(v@.subrange(lo as int, hi as int)) is None,
        },
{
    let ghost s = v@.subrange(lo as int, hi as int);
    if hi - lo >= 3 && v[hi - 3] == ':' {
        assert(s[s.len() - 3] == v@[hi - 3]);
        assert(s[s.len() - 2] == v@[hi - 2]);
        assert(s[s.len() - 1] == v@[hi - 1]);
        assert(s.take(s.len() - 3) =~= v@.subrange(lo as int, hi - 3));
        match (parse_hour_in(v, lo, hi - 3), digit_at(v, hi - 2), digit_at(v, hi - 1)) {
            (Some(h), Some(a), Some(b)) => Some((h, 10 * a + b)),
            _ => None,
        }
    } else {
        if hi - lo >= 3 {
            assert(s[s.len() - 3] == v@[hi - 3]);
        }
        match parse_hour_in(v, lo, hi) {
            Some(h) => Some((h, 0)),
            None => None,
        }
    }
}

/// The minute of the day that the characters `lo..hi` of `v` name, if any.
pub fn parse_time_in(v: &Vec<char>, lo: usize, hi: usize) -> (r: Option<u32>)
    requires
        lo <= hi <= v.len(),
    ensures
        r is Some <==> parse_time_spec(v@.subrange(lo as int, hi as int)) is Some,
        r is Some ==> r->0 as nat == parse_time_spec(v@.subrange(lo as int, hi as int))->0
            && r->0 < MINUTES_PER_DAY,
{
    let ghost t = v@.subrange(lo as int, hi as int);
    let mut mer: u8 = CLOCK_PLAIN;
    if hi - lo >= 2 && (v[hi - 1] == 'm' || v[hi - 1] == 'M') {
        let c = v[hi - 2];
        if c == 'a' || c == 'A' {
            mer = CLOCK_AM;
        } else if c == 'p' || c == 'P' {
            mer = CLOCK_PM;
        }
    }
    proof {
        if t.len() >= 2 {
            assert(t.last() == v@[hi - 1]);
            assert(t[t.len() - 2] == v@[hi - 2]);
        }
    }
    assert(mer == meridiem(t));
    let body_hi = if mer == CLOCK_PLAIN { hi } else { hi - 2 };
    assert(clock_body(t) =~= v@.subrange(lo as int, body_hi as int));
    match parse_clock_in(v, lo, body_hi) {
        Some((h, m)) => {
            if m >= 60 {
                return None;
            }
            let hh: u64 = if mer == CLOCK_PLAIN {
                if h > 23 {
                    return None;
                } else if 1 <= h && h <= 6 {
                    h + 12
                } else {
                    h
                }
            } else if h < 1 || h > 12 {
                return None;
            } else if mer == CLOCK_AM {
                h % 12
            } else {
                h % 12 + 12
            };
            Some((hh * 60 + m) as u32)
        },
        None => None,
    }
}

impl Time {
    /// Well-formed: within one day.
    pub open spec fn wf(&self) -> bool {
        self.minutes < MINUTES_PER_DAY
    }

    /// The time `minutes` after midnight.
    pub fn from_minutes(minutes: u32) -> (r: Time)
        requires
            minutes < MINUTES_PER_DAY,
        ensures
            r.minutes == minutes,
            r.wf(),
    {
        Time { minutes }
    }

    /// Reads a token of the form `H`, `H:MM` or `HH:MM`, optionally followed
    /// by `am` or `pm` in any case. `None` when the token names no time.
    pub fn parse(s: &str) -> (r: Option<Time>)
        ensures
            r is Some <==> parse_time_spec(s@) is Some,
            r is Some ==> r->0.minutes as nat == parse_time_spec(s@)->0 && r->0.wf(),
    {
        let v = to_chars(s);
        assert(v@.subrange(0, v@.len() as int) == v@);
        match parse_time_in(&v, 0, v.len()) {
            Some(m) => Some(Time { minutes: m }),
            None => None,
        }
    }

    /// This time as `h:mm` on a twelve-hour dial (`4:00` for 16:00).
    pub fn format(&self) -> (r: String)
        ensures
            r@ == clock_str(self.minutes as nat),
    {
        let h = ((self.minutes / 60) % 12) as u64;
        let mut r = String::new();
        push_nat(&mut r, if h == 0 { 12 } else { h });
        r.append(":");
        proof { reveal_strlit(":"); }
        push_nat2(&mut r, (self.minutes % 60) as u64);
        assert(r@ =~= clock_str(self.minutes as nat));
        r
    }

    /// A duration in words, such as `1 hour 30 minutes`; zero reads `0 minutes`.
    pub fn format_duration_minutes(minutes: u32) -> (r: String)
        ensures
            r@ == duration_str(minutes as nat),
    {
        let h = (minutes / 60) as u64;
        let m = (minutes % 60) as u64;
        let mut r = String::new();
        if h > 0 {
            push_count(&mut r, h, "hour", "hours");
            if m > 0 {
                r.append(" ");
                proof { reveal_strlit(" "); }
            }
        }
        if h == 0 || m > 0 {
            push_count(&mut r, m, "minute", "minutes");
        }
        assert(r@ =~= duration_str(minutes as nat));
        r
    }

    /// A duration in hours with two decimals, rounded to the nearest
    /// hundredth: `1.50` for ninety minutes.
    pub fn format_duration_decimal(minutes: u32) -> (r: String)
        ensures
            r@ == decimal_hours_str(minutes as nat),
    {
        let hundredths: u64 = (minutes as u64 * 100 + 30) / 60;
        let mut r = String::new();
        push_nat(&mut r, hundredths / 100);
        r.append(".");
        proof { reveal_strlit("."); }
        push_nat2(&mut r, hundredths % 100);
        assert(r@ =~= decimal_hours_str(minutes as nat));
        r
    }
}

fn push_count(s: &mut String, n: u64, one: &str, many: &str)
    ensures
        final(s)@ == old(s)@ + count_str(n as nat, one@, many@),
{
    push_nat(s, n);
    s.append(" ");
    proof { reveal_strlit(" "); }
    if n == 1 {
        s.append(one);
    } else {
        s.append(many);
    }
    assert(final(s)@ =~= old(s)@ + count_str(n as nat, one@, many@));
}

} // verus!
