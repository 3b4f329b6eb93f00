//! Instants and elapsed time as `chrono` computes them, on plain numbers:
//! an instant is its Unix timestamp in seconds and the nanoseconds past that
//! second (a second past 999 999 999 marks a leap second).
use vstd::arithmetic::div_mod::lemma_fundamental_div_mod_converse;
use crate::text::opt_chars;
use vstd::prelude::*;

verus! {

/// Seconds in a day.
pub const SECONDS_PER_DAY: i64 = 86400;

/// Nanoseconds in a second.
pub const NANOS_PER_SECOND: i64 = 1_000_000_000;

/// The instant written in `text` in RFC 3339 form, as
/// `chrono::DateTime::parse_from_rfc3339` reads it, when it reads one.
pub uninterp spec fn rfc3339_instant(text: Seq<char>) -> Option<(i64, u32)>;

/// An instant that an RFC 3339 text can name: a four-digit year with an
/// offset of less than a day, and at most one leap second.
pub open spec fn rfc3339_range(t: (i64, u32)) -> bool {
    &&& -62_167_305_600 <= t.0 <= 253_402_387_200
    &&& t.1 < 2_000_000_000
}

/// `chrono::DateTime::parse_from_rfc3339`, the result taken as its Unix
/// timestamp and subsecond nanoseconds. The contract claims that the result
/// is a function of the text (named `rfc3339_instant`) and, from the
/// parser's source, that it lies in `rfc3339_range`: the parser takes a
/// four-digit year, an offset under 24 hours, and seconds up to 60.
#[verifier::external_body]
fn parse_rfc3339(text: &str) -> (r: Option<(i64, u32)>)
    ensures
        r == rfc3339_instant(text@),
        r matches Some(t) ==> rfc3339_range(t),
{
    match chrono::DateTime::parse_from_rfc3339(text) {
        Ok(d) => Some((d.timestamp(), d.timestamp_subsec_nanos())),
        Err(_) => None,
    }
}

/// The whole seconds from `earlier` to `later` (negative when `later` comes
/// first), as `later.signed_duration_since(earlier).num_seconds()` gives
/// them in `chrono`: days and seconds of the day apart, a leap second counted
/// where one of the two instants is in one, and the result truncated toward
/// zero.
pub open spec fn whole_seconds_between(later: (i64, u32), earlier: (i64, u32)) -> int {
    let (t1, f1) = later;
    let (t0, f0) = earlier;
    let s1 = t1 % 86400;
    let s0 = t0 % 86400;
    let leap: int = if s1 > s0 && f0 >= 1_000_000_000 {
        1
    } else if s1 < s0 && f1 >= 1_000_000_000 {
        -1
    } else {
        0
    };
    let frac = f1 - f0;
    let secs = (t1 / 86400 - t0 / 86400) * 86400 + (s1 - s0) + leap + frac / 1_000_000_000;
    let nanos = frac % 1_000_000_000;
    if secs < 0 && nanos > 0 {
        secs + 1
    } else {
        secs
    }
}

/// Both instants lie where the computation of the seconds between them
/// cannot overflow.
pub open spec fn comparable(t: (i64, u32)) -> bool {
    -100_000_000_000_000 <= t.0 <= 100_000_000_000_000 && t.1 < 2_000_000_000
}

fn day_and_second(t: i64) -> (r: (i64, i64))
    requires
        -100_000_000_000_000 <= t <= 100_000_000_000_000,
    ensures
        r.0 == t / 86400,
        r.1 == t % 86400,
        -100_000_000_000 <= r.0 <= 100_000_000_000,
        0 <= r.1 < 86400,
{
    if t >= 0 {
        let u = t as u64;
        let q = u / 86400;
        let m = u % 86400;
        proof {
            lemma_fundamental_div_mod_converse(t as int, 86400, q as int, m as int);
        }
        (q as i64, m as i64)
    } else {
        let u = (-t) as u64;
        let q = u / 86400;
        let m = u % 86400;
        assert(u == q * 86400 + m) by {
            vstd::arithmetic::div_mod::lemma_fundamental_div_mod(u as int, 86400);
        }
        if m == 0 {
            proof {
                lemma_fundamental_div_mod_converse(t as int, 86400, -(q as int), 0);
            }
            (-(q as i64), 0)
        } else {
            proof {
                lemma_fundamental_div_mod_converse(t as int, 86400, -(q as int) - 1, 86400 - m);
            }
            (-(q as i64) - 1, 86400 - m as i64)
        }
    }
}

/// The whole seconds from `earlier` to `later`, as `chrono` counts them.
pub fn seconds_between(later: (i64, u32), earlier: (i64, u32)) -> (r: i64)
    requires
        comparable(later),
        comparable(earlier),
    ensures
        r == whole_seconds_between(later, earlier),
{
    let (d1, s1) = day_and_second(later.0);
    let (d0, s0) = day_and_second(earlier.0);
    let f1 = later.1 as i64;
    let f0 = earlier.1 as i64;
    let leap: i64 = if s1 > s0 && f0 >= NANOS_PER_SECOND {
        1
    } else if s1 < s0 && f1 >= NANOS_PER_SECOND {
        -1
    } else {
        0
    };
    let frac = f1 - f0;
    let (carry, nanos): (i64, i64) = if frac >= NANOS_PER_SECOND {
        (1, frac - NANOS_PER_SECOND)
    } else if frac >= 0 {
        (0, frac)
    } else if frac >= -NANOS_PER_SECOND {
        (-1, frac + NANOS_PER_SECOND)
    } else {
        (-2, frac + 2 * NANOS_PER_SECOND)
    };
    proof {
        lemma_fundamental_div_mod_converse(frac as int, 1_000_000_000, carry as int, nanos as int);
    }
    let secs = (d1 - d0) * SECONDS_PER_DAY + (s1 - s0) + leap + carry;
    if secs < 0 && nanos > 0 {
        secs + 1
    } else {
        secs
    }
}

/// Whole seconds a container has been up at `now` when it started at
/// `started`: the seconds between them, or 0 when `started` lies ahead.
pub open spec fn uptime_between(started: (i64, u32), now: (i64, u32)) -> int {
    let s = whole_seconds_between(now, started);
    if s > 0 {
        s
    } else {
        0
    }
}

/// The whole seconds from `started` to `now`, and 0 when `started` is not
/// before `now`.
pub fn uptime_from(started: (i64, u32), now: (i64, u32)) -> (r: i64)
    requires
        comparable(started),
        comparable(now),
    ensures
        r == uptime_between(started, now),
{
    let s = seconds_between(now, started);
    if s > 0 {
        s
    } else {
        0
    }
}

/// Uptime of a container: 0 when it is not running, when its start time is
/// unknown or is not an RFC 3339 text, and otherwise the whole seconds from
/// its start to `now` (0 for a start that lies ahead).
pub open spec fn uptime_at(started_at: Option<Seq<char>>, running: bool, now: (i64, u32)) -> int {
    if !running {
        0
    } else {
        match started_at {
            None => 0,
            Some(text) => match rfc3339_instant(text) {
                None => 0,
                Some(started) => uptime_between(started, now),
            },
        }
    }
}

/// The uptime at `now` of a container with start time `started_at`.
pub fn parse_started_at_seconds(started_at: &Option<String>, running: bool, now: (i64, u32)) -> (r: i64)
    requires
        comparable(now),
    ensures
        r == uptime_at(opt_chars(*started_at), running, now),
{
    if !running {
        return 0;
    }
    match started_at {
        None => 0,
        Some(text) => match parse_rfc3339(text.as_str()) {
            None => 0,
            Some(started) => uptime_from(started, now),
        },
    }
}

} // verus!
