//! Process counters for the health endpoints: requests, errors, database
//! queries, and uptime. The counters wrap on overflow, the way relaxed
//! atomic counters do.

use vstd::prelude::*;

verus! {

#[verifier::external_type_specification]
#[verifier::external_body]
pub struct ExInstant(std::time::Instant);

/// Relies on std::time::Instant::now: an opaque reading of the monotonic
/// clock. Nothing is assumed about the value.
#[verifier::external_body]
fn instant_now() -> std::time::Instant {
    std::time::Instant::now()
}

/// Relies on std::time::Instant::elapsed (read through as_nanos, a
/// truncating conversion): nanoseconds since the reading was taken, never
/// negative and never panicking by the monotonic-clock guarantee. Nothing
/// more is assumed about the value.
#[verifier::external_body]
fn elapsed_nanos(start: &std::time::Instant) -> u64 {
    start.elapsed().as_nanos() as u64
}

/// Running totals since process start.
pub struct Metrics {
    pub request_count: u64,
    pub error_count: u64,
    pub db_query_count: u64,
    /// The monotonic-clock reading taken when the counters were created.
    pub start_time: std::time::Instant,
}

/// A counter bumped by one, wrapping at the top of the range.
pub open spec fn bumped(c: u64) -> u64 {
    if c == u64::MAX {
        0u64
    } else {
        (c + 1) as u64
    }
}

impl Metrics {
    /// Fresh counters, stamped with the current time.
    pub fn new() -> (m: Metrics)
        ensures
            m.request_count == 0,
            m.error_count == 0,
            m.db_query_count == 0,
    {
        Metrics {
            request_count: 0,
            error_count: 0,
            db_query_count: 0,
            start_time: instant_now(),
        }
    }

    pub fn increment_requests(&mut self)
        ensures
            final(self).request_count == bumped(old(self).request_count),
            final(self).error_count == old(self).error_count,
            final(self).db_query_count == old(self).db_query_count,
            final(self).start_time == old(self).start_time,
    {
        if self.request_count == u64::MAX {
            self.request_count = 0;
        } else {
            self.request_count = self.request_count + 1;
        }
    }

    pub fn increment_errors(&mut self)
        ensures
            final(self).error_count == bumped(old(self).error_count),
            final(self).request_count == old(self).request_count,
            final(self).db_query_count == old(self).db_query_count,
            final(self).start_time == old(self).start_time,
    {
        if self.error_count == u64::MAX {
            self.error_count = 0;
        } else {
            self.error_count = self.error_count + 1;
        }
    }

    pub fn increment_db_queries(&mut self)
        ensures
            final(self).db_query_count == bumped(old(self).db_query_count),
            final(self).request_count == old(self).request_count,
            final(self).error_count == old(self).error_count,
            final(self).start_time == old(self).start_time,
    {
        if self.db_query_count == u64::MAX {
            self.db_query_count = 0;
        } else {
            self.db_query_count = self.db_query_count + 1;
        }
    }

    /// Nanoseconds since the counters were created, by the monotonic
    /// clock.
    pub fn get_uptime(&self) -> u64 {
        elapsed_nanos(&self.start_time)
    }
}

/// The character for one decimal digit.
pub open spec fn digit_char(d: nat) -> char {
    if d == 0 {
        '0'
    } else if d == 1 {
        '1'
    } else if d == 2 {
        '2'
    } else if d == 3 {
        '3'
    } else if d == 4 {
        '4'
    } else if d == 5 {
        '5'
    } else if d == 6 {
        '6'
    } else if d == 7 {
        '7'
    } else if d == 8 {
        '8'
    } else {
        '9'
    }
}

/// The decimal spelling of a number, most significant digit first, with no
/// leading zeroes (zero itself spelt "0").
pub open spec fn dec_digits(n: nat) -> Seq<char>
    decreases n,
{
    if n < 10 {
        seq![digit_char(n)]
    } else {
        dec_digits(n / 10).push(digit_char(n % 10))
    }
}

/// One decimal digit as text.
fn digit_str(d: u64) -> (r: &'static str)
    requires
        d < 10,
    ensures
        r@ == seq![digit_char(d as nat)],
{
    proof {
        reveal_strlit("0");
        reveal_strlit("1");
        reveal_strlit("2");
        reveal_strlit("3");
        reveal_strlit("4");
        reveal_strlit("5");
        reveal_strlit("6");
        reveal_strlit("7");
        reveal_strlit("8");
        reveal_strlit("9");
    }
    let r = match d {
        0 => "0",
        1 => "1",
        2 => "2",
        3 => "3",
        4 => "4",
        5 => "5",
        6 => "6",
        7 => "7",
        8 => "8",
        _ => "9",
    };
    proof {
        assert(r@ =~= seq![digit_char(d as nat)]);
    }
    r
}

/// A number rendered in decimal.
pub fn u64_string(n: u64) -> (r: String)
    ensures
        r@ == dec_digits(n as nat),
    decreases n,
{
    if n < 10 {
        digit_str(n).to_owned()
    } else {
        let mut s = u64_string(n / 10);
        s.append(digit_str(n % 10));
        proof {
            assert(s@ =~= dec_digits(n as nat));
        }
        s
    }
}

/// An uptime of `total` seconds spelt for people, in days, hours, minutes
/// and seconds, leading units dropped while they are zero.
pub open spec fn duration_text(total: nat) -> Seq<char> {
    let days = total / 86400;
    let hours = (total % 86400) / 3600;
    let minutes = (total % 3600) / 60;
    let seconds = total % 60;
    if days > 0 {
        dec_digits(days) + seq!['d', ' '] + dec_digits(hours) + seq!['h', ' '] + dec_digits(
            minutes,
        ) + seq!['m', ' '] + dec_digits(seconds) + seq!['s']
    } else if hours > 0 {
        dec_digits(hours) + seq!['h', ' '] + dec_digits(minutes) + seq!['m', ' '] + dec_digits(
            seconds,
        ) + seq!['s']
    } else if minutes > 0 {
        dec_digits(minutes) + seq!['m', ' '] + dec_digits(seconds) + seq!['s']
    } else {
        dec_digits(seconds) + seq!['s']
    }
}

/// Format a duration in whole seconds the way the health endpoints show
/// uptime.
pub fn format_duration(total_secs: u64) -> (r: String)
    ensures
        r@ == duration_text(total_secs as nat),
{
    proof {
        reveal_strlit("d ");
        reveal_strlit("h ");
        reveal_strlit("m ");
        reveal_strlit("s");
    }
    let days = total_secs / 86400;
    let hours = (total_secs % 86400) / 3600;
    let minutes = (total_secs % 3600) / 60;
    let seconds = total_secs % 60;
    let mut r = String::new();
    if days > 0 {
        r.append(u64_string(days).as_str());
        r.append("d ");
        r.append(u64_string(hours).as_str());
        r.append("h ");
        r.append(u64_string(minutes).as_str());
        r.append("m ");
        r.append(u64_string(seconds).as_str());
        r.append("s");
    } else if hours > 0 {
        r.append(u64_string(hours).as_str());
        r.append("h ");
        r.append(u64_string(minutes).as_str());
        r.append("m ");
        r.append(u64_string(seconds).as_str());
        r.append("s");
    } else if minutes > 0 {
        r.append(u64_string(minutes).as_str());
        r.append("m ");
        r.append(u64_string(seconds).as_str());
        r.append("s");
    } else {
        r.append(u64_string(seconds).as_str());
        r.append("s");
    }
    proof {
        assert(("d ")@ =~= seq!['d', ' ']);
        assert(("h ")@ =~= seq!['h', ' ']);
        assert(("m ")@ =~= seq!['m', ' ']);
        assert(("s")@ =~= seq!['s']);
        assert(r@ =~= duration_text(total_secs as nat));
    }
    r
}

} // verus!
