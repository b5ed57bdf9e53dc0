//! Verified core of the viperstem hobby kernel: the section allocator, the
//! descriptor-table encoder, the execution queue, the fixed stacks, the
//! framebuffer terminal's cursor logic, page-table index arithmetic and the
//! boot timestamp decomposition.
pub mod utils;
pub mod memory;
pub mod output;
pub mod descriptors;
pub mod execution;
pub mod paging;
pub mod interrupts;
pub mod cpu;

use vstd::prelude::*;

verus! {

/// Seconds per minute, hour, day, "month" and "year" as the timestamp
/// decomposition counts them (a month is 2_682_000 s, a year 31_536_000 s).
pub const SECS_PER_MIN: u32 = 60;
pub const SECS_PER_HOUR: u32 = 3600;
pub const SECS_PER_DAY: u32 = 86_400;
pub const SECS_PER_MONTH: u32 = 2_682_000;
pub const SECS_PER_YEAR: u32 = 31_536_000;

/// Seconds within the current minute.
pub open spec fn second_part(t: int) -> int {
    t % 60
}

/// Seconds of the whole minutes within the current hour.
pub open spec fn minute_part(t: int) -> int {
    t % 3600 - t % 60
}

/// Seconds of the whole hours within the current day.
pub open spec fn hour_part(t: int) -> int {
    t % 86_400 - t % 3600
}

/// The timestamp rounded down to a whole day.
pub open spec fn day_start(t: int) -> int {
    t - t % 86_400
}

/// Seconds of the whole days within the current month.
pub open spec fn day_part(t: int) -> int {
    day_start(t) % 2_682_000
}

/// Seconds of the whole months within the current year.
pub open spec fn month_part(t: int) -> int {
    (day_start(t) - day_part(t)) % 31_536_000
}

/// Seconds of the whole years.
pub open spec fn year_part(t: int) -> int {
    day_start(t) - day_part(t) - month_part(t)
}

/// Stripping the part below `a` leaves the remainder modulo `a * k` reduced by
/// the remainder modulo `a`.
proof fn lemma_strip_low(t: int, a: int, k: int)
    requires
        t >= 0,
        a > 0,
        k > 0,
    ensures
        (t - t % a) % (a * k) == t % (a * k) - t % a,
        0 <= t % a <= t % (a * k),
{
    let ak = a * k;
    assert(ak > 0) by (nonlinear_arith)
        requires
            ak == a * k,
            a > 0,
            k > 0,
    ;
    let q = t / ak;
    let r = t % ak;
    vstd::arithmetic::div_mod::lemma_fundamental_div_mod(t, ak);
    vstd::arithmetic::div_mod::lemma_mod_bound(t, ak);
    let r1 = r / a;
    let r2 = r % a;
    vstd::arithmetic::div_mod::lemma_fundamental_div_mod(r, a);
    vstd::arithmetic::div_mod::lemma_mod_bound(r, a);
    assert(r1 >= 0) by (nonlinear_arith)
        requires
            r >= 0,
            a > 0,
            r1 == r / a,
    ;
    assert(t == (q * k + r1) * a + r2) by (nonlinear_arith)
        requires
            t == ak * q + r,
            r == a * r1 + r2,
            ak == a * k,
    ;
    vstd::arithmetic::div_mod::lemma_fundamental_div_mod_converse(t, a, q * k + r1, r2);
    assert(t - r2 == q * ak + r1 * a) by (nonlinear_arith)
        requires
            t == ak * q + r,
            r == a * r1 + r2,
    ;
    assert(0 <= r1 * a <= r) by (nonlinear_arith)
        requires
            r1 >= 0,
            a > 0,
            r == a * r1 + r2,
            r2 >= 0,
    ;
    vstd::arithmetic::div_mod::lemma_fundamental_div_mod_converse(t - r2, ak, q, r1 * a);
}

/// The decimal digit for `d` (0..=9).
pub open spec fn decimal_digit(d: int) -> char {
    (d + 48) as char
}

/// The decimal notation of `n`, without leading zeros.
pub open spec fn decimal(n: nat) -> Seq<char>
    decreases n,
{
    if n < 10 {
        seq![decimal_digit(n as int)]
    } else {
        decimal(n / 10).push(decimal_digit((n % 10) as int))
    }
}

/// `"{days}/{months}/{years} {hours}:{minutes}:{seconds} {am_pm}"` with the
/// numbers in decimal.
pub open spec fn timestamp_text(
    days: nat,
    months: nat,
    years: nat,
    hours: nat,
    minutes: nat,
    seconds: nat,
    am_pm: Seq<char>,
) -> Seq<char> {
    decimal(days) + seq!['/'] + decimal(months) + seq!['/'] + decimal(years) + seq![' '] + decimal(
        hours,
    ) + seq![':'] + decimal(minutes) + seq![':'] + decimal(seconds) + seq![' '] + am_pm
}

/// `u32::to_string`: the `Display` text of a `u32`, its decimal notation
/// without leading zeros.
#[verifier::external_body]
fn decimal_string(n: u32) -> (s: String)
    ensures
        s@ == decimal(n as nat),
{
    n.to_string()
}

/// The timestamp text for the given fields (see [`timestamp_text`]).
fn render_timestamp(
    days: u32,
    months: u32,
    years: u32,
    hours: u32,
    minutes: u32,
    seconds: u32,
    am_pm: &str,
) -> (s: String)
    ensures
        s@ == timestamp_text(
            days as nat,
            months as nat,
            years as nat,
            hours as nat,
            minutes as nat,
            seconds as nat,
            am_pm@,
        ),
{
    let slash = "/";
    let space = " ";
    let colon = ":";
    proof {
        reveal_strlit("/");
        reveal_strlit(" ");
        reveal_strlit(":");
        assert(slash@ =~= seq!['/']);
        assert(space@ =~= seq![' ']);
        assert(colon@ =~= seq![':']);
    }
    let mut s = decimal_string(days);
    s.append(slash);
    s.append(decimal_string(months).as_str());
    s.append(slash);
    s.append(decimal_string(years).as_str());
    s.append(space);
    s.append(decimal_string(hours).as_str());
    s.append(colon);
    s.append(decimal_string(minutes).as_str());
    s.append(colon);
    s.append(decimal_string(seconds).as_str());
    s.append(space);
    s.append(am_pm);
    s
}

/// The text a [`UnixTime`] of `t` seconds is shown as: day, month, year (from
/// 1970), hours divided by 12, minutes, seconds, and "PM" when the hour of the
/// day is past 12, else "AM".
pub open spec fn shown_time(t: int) -> Seq<char> {
    timestamp_text(
        (day_part(t) / 86_400) as nat,
        (month_part(t) / 2_682_000) as nat,
        (year_part(t) / 31_536_000 + 1970) as nat,
        (hour_part(t) / 3600 / 12) as nat,
        (minute_part(t) / 60) as nat,
        second_part(t) as nat,
        if hour_part(t) / 3600 > 12 { seq!['P', 'M'] } else { seq!['A', 'M'] },
    )
}

/// The whole-unit parts of a timestamp add up to it again.
pub proof fn law_parts_sum(t: u32)
    ensures
        second_part(t as int) + minute_part(t as int) + hour_part(t as int) + day_part(t as int)
            + month_part(t as int) + year_part(t as int) == t,
{
    UnixTime(t).lemma_day_parts();
}

/// Each calendar field stays within its unit: seconds and minutes below 60,
/// hours below 24, days at most 31, months at most 11, years at most 136.
pub proof fn law_field_ranges(t: u32)
    ensures
        second_part(t as int) < 60,
        minute_part(t as int) / 60 < 60,
        hour_part(t as int) / 3600 < 24,
        day_part(t as int) / 86_400 <= 31,
        month_part(t as int) / 2_682_000 <= 11,
        year_part(t as int) / 31_536_000 <= 136,
{
    let x = t as int;
    UnixTime(t).lemma_day_parts();
    UnixTime(t).lemma_low_parts();
    vstd::arithmetic::div_mod::lemma_mod_bound(x, 60);
    vstd::arithmetic::div_mod::lemma_mod_bound(x, 3600);
    vstd::arithmetic::div_mod::lemma_mod_bound(x, 86_400);
    vstd::arithmetic::div_mod::lemma_mod_bound(day_start(x), 2_682_000);
    vstd::arithmetic::div_mod::lemma_mod_bound(day_start(x) - day_part(x), 31_536_000);
    lemma_strip_low(x, 60, 60);
    lemma_strip_low(x, 3600, 24);
}

/// A time as whole seconds since the Unix epoch, taken apart into calendar
/// fields with a fixed-length month and year.
pub struct UnixTime(u32);

impl UnixTime {
    /// The number of seconds.
    pub closed spec fn value(&self) -> u32 {
        self.0
    }

    /// The low 32 bits of `time`, as `as u32` takes them.
    pub fn from_i64(time: i64) -> (t: UnixTime)
        ensures
            t.value() == time as u32,
    {
        UnixTime(time as u32)
    }

    /// Seconds within the minute.
    pub fn secs(&self) -> (r: u32)
        ensures
            r == second_part(self.value() as int),
    {
        self.0 % 60
    }

    /// Seconds within the minute (the part below a whole minute).
    pub fn pure_secs(&self) -> (r: u32)
        ensures
            r == second_part(self.value() as int),
    {
        self.0 % 60
    }

    /// Whole minutes within the hour.
    pub fn mins(&self) -> (r: u32)
        ensures
            r == minute_part(self.value() as int) / 60,
    {
        proof {
            lemma_strip_low(self.0 as int, 60, 60);
        }
        ((self.0 - self.pure_secs()) % 3600) / 60
    }

    /// Seconds of the whole minutes within the hour.
    pub fn pure_mins(&self) -> (r: u32)
        ensures
            r == minute_part(self.value() as int),
    {
        proof {
            lemma_strip_low(self.0 as int, 60, 60);
        }
        (self.0 - self.pure_secs()) % 3600
    }

    proof fn lemma_low_parts(&self)
        ensures
            second_part(self.0 as int) + minute_part(self.0 as int) == (self.0 as int) % 3600,
            minute_part(self.0 as int) >= 0,
            hour_part(self.0 as int) >= 0,
            (self.0 as int) % 3600 <= self.0,
            (self.0 as int) % 86_400 <= self.0,
            (self.0 - (self.0 as int) % 3600) % 86_400 == hour_part(self.0 as int),
    {
        let t = self.0 as int;
        lemma_strip_low(t, 60, 60);
        lemma_strip_low(t, 3600, 24);
        vstd::arithmetic::div_mod::lemma_mod_decreases(self.0 as nat, 3600);
        vstd::arithmetic::div_mod::lemma_mod_decreases(self.0 as nat, 86_400);
    }

    /// Whole hours within the day.
    pub fn hrs(&self) -> (r: u32)
        ensures
            r == hour_part(self.value() as int) / 3600,
    {
        proof {
            self.lemma_low_parts();
        }
        (((self.0 - self.pure_secs()) - self.pure_mins()) % 86_400) / 3600
    }

    /// Seconds of the whole hours within the day.
    pub fn pure_hrs(&self) -> (r: u32)
        ensures
            r == hour_part(self.value() as int),
    {
        proof {
            self.lemma_low_parts();
        }
        ((self.0 - self.pure_secs()) - self.pure_mins()) % 86_400
    }

    proof fn lemma_day_parts(&self)
        ensures
            second_part(self.0 as int) + minute_part(self.0 as int) + hour_part(self.0 as int)
                == (self.0 as int) % 86_400,
            0 <= day_start(self.0 as int) <= self.0,
            0 <= day_part(self.0 as int) <= day_start(self.0 as int),
            0 <= month_part(self.0 as int) <= day_start(self.0 as int) - day_part(self.0 as int),
            year_part(self.0 as int) >= 0,
    {
        let t = self.0 as int;
        self.lemma_low_parts();
        vstd::arithmetic::div_mod::lemma_mod_bound(t, 86_400);
        vstd::arithmetic::div_mod::lemma_mod_decreases(day_start(t) as nat, 2_682_000);
        vstd::arithmetic::div_mod::lemma_mod_decreases(
            (day_start(t) - day_part(t)) as nat,
            31_536_000,
        );
    }

    /// Whole days within the month.
    pub fn days(&self) -> (r: u32)
        ensures
            r == day_part(self.value() as int) / 86_400,
    {
        proof {
            self.lemma_day_parts();
        }
        ((((self.0 - self.pure_secs()) - self.pure_mins()) - self.pure_hrs()) % 2_682_000) / 86_400
    }

    /// Seconds of the whole days within the month.
    pub fn pure_days(&self) -> (r: u32)
        ensures
            r == day_part(self.value() as int),
    {
        proof {
            self.lemma_day_parts();
        }
        (((self.0 - self.pure_secs()) - self.pure_mins()) - self.pure_hrs()) % 2_682_000
    }

    /// Whole months within the year.
    pub fn mths(&self) -> (r: u32)
        ensures
            r == month_part(self.value() as int) / 2_682_000,
    {
        proof {
            self.lemma_day_parts();
        }
        (((((self.0 - self.pure_secs()) - self.pure_mins()) - self.pure_hrs()) - self.pure_days())
            % 31_536_000) / 2_682_000
    }

    /// Seconds of the whole months within the year.
    pub fn pure_mths(&self) -> (r: u32)
        ensures
            r == month_part(self.value() as int),
    {
        proof {
            self.lemma_day_parts();
        }
        ((((self.0 - self.pure_secs()) - self.pure_mins()) - self.pure_hrs()) - self.pure_days())
            % 31_536_000
    }

    /// Whole years.
    pub fn yrs(&self) -> (r: u32)
        ensures
            r == year_part(self.value() as int) / 31_536_000,
    {
        proof {
            self.lemma_day_parts();
        }
        (((((self.0 - self.pure_secs()) - self.pure_mins()) - self.pure_hrs()) - self.pure_days())
            - self.pure_mths()) / 31_536_000
    }

    /// Seconds of the whole years.
    pub fn pure_yrs(&self) -> (r: u32)
        ensures
            r == year_part(self.value() as int),
    {
        proof {
            self.lemma_day_parts();
        }
        ((((self.0 - self.pure_secs()) - self.pure_mins()) - self.pure_hrs()) - self.pure_days())
            - self.pure_mths()
    }
    /// The text the time is shown as (`shown_time`).
    pub fn display_string(&self) -> (s: String)
        ensures
            s@ == shown_time(self.value() as int),
    {
        proof {
            law_field_ranges(self.0);
        }
        let seconds = self.secs();
        let minutes = self.mins();
        let hours = self.hrs() / 12;
        let days = self.days();
        let months = self.mths();
        let years = self.yrs() + 1970;
        let am_pm = if self.hrs() > 12 {
            "PM"
        } else {
            "AM"
        };
        proof {
            reveal_strlit("PM");
            reveal_strlit("AM");
            assert("PM"@ =~= seq!['P', 'M']);
            assert("AM"@ =~= seq!['A', 'M']);
        }
        render_timestamp(days, months, years, hours, minutes, seconds, am_pm)
    }
}

} // verus!
