//! `now(format)`: the current UTC time in one of a few fixed formats. The
//! calendar date is computed from the Unix time with Howard Hinnant's
//! `civil_from_days` algorithm.

use vstd::prelude::*;
use crate::errors::{SubstitutionError, ErrV};
use crate::text::{dec, dec_exec, push_str, push_all, string_of, chars_of, eq_lit};

verus! {

/// The UTC calendar parts `(year, month, day, hour, minute, second)` of a
/// Unix time in seconds.
pub open spec fn civil(secs: int) -> (int, u32, u32, u32, u32, u32) {
    let days = secs / 86400;
    let tod = secs % 86400;
    let z = days + 719468;
    let era = (if z >= 0 { z } else { z - 146096 }) / 146097;
    let doe = z - era * 146097;
    let yoe = (doe - doe / 1460 + doe / 36524 - doe / 146096) / 365;
    let y0 = yoe + era * 400;
    let doy = doe - (365 * yoe + yoe / 4 - yoe / 100);
    let mp = (5 * doy + 2) / 153;
    let day = (doy - (153 * mp + 2) / 5 + 1) as u32;
    let month = (if mp < 10 { mp + 3 } else { mp - 9 }) as u32;
    let year = y0 + if month <= 2 { 1int } else { 0int };
    (year, month, day, (tod / 3600) as u32, ((tod % 3600) / 60) as u32, (tod % 60) as u32)
}

/// Splits a Unix time into its UTC calendar parts.
#[verifier::rlimit(40)]
pub fn civil_parts(secs: i64) -> (r: (i64, u32, u32, u32, u32, u32))
    requires
        secs >= 0,
    ensures
        (r.0 as int, r.1, r.2, r.3, r.4, r.5) == civil(secs as int),
        r.0 >= 0,
        r.3 < 24 && r.4 < 60 && r.5 < 60,
{
    let days = secs / 86400;
    let tod = secs % 86400;
    assert(0 <= days <= 106751991167300) by (nonlinear_arith)
        requires
            0 <= secs <= i64::MAX,
            days == secs / 86400,
    ;
    let z = days + 719468;
    let zz = if z >= 0 { z } else { z - 146096 };
    let era = zz / 146097;
    assert(0 <= era <= 1000000000) by (nonlinear_arith)
        requires
            0 <= zz <= 106751991886768,
            era == zz / 146097,
    ;
    let doe = z - era * 146097;
    assert(0 <= doe < 146097) by (nonlinear_arith)
        requires
            z >= 0,
            zz == z,
            era == zz / 146097,
            doe == z - era * 146097,
    ;
    let a = doe / 1460;
    let b = doe / 36524;
    let c = doe / 146096;
    assert(0 <= a <= doe && 0 <= b <= 4 && 0 <= c <= 1) by (nonlinear_arith)
        requires
            0 <= doe < 146097,
            a == doe / 1460,
            b == doe / 36524,
            c == doe / 146096,
    ;
    assert(doe >= 1 ==> a < doe) by (nonlinear_arith)
        requires
            0 <= doe,
            a == doe / 1460,
    ;
    assert(doe == 0 ==> a == 0 && b == 0 && c == 0);
    let yoe = (doe - a + b - c) / 365;
    assert(0 <= yoe <= 402) by (nonlinear_arith)
        requires
            0 <= doe - a + b - c <= 146101,
            yoe == (doe - a + b - c) / 365,
    ;
    let y0 = yoe + era * 400;
    let doy = doe - (365 * yoe + yoe / 4 - yoe / 100);
    assert(-150000 <= doy <= 150000);
    let mp = (5 * doy + 2) / 153;
    assert(-5000 <= mp <= 5000) by (nonlinear_arith)
        requires
            -150000 <= doy <= 150000,
            mp == (5 * doy + 2) / 153,
    ;
    let day = (doy - (153 * mp + 2) / 5 + 1) as u32;
    let month = (if mp < 10 { mp + 3 } else { mp - 9 }) as u32;
    let year = y0 + if month <= 2 { 1 } else { 0 };
    let h = (tod / 3600) as u32;
    let mi = ((tod % 3600) / 60) as u32;
    let s = (tod % 60) as u32;
    (year, month, day, h, mi, s)
}

/// `n` in decimal, padded with zeros on the left to at least `w` digits.
pub open spec fn pad(n: nat, w: nat) -> Seq<char> {
    if dec(n).len() >= w {
        dec(n)
    } else {
        Seq::new((w - dec(n).len()) as nat, |i: int| '0') + dec(n)
    }
}

/// The text of `now(format)` at Unix time `secs` (`millis` in milliseconds).
pub open spec fn time_text(format: Seq<char>, secs: nat, millis: nat) -> Result<Seq<char>, ErrV> {
    if format == "unix"@ || format == "unix-timestamp"@ {
        Ok(dec(secs))
    } else if format == "unix-ms"@ || format == "unix-millis"@ {
        Ok(dec(millis))
    } else {
        let (y, mo, d, h, mi, s) = civil(secs as int);
        let year = pad(y as nat, 4);
        let date = year + "-"@ + pad(mo as nat, 2) + "-"@ + pad(d as nat, 2);
        let time = pad(h as nat, 2) + ":"@ + pad(mi as nat, 2) + ":"@ + pad(s as nat, 2);
        if format == "iso"@ || format == "iso-8601"@ || format == "rfc3339"@ {
            Ok(date + "T"@ + time + "Z"@)
        } else if format == "iso-date"@ || format == "date"@ {
            Ok(date)
        } else if format == "iso-time"@ || format == "time"@ {
            Ok(time)
        } else if format == "year"@ {
            Ok(year)
        } else if format == "month"@ {
            Ok(pad(mo as nat, 2))
        } else if format == "day"@ {
            Ok(pad(d as nat, 2))
        } else if format == "hour"@ {
            Ok(pad(h as nat, 2))
        } else if format == "minute"@ {
            Ok(pad(mi as nat, 2))
        } else if format == "second"@ {
            Ok(pad(s as nat, 2))
        } else {
            Err(ErrV::InvalidTimeFormat(format))
        }
    }
}

/// `n` in decimal.
pub fn dec_u128(n: u128) -> (r: Vec<char>)
    ensures
        r@ == dec(n as nat),
    decreases n,
{
    if n < 10 {
        let mut v: Vec<char> = Vec::new();
        v.push(crate::text::digit_char_x(n as usize));
        proof {
            reveal_with_fuel(dec, 1);
        }
        v
    } else {
        let mut v = dec_u128(n / 10);
        v.push(crate::text::digit_char_x((n % 10) as usize));
        v
    }
}

fn pad_x(n: u128, w: usize) -> (r: Vec<char>)
    ensures
        r@ == pad(n as nat, w as nat),
{
    let d = dec_u128(n);
    if d.len() >= w {
        return d;
    }
    let mut out: Vec<char> = Vec::new();
    let k = w - d.len();
    let mut i: usize = 0;
    while i < k
        invariant
            i <= k,
            k == w - d.len(),
            out@ == Seq::new(i as nat, |j: int| '0'),
        decreases k - i,
    {
        out.push('0');
        i += 1;
        assert(out@ =~= Seq::new(i as nat, |j: int| '0'));
    }
    push_all(&mut out, &d);
    out
}

pub open spec fn time_view(r: Result<String, SubstitutionError>) -> Result<Seq<char>, ErrV> {
    match r {
        Ok(s) => Ok(s@),
        Err(e) => Err(e@),
    }
}

fn one_of2(v: &Vec<char>, a: &str, b: &str) -> (r: bool)
    ensures
        r == (v@ == a@ || v@ == b@),
{
    eq_lit(v, a) || eq_lit(v, b)
}

/// `now(format)` at the Unix time `secs` (`millis` in milliseconds):
/// `unix`/`unix-timestamp` and `unix-ms`/`unix-millis` as numbers;
/// `iso`/`iso-8601`/`rfc3339` as `YYYY-MM-DDTHH:MM:SSZ`; `iso-date`/`date`,
/// `iso-time`/`time`, and each of `year`, `month`, `day`, `hour`, `minute`,
/// `second` zero-padded. Any other format is refused.
pub fn now_formatted_at(format: &str, secs: u64, millis: u128) -> (r: Result<String, SubstitutionError>)
    requires
        secs <= i64::MAX,
    ensures
        time_view(r) == time_text(format@, secs as nat, millis as nat),
{
    let f = chars_of(format);
    if one_of2(&f, "unix", "unix-timestamp") {
        return Ok(string_of(&dec_u128(secs as u128)));
    }
    if one_of2(&f, "unix-ms", "unix-millis") {
        return Ok(string_of(&dec_u128(millis)));
    }
    let (y, mo, d, h, mi, s) = civil_parts(secs as i64);
    let year = pad_x(y as u128, 4);
    let mut date: Vec<char> = Vec::new();
    push_all(&mut date, &year);
    push_str(&mut date, "-");
    push_all(&mut date, &pad_x(mo as u128, 2));
    push_str(&mut date, "-");
    push_all(&mut date, &pad_x(d as u128, 2));
    let mut time: Vec<char> = Vec::new();
    push_all(&mut time, &pad_x(h as u128, 2));
    push_str(&mut time, ":");
    push_all(&mut time, &pad_x(mi as u128, 2));
    push_str(&mut time, ":");
    push_all(&mut time, &pad_x(s as u128, 2));
    if eq_lit(&f, "iso") || one_of2(&f, "iso-8601", "rfc3339") {
        let mut out: Vec<char> = Vec::new();
        push_all(&mut out, &date);
        push_str(&mut out, "T");
        push_all(&mut out, &time);
        push_str(&mut out, "Z");
        return Ok(string_of(&out));
    }
    if one_of2(&f, "iso-date", "date") {
        return Ok(string_of(&date));
    }
    if one_of2(&f, "iso-time", "time") {
        return Ok(string_of(&time));
    }
    if eq_lit(&f, "year") {
        return Ok(string_of(&year));
    }
    if eq_lit(&f, "month") {
        return Ok(string_of(&pad_x(mo as u128, 2)));
    }
    if eq_lit(&f, "day") {
        return Ok(string_of(&pad_x(d as u128, 2)));
    }
    if eq_lit(&f, "hour") {
        return Ok(string_of(&pad_x(h as u128, 2)));
    }
    if eq_lit(&f, "minute") {
        return Ok(string_of(&pad_x(mi as u128, 2)));
    }
    if eq_lit(&f, "second") {
        return Ok(string_of(&pad_x(s as u128, 2)));
    }
    Err(SubstitutionError::InvalidTimeFormat(string_of(&f)))
}

/// The time since the Unix epoch in seconds and in milliseconds, or `None`
/// when the system clock is before the epoch. It depends on the clock, so
/// nothing is stated of it.
#[verifier::external_body]
fn unix_time() -> (r: Option<(u64, u128)>) {
    match std::time::SystemTime::now().duration_since(std::time::UNIX_EPOCH) {
        Ok(d) => Some((d.as_secs(), d.as_millis())),
        Err(_) => None,
    }
}

pub open spec fn clock_error() -> Seq<char> {
    "system clock is before the Unix epoch"@
}

/// `now(format)` at the current time. Whatever the clock says, the result is
/// `now_formatted_at` at some time within the range it takes, or an error
/// naming a clock before the Unix epoch or beyond `i64::MAX` seconds.
pub fn now_formatted(format: &str) -> (r: Result<String, SubstitutionError>)
    ensures
        time_view(r) == Err::<Seq<char>, ErrV>(ErrV::InvalidTimeFormat(clock_error()))
            || time_view(r) == Err::<Seq<char>, ErrV>(ErrV::InvalidTimeFormat("system clock is out of range"@))
            || exists|secs: nat, millis: nat| secs <= i64::MAX && #[trigger] time_text(format@, secs, millis) == time_view(r),
{
    match unix_time() {
        Some((secs, millis)) => {
            if secs <= 9223372036854775807u64 {
                let r = now_formatted_at(format, secs, millis);
                assert(time_text(format@, secs as nat, millis as nat) == time_view(r));
                r
            } else {
                let mut m: Vec<char> = Vec::new();
                push_str(&mut m, "system clock is out of range");
                Err(SubstitutionError::InvalidTimeFormat(string_of(&m)))
            }
        },
        None => {
            let mut m: Vec<char> = Vec::new();
            push_str(&mut m, "system clock is before the Unix epoch");
            Err(SubstitutionError::InvalidTimeFormat(string_of(&m)))
        },
    }
}

} // verus!
