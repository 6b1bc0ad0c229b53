//! Wall-clock timestamps in the ISO-8601 shape `YYYY-MM-DDTHH:MM:SS.sssZ`.

use vstd::prelude::*;

verus! {

/// `SystemTime::now().duration_since(UNIX_EPOCH)`, as whole seconds and the
/// millisecond part (a clock before the epoch reads as zero). The reading
/// depends on the machine's clock, so only the range of the millisecond
/// part (below 1000, as `Duration::subsec_millis` documents) is stated.
#[verifier::external_body]
fn unix_clock() -> (r: (u64, u32))
    ensures
        r.1 < 1000,
{
    let d = std::time::SystemTime::now().duration_since(std::time::UNIX_EPOCH).unwrap_or_default();
    (d.as_secs(), d.subsec_millis())
}

/// Largest day count that [`days_to_ymd`] accepts: the last day before the
/// 400-year era whose year would no longer fit the `i32` that the year is
/// computed in.
pub const MAX_DAY_COUNT: i64 = 784_351_559_304;

/// Smallest day count that [`days_to_ymd`] accepts: the first day of the
/// earliest 400-year era whose first year still fits an `i32` times 400.
pub const MIN_DAY_COUNT: i64 = -784_352_998_241;

pub open spec fn civil_from_days(days: int) -> (int, int, int) {
    let z = days + 719468;
    let era = z / 146097;
    let doe = z - era * 146097;
    let yoe = (doe - doe / 1460 + doe / 36524 - doe / 146096) / 365;
    let y = yoe + era * 400;
    let doy = doe - (365 * yoe + yoe / 4 - yoe / 100);
    let mp = (5 * doy + 2) / 153;
    let d = doy - (153 * mp + 2) / 5 + 1;
    let m = if mp < 10 { mp + 3 } else { mp - 9 };
    let y2 = if m <= 2 { y + 1 } else { y };
    (y2, m, d)
}

/// Convert days-since-1970-01-01 to a (year, month, day) tuple
/// (Howard Hinnant's `civil_from_days`), for the days whose year arithmetic
/// stays within `i32`.
pub fn days_to_ymd(days: i64) -> (r: (i32, u32, u32))
    requires
        MIN_DAY_COUNT <= days <= MAX_DAY_COUNT,
    ensures
        (r.0 as int, r.1 as int, r.2 as int) == civil_from_days(days as int),
        1 <= r.1 <= 12,
        1 <= r.2 <= 31,
{
    let z: i64 = days + 719_468;
    // Floor division by the era length (the truncating `/` on the shifted
    // value, for negative days).
    let era: i64 = if z >= 0 {
        z / 146_097
    } else {
        -((146_096 - z) / 146_097)
    };
    proof {
        lemma_floor_div_era(z as int, era as int);
    }
    let doe: i64 = z - era * 146_097;
    let yoe: i64 = (doe - doe / 1460 + doe / 36524 - doe / 146_096) / 365;
    proof {
        lemma_yoe_bounds(doe as int, yoe as int);
    }
    let y: i64 = yoe + era * 400;
    let doy: i64 = doe - (365 * yoe + yoe / 4 - yoe / 100);
    let mp: i64 = (5 * doy + 2) / 153;
    let d: i64 = doy - (153 * mp + 2) / 5 + 1;
    proof {
        lemma_day_bounds(doy as int, mp as int, d as int);
    }
    let m: i64 = if mp < 10 { mp + 3 } else { mp - 9 };
    let y2: i64 = if m <= 2 { y + 1 } else { y };
    (y2 as i32, m as u32, d as u32)
}

proof fn lemma_floor_div_era(z: int, era: int)
    requires
        -784_352_278_773 <= z <= 784_352_278_772,
        z >= 0 ==> era == z / 146097,
        z < 0 ==> era == -((146096 - z) / 146097),
    ensures
        era == z / 146097,
        0 <= z - era * 146097 <= 146096,
        -5_368_709 <= era <= 5_368_708,
{
    assert(era == z / 146097 && 0 <= z - era * 146097 <= 146096 && -5_368_709 <= era <= 5_368_708)
        by (nonlinear_arith)
        requires
            -784_352_278_773 <= z <= 784_352_278_772,
            z >= 0 ==> era == z / 146097,
            z < 0 ==> era == -((146096 - z) / 146097),
    ;
}

proof fn lemma_yoe_bounds(doe: int, yoe: int)
    requires
        0 <= doe <= 146096,
        yoe == (doe - doe / 1460 + doe / 36524 - doe / 146096) / 365,
    ensures
        0 <= yoe <= 399,
        0 <= doe - (365 * yoe + yoe / 4 - yoe / 100) <= 365,
{
    assert(0 <= yoe <= 399 && 0 <= doe - (365 * yoe + yoe / 4 - yoe / 100) <= 365)
        by (nonlinear_arith)
        requires
            0 <= doe <= 146096,
            yoe == (doe - doe / 1460 + doe / 36524 - doe / 146096) / 365,
    ;
}

proof fn lemma_day_bounds(doy: int, mp: int, d: int)
    requires
        0 <= doy <= 365,
        mp == (5 * doy + 2) / 153,
        d == doy - (153 * mp + 2) / 5 + 1,
    ensures
        0 <= mp <= 11,
        1 <= d <= 31,
{
    assert(0 <= mp <= 11 && 1 <= d <= 31) by (nonlinear_arith)
        requires
            0 <= doy <= 365,
            mp == (5 * doy + 2) / 153,
            d == doy - (153 * mp + 2) / 5 + 1,
    ;
}

/// Decimal digits of `n`, most significant first.
pub open spec fn digits(n: nat) -> Seq<char>
    decreases n,
{
    if n < 10 {
        seq![(('0' as u32) + n) as char]
    } else {
        digits(n / 10).push((('0' as u32) + (n % 10)) as char)
    }
}

/// `n` in decimal, left-padded with zeros to at least `width` characters
/// (`format!("{n:0width$}")`).
pub open spec fn padded(n: nat, width: nat) -> Seq<char> {
    let d = digits(n);
    if d.len() >= width {
        d
    } else {
        Seq::new((width - d.len()) as nat, |i: int| '0') + d
    }
}

pub proof fn lemma_digits_len(n: nat)
    ensures
        digits(n).len() >= 1,
        n < 10 ==> digits(n).len() == 1,
        n < 100 ==> digits(n).len() <= 2,
        n < 1000 ==> digits(n).len() <= 3,
        n < 10000 ==> digits(n).len() <= 4,
    decreases n,
{
    if n >= 10 {
        lemma_digits_len(n / 10);
    }
}

pub fn digit_char(n: u64) -> (c: char)
    requires
        n < 10,
    ensures
        c == (('0' as u32) + n) as char,
{
    let b: u8 = (48 + n) as u8;
    b as char
}

/// Append `n` in decimal, zero-padded to `width`.
pub fn push_padded(out: &mut Vec<char>, n: u64, width: usize)
    ensures
        final(out)@ == old(out)@ + padded(n as nat, width as nat),
{
    let mut d: Vec<char> = Vec::new();
    digits_into(&mut d, n);
    if d.len() < width {
        let mut k: usize = 0;
        while k < width - d.len()
            invariant
                d.len() < width,
                k <= width - d.len(),
                out@ == old(out)@ + Seq::new(k as nat, |i: int| '0'),
            decreases width - d.len() - k,
        {
            out.push('0');
            k += 1;
            assert(out@ =~= old(out)@ + Seq::new(k as nat, |i: int| '0'));
        }
    }
    crate::text::append(out, &d);
    assert(out@ =~= old(out)@ + padded(n as nat, width as nat));
}

/// Append the decimal digits of `n`.
pub fn digits_into(out: &mut Vec<char>, n: u64)
    ensures
        final(out)@ == old(out)@ + digits(n as nat),
    decreases n,
{
    if n < 10 {
        out.push(digit_char(n));
        assert(out@ =~= old(out)@ + digits(n as nat));
    } else {
        digits_into(out, n / 10);
        out.push(digit_char(n % 10));
        assert(out@ =~= old(out)@ + digits(n as nat));
    }
}

pub open spec fn ymd_of_secs(secs: u64) -> (int, int, int) {
    let days = secs / 86400;
    civil_from_days(if days > MAX_DAY_COUNT { MAX_DAY_COUNT as int } else { days as int })
}

/// The timestamp text for `secs` seconds and `millis` milliseconds after the
/// epoch (days past the range in which the year fits an `i32` read as its
/// end).
pub open spec fn iso_timestamp(secs: u64, millis: u32) -> Seq<char> {
    let (y, mo, d) = ymd_of_secs(secs);
    let sod = secs % 86400;
    padded(y as nat, 4) + seq!['-'] + padded(mo as nat, 2) + seq!['-'] + padded(d as nat, 2)
        + seq!['T'] + padded((sod / 3600) as nat, 2) + seq![':'] + padded(
        ((sod / 60) % 60) as nat,
        2,
    ) + seq![':'] + padded((sod % 60) as nat, 2) + seq!['.'] + padded(millis as nat, 3) + seq![
        'Z',
    ]
}

/// Is `s` the timestamp of some instant?
pub open spec fn is_timestamp(s: Seq<char>) -> bool {
    exists|secs: u64, millis: u32| millis < 1000 && s == iso_timestamp(secs, millis)
}

pub fn format_timestamp(secs: u64, millis: u32) -> (r: String)
    ensures
        r@ == iso_timestamp(secs, millis),
{
    let mut days: i64 = (secs / 86_400) as i64;
    if days > MAX_DAY_COUNT {
        days = MAX_DAY_COUNT;
    }
    let secs_of_day: u64 = secs % 86_400;
    let (year, month, day) = days_to_ymd(days);
    proof {
        // Days since the epoch are never negative, so the year is at least 1970.
        assert(civil_from_days(days as int).0 >= 0) by (nonlinear_arith)
            requires
                0 <= days <= MAX_DAY_COUNT,
        ;
    }
    let hour = secs_of_day / 3600;
    let minute = (secs_of_day / 60) % 60;
    let second = secs_of_day % 60;
    let mut out: Vec<char> = Vec::new();
    push_padded(&mut out, year as u64, 4);
    out.push('-');
    push_padded(&mut out, month as u64, 2);
    out.push('-');
    push_padded(&mut out, day as u64, 2);
    out.push('T');
    push_padded(&mut out, hour, 2);
    out.push(':');
    push_padded(&mut out, minute, 2);
    out.push(':');
    push_padded(&mut out, second, 2);
    out.push('.');
    push_padded(&mut out, millis as u64, 3);
    out.push('Z');
    assert(out@ =~= iso_timestamp(secs, millis));
    crate::text::string_of(&out)
}

/// ISO-8601 timestamp in UTC, `YYYY-MM-DDTHH:MM:SS.sssZ`.
pub fn now_iso8601() -> (r: String)
    ensures
        is_timestamp(r@),
{
    let (secs, millis) = unix_clock();
    let r = format_timestamp(secs, millis);
    assert(millis < 1000 && r@ == iso_timestamp(secs, millis));
    r
}

} // verus!
