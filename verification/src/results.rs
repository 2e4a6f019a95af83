//! Run-result timestamps: UTC `YYYY-MM-DDTHH:MM:SSZ` text for a count of
//! seconds since the Unix epoch, and back.

use crate::cs2_config::seq_lt;
use crate::text::{decimal, decimal_chars, digit_char};
use vstd::prelude::*;

verus! {

/// Year-of-era for a day-of-era (Hinnant's `civil_from_days` step).
pub open spec fn year_of_era(doe: int) -> int {
    (doe - doe / 1460 + doe / 36524 - doe / 146096) / 365
}

/// Day-of-year (counted from March 1) for a day-of-era.
pub open spec fn day_of_year(doe: int) -> int {
    let yoe = year_of_era(doe);
    doe - (365 * yoe + yoe / 4 - yoe / 100)
}

proof fn lemma_era_day_bounds_bv(doe: u32)
    by (bit_vector)
    requires
        doe < 146097,
    ensures
        (doe - doe / 1460 + doe / 36524 - doe / 146096) / 365 < 400,
        365 * ((doe - doe / 1460 + doe / 36524 - doe / 146096) / 365)
            + ((doe - doe / 1460 + doe / 36524 - doe / 146096) / 365) / 4
            - ((doe - doe / 1460 + doe / 36524 - doe / 146096) / 365) / 100 <= doe,
        doe - (365 * ((doe - doe / 1460 + doe / 36524 - doe / 146096) / 365)
            + ((doe - doe / 1460 + doe / 36524 - doe / 146096) / 365) / 4
            - ((doe - doe / 1460 + doe / 36524 - doe / 146096) / 365) / 100) <= 365,
{
}

/// Within an era, the next day is in the same year-of-era or the next one.
proof fn lemma_year_step_bv(doe: u32)
    by (bit_vector)
    requires
        doe < 146096,
    ensures
        (doe + 1 - (doe + 1) / 1460 + (doe + 1) / 36524 - (doe + 1) / 146096) / 365 == (doe
            - doe / 1460 + doe / 36524 - doe / 146096) / 365 || (doe + 1 - (doe + 1) / 1460 + (
        doe + 1) / 36524 - (doe + 1) / 146096) / 365 == (doe - doe / 1460 + doe / 36524 - doe
            / 146096) / 365 + 1,
{
}

} // verus!

verus! {

/// Days since 1970-01-01 to a proleptic Gregorian `(year, month, day)`
/// (Howard Hinnant's `civil_from_days`).
pub open spec fn civil_from_days(days: int) -> (int, int, int) {
    let z = days + 719468;
    let era = z / 146097;
    let doe = z % 146097;
    let yoe = year_of_era(doe);
    let y = yoe + era * 400;
    let doy = day_of_year(doe);
    let mp = (5 * doy + 2) / 153;
    let d = doy - (153 * mp + 2) / 5 + 1;
    let mo = if mp < 10 {
        mp + 3
    } else {
        mp - 9
    };
    (
        if mo <= 2 {
            y + 1
        } else {
            y
        },
        mo,
        d,
    )
}

/// `n` in decimal, zero-padded on the left to at least `w` characters
/// (what `{:0w}` formats).
pub open spec fn pad(n: nat, w: nat) -> Seq<char> {
    let d = decimal(n);
    if d.len() >= w {
        d
    } else {
        Seq::new((w - d.len()) as nat, |i: int| '0') + d
    }
}

/// `secs` seconds after the Unix epoch as `YYYY-MM-DDTHH:MM:SSZ`.
pub open spec fn timestamp_text(secs: nat) -> Seq<char> {
    let days = secs / 86400;
    let rem = secs % 86400;
    let (y, mo, d) = civil_from_days(days as int);
    pad(y as nat, 4) + seq!['-'] + pad(mo as nat, 2) + seq!['-'] + pad(d as nat, 2) + seq!['T']
        + pad(rem / 3600, 2) + seq![':'] + pad((rem % 3600) / 60, 2) + seq![':'] + pad(
        rem % 60,
        2,
    ) + seq!['Z']
}

proof fn lemma_era_day_bounds(doe: int)
    requires
        0 <= doe < 146097,
    ensures
        0 <= year_of_era(doe) < 400,
        0 <= day_of_year(doe) <= 365,
{
    lemma_era_day_bounds_bv(doe as u32);
    assert(doe - doe / 1460 + doe / 36524 - doe / 146096 >= 0);
}

/// Bounds on the pieces of [`civil_from_days`] for a non-negative day count.
proof fn lemma_civil_bounds(days: int)
    requires
        0 <= days,
    ensures
        ({
            let (y, mo, d) = civil_from_days(days);
            0 <= y && 1 <= mo <= 12 && 1 <= d <= 31
        }),
{
    let z = days + 719468;
    let doe = z % 146097;
    lemma_era_day_bounds(doe);
    let doy = day_of_year(doe);
    let mp = (5 * doy + 2) / 153;
    assert(0 <= mp <= 11);
    assert(153 * mp <= 5 * doy + 2 < 153 * mp + 153);
    let q = (153 * mp + 2) / 5;
    assert(5 * q <= 153 * mp + 2 < 5 * q + 5);
    assert(0 <= doy - q <= 30);
}

/// Appends `n` in decimal, zero-padded to at least `w` characters.
fn push_padded(out: &mut Vec<char>, n: u64, w: usize)
    ensures
        final(out)@ == old(out)@ + pad(n as nat, w as nat),
{
    let d = decimal_chars(n);
    let ghost start = out@;
    if d.len() < w {
        let mut k: usize = 0;
        while k < w - d.len()
            invariant
                d.len() < w,
                k <= w - d.len(),
                out@ == start + Seq::new(k as nat, |i: int| '0'),
            decreases w - d.len() - k,
        {
            out.push('0');
            k += 1;
            assert(out@ =~= start + Seq::new(k as nat, |i: int| '0'));
        }
        crate::text::push_chars(out, &d);
        assert(out@ =~= start + (Seq::new((w - d.len()) as nat, |i: int| '0') + d@));
    } else {
        crate::text::push_chars(out, &d);
    }
}

/// `days` since the epoch to `(year, month, day)`.
fn civil_from_days_exec(days: u64) -> (r: (u64, u64, u64))
    requires
        days <= 213_503_982_334_601,
    ensures
        r.0 as int == civil_from_days(days as int).0,
        r.1 as int == civil_from_days(days as int).1,
        r.2 as int == civil_from_days(days as int).2,
{
    proof {
        lemma_civil_bounds(days as int);
        lemma_era_day_bounds((days + 719468) % 146097);
    }
    let z: u64 = days + 719_468;
    let era: u64 = z / 146_097;
    let doe: u64 = z % 146_097;
    let yoe: u64 = (doe - doe / 1460 + doe / 36_524 - doe / 146_096) / 365;
    let y: u64 = yoe + era * 400;
    let doy: u64 = doe - (365 * yoe + yoe / 4 - yoe / 100);
    let mp: u64 = (5 * doy + 2) / 153;
    let d: u64 = doy - (153 * mp + 2) / 5 + 1;
    let mo: u64 = if mp < 10 {
        mp + 3
    } else {
        mp - 9
    };
    let y: u64 = if mo <= 2 {
        y + 1
    } else {
        y
    };
    (y, mo, d)
}

/// `secs` seconds after the Unix epoch as `YYYY-MM-DDTHH:MM:SSZ` (RFC 3339,
/// UTC, second precision; the year has at least four digits).
pub fn utc_timestamp_from_unix(secs: u64) -> (r: String)
    ensures
        r@ == timestamp_text(secs as nat),
{
    let days: u64 = secs / 86_400;
    let rem: u64 = secs % 86_400;
    let (y, mo, d) = civil_from_days_exec(days);
    let mut out: Vec<char> = Vec::new();
    push_padded(&mut out, y, 4);
    out.push('-');
    push_padded(&mut out, mo, 2);
    out.push('-');
    push_padded(&mut out, d, 2);
    out.push('T');
    push_padded(&mut out, rem / 3600, 2);
    out.push(':');
    push_padded(&mut out, (rem % 3600) / 60, 2);
    out.push(':');
    push_padded(&mut out, rem % 60, 2);
    out.push('Z');
    proof {
        let (sy, smo, sd) = civil_from_days(days as int);
        assert(secs as nat / 86400 == days);
        assert(out@ =~= timestamp_text(secs as nat));
    }
    crate::text::string_from_chars(&out)
}

} // verus!

verus! {

pub open spec fn is_digit(c: char) -> bool {
    '0' <= c && c <= '9'
}

pub open spec fn all_digits(cs: Seq<char>) -> bool {
    forall|i: int| 0 <= i < cs.len() ==> is_digit(#[trigger] cs[i])
}

/// The value of a run of decimal digits.
pub open spec fn digits_value(cs: Seq<char>) -> int
    decreases cs.len(),
{
    if cs.len() == 0 {
        0
    } else {
        digits_value(cs.drop_last()) * 10 + (cs.last() as int - 48)
    }
}

/// What `i64::from_str` gives for a short field: an optional `+` or `-`
/// followed by at least one decimal digit and nothing else.
pub open spec fn parse_int_field(cs: Seq<char>) -> Option<int> {
    if cs.len() > 0 && (cs[0] == '+' || cs[0] == '-') {
        let rest = cs.drop_first();
        if rest.len() > 0 && all_digits(rest) {
            Some(
                if cs[0] == '-' {
                    -digits_value(rest)
                } else {
                    digits_value(rest)
                },
            )
        } else {
            None
        }
    } else if cs.len() > 0 && all_digits(cs) {
        Some(digits_value(cs))
    } else {
        None
    }
}

/// Division rounding toward zero, as Rust's `/` on signed integers.
pub open spec fn trunc_div(a: int, b: int) -> int {
    if a >= 0 {
        a / b
    } else {
        -((-a) / b)
    }
}

/// Days since 1970-01-01 of a `(year, month, day)`, computed as Howard
/// Hinnant's `days_from_civil` does, for any field values.
pub open spec fn days_from_civil(y: int, m: int, d: int) -> int {
    let y2 = if m <= 2 {
        y - 1
    } else {
        y
    };
    let era = trunc_div(
        if y2 >= 0 {
            y2
        } else {
            y2 - 399
        },
        400,
    );
    let yoe = y2 - era * 400;
    let doy = trunc_div(
        153 * (if m > 2 {
            m - 3
        } else {
            m + 9
        }) + 2,
        5,
    ) + d - 1;
    let doe = yoe * 365 + trunc_div(yoe, 4) - trunc_div(yoe, 100) + doy;
    era * 146097 + doe - 719468
}

/// The seconds since the epoch that a `YYYY-MM-DDTHH:MM:SSZ` text names:
/// exactly 20 characters, `-`, `-`, `T`, `:`, `:` and the final `Z` at
/// their places, and six integer fields in between; `None` for anything
/// else or for a time before the epoch.
pub open spec fn parse_timestamp(cs: Seq<char>) -> Option<nat> {
    if cs.len() != 20 || cs[4] != '-' || cs[7] != '-' || cs[10] != 'T' || cs[13] != ':' || cs[16]
        != ':' || cs[19] != 'Z' {
        None
    } else {
        match (
            parse_int_field(cs.subrange(0, 4)),
            parse_int_field(cs.subrange(5, 7)),
            parse_int_field(cs.subrange(8, 10)),
            parse_int_field(cs.subrange(11, 13)),
            parse_int_field(cs.subrange(14, 16)),
            parse_int_field(cs.subrange(17, 19)),
        ) {
            (Some(y), Some(m), Some(d), Some(hh), Some(mm), Some(ss)) => {
                let secs = days_from_civil(y, m, d) * 86400 + hh * 3600 + mm * 60 + ss;
                if secs >= 0 {
                    Some(secs as nat)
                } else {
                    None
                }
            },
            _ => None,
        }
    }
}

pub open spec fn pow10(n: nat) -> int
    decreases n,
{
    if n == 0 {
        1
    } else {
        10 * pow10((n - 1) as nat)
    }
}

pub proof fn lemma_digits_value_bounds(cs: Seq<char>)
    requires
        all_digits(cs),
    ensures
        0 <= digits_value(cs) < pow10(cs.len()),
    decreases cs.len(),
{
    if cs.len() > 0 {
        assert(all_digits(cs.drop_last())) by {
            assert forall|i: int| 0 <= i < cs.drop_last().len() implies is_digit(
                #[trigger] cs.drop_last()[i],
            ) by {
                assert(cs.drop_last()[i] == cs[i]);
            }
        }
        lemma_digits_value_bounds(cs.drop_last());
        assert(is_digit(cs[cs.len() - 1]));
    }
}

fn is_digit_exec(c: char) -> (b: bool)
    ensures
        b == is_digit(c),
{
    '0' <= c && c <= '9'
}

/// Parses `cs[from..to]` (at most four characters) as `i64::from_str` does.
fn parse_int_field_exec(cs: &Vec<char>, from: usize, to: usize) -> (r: Option<i64>)
    requires
        from <= to <= cs.len(),
        to - from <= 4,
    ensures
        r matches Some(v) ==> parse_int_field(cs@.subrange(from as int, to as int)) == Some(
            v as int,
        ),
        r is None ==> parse_int_field(cs@.subrange(from as int, to as int)) is None,
{
    let ghost f = cs@.subrange(from as int, to as int);
    if from == to {
        return None;
    }
    let neg = cs[from] == '-';
    let start = if cs[from] == '+' || cs[from] == '-' {
        from + 1
    } else {
        from
    };
    let ghost digits = cs@.subrange(start as int, to as int);
    proof {
        assert(f[0] == cs@[from as int]);
        if start == from + 1 {
            assert(f.drop_first() =~= digits);
        } else {
            assert(f =~= digits);
        }
    }
    if start == to {
        return None;
    }
    let mut val: i64 = 0;
    let mut k: usize = start;
    while k < to
        invariant
            start <= k <= to,
            to <= cs.len(),
            to - start <= 4,
            digits == cs@.subrange(start as int, to as int),
            f == cs@.subrange(from as int, to as int),
            from < to,
            start == from + 1 <==> (f[0] == '+' || f[0] == '-'),
            start == from || start == from + 1,
            start == from + 1 ==> f.drop_first() == digits,
            start == from ==> f == digits,
            all_digits(cs@.subrange(start as int, k as int)),
            val as int == digits_value(cs@.subrange(start as int, k as int)),
            0 <= val < pow10((k - start) as nat),
        decreases to - k,
    {
        let c = cs[k];
        if !is_digit_exec(c) {
            assert(digits[k - start] == c);
            assert(!all_digits(digits));
            return None;
        }
        proof {
            reveal_with_fuel(pow10, 5);
            assert(pow10((k - start) as nat) <= 1000);
        }
        let ghost prev = cs@.subrange(start as int, k as int);
        val = val * 10 + (c as i64 - 48);
        k += 1;
        proof {
            let now = cs@.subrange(start as int, k as int);
            assert(now.drop_last() =~= prev);
            assert(now.last() == c);
            assert forall|i: int| 0 <= i < now.len() implies is_digit(#[trigger] now[i]) by {
                if i < now.len() - 1 {
                    assert(now[i] == prev[i]);
                }
            }
        }
    }
    if neg {
        Some(-val)
    } else {
        Some(val)
    }
}

/// `a / 400`, `a / 5`, ... rounding toward zero, for any sign of `a`.
fn trunc_div_exec(a: i64, b: i64) -> (r: i64)
    requires
        b > 0,
        a > i64::MIN,
    ensures
        r as int == trunc_div(a as int, b as int),
{
    if a >= 0 {
        a / b
    } else {
        -((-a) / b)
    }
}

/// The seconds a set of small timestamp fields names.
fn seconds_from_fields(y: i64, m: i64, d: i64, hh: i64, mm: i64, ss: i64) -> (secs: i64)
    requires
        -10000 < y < 10000,
        -10000 < m < 10000,
        -10000 < d < 10000,
        -10000 < hh < 10000,
        -10000 < mm < 10000,
        -10000 < ss < 10000,
    ensures
        secs as int == days_from_civil(y as int, m as int, d as int) * 86400 + hh * 3600 + mm
            * 60 + ss,
{
    let y2: i64 = if m <= 2 {
        y - 1
    } else {
        y
    };
    let era: i64 = trunc_div_exec(
        if y2 >= 0 {
            y2
        } else {
            y2 - 399
        },
        400,
    );
    assert(-30 <= era <= 30);
    let yoe: i64 = y2 - era * 400;
    assert(-20000 < yoe < 20000);
    let mshift: i64 = if m > 2 {
        m - 3
    } else {
        m + 9
    };
    let doy: i64 = trunc_div_exec(153 * mshift + 2, 5) + d - 1;
    assert(-400000 < doy < 400000);
    let doe: i64 = yoe * 365 + trunc_div_exec(yoe, 4) - trunc_div_exec(yoe, 100) + doy;
    assert(-10000000 < doe < 10000000);
    let days: i64 = era * 146_097 + doe - 719_468;
    days * 86_400 + hh * 3600 + mm * 60 + ss
}

/// Reads a `YYYY-MM-DDTHH:MM:SSZ` timestamp back into seconds since the
/// Unix epoch: the inverse of [`utc_timestamp_from_unix`] for the shape
/// this crate writes; `None` for anything else.
pub fn parse_utc_timestamp(s: &str) -> (r: Option<u64>)
    ensures
        r matches Some(v) ==> parse_timestamp(s@) == Some(v as nat),
        r is None ==> parse_timestamp(s@) is None,
{
    let cs = crate::text::chars_of(s);
    if cs.len() != 20 || cs[4] != '-' || cs[7] != '-' || cs[10] != 'T' || cs[13] != ':' || cs[16]
        != ':' || cs[19] != 'Z' {
        return None;
    }
    let y = match parse_int_field_exec(&cs, 0, 4) {
        Some(v) => v,
        None => return None,
    };
    let m = match parse_int_field_exec(&cs, 5, 7) {
        Some(v) => v,
        None => return None,
    };
    let d = match parse_int_field_exec(&cs, 8, 10) {
        Some(v) => v,
        None => return None,
    };
    let hh = match parse_int_field_exec(&cs, 11, 13) {
        Some(v) => v,
        None => return None,
    };
    let mm = match parse_int_field_exec(&cs, 14, 16) {
        Some(v) => v,
        None => return None,
    };
    let ss = match parse_int_field_exec(&cs, 17, 19) {
        Some(v) => v,
        None => return None,
    };
    proof {
        lemma_field_range(cs@.subrange(0, 4));
        lemma_field_range(cs@.subrange(5, 7));
        lemma_field_range(cs@.subrange(8, 10));
        lemma_field_range(cs@.subrange(11, 13));
        lemma_field_range(cs@.subrange(14, 16));
        lemma_field_range(cs@.subrange(17, 19));
    }
    let secs = seconds_from_fields(y, m, d, hh, mm, ss);
    if secs >= 0 {
        Some(secs as u64)
    } else {
        None
    }
}

proof fn lemma_field_range(f: Seq<char>)
    requires
        f.len() <= 4,
    ensures
        parse_int_field(f) matches Some(v) ==> -10000 < v < 10000,
{
    reveal_with_fuel(pow10, 5);
    if f.len() > 0 && (f[0] == '+' || f[0] == '-') {
        if f.drop_first().len() > 0 && all_digits(f.drop_first()) {
            lemma_digits_value_bounds(f.drop_first());
        }
    } else if f.len() > 0 && all_digits(f) {
        lemma_digits_value_bounds(f);
    }
}

} // verus!

verus! {

proof fn lemma_civil_round_trip(days: int)
    requires
        0 <= days,
    ensures
        ({
            let (y, mo, d) = civil_from_days(days);
            days_from_civil(y, mo, d) == days
        }),
{
    let z = days + 719468;
    let era = z / 146097;
    let doe = z % 146097;
    lemma_era_day_bounds(doe);
    lemma_civil_bounds(days);
    let yoe = year_of_era(doe);
    let y = yoe + era * 400;
    let doy = day_of_year(doe);
    let mp = (5 * doy + 2) / 153;
    assert(0 <= mp <= 11);
    assert(y / 400 == era) by {
        assert(0 <= yoe < 400);
        assert(era >= 0);
    }
    assert(z == era * 146097 + doe);
}

proof fn lemma_digits_value_leading_zeros(k: nat, d: Seq<char>)
    ensures
        digits_value(Seq::new(k, |i: int| '0') + d) == digits_value(d) + pow10(d.len())
            * digits_value(Seq::new(k, |i: int| '0')),
        digits_value(Seq::new(k, |i: int| '0')) == 0,
    decreases d.len() + k,
{
    let z = Seq::new(k, |i: int| '0');
    if d.len() == 0 {
        assert(z + d =~= z);
        if k > 0 {
            assert(z.drop_last() =~= Seq::new((k - 1) as nat, |i: int| '0'));
            lemma_digits_value_leading_zeros((k - 1) as nat, d);
        }
    } else {
        assert((z + d).drop_last() =~= z + d.drop_last());
        lemma_digits_value_leading_zeros(k, d.drop_last());
        assert(pow10(d.len()) == 10 * pow10(d.drop_last().len()));
    }
}

proof fn lemma_decimal_digits(n: nat)
    ensures
        all_digits(decimal(n)),
        digits_value(decimal(n)) == n,
        decimal(n).len() >= 1,
        forall|w: nat| 1 <= w && n < pow10(w) ==> decimal(n).len() <= w,
    decreases n,
{
    if n < 10 {
        let d = decimal(n);
        assert(d.drop_last() =~= Seq::<char>::empty());
        assert(digit_char(n as int) as int == n + 48);
        assert(d.last() == digit_char(n as int));
        assert(digits_value(d.drop_last()) == 0);
        assert(digits_value(d) == digits_value(d.drop_last()) * 10 + (d.last() as int - 48));
    } else {
        lemma_decimal_digits(n / 10);
        let d = decimal(n);
        assert(d.drop_last() =~= decimal(n / 10));
        assert forall|i: int| 0 <= i < d.len() implies is_digit(#[trigger] d[i]) by {
            if i < d.len() - 1 {
                assert(d[i] == decimal(n / 10)[i]);
            }
        }
        assert(digit_char((n % 10) as int) as int == n % 10 + 48);
        assert(d.last() == digit_char((n % 10) as int));
        assert(digits_value(d) == digits_value(d.drop_last()) * 10 + (d.last() as int - 48));
        assert(n == (n / 10) * 10 + n % 10);
        assert forall|w: nat| 1 <= w && n < pow10(w) implies decimal(n).len() <= w by {
            assert(pow10(w) == 10 * pow10((w - 1) as nat));
            assert(n / 10 < pow10((w - 1) as nat));
            if w == 1 {
                assert(pow10(0) == 1);
            }
        }
    }
}

proof fn lemma_pad_parses(n: nat, w: nat)
    requires
        1 <= w,
        n < pow10(w),
    ensures
        pad(n, w).len() == w,
        parse_int_field(pad(n, w)) == Some(n as int),
        all_digits(pad(n, w)),
        digits_value(pad(n, w)) == n,
{
    lemma_decimal_digits(n);
    let d = decimal(n);
    let p = pad(n, w);
    if d.len() < w {
        let k = (w - d.len()) as nat;
        lemma_digits_value_leading_zeros(k, d);
        assert forall|i: int| 0 <= i < p.len() implies is_digit(#[trigger] p[i]) by {
            if i >= k {
                assert(p[i] == d[i - k]);
            }
        }
    }
    assert(p[0] != '+' && p[0] != '-') by {
        assert(is_digit(p[0]));
    }
}

proof fn lemma_fields_parse(y: nat, mo: nat, d: nat, h: nat, mi: nat, sec: nat)
    requires
        y < 10000,
        mo < 100,
        d < 100,
        h < 100,
        mi < 100,
        sec < 100,
    ensures
        ({
            let cs = pad(y, 4) + seq!['-'] + pad(mo, 2) + seq!['-'] + pad(d, 2) + seq!['T'] + pad(
                h,
                2,
            ) + seq![':'] + pad(mi, 2) + seq![':'] + pad(sec, 2) + seq!['Z'];
            &&& cs.len() == 20
            &&& cs[19] == 'Z'
            &&& cs[4] == '-' && cs[7] == '-' && cs[10] == 'T' && cs[13] == ':' && cs[16] == ':'
            &&& parse_int_field(cs.subrange(0, 4)) == Some(y as int)
            &&& parse_int_field(cs.subrange(5, 7)) == Some(mo as int)
            &&& parse_int_field(cs.subrange(8, 10)) == Some(d as int)
            &&& parse_int_field(cs.subrange(11, 13)) == Some(h as int)
            &&& parse_int_field(cs.subrange(14, 16)) == Some(mi as int)
            &&& parse_int_field(cs.subrange(17, 19)) == Some(sec as int)
            &&& parse_timestamp(cs) == {
                let t = days_from_civil(y as int, mo as int, d as int) * 86400 + h * 3600 + mi
                    * 60 + sec;
                if t >= 0 {
                    Some(t as nat)
                } else {
                    None
                }
            }
        }),
{
    reveal_with_fuel(pow10, 5);
    lemma_pad_parses(y, 4);
    lemma_pad_parses(mo, 2);
    lemma_pad_parses(d, 2);
    lemma_pad_parses(h, 2);
    lemma_pad_parses(mi, 2);
    lemma_pad_parses(sec, 2);
    let cs = pad(y, 4) + seq!['-'] + pad(mo, 2) + seq!['-'] + pad(d, 2) + seq!['T'] + pad(h, 2)
        + seq![':'] + pad(mi, 2) + seq![':'] + pad(sec, 2) + seq!['Z'];
    assert(cs.subrange(0, 4) =~= pad(y, 4));
    assert(cs.subrange(5, 7) =~= pad(mo, 2));
    assert(cs.subrange(8, 10) =~= pad(d, 2));
    assert(cs.subrange(11, 13) =~= pad(h, 2));
    assert(cs.subrange(14, 16) =~= pad(mi, 2));
    assert(cs.subrange(17, 19) =~= pad(sec, 2));
}

proof fn lemma_year_fits(days: nat)
    requires
        days < 2932897,
    ensures
        civil_from_days(days as int).0 <= 9999,
{
    let z: int = days as int + 719468;
    let doe: int = z % 146097;
    lemma_era_day_bounds(doe);
    let era = z / 146097;
    assert(era <= 24);
    let yoe = year_of_era(doe);
    let doy = day_of_year(doe);
    if era == 24 && yoe == 399 {
        assert(doy < 306);
    }
}

/// Reading back a written timestamp gives the same second, for every time
/// up to the end of the year 9999 (where the year still has four digits).
#[verifier::spinoff_prover]
#[verifier::rlimit(40)]
pub proof fn lemma_parse_of_timestamp(secs: nat)
    requires
        secs < 253402300800,
    ensures
        parse_timestamp(timestamp_text(secs)) == Some(secs),
{
    let days = secs / 86400;
    let rem = secs % 86400;
    let (y, mo, d) = civil_from_days(days as int);
    lemma_civil_bounds(days as int);
    lemma_civil_round_trip(days as int);
    lemma_year_fits(days);
    lemma_fields_parse(y as nat, mo as nat, d as nat, rem / 3600, (rem % 3600) / 60, rem % 60);
    assert(timestamp_text(secs) == pad(y as nat, 4) + seq!['-'] + pad(mo as nat, 2) + seq!['-']
        + pad(d as nat, 2) + seq!['T'] + pad(rem / 3600, 2) + seq![':'] + pad((rem % 3600) / 60, 2)
        + seq![':'] + pad(rem % 60, 2) + seq!['Z']);
    assert(days * 86400 + (rem / 3600) * 3600 + ((rem % 3600) / 60) * 60 + rem % 60 == secs);
}

/// A date as one number that orders dates as the calendar does (the month
/// is below 16 and the day below 32).
pub open spec fn date_key(days: int) -> int {
    let (y, mo, d) = civil_from_days(days);
    y * 512 + mo * 32 + d
}

proof fn lemma_year_step(doe: int)
    requires
        0 <= doe < 146096,
    ensures
        year_of_era(doe + 1) == year_of_era(doe) || year_of_era(doe + 1) == year_of_era(doe) + 1,
{
    lemma_year_step_bv(doe as u32);
}

/// The next day has a later date.
#[verifier::spinoff_prover]
proof fn lemma_date_key_step(days: int)
    requires
        0 <= days,
    ensures
        date_key(days) < date_key(days + 1),
{
    let z = days + 719468;
    let era = z / 146097;
    let doe = z % 146097;
    lemma_civil_bounds(days);
    lemma_civil_bounds(days + 1);
    if doe < 146096 {
        assert((z + 1) / 146097 == era && (z + 1) % 146097 == doe + 1);
        lemma_year_step(doe);
        lemma_era_day_bounds(doe);
        lemma_era_day_bounds(doe + 1);
        let y0 = year_of_era(doe);
        let y1 = year_of_era(doe + 1);
        let d0 = day_of_year(doe);
        let d1 = day_of_year(doe + 1);
        if y1 == y0 {
            assert(d1 == d0 + 1);
            let mp0 = (5 * d0 + 2) / 153;
            let mp1 = (5 * d1 + 2) / 153;
            assert(mp0 <= mp1 <= mp0 + 1);
        } else {
            assert(y1 == y0 + 1);
            assert(d0 >= 363);
            assert(d1 <= 2);
            assert((5 * d0 + 2) / 153 == 11);
            assert((5 * d1 + 2) / 153 == 0);
        }
    } else {
        assert((z + 1) / 146097 == era + 1 && (z + 1) % 146097 == 0);
        assert(year_of_era(146096) == 399);
        assert(day_of_year(146096) == 365);
        assert(year_of_era(0) == 0);
        assert(day_of_year(0) == 0);
    }
}

/// A later day has a later date.
proof fn lemma_date_key_mono(a: int, b: int)
    requires
        0 <= a < b,
    ensures
        date_key(a) < date_key(b),
    decreases b - a,
{
    lemma_date_key_step(a);
    if a + 1 < b {
        lemma_date_key_mono(a + 1, b);
    }
}

/// Text that is less at a position of equal length stays less whatever
/// follows.
proof fn lemma_seq_lt_extend(a: Seq<char>, b: Seq<char>, x: Seq<char>, y: Seq<char>)
    requires
        a.len() == b.len(),
        seq_lt(a, b),
    ensures
        seq_lt(a + x, b + y),
    decreases a.len(),
{
    assert((a + x)[0] == a[0]);
    assert((b + y)[0] == b[0]);
    if a[0] == b[0] {
        assert((a + x).drop_first() =~= a.drop_first() + x);
        assert((b + y).drop_first() =~= b.drop_first() + y);
        lemma_seq_lt_extend(a.drop_first(), b.drop_first(), x, y);
    }
}

/// A common beginning does not change the order.
proof fn lemma_seq_lt_after(p: Seq<char>, x: Seq<char>, y: Seq<char>)
    requires
        seq_lt(x, y),
    ensures
        seq_lt(p + x, p + y),
    decreases p.len(),
{
    if p.len() > 0 {
        assert((p + x).drop_first() =~= p.drop_first() + x);
        assert((p + y).drop_first() =~= p.drop_first() + y);
        lemma_seq_lt_after(p.drop_first(), x, y);
    } else {
        assert(p + x =~= x);
        assert(p + y =~= y);
    }
}

/// Digit runs of one length order as their values do.
proof fn lemma_digits_order(p: Seq<char>, q: Seq<char>)
    requires
        p.len() == q.len(),
        all_digits(p),
        all_digits(q),
        digits_value(p) <= digits_value(q),
    ensures
        digits_value(p) < digits_value(q) ==> seq_lt(p, q),
        digits_value(p) == digits_value(q) ==> p == q,
    decreases p.len(),
{
    if p.len() > 0 {
        let p1 = p.drop_last();
        let q1 = q.drop_last();
        assert(all_digits(p1)) by {
            assert forall|i: int| 0 <= i < p1.len() implies is_digit(#[trigger] p1[i]) by {
                assert(p1[i] == p[i]);
            }
        }
        assert(all_digits(q1)) by {
            assert forall|i: int| 0 <= i < q1.len() implies is_digit(#[trigger] q1[i]) by {
                assert(q1[i] == q[i]);
            }
        }
        assert(is_digit(p.last()) && is_digit(q.last()));
        lemma_digits_value_bounds(p1);
        lemma_digits_value_bounds(q1);
        assert(p =~= p1 + seq![p.last()]);
        assert(q =~= q1 + seq![q.last()]);
        if digits_value(p1) <= digits_value(q1) {
            lemma_digits_order(p1, q1);
            if digits_value(p1) < digits_value(q1) {
                lemma_seq_lt_extend(p1, q1, seq![p.last()], seq![q.last()]);
            } else if p.last() != q.last() {
                assert(seq_lt(seq![p.last()], seq![q.last()]));
                lemma_seq_lt_after(p1, seq![p.last()], seq![q.last()]);
            }
        }
    } else {
        assert(p =~= q);
    }
}

/// Fixed-width numbers order as text as they do as numbers.
proof fn lemma_pad_order(a: nat, b: nat, w: nat)
    requires
        1 <= w,
        a < b,
        b < pow10(w),
    ensures
        pad(a, w).len() == w,
        pad(b, w).len() == w,
        seq_lt(pad(a, w), pad(b, w)),
{
    lemma_pad_parses(a, w);
    lemma_pad_parses(b, w);
    lemma_digits_order(pad(a, w), pad(b, w));
}

/// Two texts that agree before `from` and differ first in their fields at
/// `from..to` order as those fields do.
proof fn lemma_field_decides(t1: Seq<char>, t2: Seq<char>, from: int, to: int)
    requires
        0 <= from < to <= t1.len(),
        t1.len() == t2.len(),
        t1.subrange(0, from) == t2.subrange(0, from),
        seq_lt(t1.subrange(from, to), t2.subrange(from, to)),
    ensures
        seq_lt(t1, t2),
{
    let p = t1.subrange(0, from);
    let f1 = t1.subrange(from, to);
    let f2 = t2.subrange(from, to);
    let r1 = t1.subrange(to, t1.len() as int);
    let r2 = t2.subrange(to, t2.len() as int);
    lemma_seq_lt_extend(f1, f2, r1, r2);
    lemma_seq_lt_after(p, f1 + r1, f2 + r2);
    assert(t1 =~= p + (f1 + r1));
    assert(t2 =~= p + (f2 + r2));
}

/// The text of six date and time fields.
pub open spec fn fields_text(y: nat, mo: nat, d: nat, h: nat, mi: nat, sec: nat) -> Seq<char> {
    pad(y, 4) + seq!['-'] + pad(mo, 2) + seq!['-'] + pad(d, 2) + seq!['T'] + pad(h, 2) + seq![
        ':',
    ] + pad(mi, 2) + seq![':'] + pad(sec, 2) + seq!['Z']
}

proof fn lemma_fields_text_pieces(y: nat, mo: nat, d: nat, h: nat, mi: nat, sec: nat)
    requires
        y < 10000,
        mo < 100,
        d < 100,
        h < 100,
        mi < 100,
        sec < 100,
    ensures
        ({
            let t = fields_text(y, mo, d, h, mi, sec);
            &&& t.len() == 20
            &&& t.subrange(0, 4) == pad(y, 4)
            &&& t.subrange(0, 5) == pad(y, 4) + seq!['-']
            &&& t.subrange(5, 7) == pad(mo, 2)
            &&& t.subrange(0, 8) == pad(y, 4) + seq!['-'] + pad(mo, 2) + seq!['-']
            &&& t.subrange(8, 10) == pad(d, 2)
            &&& t.subrange(0, 11) == pad(y, 4) + seq!['-'] + pad(mo, 2) + seq!['-'] + pad(d, 2)
                + seq!['T']
            &&& t.subrange(11, 13) == pad(h, 2)
            &&& t.subrange(0, 14) == pad(y, 4) + seq!['-'] + pad(mo, 2) + seq!['-'] + pad(d, 2)
                + seq!['T'] + pad(h, 2) + seq![':']
            &&& t.subrange(14, 16) == pad(mi, 2)
            &&& t.subrange(0, 17) == pad(y, 4) + seq!['-'] + pad(mo, 2) + seq!['-'] + pad(d, 2)
                + seq!['T'] + pad(h, 2) + seq![':'] + pad(mi, 2) + seq![':']
            &&& t.subrange(17, 19) == pad(sec, 2)
        }),
{
    reveal_with_fuel(pow10, 5);
    lemma_pad_parses(y, 4);
    lemma_pad_parses(mo, 2);
    lemma_pad_parses(d, 2);
    lemma_pad_parses(h, 2);
    lemma_pad_parses(mi, 2);
    lemma_pad_parses(sec, 2);
    let t = fields_text(y, mo, d, h, mi, sec);
    assert(t.subrange(0, 4) =~= pad(y, 4));
    assert(t.subrange(0, 5) =~= pad(y, 4) + seq!['-']);
    assert(t.subrange(5, 7) =~= pad(mo, 2));
    assert(t.subrange(0, 8) =~= pad(y, 4) + seq!['-'] + pad(mo, 2) + seq!['-']);
    assert(t.subrange(8, 10) =~= pad(d, 2));
    assert(t.subrange(0, 11) =~= pad(y, 4) + seq!['-'] + pad(mo, 2) + seq!['-'] + pad(d, 2)
        + seq!['T']);
    assert(t.subrange(11, 13) =~= pad(h, 2));
    assert(t.subrange(0, 14) =~= pad(y, 4) + seq!['-'] + pad(mo, 2) + seq!['-'] + pad(d, 2)
        + seq!['T'] + pad(h, 2) + seq![':']);
    assert(t.subrange(14, 16) =~= pad(mi, 2));
    assert(t.subrange(0, 17) =~= pad(y, 4) + seq!['-'] + pad(mo, 2) + seq!['-'] + pad(d, 2)
        + seq!['T'] + pad(h, 2) + seq![':'] + pad(mi, 2) + seq![':']);
    assert(t.subrange(17, 19) =~= pad(sec, 2));
}

/// Field values in lexicographic order give texts in lexicographic order.
#[verifier::rlimit(30)]
proof fn lemma_fields_order(
    y1: nat,
    mo1: nat,
    d1: nat,
    h1: nat,
    mi1: nat,
    s1: nat,
    y2: nat,
    mo2: nat,
    d2: nat,
    h2: nat,
    mi2: nat,
    s2: nat,
)
    requires
        y1 < 10000 && mo1 < 100 && d1 < 100 && h1 < 100 && mi1 < 100 && s1 < 100,
        y2 < 10000 && mo2 < 100 && d2 < 100 && h2 < 100 && mi2 < 100 && s2 < 100,
        y1 < y2 || (y1 == y2 && (mo1 < mo2 || (mo1 == mo2 && (d1 < d2 || (d1 == d2 && (h1 < h2
            || (h1 == h2 && (mi1 < mi2 || (mi1 == mi2 && s1 < s2))))))))),
    ensures
        seq_lt(fields_text(y1, mo1, d1, h1, mi1, s1), fields_text(y2, mo2, d2, h2, mi2, s2)),
{
    reveal_with_fuel(pow10, 5);
    let t1 = fields_text(y1, mo1, d1, h1, mi1, s1);
    let t2 = fields_text(y2, mo2, d2, h2, mi2, s2);
    lemma_fields_text_pieces(y1, mo1, d1, h1, mi1, s1);
    lemma_fields_text_pieces(y2, mo2, d2, h2, mi2, s2);
    if y1 < y2 {
        lemma_pad_order(y1, y2, 4);
        assert(t1.subrange(0, 0) =~= t2.subrange(0, 0));
        lemma_field_decides(t1, t2, 0, 4);
    } else if mo1 < mo2 {
        lemma_pad_order(mo1, mo2, 2);
        lemma_field_decides(t1, t2, 5, 7);
    } else if d1 < d2 {
        lemma_pad_order(d1, d2, 2);
        lemma_field_decides(t1, t2, 8, 10);
    } else if h1 < h2 {
        lemma_pad_order(h1, h2, 2);
        lemma_field_decides(t1, t2, 11, 13);
    } else if mi1 < mi2 {
        lemma_pad_order(mi1, mi2, 2);
        lemma_field_decides(t1, t2, 14, 16);
    } else {
        lemma_pad_order(s1, s2, 2);
        lemma_field_decides(t1, t2, 17, 19);
    }
}

/// Timestamps sort as the times they name: for two times up to the end of
/// the year 9999, the text written for the earlier one is lexicographically
/// less than the text written for the later one.
pub proof fn lemma_timestamp_order(s1: nat, s2: nat)
    requires
        s1 < s2,
        s2 < 253402300800,
    ensures
        seq_lt(timestamp_text(s1), timestamp_text(s2)),
{
    let days1 = s1 / 86400;
    let days2 = s2 / 86400;
    let rem1 = s1 % 86400;
    let rem2 = s2 % 86400;
    let (y1, mo1, d1) = civil_from_days(days1 as int);
    let (y2, mo2, d2) = civil_from_days(days2 as int);
    lemma_civil_bounds(days1 as int);
    lemma_civil_bounds(days2 as int);
    lemma_year_fits(days1);
    lemma_year_fits(days2);
    if days1 < days2 {
        lemma_date_key_mono(days1 as int, days2 as int);
        assert(y1 < y2 || (y1 == y2 && (mo1 < mo2 || (mo1 == mo2 && d1 < d2))));
    } else {
        assert(days1 == days2);
        assert(rem1 < rem2);
        assert(rem1 / 3600 <= rem2 / 3600);
        if rem1 / 3600 == rem2 / 3600 {
            assert(rem1 % 3600 < rem2 % 3600);
            assert((rem1 % 3600) / 60 <= (rem2 % 3600) / 60);
        }
    }
    lemma_fields_order(
        y1 as nat,
        mo1 as nat,
        d1 as nat,
        rem1 / 3600,
        (rem1 % 3600) / 60,
        rem1 % 60,
        y2 as nat,
        mo2 as nat,
        d2 as nat,
        rem2 / 3600,
        (rem2 % 3600) / 60,
        rem2 % 60,
    );
    assert(timestamp_text(s1) == fields_text(
        y1 as nat,
        mo1 as nat,
        d1 as nat,
        rem1 / 3600,
        (rem1 % 3600) / 60,
        rem1 % 60,
    ));
    assert(timestamp_text(s2) == fields_text(
        y2 as nat,
        mo2 as nat,
        d2 as nat,
        rem2 / 3600,
        (rem2 % 3600) / 60,
        rem2 % 60,
    ));
}

} // verus!

verus! {

/// The system clock's time type, `std::time::SystemTime`; opaque here.
#[verifier::external_type_specification]
#[verifier::external_body]
pub struct ExSystemTime(std::time::SystemTime);

/// `std::time::SystemTime::now`: what the system clock reads. Nothing is
/// promised of it: it is the time.
#[verifier::external_body]
fn clock_now() -> (t: std::time::SystemTime) {
    std::time::SystemTime::now()
}

/// `SystemTime::duration_since(UNIX_EPOCH)`: how long after the Unix epoch
/// `t` lies, or `None` (its error) when `t` lies before the epoch. Nothing
/// is promised of which: it rests on the clock's reading.
#[verifier::external_body]
fn since_epoch(t: &std::time::SystemTime) -> (d: Option<core::time::Duration>) {
    t.duration_since(std::time::UNIX_EPOCH).ok()
}

/// `Duration::as_secs`: the whole seconds of `d`. Nothing is promised of the
/// value: a `Duration` is opaque here.
#[verifier::external_body]
fn whole_seconds(d: &core::time::Duration) -> (s: u64) {
    d.as_secs()
}

/// Whole seconds since the Unix epoch by the system clock; zero when the
/// clock reads before the epoch.
fn unix_seconds_now() -> u64 {
    match since_epoch(&clock_now()) {
        Some(d) => whole_seconds(&d),
        None => 0,
    }
}

/// Now, as `YYYY-MM-DDTHH:MM:SSZ` (RFC 3339, UTC, second precision). The
/// text has a fixed width (for years up to 9999), so lexicographic order is
/// chronological order.
pub fn utc_timestamp_now() -> (r: String)
    ensures
        exists|secs: u64| r@ == timestamp_text(secs as nat),
{
    let secs = unix_seconds_now();
    utc_timestamp_from_unix(secs)
}

/// The holistic verdict of a scenario against the baseline.
#[derive(Clone, Copy, Debug, PartialEq, Eq, Structural)]
pub enum Verdict {
    Better,
    Worse,
    NoMeasurableDifference,
    /// Equivalence holds on both the throughput and the pacing axes.
    ConfirmedSame,
    /// Neither a difference nor an equivalence could be established.
    Inconclusive,
}

} // verus!
