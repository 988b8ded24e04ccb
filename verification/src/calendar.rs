//! UTC calendar arithmetic for timestamps: seconds since the Unix epoch to a
//! proleptic Gregorian date and time of day, and the ISO 8601 text of it.
use vstd::prelude::*;

verus! {

/// Whether `y` is a Gregorian leap year.
pub open spec fn is_leap_year(y: int) -> bool {
    y % 4 == 0 && (y % 100 != 0 || y % 400 == 0)
}

/// The number of days in year `y`.
pub open spec fn days_in_year(y: int) -> int {
    if is_leap_year(y) {
        366
    } else {
        365
    }
}

/// The number of days in month `m` (1 to 12) of year `y`.
pub open spec fn days_in_month(y: int, m: int) -> int {
    if m == 2 {
        if is_leap_year(y) {
            29
        } else {
            28
        }
    } else if m == 4 || m == 6 || m == 9 || m == 11 {
        30
    } else {
        31
    }
}

/// The number of days from 1970-01-01 to the first day of year `y`.
pub open spec fn days_before_year(y: int) -> int
    decreases y - 1970,
{
    if y <= 1970 {
        0
    } else {
        days_before_year(y - 1) + days_in_year(y - 1)
    }
}

/// The number of days in year `y` before the first day of month `m`.
pub open spec fn days_before_month(y: int, m: int) -> int
    decreases m,
{
    if m <= 1 {
        0
    } else {
        days_before_month(y, m - 1) + days_in_month(y, m - 1)
    }
}

/// The day count that the conversion works from: whole days since the
/// epoch, kept to 32 bits (the days are held in a `u32`).
pub open spec fn epoch_days(epoch: u64) -> int {
    (epoch / 86400) as int % 0x1_0000_0000
}

/// A date and time of day: year, month, day, hour, minute, second.
pub type CivilTime = (u32, u32, u32, u32, u32, u32);

/// `t` is the UTC date and time of `epoch`: its time of day is that of
/// `epoch`, and its date lies `epoch_days(epoch)` days after 1970-01-01.
pub open spec fn is_civil_time(epoch: u64, t: CivilTime) -> bool {
    let (y, mo, d, h, mi, s) = t;
    &&& s == epoch % 60
    &&& mi == (epoch / 60) % 60
    &&& h == (epoch / 3600) % 24
    &&& 1970 <= y
    &&& 1 <= mo <= 12
    &&& 1 <= d <= days_in_month(y as int, mo as int)
    &&& days_before_year(y as int) + days_before_month(y as int, mo as int) + d - 1 == epoch_days(
        epoch,
    )
}

/// The UTC date and time of `epoch` (there is exactly one, see
/// `lemma_civil_time_unique`).
pub open spec fn civil_time(epoch: u64) -> CivilTime {
    choose|t: CivilTime| is_civil_time(epoch, t)
}

/// The seconds since the epoch that a date and time stand for.
pub open spec fn seconds_of(t: CivilTime) -> int {
    let (y, mo, d, h, mi, s) = t;
    (days_before_year(y as int) + days_before_month(y as int, mo as int) + d - 1) * 86400 + h
        * 3600 + mi * 60 + s
}

/// The ISO 8601 text `YYYY-MM-DDTHH:MM:SSZ` of a date and time; a year
/// past 9999 keeps all its digits.
pub open spec fn iso_text(t: CivilTime) -> Seq<char> {
    let (y, mo, d, h, mi, s) = t;
    crate::text::zero_pad(crate::text::decimal(y as nat), 4) + seq!['-'] + crate::text::zero_pad(
        crate::text::decimal(mo as nat),
        2,
    ) + seq!['-'] + crate::text::zero_pad(crate::text::decimal(d as nat), 2) + seq!['T']
        + crate::text::zero_pad(crate::text::decimal(h as nat), 2) + seq![':']
        + crate::text::zero_pad(crate::text::decimal(mi as nat), 2) + seq![':']
        + crate::text::zero_pad(crate::text::decimal(s as nat), 2) + seq!['Z']
}

// ── Lemmas ──────────────────────────────────────────────────────────────────

/// Years are at least 365 days long, so the days before year `y` grow
/// at least that fast.
pub proof fn lemma_days_before_year_lower(y: int)
    requires
        y >= 1970,
    ensures
        days_before_year(y) >= 365 * (y - 1970),
    decreases y - 1970,
{
    if y > 1970 {
        lemma_days_before_year_lower(y - 1);
    }
}

/// Later years start after earlier years end.
pub proof fn lemma_days_before_year_mono(y1: int, y2: int)
    requires
        1970 <= y1 < y2,
    ensures
        days_before_year(y2) >= days_before_year(y1) + days_in_year(y1),
    decreases y2 - y1,
{
    if y2 > y1 + 1 {
        lemma_days_before_year_mono(y1, y2 - 1);
    }
}

/// Later months start after earlier months end.
pub proof fn lemma_days_before_month_mono(y: int, m1: int, m2: int)
    requires
        1 <= m1 < m2,
    ensures
        days_before_month(y, m2) >= days_before_month(y, m1) + days_in_month(y, m1),
    decreases m2 - m1,
{
    if m2 > m1 + 1 {
        lemma_days_before_month_mono(y, m1, m2 - 1);
    }
}

/// Days before a month are never negative.
pub proof fn lemma_days_before_month_nonneg(y: int, m: int)
    ensures
        days_before_month(y, m) >= 0,
    decreases m,
{
    if m > 1 {
        lemma_days_before_month_nonneg(y, m - 1);
    }
}

/// The twelve months make up the year.
pub proof fn lemma_months_fill_year(y: int)
    ensures
        days_before_month(y, 13) == days_in_year(y),
{
    reveal_with_fuel(days_before_month, 13);
}

/// Every month ends within its year.
pub proof fn lemma_month_within_year(y: int, m: int)
    requires
        1 <= m <= 12,
    ensures
        days_before_month(y, m) + days_in_month(y, m) <= days_in_year(y),
{
    lemma_months_fill_year(y);
    if m < 12 {
        lemma_days_before_month_mono(y, m, 13);
    }
}

/// A timestamp has exactly one date and time.
pub proof fn lemma_civil_time_unique(epoch: u64, t1: CivilTime, t2: CivilTime)
    requires
        is_civil_time(epoch, t1),
        is_civil_time(epoch, t2),
    ensures
        t1 == t2,
{
    let (y1, m1, d1, h1, mi1, s1) = t1;
    let (y2, m2, d2, h2, mi2, s2) = t2;
    let doy1 = days_before_month(y1 as int, m1 as int) + d1 - 1;
    let doy2 = days_before_month(y2 as int, m2 as int) + d2 - 1;
    lemma_month_within_year(y1 as int, m1 as int);
    lemma_month_within_year(y2 as int, m2 as int);
    lemma_days_before_month_nonneg(y1 as int, m1 as int);
    lemma_days_before_month_nonneg(y2 as int, m2 as int);
    if y1 < y2 {
        lemma_days_before_year_mono(y1 as int, y2 as int);
    } else if y2 < y1 {
        lemma_days_before_year_mono(y2 as int, y1 as int);
    }
    assert(y1 == y2);
    if m1 < m2 {
        lemma_days_before_month_mono(y1 as int, m1 as int, m2 as int);
    } else if m2 < m1 {
        lemma_days_before_month_mono(y1 as int, m2 as int, m1 as int);
    }
    assert(m1 == m2);
}

/// Whole days and the time of day put back together give the timestamp.
proof fn lemma_split_seconds(epoch: int)
    requires
        epoch >= 0,
    ensures
        (epoch / 86400) * 86400 + ((epoch / 3600) % 24) * 3600 + ((epoch / 60) % 60) * 60 + epoch
            % 60 == epoch,
{
    let q = epoch / 86400;
    let r = epoch % 86400;
    assert(epoch == q * 86400 + r && 0 <= r < 86400) by (nonlinear_arith)
        requires
            q == epoch / 86400,
            r == epoch % 86400,
            epoch >= 0,
    ;
    assert((epoch / 3600) % 24 == r / 3600) by (nonlinear_arith)
        requires
            epoch == q * 86400 + r,
            0 <= r < 86400,
            q >= 0,
    ;
    assert((epoch / 60) % 60 == (r % 3600) / 60) by (nonlinear_arith)
        requires
            epoch == q * 86400 + r,
            0 <= r < 86400,
            q >= 0,
    ;
    assert(epoch % 60 == r % 60) by (nonlinear_arith)
        requires
            epoch == q * 86400 + r,
            0 <= r < 86400,
            q >= 0,
    ;
    assert((r / 3600) * 3600 + ((r % 3600) / 60) * 60 + r % 60 == r) by (nonlinear_arith)
        requires
            0 <= r < 86400,
    ;
}

/// A timestamp whose day count fits in 32 bits is the seconds of its date
/// and time.
pub proof fn lemma_seconds_of_civil_time(epoch: u64, t: CivilTime)
    requires
        is_civil_time(epoch, t),
        epoch < 86400 * 0x1_0000_0000,
    ensures
        seconds_of(t) == epoch,
{
    assert(epoch / 86400 < 0x1_0000_0000) by (nonlinear_arith)
        requires
            epoch < 86400 * 0x1_0000_0000,
    ;
    assert(epoch_days(epoch) == epoch / 86400);
    lemma_split_seconds(epoch as int);
}

/// Leap years from year 1 through year `n` (Gregorian rule).
pub open spec fn leap_years_through(n: int) -> int {
    n / 4 - n / 100 + n / 400
}

/// The leap-year count grows by one exactly at a leap year.
proof fn lemma_leap_step(x: int)
    requires
        x >= 1970,
    ensures
        leap_years_through(x) - leap_years_through(x - 1) == if is_leap_year(x) {
            1int
        } else {
            0int
        },
{
    assert(x / 4 - (x - 1) / 4 == if x % 4 == 0 { 1int } else { 0int });
    assert(x / 100 - (x - 1) / 100 == if x % 100 == 0 { 1int } else { 0int });
    assert(x / 400 - (x - 1) / 400 == if x % 400 == 0 { 1int } else { 0int });
    assert(x % 400 == 0 ==> x % 100 == 0 && x % 4 == 0);
    assert(x % 100 == 0 ==> x % 4 == 0);
}

/// The days before year `y`: 365 a year plus one per leap year.
proof fn lemma_days_before_year_closed(y: int)
    requires
        y >= 1970,
    ensures
        days_before_year(y) == 365 * (y - 1970) + leap_years_through(y - 1) - leap_years_through(
            1969,
        ),
    decreases y - 1970,
{
    if y > 1970 {
        lemma_days_before_year_closed(y - 1);
        lemma_leap_step(y - 1);
    }
}

/// The first second of the year 10000 (10000-01-01T00:00:00Z).
pub const YEAR_10000_SECS: u64 = 253402300800;

/// Before the year 10000, a timestamp's year has four digits.
proof fn lemma_year_before_10000(epoch: u64, t: CivilTime)
    requires
        is_civil_time(epoch, t),
        epoch < YEAR_10000_SECS,
    ensures
        t.0 < 10000,
{
    let (y, mo, d, h, mi, s) = t;
    lemma_days_before_month_nonneg(y as int, mo as int);
    assert(epoch / 86400 < 2932897) by (nonlinear_arith)
        requires
            epoch < 253402300800,
    ;
    assert(epoch_days(epoch) == epoch / 86400);
    if y >= 10000 {
        lemma_days_before_year_closed(10000);
        assert(days_before_year(10000) == 2932897);
        if y > 10000 {
            lemma_days_before_year_mono(10000, y as int);
        }
    }
}

/// The number of decimal digits of `n` is one more than that of `n / 10`.
proof fn lemma_decimal_len(n: nat)
    ensures
        crate::text::decimal(n).len() == if n < 10 {
            1
        } else {
            crate::text::decimal(n / 10).len() + 1
        },
{
}

/// A number below 100 pads to two digits; one from 1000 to 9999 has four.
proof fn lemma_padded_widths(n: nat)
    ensures
        n < 100 ==> crate::text::zero_pad(crate::text::decimal(n), 2).len() == 2,
        1000 <= n < 10000 ==> crate::text::zero_pad(crate::text::decimal(n), 4).len() == 4,
{
    lemma_decimal_len(n);
    lemma_decimal_len(n / 10);
    lemma_decimal_len(n / 100);
    lemma_decimal_len(n / 1000);
    assert(n / 10 / 10 == n / 100);
    assert(n / 100 / 10 == n / 1000);
}

/// The ISO text of a timestamp before the year 10000 has twenty
/// characters: `YYYY-MM-DDTHH:MM:SSZ`.
pub proof fn lemma_iso_text_len(epoch: u64, t: CivilTime)
    requires
        is_civil_time(epoch, t),
        epoch < YEAR_10000_SECS,
    ensures
        iso_text(t).len() == 20,
{
    lemma_year_before_10000(epoch, t);
    let (y, mo, d, h, mi, s) = t;
    lemma_padded_widths(y as nat);
    lemma_padded_widths(mo as nat);
    lemma_padded_widths(d as nat);
    lemma_padded_widths(h as nat);
    lemma_padded_widths(mi as nat);
    lemma_padded_widths(s as nat);
}

/// A year that contains day `days` (counted from 1970-01-01), found from
/// year `y` on.
proof fn lemma_find_year(days: int, y: int) -> (r: int)
    requires
        1970 <= y,
        days_before_year(y) <= days,
    ensures
        y <= r,
        days_before_year(r) <= days < days_before_year(r) + days_in_year(r),
    decreases days - days_before_year(y),
{
    if days < days_before_year(y) + days_in_year(y) {
        y
    } else {
        assert(days_before_year(y + 1) == days_before_year(y) + days_in_year(y));
        lemma_find_year(days, y + 1)
    }
}

/// A month of year `y` that contains day `doy` of the year, found from
/// month `m` on.
proof fn lemma_find_month(y: int, doy: int, m: int) -> (r: int)
    requires
        1 <= m <= 12,
        days_before_month(y, m) <= doy < days_in_year(y),
    ensures
        m <= r <= 12,
        days_before_month(y, r) <= doy < days_before_month(y, r) + days_in_month(y, r),
    decreases 12 - m,
{
    lemma_months_fill_year(y);
    if doy < days_before_month(y, m) + days_in_month(y, m) {
        m
    } else {
        if m == 12 {
            assert(days_before_month(y, 13) == days_before_month(y, 12) + days_in_month(y, 12));
        }
        assert(days_before_month(y, m + 1) == days_before_month(y, m) + days_in_month(y, m));
        lemma_find_month(y, doy, m + 1)
    }
}

/// Every timestamp has a date and time, so `civil_time` gives it.
pub proof fn lemma_civil_time_exists(epoch: u64)
    ensures
        is_civil_time(epoch, civil_time(epoch)),
{
    let days = epoch_days(epoch);
    let y = lemma_find_year(days, 1970);
    lemma_days_before_year_lower(y);
    let doy = days - days_before_year(y);
    let mo = lemma_find_month(y, doy, 1);
    let d = doy - days_before_month(y, mo) + 1;
    let t: CivilTime = (
        y as u32,
        mo as u32,
        d as u32,
        ((epoch / 3600) % 24) as u32,
        ((epoch / 60) % 60) as u32,
        (epoch % 60) as u32,
    );
    assert(is_civil_time(epoch, t));
}

/// Dates and times in order, field by field: year, month, day, hour,
/// minute, second.
pub open spec fn civil_lt(t1: CivilTime, t2: CivilTime) -> bool {
    ||| t1.0 < t2.0
    ||| t1.0 == t2.0 && t1.1 < t2.1
    ||| t1.0 == t2.0 && t1.1 == t2.1 && t1.2 < t2.2
    ||| t1.0 == t2.0 && t1.1 == t2.1 && t1.2 == t2.2 && t1.3 < t2.3
    ||| t1.0 == t2.0 && t1.1 == t2.1 && t1.2 == t2.2 && t1.3 == t2.3 && t1.4 < t2.4
    ||| t1.0 == t2.0 && t1.1 == t2.1 && t1.2 == t2.2 && t1.3 == t2.3 && t1.4 == t2.4 && t1.5
        < t2.5
}

/// An earlier date and time is an earlier timestamp.
proof fn lemma_civil_lt_earlier(a: u64, t1: CivilTime, b: u64, t2: CivilTime)
    requires
        is_civil_time(a, t1),
        is_civil_time(b, t2),
        a < YEAR_10000_SECS,
        b < YEAR_10000_SECS,
        civil_lt(t1, t2),
    ensures
        a < b,
{
    let (y1, m1, d1, h1, mi1, s1) = t1;
    let (y2, m2, d2, h2, mi2, s2) = t2;
    lemma_seconds_of_civil_time(a, t1);
    lemma_seconds_of_civil_time(b, t2);
    let days1 = days_before_year(y1 as int) + days_before_month(y1 as int, m1 as int) + d1 - 1;
    let days2 = days_before_year(y2 as int) + days_before_month(y2 as int, m2 as int) + d2 - 1;
    lemma_month_within_year(y1 as int, m1 as int);
    lemma_days_before_month_nonneg(y2 as int, m2 as int);
    if y1 < y2 {
        lemma_days_before_year_mono(y1 as int, y2 as int);
        assert(days1 < days2);
    } else if m1 < m2 {
        lemma_days_before_month_mono(y1 as int, m1 as int, m2 as int);
        assert(days1 < days2);
    } else if d1 < d2 {
        assert(days1 < days2);
    } else {
        assert(days1 == days2);
    }
    assert(h1 * 3600 + mi1 * 60 + s1 < 86400);
    assert(h2 * 3600 + mi2 * 60 + s2 < 86400);
}

/// The two digits of a number below 100.
pub open spec fn two_digits(n: nat) -> Seq<char> {
    seq![crate::text::digit_char(n / 10), crate::text::digit_char(n % 10)]
}

/// A decimal digit's character is `'0'` plus the digit.
proof fn lemma_digit_char_value(d: nat)
    requires
        d < 10,
    ensures
        crate::text::digit_char(d) as int == 48 + d,
{
}

/// A number below 100 is printed, zero-padded to two, as its two digits.
proof fn lemma_padded_two(n: nat)
    requires
        n < 100,
    ensures
        crate::text::zero_pad(crate::text::decimal(n), 2) == two_digits(n),
{
    lemma_digit_char_value(0);
    assert(crate::text::digit_char(0) == '0');
    if n < 10 {
        assert(crate::text::decimal(n) == seq![crate::text::digit_char(n)]);
        assert(crate::text::zero_pad(crate::text::decimal(n), 2) =~= two_digits(n));
    } else {
        assert(crate::text::decimal(n / 10) == seq![crate::text::digit_char(n / 10)]);
        assert(crate::text::zero_pad(crate::text::decimal(n), 2) =~= two_digits(n));
    }
}

/// A number from 1000 to 9999 is printed, zero-padded to four, as the two
/// digits of its hundreds and then of its rest.
proof fn lemma_padded_four(n: nat)
    requires
        1000 <= n < 10000,
    ensures
        crate::text::zero_pad(crate::text::decimal(n), 4) == two_digits(n / 100) + two_digits(
            n % 100,
        ),
{
    assert(n / 10 / 10 == n / 100);
    assert(n / 100 / 10 == n / 1000);
    assert(crate::text::decimal(n / 1000) == seq![crate::text::digit_char(n / 1000)]);
    assert(crate::text::decimal(n / 100) == crate::text::decimal(n / 1000).push(
        crate::text::digit_char((n / 100) % 10),
    ));
    assert(crate::text::decimal(n / 10) == crate::text::decimal(n / 100).push(
        crate::text::digit_char((n / 10) % 10),
    ));
    assert(crate::text::decimal(n) == crate::text::decimal(n / 10).push(
        crate::text::digit_char(n % 10),
    ));
    assert((n % 100) / 10 == (n / 10) % 10);
    assert((n % 100) % 10 == n % 10);
    assert(crate::text::zero_pad(crate::text::decimal(n), 4) =~= two_digits(n / 100) + two_digits(
        n % 100,
    ));
}

/// Two-digit texts compare as their numbers do.
proof fn lemma_two_digits_order(n: nat, m: nat)
    requires
        n < 100,
        m < 100,
    ensures
        (two_digits(n) == two_digits(m)) == (n == m),
        crate::text::text_le(two_digits(n), two_digits(m)) == (n <= m),
{
    lemma_digit_char_value(n / 10);
    lemma_digit_char_value(n % 10);
    lemma_digit_char_value(m / 10);
    lemma_digit_char_value(m % 10);
    reveal_with_fuel(crate::text::text_le, 3);
    let a = two_digits(n);
    let b = two_digits(m);
    assert(a.drop_first() =~= seq![crate::text::digit_char(n % 10)]);
    assert(b.drop_first() =~= seq![crate::text::digit_char(m % 10)]);
    assert(a.drop_first().drop_first() =~= Seq::<char>::empty());
    assert(b.drop_first().drop_first() =~= Seq::<char>::empty());
    if a == b {
        assert(a[0] == b[0] && a[1] == b[1]);
    }
}

/// Four-digit texts (hundreds, then rest) compare as their numbers do.
proof fn lemma_four_digits_order(n: nat, m: nat)
    requires
        n < 10000,
        m < 10000,
    ensures
        (two_digits(n / 100) + two_digits(n % 100) == two_digits(m / 100) + two_digits(m % 100))
            == (n == m),
        crate::text::text_le(
            two_digits(n / 100) + two_digits(n % 100),
            two_digits(m / 100) + two_digits(m % 100),
        ) == (n <= m),
{
    lemma_two_digits_order(n / 100, m / 100);
    lemma_two_digits_order(n % 100, m % 100);
    crate::text::lemma_text_le_concat(
        two_digits(n / 100),
        two_digits(n % 100),
        two_digits(m / 100),
        two_digits(m % 100),
    );
}

/// Part `k` of the ISO text of `t`: the year, `-`, the month, `-`, the
/// day, `T`, the hour, `:`, the minute, `:`, the second, then `Z`.
pub open spec fn iso_part(t: CivilTime, k: int) -> Seq<char> {
    let (y, mo, d, h, mi, s) = t;
    if k == 0 {
        crate::text::zero_pad(crate::text::decimal(y as nat), 4)
    } else if k == 1 || k == 3 {
        seq!['-']
    } else if k == 2 {
        crate::text::zero_pad(crate::text::decimal(mo as nat), 2)
    } else if k == 4 {
        crate::text::zero_pad(crate::text::decimal(d as nat), 2)
    } else if k == 5 {
        seq!['T']
    } else if k == 6 {
        crate::text::zero_pad(crate::text::decimal(h as nat), 2)
    } else if k == 7 || k == 9 {
        seq![':']
    } else if k == 8 {
        crate::text::zero_pad(crate::text::decimal(mi as nat), 2)
    } else if k == 10 {
        crate::text::zero_pad(crate::text::decimal(s as nat), 2)
    } else {
        seq!['Z']
    }
}

/// The ISO text of `t` from part `k` on.
pub open spec fn iso_tail(t: CivilTime, k: int) -> Seq<char>
    decreases 11 - k,
{
    if k >= 11 {
        seq!['Z']
    } else {
        iso_part(t, k) + iso_tail(t, k + 1)
    }
}

/// Comparing two ISO texts part by part from part `k`: the first part
/// that differs decides.
pub open spec fn iso_parts_le(t1: CivilTime, t2: CivilTime, k: int) -> bool
    decreases 11 - k,
{
    if k >= 11 {
        true
    } else if iso_part(t1, k) == iso_part(t2, k) {
        iso_parts_le(t1, t2, k + 1)
    } else {
        crate::text::text_le(iso_part(t1, k), iso_part(t2, k))
    }
}

/// Whether two ISO texts agree part by part from part `k`.
pub open spec fn iso_parts_eq(t1: CivilTime, t2: CivilTime, k: int) -> bool
    decreases 11 - k,
{
    if k >= 11 {
        true
    } else {
        iso_part(t1, k) == iso_part(t2, k) && iso_parts_eq(t1, t2, k + 1)
    }
}

/// ISO texts whose parts have equal lengths compare part by part.
proof fn lemma_iso_tail_order(t1: CivilTime, t2: CivilTime, k: int)
    requires
        0 <= k <= 11,
        forall|j: int| k <= j < 11 ==> (#[trigger] iso_part(t1, j)).len() == iso_part(t2, j).len(),
    ensures
        crate::text::text_le(iso_tail(t1, k), iso_tail(t2, k)) == iso_parts_le(t1, t2, k),
        (iso_tail(t1, k) == iso_tail(t2, k)) == iso_parts_eq(t1, t2, k),
    decreases 11 - k,
{
    if k >= 11 {
        reveal_with_fuel(crate::text::text_le, 2);
        assert(seq!['Z'].drop_first() =~= Seq::<char>::empty());
    } else {
        lemma_iso_tail_order(t1, t2, k + 1);
        assert(iso_part(t1, k).len() == iso_part(t2, k).len());
        crate::text::lemma_text_le_concat(
            iso_part(t1, k),
            iso_tail(t1, k + 1),
            iso_part(t2, k),
            iso_tail(t2, k + 1),
        );
    }
}

/// The ISO text is its parts in order.
proof fn lemma_iso_text_parts(t: CivilTime)
    ensures
        iso_text(t) == iso_tail(t, 0),
{
    reveal_with_fuel(iso_tail, 12);
    assert(iso_text(t) =~= iso_tail(t, 0));
}

/// Two-digit fields compare as their numbers do.
proof fn lemma_two_field(n: nat, m: nat)
    requires
        n < 100,
        m < 100,
    ensures
        crate::text::zero_pad(crate::text::decimal(n), 2).len() == 2,
        crate::text::zero_pad(crate::text::decimal(m), 2).len() == 2,
        (crate::text::zero_pad(crate::text::decimal(n), 2) == crate::text::zero_pad(
            crate::text::decimal(m),
            2,
        )) == (n == m),
        crate::text::text_le(
            crate::text::zero_pad(crate::text::decimal(n), 2),
            crate::text::zero_pad(crate::text::decimal(m), 2),
        ) == (n <= m),
{
    lemma_padded_two(n);
    lemma_padded_two(m);
    lemma_two_digits_order(n, m);
}

/// Four-digit years compare as their numbers do.
proof fn lemma_four_field(n: nat, m: nat)
    requires
        1000 <= n < 10000,
        1000 <= m < 10000,
    ensures
        crate::text::zero_pad(crate::text::decimal(n), 4).len() == 4,
        crate::text::zero_pad(crate::text::decimal(m), 4).len() == 4,
        (crate::text::zero_pad(crate::text::decimal(n), 4) == crate::text::zero_pad(
            crate::text::decimal(m),
            4,
        )) == (n == m),
        crate::text::text_le(
            crate::text::zero_pad(crate::text::decimal(n), 4),
            crate::text::zero_pad(crate::text::decimal(m), 4),
        ) == (n <= m),
{
    lemma_padded_four(n);
    lemma_padded_four(m);
    lemma_four_digits_order(n, m);
}

/// Whether the fields of `t` have the widths of the ISO text: a
/// four-digit year, two-digit others.
pub open spec fn iso_widths(t: CivilTime) -> bool {
    &&& 1000 <= t.0 < 10000
    &&& t.1 < 100 && t.2 < 100 && t.3 < 100 && t.4 < 100 && t.5 < 100
}

/// Part by part, ISO texts follow the field order of their dates.
#[verifier::rlimit(40)]
proof fn lemma_iso_parts_follow_fields(t1: CivilTime, t2: CivilTime)
    requires
        iso_widths(t1),
        iso_widths(t2),
    ensures
        crate::text::text_le(iso_text(t1), iso_text(t2)) == !civil_lt(t2, t1),
        (iso_text(t1) == iso_text(t2)) == (t1 == t2),
{
    lemma_four_field(t1.0 as nat, t2.0 as nat);
    lemma_two_field(t1.1 as nat, t2.1 as nat);
    lemma_two_field(t1.2 as nat, t2.2 as nat);
    lemma_two_field(t1.3 as nat, t2.3 as nat);
    lemma_two_field(t1.4 as nat, t2.4 as nat);
    lemma_two_field(t1.5 as nat, t2.5 as nat);
    assert forall|j: int| 0 <= j < 11 implies (#[trigger] iso_part(t1, j)).len() == iso_part(
        t2,
        j,
    ).len() by {}
    lemma_iso_tail_order(t1, t2, 0);
    lemma_iso_text_parts(t1);
    lemma_iso_text_parts(t2);
    assert(iso_parts_le(t1, t2, 11));
    assert(iso_parts_eq(t1, t2, 11));
    assert(iso_parts_le(t1, t2, 10) == (t1.5 <= t2.5));
    assert(iso_parts_le(t1, t2, 9) == iso_parts_le(t1, t2, 10));
    assert(iso_parts_le(t1, t2, 8) == (t1.4 < t2.4 || (t1.4 == t2.4 && iso_parts_le(t1, t2, 9))));
    assert(iso_parts_le(t1, t2, 7) == iso_parts_le(t1, t2, 8));
    assert(iso_parts_le(t1, t2, 6) == (t1.3 < t2.3 || (t1.3 == t2.3 && iso_parts_le(t1, t2, 7))));
    assert(iso_parts_le(t1, t2, 5) == iso_parts_le(t1, t2, 6));
    assert(iso_parts_le(t1, t2, 4) == (t1.2 < t2.2 || (t1.2 == t2.2 && iso_parts_le(t1, t2, 5))));
    assert(iso_parts_le(t1, t2, 3) == iso_parts_le(t1, t2, 4));
    assert(iso_parts_le(t1, t2, 2) == (t1.1 < t2.1 || (t1.1 == t2.1 && iso_parts_le(t1, t2, 3))));
    assert(iso_parts_le(t1, t2, 1) == iso_parts_le(t1, t2, 2));
    assert(iso_parts_le(t1, t2, 0) == (t1.0 < t2.0 || (t1.0 == t2.0 && iso_parts_le(t1, t2, 1))));
    assert(iso_parts_eq(t1, t2, 10) == (t1.5 == t2.5));
    assert(iso_parts_eq(t1, t2, 9) == iso_parts_eq(t1, t2, 10));
    assert(iso_parts_eq(t1, t2, 8) == (t1.4 == t2.4 && iso_parts_eq(t1, t2, 9)));
    assert(iso_parts_eq(t1, t2, 7) == iso_parts_eq(t1, t2, 8));
    assert(iso_parts_eq(t1, t2, 6) == (t1.3 == t2.3 && iso_parts_eq(t1, t2, 7)));
    assert(iso_parts_eq(t1, t2, 5) == iso_parts_eq(t1, t2, 6));
    assert(iso_parts_eq(t1, t2, 4) == (t1.2 == t2.2 && iso_parts_eq(t1, t2, 5)));
    assert(iso_parts_eq(t1, t2, 3) == iso_parts_eq(t1, t2, 4));
    assert(iso_parts_eq(t1, t2, 2) == (t1.1 == t2.1 && iso_parts_eq(t1, t2, 3)));
    assert(iso_parts_eq(t1, t2, 1) == iso_parts_eq(t1, t2, 2));
    assert(iso_parts_eq(t1, t2, 0) == (t1.0 == t2.0 && iso_parts_eq(t1, t2, 1)));
}

/// A timestamp before the year 10000 has a date and time of ISO widths.
proof fn lemma_civil_widths(epoch: u64)
    requires
        epoch < YEAR_10000_SECS,
    ensures
        is_civil_time(epoch, civil_time(epoch)),
        iso_widths(civil_time(epoch)),
{
    lemma_civil_time_exists(epoch);
    lemma_year_before_10000(epoch, civil_time(epoch));
}

/// ISO texts before the year 10000 follow time order: the text of an
/// earlier or equal timestamp comes no later (byte by byte), and two
/// timestamps have the same text only when they are the same. Sorting
/// the `pushed_at` texts sorts pushes by time.
pub proof fn lemma_iso_text_order(a: u64, b: u64)
    requires
        a < YEAR_10000_SECS,
        b < YEAR_10000_SECS,
    ensures
        crate::text::text_le(iso_text(civil_time(a)), iso_text(civil_time(b))) == (a <= b),
        (iso_text(civil_time(a)) == iso_text(civil_time(b))) == (a == b),
{
    let t1 = civil_time(a);
    let t2 = civil_time(b);
    lemma_civil_widths(a);
    lemma_civil_widths(b);
    lemma_iso_parts_follow_fields(t1, t2);
    if civil_lt(t2, t1) {
        lemma_civil_lt_earlier(b, t2, a, t1);
    } else if civil_lt(t1, t2) {
        lemma_civil_lt_earlier(a, t1, b, t2);
    } else if t1 == t2 {
        lemma_seconds_of_civil_time(a, t1);
        lemma_seconds_of_civil_time(b, t2);
    }
}

/// Whether `s` has the shape `YYYY-MM-DDTHH:MM:SSZ`: twenty characters,
/// ASCII digits at the digit positions, and the separators between.
pub open spec fn is_iso_shape(s: Seq<char>) -> bool {
    &&& s.len() == 20
    &&& forall|i: int|
        0 <= i < 20 && i != 4 && i != 7 && i != 10 && i != 13 && i != 16 && i != 19
            ==> crate::text::is_digit(#[trigger] s[i])
    &&& s[4] == '-' && s[7] == '-' && s[10] == 'T' && s[13] == ':' && s[16] == ':' && s[19] == 'Z'
}

/// The seconds since 1970-01-01T00:00:00Z that a text of ISO shape stands
/// for, read as a UTC date and time of the proleptic Gregorian calendar.
pub open spec fn iso_seconds(s: Seq<char>) -> int {
    let y = crate::text::digits_value(s.subrange(0, 4)) as int;
    let mo = crate::text::digits_value(s.subrange(5, 7)) as int;
    let d = crate::text::digits_value(s.subrange(8, 10)) as int;
    let h = crate::text::digits_value(s.subrange(11, 13)) as int;
    let mi = crate::text::digits_value(s.subrange(14, 16)) as int;
    let sec = crate::text::digits_value(s.subrange(17, 19)) as int;
    (days_before_year(y) + days_before_month(y, mo) + d - 1) * 86400 + h * 3600 + mi * 60 + sec
}

/// Two digit characters read back as their number.
proof fn lemma_two_digits_value(n: nat)
    requires
        n < 100,
    ensures
        crate::text::digits_value(two_digits(n)) == n,
        crate::text::is_digit(two_digits(n)[0]) && crate::text::is_digit(two_digits(n)[1]),
{
    lemma_digit_char_value(n / 10);
    lemma_digit_char_value(n % 10);
    let t = two_digits(n);
    assert(t.drop_last() =~= seq![crate::text::digit_char(n / 10)]);
    assert(t.drop_last().drop_last() =~= Seq::<char>::empty());
    assert(crate::text::digits_value(t.drop_last().drop_last()) == 0);
    assert(crate::text::digits_value(t.drop_last()) == n / 10);
    assert(crate::text::digits_value(t) == (n / 10) * 10 + n % 10);
}

/// Four digit characters (hundreds, then rest) read back as their number.
proof fn lemma_four_digits_value(n: nat)
    requires
        n < 10000,
    ensures
        crate::text::digits_value(two_digits(n / 100) + two_digits(n % 100)) == n,
{
    lemma_two_digits_value(n / 100);
    lemma_two_digits_value(n % 100);
    let a = two_digits(n / 100);
    let b = two_digits(n % 100);
    lemma_digit_char_value((n % 100) / 10);
    lemma_digit_char_value((n % 100) % 10);
    assert((a + b).drop_last() =~= a.push(b[0]));
    assert(a.push(b[0]).drop_last() =~= a);
    assert((a + b).last() == b[1]);
    assert(a.push(b[0]).last() == b[0]);
    assert(crate::text::digits_value(a.push(b[0])) == (n / 100) * 10 + (n % 100) / 10);
    assert(crate::text::digits_value(a + b) == ((n / 100) * 10 + (n % 100) / 10) * 10 + (n % 100)
        % 10);
}

/// An ISO text read back gives the timestamp it was made from: before the
/// year 10000 the text of `secs` has the ISO shape and stands for exactly
/// `secs` seconds after the epoch.
#[verifier::rlimit(40)]
pub proof fn lemma_iso_text_reads_back(secs: u64)
    requires
        secs < YEAR_10000_SECS,
    ensures
        is_iso_shape(iso_text(civil_time(secs))),
        iso_seconds(iso_text(civil_time(secs))) == secs,
{
    let t = civil_time(secs);
    lemma_civil_widths(secs);
    lemma_seconds_of_civil_time(secs, t);
    let (y, mo, d, h, mi, sec) = t;
    lemma_padded_four(y as nat);
    lemma_padded_two(mo as nat);
    lemma_padded_two(d as nat);
    lemma_padded_two(h as nat);
    lemma_padded_two(mi as nat);
    lemma_padded_two(sec as nat);
    let yy = two_digits((y / 100) as nat) + two_digits((y % 100) as nat);
    let text = yy + seq!['-'] + two_digits(mo as nat) + seq!['-'] + two_digits(d as nat) + seq!['T']
        + two_digits(h as nat) + seq![':'] + two_digits(mi as nat) + seq![':'] + two_digits(
        sec as nat,
    ) + seq!['Z'];
    assert(iso_text(t) =~= text);
    assert(text.subrange(0, 4) =~= yy);
    assert(text.subrange(5, 7) =~= two_digits(mo as nat));
    assert(text.subrange(8, 10) =~= two_digits(d as nat));
    assert(text.subrange(11, 13) =~= two_digits(h as nat));
    assert(text.subrange(14, 16) =~= two_digits(mi as nat));
    assert(text.subrange(17, 19) =~= two_digits(sec as nat));
    lemma_four_digits_value(y as nat);
    lemma_two_digits_value(mo as nat);
    lemma_two_digits_value(d as nat);
    lemma_two_digits_value(h as nat);
    lemma_two_digits_value(mi as nat);
    lemma_two_digits_value(sec as nat);
    lemma_two_digits_value((y / 100) as nat);
    lemma_two_digits_value((y % 100) as nat);
    assert forall|i: int|
        0 <= i < 20 && i != 4 && i != 7 && i != 10 && i != 13 && i != 16 && i != 19 implies crate::text::is_digit(
        #[trigger] text[i],
    ) by {
        if i < 4 {
            assert(text[i] == yy[i]);
        } else if i < 7 {
            assert(text[i] == two_digits(mo as nat)[i - 5]);
        } else if i < 10 {
            assert(text[i] == two_digits(d as nat)[i - 8]);
        } else if i < 13 {
            assert(text[i] == two_digits(h as nat)[i - 11]);
        } else if i < 16 {
            assert(text[i] == two_digits(mi as nat)[i - 14]);
        } else {
            assert(text[i] == two_digits(sec as nat)[i - 17]);
        }
    }
}

/// The Gregorian month lengths: 31 days in January, March, May, July,
/// August, October and December; 30 in April, June, September and
/// November; 29 in February of a leap year and 28 otherwise.
pub proof fn lemma_gregorian_month_lengths(y: int)
    ensures
        seq![
            days_in_month(y, 1),
            days_in_month(y, 2),
            days_in_month(y, 3),
            days_in_month(y, 4),
            days_in_month(y, 5),
            days_in_month(y, 6),
            days_in_month(y, 7),
            days_in_month(y, 8),
            days_in_month(y, 9),
            days_in_month(y, 10),
            days_in_month(y, 11),
            days_in_month(y, 12),
        ] == seq![
            31int,
            if y % 4 == 0 && (y % 100 != 0 || y % 400 == 0) {
                29int
            } else {
                28int
            },
            31int,
            30int,
            31int,
            30int,
            31int,
            31int,
            30int,
            31int,
            30int,
            31int,
        ],
{
    assert(seq![
        days_in_month(y, 1),
        days_in_month(y, 2),
        days_in_month(y, 3),
        days_in_month(y, 4),
        days_in_month(y, 5),
        days_in_month(y, 6),
        days_in_month(y, 7),
        days_in_month(y, 8),
        days_in_month(y, 9),
        days_in_month(y, 10),
        days_in_month(y, 11),
        days_in_month(y, 12),
    ] =~= seq![
        31int,
        if y % 4 == 0 && (y % 100 != 0 || y % 400 == 0) {
            29int
        } else {
            28int
        },
        31int,
        30int,
        31int,
        30int,
        31int,
        31int,
        30int,
        31int,
        30int,
        31int,
    ]);
}

// ── Executable conversion ───────────────────────────────────────────────────

/// Whether `y` is a leap year.
pub fn is_leap_year_exec(y: u32) -> (b: bool)
    ensures
        b == is_leap_year(y as int),
{
    y % 4 == 0 && (y % 100 != 0 || y % 400 == 0)
}

/// The number of days in year `y`.
pub fn days_in_year_exec(y: u32) -> (n: u32)
    ensures
        n == days_in_year(y as int),
{
    if is_leap_year_exec(y) {
        366
    } else {
        365
    }
}

/// The number of days in month `m` of year `y`.
pub fn days_in_month_exec(y: u32, m: u32) -> (n: u32)
    ensures
        n == days_in_month(y as int, m as int),
{
    if m == 2 {
        if is_leap_year_exec(y) {
            29
        } else {
            28
        }
    } else if m == 4 || m == 6 || m == 9 || m == 11 {
        30
    } else {
        31
    }
}

/// The UTC date and time of `epoch` seconds since 1970-01-01T00:00:00Z,
/// as (year, month, day, hour, minute, second). The day count is kept
/// to 32 bits, which reaches past the year 11 million.
pub fn epoch_to_ymd_hms(epoch: u64) -> (t: CivilTime)
    ensures
        is_civil_time(epoch, t),
        t == civil_time(epoch),
        epoch < 86400 * 0x1_0000_0000 ==> seconds_of(t) == epoch,
{
    let sec = (epoch % 60) as u32;
    let min = ((epoch / 60) % 60) as u32;
    let hour = ((epoch / 3600) % 24) as u32;
    let q: u64 = epoch / 86400;
    let days = #[verifier::truncate] (q as u32);
    assert(days == q % 0x1_0000_0000) by (bit_vector)
        requires
            days == #[verifier::truncate] (q as u32),
    ;
    let mut y: u32 = 1970;
    let mut remaining: u32 = days;
    while remaining >= days_in_year_exec(y)
        invariant
            1970 <= y,
            remaining + days_before_year(y as int) == days,
            days <= u32::MAX,
        decreases remaining,
    {
        proof {
            lemma_days_before_year_lower(y + 1);
        }
        remaining = remaining - days_in_year_exec(y);
        assert(days_before_year(y + 1) == days_before_year(y as int) + days_in_year(y as int));
        y = y + 1;
    }
    let ghost day_of_year = remaining as int;
    proof {
        lemma_months_fill_year(y as int);
    }
    let mut mo: u32 = 1;
    while mo <= 12 && remaining >= days_in_month_exec(y, mo)
        invariant
            1 <= mo <= 13,
            remaining + days_before_month(y as int, mo as int) == day_of_year,
            day_of_year < days_in_year(y as int),
            days_before_month(y as int, 13) == days_in_year(y as int),
        decreases 13 - mo,
    {
        remaining = remaining - days_in_month_exec(y, mo);
        mo = mo + 1;
    }
    assert(mo <= 12);
    let t = (y, mo, remaining + 1, hour, min, sec);
    assert(is_civil_time(epoch, t));
    proof {
        lemma_civil_time_unique(epoch, t, civil_time(epoch));
        if epoch < 86400 * 0x1_0000_0000 {
            lemma_seconds_of_civil_time(epoch, t);
        }
    }
    t
}

/// The ISO 8601 UTC text of `secs` seconds since the epoch,
/// e.g. `2026-05-20T14:30:00Z`.
pub fn chrono_secs_to_iso(secs: u64) -> (s: String)
    ensures
        s@ == iso_text(civil_time(secs)),
        secs < YEAR_10000_SECS ==> s@.len() == 20,
{
    let (y, mo, d, h, mi, sec) = epoch_to_ymd_hms(secs);
    proof {
        if secs < YEAR_10000_SECS {
            lemma_iso_text_len(secs, (y, mo, d, h, mi, sec));
        }
    }
    let mut s = String::new();
    crate::text::push_zero_padded(&mut s, y as u64, 4);
    crate::text::push_char(&mut s, '-');
    crate::text::push_zero_padded(&mut s, mo as u64, 2);
    crate::text::push_char(&mut s, '-');
    crate::text::push_zero_padded(&mut s, d as u64, 2);
    crate::text::push_char(&mut s, 'T');
    crate::text::push_zero_padded(&mut s, h as u64, 2);
    crate::text::push_char(&mut s, ':');
    crate::text::push_zero_padded(&mut s, mi as u64, 2);
    crate::text::push_char(&mut s, ':');
    crate::text::push_zero_padded(&mut s, sec as u64, 2);
    crate::text::push_char(&mut s, 'Z');
    assert(s@ =~= iso_text((y, mo, d, h, mi, sec)));
    s
}

} // verus!
