use vstd::prelude::*;

verus! {

/// Gregorian leap years.
pub open spec fn is_leap_year(y: int) -> bool {
    y % 4 == 0 && (y % 100 != 0 || y % 400 == 0)
}

/// Days in year `y`.
pub open spec fn year_length(y: int) -> int {
    if is_leap_year(y) {
        366
    } else {
        365
    }
}

/// Days in month `m` (1 to 12) of year `y`.
pub open spec fn days_in_month(y: int, m: int) -> int {
    if m == 2 {
        if is_leap_year(y) {
            29
        } else {
            28
        }
    } else if m == 4 || m == 6 || m == 9 || m == 11 {
        30
    } else {
        31
    }
}

/// A real date of the proleptic Gregorian calendar.
pub open spec fn valid_date(y: int, m: int, d: int) -> bool {
    1 <= m <= 12 && 1 <= d <= days_in_month(y, m)
}

/// Days from January 1 to the first of month `m` in year `y`.
pub open spec fn days_before_month(y: int, m: int) -> int {
    (if m <= 1 {
        0int
    } else if m == 2 {
        31
    } else if m == 3 {
        59
    } else if m == 4 {
        90
    } else if m == 5 {
        120
    } else if m == 6 {
        151
    } else if m == 7 {
        181
    } else if m == 8 {
        212
    } else if m == 9 {
        243
    } else if m == 10 {
        273
    } else if m == 11 {
        304
    } else {
        334
    }) + if m > 2 && is_leap_year(y) {
        1int
    } else {
        0int
    }
}

/// Leap years in `1..y` (negative counts for years before 1 cancel out in
/// the differences below).
pub open spec fn leap_years_before(y: int) -> int {
    (y - 1) / 4 - (y - 1) / 100 + (y - 1) / 400
}

/// Days from 1970-01-01 to January 1 of year `y` (negative before 1970).
pub open spec fn days_before_year(y: int) -> int {
    365 * (y - 1970) + leap_years_before(y) - leap_years_before(1970)
}

/// The day number of a date: days since 1970-01-01.
pub open spec fn days_from_civil(y: int, m: int, d: int) -> int {
    days_before_year(y) + days_before_month(y, m) + d - 1
}

/// The date with the given day number.
pub open spec fn civil_date(days: int) -> (int, int, int) {
    choose|t: (int, int, int)| valid_date(t.0, t.1, t.2) && days_from_civil(t.0, t.1, t.2) == days
}

proof fn lemma_div4_step(y: int)
    ensures
        y / 4 - (y - 1) / 4 == if y % 4 == 0 { 1int } else { 0int },
{
}

proof fn lemma_div100_step(y: int)
    ensures
        y / 100 - (y - 1) / 100 == if y % 100 == 0 { 1int } else { 0int },
{
}

proof fn lemma_div400_step(y: int)
    ensures
        y / 400 - (y - 1) / 400 == if y % 400 == 0 { 1int } else { 0int },
{
}

/// Law: consecutive years are one year length apart.
pub proof fn lemma_year_length(y: int)
    ensures
        days_before_year(y + 1) == days_before_year(y) + year_length(y),
{
    lemma_div4_step(y);
    lemma_div100_step(y);
    lemma_div400_step(y);
    assert(y % 400 == 0 ==> y % 100 == 0);
    assert(y % 100 == 0 ==> y % 4 == 0);
}

/// Law: consecutive months are one month length apart, and December runs to
/// the end of the year.
pub proof fn lemma_month_length(y: int, m: int)
    requires
        1 <= m <= 12,
    ensures
        m < 12 ==> days_before_month(y, m + 1) == days_before_month(y, m) + days_in_month(y, m),
        m == 12 ==> days_before_month(y, m) + days_in_month(y, m) == year_length(y),
{
}

/// Law: day zero is 1970-01-01.
pub proof fn lemma_epoch()
    ensures
        days_from_civil(1970, 1, 1) == 0,
{
}

/// Days from March 1 of year 0 of a 400-year era to March 1 of year `k`.
pub open spec fn era_year_start(k: int) -> int {
    365 * k + k / 4 - k / 100 + k / 400
}

/// Within an era, the year-of-era formula finds the March-based year
/// containing day `doe`.
pub(crate) proof fn lemma_year_of_era(doe: int)
    requires
        0 <= doe <= 146096,
    ensures
        ({
            let yoe = (doe - doe / 1460 + doe / 36524 - doe / 146096) / 365;
            &&& 0 <= yoe <= 399
            &&& era_year_start(yoe) <= doe < era_year_start(yoe + 1)
        }),
{
}

/// Later years start later.
proof fn lemma_days_before_year_increasing(a: int, b: int)
    requires
        a < b,
    ensures
        days_before_year(a) + year_length(a) <= days_before_year(b),
    decreases b - a,
{
    lemma_year_length(a);
    if a + 1 < b {
        lemma_days_before_year_increasing(a + 1, b);
        lemma_year_length(a + 1);
    }
}

/// A valid date's day number lies inside its year, and inside its month.
proof fn lemma_date_within_year(y: int, m: int, d: int)
    requires
        valid_date(y, m, d),
    ensures
        days_before_year(y) <= days_from_civil(y, m, d) < days_before_year(y) + year_length(y),
{
    lemma_month_length(y, m);
    lemma_month_length(y, 12);
}

/// Law: different valid dates have different day numbers.
pub proof fn lemma_days_from_civil_injective(y1: int, m1: int, d1: int, y2: int, m2: int, d2: int)
    requires
        valid_date(y1, m1, d1),
        valid_date(y2, m2, d2),
        days_from_civil(y1, m1, d1) == days_from_civil(y2, m2, d2),
    ensures
        y1 == y2 && m1 == m2 && d1 == d2,
{
    lemma_date_within_year(y1, m1, d1);
    lemma_date_within_year(y2, m2, d2);
    if y1 < y2 {
        lemma_days_before_year_increasing(y1, y2);
    } else if y2 < y1 {
        lemma_days_before_year_increasing(y2, y1);
    }
    assert(y1 == y2);
}

/// Within a March-based year, the month formula finds the month containing
/// day `doy`.
pub(crate) proof fn lemma_month_of_year(doy: int)
    requires
        0 <= doy <= 365,
    ensures
        ({
            let mp = (5 * doy + 2) / 153;
            &&& 0 <= mp <= 11
            &&& (153 * mp + 2) / 5 <= doy
            &&& mp < 11 ==> doy < (153 * (mp + 1) + 2) / 5
        }),
{
}

/// The day number of a date, counted the March-based way: `ym` is the year
/// with January and February counted in the previous year, `mp` the month
/// counted from March.
proof fn lemma_days_from_civil_march_based(y: int, m: int, d: int)
    requires
        1 <= m <= 12,
    ensures
        ({
            let ym = if m <= 2 { y - 1 } else { y };
            let mp = if m > 2 { m - 3 } else { m + 9 };
            days_from_civil(y, m, d) == 365 * ym + ym / 4 - ym / 100 + ym / 400 + (153 * mp + 2) / 5
                + d - 1 - 719468
        }),
{
    lemma_div4_step(y);
    lemma_div100_step(y);
    lemma_div400_step(y);
}

/// The steps of the day-number-to-date conversion yield the valid date with
/// that day number.
pub proof fn lemma_civil_steps(
    days: int,
    era: int,
    doe: int,
    yoe: int,
    doy: int,
    mp: int,
    d: int,
    m: int,
    y: int,
)
    requires
        era * 146097 <= days + 719468 < era * 146097 + 146097,
        doe == days + 719468 - era * 146097,
        yoe == (doe - doe / 1460 + doe / 36524 - doe / 146096) / 365,
        doy == doe - (365 * yoe + yoe / 4 - yoe / 100),
        mp == (5 * doy + 2) / 153,
        d == doy - (153 * mp + 2) / 5 + 1,
        m == if mp < 10 { mp + 3 } else { mp - 9 },
        y == yoe + era * 400 + if m <= 2 { 1int } else { 0int },
    ensures
        valid_date(y, m, d),
        days_from_civil(y, m, d) == days,
{
    lemma_year_of_era(doe);
    assert(0 <= doy <= 365);
    lemma_month_of_year(doy);
    lemma_days_from_civil_march_based(y, m, d);
    let ym = yoe + era * 400;
    assert(ym / 4 == yoe / 4 + era * 100);
    assert(ym / 100 == yoe / 100 + era * 4);
    assert(ym / 400 == era);
}

/// The steps of the conversion yield `civil_date(days)`.
pub proof fn lemma_civil_date_is(days: int, y: int, m: int, d: int)
    requires
        valid_date(y, m, d),
        days_from_civil(y, m, d) == days,
    ensures
        civil_date(days) == (y, m, d),
{
    let w = (y, m, d);
    assert(valid_date(w.0, w.1, w.2) && days_from_civil(w.0, w.1, w.2) == days);
    let t = civil_date(days);
    assert(valid_date(t.0, t.1, t.2) && days_from_civil(t.0, t.1, t.2) == days);
    lemma_days_from_civil_injective(t.0, t.1, t.2, y, m, d);
}

} // verus!
