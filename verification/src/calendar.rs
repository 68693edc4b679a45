//! The civil calendar, as far as a timestamp in a file name needs it.

use vstd::prelude::*;

use crate::text::{decimal_padded, digit, is_digit, padded, smaller_at, sorts_before};

verus! {

broadcast use vstd::string::group_string_axioms;

/// Whether a year of the Gregorian calendar has a leap day.
pub open spec fn is_leap(y: int) -> bool {
    y % 4 == 0 && (y % 100 != 0 || y % 400 == 0)
}

/// How many days a month has.
pub open spec fn month_len(y: int, m: int) -> int {
    if m == 2 {
        if is_leap(y) {
            29
        } else {
            28
        }
    } else if m == 4 || m == 6 || m == 9 || m == 11 {
        30
    } else {
        31
    }
}

/// How many days of the year come before a month.
pub open spec fn days_before_month(y: int, m: int) -> int
    decreases m,
{
    if m <= 1 {
        0
    } else {
        days_before_month(y, m - 1) + month_len(y, m - 1)
    }
}

/// How many days lie between the first day of year one and that of year `y`.
pub open spec fn days_before_year(y: int) -> int {
    365 * (y - 1) + (y - 1) / 4 - (y - 1) / 100 + (y - 1) / 400
}

/// How many days lie between the first of January 1970 and a date.
pub open spec fn day_number(y: int, m: int, d: int) -> int {
    days_before_year(y) + days_before_month(y, m) + (d - 1) - days_before_year(1970)
}

/// Whether the three numbers are a date.
pub open spec fn valid_date(y: int, m: int, d: int) -> bool {
    1 <= m <= 12 && 1 <= d <= month_len(y, m)
}

/// A year is as long as its months together.
pub proof fn law_a_year_is_its_months(y: int)
    ensures
        days_before_year(y + 1) == days_before_year(y) + days_before_month(y, 12) + month_len(
            y,
            12,
        ),
        days_before_month(y, 12) + month_len(y, 12) == if is_leap(y) {
            366int
        } else {
            365int
        },
{
    lemma_months_add_up(y);
    lemma_quotient_step(y, 4);
    lemma_quotient_step(y, 100);
    lemma_quotient_step(y, 400);
    lemma_leap_multiples(y);
}

proof fn lemma_months_add_up(y: int)
    ensures
        days_before_month(y, 12) + month_len(y, 12) == if is_leap(y) {
            366int
        } else {
            365int
        },
{
    assert(days_before_month(y, 1) == 0);
    assert(days_before_month(y, 2) == 31);
    let f = month_len(y, 2);
    assert(days_before_month(y, 3) == 31 + f);
    assert(days_before_month(y, 4) == 62 + f);
    assert(days_before_month(y, 5) == 92 + f);
    assert(days_before_month(y, 6) == 123 + f);
    assert(days_before_month(y, 7) == 153 + f);
    assert(days_before_month(y, 8) == 184 + f);
    assert(days_before_month(y, 9) == 215 + f);
    assert(days_before_month(y, 10) == 245 + f);
    assert(days_before_month(y, 11) == 276 + f);
    assert(days_before_month(y, 12) == 306 + f);
}

proof fn lemma_quotient_step(y: int, k: int)
    requires
        k == 4 || k == 100 || k == 400,
    ensures
        y / k == (y - 1) / k + if y % k == 0 {
            1int
        } else {
            0int
        },
{
    if k == 4 {
        assert(y / 4 == (y - 1) / 4 + if y % 4 == 0 {
            1int
        } else {
            0int
        });
    } else if k == 100 {
        assert(y / 100 == (y - 1) / 100 + if y % 100 == 0 {
            1int
        } else {
            0int
        });
    } else {
        assert(y / 400 == (y - 1) / 400 + if y % 400 == 0 {
            1int
        } else {
            0int
        });
    }
}

proof fn lemma_leap_multiples(y: int)
    ensures
        y % 400 == 0 ==> y % 100 == 0,
        y % 100 == 0 ==> y % 4 == 0,
{
}

/// Earlier years begin earlier.
proof fn lemma_years_ascend(a: int, b: int)
    requires
        a <= b,
    ensures
        days_before_year(b) >= days_before_year(a) + 365 * (b - a),
    decreases b - a,
{
    if a < b {
        lemma_years_ascend(a, b - 1);
        law_a_year_is_its_months(b - 1);
    }
}

proof fn lemma_months_ascend(y: int, a: int, b: int)
    requires
        1 <= a < b <= 13,
    ensures
        days_before_month(y, b) >= days_before_month(y, a) + month_len(y, a),
    decreases b - a,
{
    if a + 1 < b {
        lemma_months_ascend(y, a, b - 1);
    }
}

/// No two dates fall on the same day.
pub proof fn law_a_day_has_one_date(y: int, m: int, d: int, y2: int, m2: int, d2: int)
    requires
        valid_date(y, m, d),
        valid_date(y2, m2, d2),
        day_number(y, m, d) == day_number(y2, m2, d2),
    ensures
        y == y2,
        m == m2,
        d == d2,
{
    if y < y2 {
        lemma_date_within_year(y, m, d);
        lemma_date_within_year(y2, m2, d2);
        lemma_years_ascend(y + 1, y2);
        law_a_year_is_its_months(y);
    } else if y2 < y {
        lemma_date_within_year(y, m, d);
        lemma_date_within_year(y2, m2, d2);
        lemma_years_ascend(y2 + 1, y);
        law_a_year_is_its_months(y2);
    } else if m < m2 {
        lemma_months_ascend(y, m, m2);
    } else if m2 < m {
        lemma_months_ascend(y, m2, m);
    }
}

proof fn lemma_date_within_year(y: int, m: int, d: int)
    requires
        valid_date(y, m, d),
    ensures
        0 <= days_before_month(y, m) + d - 1 < days_before_month(y, 12) + month_len(y, 12),
{
    reveal_with_fuel(days_before_month, 13);
}

/// Which year of a 400-year era a day of the era falls in, when years begin in
/// March.
proof fn lemma_year_of_era(doe: int)
    requires
        0 <= doe < 146097,
    ensures
        ({
            let yoe = (doe - doe / 1460 + doe / 36524 - doe / 146096) / 365;
            let start = 365 * yoe + yoe / 4 - yoe / 100;
            &&& 0 <= yoe < 400
            &&& 0 <= doe - start <= 365
            &&& doe - start == 365 ==> (yoe + 1) % 4 == 0 && ((yoe + 1) % 100 != 0 || yoe + 1
                == 400)
        }),
{
    let c: int = if doe == 146096 {
        3
    } else {
        doe / 36524
    };
    let b: int = doe - 36524 * c;
    let q: int = b / 1461;
    let r: int = b - 1461 * q;
    let n: int = if r == 1460 {
        3
    } else {
        r / 365
    };
    assert(0 <= c <= 3);
    assert(0 <= b <= 36524);
    assert(0 <= q <= 24);
    assert(0 <= r <= 1460);
    let e: int = (24 * c + q + r) / 1460;
    assert(doe / 1460 == 25 * c + q + e);
    assert(0 <= e <= 1);
    let f: int = doe / 36524 - doe / 146096;
    assert(f == c);
    assert(doe - doe / 1460 + f == 36500 * c + 1460 * q + r - e);
    let yoe = (doe - doe / 1460 + doe / 36524 - doe / 146096) / 365;
    assert((r - e) / 365 == n);
    assert(yoe == 100 * c + 4 * q + n);
    assert(0 <= n <= 3);
    assert(yoe / 4 == 25 * c + q);
    assert(yoe / 100 == c);
    let start = 365 * yoe + yoe / 4 - yoe / 100;
    assert(start == 36524 * c + 1461 * q + 365 * n);
    assert(doe - start == r - 365 * n);
    if doe - start == 365 {
        assert(n == 3 && r == 1460);
        assert(yoe + 1 == 100 * c + 4 * q + 4);
        if q == 24 {
            assert(doe == 36524 * c + 36524);
            assert(c == 3);
        }
    }
}

/// The date of a day, in the era arithmetic that [`civil_date`] computes with.
proof fn lemma_civil(days: int, era: int, doe: int, yoe: int, doy: int, mp: int)
    requires
        0 <= days,
        era == (days + 719468) / 146097,
        doe == (days + 719468) % 146097,
        yoe == (doe - doe / 1460 + doe / 36524 - doe / 146096) / 365,
        doy == doe - (365 * yoe + yoe / 4 - yoe / 100),
        mp == (5 * doy + 2) / 153,
    ensures
        0 <= yoe < 400,
        0 <= doy <= 365,
        0 <= mp <= 11,
        ({
            let d = doy - (153 * mp + 2) / 5 + 1;
            let m = if mp < 10 {
                mp + 3
            } else {
                mp - 9
            };
            let y = yoe + era * 400 + if m <= 2 {
                1int
            } else {
                0int
            };
            valid_date(y, m, d) && day_number(y, m, d) == days
        }),
{
    lemma_year_of_era(doe);
    let start_year = yoe + era * 400;
    reveal_with_fuel(days_before_month, 13);
    assert(start_year / 4 == yoe / 4 + 100 * era);
    assert(start_year / 100 == yoe / 100 + 4 * era);
    assert(start_year / 400 == era);
    assert(days + 719468 == 146097 * era + doe);
    law_a_year_is_its_months(start_year);
    assert(days_before_year(start_year + 1) == 365 * start_year + start_year / 4 - start_year / 100
        + start_year / 400);
    assert(days + 719468 == days_before_year(start_year + 1) + doy);
    assert(days_before_year(1970) == 719162);
    if doy == 365 {
        assert(is_leap(start_year + 1));
    }
    if mp == 0 {
    } else if mp == 1 {
    } else if mp == 2 {
    } else if mp == 3 {
    } else if mp == 4 {
    } else if mp == 5 {
    } else if mp == 6 {
    } else if mp == 7 {
    } else if mp == 8 {
    } else if mp == 9 {
    } else if mp == 10 {
    } else {
        assert(mp == 11);
    }
}

/// The date of the day that lies `days` days after the first of January 1970,
/// as year, month and day.
pub fn civil_date(days: u64) -> (out: (u64, u64, u64))
    requires
        days <= 0xffff_ffff_ffff,
    ensures
        valid_date(out.0 as int, out.1 as int, out.2 as int),
        day_number(out.0 as int, out.1 as int, out.2 as int) == days,
{
    let z: u64 = days + 719468;
    let era: u64 = z / 146097;
    let doe: u64 = z % 146097;
    proof {
        lemma_year_of_era(doe as int);
    }
    let yoe: u64 = (doe - doe / 1460 + doe / 36524 - doe / 146096) / 365;
    let doy: u64 = doe - (365 * yoe + yoe / 4 - yoe / 100);
    let mp: u64 = (5 * doy + 2) / 153;
    proof {
        lemma_civil(
            days as int,
            era as int,
            doe as int,
            yoe as int,
            doy as int,
            mp as int,
        );
    }
    let day: u64 = doy + 1 - (153 * mp + 2) / 5;
    let month: u64 = if mp < 10 {
        mp + 3
    } else {
        mp - 9
    };
    let year: u64 = if month <= 2 {
        yoe + era * 400 + 1
    } else {
        yoe + era * 400
    };
    (year, month, day)
}

/// How an instant is written: `yyyymmddThhmmssZ`.
#[verifier::opaque]
pub open spec fn stamp(y: int, mo: int, d: int, secs: int) -> Seq<char> {
    padded(y as nat, 4) + padded(mo as nat, 2) + padded(d as nat, 2) + seq!['T'] + padded(
        (secs / 3600) as nat,
        2,
    ) + padded((secs % 3600 / 60) as nat, 2) + padded((secs % 60) as nat, 2) + seq!['Z']
}

/// Whether `text` is the stamp of the instant `epoch_secs` seconds after the
/// beginning of 1970, in UTC.
pub open spec fn is_stamp(text: Seq<char>, epoch_secs: int) -> bool {
    exists|y: int, m: int, d: int| #[trigger]
        valid_date(y, m, d) && day_number(y, m, d) == epoch_secs / 86400 && text == stamp(
            y,
            m,
            d,
            epoch_secs % 86400,
        )
}

/// An instant has one stamp.
pub proof fn law_an_instant_has_one_stamp(a: Seq<char>, b: Seq<char>, epoch_secs: int)
    requires
        is_stamp(a, epoch_secs),
        is_stamp(b, epoch_secs),
    ensures
        a == b,
{
    let (y, m, d) = choose|y: int, m: int, d: int| #[trigger]
        valid_date(y, m, d) && day_number(y, m, d) == epoch_secs / 86400 && a == stamp(
            y,
            m,
            d,
            epoch_secs % 86400,
        );
    let (y2, m2, d2) = choose|y: int, m: int, d: int| #[trigger]
        valid_date(y, m, d) && day_number(y, m, d) == epoch_secs / 86400 && b == stamp(
            y,
            m,
            d,
            epoch_secs % 86400,
        );
    law_a_day_has_one_date(y, m, d, y2, m2, d2);
}

/// The first second of the year 10000, where a stamp would need one more digit.
pub const END_OF_STAMPS: u64 = 253402300800;

/// The number that two digits of a text stand for.
pub open spec fn two_at(s: Seq<char>, i: int) -> int {
    10 * (s[i] as int - 48) + (s[i + 1] as int - 48)
}

/// Whether a text has the form `yyyymmddThhmmssZ`, with a month, a day and a
/// time of day that there are.
pub open spec fn has_stamp_form(s: Seq<char>) -> bool {
    &&& s.len() == 16
    &&& forall|i: int| 0 <= i < 16 && i != 8 && i != 15 ==> is_digit(#[trigger] s[i])
    &&& s[8] == 'T'
    &&& s[15] == 'Z'
    &&& 1 <= two_at(s, 4) <= 12
    &&& 1 <= two_at(s, 6) <= 31
    &&& 0 <= two_at(s, 9) <= 23
    &&& 0 <= two_at(s, 11) <= 59
    &&& 0 <= two_at(s, 13) <= 59
}

/// Until the year 10000 a date has a year of four digits.
proof fn lemma_year_has_four_digits(y: int, m: int, d: int)
    requires
        valid_date(y, m, d),
        0 <= day_number(y, m, d) < 2932897,
    ensures
        1970 <= y < 10000,
{
    lemma_date_within_year(y, m, d);
    if y >= 10000 {
        lemma_years_ascend(10000, y);
        assert(days_before_year(10000) - days_before_year(1970) == 2932897);
    }
    if y < 1970 {
        lemma_years_ascend(y + 1, 1970);
        law_a_year_is_its_months(y);
    }
}

/// The fields of a stamp, two digits each, and the two marks.
spec fn fields(y: int, mo: int, d: int, secs: int) -> Seq<int> {
    seq![y / 100, y % 100, mo, d, -1, secs / 3600, secs % 3600 / 60, secs % 60]
}

/// Where a field stands in a stamp.
spec fn field_place(k: int) -> int {
    if k <= 4 {
        2 * k
    } else {
        2 * k - 1
    }
}

/// What stands where in a stamp.
proof fn lemma_stamp_fields(y: int, mo: int, d: int, secs: int)
    requires
        0 <= y < 10000,
        0 <= mo < 100,
        0 <= d < 100,
        0 <= secs < 86400,
    ensures
        stamp(y, mo, d, secs).len() == 16,
        stamp(y, mo, d, secs)[8] == 'T',
        stamp(y, mo, d, secs)[15] == 'Z',
        forall|k: int|
            0 <= k < 8 && k != 4 ==> {
                let f = #[trigger] fields(y, mo, d, secs)[k];
                &&& 0 <= f < 100
                &&& stamp(y, mo, d, secs)[field_place(k)] == digit(f / 10)
                &&& stamp(y, mo, d, secs)[field_place(k) + 1] == digit(f % 10)
            },
{
    reveal(stamp);
    crate::text::lemma_four_digits(y as nat);
    crate::text::lemma_two_digits((y / 100) as nat);
    crate::text::lemma_two_digits((y % 100) as nat);
    crate::text::lemma_two_digits(mo as nat);
    crate::text::lemma_two_digits(d as nat);
    crate::text::lemma_two_digits((secs / 3600) as nat);
    crate::text::lemma_two_digits((secs % 3600 / 60) as nat);
    crate::text::lemma_two_digits((secs % 60) as nat);
    let s = stamp(y, mo, d, secs);
    let f = fields(y, mo, d, secs);
    assert(s =~= seq![
        digit(f[0] / 10),
        digit(f[0] % 10),
        digit(f[1] / 10),
        digit(f[1] % 10),
        digit(f[2] / 10),
        digit(f[2] % 10),
        digit(f[3] / 10),
        digit(f[3] % 10),
        'T',
        digit(f[5] / 10),
        digit(f[5] % 10),
        digit(f[6] / 10),
        digit(f[6] % 10),
        digit(f[7] / 10),
        digit(f[7] % 10),
        'Z',
    ]);
}

/// A field of a stamp is two digits, and they stand for it.
proof fn lemma_field_form(y: int, mo: int, d: int, secs: int, k: int)
    requires
        0 <= y < 10000,
        0 <= mo < 100,
        0 <= d < 100,
        0 <= secs < 86400,
        0 <= k < 8,
        k != 4,
    ensures
        ({
            let s = stamp(y, mo, d, secs);
            let p = field_place(k);
            &&& is_digit(s[p])
            &&& is_digit(s[p + 1])
            &&& two_at(s, p) == fields(y, mo, d, secs)[k]
        }),
{
    lemma_stamp_fields(y, mo, d, secs);
    let f = fields(y, mo, d, secs)[k];
    assert(0 <= f / 10 <= 9 && 0 <= f % 10 <= 9 && f == 10 * (f / 10) + f % 10);
}

/// The stamp of a date and a time of day has its form.
proof fn lemma_stamp_form(y: int, mo: int, d: int, secs: int)
    requires
        0 <= y < 10000,
        1 <= mo <= 12,
        1 <= d <= 31,
        0 <= secs < 86400,
    ensures
        has_stamp_form(stamp(y, mo, d, secs)),
{
    lemma_stamp_fields(y, mo, d, secs);
    lemma_field_form(y, mo, d, secs, 0);
    lemma_field_form(y, mo, d, secs, 1);
    lemma_field_form(y, mo, d, secs, 2);
    lemma_field_form(y, mo, d, secs, 3);
    lemma_field_form(y, mo, d, secs, 5);
    lemma_field_form(y, mo, d, secs, 6);
    lemma_field_form(y, mo, d, secs, 7);
}

/// A stamp before the year 10000 has sixteen characters of the form
/// `yyyymmddThhmmssZ`, with a month, a day and a time of day that there are.
pub proof fn law_a_stamp_has_its_form(text: Seq<char>, epoch_secs: int)
    requires
        is_stamp(text, epoch_secs),
        0 <= epoch_secs < END_OF_STAMPS,
    ensures
        has_stamp_form(text),
{
    let (y, m, d) = choose|y: int, m: int, d: int| #[trigger]
        valid_date(y, m, d) && day_number(y, m, d) == epoch_secs / 86400 && text == stamp(
            y,
            m,
            d,
            epoch_secs % 86400,
        );
    lemma_year_has_four_digits(y, m, d);
    lemma_stamp_form(y, m, d, epoch_secs % 86400);
}

/// An earlier day has an earlier date.
proof fn lemma_dates_ascend(y: int, m: int, d: int, y2: int, m2: int, d2: int)
    requires
        valid_date(y, m, d),
        valid_date(y2, m2, d2),
        day_number(y, m, d) < day_number(y2, m2, d2),
    ensures
        y < y2 || (y == y2 && (m < m2 || (m == m2 && d < d2))),
{
    if y2 < y {
        lemma_date_within_year(y, m, d);
        lemma_date_within_year(y2, m2, d2);
        lemma_years_ascend(y2 + 1, y);
        law_a_year_is_its_months(y2);
    } else if y == y2 && m2 < m {
        lemma_months_ascend(y, m2, m);
    }
}

/// Of two stamps that agree in the fields before one and differ in it, the one
/// with the smaller field sorts first.
proof fn lemma_field_decides(
    y: int,
    m: int,
    d: int,
    s: int,
    y2: int,
    m2: int,
    d2: int,
    s2: int,
    k: int,
)
    requires
        0 <= y < 10000,
        0 <= m < 100,
        0 <= d < 100,
        0 <= s < 86400,
        0 <= y2 < 10000,
        0 <= m2 < 100,
        0 <= d2 < 100,
        0 <= s2 < 86400,
        0 <= k < 8,
        k != 4,
        forall|j: int| 0 <= j < k ==> fields(y, m, d, s)[j] == #[trigger] fields(y2, m2, d2, s2)[j],
        fields(y, m, d, s)[k] < fields(y2, m2, d2, s2)[k],
    ensures
        sorts_before(stamp(y, m, d, s), stamp(y2, m2, d2, s2)),
{
    let a = stamp(y, m, d, s);
    let b = stamp(y2, m2, d2, s2);
    let f = fields(y, m, d, s);
    let g = fields(y2, m2, d2, s2);
    lemma_stamp_fields(y, m, d, s);
    lemma_stamp_fields(y2, m2, d2, s2);
    let p = field_place(k);
    assert forall|i: int| 0 <= i < p implies a[i] == b[i] by {
        if i != 8 {
            let j = if i < 8 {
                i / 2
            } else {
                (i + 1) / 2
            };
            assert(f[j] == g[j]);
            assert(i == field_place(j) || i == field_place(j) + 1);
        }
    }
    assert(a.take(p) =~= b.take(p));
    if f[k] / 10 < g[k] / 10 {
        assert(smaller_at(a, b, p));
    } else {
        assert(f[k] / 10 == g[k] / 10);
        assert(a.take(p + 1) =~= b.take(p + 1));
        assert(smaller_at(a, b, p + 1));
    }
}

/// Stamps sort as the instants they stand for, until the year 10000.
pub proof fn law_stamps_sort_as_instants(a: Seq<char>, b: Seq<char>, t: int, u: int)
    requires
        is_stamp(a, t),
        is_stamp(b, u),
        0 <= t < u < END_OF_STAMPS,
    ensures
        sorts_before(a, b),
{
    let (y, m, d) = choose|y: int, m: int, d: int| #[trigger]
        valid_date(y, m, d) && day_number(y, m, d) == t / 86400 && a == stamp(y, m, d, t % 86400);
    let (y2, m2, d2) = choose|y: int, m: int, d: int| #[trigger]
        valid_date(y, m, d) && day_number(y, m, d) == u / 86400 && b == stamp(y, m, d, u % 86400);
    let s = t % 86400;
    let s2 = u % 86400;
    lemma_year_has_four_digits(y, m, d);
    lemma_year_has_four_digits(y2, m2, d2);
    let k: int = if t / 86400 < u / 86400 {
        lemma_dates_ascend(y, m, d, y2, m2, d2);
        if y / 100 != y2 / 100 {
            0
        } else if y % 100 != y2 % 100 {
            1
        } else if m != m2 {
            2
        } else {
            3
        }
    } else {
        law_a_day_has_one_date(y, m, d, y2, m2, d2);
        if s / 3600 != s2 / 3600 {
            5
        } else if s % 3600 / 60 != s2 % 3600 / 60 {
            6
        } else {
            7
        }
    };
    let f = fields(y, m, d, s);
    let g = fields(y2, m2, d2, s2);
    assert(f[0] == y / 100 && f[1] == y % 100 && f[2] == m && f[3] == d && f[4] == g[4]);
    assert(g[0] == y2 / 100 && g[1] == y2 % 100 && g[2] == m2 && g[3] == d2);
    assert(f[5] == s / 3600 && f[6] == s % 3600 / 60 && f[7] == s % 60);
    assert(g[5] == s2 / 3600 && g[6] == s2 % 3600 / 60 && g[7] == s2 % 60);
    assert(f[k] < g[k]);
    lemma_field_decides(y, m, d, s, y2, m2, d2, s2, k);
}

/// Format epoch seconds as `yyyymmddThhmmssZ` (UTC).
pub fn utc_stamp(epoch_secs: u64) -> (out: String)
    ensures
        is_stamp(out@, epoch_secs as int),
{
    let days: u64 = epoch_secs / 86400;
    let rem: u64 = epoch_secs % 86400;
    let (year, month, day) = civil_date(days);
    let mut out = decimal_padded(year, 4);
    out.append(decimal_padded(month, 2).as_str());
    out.append(decimal_padded(day, 2).as_str());
    out.push('T');
    out.append(decimal_padded(rem / 3600, 2).as_str());
    out.append(decimal_padded(rem % 3600 / 60, 2).as_str());
    out.append(decimal_padded(rem % 60, 2).as_str());
    out.push('Z');
    proof {
        reveal(stamp);
        assert(out@ =~= stamp(year as int, month as int, day as int, rem as int));
    }
    out
}

/// Every fourth year has a leap day, but of the full centuries only every fourth
/// one, and the months are as long as they are.
pub proof fn law_when_a_year_has_a_leap_day(y: int, m: int)
    ensures
        y % 400 == 0 ==> month_len(y, 2) == 29,
        y % 100 == 0 && y % 400 != 0 ==> month_len(y, 2) == 28,
        y % 4 == 0 && y % 100 != 0 ==> month_len(y, 2) == 29,
        y % 4 != 0 ==> month_len(y, 2) == 28,
        m == 4 || m == 6 || m == 9 || m == 11 ==> month_len(y, m) == 30,
        m == 1 || m == 3 || m == 5 || m == 7 || m == 8 || m == 10 || m == 12 ==> month_len(y, m)
            == 31,
{
    if y % 400 == 0 {
        lemma_leap_multiples(y);
        assert(y % 4 == 0) by (nonlinear_arith)
            requires
                y % 400 == 0,
        ;
    }
}

/// The days are counted one by one from the first of January 1970, over the ends
/// of the months and of the years.
pub proof fn law_the_days_are_counted_from_1970(y: int, m: int, d: int)
    ensures
        day_number(1970, 1, 1) == 0,
        day_number(y, m, d + 1) == day_number(y, m, d) + 1,
        1 <= m < 12 ==> day_number(y, m + 1, 1) == day_number(y, m, month_len(y, m)) + 1,
        day_number(y + 1, 1, 1) == day_number(y, 12, 31) + 1,
{
    law_a_year_is_its_months(y);
}

/// The first second of a day is written as its date, and the digits behind it are
/// the hour, the minute and the second.
pub proof fn law_a_stamp_says_the_date_and_the_time(
    y: int,
    m: int,
    d: int,
    hour: int,
    minute: int,
    second: int,
    text: Seq<char>,
)
    requires
        valid_date(y, m, d),
        1970 <= y < 10000,
        0 <= hour < 24,
        0 <= minute < 60,
        0 <= second < 60,
        is_stamp(text, 86400 * day_number(y, m, d) + 3600 * hour + 60 * minute + second),
    ensures
        text == padded(y as nat, 4) + padded(m as nat, 2) + padded(d as nat, 2) + seq!['T'] + padded(
            hour as nat,
            2,
        ) + padded(minute as nat, 2) + padded(second as nat, 2) + seq!['Z'],
{
    reveal(stamp);
    let day = day_number(y, m, d);
    let secs = 3600 * hour + 60 * minute + second;
    let t = 86400 * day + secs;
    assert(t / 86400 == day && t % 86400 == secs) by (nonlinear_arith)
        requires
            t == 86400 * day + secs,
            0 <= secs < 86400,
    ;
    let (y2, m2, d2) = choose|y: int, m: int, d: int| #[trigger]
        valid_date(y, m, d) && day_number(y, m, d) == t / 86400 && text == stamp(
            y,
            m,
            d,
            t % 86400,
        );
    law_a_day_has_one_date(y, m, d, y2, m2, d2);
    assert(secs / 3600 == hour && secs % 3600 == 60 * minute + second);
    assert((60 * minute + second) / 60 == minute && secs % 60 == second);
}

} // verus!
