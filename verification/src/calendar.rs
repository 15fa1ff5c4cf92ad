//! Moments as dates of the Gregorian calendar.
use vstd::prelude::*;

use crate::text::{decimal, decimal_string, digit_char};

verus! {

pub open spec fn is_leap(year: int) -> bool {
    year % 4 == 0 && (year % 100 != 0 || year % 400 == 0)
}

pub open spec fn days_in_month(year: int, month: int) -> int {
    if month == 2 {
        if is_leap(year) {
            29
        } else {
            28
        }
    } else if month == 4 || month == 6 || month == 9 || month == 11 {
        30
    } else {
        31
    }
}

/// The date exists.
pub open spec fn is_date(year: int, month: int, day: int) -> bool {
    1 <= month <= 12 && 1 <= day <= days_in_month(year, month)
}

/// Days from the beginning of 1970 to the beginning of a year.
pub open spec fn days_to_year(year: int) -> int
    decreases year,
{
    if year <= 1970 {
        0
    } else {
        days_to_year(year - 1) + if is_leap(year - 1) {
            366int
        } else {
            365int
        }
    }
}

/// Days from the beginning of a year to the beginning of a month.
pub open spec fn days_to_month(year: int, month: int) -> int
    decreases month,
{
    if month <= 1 {
        0
    } else {
        days_to_month(year, month - 1) + days_in_month(year, month - 1)
    }
}

/// Days from the first of January 1970 to a date.
pub open spec fn day_number(year: int, month: int, day: int) -> int {
    days_to_year(year) + days_to_month(year, month) + day - 1
}

/// Leap years up to a year.
spec fn leaps(year: int) -> int {
    year / 4 - year / 100 + year / 400
}

proof fn lemma_leaps(year: int)
    requires
        year >= 1,
    ensures
        leaps(year) == leaps(year - 1) + if is_leap(year) {
            1int
        } else {
            0int
        },
{
}

proof fn lemma_days_to_year(year: int)
    requires
        year >= 1970,
    ensures
        days_to_year(year) == 365 * (year - 1970) + leaps(year - 1) - 477,
    decreases year,
{
    if year > 1970 {
        lemma_days_to_year(year - 1);
        lemma_leaps(year - 1);
    }
}

proof fn lemma_days_to_month(year: int, month: int)
    requires
        1 <= month <= 12,
    ensures
        ({
            let leap: int = if is_leap(year) {
                1
            } else {
                0
            };
            days_to_month(year, month) == if month == 1 {
                0int
            } else if month == 2 {
                31
            } else if month == 3 {
                59 + leap
            } else if month == 4 {
                90 + leap
            } else if month == 5 {
                120 + leap
            } else if month == 6 {
                151 + leap
            } else if month == 7 {
                181 + leap
            } else if month == 8 {
                212 + leap
            } else if month == 9 {
                243 + leap
            } else if month == 10 {
                273 + leap
            } else if month == 11 {
                304 + leap
            } else {
                334 + leap
            }
        }),
{
    reveal_with_fuel(days_to_month, 12);
}

/// A date is told by its number: two dates with one number are the same.
pub proof fn dates_have_their_own_numbers(
    year: int,
    month: int,
    day: int,
    other_year: int,
    other_month: int,
    other_day: int,
)
    requires
        year >= 1970,
        other_year >= 1970,
        is_date(year, month, day),
        is_date(other_year, other_month, other_day),
        day_number(year, month, day) == day_number(other_year, other_month, other_day),
    ensures
        year == other_year,
        month == other_month,
        day == other_day,
{
    lemma_within_year(year, month, day);
    lemma_within_year(other_year, other_month, other_day);
    if year < other_year {
        lemma_years_ascend(year + 1, other_year);
    } else if other_year < year {
        lemma_years_ascend(other_year + 1, year);
    } else {
        lemma_days_to_month(year, month);
        lemma_days_to_month(year, other_month);
        if month < other_month {
            lemma_months_ascend(year, month + 1, other_month);
        } else if other_month < month {
            lemma_months_ascend(year, other_month + 1, month);
        }
    }
}

proof fn lemma_within_year(year: int, month: int, day: int)
    requires
        year >= 1970,
        is_date(year, month, day),
    ensures
        days_to_year(year) <= day_number(year, month, day) < days_to_year(year + 1),
{
    lemma_days_to_month(year, month);
}

proof fn lemma_years_ascend(a: int, b: int)
    requires
        1970 <= a <= b,
    ensures
        days_to_year(a) <= days_to_year(b),
    decreases b - a,
{
    if a < b {
        lemma_years_ascend(a, b - 1);
    }
}

proof fn lemma_months_ascend(year: int, a: int, b: int)
    requires
        1 <= a <= b,
    ensures
        days_to_month(year, a) <= days_to_month(year, b),
    decreases b - a,
{
    if a < b {
        lemma_months_ascend(year, a, b - 1);
    }
}

/// The year within a cycle of four centuries that begins with a March.
proof fn lemma_year_of_cycle(doe: int, yoe: int, doy: int)
    requires
        0 <= doe <= 146096,
        yoe == (doe - doe / 1460 + doe / 36524 - doe / 146096) / 365,
        doy == doe - (365 * yoe + yoe / 4 - yoe / 100),
    ensures
        0 <= yoe <= 399,
        0 <= doy <= 365,
        doy == 365 ==> is_leap(yoe + 1),
{
    let c = if doe / 36524 > 3 {
        3
    } else {
        doe / 36524
    };
    let n = doe - 36524 * c;
    assert(0 <= n <= 36524 && (c < 3 ==> n < 36524));
    let q = n / 1461;
    let r = n - 1461 * q;
    assert(0 <= q <= 24 && 0 <= r <= 1460);
    let k = if r / 365 > 3 {
        3
    } else {
        r / 365
    };
    let e = (24 * c + q + r) / 1460;
    assert(doe == 1460 * (25 * c + q) + (24 * c + q + r));
    assert(doe / 1460 == 25 * c + q + e);
    assert(doe / 36524 - doe / 146096 == c);
    assert(doe - doe / 1460 + doe / 36524 - doe / 146096 == 365 * (100 * c + 4 * q) + (r - e));
    assert(0 <= e <= 1);
    assert(e == 1 ==> r >= 1364);
    assert((r - e) / 365 == k);
    assert(yoe == 100 * c + 4 * q + k);
    assert(0 <= 4 * q + k <= 99);
    assert(yoe / 4 == 25 * c + q);
    assert(yoe / 100 == c);
    assert(doy == r - 365 * k);
    if doy == 365 {
        assert(r == 1460 && k == 3);
        assert(q == 24 ==> c == 3);
        assert(yoe + 1 == 100 * c + 4 * (q + 1));
    }
}

/// The month and the day within a year that begins with a March.
proof fn lemma_month_of_year(doy: int, mp: int, day: int)
    requires
        0 <= doy <= 365,
        mp == (5 * doy + 2) / 153,
        day == doy - (153 * mp + 2) / 5 + 1,
    ensures
        0 <= mp <= 11,
        1 <= day <= 31,
        mp == 1 || mp == 3 || mp == 6 || mp == 8 ==> day <= 30,
        mp == 11 ==> day <= 29 && (day == 29 ==> doy == 365),
        doy == (153 * mp + 2) / 5 + day - 1,
{
    assert(0 <= mp <= 11);
    if mp == 0 {
    } else if mp == 1 {
    } else if mp == 2 {
    } else if mp == 3 {
    } else if mp == 4 {
    } else if mp == 5 {
    } else if mp == 6 {
    } else if mp == 7 {
    } else if mp == 8 {
    } else if mp == 9 {
    } else if mp == 10 {
    } else {
    }
}

/// A day counted from the first of March of a year.
proof fn lemma_march_year(z: int, era: int, yoe: int, doy: int)
    requires
        era >= 0,
        0 <= yoe <= 399,
        z == 146_097 * era + 365 * yoe + yoe / 4 - yoe / 100 + doy,
        doy == 365 ==> is_leap(yoe + 1),
    ensures
        ({
            let m = yoe + 400 * era;
            z == 365 * m + leaps(m) + doy && (doy == 365 ==> is_leap(m + 1))
        }),
{
    assert((yoe + 400 * era) / 4 == yoe / 4 + 100 * era) by (nonlinear_arith);
    assert((yoe + 400 * era) / 100 == yoe / 100 + 4 * era) by (nonlinear_arith);
    assert((yoe + 400 * era) / 400 == era) by (nonlinear_arith)
        requires
            0 <= yoe <= 399,
    ;
    assert((yoe + 400 * era + 1) % 4 == (yoe + 1) % 4) by (nonlinear_arith);
    assert((yoe + 400 * era + 1) % 100 == (yoe + 1) % 100) by (nonlinear_arith);
    assert((yoe + 400 * era + 1) % 400 == (yoe + 1) % 400) by (nonlinear_arith);
}

/// Years that begin with a March take up ever more days.
proof fn lemma_march_years_ascend(m: int, n: int)
    requires
        0 <= m <= n,
    ensures
        365 * m + leaps(m) <= 365 * n + leaps(n),
    decreases n - m,
{
    if m < n {
        lemma_march_years_ascend(m + 1, n);
        lemma_leaps(m + 1);
    }
}

/// The date of a day, from its place in a year that begins with a March.
proof fn lemma_date(days: int, m: int, doy: int, mp: int, day: int, month: int, year: int)
    requires
        days >= 0,
        m >= 0,
        days + 719_468 == 365 * m + leaps(m) + doy,
        0 <= doy <= 365,
        doy == 365 ==> is_leap(m + 1),
        mp == (5 * doy + 2) / 153,
        day == doy - (153 * mp + 2) / 5 + 1,
        month == if mp < 10 {
            mp + 3
        } else {
            mp - 9
        },
        year == if month <= 2 {
            m + 1
        } else {
            m
        },
    ensures
        year >= 1970,
        is_date(year, month, day),
        day_number(year, month, day) == days,
{
    lemma_month_of_year(doy, mp, day);
    if m <= 1968 {
        lemma_march_years_ascend(m, 1968);
        assert(leaps(1968) == 477);
        assert(false);
    }
    assert(leaps(1969) == 477);
    if m == 1969 {
        assert(doy >= 306);
        assert(mp >= 10);
    }
    lemma_days_to_year(year);
    lemma_days_to_month(year, month);
    lemma_leaps(year);
    lemma_month_offset(mp);
}

proof fn lemma_month_offset(mp: int)
    requires
        0 <= mp <= 11,
    ensures
        (153 * mp + 2) / 5 == if mp == 0 {
            0int
        } else if mp == 1 {
            31
        } else if mp == 2 {
            61
        } else if mp == 3 {
            92
        } else if mp == 4 {
            122
        } else if mp == 5 {
            153
        } else if mp == 6 {
            184
        } else if mp == 7 {
            214
        } else if mp == 8 {
            245
        } else if mp == 9 {
            275
        } else if mp == 10 {
            306
        } else {
            337
        },
{
}

/// The date of a day.
#[derive(Debug, Clone, Copy, PartialEq, Eq, Structural)]
pub struct Date {
    pub year: u64,
    pub month: u64,
    pub day: u64,
}

/// The last day that any moment falls on.
pub const MAX_DAY: u64 = 0xffff_ffff_ffff_ffff / 86_400;

/// The date of a day, counted from the first of January 1970.
pub fn date_of(days: u64) -> (r: Date)
    requires
        days <= MAX_DAY,
    ensures
        r.year >= 1970,
        is_date(r.year as int, r.month as int, r.day as int),
        day_number(r.year as int, r.month as int, r.day as int) == days,
{
    let z: u64 = days + 719_468;
    let era: u64 = z / 146_097;
    let doe: u64 = z % 146_097;
    let yoe: u64 = (doe - doe / 1460 + doe / 36_524 - doe / 146_096) / 365;
    proof {
        lemma_year_of_cycle(
            doe as int,
            yoe as int,
            doe - (365 * yoe + yoe as int / 4 - yoe as int / 100),
        );
    }
    let doy: u64 = doe - (365 * yoe + yoe / 4 - yoe / 100);
    let mp: u64 = (5 * doy + 2) / 153;
    proof {
        lemma_month_of_year(doy as int, mp as int, doy - (153 * mp + 2) / 5 + 1);
    }
    let day: u64 = doy - (153 * mp + 2) / 5 + 1;
    let month: u64 = if mp < 10 {
        mp + 3
    } else {
        mp - 9
    };
    let march_year: u64 = yoe + era * 400;
    let year: u64 = if month <= 2 {
        march_year + 1
    } else {
        march_year
    };
    proof {
        lemma_march_year(z as int, era as int, yoe as int, doy as int);
        assert(march_year == yoe + 400 * era);
        lemma_date(
            days as int,
            march_year as int,
            doy as int,
            mp as int,
            day as int,
            month as int,
            year as int,
        );
    }
    Date { year, month, day }
}

/// A number with at least so many digits.
pub open spec fn padded(n: nat, digits: nat) -> Seq<char>
    decreases digits,
{
    if decimal(n).len() >= digits {
        decimal(n)
    } else {
        Seq::new((digits - decimal(n).len()) as nat, |i: int| '0') + decimal(n)
    }
}

pub fn padded_string(n: u64, digits: usize) -> (r: String)
    requires
        digits <= 100,
    ensures
        r@ == padded(n as nat, digits as nat),
{
    let number = decimal_string(n);
    let length: usize = number.as_str().unicode_len();
    let mut out = String::new();
    let mut i: usize = length;
    while i < digits
        invariant
            length == decimal(n as nat).len(),
            digits <= 100,
            length <= i,
            i <= digits || i == length,
            out@ == Seq::new((i - length) as nat, |k: int| '0'),
        decreases digits - i,
    {
        out.push('0');
        assert(out@ =~= Seq::new((i + 1 - length) as nat, |k: int| '0'));
        i = i + 1;
    }
    out.append(number.as_str());
    assert(out@ =~= padded(n as nat, digits as nat));
    out
}

/// A moment in words: date, hour and minute.
pub open spec fn moment_text(year: nat, month: nat, day: nat, hour: nat, minute: nat) -> Seq<char> {
    padded(year, 4) + "-"@ + padded(month, 2) + "-"@ + padded(day, 2) + " "@ + padded(hour, 2)
        + ":"@ + padded(minute, 2) + " UTC"@
}

/// The text tells the moment that is so many seconds after the beginning of 1970.
pub open spec fn tells(text: Seq<char>, stamp: nat) -> bool {
    exists|year: nat, month: nat, day: nat|
        year >= 1970 && is_date(year as int, month as int, day as int) && day_number(
            year as int,
            month as int,
            day as int,
        ) == stamp as int / 86_400 && text == #[trigger] moment_text(
            year,
            month,
            day,
            (stamp % 86_400) / 3600,
            (stamp % 3600) / 60,
        )
}

/// A moment, in seconds since the beginning of 1970, as date and time.
pub fn format_unix_utc(stamp: u64) -> (r: String)
    ensures
        tells(r@, stamp as nat),
{
    let date = date_of(stamp / 86_400);
    let seconds: u64 = stamp % 86_400;
    let mut out = padded_string(date.year, 4);
    out.append("-");
    out.append(padded_string(date.month, 2).as_str());
    out.append("-");
    out.append(padded_string(date.day, 2).as_str());
    out.append(" ");
    out.append(padded_string(seconds / 3600, 2).as_str());
    out.append(":");
    out.append(padded_string((seconds % 3600) / 60, 2).as_str());
    out.append(" UTC");
    assert(seconds % 3600 == stamp % 3600);
    assert(out@ == moment_text(
        date.year as nat,
        date.month as nat,
        date.day as nat,
        (stamp as nat % 86_400) / 3600,
        (stamp as nat % 3600) / 60,
    ));
    out
}

/// A text does not stand after another of its length: they are the same, or the first character
/// in which they differ is smaller.
pub open spec fn not_after(a: Seq<char>, b: Seq<char>) -> bool {
    a == b || exists|k: int| #[trigger] differs_at(a, b, k)
}

/// The texts agree up to a character, which is smaller in the first.
pub open spec fn differs_at(a: Seq<char>, b: Seq<char>, k: int) -> bool {
    &&& 0 <= k < a.len()
    &&& k < b.len()
    &&& forall|i: int| 0 <= i < k ==> (#[trigger] a[i]) == b[i]
    &&& a[k] < b[k]
}

proof fn lemma_two_digits(n: nat)
    requires
        n < 100,
    ensures
        padded(n, 2) == seq![digit_char(n as int / 10), digit_char(n as int % 10)],
{
    reveal_with_fuel(decimal, 3);
    assert(padded(n, 2) =~= seq![digit_char(n as int / 10), digit_char(n as int % 10)]);
}

proof fn lemma_four_digits(n: nat)
    requires
        1000 <= n < 10_000,
    ensures
        padded(n, 4) == padded(n / 100, 2) + padded(n % 100, 2),
{
    reveal_with_fuel(decimal, 5);
    lemma_two_digits(n / 100);
    lemma_two_digits(n % 100);
    assert(n / 10 / 10 == n / 100);
    assert(n / 100 / 10 == n / 1000);
    assert((n % 100) / 10 == (n / 10) % 10);
    assert((n % 100) % 10 == n % 10);
    assert(padded(n, 4) =~= padded(n / 100, 2) + padded(n % 100, 2));
}

/// The digits of a number below a hundred stand at a place.
spec fn pair_at(text: Seq<char>, at: int, n: nat) -> bool {
    text[at] == digit_char(n as int / 10) && text[at + 1] == digit_char(n as int % 10)
}

/// Where the digits of a moment stand.
#[verifier::opaque]
spec fn laid_out(text: Seq<char>, moment: (nat, nat, nat, nat, nat)) -> bool {
    &&& text.len() == 20
    &&& pair_at(text, 0, moment.0 / 100)
    &&& pair_at(text, 2, moment.0 % 100)
    &&& text[4] == '-'
    &&& pair_at(text, 5, moment.1)
    &&& text[7] == '-'
    &&& pair_at(text, 8, moment.2)
    &&& text[10] == ' '
    &&& pair_at(text, 11, moment.3)
    &&& text[13] == ':'
    &&& pair_at(text, 14, moment.4)
}

proof fn lemma_moment_layout(year: nat, month: nat, day: nat, hour: nat, minute: nat)
    requires
        1000 <= year < 10_000,
        month < 100,
        day < 100,
        hour < 100,
        minute < 100,
    ensures
        laid_out(
            moment_text(year, month, day, hour, minute),
            (year, month, day, hour, minute),
        ),
{
    reveal(laid_out);
    lemma_four_digits(year);
    lemma_two_digits(year / 100);
    lemma_two_digits(year % 100);
    lemma_two_digits(month);
    lemma_two_digits(day);
    lemma_two_digits(hour);
    lemma_two_digits(minute);
    reveal_strlit("-");
    reveal_strlit(" ");
    reveal_strlit(":");
    reveal_strlit(" UTC");
}

/// Of two dates, the one with the smaller number stands first by year, month and day.
proof fn lemma_dates_ascend(
    year: int,
    month: int,
    day: int,
    other_year: int,
    other_month: int,
    other_day: int,
)
    requires
        year >= 1970,
        other_year >= 1970,
        is_date(year, month, day),
        is_date(other_year, other_month, other_day),
        day_number(year, month, day) < day_number(other_year, other_month, other_day),
    ensures
        year < other_year || (year == other_year && (month < other_month || (month == other_month
            && day < other_day))),
{
    lemma_within_year(year, month, day);
    lemma_within_year(other_year, other_month, other_day);
    if year > other_year {
        lemma_years_ascend(other_year + 1, year);
    } else if year == other_year && month > other_month {
        lemma_months_ascend(year, other_month + 1, month);
    }
}

proof fn lemma_year_below(year: int, month: int, day: int)
    requires
        year >= 1970,
        is_date(year, month, day),
        day_number(year, month, day) < 2_932_897,
    ensures
        year < 10_000,
{
    lemma_within_year(year, month, day);
    if year >= 10_000 {
        lemma_years_ascend(10_000, year);
        lemma_days_to_year(10_000);
    }
}

/// Where two numbers below a hundred differ, so do their digits.
proof fn lemma_pair_decides(m: nat, n: nat)
    requires
        m < n < 100,
    ensures
        digit_char(m as int / 10) < digit_char(n as int / 10) || (digit_char(m as int / 10)
            == digit_char(n as int / 10) && digit_char(m as int % 10) < digit_char(n as int % 10)),
{
    assert(m == 10 * (m / 10) + m % 10);
    assert(n == 10 * (n / 10) + n % 10);
}

proof fn lemma_pair_at(a: Seq<char>, b: Seq<char>, at: int, m: nat, n: nat)
    requires
        m < n < 100,
        0 <= at,
        at + 1 < a.len(),
        a.len() == b.len(),
        forall|i: int| 0 <= i < at ==> (#[trigger] a[i]) == b[i],
        pair_at(a, at, m),
        pair_at(b, at, n),
    ensures
        not_after(a, b),
{
    lemma_pair_decides(m, n);
    if a[at] < b[at] {
        assert(differs_at(a, b, at));
    } else {
        assert(differs_at(a, b, at + 1));
    }
}

/// Later moments of a day have a later hour, or a minute of the same hour that is not earlier.
proof fn lemma_times_ascend(earlier: nat, later: nat)
    requires
        earlier <= later,
        earlier / 86_400 == later / 86_400,
    ensures
        (earlier % 86_400) / 3600 <= (later % 86_400) / 3600 < 24,
        (earlier % 86_400) / 3600 == (later % 86_400) / 3600 ==> (earlier % 3600) / 60 <= (later
            % 3600) / 60,
{
    let a = earlier % 86_400;
    let b = later % 86_400;
    assert(a <= b);
    assert(a % 3600 == earlier % 3600);
    assert(b % 3600 == later % 3600);
}

/// The moment is earlier by year, month, day, hour or minute.
spec fn is_earlier(a: (nat, nat, nat, nat, nat), b: (nat, nat, nat, nat, nat)) -> bool {
    if a.0 != b.0 {
        a.0 < b.0
    } else if a.1 != b.1 {
        a.1 < b.1
    } else if a.2 != b.2 {
        a.2 < b.2
    } else if a.3 != b.3 {
        a.3 < b.3
    } else {
        a.4 < b.4
    }
}

proof fn lemma_moments_sort(
    a: Seq<char>,
    b: Seq<char>,
    first: (nat, nat, nat, nat, nat),
    second: (nat, nat, nat, nat, nat),
)
    requires
        first.0 < 10_000 && second.0 < 10_000,
        second.1 < 100 && second.2 < 100 && second.3 < 100 && second.4 < 100,
        laid_out(a, first),
        laid_out(b, second),
        is_earlier(first, second),
    ensures
        not_after(a, b),
{
    reveal(laid_out);
    if first.0 != second.0 {
        if first.0 / 100 < second.0 / 100 {
            lemma_pair_at(a, b, 0, first.0 / 100, second.0 / 100);
        } else {
            lemma_pair_at(a, b, 2, first.0 % 100, second.0 % 100);
        }
    } else if first.1 != second.1 {
        lemma_pair_at(a, b, 5, first.1, second.1);
    } else if first.2 != second.2 {
        lemma_pair_at(a, b, 8, first.2, second.2);
    } else if first.3 != second.3 {
        lemma_pair_at(a, b, 11, first.3, second.3);
    } else {
        lemma_pair_at(a, b, 14, first.4, second.4);
    }
}

/// The date and the time of day are those of a moment in seconds, and the text tells them.
spec fn is_moment(text: Seq<char>, stamp: nat, moment: (nat, nat, nat, nat, nat)) -> bool {
    &&& moment.0 >= 1970
    &&& is_date(moment.0 as int, moment.1 as int, moment.2 as int)
    &&& day_number(moment.0 as int, moment.1 as int, moment.2 as int) == stamp as int / 86_400
    &&& moment.3 == (stamp % 86_400) / 3600
    &&& moment.4 == (stamp % 3600) / 60
    &&& text == moment_text(moment.0, moment.1, moment.2, moment.3, moment.4)
}

proof fn lemma_told(text: Seq<char>, stamp: nat) -> (moment: (nat, nat, nat, nat, nat))
    requires
        tells(text, stamp),
    ensures
        is_moment(text, stamp, moment),
{
    let (year, month, day) = choose|year: nat, month: nat, day: nat|
        year >= 1970 && is_date(year as int, month as int, day as int) && day_number(
            year as int,
            month as int,
            day as int,
        ) == stamp as int / 86_400 && text == #[trigger] moment_text(
            year,
            month,
            day,
            (stamp % 86_400) / 3600,
            (stamp % 3600) / 60,
        );
    (year, month, day, (stamp % 86_400) / 3600, (stamp % 3600) / 60)
}

proof fn lemma_moment_bounds(text: Seq<char>, stamp: nat, moment: (nat, nat, nat, nat, nat))
    requires
        stamp < 253_402_300_800,
        is_moment(text, stamp, moment),
    ensures
        moment.0 < 10_000,
        moment.1 < 100,
        moment.2 < 100,
        moment.3 < 100,
        moment.4 < 100,
        text.len() == 20,
        laid_out(text, moment),
{
    lemma_year_below(moment.0 as int, moment.1 as int, moment.2 as int);
    assert(moment.1 <= 12 && moment.2 <= 31);
    lemma_moment_layout(moment.0, moment.1, moment.2, moment.3, moment.4);
    reveal(laid_out);
}

proof fn lemma_moments_ascend(
    a: Seq<char>,
    b: Seq<char>,
    earlier: nat,
    later: nat,
    first: (nat, nat, nat, nat, nat),
    second: (nat, nat, nat, nat, nat),
)
    requires
        earlier <= later,
        is_moment(a, earlier, first),
        is_moment(b, later, second),
    ensures
        first == second || is_earlier(first, second),
{
    let (y, m, d) = (first.0 as int, first.1 as int, first.2 as int);
    let (v, n, e) = (second.0 as int, second.1 as int, second.2 as int);
    if earlier / 86_400 < later / 86_400 {
        lemma_dates_ascend(y, m, d, v, n, e);
    } else {
        dates_have_their_own_numbers(y, m, d, v, n, e);
        lemma_times_ascend(earlier, later);
    }
}

/// Moments are told so that their texts sort as they do: until the end of the year 9999, the text
/// of a later moment does not stand before that of an earlier one.
pub proof fn later_moments_do_not_sort_before(
    earlier: nat,
    later: nat,
    first: Seq<char>,
    second: Seq<char>,
)
    requires
        earlier <= later < 253_402_300_800,
        tells(first, earlier),
        tells(second, later),
    ensures
        first.len() == second.len(),
        not_after(first, second),
{
    let a = lemma_told(first, earlier);
    let b = lemma_told(second, later);
    lemma_moment_bounds(first, earlier, a);
    lemma_moment_bounds(second, later, b);
    lemma_moments_ascend(first, second, earlier, later, a, b);
    if is_earlier(a, b) {
        lemma_moments_sort(first, second, a, b);
    }
}

/// The days of the calendar follow each other: within a month, from its last day to the next month,
/// and from the last day of December to the next year. The first is that of 1970.
pub proof fn days_follow_each_other(year: int, month: int, day: int)
    requires
        year >= 1970,
        is_date(year, month, day),
    ensures
        day_number(1970, 1, 1) == 0,
        day < days_in_month(year, month) ==> day_number(year, month, day + 1) == day_number(
            year,
            month,
            day,
        ) + 1,
        day == days_in_month(year, month) && month < 12 ==> day_number(year, month + 1, 1)
            == day_number(year, month, day) + 1,
        day == days_in_month(year, month) && month == 12 ==> day_number(year + 1, 1, 1)
            == day_number(year, month, day) + 1,
{
    lemma_days_to_month(year, month);
    if month < 12 {
        lemma_days_to_month(year, month + 1);
    }
}

/// Every fourth year is a leap year but for three centuries of four, and then February has a day
/// more.
pub proof fn leap_years_have_a_day_more(year: int)
    ensures
        year % 4 != 0 ==> !is_leap(year),
        year % 400 == 0 ==> is_leap(year),
        year % 100 == 0 && year % 400 != 0 ==> !is_leap(year),
        year % 4 == 0 && year % 100 != 0 ==> is_leap(year),
        days_in_month(year, 2) == 29 <==> is_leap(year),
        days_in_month(year, 2) == 28 <==> !is_leap(year),
        days_in_month(year, 1) == 31 && days_in_month(year, 4) == 30 && days_in_month(year, 12)
            == 31,
{
    if year % 400 == 0 {
        let cycles = year / 400;
        assert(year == 4 * (100 * cycles));
    }
}

} // verus!
