//! Validation of `Y-M-D` date strings: year, month and day as plain decimal
//! digit runs separated by dashes (no leading zeros required), with full
//! calendar validity including leap years.

use vstd::prelude::*;
use vstd::std_specs::iter::IteratorSpec;

verus! {

pub open spec fn is_digit_char(c: char) -> bool {
    '0' <= c && c <= '9'
}

pub open spec fn digit_val(c: char) -> int {
    c as u32 - '0' as u32
}

pub open spec fn all_digits(s: Seq<char>) -> bool {
    forall|i: int| 0 <= i < s.len() ==> is_digit_char(#[trigger] s[i])
}

/// The decimal value of a digit run, most significant digit first.
pub open spec fn digits_val(s: Seq<char>) -> int
    decreases s.len(),
{
    if s.len() == 0 {
        0
    } else {
        digits_val(s.drop_last()) * 10 + digit_val(s.last())
    }
}

pub open spec fn pow10(n: nat) -> int
    decreases n,
{
    if n == 0 {
        1
    } else {
        10 * pow10((n - 1) as nat)
    }
}

/// The position of the first dash at or after `from`, or the length when no
/// dash follows.
pub open spec fn find_dash(s: Seq<char>, from: int) -> int
    decreases s.len() - from,
{
    if from < 0 || from >= s.len() {
        s.len() as int
    } else if s[from] == '-' {
        from
    } else {
        find_dash(s, from + 1)
    }
}

pub open spec fn date_year_str(s: Seq<char>) -> Seq<char> {
    s.take(find_dash(s, 0))
}

pub open spec fn date_month_str(s: Seq<char>) -> Seq<char> {
    s.subrange(find_dash(s, 0) + 1, find_dash(s, find_dash(s, 0) + 1))
}

pub open spec fn date_day_str(s: Seq<char>) -> Seq<char> {
    s.skip(find_dash(s, find_dash(s, 0) + 1) + 1)
}

pub open spec fn date_year(s: Seq<char>) -> int {
    digits_val(date_year_str(s))
}

pub open spec fn date_month(s: Seq<char>) -> int {
    digits_val(date_month_str(s))
}

pub open spec fn date_day(s: Seq<char>) -> int {
    digits_val(date_day_str(s))
}

pub open spec fn is_leap_year(y: int) -> bool {
    (y % 4 == 0 && y % 100 != 0) || y % 400 == 0
}

pub open spec fn days_in_month(y: int, m: int) -> int {
    if m == 1 || m == 3 || m == 5 || m == 7 || m == 8 || m == 10 || m == 12 {
        31
    } else if m == 4 || m == 6 || m == 9 || m == 11 {
        30
    } else if is_leap_year(y) {
        29
    } else {
        28
    }
}

/// A date string is valid when it has the shape `Y-M-D` with a year of one
/// to four digits, a month and a day of one or two digits each, the month
/// between 1 and 12, and the day between 1 and the month's length in that
/// year.
pub open spec fn valid_date_string(s: Seq<char>) -> bool {
    let i = find_dash(s, 0);
    let j = find_dash(s, i + 1);
    &&& 1 <= i <= 4
    &&& i + 2 <= j <= i + 3
    &&& j < s.len()
    &&& j + 2 <= s.len() <= j + 3
    &&& all_digits(date_year_str(s))
    &&& all_digits(date_month_str(s))
    &&& all_digits(date_day_str(s))
    &&& 1 <= date_month(s) <= 12
    &&& 1 <= date_day(s) <= days_in_month(date_year(s), date_month(s))
}

/// Days since 1970-01-01 of a proleptic-Gregorian civil date, for years
/// from 1 on.
pub open spec fn days_from_civil(y: int, m: int, d: int) -> int {
    let yy = if m <= 2 {
        y - 1
    } else {
        y
    };
    let era = yy / 400;
    let yoe = yy - era * 400;
    let mp = if m > 2 {
        m - 3
    } else {
        m + 9
    };
    let doy = (153 * mp + 2) / 5 + d - 1;
    let doe = yoe * 365 + yoe / 4 - yoe / 100 + doy;
    era * 146097 + doe - 719468
}

/// The weekday of a civil date, 0 = Monday .. 6 = Sunday.
pub open spec fn weekday_of(y: int, m: int, d: int) -> int {
    (days_from_civil(y, m, d) + 719470) % 7
}

/// The civil date one day later, rolling over months and years.
pub open spec fn next_civil_day(y: int, m: int, d: int) -> (int, int, int) {
    if d < days_in_month(y, m) {
        (y, m, d + 1)
    } else if m < 12 {
        (y, m + 1, 1)
    } else {
        (y + 1, 1, 1)
    }
}

/// The weekday of a civil date, 0 = Monday .. 6 = Sunday.
pub fn weekday_of_exec(y: i32, m: u32, d: u32) -> (r: u32)
    requires
        1 <= y,
        1 <= m <= 12,
        1 <= d <= 31,
    ensures
        r as int == weekday_of(y as int, m as int, d as int),
        r <= 6,
{
    let yl: i64 = y as i64;
    let ml: i64 = m as i64;
    let dl: i64 = d as i64;
    let yy: i64 = if ml <= 2 {
        yl - 1
    } else {
        yl
    };
    let era: i64 = yy / 400;
    let yoe: i64 = yy - era * 400;
    let mp: i64 = if ml > 2 {
        ml - 3
    } else {
        ml + 9
    };
    let doy: i64 = (153 * mp + 2) / 5 + dl - 1;
    let doe: i64 = yoe * 365 + yoe / 4 - yoe / 100 + doy;
    let days: i64 = era * 146097 + doe - 719468;
    proof {
        assert(0 <= yoe < 400);
        assert(days + 719470 >= 0);
    }
    ((days + 719470) % 7) as u32
}

/// The civil date one day later, rolling over months and years.
pub fn next_civil_day_exec(y: i32, m: u32, d: u32) -> (r: (i32, u32, u32))
    requires
        1 <= y < i32::MAX,
        1 <= m <= 12,
        1 <= d <= 31,
    ensures
        (r.0 as int, r.1 as int, r.2 as int) == next_civil_day(y as int, m as int, d as int),
        1 <= r.0,
        1 <= r.1 <= 12,
        1 <= r.2 <= 31,
{
    if d < days_in_month_exec(y as u32, m) {
        (y, m, d + 1)
    } else if m < 12 {
        (y, m + 1, 1)
    } else {
        (y + 1, 1, 1)
    }
}

proof fn lemma_digits_val_bound(s: Seq<char>)
    requires
        all_digits(s),
    ensures
        0 <= digits_val(s) < pow10(s.len()),
    decreases s.len(),
{
    if s.len() == 0 {
    } else {
        let sp = s.drop_last();
        assert(forall|i: int| 0 <= i < sp.len() ==> #[trigger] sp[i] == s[i]);
        lemma_digits_val_bound(sp);
        assert(is_digit_char(s.last()));
        assert(0 <= digit_val(s.last()) <= 9);
    }
}

proof fn lemma_pow10_small()
    ensures
        pow10(0) == 1,
        pow10(1) == 10,
        pow10(2) == 100,
        pow10(3) == 1000,
        pow10(4) == 10000,
{
    assert(pow10(0) == 1);
    assert(pow10(1) == 10);
    assert(pow10(2) == 100);
    assert(pow10(3) == 1000);
    assert(pow10(4) == 10000);
}

/// The characters of `s`, in order, as a vector.
fn str_chars_vec(s: &str) -> (v: Vec<char>)
    ensures
        v@ == s@,
{
    let mut it = s.chars();
    let mut v: Vec<char> = Vec::new();
    loop
        invariant_except_break
            v@ + it.remaining() == s@,
        ensures
            v@ == s@,
        decreases s@.len() - v@.len(),
    {
        match it.next() {
            Some(c) => {
                v.push(c);
            },
            None => {
                assert(v@ + it.remaining() =~= v@);
                break;
            },
        }
    }
    v
}

/// The decimal value of `v[lo..hi]`, where that range holds only digits.
fn parse_digits(v: &Vec<char>, lo: usize, hi: usize) -> (r: Option<u32>)
    requires
        lo <= hi <= v@.len(),
        hi - lo <= 4,
    ensures
        r is Some <==> all_digits(v@.subrange(lo as int, hi as int)),
        r matches Some(x) ==> x as int == digits_val(v@.subrange(lo as int, hi as int))
            && x < 10000,
{
    proof {
        lemma_pow10_small();
    }
    let mut acc: u32 = 0;
    let mut k: usize = lo;
    while k < hi
        invariant
            lo <= k <= hi <= v@.len(),
            hi - lo <= 4,
            all_digits(v@.subrange(lo as int, k as int)),
            acc as int == digits_val(v@.subrange(lo as int, k as int)),
            (acc as int) < pow10((k - lo) as nat),
            pow10(0) == 1 && pow10(1) == 10 && pow10(2) == 100 && pow10(3) == 1000 && pow10(4)
                == 10000,
        decreases hi - k,
    {
        let c = v[k];
        if !(c >= '0' && c <= '9') {
            proof {
                assert(v@.subrange(lo as int, hi as int)[k - lo] == v@[k as int]);
            }
            return None;
        }
        let d = c as u32 - '0' as u32;
        proof {
            assert(v@.subrange(lo as int, k + 1).drop_last() =~= v@.subrange(lo as int, k as int));
            assert(v@.subrange(lo as int, k + 1).last() == v@[k as int]);
            assert(((k - lo) as nat) < 4);
            assert(pow10((k - lo) as nat) <= 1000);
        }
        acc = acc * 10 + d;
        k += 1;
    }
    proof {
        lemma_digits_val_bound(v@.subrange(lo as int, hi as int));
    }
    Some(acc)
}

fn days_in_month_exec(y: u32, m: u32) -> (r: u32)
    ensures
        r as int == days_in_month(y as int, m as int),
{
    if m == 1 || m == 3 || m == 5 || m == 7 || m == 8 || m == 10 || m == 12 {
        31
    } else if m == 4 || m == 6 || m == 9 || m == 11 {
        30
    } else if (y % 4 == 0 && y % 100 != 0) || y % 400 == 0 {
        29
    } else {
        28
    }
}

/// Parses and validates a `Y-M-D` date string, returning year, month and
/// day; any string that is not a calendar-valid date of that shape is
/// rejected.
pub fn is_valid_date(datestr: &str) -> (r: Result<(i32, u32, u32), ()>)
    ensures
        r is Ok <==> valid_date_string(datestr@),
        r matches Ok(t) ==> t.0 as int == date_year(datestr@) && t.1 as int == date_month(
            datestr@,
        ) && t.2 as int == date_day(datestr@),
        r matches Ok(t) ==> 0 <= t.0 <= 9999 && 1 <= t.1 <= 12 && 1 <= t.2 <= 31,
{
    let ghost s = datestr@;
    let v = str_chars_vec(datestr);
    let n = v.len();
    // first dash
    let mut i: usize = 0;
    while i < n && v[i] != '-'
        invariant
            0 <= i <= n,
            n == v@.len(),
            v@ == s,
            find_dash(s, 0) == find_dash(s, i as int),
        decreases n - i,
    {
        i += 1;
    }
    proof {
        assert(find_dash(s, 0) == i as int);
    }
    if i < 1 || i > 4 || i >= n {
        return Err(());
    }
    // second dash
    let mut j: usize = i + 1;
    while j < n && v[j] != '-'
        invariant
            i + 1 <= j <= n,
            n == v@.len(),
            v@ == s,
            find_dash(s, i + 1) == find_dash(s, j as int),
        decreases n - j,
    {
        j += 1;
    }
    proof {
        assert(find_dash(s, i + 1) == j as int);
    }
    if j >= n || j < i + 2 || j > i + 3 {
        return Err(());
    }
    if n < j + 2 || n > j + 3 {
        return Err(());
    }
    let year = match parse_digits(&v, 0, i) {
        Some(x) => x,
        None => {
            return Err(());
        },
    };
    let month = match parse_digits(&v, i + 1, j) {
        Some(x) => x,
        None => {
            return Err(());
        },
    };
    let day = match parse_digits(&v, j + 1, n) {
        Some(x) => x,
        None => {
            return Err(());
        },
    };
    proof {
        assert(v@.subrange(0, i as int) =~= date_year_str(s));
        assert(v@.subrange(i + 1, j as int) =~= date_month_str(s));
        assert(v@.subrange(j + 1, n as int) =~= date_day_str(s));
    }
    if month < 1 || month > 12 {
        return Err(());
    }
    if day < 1 || day > days_in_month_exec(year, month) {
        return Err(());
    }
    Ok((year as i32, month, day))
}

} // verus!
