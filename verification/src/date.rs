//! Calendar dates. The tracker supplies air start dates as `YYYY-MM-DD`
//! strings whose month and day may be missing; absent or zero components
//! default to 1. Dates are compared through their day number, the count of
//! days since the first day of year 1 of the proleptic Gregorian calendar.

use vstd::prelude::*;

verus! {

/// A Gregorian leap year.
pub open spec fn is_leap_year(y: int) -> bool {
    (y % 4 == 0 && y % 100 != 0) || y % 400 == 0
}

/// Days in month `m` of year `y`, for `1 <= m <= 12`.
pub open spec fn days_in_month(y: int, m: int) -> int {
    if m == 2 {
        if is_leap_year(y) {
            29
        } else {
            28
        }
    } else if m == 4 || m == 6 || m == 9 || m == 11 {
        30
    } else {
        31
    }
}

pub open spec fn days_in_year(y: int) -> int {
    if is_leap_year(y) {
        366
    } else {
        365
    }
}

/// Days in all years before year `y`, counting from year 1.
pub open spec fn days_before_year(y: int) -> int
    decreases y,
{
    if y <= 1 {
        0
    } else {
        days_before_year(y - 1) + days_in_year(y - 1)
    }
}

/// Days in the months of year `y` before month `m`.
pub open spec fn days_before_month(y: int, m: int) -> int
    decreases m,
{
    if m <= 1 {
        0
    } else {
        days_before_month(y, m - 1) + days_in_month(y, m - 1)
    }
}

/// The day number of year `y`, month `m`, day `d`: days elapsed since
/// year 1, January 1.
pub open spec fn day_number_spec(y: int, m: int, d: int) -> int {
    days_before_year(y) + days_before_month(y, m) + (d - 1)
}

/// A calendar date. Valid dates have years 1 through 9999.
#[derive(Clone, Copy)]
pub struct Date {
    pub year: u32,
    pub month: u32,
    pub day: u32,
}

pub struct DateView {
    pub year: int,
    pub month: int,
    pub day: int,
}

impl View for Date {
    type V = DateView;

    open spec fn view(&self) -> DateView {
        DateView { year: self.year as int, month: self.month as int, day: self.day as int }
    }
}

impl DateView {
    /// A well-formed date: a real calendar day in years 1 through 9999.
    pub open spec fn wf(self) -> bool {
        &&& 1 <= self.year <= 9999
        &&& 1 <= self.month <= 12
        &&& 1 <= self.day <= days_in_month(self.year, self.month)
    }

    pub open spec fn day_number(self) -> int {
        day_number_spec(self.year, self.month, self.day)
    }
}

proof fn lemma_days_before_year_bound(y: int)
    requires
        1 <= y,
    ensures
        0 <= days_before_year(y) <= 366 * (y - 1),
    decreases y,
{
    if y > 1 {
        lemma_days_before_year_bound(y - 1);
    }
}

proof fn lemma_days_before_month_bound(y: int, m: int)
    requires
        1 <= m <= 13,
    ensures
        0 <= days_before_month(y, m) <= 31 * (m - 1),
    decreases m,
{
    if m > 1 {
        lemma_days_before_month_bound(y, m - 1);
    }
}

impl Date {
    /// Builds a date, accepting exactly the well-formed ones.
    pub fn new(year: u32, month: u32, day: u32) -> (r: Option<Date>)
        ensures
            r is Some <==> (DateView { year: year as int, month: month as int, day: day as int }).wf(),
            r matches Some(d) ==> d.year == year && d.month == month && d.day == day,
    {
        if 1 <= year && year <= 9999 && 1 <= month && month <= 12 && 1 <= day && day
            <= days_in_month_exec(year, month) {
            Some(Date { year, month, day })
        } else {
            None
        }
    }

    /// The date's day number: days elapsed since year 1, January 1. Two
    /// dates compare as their day numbers do.
    pub fn day_number(&self) -> (r: i64)
        requires
            self@.wf(),
        ensures
            r == self@.day_number(),
    {
        let mut acc: i64 = 0;
        let mut y: u32 = 1;
        while y < self.year
            invariant
                1 <= y <= self.year <= 9999,
                acc == days_before_year(y as int),
                0 <= acc <= 366 * (y - 1),
            decreases self.year - y,
        {
            if is_leap_year_exec(y) {
                acc = acc + 366;
            } else {
                acc = acc + 365;
            }
            y = y + 1;
            proof {
                lemma_days_before_year_bound(y as int);
            }
        }
        let mut m: u32 = 1;
        while m < self.month
            invariant
                1 <= m <= self.month <= 12,
                1 <= self.year <= 9999,
                acc == days_before_year(self.year as int) + days_before_month(
                    self.year as int,
                    m as int,
                ),
                0 <= acc <= 3700000,
            decreases self.month - m,
        {
            acc = acc + days_in_month_exec(self.year, m) as i64;
            m = m + 1;
            proof {
                lemma_days_before_year_bound(self.year as int);
                lemma_days_before_month_bound(self.year as int, m as int);
            }
        }
        acc + (self.day as i64) - 1
    }
}

pub open spec fn is_digit(c: char) -> bool {
    '0' <= c && c <= '9'
}

pub open spec fn digit_val(c: char) -> int {
    (c as int) - ('0' as int)
}

pub open spec fn all_digits(s: Seq<char>) -> bool {
    forall|i: int| 0 <= i < s.len() ==> is_digit(#[trigger] s[i])
}

/// The number denoted by a run of decimal digits; the empty run denotes 0.
pub open spec fn digits_val(s: Seq<char>) -> int
    decreases s.len(),
{
    if s.len() == 0 {
        0
    } else {
        10 * digits_val(s.drop_last()) + digit_val(s.last())
    }
}

/// Index of the first `'-'` at or after `i`, or the length if there is none.
pub open spec fn find_dash(s: Seq<char>, i: int) -> int
    decreases s.len() - i,
{
    if i < 0 || i >= s.len() {
        s.len() as int
    } else if s[i] == '-' {
        i
    } else {
        find_dash(s, i + 1)
    }
}

/// The year, month and day segments of a date string: the runs between the
/// first dash and the second dash, if present; absent segments are empty.
pub open spec fn date_segments(s: Seq<char>) -> (Seq<char>, Seq<char>, Seq<char>) {
    let i = find_dash(s, 0);
    let ys = s.take(i);
    if i == s.len() {
        (ys, Seq::<char>::empty(), Seq::<char>::empty())
    } else {
        let rest = s.subrange(i + 1, s.len() as int);
        let j = find_dash(rest, 0);
        let ms = rest.take(j);
        if j == rest.len() {
            (ys, ms, Seq::<char>::empty())
        } else {
            (ys, ms, rest.subrange(j + 1, rest.len() as int))
        }
    }
}

/// A date string is well shaped when every segment consists of digits only,
/// which also rules out a third dash.
pub open spec fn date_shape(s: Seq<char>) -> bool {
    all_digits(date_segments(s).0) && all_digits(date_segments(s).1) && all_digits(
        date_segments(s).2,
    )
}

/// The date denoted by a tracker date string: the segment values, with a
/// missing or zero month or day defaulting to 1. A malformed string, or one
/// that does not denote a well-formed date, denotes nothing.
pub open spec fn parse_date_spec(s: Seq<char>) -> Option<DateView> {
    if date_shape(s) {
        let y = digits_val(date_segments(s).0);
        let m0 = digits_val(date_segments(s).1);
        let d0 = digits_val(date_segments(s).2);
        let dv = DateView {
            year: y,
            month: if m0 < 1 {
                1
            } else {
                m0
            },
            day: if d0 < 1 {
                1
            } else {
                d0
            },
        };
        if dv.wf() {
            Some(dv)
        } else {
            None
        }
    } else {
        None
    }
}

proof fn lemma_digits_val_nonneg(s: Seq<char>)
    requires
        all_digits(s),
    ensures
        digits_val(s) >= 0,
    decreases s.len(),
{
    if s.len() > 0 {
        assert(all_digits(s.drop_last()));
        assert(is_digit(s.last()));
        lemma_digits_val_nonneg(s.drop_last());
    }
}

/// If no dash stands in `[j, i)` and `i` is the length or a dash, then `i`
/// is the first dash at or after `j`.
proof fn lemma_find_dash_at(s: Seq<char>, j: int, i: int)
    requires
        0 <= j <= i <= s.len(),
        forall|k: int| j <= k < i ==> s[k] != '-',
        i == s.len() || s[i] == '-',
    ensures
        find_dash(s, j) == i,
    decreases i - j,
{
    if j < i {
        lemma_find_dash_at(s, j + 1, i);
    }
}

/// How `acc` stands for the unbounded segment value `real`: exact below the
/// saturation bound, pinned to the bound above it.
spec fn sat_rel(acc: u32, value: int) -> bool {
    &&& (value <= 99999 ==> acc == value)
    &&& (value > 99999 ==> acc == 100000)
}

proof fn lemma_sat_step(acc: u32, value: int, dv: int, r: u32)
    requires
        sat_rel(acc, value),
        value >= 0,
        0 <= dv <= 9,
        r == if 10 * (acc as int) + dv > 99999 {
            100000int
        } else {
            10 * (acc as int) + dv
        },
    ensures
        sat_rel(r, 10 * value + dv),
{
}

fn is_digit_exec(c: char) -> (r: bool)
    ensures
        r == is_digit(c),
{
    '0' <= c && c <= '9'
}

fn sat_step(acc: u32, c: char) -> (r: u32)
    requires
        acc <= 100000,
        is_digit(c),
    ensures
        r as int == if 10 * (acc as int) + digit_val(c) > 99999 {
            100000int
        } else {
            10 * (acc as int) + digit_val(c)
        },
        r <= 100000,
{
    let dv: u32 = (c as u32) - 48;
    let t: u32 = 10 * acc + dv;
    if t > 99999 {
        100000
    } else {
        t
    }
}

/// Parses a tracker date string. Returns the date exactly when the string is
/// a well-shaped `YYYY[-MM[-DD]]` and denotes a well-formed date after the
/// missing-component defaulting; any invalid character or impossible date
/// yields nothing.
#[verifier::loop_isolation(false)]
pub fn parse_date(s: &str) -> (r: Option<Date>)
    ensures
        (r is Some) == (parse_date_spec(s@) is Some),
        r matches Some(d) ==> Some(d@) == parse_date_spec(s@) && d@.wf(),
{
    let v = crate::text::chars_of(s);
    let n = v.len();
    let mut i: usize = 0;
    let mut acc_y: u32 = 0;
    let mut acc_m: u32 = 0;
    let mut acc_d: u32 = 0;

    // Year segment: up to the first dash or the end.
    while i < n && v[i] != '-'
        invariant
            0 <= i <= n,
            forall|k: int| 0 <= k < i ==> is_digit(#[trigger] v@[k]),
            sat_rel(acc_y, digits_val(v@.take(i as int))),
            acc_y <= 100000,
        decreases n - i,
    {
        let c = v[i];
        if !is_digit_exec(c) {
            proof {
                let fd = find_dash(v@, 0);
                lemma_find_dash_props(v@, 0);
                assert(fd > i) by {
                    if fd <= i {
                        assert(v@[fd] == '-');
                        if fd < i {
                            assert(is_digit(v@[fd]));
                        }
                    }
                }
                assert(date_segments(v@).0[i as int] == c);
                assert(!date_shape(v@));
            }
            return None;
        }
        proof {
            lemma_digits_val_nonneg(v@.take(i as int));
            assert(v@.take(i as int + 1).drop_last() =~= v@.take(i as int));
            assert(v@.take(i as int + 1).last() == v@[i as int]);
        }
        let next = sat_step(acc_y, c);
        proof {
            lemma_sat_step(acc_y, digits_val(v@.take(i as int)), digit_val(c), next);
        }
        acc_y = next;
        i = i + 1;
    }
    let p1 = i;
    proof {
        lemma_find_dash_at(v@, 0, p1 as int);
    }
    let ghost ys = v@.take(p1 as int);
    let ghost mut ms = Seq::<char>::empty();
    let ghost mut ds = Seq::<char>::empty();

    if p1 < n {
        // Month segment: up to the second dash or the end.
        i = p1 + 1;
        while i < n && v[i] != '-'
            invariant
                p1 + 1 <= i <= n,
                forall|k: int| p1 + 1 <= k < i ==> is_digit(#[trigger] v@[k]),
                sat_rel(acc_m, digits_val(v@.subrange(p1 as int + 1, i as int))),
                acc_m <= 100000,
            decreases n - i,
        {
            let c = v[i];
            if !is_digit_exec(c) {
                proof {
                    let rest = v@.subrange(p1 as int + 1, n as int);
                    let ri = i - p1 - 1;
                    let fd = find_dash(rest, 0);
                    lemma_find_dash_props(rest, 0);
                    assert(fd > ri) by {
                        if fd <= ri {
                            assert(rest[fd] == '-');
                            if fd < ri {
                                assert(is_digit(v@[p1 as int + 1 + fd]));
                            }
                        }
                    }
                    assert(date_segments(v@).1[ri] == c);
                    assert(!date_shape(v@));
                }
                return None;
            }
            proof {
                let seg = v@.subrange(p1 as int + 1, i as int);
                lemma_digits_val_nonneg(seg);
                assert(v@.subrange(p1 as int + 1, i as int + 1).drop_last() =~= seg);
                assert(v@.subrange(p1 as int + 1, i as int + 1).last() == v@[i as int]);
            }
            let next = sat_step(acc_m, c);
            proof {
                lemma_sat_step(
                    acc_m,
                    digits_val(v@.subrange(p1 as int + 1, i as int)),
                    digit_val(c),
                    next,
                );
            }
            acc_m = next;
            i = i + 1;
        }
        let p2 = i;
        proof {
            let rest = v@.subrange(p1 as int + 1, n as int);
            lemma_find_dash_at(rest, 0, p2 - p1 - 1);
            ms = v@.subrange(p1 as int + 1, p2 as int);
            assert(rest.take(p2 - p1 - 1) =~= ms);
        }

        if p2 < n {
            // Day segment: the remainder; a further dash is invalid.
            i = p2 + 1;
            proof {
                let rest = v@.subrange(p1 as int + 1, n as int);
                ds = rest.subrange(p2 - p1 - 1 + 1, rest.len() as int);
                assert(ds =~= v@.subrange(p2 as int + 1, n as int));
            }
            while i < n
                invariant
                    p2 + 1 <= i <= n,
                    forall|k: int| p2 + 1 <= k < i ==> is_digit(#[trigger] v@[k]),
                    sat_rel(acc_d, digits_val(v@.subrange(p2 as int + 1, i as int))),
                    acc_d <= 100000,
                decreases n - i,
            {
                let c = v[i];
                if !is_digit_exec(c) {
                    proof {
                        assert(date_segments(v@).2 =~= v@.subrange(p2 as int + 1, n as int));
                        assert(date_segments(v@).2[i - p2 - 1] == c);
                        assert(!date_shape(v@));
                    }
                    return None;
                }
                proof {
                    let seg = v@.subrange(p2 as int + 1, i as int);
                    lemma_digits_val_nonneg(seg);
                    assert(v@.subrange(p2 as int + 1, i as int + 1).drop_last() =~= seg);
                    assert(v@.subrange(p2 as int + 1, i as int + 1).last() == v@[i as int]);
                }
                let next = sat_step(acc_d, c);
                proof {
                    lemma_sat_step(
                        acc_d,
                        digits_val(v@.subrange(p2 as int + 1, i as int)),
                        digit_val(c),
                        next,
                    );
                }
                acc_d = next;
                i = i + 1;
            }
            proof {
                assert(ds =~= v@.subrange(p2 as int + 1, n as int));
            }
        }
    }
    proof {
        assert(date_segments(v@).0 == ys);
        assert(date_segments(v@).1 == ms);
        assert(date_segments(v@).2 == ds);
        assert(date_shape(v@));
        lemma_digits_val_nonneg(ys);
        lemma_digits_val_nonneg(ms);
        lemma_digits_val_nonneg(ds);
    }

    if acc_y < 1 || acc_y > 9999 {
        return None;
    }
    let month = if acc_m < 1 {
        1
    } else {
        acc_m
    };
    if month > 12 {
        return None;
    }
    let day = if acc_d < 1 {
        1
    } else {
        acc_d
    };
    if day > days_in_month_exec(acc_y, month) {
        return None;
    }
    Some(Date { year: acc_y, month, day })
}

/// Properties of the first-dash search: the result lies between the start
/// and the length, points at a dash when inside the sequence, and nothing
/// before it (from the start) is a dash.
proof fn lemma_find_dash_props(s: Seq<char>, i: int)
    requires
        0 <= i <= s.len(),
    ensures
        i <= find_dash(s, i) <= s.len(),
        find_dash(s, i) < s.len() ==> s[find_dash(s, i)] == '-',
        forall|k: int| i <= k < find_dash(s, i) ==> s[k] != '-',
    decreases s.len() - i,
{
    if i < s.len() && s[i] != '-' {
        lemma_find_dash_props(s, i + 1);
    }
}

/// Exec counterpart of `is_leap_year`.
pub fn is_leap_year_exec(y: u32) -> (r: bool)
    ensures
        r == is_leap_year(y as int),
{
    (y % 4 == 0 && y % 100 != 0) || y % 400 == 0
}

/// Exec counterpart of `days_in_month`.
pub fn days_in_month_exec(y: u32, m: u32) -> (r: u32)
    ensures
        r == days_in_month(y as int, m as int),
{
    if m == 2 {
        if is_leap_year_exec(y) {
            29
        } else {
            28
        }
    } else if m == 4 || m == 6 || m == 9 || m == 11 {
        30
    } else {
        31
    }
}

} // verus!
