//! Calendar dates as plain year/month/day values, with the arithmetic and the
//! textual renderings that the eligibility rules and the roster comparison
//! need: whole months between two dates, the day-first no-leading-zero text
//! of the external roster, and the dashed year-first form used on input.

use vstd::prelude::*;
use vstd::string::StrSliceExecFns;
use vstd::string::StringExecFns;

verus! {

/// A calendar date. Valid dates have a year between 1 and 9999, a month
/// between 1 and 12 and a day that exists in that month.
#[derive(Clone, Copy, Debug, PartialEq, Eq, Structural)]
pub struct Date {
    pub year: u32,
    pub month: u32,
    pub day: u32,
}

pub open spec fn spec_is_leap_year(y: int) -> bool {
    y % 4 == 0 && (y % 100 != 0 || y % 400 == 0)
}

pub open spec fn spec_days_in_month(y: int, m: int) -> int {
    if m == 2 {
        if spec_is_leap_year(y) {
            29
        } else {
            28
        }
    } else if m == 4 || m == 6 || m == 9 || m == 11 {
        30
    } else {
        31
    }
}

impl Date {
    pub open spec fn is_valid(self) -> bool {
        &&& 1 <= self.year <= 9999
        &&& 1 <= self.month <= 12
        &&& 1 <= self.day <= spec_days_in_month(self.year as int, self.month as int)
    }

    /// Builds a date after checking that it exists in the calendar.
    pub fn new(year: u32, month: u32, day: u32) -> (r: Option<Date>)
        ensures
            match r {
                Some(d) => d == (Date { year, month, day }) && d.is_valid(),
                None => !(Date { year, month, day }).is_valid(),
            },
    {
        if 1 <= year && year <= 9999 && 1 <= month && month <= 12 && 1 <= day
            && day <= days_in_month(year, month) {
            Some(Date { year, month, day })
        } else {
            None
        }
    }
}

pub fn is_leap_year(y: u32) -> (r: bool)
    ensures
        r == spec_is_leap_year(y as int),
{
    y % 4 == 0 && (y % 100 != 0 || y % 400 == 0)
}

pub fn days_in_month(y: u32, m: u32) -> (r: u32)
    ensures
        r as int == spec_days_in_month(y as int, m as int),
{
    if m == 2 {
        if is_leap_year(y) {
            29
        } else {
            28
        }
    } else if m == 4 || m == 6 || m == 9 || m == 11 {
        30
    } else {
        31
    }
}

/// Whole months from `from` to `to`: the month difference on the calendar,
/// less one when the day of month has not yet been reached. Negative when
/// `to` lies before `from`.
pub open spec fn spec_months_between(from: Date, to: Date) -> int {
    (to.year - from.year) * 12 + (to.month - from.month) + (if to.day < from.day {
        -1int
    } else {
        0int
    })
}

pub fn months_between(from: &Date, to: &Date) -> (r: i64)
    requires
        from.is_valid(),
        to.is_valid(),
    ensures
        r as int == spec_months_between(*from, *to),
{
    let years: i64 = to.year as i64 - from.year as i64;
    let months: i64 = to.month as i64 - from.month as i64;
    let carry: i64 = if to.day < from.day {
        -1
    } else {
        0
    };
    years * 12 + months + carry
}

/// The decimal digits of `n`, most significant first, no leading zeros.
pub open spec fn dec_seq(n: int) -> Seq<char>
    decreases n,
{
    if n < 10 {
        seq![digit_char(n)]
    } else {
        dec_seq(n / 10).push(digit_char(n % 10))
    }
}

pub open spec fn digit_char(d: int) -> char {
    if d == 0 {
        '0'
    } else if d == 1 {
        '1'
    } else if d == 2 {
        '2'
    } else if d == 3 {
        '3'
    } else if d == 4 {
        '4'
    } else if d == 5 {
        '5'
    } else if d == 6 {
        '6'
    } else if d == 7 {
        '7'
    } else if d == 8 {
        '8'
    } else {
        '9'
    }
}

pub open spec fn is_digit(c: char) -> bool {
    48 <= c as int <= 57
}

pub open spec fn digit_val(c: char) -> int {
    c as int - 48
}

proof fn lemma_digit_char_val(d: int)
    requires
        0 <= d < 10,
    ensures
        is_digit(digit_char(d)),
        digit_val(digit_char(d)) == d,
{
}

fn digit_str(d: u64) -> (r: &'static str)
    requires
        d < 10,
    ensures
        r@ =~= seq![digit_char(d as int)],
{
    proof {
        reveal_strlit("0");
        reveal_strlit("1");
        reveal_strlit("2");
        reveal_strlit("3");
        reveal_strlit("4");
        reveal_strlit("5");
        reveal_strlit("6");
        reveal_strlit("7");
        reveal_strlit("8");
        reveal_strlit("9");
    }
    match d {
        0 => "0",
        1 => "1",
        2 => "2",
        3 => "3",
        4 => "4",
        5 => "5",
        6 => "6",
        7 => "7",
        8 => "8",
        _ => "9",
    }
}

/// Renders `n` in decimal with no leading zeros.
pub fn fmt_u64(n: u64) -> (r: String)
    ensures
        r@ == dec_seq(n as int),
    decreases n,
{
    if n < 10 {
        let r = digit_str(n).to_owned();
        assert(r@ =~= dec_seq(n as int));
        r
    } else {
        let mut s = fmt_u64(n / 10);
        s.append(digit_str(n % 10));
        assert(s@ =~= dec_seq(n as int));
        s
    }
}

/// The day-first, dot-separated, no-leading-zero rendering used by the
/// external roster export.
pub open spec fn day_first_seq(d: Date) -> Seq<char> {
    dec_seq(d.day as int) + seq!['.'] + dec_seq(d.month as int) + seq!['.'] + dec_seq(d.year as int)
}

impl Date {
    /// Renders this date in the roster's day-first format.
    pub fn day_first_text(&self) -> (r: String)
        ensures
            r@ == day_first_seq(*self),
    {
        proof {
            reveal_strlit(".");
            assert("."@ =~= seq!['.']);
        }
        let mut s = fmt_u64(self.day as u64);
        s.append(".");
        let m = fmt_u64(self.month as u64);
        s.append(m.as_str());
        s.append(".");
        let y = fmt_u64(self.year as u64);
        s.append(y.as_str());
        assert(s@ =~= day_first_seq(*self));
        s
    }
}

/// Fixed-width digits of `n`, zero padded to two places.
pub open spec fn dec2_seq(n: int) -> Seq<char> {
    seq![digit_char(n / 10), digit_char(n % 10)]
}

/// Fixed-width digits of `n`, zero padded to four places.
pub open spec fn dec4_seq(n: int) -> Seq<char> {
    seq![
        digit_char(n / 1000),
        digit_char((n / 100) % 10),
        digit_char((n / 10) % 10),
        digit_char(n % 10),
    ]
}

/// The dashed year-first rendering of a date, zero padded: four digits,
/// a dash, two digits, a dash, two digits.
pub open spec fn iso_seq(d: Date) -> Seq<char> {
    dec4_seq(d.year as int) + seq!['-'] + dec2_seq(d.month as int) + seq!['-'] + dec2_seq(
        d.day as int,
    )
}

/// Spells out each place of the dashed rendering.
proof fn lemma_iso_places(d: Date)
    ensures
        iso_seq(d).len() == 10,
        iso_seq(d)[0] == digit_char(d.year as int / 1000),
        iso_seq(d)[1] == digit_char((d.year as int / 100) % 10),
        iso_seq(d)[2] == digit_char((d.year as int / 10) % 10),
        iso_seq(d)[3] == digit_char(d.year as int % 10),
        iso_seq(d)[4] == '-',
        iso_seq(d)[5] == digit_char(d.month as int / 10),
        iso_seq(d)[6] == digit_char(d.month as int % 10),
        iso_seq(d)[7] == '-',
        iso_seq(d)[8] == digit_char(d.day as int / 10),
        iso_seq(d)[9] == digit_char(d.day as int % 10),
{
}

fn digit_of(c: char) -> (r: Option<u32>)
    ensures
        match r {
            Some(v) => is_digit(c) && v as int == digit_val(c) && v < 10,
            None => !is_digit(c),
        },
{
    let u = c as u32;
    if 48 <= u && u <= 57 {
        Some(u - 48)
    } else {
        None
    }
}

#[verifier::rlimit(50)]
proof fn lemma_four_digits_reconstruct(y: int)
    requires
        0 <= y < 10000,
    ensures
        y == (y / 1000) * 1000 + ((y / 100) % 10) * 100 + ((y / 10) % 10) * 10 + y % 10,
        0 <= y / 1000 < 10,
{
}

proof fn lemma_two_digits_reconstruct(m: int)
    requires
        0 <= m < 100,
    ensures
        m == (m / 10) * 10 + m % 10,
        0 <= m / 10 < 10,
{
}

/// Composing four digit values and taking the places apart again gives the
/// digits back.
proof fn lemma_compose_four(a: int, b: int, c: int, e: int)
    requires
        0 <= a < 10,
        0 <= b < 10,
        0 <= c < 10,
        0 <= e < 10,
    ensures
        (a * 1000 + b * 100 + c * 10 + e) / 1000 == a,
        ((a * 1000 + b * 100 + c * 10 + e) / 100) % 10 == b,
        ((a * 1000 + b * 100 + c * 10 + e) / 10) % 10 == c,
        (a * 1000 + b * 100 + c * 10 + e) % 10 == e,
{
    let n = a * 1000 + b * 100 + c * 10 + e;
    vstd::arithmetic::div_mod::lemma_fundamental_div_mod_converse(n, 1000, a, b * 100 + c * 10 + e);
    vstd::arithmetic::div_mod::lemma_fundamental_div_mod_converse(n, 100, a * 10 + b, c * 10 + e);
    vstd::arithmetic::div_mod::lemma_fundamental_div_mod_converse(n, 10, a * 100 + b * 10 + c, e);
    lemma_compose_two(a, b);
    vstd::arithmetic::div_mod::lemma_fundamental_div_mod_converse(
        a * 100 + b * 10 + c,
        10,
        a * 10 + b,
        c,
    );
}

proof fn lemma_compose_two(a: int, b: int)
    requires
        0 <= a < 10,
        0 <= b < 10,
    ensures
        (a * 10 + b) / 10 == a,
        (a * 10 + b) % 10 == b,
{
    vstd::arithmetic::div_mod::lemma_fundamental_div_mod_converse(a * 10 + b, 10, a, b);
}

impl Date {
    /// Reads a date from the dashed year-first form. Returns the date
    /// exactly when the text is the rendering of a valid date.
    pub fn parse_iso(s: &str) -> (r: Option<Date>)
        ensures
            match r {
                Some(d) => d.is_valid() && s@ == iso_seq(d),
                None => forall|d: Date| d.is_valid() ==> s@ != iso_seq(d),
            },
    {
        if s.unicode_len() != 10 {
            proof {
                assert forall|d: Date| d.is_valid() implies s@ != iso_seq(d) by {
                    lemma_iso_places(d);
                }
            }
            return None;
        }
        let dash1 = s.get_char(4);
        let dash2 = s.get_char(7);
        if dash1 != '-' || dash2 != '-' {
            proof {
                assert forall|d: Date| d.is_valid() implies s@ != iso_seq(d) by {
                    lemma_iso_places(d);
                }
            }
            return None;
        }
        let c0 = digit_of(s.get_char(0));
        let c1 = digit_of(s.get_char(1));
        let c2 = digit_of(s.get_char(2));
        let c3 = digit_of(s.get_char(3));
        let c5 = digit_of(s.get_char(5));
        let c6 = digit_of(s.get_char(6));
        let c8 = digit_of(s.get_char(8));
        let c9 = digit_of(s.get_char(9));
        match (c0, c1, c2, c3, c5, c6, c8, c9) {
            (
                Some(y0),
                Some(y1),
                Some(y2),
                Some(y3),
                Some(m0),
                Some(m1),
                Some(d0),
                Some(d1),
            ) => {
                let year = y0 * 1000 + y1 * 100 + y2 * 10 + y3;
                let month = m0 * 10 + m1;
                let day = d0 * 10 + d1;
                let r = Date::new(year, month, day);
                proof {
                    lemma_compose_four(y0 as int, y1 as int, y2 as int, y3 as int);
                    lemma_compose_two(m0 as int, m1 as int);
                    lemma_compose_two(d0 as int, d1 as int);
                    if r is None {
                        assert forall|d: Date| d.is_valid() implies s@ != iso_seq(d) by {
                            if s@ == iso_seq(d) {
                                lemma_iso_places(d);
                                lemma_four_digits_reconstruct(d.year as int);
                                lemma_two_digits_reconstruct(d.month as int);
                                lemma_two_digits_reconstruct(d.day as int);
                                lemma_digit_char_val(d.year as int / 1000);
                                lemma_digit_char_val((d.year as int / 100) % 10);
                                lemma_digit_char_val((d.year as int / 10) % 10);
                                lemma_digit_char_val(d.year as int % 10);
                                lemma_digit_char_val(d.month as int / 10);
                                lemma_digit_char_val(d.month as int % 10);
                                lemma_digit_char_val(d.day as int / 10);
                                lemma_digit_char_val(d.day as int % 10);
                                assert(d.year == year && d.month == month && d.day == day);
                            }
                        }
                    } else {
                        let d = r->Some_0;
                        lemma_iso_places(d);
                        lemma_digit_char_val(y0 as int);
                        lemma_digit_char_val(y1 as int);
                        lemma_digit_char_val(y2 as int);
                        lemma_digit_char_val(y3 as int);
                        lemma_digit_char_val(m0 as int);
                        lemma_digit_char_val(m1 as int);
                        lemma_digit_char_val(d0 as int);
                        lemma_digit_char_val(d1 as int);
                        assert(s@ =~= iso_seq(d));
                    }
                }
                r
            },
            _ => {
                proof {
                    assert forall|d: Date| d.is_valid() implies s@ != iso_seq(d) by {
                        if s@ == iso_seq(d) {
                            lemma_iso_places(d);
                            lemma_digit_char_val(d.year as int / 1000);
                            lemma_digit_char_val((d.year as int / 100) % 10);
                            lemma_digit_char_val((d.year as int / 10) % 10);
                            lemma_digit_char_val(d.year as int % 10);
                            lemma_digit_char_val(d.month as int / 10);
                            lemma_digit_char_val(d.month as int % 10);
                            lemma_digit_char_val(d.day as int / 10);
                            lemma_digit_char_val(d.day as int % 10);
                        }
                    }
                }
                None
            },
        }
    }
}

} // verus!
