use vstd::prelude::*;
use vstd::string::StringExecFns;

verus! {

/// A calendar date, held as plain year, month and day numbers,
/// with no time component.
#[derive(Debug, Clone, Copy, PartialEq, Eq, Structural)]
pub struct Date {
    pub year: u32,
    pub month: u32,
    pub day: u32,
}

pub open spec fn is_leap_year(y: int) -> bool {
    y % 4 == 0 && (y % 100 != 0 || y % 400 == 0)
}

pub open spec fn days_in_month(y: int, m: int) -> int {
    if m == 2 {
        if is_leap_year(y) {
            29
        } else {
            28
        }
    } else if m == 4 || m == 6 || m == 9 || m == 11 {
        30
    } else {
        31
    }
}

/// A valid calendar date with a four-digit year.
pub open spec fn valid_date(d: Date) -> bool {
    &&& d.year <= 9999
    &&& 1 <= d.month <= 12
    &&& 1 <= d.day <= days_in_month(d.year as int, d.month as int)
}

pub open spec fn is_digit(c: char) -> bool {
    48 <= c as int <= 57
}

pub open spec fn digit_val(c: char) -> int {
    c as int - 48
}

pub open spec fn digit_char(v: int) -> char {
    (48 + v) as char
}

/// The shape `YYYY-MM-DD`: four digits, dash, two digits, dash, two digits.
pub open spec fn date_digits_ok(s: Seq<char>) -> bool {
    &&& s.len() == 10
    &&& is_digit(s[0])
    &&& is_digit(s[1])
    &&& is_digit(s[2])
    &&& is_digit(s[3])
    &&& s[4] == '-'
    &&& is_digit(s[5])
    &&& is_digit(s[6])
    &&& s[7] == '-'
    &&& is_digit(s[8])
    &&& is_digit(s[9])
}

pub open spec fn date_of_digits(s: Seq<char>) -> Date {
    Date {
        year: (digit_val(s[0]) * 1000 + digit_val(s[1]) * 100 + digit_val(s[2]) * 10 + digit_val(
            s[3],
        )) as u32,
        month: (digit_val(s[5]) * 10 + digit_val(s[6])) as u32,
        day: (digit_val(s[8]) * 10 + digit_val(s[9])) as u32,
    }
}

/// What parsing a date string yields: the date, where the string has the
/// `YYYY-MM-DD` shape and names a valid calendar date; nothing otherwise.
pub open spec fn parse_date(s: Seq<char>) -> Option<Date> {
    if date_digits_ok(s) && valid_date(date_of_digits(s)) {
        Some(date_of_digits(s))
    } else {
        None
    }
}

/// What formatting a date yields: `YYYY-MM-DD`, zero-padded.
pub open spec fn format_date(d: Date) -> Seq<char> {
    seq![
        digit_char(d.year as int / 1000),
        digit_char((d.year as int / 100) % 10),
        digit_char((d.year as int / 10) % 10),
        digit_char(d.year as int % 10),
        '-',
        digit_char(d.month as int / 10),
        digit_char(d.month as int % 10),
        '-',
        digit_char(d.day as int / 10),
        digit_char(d.day as int % 10),
    ]
}

fn digit_str(v: u32) -> (r: &'static str)
    requires
        v < 10,
    ensures
        r@ == seq![digit_char(v as int)],
{
    if v == 0 {
        proof {
            reveal_strlit("0");
            assert(("0")@ =~= seq![digit_char(0)]);
        }
        "0"
    } else if v == 1 {
        proof {
            reveal_strlit("1");
            assert(("1")@ =~= seq![digit_char(1)]);
        }
        "1"
    } else if v == 2 {
        proof {
            reveal_strlit("2");
            assert(("2")@ =~= seq![digit_char(2)]);
        }
        "2"
    } else if v == 3 {
        proof {
            reveal_strlit("3");
            assert(("3")@ =~= seq![digit_char(3)]);
        }
        "3"
    } else if v == 4 {
        proof {
            reveal_strlit("4");
            assert(("4")@ =~= seq![digit_char(4)]);
        }
        "4"
    } else if v == 5 {
        proof {
            reveal_strlit("5");
            assert(("5")@ =~= seq![digit_char(5)]);
        }
        "5"
    } else if v == 6 {
        proof {
            reveal_strlit("6");
            assert(("6")@ =~= seq![digit_char(6)]);
        }
        "6"
    } else if v == 7 {
        proof {
            reveal_strlit("7");
            assert(("7")@ =~= seq![digit_char(7)]);
        }
        "7"
    } else if v == 8 {
        proof {
            reveal_strlit("8");
            assert(("8")@ =~= seq![digit_char(8)]);
        }
        "8"
    } else {
        proof {
            reveal_strlit("9");
            assert(("9")@ =~= seq![digit_char(9)]);
        }
        "9"
    }
}

impl Date {
    /// The date rendered as a `YYYY-MM-DD` string.
    pub fn formatted(&self) -> (r: String)
        requires
            valid_date(*self),
        ensures
            r@ == format_date(*self),
    {
        let mut r = String::new();
        r.append(digit_str(self.year / 1000));
        r.append(digit_str((self.year / 100) % 10));
        r.append(digit_str((self.year / 10) % 10));
        r.append(digit_str(self.year % 10));
        r.append("-");
        r.append(digit_str(self.month / 10));
        r.append(digit_str(self.month % 10));
        r.append("-");
        r.append(digit_str(self.day / 10));
        r.append(digit_str(self.day % 10));
        proof {
            reveal_strlit("-");
            assert(("-")@ =~= seq!['-']);
            assert(r@ =~= format_date(*self));
        }
        r
    }
}

/// Formatting a valid date and parsing the result yields the same date back:
/// the two directions of the `YYYY-MM-DD` convention agree on every valid date.
pub proof fn lemma_format_parse_round_trip(d: Date)
    requires
        valid_date(d),
    ensures
        parse_date(format_date(d)) == Some(d),
{
    let s = format_date(d);
    let y = d.year as int;
    let m = d.month as int;
    let dy = d.day as int;
    assert(y == (y / 1000) * 1000 + ((y / 100) % 10) * 100 + ((y / 10) % 10) * 10 + y % 10);
    assert(m == (m / 10) * 10 + m % 10);
    assert(dy == (dy / 10) * 10 + dy % 10);
    assert(date_digits_ok(s));
    assert(date_of_digits(s) == d);
}

} // verus!
