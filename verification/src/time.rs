use vstd::prelude::*;
use vstd::string::StringExecFns;

verus! {

/// A wall-clock time of day, at second granularity.
#[derive(Clone, Copy, PartialEq, Eq, Structural, Debug)]
pub struct TimeOfDay {
    pub hour: u8,
    pub minute: u8,
    pub second: u8,
}

impl TimeOfDay {
    /// A valid time of day on a 24-hour clock.
    pub open spec fn wf(self) -> bool {
        self.hour < 24 && self.minute < 60 && self.second < 60
    }
}

/// A calendar date. The year range covers every date chrono can represent.
#[derive(Clone, Copy, PartialEq, Eq, Structural, Debug)]
pub struct Date {
    pub year: i32,
    pub month: u8,
    pub day: u8,
}

impl Date {
    pub open spec fn wf(self) -> bool {
        -262144 <= self.year <= 262143 && 1 <= self.month <= 12 && 1 <= self.day <= 31
    }
}

/// A time of day and the date it falls on, in some zone.
#[derive(Clone, Copy, PartialEq, Eq, Structural, Debug)]
pub struct ZoneTime {
    pub time: TimeOfDay,
    pub date: Date,
}

impl ZoneTime {
    pub open spec fn wf(self) -> bool {
        self.time.wf() && self.date.wf()
    }
}

/// The decimal digit `d` as a character.
pub open spec fn digit_char(d: int) -> char {
    if d == 0 {
        '0'
    } else if d == 1 {
        '1'
    } else if d == 2 {
        '2'
    } else if d == 3 {
        '3'
    } else if d == 4 {
        '4'
    } else if d == 5 {
        '5'
    } else if d == 6 {
        '6'
    } else if d == 7 {
        '7'
    } else if d == 8 {
        '8'
    } else {
        '9'
    }
}

/// The digit value of a character, if it is a decimal digit.
pub open spec fn digit_val(c: char) -> Option<u8> {
    if c == '0' {
        Some(0u8)
    } else if c == '1' {
        Some(1u8)
    } else if c == '2' {
        Some(2u8)
    } else if c == '3' {
        Some(3u8)
    } else if c == '4' {
        Some(4u8)
    } else if c == '5' {
        Some(5u8)
    } else if c == '6' {
        Some(6u8)
    } else if c == '7' {
        Some(7u8)
    } else if c == '8' {
        Some(8u8)
    } else if c == '9' {
        Some(9u8)
    } else {
        None
    }
}

/// Reading back the character of a digit gives the digit.
pub proof fn lemma_digit_char_val(d: int)
    requires
        0 <= d < 10,
    ensures
        digit_val(digit_char(d)) == Some(d as u8),
{
}

pub fn digit_of(c: char) -> (r: Option<u8>)
    ensures
        r == digit_val(c),
{
    match c {
        '0' => Some(0u8),
        '1' => Some(1u8),
        '2' => Some(2u8),
        '3' => Some(3u8),
        '4' => Some(4u8),
        '5' => Some(5u8),
        '6' => Some(6u8),
        '7' => Some(7u8),
        '8' => Some(8u8),
        '9' => Some(9u8),
        _ => None,
    }
}

/// A value below 100 written with exactly two decimal digits.
pub open spec fn two_digits(v: int) -> Seq<char> {
    seq![digit_char(v / 10), digit_char(v % 10)]
}

fn push_digit(s: &mut String, d: u8)
    requires
        d < 10,
    ensures
        final(s)@ == old(s)@ + seq![digit_char(d as int)],
{
    match d {
        0u8 => {
            proof {
                reveal_strlit("0");
                assert("0"@ =~= seq![digit_char(d as int)]);
            }
            s.append("0");
        },
        1u8 => {
            proof {
                reveal_strlit("1");
                assert("1"@ =~= seq![digit_char(d as int)]);
            }
            s.append("1");
        },
        2u8 => {
            proof {
                reveal_strlit("2");
                assert("2"@ =~= seq![digit_char(d as int)]);
            }
            s.append("2");
        },
        3u8 => {
            proof {
                reveal_strlit("3");
                assert("3"@ =~= seq![digit_char(d as int)]);
            }
            s.append("3");
        },
        4u8 => {
            proof {
                reveal_strlit("4");
                assert("4"@ =~= seq![digit_char(d as int)]);
            }
            s.append("4");
        },
        5u8 => {
            proof {
                reveal_strlit("5");
                assert("5"@ =~= seq![digit_char(d as int)]);
            }
            s.append("5");
        },
        6u8 => {
            proof {
                reveal_strlit("6");
                assert("6"@ =~= seq![digit_char(d as int)]);
            }
            s.append("6");
        },
        7u8 => {
            proof {
                reveal_strlit("7");
                assert("7"@ =~= seq![digit_char(d as int)]);
            }
            s.append("7");
        },
        8u8 => {
            proof {
                reveal_strlit("8");
                assert("8"@ =~= seq![digit_char(d as int)]);
            }
            s.append("8");
        },
        _ => {
            proof {
                reveal_strlit("9");
                assert("9"@ =~= seq![digit_char(d as int)]);
            }
            s.append("9");
        },
    }
}

fn push_two_digits(s: &mut String, v: u8)
    requires
        v < 100,
    ensures
        final(s)@ == old(s)@ + two_digits(v as int),
{
    push_digit(s, v / 10);
    push_digit(s, v % 10);
    assert(final(s)@ =~= old(s)@ + two_digits(v as int));
}

fn push_colon(s: &mut String)
    ensures
        final(s)@ == old(s)@ + seq![':'],
{
    proof {
        reveal_strlit(":");
        assert(":"@ =~= seq![':']);
    }
    s.append(":");
}

fn push_dash(s: &mut String)
    ensures
        final(s)@ == old(s)@ + seq!['-'],
{
    proof {
        reveal_strlit("-");
        assert("-"@ =~= seq!['-']);
    }
    s.append("-");
}

/// A value below 100 as its two-digit text.
pub fn format_two(v: u8) -> (r: String)
    requires
        v < 100,
    ensures
        r@ == two_digits(v as int),
{
    let mut s = String::new();
    push_two_digits(&mut s, v);
    assert(s@ =~= two_digits(v as int));
    s
}

/// The text of a time of day, `HH:MM:SS`.
pub open spec fn time_text(t: TimeOfDay) -> Seq<char> {
    two_digits(t.hour as int) + seq![':'] + two_digits(t.minute as int) + seq![':'] + two_digits(
        t.second as int,
    )
}

pub fn format_time(t: &TimeOfDay) -> (r: String)
    requires
        t.wf(),
    ensures
        r@ == time_text(*t),
{
    let mut s = String::new();
    push_two_digits(&mut s, t.hour);
    push_colon(&mut s);
    push_two_digits(&mut s, t.minute);
    push_colon(&mut s);
    push_two_digits(&mut s, t.second);
    assert(s@ =~= time_text(*t));
    s
}

/// A year's magnitude in decimal, zero-padded to at least four digits.
/// Meaningful for `0 <= y < 1000000`, which covers every year a `Date` holds.
pub open spec fn year_magnitude_text(y: int) -> Seq<char> {
    (if y >= 100000 {
        seq![digit_char(y / 100000)]
    } else {
        Seq::<char>::empty()
    }) + (if y >= 10000 {
        seq![digit_char((y / 10000) % 10)]
    } else {
        Seq::<char>::empty()
    }) + seq![
        digit_char((y / 1000) % 10),
        digit_char((y / 100) % 10),
        digit_char((y / 10) % 10),
        digit_char(y % 10),
    ]
}

/// The text of a year: its magnitude, with a leading minus sign if negative.
pub open spec fn year_text(y: int) -> Seq<char> {
    if y < 0 {
        seq!['-'] + year_magnitude_text(-y)
    } else {
        year_magnitude_text(y)
    }
}

/// The text of a date, `YYYY-MM-DD`.
pub open spec fn date_text(d: Date) -> Seq<char> {
    year_text(d.year as int) + seq!['-'] + two_digits(d.month as int) + seq!['-'] + two_digits(
        d.day as int,
    )
}

pub fn format_date(d: &Date) -> (r: String)
    requires
        d.wf(),
    ensures
        r@ == date_text(*d),
{
    let mut s = String::new();
    let mag: u32 = if d.year < 0 {
        push_dash(&mut s);
        (-d.year) as u32
    } else {
        d.year as u32
    };
    assert(mag < 1000000);
    if mag >= 100000 {
        push_digit(&mut s, (mag / 100000) as u8);
    }
    if mag >= 10000 {
        push_digit(&mut s, ((mag / 10000) % 10) as u8);
    }
    push_digit(&mut s, ((mag / 1000) % 10) as u8);
    push_digit(&mut s, ((mag / 100) % 10) as u8);
    push_digit(&mut s, ((mag / 10) % 10) as u8);
    push_digit(&mut s, (mag % 10) as u8);
    assert(s@ =~= year_text(d.year as int));
    push_dash(&mut s);
    push_two_digits(&mut s, d.month);
    push_dash(&mut s);
    push_two_digits(&mut s, d.day);
    assert(s@ =~= date_text(*d));
    s
}

} // verus!
