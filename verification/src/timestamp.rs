//! Civil timestamps with a resolution of one second.

use crate::text::{
    chars_of, count_digits, digit_char, digit_of, digit_value, digits_run, is_digit,
    lemma_digit_char, push_two_digits, two_digits,
};
use vstd::prelude::*;

verus! {

/// Whether `year` has a 29th of February.
pub open spec fn is_leap_year(year: int) -> bool {
    (year % 4 == 0 && year % 100 != 0) || year % 400 == 0
}

/// The number of days of `month` in `year`; 0 where `month` is no month.
pub open spec fn days_in_month(year: int, month: int) -> int {
    if month == 2 {
        if is_leap_year(year) {
            29
        } else {
            28
        }
    } else if month == 4 || month == 6 || month == 9 || month == 11 {
        30
    } else if 1 <= month <= 12 {
        31
    } else {
        0
    }
}

/// The English three-letter abbreviation of `month`; `Dec` for a number
/// that is no month.
pub open spec fn month_abbreviation(month: int) -> Seq<char> {
    if month <= 1 {
        seq!['J', 'a', 'n']
    } else if month == 2 {
        seq!['F', 'e', 'b']
    } else if month == 3 {
        seq!['M', 'a', 'r']
    } else if month == 4 {
        seq!['A', 'p', 'r']
    } else if month == 5 {
        seq!['M', 'a', 'y']
    } else if month == 6 {
        seq!['J', 'u', 'n']
    } else if month == 7 {
        seq!['J', 'u', 'l']
    } else if month == 8 {
        seq!['A', 'u', 'g']
    } else if month == 9 {
        seq!['S', 'e', 'p']
    } else if month == 10 {
        seq!['O', 'c', 't']
    } else if month == 11 {
        seq!['N', 'o', 'v']
    } else {
        seq!['D', 'e', 'c']
    }
}

/// The English three-letter abbreviation of `month`.
pub fn month_abbreviation_text(month: u8) -> (text: &'static str)
    ensures
        text@ == month_abbreviation(month as int),
{
    proof {
        reveal_strlit("Jan");
        reveal_strlit("Feb");
        reveal_strlit("Mar");
        reveal_strlit("Apr");
        reveal_strlit("May");
        reveal_strlit("Jun");
        reveal_strlit("Jul");
        reveal_strlit("Aug");
        reveal_strlit("Sep");
        reveal_strlit("Oct");
        reveal_strlit("Nov");
        reveal_strlit("Dec");
    }
    let text = if month <= 1 {
        "Jan"
    } else if month == 2 {
        "Feb"
    } else if month == 3 {
        "Mar"
    } else if month == 4 {
        "Apr"
    } else if month == 5 {
        "May"
    } else if month == 6 {
        "Jun"
    } else if month == 7 {
        "Jul"
    } else if month == 8 {
        "Aug"
    } else if month == 9 {
        "Sep"
    } else if month == 10 {
        "Oct"
    } else if month == 11 {
        "Nov"
    } else {
        "Dec"
    };
    assert(text@ =~= month_abbreviation(month as int));
    text
}

/// The file name `YYYY.MM(Mon).DD.HH.MM.SS.json` for the six numbers.
#[verifier::opaque]
pub open spec fn civil_file_name(
    year: int,
    month: int,
    day: int,
    hour: int,
    minute: int,
    second: int,
) -> Seq<char> {
    seq![
        digit_char((year / 100) / 10),
        digit_char((year / 100) % 10),
        digit_char((year % 100) / 10),
        digit_char((year % 100) % 10),
        '.',
        digit_char(month / 10),
        digit_char(month % 10),
        '(',
        month_abbreviation(month)[0],
        month_abbreviation(month)[1],
        month_abbreviation(month)[2],
        ')',
        '.',
        digit_char(day / 10),
        digit_char(day % 10),
        '.',
        digit_char(hour / 10),
        digit_char(hour % 10),
        '.',
        digit_char(minute / 10),
        digit_char(minute % 10),
        '.',
        digit_char(second / 10),
        digit_char(second % 10),
        '.',
        'j',
        's',
        'o',
        'n',
    ]
}

/// The name of the file that holds the snapshot taken at `time`:
/// `YYYY.MM(Mon).DD.HH.MM.SS.json`.
pub open spec fn file_name_of(time: Timestamp) -> Seq<char> {
    civil_file_name(
        time.year as int,
        time.month as int,
        time.day as int,
        time.hour as int,
        time.minute as int,
        time.second as int,
    )
}

/// The English name of `month`; `December` for a number that is no month.
pub open spec fn month_name(month: int) -> Seq<char> {
    if month <= 1 {
        "January"@
    } else if month == 2 {
        "February"@
    } else if month == 3 {
        "March"@
    } else if month == 4 {
        "April"@
    } else if month == 5 {
        "May"@
    } else if month == 6 {
        "June"@
    } else if month == 7 {
        "July"@
    } else if month == 8 {
        "August"@
    } else if month == 9 {
        "September"@
    } else if month == 10 {
        "October"@
    } else if month == 11 {
        "November"@
    } else {
        "December"@
    }
}

/// The English name of `month`.
pub fn month_name_text(month: u8) -> (text: &'static str)
    ensures
        text@ == month_name(month as int),
{
    if month <= 1 {
        "January"
    } else if month == 2 {
        "February"
    } else if month == 3 {
        "March"
    } else if month == 4 {
        "April"
    } else if month == 5 {
        "May"
    } else if month == 6 {
        "June"
    } else if month == 7 {
        "July"
    } else if month == 8 {
        "August"
    } else if month == 9 {
        "September"
    } else if month == 10 {
        "October"
    } else if month == 11 {
        "November"
    } else {
        "December"
    }
}

/// The line that a menu shows for `time`, such as
/// `2024 March 17 14:08:22`.
pub open spec fn menu_text_of(time: Timestamp) -> Seq<char> {
    two_digits(time.year as int / 100) + two_digits(time.year as int % 100) + " "@ + month_name(
        time.month as int,
    ) + " "@ + two_digits(time.day as int) + " "@ + two_digits(time.hour as int) + ":"@
        + two_digits(time.minute as int) + ":"@ + two_digits(time.second as int)
}

/// The text `YYYY-MM-DDTHH:MM:SS` for the six numbers.
#[verifier::opaque]
pub open spec fn civil_text(
    year: int,
    month: int,
    day: int,
    hour: int,
    minute: int,
    second: int,
) -> Seq<char> {
    seq![
        digit_char((year / 100) / 10),
        digit_char((year / 100) % 10),
        digit_char((year % 100) / 10),
        digit_char((year % 100) % 10),
        '-',
        digit_char(month / 10),
        digit_char(month % 10),
        '-',
        digit_char(day / 10),
        digit_char(day % 10),
        'T',
        digit_char(hour / 10),
        digit_char(hour % 10),
        ':',
        digit_char(minute / 10),
        digit_char(minute % 10),
        ':',
        digit_char(second / 10),
        digit_char(second % 10),
    ]
}

/// The text that a snapshot file holds for `time`: `YYYY-MM-DDTHH:MM:SS`.
pub open spec fn text_of(time: Timestamp) -> Seq<char> {
    civil_text(
        time.year as int,
        time.month as int,
        time.day as int,
        time.hour as int,
        time.minute as int,
        time.second as int,
    )
}

/// The number that the two digits `tens` and `ones` write.
pub open spec fn two_digit_value(tens: char, ones: char) -> int {
    10 * digit_value(tens) + digit_value(ones)
}

/// Whether `zone` is a time zone as a timestamp may end in one: nothing,
/// `Z`, or an offset `+HH:MM` or `-HH:MM`.
pub open spec fn is_zone(zone: Seq<char>) -> bool {
    ||| zone.len() == 0
    ||| (zone.len() == 1 && zone[0] == 'Z')
    ||| (zone.len() == 6 && (zone[0] == '+' || zone[0] == '-') && is_digit(zone[1]) && is_digit(
        zone[2],
    ) && zone[3] == ':' && is_digit(zone[4]) && is_digit(zone[5]))
}

/// Whether `rest` may follow the seconds of a timestamp: a fraction of a
/// second, which is a dot and at least one digit, or none, and then a time
/// zone or none.
pub open spec fn is_time_suffix(rest: Seq<char>) -> bool {
    if rest.len() > 0 && rest[0] == '.' {
        digits_run(rest.skip(1)) >= 1 && is_zone(rest.skip(1 + digits_run(rest.skip(1))))
    } else {
        is_zone(rest)
    }
}

/// Whether `text` starts with the nineteen characters of a date and a time
/// of day, `YYYY-MM-DDTHH:MM:SS`.
pub open spec fn has_civil_shape(text: Seq<char>) -> bool {
    &&& text.len() >= 19
    &&& is_digit(text[0]) && is_digit(text[1]) && is_digit(text[2]) && is_digit(text[3])
    &&& text[4] == '-'
    &&& is_digit(text[5]) && is_digit(text[6])
    &&& text[7] == '-'
    &&& is_digit(text[8]) && is_digit(text[9])
    &&& text[10] == 'T'
    &&& is_digit(text[11]) && is_digit(text[12])
    &&& text[13] == ':'
    &&& is_digit(text[14]) && is_digit(text[15])
    &&& text[16] == ':'
    &&& is_digit(text[17]) && is_digit(text[18])
}

/// The moment that `text` names, where it is a date and a time of day that
/// exist, written `YYYY-MM-DDTHH:MM:SS`, with or without a fraction of a
/// second and a time zone behind. The date and the time are taken as they
/// stand: a fraction and a zone are checked and dropped.
pub open spec fn parsed_time(text: Seq<char>) -> Option<Timestamp> {
    if has_civil_shape(text) && is_time_suffix(text.skip(19)) {
        let year = 100 * two_digit_value(text[0], text[1]) + two_digit_value(text[2], text[3]);
        let month = two_digit_value(text[5], text[6]);
        let day = two_digit_value(text[8], text[9]);
        let hour = two_digit_value(text[11], text[12]);
        let minute = two_digit_value(text[14], text[15]);
        let second = two_digit_value(text[17], text[18]);
        if valid_civil(year, month, day, hour, minute, second) {
            Some(
                Timestamp {
                    year: year as u16,
                    month: month as u8,
                    day: day as u8,
                    hour: hour as u8,
                    minute: minute as u8,
                    second: second as u8,
                },
            )
        } else {
            None
        }
    } else {
        None
    }
}

/// The number that two digits of `chars` write, at `at` and behind it.
fn two_digits_at(chars: &Vec<char>, at: usize) -> (value: Option<u8>)
    requires
        at < usize::MAX,
        at + 1 < chars@.len(),
    ensures
        value is Some == (is_digit(chars@[at as int]) && is_digit(chars@[at + 1])),
        value is Some ==> value->0 == two_digit_value(chars@[at as int], chars@[at + 1]),
{
    match (digit_of(chars[at]), digit_of(chars[at + 1])) {
        (Some(tens), Some(ones)) => Some(10 * tens + ones),
        _ => None,
    }
}

/// Whether a time zone or nothing stands in `chars` from `start` on.
fn zone_at(chars: &Vec<char>, start: usize) -> (ok: bool)
    requires
        start <= chars@.len(),
    ensures
        ok == is_zone(chars@.skip(start as int)),
{
    let left = chars.len() - start;
    if left == 0 {
        true
    } else if left == 1 {
        proof {
            assert(chars@.skip(start as int)[0] == chars@[start as int]);
        }
        chars[start] == 'Z'
    } else if left == 6 {
        proof {
            let zone = chars@.skip(start as int);
            assert(zone[0] == chars@[start as int]);
            assert(zone[1] == chars@[start + 1]);
            assert(zone[2] == chars@[start + 2]);
            assert(zone[3] == chars@[start + 3]);
            assert(zone[4] == chars@[start + 4]);
            assert(zone[5] == chars@[start + 5]);
        }
        (chars[start] == '+' || chars[start] == '-') && digit_of(chars[start + 1]).is_some()
            && digit_of(chars[start + 2]).is_some() && chars[start + 3] == ':' && digit_of(
            chars[start + 4],
        ).is_some() && digit_of(chars[start + 5]).is_some()
    } else {
        false
    }
}

/// A date and a time of day, as a wall clock shows them.
#[derive(Clone, Copy, Debug, PartialEq, Eq, Structural)]
pub struct Timestamp {
    pub year: u16,
    pub month: u8,
    pub day: u8,
    pub hour: u8,
    pub minute: u8,
    pub second: u8,
}

/// Whether the six numbers name a moment: a year of at most four digits, a
/// day that the month has, and a time of day, where second 60 stands for a
/// leap second.
pub open spec fn valid_civil(
    year: int,
    month: int,
    day: int,
    hour: int,
    minute: int,
    second: int,
) -> bool {
    &&& 0 <= year <= 9999
    &&& 1 <= month <= 12
    &&& 1 <= day <= days_in_month(year, month)
    &&& 0 <= hour <= 23
    &&& 0 <= minute <= 59
    &&& 0 <= second <= 60
}

impl Timestamp {
    /// The fields name a moment.
    pub open spec fn wf(&self) -> bool {
        valid_civil(
            self.year as int,
            self.month as int,
            self.day as int,
            self.hour as int,
            self.minute as int,
            self.second as int,
        )
    }

    /// The number that reads `YYYYMMDDHHMMSS` in decimal: earlier moments
    /// have smaller keys.
    pub open spec fn key(&self) -> int {
        ((((self.year * 100 + self.month) * 100 + self.day) * 100 + self.hour) * 100
            + self.minute) * 100 + self.second
    }

    /// The timestamp of the six numbers, if they name a moment.
    pub fn new(year: u16, month: u8, day: u8, hour: u8, minute: u8, second: u8) -> (made: Option<
        Timestamp,
    >)
        ensures
            made == if valid_civil(
                year as int,
                month as int,
                day as int,
                hour as int,
                minute as int,
                second as int,
            ) {
                Some(Timestamp { year, month, day, hour, minute, second })
            } else {
                None
            },
    {
        let made = Timestamp { year, month, day, hour, minute, second };
        if made.is_valid() {
            Some(made)
        } else {
            None
        }
    }

    /// Whether the fields name a moment.
    pub fn is_valid(&self) -> (ok: bool)
        ensures
            ok == self.wf(),
    {
        if self.year > 9999 || self.month < 1 || self.month > 12 || self.hour > 23 || self.minute
            > 59 || self.second > 60 {
            return false;
        }
        let leap = (self.year % 4 == 0 && self.year % 100 != 0) || self.year % 400 == 0;
        let days: u8 = if self.month == 2 {
            if leap {
                29
            } else {
                28
            }
        } else if self.month == 4 || self.month == 6 || self.month == 9 || self.month == 11 {
            30
        } else {
            31
        };
        1 <= self.day && self.day <= days
    }

    /// The name of the file that holds the snapshot taken at this time.
    pub fn file_name(&self) -> (name: String)
        requires
            self.wf(),
        ensures
            name@ == file_name_of(*self),
    {
        proof {
            reveal_strlit(".");
            reveal_strlit("(");
            reveal_strlit(").");
            reveal_strlit(".json");
        }
        let mut name = String::new();
        let century: u8 = (self.year / 100) as u8;
        let years: u8 = (self.year % 100) as u8;
        push_two_digits(&mut name, century);
        push_two_digits(&mut name, years);
        name.append(".");
        push_two_digits(&mut name, self.month);
        name.append("(");
        name.append(month_abbreviation_text(self.month));
        name.append(").");
        push_two_digits(&mut name, self.day);
        name.append(".");
        push_two_digits(&mut name, self.hour);
        name.append(".");
        push_two_digits(&mut name, self.minute);
        name.append(".");
        push_two_digits(&mut name, self.second);
        name.append(".json");
        proof {
            reveal(civil_file_name);
            assert(name@ =~= file_name_of(*self));
        }
        name
    }

    /// The line that a menu shows for this time.
    pub fn menu_text(&self) -> (text: String)
        requires
            self.wf(),
        ensures
            text@ == menu_text_of(*self),
    {
        let mut text = String::new();
        let century: u8 = (self.year / 100) as u8;
        let years: u8 = (self.year % 100) as u8;
        push_two_digits(&mut text, century);
        push_two_digits(&mut text, years);
        text.append(" ");
        text.append(month_name_text(self.month));
        text.append(" ");
        push_two_digits(&mut text, self.day);
        text.append(" ");
        push_two_digits(&mut text, self.hour);
        text.append(":");
        push_two_digits(&mut text, self.minute);
        text.append(":");
        push_two_digits(&mut text, self.second);
        assert(text@ =~= menu_text_of(*self));
        text
    }

    /// The text that a snapshot file holds for this time.
    pub fn text(&self) -> (text: String)
        requires
            self.wf(),
        ensures
            text@ == text_of(*self),
    {
        proof {
            reveal_strlit("-");
            reveal_strlit("T");
            reveal_strlit(":");
        }
        let mut text = String::new();
        let century: u8 = (self.year / 100) as u8;
        let years: u8 = (self.year % 100) as u8;
        push_two_digits(&mut text, century);
        push_two_digits(&mut text, years);
        text.append("-");
        push_two_digits(&mut text, self.month);
        text.append("-");
        push_two_digits(&mut text, self.day);
        text.append("T");
        push_two_digits(&mut text, self.hour);
        text.append(":");
        push_two_digits(&mut text, self.minute);
        text.append(":");
        push_two_digits(&mut text, self.second);
        proof {
            reveal(civil_text);
            assert(text@ =~= text_of(*self));
        }
        text
    }

    /// The moment that `text` names.
    pub fn parse(text: &str) -> (time: Option<Timestamp>)
        ensures
            time == parsed_time(text@),
    {
        let chars = chars_of(text);
        if chars.len() < 19 {
            return None;
        }
        if chars[4] != '-' || chars[7] != '-' || chars[10] != 'T' || chars[13] != ':' || chars[16]
            != ':' {
            return None;
        }
        let fields = (
            two_digits_at(&chars, 0),
            two_digits_at(&chars, 2),
            two_digits_at(&chars, 5),
            two_digits_at(&chars, 8),
            two_digits_at(&chars, 11),
            two_digits_at(&chars, 14),
            two_digits_at(&chars, 17),
        );
        let (century, years, month, day, hour, minute, second) = match fields {
            (Some(a), Some(b), Some(c), Some(d), Some(e), Some(f), Some(g)) => (a, b, c, d, e, f, g),
            _ => {
                return None;
            },
        };
        assert(has_civil_shape(text@));
        let ghost rest = chars@.skip(19);
        let suffix_ok = if chars.len() > 19 && chars[19] == '.' {
            proof {
                assert(rest[0] == chars@[19]);
                assert(rest.skip(1) =~= chars@.skip(20));
            }
            let run = count_digits(&chars, 20);
            proof {
                assert(rest.skip(1 + run) =~= chars@.skip(20 + run));
            }
            run >= 1 && zone_at(&chars, 20 + run)
        } else {
            proof {
                if chars.len() > 19 {
                    assert(rest[0] == chars@[19]);
                }
            }
            zone_at(&chars, 19)
        };
        if !suffix_ok {
            return None;
        }
        let year: u16 = 100 * (century as u16) + years as u16;
        Timestamp::new(year, month, day, hour, minute, second)
    }

    /// The key by which timestamps are ordered.
    pub fn sort_key(&self) -> (key: u64)
        ensures
            key == self.key(),
    {
        let year: u64 = self.year as u64;
        let month: u64 = self.month as u64;
        let day: u64 = self.day as u64;
        let hour: u64 = self.hour as u64;
        let minute: u64 = self.minute as u64;
        let second: u64 = self.second as u64;
        ((((year * 100 + month) * 100 + day) * 100 + hour) * 100 + minute) * 100 + second
    }
}

/// A number below 100 behind a hundredfold number can be read off again.
proof fn lemma_base_100(x: int, r: int, y: int, q: int)
    requires
        0 <= r < 100,
        0 <= q < 100,
        x * 100 + r == y * 100 + q,
    ensures
        x == y,
        r == q,
{
}

/// Among moments, equal keys mean equal timestamps.
pub proof fn lemma_key_injective(a: Timestamp, b: Timestamp)
    requires
        a.wf(),
        b.wf(),
        a.key() == b.key(),
    ensures
        a == b,
{
    let a4 = a.year * 100 + a.month;
    let b4 = b.year * 100 + b.month;
    let a3 = a4 * 100 + a.day;
    let b3 = b4 * 100 + b.day;
    let a2 = a3 * 100 + a.hour;
    let b2 = b3 * 100 + b.hour;
    let a1 = a2 * 100 + a.minute;
    let b1 = b2 * 100 + b.minute;
    lemma_base_100(a1, a.second as int, b1, b.second as int);
    lemma_base_100(a2, a.minute as int, b2, b.minute as int);
    lemma_base_100(a3, a.hour as int, b3, b.hour as int);
    lemma_base_100(a4, a.day as int, b4, b.day as int);
    lemma_base_100(a.year as int, a.month as int, b.year as int, b.month as int);
}

/// The digits of a file name, place by place.
proof fn lemma_file_name_digits(
    year: int,
    month: int,
    day: int,
    hour: int,
    minute: int,
    second: int,
)
    ensures
        ({
            let name = civil_file_name(year, month, day, hour, minute, second);
            &&& name.len() == 29
            &&& name[0] == digit_char((year / 100) / 10)
            &&& name[1] == digit_char((year / 100) % 10)
            &&& name[2] == digit_char((year % 100) / 10)
            &&& name[3] == digit_char((year % 100) % 10)
            &&& name[5] == digit_char(month / 10)
            &&& name[6] == digit_char(month % 10)
            &&& name[13] == digit_char(day / 10)
            &&& name[14] == digit_char(day % 10)
            &&& name[16] == digit_char(hour / 10)
            &&& name[17] == digit_char(hour % 10)
            &&& name[19] == digit_char(minute / 10)
            &&& name[20] == digit_char(minute % 10)
            &&& name[22] == digit_char(second / 10)
            &&& name[23] == digit_char(second % 10)
        }),
{
    reveal(civil_file_name);
}

/// The characters of a timestamp's text, place by place.
proof fn lemma_text_chars(year: int, month: int, day: int, hour: int, minute: int, second: int)
    ensures
        ({
            let text = civil_text(year, month, day, hour, minute, second);
            &&& text.len() == 19
            &&& text[0] == digit_char((year / 100) / 10)
            &&& text[1] == digit_char((year / 100) % 10)
            &&& text[2] == digit_char((year % 100) / 10)
            &&& text[3] == digit_char((year % 100) % 10)
            &&& text[4] == '-'
            &&& text[5] == digit_char(month / 10)
            &&& text[6] == digit_char(month % 10)
            &&& text[7] == '-'
            &&& text[8] == digit_char(day / 10)
            &&& text[9] == digit_char(day % 10)
            &&& text[10] == 'T'
            &&& text[11] == digit_char(hour / 10)
            &&& text[12] == digit_char(hour % 10)
            &&& text[13] == ':'
            &&& text[14] == digit_char(minute / 10)
            &&& text[15] == digit_char(minute % 10)
            &&& text[16] == ':'
            &&& text[17] == digit_char(second / 10)
            &&& text[18] == digit_char(second % 10)
        }),
{
    reveal(civil_text);
}

/// The two digits of a number below 100 are digits and write that number.
proof fn lemma_two_digits(n: int)
    requires
        0 <= n <= 99,
    ensures
        is_digit(digit_char(n / 10)),
        is_digit(digit_char(n % 10)),
        two_digit_value(digit_char(n / 10), digit_char(n % 10)) == n,
{
    lemma_digit_char(n / 10);
    lemma_digit_char(n % 10);
}

/// Two numbers below 100 with the same two digits are the same number.
proof fn lemma_same_digits(n: int, m: int)
    requires
        0 <= n <= 99,
        0 <= m <= 99,
        digit_char(n / 10) == digit_char(m / 10),
        digit_char(n % 10) == digit_char(m % 10),
    ensures
        n == m,
{
    lemma_two_digits(n);
    lemma_two_digits(m);
}

/// Snapshots taken in different seconds go to files of different names.
pub proof fn lemma_file_name_injective(a: Timestamp, b: Timestamp)
    requires
        a.wf(),
        b.wf(),
        a != b,
    ensures
        file_name_of(a) != file_name_of(b),
{
    if file_name_of(a) == file_name_of(b) {
        lemma_file_name_digits(
            a.year as int,
            a.month as int,
            a.day as int,
            a.hour as int,
            a.minute as int,
            a.second as int,
        );
        lemma_file_name_digits(
            b.year as int,
            b.month as int,
            b.day as int,
            b.hour as int,
            b.minute as int,
            b.second as int,
        );
        lemma_same_digits(a.year as int / 100, b.year as int / 100);
        lemma_same_digits(a.year as int % 100, b.year as int % 100);
        lemma_same_digits(a.month as int, b.month as int);
        lemma_same_digits(a.day as int, b.day as int);
        lemma_same_digits(a.hour as int, b.hour as int);
        lemma_same_digits(a.minute as int, b.minute as int);
        lemma_same_digits(a.second as int, b.second as int);
    }
}

/// The text of a moment names that moment.
pub proof fn lemma_parse_text(time: Timestamp)
    requires
        time.wf(),
    ensures
        parsed_time(text_of(time)) == Some(time),
{
    let text = text_of(time);
    lemma_text_chars(
        time.year as int,
        time.month as int,
        time.day as int,
        time.hour as int,
        time.minute as int,
        time.second as int,
    );
    assert(text.skip(19) =~= Seq::<char>::empty());
    lemma_two_digits(time.year as int / 100);
    lemma_two_digits(time.year as int % 100);
    lemma_two_digits(time.month as int);
    lemma_two_digits(time.day as int);
    lemma_two_digits(time.hour as int);
    lemma_two_digits(time.minute as int);
    lemma_two_digits(time.second as int);
    assert(has_civil_shape(text));
}

} // verus!
