//! Helpers of the command line: aligned output, answers to prompts,
//! privileges.

use crate::text::{chars_of, is_digit, str_eq, views};
use vstd::prelude::*;
use vstd::std_specs::convert::FromSpec;

verus! {

/// Forgets what a success holds and lifts an error into the caller's error
/// type.
pub fn void<T, E, R: From<E>>(result: Result<T, E>) -> (out: Result<(), R>)
    ensures
        out is Ok == result is Ok,
        result is Err && R::obeys_from_spec() ==> out == Err::<(), R>(
            R::from_spec(result->Err_0),
        ),
{
    match result {
        Ok(_) => Ok(()),
        Err(e) => Err(R::from(e)),
    }
}

/// The number of blanks that put a label of `width` characters as far right
/// as the longest label, `longest` characters wide, where a character takes
/// `mult` cells of the terminal.
pub open spec fn pad_spec(mult: int, longest: int, width: int) -> int {
    mult * (longest - width)
}

/// The number of blanks after the label `s`.
pub fn pad(mult: usize, longest: usize, s: &str) -> (blanks: usize)
    requires
        s@.len() <= longest,
        pad_spec(mult as int, longest as int, s@.len() as int) <= usize::MAX,
    ensures
        blanks == pad_spec(mult as int, longest as int, s@.len() as int),
{
    let short: usize = longest - s.unicode_len();
    assert(mult * short >= 0) by (nonlinear_arith)
        requires
            mult >= 0,
            short >= 0,
    ;
    mult * short
}

/// The number of terminal cells that a character takes in the language
/// `language`: two in Japanese, else one.
pub open spec fn cell_width(language: Seq<char>) -> int {
    if language == "ja"@ {
        2
    } else {
        1
    }
}

/// The length of the longest of `labels`, 0 where there is none.
pub open spec fn longest_label(labels: Seq<Seq<char>>) -> int
    decreases labels.len(),
{
    if labels.len() == 0 {
        0
    } else if labels.last().len() > longest_label(labels.drop_last()) {
        labels.last().len() as int
    } else {
        longest_label(labels.drop_last())
    }
}

/// No label is longer than the longest, and the longest is not negative.
pub proof fn lemma_longest_label(labels: Seq<Seq<char>>)
    ensures
        longest_label(labels) >= 0,
        forall|i: int| 0 <= i < labels.len() ==> (#[trigger] labels[i]).len() <= longest_label(labels),
    decreases labels.len(),
{
    if labels.len() > 0 {
        let shorter = labels.drop_last();
        lemma_longest_label(shorter);
        assert forall|i: int| 0 <= i < labels.len() implies (#[trigger] labels[i]).len()
            <= longest_label(labels) by {
            if i < shorter.len() {
                assert(shorter[i] == labels[i]);
            }
        }
    }
}

/// For each of `labels`, the number of blanks that follows it in a table
/// whose second column starts at one place, in the language `language`.
pub fn info_padding(language: &str, labels: &Vec<String>) -> (blanks: Vec<usize>)
    requires
        cell_width(language@) * longest_label(views(labels@)) <= usize::MAX,
    ensures
        blanks.len() == labels.len(),
        forall|i: int|
            0 <= i < blanks.len() ==> (#[trigger] blanks[i]) == pad_spec(
                cell_width(language@),
                longest_label(views(labels@)),
                labels[i]@.len() as int,
            ),
{
    let mult: usize = if str_eq(language, "ja") {
        2
    } else {
        1
    };
    let ghost all = views(labels@);
    let mut longest: usize = 0;
    let mut i: usize = 0;
    assert(all.take(0) =~= Seq::<Seq<char>>::empty());
    while i < labels.len()
        invariant
            i <= labels.len(),
            all == views(labels@),
            longest == longest_label(all.take(i as int)),
        decreases labels.len() - i,
    {
        proof {
            assert(all.take(i + 1).drop_last() =~= all.take(i as int));
            assert(all.take(i + 1).last() == labels@[i as int]@);
        }
        let width = labels[i].as_str().unicode_len();
        if width > longest {
            longest = width;
        }
        i += 1;
    }
    proof {
        assert(all.take(labels.len() as int) =~= all);
        lemma_longest_label(all);
    }
    let mut blanks: Vec<usize> = Vec::new();
    let mut k: usize = 0;
    while k < labels.len()
        invariant
            k <= labels.len(),
            blanks.len() == k,
            all == views(labels@),
            longest == longest_label(all),
            mult == cell_width(language@),
            mult * longest <= usize::MAX,
            forall|n: int| 0 <= n < labels.len() ==> (#[trigger] all[n]).len() <= longest,
            forall|n: int|
                0 <= n < k ==> (#[trigger] blanks[n]) == pad_spec(
                    mult as int,
                    longest as int,
                    labels[n]@.len() as int,
                ),
        decreases labels.len() - k,
    {
        proof {
            let width = labels@[k as int]@.len() as int;
            assert(all[k as int].len() == width);
            assert(mult * (longest - width) <= mult * longest) by (nonlinear_arith)
                requires
                    mult >= 0,
                    0 <= width <= longest,
            ;
        }
        blanks.push(pad(mult, longest, labels[k].as_str()));
        k += 1;
    }
    blanks
}

/// Whether the answer `line` to a prompt is a yes: nothing, `y` or `Y`.
pub fn accepts(line: &str) -> (yes: bool)
    ensures
        yes == (line@.len() == 0 || line@ == "y"@ || line@ == "Y"@),
{
    line.is_empty() || str_eq(line, "y") || str_eq(line, "Y")
}

/// Whether `s` is made of decimal digits.
pub open spec fn all_digits(s: Seq<char>) -> bool {
    forall|i: int| 0 <= i < s.len() ==> is_digit(#[trigger] s[i])
}

/// The number that the decimal digits `digits` write.
pub open spec fn decimal_value(digits: Seq<char>) -> int
    decreases digits.len(),
{
    if digits.len() == 0 {
        0
    } else {
        decimal_value(digits.drop_last()) * 10 + (digits.last() as int - '0' as int)
    }
}

/// The number that `raw` writes: decimal digits, at least one, with nothing
/// before them but, if at all, one `+`, and nothing behind; none where the
/// number is too large for the machine.
pub open spec fn written_number(raw: Seq<char>) -> Option<usize> {
    let digits = if raw.len() > 0 && raw[0] == '+' {
        raw.skip(1)
    } else {
        raw
    };
    if digits.len() > 0 && all_digits(digits) && decimal_value(digits) <= usize::MAX {
        Some(decimal_value(digits) as usize)
    } else {
        None
    }
}

/// More digits do not write a smaller number.
proof fn lemma_decimal_grows(digits: Seq<char>, upto: int)
    requires
        all_digits(digits),
        0 <= upto <= digits.len(),
    ensures
        0 <= decimal_value(digits.take(upto)) <= decimal_value(digits),
    decreases digits.len() - upto,
{
    if upto == digits.len() {
        assert(digits.take(upto) =~= digits);
        lemma_decimal_not_negative(digits);
    } else {
        lemma_decimal_grows(digits, upto + 1);
        assert(digits.take(upto + 1).drop_last() =~= digits.take(upto));
        assert(is_digit(digits[upto]));
        lemma_decimal_not_negative(digits.take(upto));
    }
}

proof fn lemma_decimal_not_negative(digits: Seq<char>)
    requires
        all_digits(digits),
    ensures
        decimal_value(digits) >= 0,
    decreases digits.len(),
{
    if digits.len() > 0 {
        assert(is_digit(digits[digits.len() - 1]));
        assert forall|i: int| 0 <= i < digits.drop_last().len() implies is_digit(
            #[trigger] digits.drop_last()[i],
        ) by {
            assert(digits.drop_last()[i] == digits[i]);
        }
        lemma_decimal_not_negative(digits.drop_last());
    }
}

/// The number that `raw` writes.
pub fn parse_number(raw: &str) -> (number: Option<usize>)
    ensures
        number == written_number(raw@),
{
    let chars = chars_of(raw);
    let start: usize = if chars.len() > 0 && chars[0] == '+' {
        1
    } else {
        0
    };
    let ghost digits = chars@.skip(start as int);
    if chars.len() == start {
        return None;
    }
    let mut value: usize = 0;
    let mut i: usize = start;
    assert(digits.take(0) =~= Seq::<char>::empty());
    while i < chars.len()
        invariant
            start <= i <= chars.len(),
            start < chars.len(),
            chars@ == raw@,
            start == if raw@.len() > 0 && raw@[0] == '+' {
                1int
            } else {
                0int
            },
            digits == chars@.skip(start as int),
            all_digits(digits.take(i - start)),
            value == decimal_value(digits.take(i - start)),
        decreases chars.len() - i,
    {
        let c = chars[i];
        let ghost shorter = digits.take(i - start);
        let ghost longer = digits.take(i - start + 1);
        proof {
            assert(longer.drop_last() =~= shorter);
            assert(longer.last() == c);
        }
        if c < '0' || c > '9' {
            proof {
                assert(chars@.skip(0) =~= chars@);
                assert(!is_digit(digits[i - start]));
            }
            return None;
        }
        proof {
            assert forall|k: int| 0 <= k < longer.len() implies is_digit(#[trigger] longer[k]) by {
                if k < shorter.len() {
                    assert(shorter[k] == longer[k]);
                }
            }
        }
        let digit: usize = (c as u32 - '0' as u32) as usize;
        assert(decimal_value(longer) == value * 10 + digit);
        let grown = match value.checked_mul(10) {
            Some(tenfold) => tenfold.checked_add(digit),
            None => None,
        };
        match grown {
            Some(next) => {
                value = next;
            },
            None => {
                proof {
                    assert(chars@.skip(0) =~= chars@);
                    assert(decimal_value(longer) > usize::MAX);
                    if all_digits(digits) {
                        lemma_decimal_grows(digits, i - start + 1);
                    }
                }
                return None;
            },
        }
        i += 1;
    }
    proof {
        assert(digits.take(chars.len() - start) =~= digits);
        assert(chars@.skip(0) =~= chars@);
    }
    Some(value)
}

/// The choice that the answer `raw` makes from a menu whose entries are
/// numbered from 0 to `max`: the number that it writes, if that is on the
/// menu.
pub open spec fn chosen(raw: Seq<char>, max: usize) -> Option<usize> {
    match written_number(raw) {
        Some(number) => if number <= max {
            Some(number)
        } else {
            None
        },
        None => None,
    }
}

/// The choice that the answer `raw` makes from a menu whose entries are
/// numbered from 0 to `max`. Without a choice the user is asked again.
pub fn selection(raw: &str, max: usize) -> (choice: Option<usize>)
    ensures
        choice == chosen(raw@, max),
{
    match parse_number(raw) {
        Some(number) => if max >= number {
            Some(number)
        } else {
            None
        },
        None => None,
    }
}

/// The failure to become root.
#[derive(Debug, PartialEq, Eq, Structural)]
pub struct SudoError;

impl SudoError {
    /// The text that tells the user of the failure.
    pub fn message(&self) -> (text: String)
        ensures
            text@ == "Failed to raise privileges."@,
    {
        "Failed to raise privileges.".to_owned()
    }
}

/// What the attempt to become root means for the command: it goes on only
/// where the process `escalated`.
pub fn sudo(escalated: bool) -> (outcome: Result<(), SudoError>)
    ensures
        outcome is Ok == escalated,
{
    if escalated {
        Ok(())
    } else {
        Err(SudoError)
    }
}

} // verus!
