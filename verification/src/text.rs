//! Small helpers on strings, seen as sequences of characters.

use vstd::prelude::*;
use vstd::std_specs::iter::IteratorSpec;

verus! {

/// The character sequences of `strings`, in their order.
pub open spec fn views(strings: Seq<String>) -> Seq<Seq<char>> {
    Seq::new(strings.len(), |i: int| strings[i]@)
}

/// Whether two string slices hold the same characters.
pub fn str_eq(a: &str, b: &str) -> (same: bool)
    ensures
        same == (a@ == b@),
{
    let mut left = a.chars();
    let mut right = b.chars();
    loop
        invariant
            (a@ == b@) <==> (left.remaining() == right.remaining()),
            left.decrease() is Some,
        decreases left.decrease()->0,
    {
        let ghost l0 = left.remaining();
        let ghost r0 = right.remaining();
        let x = left.next();
        let y = right.next();
        match (x, y) {
            (None, None) => {
                assert(l0 =~= r0);
                return true;
            },
            (Some(c), Some(d)) => {
                if c != d {
                    return false;
                }
                proof {
                    assert(l0 =~= seq![c] + l0.drop_first());
                    assert(r0 =~= seq![d] + r0.drop_first());
                }
            },
            _ => {
                return false;
            },
        }
    }
}

/// Whether `c` occurs in `s`.
pub fn has_char(s: &str, c: char) -> (found: bool)
    ensures
        found == s@.contains(c),
{
    let mut rest = s.chars();
    let ghost mut seen: int = 0;
    loop
        invariant
            0 <= seen <= s@.len(),
            rest.remaining() == s@.skip(seen),
            forall|i: int| 0 <= i < seen ==> s@[i] != c,
            rest.decrease() is Some,
        decreases rest.decrease()->0,
    {
        match rest.next() {
            None => {
                return false;
            },
            Some(d) => {
                if d == c {
                    assert(s@[seen] == c);
                    return true;
                }
                proof {
                    assert(s@.skip(seen).drop_first() =~= s@.skip(seen + 1));
                    seen = seen + 1;
                }
            },
        }
    }
}

/// The characters of `s`, one by one.
pub fn chars_of(s: &str) -> (chars: Vec<char>)
    ensures
        chars@ == s@,
{
    let mut chars: Vec<char> = Vec::new();
    let mut rest = s.chars();
    loop
        invariant
            s@ == chars@ + rest.remaining(),
            rest.decrease() is Some,
        ensures
            chars@ == s@,
        decreases rest.decrease()->0,
    {
        let ghost before = rest.remaining();
        match rest.next() {
            None => {
                assert(chars@ + before =~= chars@);
                break;
            },
            Some(c) => {
                proof {
                    assert(chars@ + before =~= chars@.push(c) + before.drop_first());
                }
                chars.push(c);
            },
        }
    }
    chars
}

/// The last place of `c` in `s`, or -1 where `s` holds no `c`.
pub open spec fn last_index_of(s: Seq<char>, c: char) -> int
    decreases s.len(),
{
    if s.len() == 0 {
        -1
    } else if s.last() == c {
        s.len() - 1
    } else {
        last_index_of(s.drop_last(), c)
    }
}

/// The first place of `c` in `s`, or the length of `s` where `s` holds no
/// `c`.
pub open spec fn first_index_of(s: Seq<char>, c: char) -> int
    decreases s.len(),
{
    if s.len() == 0 {
        0
    } else if s.first() == c {
        0
    } else {
        1 + first_index_of(s.drop_first(), c)
    }
}

/// `at` is the last place of `c` in `s`, or -1 and `s` holds no `c`.
pub open spec fn is_last_index(s: Seq<char>, c: char, at: int) -> bool {
    &&& -1 <= at < s.len()
    &&& at >= 0 ==> s[at] == c
    &&& forall|k: int| at < k < s.len() ==> s[k] != c
}

/// `at` is the first place of `c` in `s`, or the length of `s` and `s`
/// holds no `c`.
pub open spec fn is_first_index(s: Seq<char>, c: char, at: int) -> bool {
    &&& 0 <= at <= s.len()
    &&& at < s.len() ==> s[at] == c
    &&& forall|k: int| 0 <= k < at ==> s[k] != c
}

/// `last_index_of` is the one place that `is_last_index` describes.
pub proof fn lemma_last_index_of(s: Seq<char>, c: char)
    ensures
        is_last_index(s, c, last_index_of(s, c)),
        forall|at: int| is_last_index(s, c, at) ==> at == last_index_of(s, c),
    decreases s.len(),
{
    if s.len() > 0 && s.last() != c {
        let shorter = s.drop_last();
        lemma_last_index_of(shorter, c);
        let r = last_index_of(shorter, c);
        assert(r >= 0 ==> shorter[r] == s[r]);
        assert forall|k: int| r < k < s.len() implies s[k] != c by {
            if k < shorter.len() {
                assert(shorter[k] == s[k]);
            }
        }
    }
    let found = last_index_of(s, c);
    assert forall|at: int| is_last_index(s, c, at) implies at == found by {
        if at < found {
            assert(s[found] == c);
        } else if at > found {
            assert(s[at] == c);
        }
    }
}

/// `first_index_of` is the one place that `is_first_index` describes.
pub proof fn lemma_first_index_of(s: Seq<char>, c: char)
    ensures
        is_first_index(s, c, first_index_of(s, c)),
        forall|at: int| is_first_index(s, c, at) ==> at == first_index_of(s, c),
    decreases s.len(),
{
    if s.len() > 0 && s.first() != c {
        let shorter = s.drop_first();
        lemma_first_index_of(shorter, c);
        let r = first_index_of(shorter, c);
        assert(r < shorter.len() ==> shorter[r] == s[r + 1]);
        assert forall|k: int| 0 <= k < r + 1 implies s[k] != c by {
            if k > 0 {
                assert(shorter[k - 1] == s[k]);
            }
        }
    }
    let found = first_index_of(s, c);
    assert forall|at: int| is_first_index(s, c, at) implies at == found by {
        if at < found {
            assert(s[at] == c);
        } else if at > found {
            assert(s[found] == c);
        }
    }
}

/// The last place of `c` among the first `end` characters.
pub fn find_last(chars: &Vec<char>, end: usize, c: char) -> (at: Option<usize>)
    requires
        end <= chars@.len(),
    ensures
        match at {
            Some(i) => i < end && i == last_index_of(chars@.take(end as int), c),
            None => last_index_of(chars@.take(end as int), c) == -1,
        },
{
    let ghost head = chars@.take(end as int);
    let mut i: usize = end;
    while i > 0
        invariant
            i <= end <= chars@.len(),
            head == chars@.take(end as int),
            forall|k: int| i <= k < end ==> head[k] != c,
        decreases i,
    {
        i -= 1;
        if chars[i] == c {
            proof {
                assert(head[i as int] == c);
                lemma_last_index_of(head, c);
                assert(is_last_index(head, c, i as int));
            }
            return Some(i);
        }
    }
    proof {
        lemma_last_index_of(head, c);
        assert(is_last_index(head, c, -1));
    }
    None
}

/// The first place of `c` at or after `start`, counted from `start`; the
/// number of characters after `start` where there is none.
pub fn find_first(chars: &Vec<char>, start: usize, c: char) -> (at: usize)
    requires
        start <= chars@.len(),
    ensures
        at == first_index_of(chars@.skip(start as int), c),
        start + at <= chars@.len(),
{
    let ghost tail = chars@.skip(start as int);
    let mut i: usize = start;
    while i < chars.len()
        invariant
            start <= i <= chars@.len(),
            tail == chars@.skip(start as int),
            forall|k: int| 0 <= k < i - start ==> tail[k] != c,
        decreases chars@.len() - i,
    {
        if chars[i] == c {
            proof {
                assert(tail[i - start] == c);
                lemma_first_index_of(tail, c);
                assert(is_first_index(tail, c, i - start));
            }
            return i - start;
        }
        i += 1;
    }
    proof {
        lemma_first_index_of(tail, c);
        assert(is_first_index(tail, c, i - start));
    }
    i - start
}

/// The characters of `s` from place `from` up to, not including, place `to`.
pub fn slice_of(s: &str, from: usize, to: usize) -> (part: String)
    requires
        from <= to <= s@.len(),
    ensures
        part@ == s@.subrange(from as int, to as int),
{
    s.substring_char(from, to).to_owned()
}

/// Whether `c` is a decimal digit.
pub open spec fn is_digit(c: char) -> bool {
    '0' <= c <= '9'
}

/// The number that the decimal digit `c` stands for.
pub open spec fn digit_value(c: char) -> int {
    c as int - '0' as int
}

/// Whether `c` is a decimal digit.
pub fn digit_of(c: char) -> (value: Option<u8>)
    ensures
        value is Some == is_digit(c),
        is_digit(c) ==> value == Some(digit_value(c) as u8),
{
    if c < '0' || c > '9' {
        None
    } else {
        Some((c as u32 - '0' as u32) as u8)
    }
}

/// The number of decimal digits at the start of `s`.
pub open spec fn digits_run(s: Seq<char>) -> int
    decreases s.len(),
{
    if s.len() > 0 && is_digit(s[0]) {
        1 + digits_run(s.skip(1))
    } else {
        0
    }
}

/// The number of decimal digits from place `start` of `chars` on.
pub fn count_digits(chars: &Vec<char>, start: usize) -> (count: usize)
    requires
        start <= chars@.len(),
    ensures
        count == digits_run(chars@.skip(start as int)),
        start + count <= chars@.len(),
{
    let mut i: usize = start;
    while i < chars.len() && digit_of(chars[i]).is_some()
        invariant
            start <= i <= chars@.len(),
            digits_run(chars@.skip(start as int)) == (i - start) + digits_run(
                chars@.skip(i as int),
            ),
        decreases chars@.len() - i,
    {
        proof {
            assert(chars@.skip(i as int)[0] == chars@[i as int]);
            assert(chars@.skip(i as int).skip(1) =~= chars@.skip(i + 1));
        }
        i += 1;
    }
    proof {
        if i < chars.len() {
            assert(chars@.skip(i as int)[0] == chars@[i as int]);
        }
    }
    i - start
}

/// The decimal digit for `d`; `'9'` for a number above 9.
#[verifier::opaque]
pub open spec fn digit_char(d: int) -> char {
    if d <= 0 {
        '0'
    } else if d == 1 {
        '1'
    } else if d == 2 {
        '2'
    } else if d == 3 {
        '3'
    } else if d == 4 {
        '4'
    } else if d == 5 {
        '5'
    } else if d == 6 {
        '6'
    } else if d == 7 {
        '7'
    } else if d == 8 {
        '8'
    } else {
        '9'
    }
}

/// The decimal digit for `d`, as a string of one character.
pub fn digit_text(d: u8) -> (text: &'static str)
    requires
        d <= 9,
    ensures
        text@ == seq![digit_char(d as int)],
{
    proof {
        reveal(digit_char);
        reveal_strlit("0");
        reveal_strlit("1");
        reveal_strlit("2");
        reveal_strlit("3");
        reveal_strlit("4");
        reveal_strlit("5");
        reveal_strlit("6");
        reveal_strlit("7");
        reveal_strlit("8");
        reveal_strlit("9");
    }
    let text = match d {
        0 => "0",
        1 => "1",
        2 => "2",
        3 => "3",
        4 => "4",
        5 => "5",
        6 => "6",
        7 => "7",
        8 => "8",
        _ => "9",
    };
    assert(text@ =~= seq![digit_char(d as int)]);
    text
}

/// The digit for a number below 10 is a digit and stands for that number.
pub proof fn lemma_digit_char(d: int)
    requires
        0 <= d <= 9,
    ensures
        is_digit(digit_char(d)),
        digit_value(digit_char(d)) == d,
{
    reveal(digit_char);
}

/// The two decimal digits of `n`, tens first.
pub open spec fn two_digits(n: int) -> Seq<char> {
    seq![digit_char(n / 10), digit_char(n % 10)]
}

/// Appends the two decimal digits of `n` to `out`.
pub fn push_two_digits(out: &mut String, n: u8)
    requires
        n <= 99,
    ensures
        final(out)@ == old(out)@ + two_digits(n as int),
{
    let ghost before = out@;
    out.append(digit_text(n / 10));
    out.append(digit_text(n % 10));
    assert(out@ =~= before + two_digits(n as int));
}

} // verus!
