//! The grammar of the line filter: `#` and a line, two lines around a `.`, or a line and a
//! distance around `+` or `-`.

use vstd::prelude::*;

verus! {

/// Tells whether `c` is a decimal digit.
pub open spec fn is_digit(c: char) -> bool {
    '0' <= c <= '9'
}

/// The value of the digit `c`.
pub open spec fn digit_value(c: char) -> int {
    c as int - '0' as int
}

/// Tells whether `text` is made of decimal digits, at least one.
pub open spec fn is_number(text: Seq<char>) -> bool {
    text.len() > 0 && forall|i: int| 0 <= i < text.len() ==> is_digit(#[trigger] text[i])
}

/// The number that the decimal digits `text` write.
pub open spec fn number_value(text: Seq<char>) -> int
    decreases text.len(),
{
    if text.len() == 0 {
        0
    } else {
        10 * number_value(text.drop_last()) + digit_value(text.last())
    }
}

/// The number of digits with which `text` starts from `from` on.
pub open spec fn digit_run(text: Seq<char>, from: int) -> int
    decreases text.len() - from,
{
    if from < 0 || from >= text.len() || !is_digit(text[from]) {
        0
    } else {
        1 + digit_run(text, from + 1)
    }
}

/// The lines that a token of the line filter selects, as the first and the last of them, or
/// `None` where the token is malformed.
///
/// A token is `#` and then a number; or two numbers with `.` between them, which select the
/// lines from the smaller to the larger; or a number, `+` or `-`, and a number, which select
/// the lines from the first number to the first moved by the second. Nothing may follow. A
/// number that a machine word does not hold makes the token malformed.
pub open spec fn line_range(token: Seq<char>) -> Option<(int, int)> {
    if token.len() < 2 || token[0] != '#' {
        None
    } else {
        let run = digit_run(token, 1);
        let first = token.subrange(1, 1 + run);
        if run == 0 || number_value(first) > usize::MAX {
            None
        } else if 1 + run == token.len() {
            Some((number_value(first), number_value(first)))
        } else {
            let second = token.skip(2 + run);
            let sign = token[1 + run];
            if !is_number(second) || number_value(second) > usize::MAX {
                None
            } else if sign == '.' {
                if number_value(first) <= number_value(second) {
                    Some((number_value(first), number_value(second)))
                } else {
                    Some((number_value(second), number_value(first)))
                }
            } else if sign == '+' {
                Some((number_value(first), number_value(first) + number_value(second)))
            } else if sign == '-' {
                Some((number_value(first) - number_value(second), number_value(first)))
            } else {
                None
            }
        }
    }
}

/// The value of digits is not negative.
pub proof fn lemma_number_value_positive(text: Seq<char>)
    requires
        forall|i: int| 0 <= i < text.len() ==> is_digit(#[trigger] text[i]),
    ensures
        number_value(text) >= 0,
    decreases text.len(),
{
    if text.len() > 0 {
        lemma_number_value_positive(text.drop_last());
    }
}

/// Reads the number that starts at `from`: returns the offset after its last digit, and its
/// value where a machine word holds it.
pub fn read_number(text: &Vec<char>, from: usize) -> (found: (usize, Option<usize>))
    requires
        from <= text.len(),
    ensures
        found.0 == from + digit_run(text@, from as int),
        from <= found.0 <= text.len(),
        forall|i: int| from <= i < found.0 ==> is_digit(#[trigger] text@[i]),
        found.0 < text.len() ==> !is_digit(text@[found.0 as int]),
        match found.1 {
            Some(value) => value == number_value(text@.subrange(from as int, found.0 as int)),
            None => number_value(text@.subrange(from as int, found.0 as int)) > usize::MAX,
        },
{
    let mut at: usize = from;
    let mut value: Option<usize> = Some(0);
    proof {
        assert(text@.subrange(from as int, from as int) =~= Seq::<char>::empty());
    }
    while at < text.len() && '0' <= text[at] && text[at] <= '9'
        invariant
            from <= at <= text.len(),
            forall|i: int| from <= i < at ==> is_digit(#[trigger] text@[i]),
            digit_run(text@, from as int) == (at - from) + digit_run(text@, at as int),
            match value {
                Some(v) => v == number_value(text@.subrange(from as int, at as int)),
                None => number_value(text@.subrange(from as int, at as int)) > usize::MAX,
            },
        decreases text.len() - at,
    {
        let digit = (text[at] as u32 - '0' as u32) as usize;
        proof {
            let before = text@.subrange(from as int, at as int);
            let after = text@.subrange(from as int, at + 1);
            assert(after.drop_last() =~= before);
            assert(after.last() == text@[at as int]);
            lemma_number_value_positive(before);
            lemma_digit_run_step(text@, from as int, at as int);
        }
        value = match value {
            Some(v) => match v.checked_mul(10) {
                Some(tens) => tens.checked_add(digit),
                None => None,
            },
            None => None,
        };
        at += 1;
    }
    (at, value)
}

/// A digit run that reaches a digit goes on past it.
pub proof fn lemma_digit_run_step(text: Seq<char>, from: int, at: int)
    requires
        0 <= from <= at < text.len(),
        is_digit(text[at]),
    ensures
        digit_run(text, at) == 1 + digit_run(text, at + 1),
{
}

/// Reads a token of the line filter: returns the first and the last of the lines that it
/// selects, or nothing where the token is malformed. A last line beyond the largest number
/// that a machine word holds is returned as that number, and a first line below zero as zero.
pub fn parse_line_range(token: &Vec<char>) -> (range: Option<(usize, usize)>)
    ensures
        match range {
            Some((low, high)) => line_range(token@) matches Some((first, last)) && low
                == crate::num::clamp(first, 0, usize::MAX as int) && high == crate::num::clamp(
                last,
                0,
                usize::MAX as int,
            ),
            None => line_range(token@) is None,
        },
{
    if token.len() < 2 || token[0] != '#' {
        return None;
    }
    let (end, first) = read_number(token, 1);
    proof {
        lemma_number_value_positive(token@.subrange(1, end as int));
    }
    if end == 1 {
        return None;
    }
    let low = match first {
        Some(value) => value,
        None => {
            return None;
        },
    };
    if end == token.len() {
        return Some((low, low));
    }
    let sign = token[end];
    let (stop, second) = read_number(token, end + 1);
    proof {
        let rest = token@.skip(end + 1);
        assert(stop == token.len() ==> rest =~= token@.subrange(end + 1, stop as int));
        lemma_number_value_positive(token@.subrange(end + 1, stop as int));
        if stop < token.len() {
            assert(rest[stop - (end + 1)] == token@[stop as int]);
        }
    }
    if stop == end + 1 || stop != token.len() {
        return None;
    }
    let other = match second {
        Some(value) => value,
        None => {
            return None;
        },
    };
    if sign == '.' {
        if low <= other {
            Some((low, other))
        } else {
            Some((other, low))
        }
    } else if sign == '+' {
        Some((low, low.saturating_add(other)))
    } else if sign == '-' {
        Some((low.saturating_sub(other), low))
    } else {
        None
    }
}


/// The first line that a token selects is a number that a machine word holds, and the last
/// is not negative.
pub proof fn lemma_line_range_bounds(token: Seq<char>)
    requires
        line_range(token) is Some,
    ensures
        match line_range(token) {
            Some((first, last)) => first <= usize::MAX && 0 <= last,
            None => true,
        },
{
    let run = digit_run(token, 1);
    lemma_digit_run(token, 1);
    lemma_number_value_positive(token.subrange(1, 1 + run));
    if 1 + run < token.len() {
        lemma_number_value_positive(token.skip(2 + run));
    }
}

/// A digit run stays within the text and covers digits only.
pub proof fn lemma_digit_run(text: Seq<char>, from: int)
    requires
        0 <= from <= text.len(),
    ensures
        0 <= digit_run(text, from) <= text.len() - from,
        forall|i: int| from <= i < from + digit_run(text, from) ==> is_digit(#[trigger] text[i]),
    decreases text.len() - from,
{
    if from < text.len() && is_digit(text[from]) {
        lemma_digit_run(text, from + 1);
    }
}

/// Digits that end at the end of the text, or before a character that is no digit, are the
/// digit run from their first.
pub proof fn lemma_digit_run_whole(text: Seq<char>, from: int, end: int)
    requires
        0 <= from <= end <= text.len(),
        forall|i: int| from <= i < end ==> is_digit(#[trigger] text[i]),
        end < text.len() ==> !is_digit(text[end]),
    ensures
        digit_run(text, from) == end - from,
    decreases end - from,
{
    if from < end {
        lemma_digit_run_whole(text, from + 1, end);
    }
}

/// The token made of `#`, the number `first`, the character `sign` and the number `second`.
pub open spec fn range_token(first: Seq<char>, sign: char, second: Seq<char>) -> Seq<char> {
    seq!['#'] + first + seq![sign] + second
}

/// The token made of `#` and a number selects the line of that number alone.
pub proof fn lemma_single_line(number: Seq<char>)
    requires
        is_number(number),
        number_value(number) <= usize::MAX,
    ensures
        line_range(seq!['#'] + number) == Some((number_value(number), number_value(number))),
{
    let token = seq!['#'] + number;
    assert forall|i: int| 1 <= i < token.len() implies is_digit(#[trigger] token[i]) by {
        assert(token[i] == number[i - 1]);
    }
    lemma_digit_run_whole(token, 1, token.len() as int);
    assert(token.subrange(1, token.len() as int) =~= number);
}

/// What a token of two numbers selects: around `.` the lines from the smaller number to the
/// larger, around `+` the lines from the first number to their sum, and around `-` the lines
/// from their difference to the first number. Where a machine word does not hold one of the
/// numbers, the token selects nothing.
pub proof fn lemma_line_range_of(first: Seq<char>, sign: char, second: Seq<char>)
    requires
        is_number(first),
        is_number(second),
        sign == '.' || sign == '+' || sign == '-',
    ensures
        line_range(range_token(first, sign, second)) == if number_value(first) > usize::MAX
            || number_value(second) > usize::MAX {
            None
        } else {
            Some(
            if sign == '.' {
                if number_value(first) <= number_value(second) {
                    (number_value(first), number_value(second))
                } else {
                    (number_value(second), number_value(first))
                }
            } else if sign == '+' {
                (number_value(first), number_value(first) + number_value(second))
            } else {
                (number_value(first) - number_value(second), number_value(first))
            },
            )
        },
{
    let token = range_token(first, sign, second);
    let end = 1 + first.len() as int;
    assert(token[end] == sign);
    assert forall|i: int| 1 <= i < end implies is_digit(#[trigger] token[i]) by {
        assert(token[i] == first[i - 1]);
    }
    lemma_digit_run_whole(token, 1, end);
    assert(token.subrange(1, end) =~= first);
    assert(token.skip(end + 1) =~= second);
}

/// Two numbers around `.` select the same lines in either order.
pub proof fn lemma_line_range_symmetric(first: Seq<char>, second: Seq<char>)
    requires
        is_number(first),
        is_number(second),
    ensures
        line_range(range_token(first, '.', second)) == line_range(
            range_token(second, '.', first),
        ),
{
    lemma_line_range_of(first, '.', second);
    lemma_line_range_of(second, '.', first);
}

} // verus!
