//! The model of a text: a sequence of characters, cut into lines at every line break.
//!
//! A line is numbered from one. The line with number `n` starts right after the line break
//! with number `n - 1`; the first line starts at offset zero. A text that ends in a line break
//! has no line after that break, yet the offset after the break still starts a line: it is
//! where the next character typed would stand.

use vstd::prelude::*;

verus! {

/// The character that the `Enter` key gives: the line break.
pub const ENTER: char = '\n';

/// The character that the `Backspace` key gives.
pub const BACKSPACE: char = '\u{8}';

/// The character that the `Esc` key gives.
pub const ESC: char = '\u{1b}';

/// The number of line breaks in `text`.
pub open spec fn newline_count(text: Seq<char>) -> nat
    decreases text.len(),
{
    if text.len() == 0 {
        0
    } else {
        newline_count(text.drop_last()) + if text.last() == ENTER {
            1nat
        } else {
            0nat
        }
    }
}

/// Tells whether no line break stands in `text` from offset `from` up to, not including, `to`.
pub open spec fn unbroken(text: Seq<char>, from: int, to: int) -> bool {
    forall|i: int| from <= i < to ==> #[trigger] text[i] != ENTER
}

/// Tells whether line `line` of `text` starts at offset `start`: the offset is zero or follows
/// a line break, and `line - 1` line breaks come before it.
pub open spec fn begins_line(text: Seq<char>, start: int, line: int) -> bool {
    &&& 0 <= start <= text.len()
    &&& (start == 0 || text[start - 1] == ENTER)
    &&& newline_count(text.take(start)) + 1 == line
}

/// The offset at which line `line` of `text` starts, or `None` where `text` has fewer than
/// `line - 1` line breaks.
pub open spec fn line_start(text: Seq<char>, line: int) -> Option<int> {
    if exists|start: int| begins_line(text, start, line) {
        Some(choose|start: int| begins_line(text, start, line))
    } else {
        None
    }
}

/// The offset of the first line break of `text` at or after `from`, or the length of `text`
/// where there is none.
pub open spec fn line_end(text: Seq<char>, from: int) -> int
    decreases text.len() - from,
{
    if from < 0 || from >= text.len() || text[from] == ENTER {
        from
    } else {
        line_end(text, from + 1)
    }
}

/// The number of characters in line `line` of `text`, its line break not counted; zero where
/// the line does not start anywhere.
pub open spec fn line_length(text: Seq<char>, line: int) -> int {
    match line_start(text, line) {
        Some(start) => line_end(text, start) - start,
        None => 0,
    }
}

/// The characters of line `line` of `text`, its line break left out.
pub open spec fn line_text(text: Seq<char>, line: int) -> Seq<char> {
    match line_start(text, line) {
        Some(start) => text.subrange(start, line_end(text, start)),
        None => Seq::empty(),
    }
}

/// The number of lines of `text`: one for each line break, and one more where characters
/// follow the last line break.
pub open spec fn line_count(text: Seq<char>) -> nat {
    if text.len() > 0 && text.last() != ENTER {
        newline_count(text) + 1
    } else {
        newline_count(text)
    }
}

/// The lines of `text`, in order.
pub open spec fn lines(text: Seq<char>) -> Seq<Seq<char>> {
    Seq::new(line_count(text), |i: int| line_text(text, i + 1))
}

/// The number of line breaks of two texts put together is the sum of their numbers.
pub proof fn lemma_newline_count_concat(a: Seq<char>, b: Seq<char>)
    ensures
        newline_count(a + b) == newline_count(a) + newline_count(b),
    decreases b.len(),
{
    if b.len() == 0 {
        assert(a + b =~= a);
    } else {
        assert((a + b).drop_last() =~= a + b.drop_last());
        assert((a + b).last() == b.last());
        lemma_newline_count_concat(a, b.drop_last());
    }
}

/// A single character counts as one line break if it is one, else as none.
pub proof fn lemma_newline_count_single(c: char)
    ensures
        newline_count(seq![c]) == if c == ENTER {
            1nat
        } else {
            0nat
        },
{
    assert(seq![c].drop_last() =~= Seq::<char>::empty());
    assert(newline_count(seq![c].drop_last()) == 0);
}

/// A longer prefix holds at least as many line breaks as a shorter one.
pub proof fn lemma_newline_count_prefix(text: Seq<char>, i: int, j: int)
    requires
        0 <= i <= j <= text.len(),
    ensures
        newline_count(text.take(i)) <= newline_count(text.take(j)),
        newline_count(text.take(j)) == newline_count(text.take(i)) + newline_count(
            text.subrange(i, j),
        ),
        newline_count(text.take(j)) <= newline_count(text),
{
    assert(text.take(j) =~= text.take(i) + text.subrange(i, j));
    lemma_newline_count_concat(text.take(i), text.subrange(i, j));
    assert(text =~= text.take(j) + text.skip(j));
    lemma_newline_count_concat(text.take(j), text.skip(j));
}

/// A stretch without a line break adds none to the count.
pub proof fn lemma_unbroken_count(text: Seq<char>, from: int, to: int)
    requires
        0 <= from <= to <= text.len(),
        unbroken(text, from, to),
    ensures
        newline_count(text.take(to)) == newline_count(text.take(from)),
    decreases to - from,
{
    if from < to {
        assert(text.take(to).drop_last() =~= text.take(to - 1));
        assert(text.take(to).last() == text[to - 1]);
        lemma_unbroken_count(text, from, to - 1);
    }
}

/// A prefix that ends in a line break holds one more than the prefix before that break.
pub proof fn lemma_break_count(text: Seq<char>, at: int)
    requires
        0 <= at < text.len(),
    ensures
        newline_count(text.take(at + 1)) == newline_count(text.take(at)) + if text[at] == ENTER {
            1nat
        } else {
            0nat
        },
{
    assert(text.take(at + 1).drop_last() =~= text.take(at));
    assert(text.take(at + 1).last() == text[at]);
}

/// A line starts at one offset only.
pub proof fn lemma_begins_line_unique(text: Seq<char>, first: int, second: int, line: int)
    requires
        begins_line(text, first, line),
        begins_line(text, second, line),
    ensures
        first == second,
{
    if first < second {
        lemma_break_count(text, second - 1);
        lemma_newline_count_prefix(text, first, second - 1);
    } else if second < first {
        lemma_break_count(text, first - 1);
        lemma_newline_count_prefix(text, second, first - 1);
    }
}

/// Where a line starts at an offset, that offset is its start.
pub proof fn lemma_line_start_is(text: Seq<char>, start: int, line: int)
    requires
        begins_line(text, start, line),
    ensures
        line_start(text, line) == Some(start),
{
    let chosen = choose|s: int| begins_line(text, s, line);
    lemma_begins_line_unique(text, start, chosen, line);
}

/// The start of a line is an offset at which the line starts.
pub proof fn lemma_line_start_begins(text: Seq<char>, line: int)
    requires
        line_start(text, line) is Some,
    ensures
        begins_line(text, line_start(text, line)->0, line),
{
}

/// The first line starts at offset zero.
pub proof fn lemma_first_line_start(text: Seq<char>)
    ensures
        line_start(text, 1) == Some(0int),
{
    assert(text.take(0) =~= Seq::<char>::empty());
    assert(begins_line(text, 0, 1));
    lemma_line_start_is(text, 0, 1);
}

/// A line that starts somewhere has a number between one and the number of line breaks plus
/// one.
pub proof fn lemma_line_start_range(text: Seq<char>, line: int)
    requires
        line_start(text, line) is Some,
    ensures
        1 <= line <= newline_count(text) + 1,
{
    lemma_newline_count_prefix(text, 0, line_start(text, line)->0);
}

/// The end of a line lies between its start and the end of the text, no line break stands
/// before it, and a line break stands at it unless the text ends there.
pub proof fn lemma_line_end(text: Seq<char>, from: int)
    requires
        0 <= from <= text.len(),
    ensures
        from <= line_end(text, from) <= text.len(),
        unbroken(text, from, line_end(text, from)),
        line_end(text, from) == text.len() || text[line_end(text, from)] == ENTER,
    decreases text.len() - from,
{
    if from < text.len() && text[from] != ENTER {
        lemma_line_end(text, from + 1);
    }
}

/// The first offset after `from` that holds a line break, or ends the text, is the end of the
/// line.
pub proof fn lemma_line_end_is(text: Seq<char>, from: int, end: int)
    requires
        0 <= from <= end <= text.len(),
        unbroken(text, from, end),
        end == text.len() || text[end] == ENTER,
    ensures
        line_end(text, from) == end,
    decreases end - from,
{
    if from < end {
        assert(text[from] != ENTER);
        lemma_line_end_is(text, from + 1, end);
    }
}

/// The line after a line that starts at `start` begins right after that line's end, where a
/// line break stands there.
pub proof fn lemma_next_line_start(text: Seq<char>, start: int, line: int)
    requires
        begins_line(text, start, line),
        line_end(text, start) < text.len(),
    ensures
        begins_line(text, line_end(text, start) + 1, line + 1),
{
    let end = line_end(text, start);
    lemma_line_end(text, start);
    lemma_unbroken_count(text, start, end);
    lemma_break_count(text, end);
}

/// Every line up to the number of lines starts before the end of the text.
pub proof fn lemma_counted_line_starts(text: Seq<char>, line: int)
    requires
        1 <= line <= line_count(text),
    ensures
        line_start(text, line) is Some,
        line_start(text, line)->0 < text.len(),
    decreases line,
{
    if line == 1 {
        lemma_first_line_start(text);
    } else {
        lemma_counted_line_starts(text, line - 1);
        let before = line_start(text, line - 1)->0;
        let end = line_end(text, before);
        lemma_line_end(text, before);
        lemma_unbroken_count(text, before, end);
        if end == text.len() {
            assert(text.take(end) =~= text);
            assert(newline_count(text) == line - 2);
        } else {
            lemma_next_line_start(text, before, line - 1);
            lemma_line_start_is(text, end + 1, line);
            if end + 1 == text.len() {
                assert(text.take(end + 1) =~= text);
                assert(text.last() == ENTER);
            }
        }
    }
}

/// A line that starts before the end of the text is one of the counted lines.
pub proof fn lemma_started_line_counts(text: Seq<char>, line: int)
    requires
        line_start(text, line) is Some,
        line_start(text, line)->0 < text.len(),
    ensures
        1 <= line <= line_count(text),
{
    let start = line_start(text, line)->0;
    lemma_newline_count_prefix(text, 0, start);
    if text.last() == ENTER {
        lemma_newline_count_prefix(text, start, text.len() - 1);
        lemma_break_count(text, text.len() - 1);
        assert(text.take(text.len() as int) =~= text);
    }
}

/// A text holds no more line breaks than characters.
pub proof fn lemma_newline_count_bound(text: Seq<char>)
    ensures
        newline_count(text) <= text.len(),
    decreases text.len(),
{
    if text.len() > 0 {
        lemma_newline_count_bound(text.drop_last());
    }
}

/// A text holds no more lines than characters.
pub proof fn lemma_line_count_bound(text: Seq<char>)
    ensures
        line_count(text) <= text.len(),
{
    lemma_newline_count_bound(text);
    if text.len() > 0 && text.last() != ENTER {
        lemma_newline_count_bound(text.drop_last());
    }
}

/// The start of the line that holds `offset`: the offset after the last line break before
/// `offset`, or zero where there is none.
pub open spec fn line_start_before(text: Seq<char>, offset: int) -> int
    decreases offset,
{
    if offset <= 0 {
        0
    } else if text[offset - 1] == ENTER {
        offset
    } else {
        line_start_before(text, offset - 1)
    }
}

/// The start of the line that holds an offset lies at or before the offset, no line break
/// stands between the two, and the line that starts there has as many line breaks before it
/// as the offset has.
pub proof fn lemma_line_start_before(text: Seq<char>, offset: int)
    requires
        0 <= offset <= text.len(),
    ensures
        0 <= line_start_before(text, offset) <= offset,
        unbroken(text, line_start_before(text, offset), offset),
        begins_line(
            text,
            line_start_before(text, offset),
            (newline_count(text.take(offset)) + 1) as int,
        ),
    decreases offset,
{
    if offset <= 0 {
        assert(text.take(0) =~= Seq::<char>::empty());
    } else if text[offset - 1] == ENTER {
    } else {
        lemma_line_start_before(text, offset - 1);
        lemma_break_count(text, offset - 1);
    }
}

/// Inserting a character adds its line break, if it is one, to every prefix that holds it.
pub proof fn lemma_insert_count(text: Seq<char>, at: int, c: char, upto: int)
    requires
        0 <= at <= upto <= text.len(),
    ensures
        newline_count(text.insert(at, c).take(upto + 1)) == newline_count(text.take(upto)) + if c
            == ENTER {
            1nat
        } else {
            0nat
        },
{
    assert(text.insert(at, c).take(upto + 1) =~= text.take(at) + seq![c] + text.subrange(at, upto));
    lemma_newline_count_concat(text.take(at) + seq![c], text.subrange(at, upto));
    lemma_newline_count_concat(text.take(at), seq![c]);
    lemma_newline_count_single(c);
    lemma_newline_count_prefix(text, at, upto);
}

/// Removing a character takes its line break, if it is one, from every prefix that held it.
pub proof fn lemma_remove_count(text: Seq<char>, at: int, upto: int)
    requires
        0 <= at < upto <= text.len(),
    ensures
        newline_count(text.remove(at).take(upto - 1)) + if text[at] == ENTER {
            1nat
        } else {
            0nat
        } == newline_count(text.take(upto)),
{
    assert(text.remove(at).take(upto - 1) =~= text.take(at) + text.subrange(at + 1, upto));
    assert(text.take(upto) =~= text.take(at) + seq![text[at]] + text.subrange(at + 1, upto));
    lemma_newline_count_concat(text.take(at), text.subrange(at + 1, upto));
    lemma_newline_count_concat(text.take(at) + seq![text[at]], text.subrange(at + 1, upto));
    lemma_newline_count_concat(text.take(at), seq![text[at]]);
    lemma_newline_count_single(text[at]);
}

/// A line that starts at or before the place of an insertion starts there afterwards.
pub proof fn lemma_insert_keeps_start(text: Seq<char>, at: int, c: char, start: int, line: int)
    requires
        0 <= at <= text.len(),
        begins_line(text, start, line),
        start <= at,
    ensures
        begins_line(text.insert(at, c), start, line),
{
    assert(text.insert(at, c).take(start) =~= text.take(start));
}

/// A line that starts after the place where a character is inserted starts one offset later
/// afterwards, and is one line further down where the character is a line break.
pub proof fn lemma_insert_moves_start(text: Seq<char>, at: int, c: char, start: int, line: int)
    requires
        0 <= at <= text.len(),
        begins_line(text, start, line),
        at < start,
    ensures
        begins_line(
            text.insert(at, c),
            start + 1,
            if c == ENTER {
                line + 1
            } else {
                line
            },
        ),
{
    lemma_insert_count(text, at, c, start);
}

/// A line that starts at or before a removed character starts there afterwards.
pub proof fn lemma_remove_keeps_start(text: Seq<char>, at: int, start: int, line: int)
    requires
        0 <= at < text.len(),
        begins_line(text, start, line),
        start <= at,
    ensures
        begins_line(text.remove(at), start, line),
{
    assert(text.remove(at).take(start) =~= text.take(start));
}

/// A line that starts after a removed character starts one offset earlier afterwards, and is
/// one line further up where the character is a line break. The line that started right
/// after a removed line break is left out: it is joined to the line before.
pub proof fn lemma_remove_moves_start(text: Seq<char>, at: int, start: int, line: int)
    requires
        0 <= at < text.len(),
        begins_line(text, start, line),
        at < start,
        text[at] == ENTER ==> at + 1 < start,
    ensures
        begins_line(
            text.remove(at),
            start - 1,
            if text[at] == ENTER {
                line - 1
            } else {
                line
            },
        ),
{
    lemma_remove_count(text, at, start);
}


} // verus!
