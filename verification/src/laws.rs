//! What holds of the library, whatever the values that it is used with.
//!
//! A mark is anchored in a text where the text gives its position the offset that the mark
//! holds for it. The laws on marks say when a key keeps marks anchored, and how a single
//! edit moves the mark that makes it and the marks that come after it.
//!
//! A key keeps the marks anchored where the key is Enter, where the marks stand on
//! different lines, whatever the key, and where several marks share a line as long as the
//! key breaks and joins no line, or joins lines once below the marks that came before. It
//! does not always do so where Backspace joins lines more than once while several marks
//! stand on one line, or joins a line onto one that an earlier mark has edited: the change
//! of a column is kept for the line on which a mark then stands, and text that comes onto
//! that line later is moved by changes that were not meant for it.
//!
//! The other laws say what a loaded document shows, which sections the line filter keeps of
//! the lines of a document, that each token of a filter expression narrows what the tokens
//! before it selected, that marks put twice on one selection are the same marks, and which
//! mode follows which.

use crate::document::{
    decimal, digit_count, editable, edited, kept, lemma_digit_count, loaded, position_to_offset,
    Buffer, Document,
};
use crate::ui::{whole_row, Drawing, Stroke};
use crate::mark::{
    adjusted, column_sum, lemma_column_sum_concat, lemma_column_sum_single, own_delta, pass,
    Delta, EditClass,
};
use crate::filter::{in_lines, line_filtered, within_lines};
use crate::grammar::{
    is_number, lemma_line_range_of, lemma_single_line, number_value, range_token,
};
use crate::mode::{operations, Mode, Step};
use crate::num::{whole_line, Cursor, Edge, Mark, Position, Span};
use crate::paper::{
    feature_start, filtered, highlighted, marked, narrowed, whole_lines, Sheet,
};
use crate::text::{
    begins_line, lemma_break_count, lemma_insert_count, lemma_insert_keeps_start,
    lemma_insert_moves_start, lemma_line_count_bound, lemma_line_end_is, lemma_line_start_before, lemma_line_start_is,
    lemma_newline_count_bound, lemma_newline_count_prefix, lemma_remove_keeps_start,
    lemma_remove_moves_start, lemma_unbroken_count, line_count, line_length, line_start,
    line_start_before, lines, newline_count, unbroken, BACKSPACE, ENTER, ESC,
};
use vstd::prelude::*;

verus! {

/// Tells whether `cursor` is anchored in `text`: its offset is valid, and it is the offset
/// that `text` gives to its position.
pub open spec fn anchored(text: Seq<char>, cursor: Cursor) -> bool {
    &&& cursor.offset is Some
    &&& 0 <= cursor.position.column
    &&& position_to_offset(text, cursor.position) == cursor.offset
}

/// Tells whether `cursor` is settled in `text`: it is anchored there, and its offset lies on
/// its line, at or before the end of the text.
pub open spec fn settled(text: Seq<char>, cursor: Cursor) -> bool {
    &&& anchored(text, cursor)
    &&& cursor.offset->0 <= text.len()
    &&& unbroken(text, cursor.offset->0 - cursor.position.column, cursor.offset->0)
}

/// Tells whether the offsets of `marks` are valid and never decrease.
pub open spec fn ordered(marks: Seq<Cursor>) -> bool {
    forall|i: int, j: int|
        0 <= i <= j < marks.len() ==> (#[trigger] marks[i]).offset is Some && (
        #[trigger] marks[j]).offset is Some && marks[i].offset->0 <= marks[j].offset->0
}

/// An anchored cursor stands on a line that starts at its offset less its column.
pub proof fn lemma_anchor(text: Seq<char>, cursor: Cursor)
    requires
        anchored(text, cursor),
    ensures
        begins_line(text, cursor.offset->0 - cursor.position.column, cursor.position.line),
        cursor.position.column <= cursor.offset->0,
        1 <= cursor.position.line <= text.len() + 1,
{
    crate::text::lemma_line_start_begins(text, cursor.position.line);
    let start = cursor.offset->0 - cursor.position.column;
    lemma_newline_count_prefix(text, 0, start);
    lemma_newline_count_bound(text);
}

/// A cursor whose line starts at its offset less its column is anchored.
pub proof fn lemma_anchored(text: Seq<char>, cursor: Cursor)
    requires
        cursor.offset is Some,
        0 <= cursor.position.column,
        begins_line(text, cursor.offset->0 - cursor.position.column, cursor.position.line),
    ensures
        anchored(text, cursor),
{
    lemma_line_start_is(text, cursor.offset->0 - cursor.position.column, cursor.position.line);
}

/// Of two settled cursors, the one with the smaller offset stands on the line that starts
/// first; the two stand on one line exactly where their lines start at one offset.
pub proof fn lemma_settled_order(text: Seq<char>, first: Cursor, second: Cursor)
    requires
        settled(text, first),
        settled(text, second),
        first.offset->0 <= second.offset->0,
    ensures
        first.offset->0 - first.position.column <= second.offset->0 - second.position.column,
        first.position.line == second.position.line <==> first.offset->0 - first.position.column
            == second.offset->0 - second.position.column,
        first.position.line != second.position.line ==> first.offset->0 < second.offset->0
            - second.position.column,
{
    lemma_anchor(text, first);
    lemma_anchor(text, second);
    let a = first.offset->0 - first.position.column;
    let b = second.offset->0 - second.position.column;
    if b < a {
        assert(text[a - 1] == ENTER);
    }
    if a == b {
    } else {
        assert(a < b);
        assert(text[b - 1] == ENTER);
        if first.position.line == second.position.line {
            crate::text::lemma_begins_line_unique(text, a, b, first.position.line);
        }
    }
}

/// Pressing Enter at a mark moves the mark to column zero of the next line and asks for the
/// screen to be drawn anew.
///
/// This holds of every mark at which the key changes the text, as long as the next line and
/// the next offset are numbers that a machine word holds.
pub proof fn lemma_line_break(mark: Mark, text: Seq<char>)
    requires
        editable(text, mark@.offset, ENTER),
        mark@.position.line < usize::MAX,
        mark@.offset->0 < usize::MAX,
        mark@.position.column <= isize::MAX,
    ensures
        own_delta(ENTER, mark@, text).class == Some(EditClass::LineBreak),
        adjusted(mark@, own_delta(ENTER, mark@, text)) == (Cursor {
            position: Position { line: mark@.position.line + 1, column: 0 },
            offset: Some(mark@.offset->0 + 1),
        }),
{
    let own = own_delta(ENTER, mark@, text);
    crate::num::LineNumber::lemma_range(mark.place.line);
    lemma_column_sum_single(own.columns[0], mark@.position.line + 1);
    assert(own.columns =~= seq![own.columns[0]]);
}

/// Backspace at column zero of a line other than the first moves the mark to the line
/// before, to the column that is the length which that line had, and asks for the screen to
/// be drawn anew.
///
/// This holds of every mark at which the key changes the text, as long as the length of the
/// line before is a number that a signed machine word holds.
pub proof fn lemma_backspace_merge(mark: Mark, text: Seq<char>)
    requires
        editable(text, mark@.offset, BACKSPACE),
        mark@.position.column == 0,
        mark@.position.line > 1,
        line_length(text, mark@.position.line - 1) <= isize::MAX,
    ensures
        own_delta(BACKSPACE, mark@, text).class == Some(EditClass::LineBreak),
        adjusted(mark@, own_delta(BACKSPACE, mark@, text)) == (Cursor {
            position: Position {
                line: mark@.position.line - 1,
                column: line_length(text, mark@.position.line - 1),
            },
            offset: Some(mark@.offset->0 - 1),
        }),
{
    let own = own_delta(BACKSPACE, mark@, text);
    crate::num::LineNumber::lemma_range(mark.place.line);
    lemma_column_sum_single(own.columns[0], mark@.position.line - 1);
    assert(own.columns =~= seq![own.columns[0]]);
    lemma_line_length_range(text, mark@.position.line - 1);
}

/// The length of a line lies between zero and the length of the text.
pub proof fn lemma_line_length_range(text: Seq<char>, line: int)
    ensures
        0 <= line_length(text, line) <= text.len(),
{
    if line_start(text, line) is Some {
        crate::text::lemma_line_start_begins(text, line);
        crate::text::lemma_line_end(text, line_start(text, line)->0);
    }
}

/// Inserting a character at a mark moves every mark further along the same line on by one:
/// its column and its offset grow by one, and its line stays.
///
/// The key is one that inserts its character and breaks no line. The law holds as long as
/// the grown column and offset are numbers that a machine word holds.
pub proof fn lemma_mark_shift(first: Mark, second: Mark, input: char, text: Seq<char>)
    requires
        input != ENTER,
        input != BACKSPACE,
        editable(text, first@.offset, input),
        first@.position.line == second@.position.line,
        first@.position.column < second@.position.column,
        second@.offset is Some,
        second@.offset->0 < usize::MAX,
        second@.position.column < usize::MAX,
    ensures
        own_delta(input, first@, text).class == Some(EditClass::Insert(input)),
        adjusted(second@, own_delta(input, first@, text)) == (Cursor {
            position: Position {
                line: second@.position.line,
                column: second@.position.column + 1,
            },
            offset: Some(second@.offset->0 + 1),
        }),
{
    let own = own_delta(input, first@, text);
    crate::num::LineNumber::lemma_range(first.place.line);
    crate::num::LineNumber::lemma_range(second.place.line);
    lemma_column_sum_single(own.columns[0], second@.position.line);
    assert(own.columns =~= seq![own.columns[0]]);
}

/// The offset at which the line of `cursor` starts, where the cursor is anchored.
pub open spec fn start_of(cursor: Cursor) -> int {
    cursor.offset->0 - cursor.position.column
}

/// The cursor moved by `delta` where every number stays in range.
pub open spec fn raw(cursor: Cursor, delta: Delta) -> Cursor {
    Cursor {
        position: Position {
            line: cursor.position.line + delta.line,
            column: cursor.position.column + delta.column_at(cursor.position.line + delta.line),
        },
        offset: Some(cursor.offset->0 + delta.offset),
    }
}

/// Where the numbers of the moved cursor are in range, the cursor is moved to them.
pub proof fn lemma_adjusted_raw(cursor: Cursor, delta: Delta)
    requires
        cursor.offset is Some,
        0 <= raw(cursor, delta).offset->0 <= usize::MAX,
        1 <= raw(cursor, delta).position.line <= usize::MAX,
        0 <= raw(cursor, delta).position.column <= usize::MAX,
    ensures
        adjusted(cursor, delta) == raw(cursor, delta),
{
}

/// A key keeps a settled mark settled: after the key was applied at the mark, the text gives
/// the new position of the mark the new offset of the mark.
///
/// This holds of every key, also of those that break or join lines, for a text whose length
/// a signed machine word holds with room for one more character.
pub proof fn lemma_edit_keeps_mark(text: Seq<char>, cursor: Cursor, input: char)
    requires
        settled(text, cursor),
        text.len() < isize::MAX,
    ensures
        settled(edited(text, cursor.offset, input), adjusted(cursor, own_delta(input, cursor, text))),
        own_delta(input, cursor, text).class != Some(EditClass::LineBreak) ==> start_of(
            adjusted(cursor, own_delta(input, cursor, text)),
        ) == start_of(cursor),
        adjusted(cursor, own_delta(input, cursor, text)).position.line == cursor.position.line
            + own_delta(input, cursor, text).line,
        -1 <= own_delta(input, cursor, text).line <= 1,
        -1 <= own_delta(input, cursor, text).offset <= 1,
        edited(text, cursor.offset, input).len() == text.len() + own_delta(
            input,
            cursor,
            text,
        ).offset,
        forall|e: int|
            0 <= e < own_delta(input, cursor, text).columns.len() ==> (#[trigger] own_delta(
                input,
                cursor,
                text,
            ).columns[e]).0 == cursor.position.line + own_delta(input, cursor, text).line,
{
    lemma_anchor(text, cursor);
    let p = cursor.offset->0;
    let column = cursor.position.column;
    let line = cursor.position.line;
    let start = p - column;
    let own = own_delta(input, cursor, text);
    let after = edited(text, cursor.offset, input);
    let moved = adjusted(cursor, own);
    if !editable(text, cursor.offset, input) {
        assert(column_sum(Seq::<(int, int)>::empty(), line) == 0);
        assert(moved == cursor);
    } else if input == BACKSPACE {
        if column == 0 && line > 1 {
            let above = line_start_before(text, p - 1);
            lemma_line_start_before(text, p - 1);
            lemma_break_count(text, p - 1);
            lemma_line_start_is(text, above, line - 1);
            lemma_line_end_is(text, above, p - 1);
            assert(line_length(text, line - 1) == p - 1 - above);
            assert(own.columns =~= seq![own.columns[0]]);
            lemma_column_sum_single(own.columns[0], line - 1);
            lemma_remove_keeps_start(text, p - 1, above, line - 1);
            assert(moved == Cursor {
                position: Position { line: line - 1, column: p - 1 - above },
                offset: Some(p - 1),
            });
            lemma_anchored(after, moved);
            assert forall|i: int| above <= i < p - 1 implies #[trigger] after[i] != ENTER by {
                assert(after[i] == text[i]);
            }
        } else {
            if column == 0 {
                lemma_break_count(text, p - 1);
                lemma_newline_count_prefix(text, 0, p - 1);
                assert(false);
            }
            assert(own.columns =~= seq![own.columns[0]]);
            lemma_column_sum_single(own.columns[0], line);
            lemma_remove_keeps_start(text, p - 1, start, line);
            assert(moved == Cursor {
                position: Position { line, column: column - 1 },
                offset: Some(p - 1),
            });
            lemma_anchored(after, moved);
            assert forall|i: int| start <= i < p - 1 implies #[trigger] after[i] != ENTER by {
                assert(after[i] == text[i]);
            }
        }
    } else if input == ENTER {
        lemma_insert_count(text, p, ENTER, p);
        lemma_unbroken_count(text, start, p);
        assert(own.columns =~= seq![own.columns[0]]);
        lemma_column_sum_single(own.columns[0], line + 1);
        assert(moved == Cursor {
            position: Position { line: line + 1, column: 0 },
            offset: Some(p + 1),
        });
        assert(after[p] == ENTER);
        lemma_anchored(after, moved);
    } else {
        lemma_insert_keeps_start(text, p, input, start, line);
        assert(own.columns =~= seq![own.columns[0]]);
        lemma_column_sum_single(own.columns[0], line);
        assert(moved == Cursor {
            position: Position { line, column: column + 1 },
            offset: Some(p + 1),
        });
        lemma_anchored(after, moved);
        assert forall|i: int| start <= i < p + 1 implies #[trigger] after[i] != ENTER by {
            if i < p {
                assert(after[i] == text[i]);
            }
        }
    }
}

/// An edit that breaks and joins no line keeps a mark settled that comes after the mark at
/// which the edit is made, once that later mark is moved by the adjustment of the edit.
pub proof fn lemma_edit_keeps_later_mark(text: Seq<char>, cursor: Cursor, later: Cursor, input: char)
    requires
        settled(text, cursor),
        settled(text, later),
        cursor.offset->0 <= later.offset->0,
        own_delta(input, cursor, text).class != Some(EditClass::LineBreak),
        text.len() < isize::MAX,
    ensures
        settled(edited(text, cursor.offset, input), raw(later, own_delta(input, cursor, text))),
        start_of(cursor) <= start_of(raw(later, own_delta(input, cursor, text))),
{
    lemma_anchor(text, cursor);
    lemma_anchor(text, later);
    lemma_settled_order(text, cursor, later);
    let p = cursor.offset->0;
    let column = cursor.position.column;
    let line = cursor.position.line;
    let start = p - column;
    let q = later.offset->0;
    let later_start = start_of(later);
    let own = own_delta(input, cursor, text);
    let after = edited(text, cursor.offset, input);
    let moved = raw(later, own);
    if !editable(text, cursor.offset, input) {
        assert(column_sum(Seq::<(int, int)>::empty(), later.position.line) == 0);
        assert(moved == later);
    } else if input == BACKSPACE {
        if column == 0 {
            lemma_break_count(text, p - 1);
            lemma_newline_count_prefix(text, 0, p - 1);
            assert(false);
        }
        assert(text[p - 1] != ENTER);
        assert(own.columns =~= seq![own.columns[0]]);
        lemma_column_sum_single(own.columns[0], later.position.line);
        if later.position.line == line {
            lemma_remove_keeps_start(text, p - 1, start, line);
            lemma_anchored(after, moved);
            assert forall|i: int| start <= i < q - 1 implies #[trigger] after[i] != ENTER by {
                if i < p - 1 {
                    assert(after[i] == text[i]);
                } else {
                    assert(after[i] == text[i + 1]);
                }
            }
        } else {
            lemma_remove_moves_start(text, p - 1, later_start, later.position.line);
            lemma_anchored(after, moved);
            assert forall|i: int| later_start - 1 <= i < q - 1 implies #[trigger] after[i]
                != ENTER by {
                assert(after[i] == text[i + 1]);
            }
        }
    } else {
        assert(input != ENTER);
        assert(own.columns =~= seq![own.columns[0]]);
        lemma_column_sum_single(own.columns[0], later.position.line);
        if later.position.line == line {
            lemma_insert_keeps_start(text, p, input, start, line);
            lemma_anchored(after, moved);
            assert forall|i: int| start <= i < q + 1 implies #[trigger] after[i] != ENTER by {
                if i < p {
                    assert(after[i] == text[i]);
                } else if i > p {
                    assert(after[i] == text[i - 1]);
                }
            }
        } else {
            lemma_insert_moves_start(text, p, input, later_start, later.position.line);
            lemma_anchored(after, moved);
            assert forall|i: int| later_start + 1 <= i < q + 1 implies #[trigger] after[i]
                != ENTER by {
                assert(after[i] == text[i - 1]);
            }
        }
    }
}

/// An edit that breaks and joins no line keeps a mark anchored whose line starts at or
/// before the line of the mark at which the edit is made.
pub proof fn lemma_edit_keeps_earlier_mark(
    text: Seq<char>,
    cursor: Cursor,
    earlier: Cursor,
    input: char,
)
    requires
        settled(text, cursor),
        anchored(text, earlier),
        start_of(earlier) <= start_of(cursor),
        own_delta(input, cursor, text).class != Some(EditClass::LineBreak),
    ensures
        anchored(edited(text, cursor.offset, input), earlier),
{
    lemma_anchor(text, cursor);
    lemma_anchor(text, earlier);
    let p = cursor.offset->0;
    let after = edited(text, cursor.offset, input);
    if !editable(text, cursor.offset, input) {
    } else if input == BACKSPACE {
        if cursor.position.column == 0 {
            lemma_break_count(text, p - 1);
            lemma_newline_count_prefix(text, 0, p - 1);
            assert(false);
        }
        lemma_remove_keeps_start(text, p - 1, start_of(earlier), earlier.position.line);
        lemma_anchored(after, earlier);
    } else {
        lemma_insert_keeps_start(text, p, input, start_of(earlier), earlier.position.line);
        lemma_anchored(after, earlier);
    }
}


/// What holds after the first `count` marks of a pass while the total has moved the lines
/// by `lines`: the marks passed are anchored in the text and their lines start no later than
/// those of the marks to come, and each mark to come, moved by the total, is settled.
pub open spec fn steady(
    buffer: Buffer,
    marks: Seq<Cursor>,
    input: char,
    count: int,
    lines: int,
) -> bool {
    let state = pass(buffer, marks, input, count);
    &&& state.marks.len() == marks.len()
    &&& state.text.len() <= buffer.text.len() + count
    &&& state.total.line == lines
    &&& -count <= state.total.offset <= count
    &&& forall|j: int| 0 <= j < count ==> anchored(state.text, #[trigger] state.marks[j])
    &&& forall|j: int, i: int|
        0 <= j < count <= i < marks.len() ==> start_of(#[trigger] state.marks[j]) <= start_of(
            raw(#[trigger] marks[i], state.total),
        )
    &&& forall|i: int|
        count <= i < marks.len() ==> state.marks[i] == #[trigger] marks[i] && settled(
            state.text,
            raw(marks[i], state.total),
        )
}

/// What holds after the first `count` marks of a pass, as long as no line was broken or
/// joined: the pass is steady, and the lines have not moved.
pub open spec fn sound(buffer: Buffer, marks: Seq<Cursor>, input: char, count: int) -> bool {
    pass(buffer, marks, input, count).total.class != Some(EditClass::LineBreak) ==> steady(
        buffer,
        marks,
        input,
        count,
        0,
    )
}

/// A steady pass stays steady over a mark whose edit breaks and joins no line.
#[verifier::rlimit(60)]
pub proof fn lemma_steady_step(
    buffer: Buffer,
    marks: Seq<Cursor>,
    input: char,
    count: int,
    lines: int,
)
    requires
        ordered(marks),
        buffer.text.len() + marks.len() < isize::MAX,
        1 <= count <= marks.len(),
        -1 <= lines <= 0,
        steady(buffer, marks, input, count - 1, lines),
        own_delta(
            input,
            adjusted(
                pass(buffer, marks, input, count - 1).marks[count - 1],
                pass(buffer, marks, input, count - 1).total,
            ),
            pass(buffer, marks, input, count - 1).text,
        ).class != Some(EditClass::LineBreak),
    ensures
        steady(buffer, marks, input, count, lines),
{
    let state = pass(buffer, marks, input, count);
    let k = count - 1;
    let before = pass(buffer, marks, input, k);
    let total = before.total;
    let cursor = adjusted(before.marks[k], total);
    let own = own_delta(input, cursor, before.text);
    assert(before.total.plus(own) == state.total);
    assert(before.marks[k] == marks[k]);
    let at = raw(marks[k], total);
    assert(settled(before.text, at));
    lemma_anchor(before.text, at);
    lemma_adjusted_raw(marks[k], total);
    assert(cursor == at);
    lemma_edit_keeps_mark(before.text, cursor, input);
    assert(own.line == 0);
    assert(-1 <= own.offset <= 1);
    assert(state.total.offset == total.offset + own.offset);
    assert(state.total.line == lines);
    assert(state.text.len() <= before.text.len() + 1);
    assert forall|i: int| count <= i < marks.len() implies state.marks[i] == #[trigger] marks[i]
        && settled(state.text, raw(marks[i], state.total)) && start_of(cursor) <= start_of(
        raw(marks[i], state.total),
    ) by {
        let later = raw(marks[i], total);
        assert(settled(before.text, later));
        assert(marks[k].offset->0 <= marks[i].offset->0);
        lemma_edit_keeps_later_mark(before.text, cursor, later, input);
        lemma_column_sum_concat(total.columns, own.columns, marks[i].position.line + lines);
        assert(raw(later, own) == raw(marks[i], state.total));
    }
    assert forall|j: int| 0 <= j < count implies anchored(state.text, #[trigger] state.marks[j]) by {
        if j < k {
            assert(state.marks[j] == before.marks[j]);
            assert(start_of(before.marks[j]) <= start_of(raw(marks[k], total)));
            lemma_edit_keeps_earlier_mark(before.text, cursor, before.marks[j], input);
        }
    }
    assert forall|j: int, i: int| 0 <= j < count <= i < marks.len() implies start_of(
        #[trigger] state.marks[j],
    ) <= start_of(raw(#[trigger] marks[i], state.total)) by {
        if j < k {
            assert(state.marks[j] == before.marks[j]);
            assert(start_of(before.marks[j]) <= start_of(raw(marks[k], total)));
        }
    }
}

/// Every step of a pass over settled marks in the order of their offsets is sound.
pub proof fn lemma_pass_sound(buffer: Buffer, marks: Seq<Cursor>, input: char, count: int)
    requires
        forall|i: int| 0 <= i < marks.len() ==> settled(buffer.text, #[trigger] marks[i]),
        ordered(marks),
        buffer.text.len() + marks.len() < isize::MAX,
        0 <= count <= marks.len(),
    ensures
        sound(buffer, marks, input, count),
    decreases count,
{
    let state = pass(buffer, marks, input, count);
    if count == 0 {
        assert forall|i: int| 0 <= i < marks.len() implies raw(#[trigger] marks[i], state.total)
            == marks[i] by {
            assert(column_sum(Seq::<(int, int)>::empty(), marks[i].position.line) == 0);
        }
    } else if state.total.class != Some(EditClass::LineBreak) {
        let k = count - 1;
        lemma_pass_sound(buffer, marks, input, k);
        let before = pass(buffer, marks, input, k);
        let own = own_delta(input, adjusted(before.marks[k], before.total), before.text);
        assert(before.total.plus(own) == state.total);
        assert(before.total.class != Some(EditClass::LineBreak));
        assert(own.class != Some(EditClass::LineBreak));
        lemma_steady_step(buffer, marks, input, count, 0);
    }
}

/// A key that breaks and joins no line keeps marks anchored: where each mark is settled in
/// the text before the pass and the marks stand in the order of their offsets, the text
/// after the pass gives the position of every mark the offset that the mark holds.
///
/// The law speaks of passes whose total does not ask for the screen to be drawn anew, and of
/// texts and marks few enough for a signed machine word to count them together.
pub proof fn lemma_pass_keeps_marks(buffer: Buffer, marks: Seq<Cursor>, input: char)
    requires
        forall|i: int| 0 <= i < marks.len() ==> settled(buffer.text, #[trigger] marks[i]),
        ordered(marks),
        buffer.text.len() + marks.len() < isize::MAX,
    ensures
        pass(buffer, marks, input, marks.len() as int).total.class != Some(EditClass::LineBreak)
            ==> forall|i: int|
            0 <= i < marks.len() ==> {
                let mark = #[trigger] pass(buffer, marks, input, marks.len() as int).marks[i];
                mark.offset is Some && position_to_offset(
                    pass(buffer, marks, input, marks.len() as int).text,
                    mark.position,
                ) == mark.offset
            },
{
    lemma_pass_sound(buffer, marks, input, marks.len() as int);
}

/// A key keeps a single settled mark anchored, whatever the key is: after the pass the text
/// gives the position of the mark the offset that the mark holds.
pub proof fn lemma_pass_keeps_single_mark(buffer: Buffer, mark: Cursor, input: char)
    requires
        settled(buffer.text, mark),
        buffer.text.len() < isize::MAX,
    ensures
        settled(pass(buffer, seq![mark], input, 1).text, pass(buffer, seq![mark], input, 1).marks[0]),
        position_to_offset(
            pass(buffer, seq![mark], input, 1).text,
            pass(buffer, seq![mark], input, 1).marks[0].position,
        ) == pass(buffer, seq![mark], input, 1).marks[0].offset,
{
    let marks = seq![mark];
    let before = pass(buffer, marks, input, 0);
    assert(column_sum(Seq::<(int, int)>::empty(), mark.position.line) == 0);
    lemma_anchor(buffer.text, mark);
    assert(adjusted(mark, Delta::zero()) == mark);
    lemma_edit_keeps_mark(buffer.text, mark, input);
}


/// Tells whether the marks stand on different lines, each further down than the one before.
pub open spec fn apart(marks: Seq<Cursor>) -> bool {
    forall|i: int, j: int|
        0 <= i < j < marks.len() ==> (#[trigger] marks[i]).position.line < (
        #[trigger] marks[j]).position.line
}

/// The cursor carried along by an edit with the adjustment `delta` that was made on a line
/// above its own: its offset and its line change as `delta` says, and its column stays.
pub open spec fn carried(cursor: Cursor, delta: Delta) -> Cursor {
    Cursor {
        position: Position {
            line: cursor.position.line + delta.line,
            column: cursor.position.column,
        },
        offset: Some(cursor.offset->0 + delta.offset),
    }
}

/// A settled cursor holds an offset before the start of every line below its own.
pub proof fn lemma_lines_apart(text: Seq<char>, upper: Cursor, lower: Cursor)
    requires
        settled(text, upper),
        anchored(text, lower),
        upper.position.line < lower.position.line,
    ensures
        upper.offset->0 < start_of(lower),
{
    lemma_anchor(text, upper);
    lemma_anchor(text, lower);
    let a = start_of(upper);
    let p = upper.offset->0;
    let b = start_of(lower);
    if b <= p {
        if a <= b {
            lemma_newline_count_prefix(text, b, p);
            lemma_unbroken_count(text, a, p);
        } else {
            lemma_newline_count_prefix(text, b, a);
        }
        assert(false);
    }
}

/// Entries that all speak of other lines change no column of `line`.
pub proof fn lemma_column_sum_none(entries: Seq<(int, int)>, line: int)
    requires
        forall|e: int| 0 <= e < entries.len() ==> (#[trigger] entries[e]).0 != line,
    ensures
        column_sum(entries, line) == 0,
    decreases entries.len(),
{
    if entries.len() > 0 {
        lemma_column_sum_none(entries.drop_last(), line);
    }
}

/// An edit keeps a mark settled that stands on a line below the line of the mark at which
/// the edit is made, once that lower mark is carried along by the adjustment of the edit.
/// This holds of every key, also of those that break or join lines.
pub proof fn lemma_edit_keeps_lower_mark(text: Seq<char>, cursor: Cursor, later: Cursor, input: char)
    requires
        settled(text, cursor),
        settled(text, later),
        cursor.position.line < later.position.line,
        text.len() < isize::MAX,
    ensures
        settled(edited(text, cursor.offset, input), carried(later, own_delta(input, cursor, text))),
{
    lemma_anchor(text, cursor);
    lemma_anchor(text, later);
    lemma_lines_apart(text, cursor, later);
    let p = cursor.offset->0;
    let column = cursor.position.column;
    let line = cursor.position.line;
    let q = later.offset->0;
    let below = start_of(later);
    let own = own_delta(input, cursor, text);
    let after = edited(text, cursor.offset, input);
    let moved = carried(later, own);
    if !editable(text, cursor.offset, input) {
        assert(moved == later);
    } else if input == BACKSPACE {
        if column == 0 && line <= 1 {
            lemma_break_count(text, p - 1);
            lemma_newline_count_prefix(text, 0, p - 1);
            assert(false);
        }
        lemma_remove_moves_start(text, p - 1, below, later.position.line);
        lemma_anchored(after, moved);
        assert forall|i: int| below - 1 <= i < q - 1 implies #[trigger] after[i] != ENTER by {
            assert(after[i] == text[i + 1]);
        }
    } else {
        lemma_insert_moves_start(text, p, input, below, later.position.line);
        lemma_anchored(after, moved);
        assert forall|i: int| below + 1 <= i < q + 1 implies #[trigger] after[i] != ENTER by {
            assert(after[i] == text[i - 1]);
        }
    }
}

/// An edit keeps a mark settled that stands on a line above the line of the mark at which
/// the edit is made. This holds of every key, also of those that break or join lines.
pub proof fn lemma_edit_keeps_upper_mark(text: Seq<char>, cursor: Cursor, earlier: Cursor, input: char)
    requires
        settled(text, cursor),
        settled(text, earlier),
        earlier.position.line < cursor.position.line,
    ensures
        settled(edited(text, cursor.offset, input), earlier),
{
    lemma_anchor(text, cursor);
    lemma_anchor(text, earlier);
    lemma_lines_apart(text, earlier, cursor);
    let p = cursor.offset->0;
    let r = earlier.offset->0;
    let above = start_of(earlier);
    let after = edited(text, cursor.offset, input);
    if !editable(text, cursor.offset, input) {
    } else if input == BACKSPACE {
        lemma_remove_keeps_start(text, p - 1, above, earlier.position.line);
        lemma_anchored(after, earlier);
        assert forall|i: int| above <= i < r implies #[trigger] after[i] != ENTER by {
            assert(after[i] == text[i]);
        }
    } else {
        lemma_insert_keeps_start(text, p, input, above, earlier.position.line);
        lemma_anchored(after, earlier);
        assert forall|i: int| above <= i < r implies #[trigger] after[i] != ENTER by {
            assert(after[i] == text[i]);
        }
    }
}

/// What holds after the first `count` marks of a pass over marks on different lines: the
/// marks passed are settled in the text and stand above the marks to come, no adjustment
/// made so far speaks of the line of a mark to come, and each mark to come, carried along by
/// the total, is settled.
pub open spec fn sound_apart(buffer: Buffer, marks: Seq<Cursor>, input: char, count: int) -> bool {
    let state = pass(buffer, marks, input, count);
    &&& state.marks.len() == marks.len()
    &&& state.text.len() <= buffer.text.len() + count
    &&& -count <= state.total.line <= count
    &&& -count <= state.total.offset <= count
    &&& forall|j: int| 0 <= j < count ==> settled(state.text, #[trigger] state.marks[j])
    &&& forall|j: int, i: int|
        0 <= j < count <= i < marks.len() ==> (#[trigger] state.marks[j]).position.line < (
        #[trigger] marks[i]).position.line + state.total.line
    &&& forall|e: int, i: int|
        0 <= e < state.total.columns.len() && count <= i < marks.len() ==> (
        #[trigger] state.total.columns[e]).0 < (#[trigger] marks[i]).position.line
            + state.total.line
    &&& forall|i: int|
        count <= i < marks.len() ==> state.marks[i] == #[trigger] marks[i] && settled(
            state.text,
            carried(marks[i], state.total),
        )
}

/// Every step of a pass over settled marks on different lines is sound.
#[verifier::rlimit(60)]
pub proof fn lemma_pass_sound_apart(buffer: Buffer, marks: Seq<Cursor>, input: char, count: int)
    requires
        forall|i: int| 0 <= i < marks.len() ==> settled(buffer.text, #[trigger] marks[i]),
        apart(marks),
        buffer.text.len() + marks.len() < isize::MAX,
        0 <= count <= marks.len(),
    ensures
        sound_apart(buffer, marks, input, count),
    decreases count,
{
    let state = pass(buffer, marks, input, count);
    if count == 0 {
        assert forall|i: int| 0 <= i < marks.len() implies carried(
            #[trigger] marks[i],
            state.total,
        ) == marks[i] by {}
    } else {
        let k = count - 1;
        lemma_pass_sound_apart(buffer, marks, input, k);
        let before = pass(buffer, marks, input, k);
        let total = before.total;
        assert(sound_apart(buffer, marks, input, k));
        assert(before.marks[k] == marks[k]);
        let at = carried(marks[k], total);
        assert(settled(before.text, at));
        lemma_anchor(before.text, at);
        assert forall|e: int| 0 <= e < total.columns.len() implies (#[trigger] total.columns[e]).0
            != at.position.line by {
            assert(total.columns[e].0 < marks[k].position.line + total.line);
        }
        lemma_column_sum_none(total.columns, at.position.line);
        let cursor = adjusted(marks[k], total);
        assert(cursor == at);
        let own = own_delta(input, cursor, before.text);
        lemma_edit_keeps_mark(before.text, cursor, input);
        assert(state.total == total.plus(own));
        assert(state.total.offset == total.offset + own.offset);
        assert(state.total.line == total.line + own.line);
        assert(state.total.columns == total.columns + own.columns);
        assert(state.marks[k] == adjusted(cursor, own));
        assert forall|i: int| count <= i < marks.len() implies state.marks[i] == #[trigger] marks[i]
            && settled(state.text, carried(marks[i], state.total)) by {
            let later = carried(marks[i], total);
            assert(settled(before.text, later));
            assert(marks[k].position.line < marks[i].position.line);
            lemma_edit_keeps_lower_mark(before.text, cursor, later, input);
            assert(carried(later, own) == carried(marks[i], state.total));
        }
        assert forall|j: int| 0 <= j < count implies settled(state.text, #[trigger] state.marks[j]) by {
            if j < k {
                assert(state.marks[j] == before.marks[j]);
                assert(before.marks[j].position.line < marks[k].position.line + total.line);
                lemma_edit_keeps_upper_mark(before.text, cursor, before.marks[j], input);
            }
        }
        assert forall|j: int, i: int| 0 <= j < count <= i < marks.len() implies (
        #[trigger] state.marks[j]).position.line < (#[trigger] marks[i]).position.line
            + state.total.line by {
            assert(marks[k].position.line < marks[i].position.line);
            if j < k {
                assert(state.marks[j] == before.marks[j]);
                assert(before.marks[j].position.line < marks[k].position.line + total.line);
            }
        }
        assert forall|e: int, i: int|
            0 <= e < state.total.columns.len() && count <= i < marks.len() implies (
        #[trigger] state.total.columns[e]).0 < (#[trigger] marks[i]).position.line
            + state.total.line by {
            assert(marks[k].position.line < marks[i].position.line);
            if e < total.columns.len() {
                assert(state.total.columns[e] == total.columns[e]);
                assert(total.columns[e].0 < marks[k].position.line + total.line);
            } else {
                assert(state.total.columns[e] == own.columns[e - total.columns.len()]);
            }
        }
    }
}

/// A key keeps marks on different lines anchored, whatever the key is: where each mark is
/// settled in the text before the pass and each stands on a line further down than the mark
/// before it, every mark is settled in the text after the pass, so that the text gives its
/// position the offset that the mark holds.
///
/// The law speaks of texts and marks few enough for a signed machine word to count them
/// together.
pub proof fn lemma_pass_keeps_marks_apart(buffer: Buffer, marks: Seq<Cursor>, input: char)
    requires
        forall|i: int| 0 <= i < marks.len() ==> settled(buffer.text, #[trigger] marks[i]),
        apart(marks),
        buffer.text.len() + marks.len() < isize::MAX,
    ensures
        forall|i: int|
            0 <= i < marks.len() ==> {
                let mark = #[trigger] pass(buffer, marks, input, marks.len() as int).marks[i];
                settled(pass(buffer, marks, input, marks.len() as int).text, mark)
                    && position_to_offset(
                    pass(buffer, marks, input, marks.len() as int).text,
                    mark.position,
                ) == mark.offset
            },
{
    lemma_pass_sound_apart(buffer, marks, input, marks.len() as int);
}

/// Backspace at column zero of a line other than the first keeps a mark settled that comes
/// after the mark at which the lines are joined, once that later mark is moved by the
/// adjustment of the join: a mark on the joined line moves up with it, behind the text of
/// the line before, and a mark further down moves up one line.
pub proof fn lemma_join_keeps_later_mark(text: Seq<char>, cursor: Cursor, later: Cursor)
    requires
        settled(text, cursor),
        settled(text, later),
        cursor.offset->0 <= later.offset->0,
        cursor.position.column == 0,
        cursor.position.line > 1,
        text.len() < isize::MAX,
    ensures
        own_delta(BACKSPACE, cursor, text).class == Some(EditClass::LineBreak),
        settled(
            edited(text, cursor.offset, BACKSPACE),
            raw(later, own_delta(BACKSPACE, cursor, text)),
        ),
        start_of(adjusted(cursor, own_delta(BACKSPACE, cursor, text))) <= start_of(
            raw(later, own_delta(BACKSPACE, cursor, text)),
        ),
{
    lemma_anchor(text, cursor);
    lemma_anchor(text, later);
    lemma_settled_order(text, cursor, later);
    let p = cursor.offset->0;
    let line = cursor.position.line;
    let q = later.offset->0;
    let below = start_of(later);
    if p == 0 {
        assert(text.take(0) =~= Seq::<char>::empty());
        assert(false);
    }
    let own = own_delta(BACKSPACE, cursor, text);
    let after = edited(text, cursor.offset, BACKSPACE);
    let above = line_start_before(text, p - 1);
    lemma_line_start_before(text, p - 1);
    lemma_break_count(text, p - 1);
    lemma_line_start_is(text, above, line - 1);
    lemma_line_end_is(text, above, p - 1);
    assert(line_length(text, line - 1) == p - 1 - above);
    assert(own.columns =~= seq![own.columns[0]]);
    lemma_column_sum_single(own.columns[0], line - 1);
    lemma_column_sum_single(own.columns[0], later.position.line - 1);
    assert(adjusted(cursor, own) == Cursor {
        position: Position { line: line - 1, column: p - 1 - above },
        offset: Some(p - 1),
    });
    let moved = raw(later, own);
    if later.position.line == line {
        assert(below == p);
        lemma_remove_keeps_start(text, p - 1, above, line - 1);
        lemma_anchored(after, moved);
        assert forall|i: int| above <= i < q - 1 implies #[trigger] after[i] != ENTER by {
            if i < p - 1 {
                assert(after[i] == text[i]);
            } else {
                assert(after[i] == text[i + 1]);
            }
        }
    } else {
        lemma_newline_count_prefix(text, p, below);
        assert(line < later.position.line);
        lemma_lines_apart(text, cursor, later);
        lemma_edit_keeps_lower_mark(text, cursor, later, BACKSPACE);
        assert(moved == carried(later, own));
    }
}

/// Of two anchored cursors, the one on the line further up stands on the line that starts
/// first.
pub proof fn lemma_starts_apart(text: Seq<char>, upper: Cursor, lower: Cursor)
    requires
        anchored(text, upper),
        anchored(text, lower),
        upper.position.line < lower.position.line,
    ensures
        start_of(upper) < start_of(lower),
{
    lemma_anchor(text, upper);
    lemma_anchor(text, lower);
    if start_of(lower) <= start_of(upper) {
        lemma_newline_count_prefix(text, start_of(lower), start_of(upper));
        assert(false);
    }
}

/// Backspace moves lines up or leaves them: after any number of marks the total has moved
/// the lines up by no more than one for each mark, and it asks for the screen to be drawn
/// anew exactly where it has moved them.
pub proof fn lemma_backspace_lines(buffer: Buffer, marks: Seq<Cursor>, count: int)
    requires
        0 <= count <= marks.len(),
        marks.len() < isize::MAX,
    ensures
        -count <= pass(buffer, marks, BACKSPACE, count).total.line <= 0,
        pass(buffer, marks, BACKSPACE, count).total.class == Some(EditClass::LineBreak) <==> pass(
            buffer,
            marks,
            BACKSPACE,
            count,
        ).total.line <= -1,
    decreases count,
{
    if count > 0 {
        lemma_backspace_lines(buffer, marks, count - 1);
        let before = pass(buffer, marks, BACKSPACE, count - 1);
        let cursor = adjusted(before.marks[count - 1], before.total);
        let own = own_delta(BACKSPACE, cursor, before.text);
        assert(pass(buffer, marks, BACKSPACE, count).total == before.total.plus(own));
    }
}

/// As long as Backspace has joined no lines, the marks passed stay on their lines, and the
/// total speaks of their lines alone: where the first `count` marks stand above the line
/// `bound`, so do they afterwards, and so does every line of which the total holds a change.
pub proof fn lemma_lines_above(buffer: Buffer, marks: Seq<Cursor>, count: int, bound: int)
    requires
        forall|i: int| 0 <= i < marks.len() ==> settled(buffer.text, #[trigger] marks[i]),
        ordered(marks),
        buffer.text.len() + marks.len() < isize::MAX,
        0 <= count <= marks.len(),
        forall|j: int| 0 <= j < count ==> (#[trigger] marks[j]).position.line < bound,
    ensures
        pass(buffer, marks, BACKSPACE, count).total.line == 0 ==> {
            &&& forall|j: int|
                0 <= j < count ==> (#[trigger] pass(
                    buffer,
                    marks,
                    BACKSPACE,
                    count,
                ).marks[j]).position.line < bound
            &&& forall|e: int|
                0 <= e < pass(buffer, marks, BACKSPACE, count).total.columns.len() ==> (
                #[trigger] pass(buffer, marks, BACKSPACE, count).total.columns[e]).0 < bound
        },
    decreases count,
{
    let state = pass(buffer, marks, BACKSPACE, count);
    if count > 0 && state.total.line == 0 {
        let k = count - 1;
        let before = pass(buffer, marks, BACKSPACE, k);
        let total = before.total;
        let cursor = adjusted(before.marks[k], total);
        let own = own_delta(BACKSPACE, cursor, before.text);
        assert(state.total == total.plus(own));
        lemma_backspace_lines(buffer, marks, k);
        assert(-1 <= own.line <= 0);
        assert(total.line == 0);
        lemma_lines_above(buffer, marks, k, bound);
        lemma_pass_sound(buffer, marks, BACKSPACE, k);
        assert(steady(buffer, marks, BACKSPACE, k, 0));
        assert(before.marks[k] == marks[k]);
        let at = raw(marks[k], total);
        lemma_anchor(before.text, at);
        lemma_adjusted_raw(marks[k], total);
        assert(cursor == at);
        lemma_edit_keeps_mark(before.text, cursor, BACKSPACE);
        assert(state.marks[k] == adjusted(cursor, own));
        assert forall|j: int| 0 <= j < count implies (#[trigger] state.marks[j]).position.line
            < bound by {
            if j < k {
                assert(state.marks[j] == before.marks[j]);
            }
        }
        assert forall|e: int| 0 <= e < state.total.columns.len() implies (
        #[trigger] state.total.columns[e]).0 < bound by {
            if e < total.columns.len() {
                assert(state.total.columns[e] == total.columns[e]);
            } else {
                assert(state.total.columns[e] == own.columns[e - total.columns.len()]);
            }
        }
    }
}

/// What holds after Backspace was pressed at the first `count` of the marks, one of which
/// has joined its line to the line before: the lines have moved up by at least one, and as
/// long as they have moved up by one alone the pass is steady.
pub open spec fn joined(buffer: Buffer, marks: Seq<Cursor>, count: int) -> bool {
    let state = pass(buffer, marks, BACKSPACE, count);
    &&& -count <= state.total.line <= -1
    &&& state.total.line == -1 ==> steady(buffer, marks, BACKSPACE, count, -1)
}

/// The mark `at` joins its line to the line before, where no mark before it has joined
/// lines and the marks before it stand above the line that it joins onto: the pass is
/// steady afterwards, with the lines moved up by one.
#[verifier::rlimit(80)]
pub proof fn lemma_join_step(buffer: Buffer, marks: Seq<Cursor>, at: int)
    requires
        forall|i: int| 0 <= i < marks.len() ==> settled(buffer.text, #[trigger] marks[i]),
        ordered(marks),
        buffer.text.len() + marks.len() < isize::MAX,
        0 <= at < marks.len(),
        marks[at].position.column == 0,
        marks[at].position.line > 1,
        forall|j: int|
            0 <= j < at ==> (#[trigger] marks[j]).position.line < marks[at].position.line - 1,
        pass(buffer, marks, BACKSPACE, at).total.line == 0,
    ensures
        steady(buffer, marks, BACKSPACE, at + 1, -1),
{
    let count = at + 1;
    let line = marks[at].position.line;
    let state = pass(buffer, marks, BACKSPACE, count);
    let before = pass(buffer, marks, BACKSPACE, at);
    let total = before.total;
    let text = before.text;
    lemma_backspace_lines(buffer, marks, at);
    lemma_pass_sound(buffer, marks, BACKSPACE, at);
    assert(steady(buffer, marks, BACKSPACE, at, 0));
    lemma_lines_above(buffer, marks, at, line - 1);
    assert(before.marks[at] == marks[at]);
    let here = raw(marks[at], total);
    assert(settled(text, here));
    lemma_anchor(text, here);
    assert forall|e: int| 0 <= e < total.columns.len() implies (#[trigger] total.columns[e]).0
        != line by {
        assert(total.columns[e].0 < line - 1);
    }
    lemma_column_sum_none(total.columns, line);
    lemma_adjusted_raw(marks[at], total);
    let cursor = adjusted(marks[at], total);
    assert(cursor == here);
    assert(cursor.position.column == 0);
    let p = cursor.offset->0;
    let own = own_delta(BACKSPACE, cursor, text);
    lemma_join_keeps_later_mark(text, cursor, cursor);
    lemma_edit_keeps_mark(text, cursor, BACKSPACE);
    assert(own.line == -1);
    assert(own.offset == -1);
    assert(state.total == total.plus(own));
    assert(state.total.columns == total.columns + own.columns);
    let after = state.text;
    assert(after == text.remove(p - 1));
    let moved = adjusted(cursor, own);
    assert(state.marks[at] == moved);
    assert(moved.position.line == line - 1);
    assert forall|i: int| count <= i < marks.len() implies state.marks[i] == #[trigger] marks[i]
        && settled(after, raw(marks[i], state.total)) && start_of(moved) <= start_of(
        raw(marks[i], state.total),
    ) by {
        let later = raw(marks[i], total);
        assert(settled(text, later));
        assert(marks[at].offset->0 <= marks[i].offset->0);
        lemma_join_keeps_later_mark(text, cursor, later);
        lemma_settled_order(text, cursor, later);
        lemma_anchor(text, later);
        lemma_newline_count_prefix(text, start_of(cursor), start_of(later));
        let below = marks[i].position.line;
        assert(line <= below);
        assert forall|e: int| 0 <= e < total.columns.len() implies (
        #[trigger] total.columns[e]).0 != below && total.columns[e].0 != below - 1 by {
            assert(total.columns[e].0 < line - 1);
        }
        lemma_column_sum_none(total.columns, below);
        lemma_column_sum_none(total.columns, below - 1);
        lemma_column_sum_concat(total.columns, own.columns, below - 1);
        assert(raw(later, own) == raw(marks[i], state.total));
    }
    assert forall|j: int| 0 <= j < count implies anchored(after, #[trigger] state.marks[j]) by {
        if j < at {
            let earlier = before.marks[j];
            assert(state.marks[j] == earlier);
            assert(earlier.position.line < line - 1);
            lemma_starts_apart(text, earlier, cursor);
            lemma_anchor(text, earlier);
            lemma_remove_keeps_start(text, p - 1, start_of(earlier), earlier.position.line);
            lemma_anchored(after, earlier);
        }
    }
    assert forall|j: int, i: int| 0 <= j < count <= i < marks.len() implies start_of(
        #[trigger] state.marks[j],
    ) <= start_of(raw(#[trigger] marks[i], state.total)) by {
        if j < at {
            let earlier = before.marks[j];
            assert(state.marks[j] == earlier);
            assert(earlier.position.line < line - 1);
            assert(anchored(after, state.marks[j]));
            lemma_starts_apart(after, earlier, moved);
        }
    }
}

/// Every step that follows the one join of a pass of Backspace keeps what [`joined`]
/// states.
pub proof fn lemma_pass_joined(buffer: Buffer, marks: Seq<Cursor>, at: int, count: int)
    requires
        forall|i: int| 0 <= i < marks.len() ==> settled(buffer.text, #[trigger] marks[i]),
        ordered(marks),
        buffer.text.len() + marks.len() < isize::MAX,
        0 <= at < count <= marks.len(),
        marks[at].position.column == 0,
        marks[at].position.line > 1,
        forall|j: int|
            0 <= j < at ==> (#[trigger] marks[j]).position.line < marks[at].position.line - 1,
        pass(buffer, marks, BACKSPACE, at).total.line == 0,
    ensures
        joined(buffer, marks, count),
    decreases count,
{
    let state = pass(buffer, marks, BACKSPACE, count);
    lemma_backspace_lines(buffer, marks, count);
    if count == at + 1 {
        lemma_join_step(buffer, marks, at);
    } else {
        let k = count - 1;
        lemma_pass_joined(buffer, marks, at, k);
        let before = pass(buffer, marks, BACKSPACE, k);
        let cursor = adjusted(before.marks[k], before.total);
        let own = own_delta(BACKSPACE, cursor, before.text);
        assert(state.total == before.total.plus(own));
        assert(-1 <= own.line <= 0);
        if state.total.line == -1 {
            assert(before.total.line == -1);
            assert(own.line == 0);
            assert(own.class != Some(EditClass::LineBreak));
            lemma_steady_step(buffer, marks, BACKSPACE, count, -1);
        }
    }
}

/// Backspace keeps marks anchored where it joins lines once: where each mark is settled in
/// the text before the pass, the marks stand in the order of their offsets, the mark `at`
/// stands at column zero of a line other than the first, the marks before it stand above
/// the line that it joins onto, and no other mark comes to join lines, the text after the
/// pass gives the position of every mark the offset that the mark holds. This holds however
/// many of the marks from `at` on share a line.
///
/// That no other mark joined lines is read off the totals: before the mark `at` the lines
/// have not moved, and after the pass they have moved up by one. The law speaks of texts and
/// marks few enough for a signed machine word to count them together.
pub proof fn lemma_single_join_keeps_marks(buffer: Buffer, marks: Seq<Cursor>, at: int)
    requires
        forall|i: int| 0 <= i < marks.len() ==> settled(buffer.text, #[trigger] marks[i]),
        ordered(marks),
        buffer.text.len() + marks.len() < isize::MAX,
        0 <= at < marks.len(),
        marks[at].position.column == 0,
        marks[at].position.line > 1,
        forall|j: int|
            0 <= j < at ==> (#[trigger] marks[j]).position.line < marks[at].position.line - 1,
    ensures
        pass(buffer, marks, BACKSPACE, at).total.line == 0 && pass(
            buffer,
            marks,
            BACKSPACE,
            marks.len() as int,
        ).total.line == -1 ==> forall|i: int|
            0 <= i < marks.len() ==> {
                let mark = #[trigger] pass(buffer, marks, BACKSPACE, marks.len() as int).marks[i];
                mark.offset is Some && position_to_offset(
                    pass(buffer, marks, BACKSPACE, marks.len() as int).text,
                    mark.position,
                ) == mark.offset
            },
{
    if pass(buffer, marks, BACKSPACE, at).total.line == 0 {
        lemma_pass_joined(buffer, marks, at, marks.len() as int);
    }
}

/// Backspace keeps marks anchored where it joins lines once, at the first mark: where each
/// mark is settled in the text before the pass, the marks stand in the order of their
/// offsets, the first of them stands at column zero of a line other than the first and no
/// other mark comes to join lines, the text after the pass gives the position of every mark
/// the offset that the mark holds. This holds however many marks share a line.
///
/// That no other mark joined lines is read off the total: it moved the lines up by one. The
/// law speaks of texts and marks few enough for a signed machine word to count them
/// together.
pub proof fn lemma_join_keeps_marks(buffer: Buffer, marks: Seq<Cursor>)
    requires
        forall|i: int| 0 <= i < marks.len() ==> settled(buffer.text, #[trigger] marks[i]),
        ordered(marks),
        buffer.text.len() + marks.len() < isize::MAX,
        marks.len() >= 1,
        marks[0].position.column == 0,
        marks[0].position.line > 1,
    ensures
        pass(buffer, marks, BACKSPACE, marks.len() as int).total.class == Some(
            EditClass::LineBreak,
        ),
        pass(buffer, marks, BACKSPACE, marks.len() as int).total.line == -1 ==> forall|i: int|
            0 <= i < marks.len() ==> {
                let mark = #[trigger] pass(buffer, marks, BACKSPACE, marks.len() as int).marks[i];
                mark.offset is Some && position_to_offset(
                    pass(buffer, marks, BACKSPACE, marks.len() as int).text,
                    mark.position,
                ) == mark.offset
            },
{
    lemma_single_join_keeps_marks(buffer, marks, 0);
    lemma_join_class(buffer, marks, marks.len() as int);
}

/// Once the first mark has joined lines, the total of the pass asks for the screen to be
/// drawn anew.
pub proof fn lemma_join_class(buffer: Buffer, marks: Seq<Cursor>, count: int)
    requires
        forall|i: int| 0 <= i < marks.len() ==> settled(buffer.text, #[trigger] marks[i]),
        buffer.text.len() + marks.len() < isize::MAX,
        1 <= count <= marks.len(),
        marks[0].position.column == 0,
        marks[0].position.line > 1,
    ensures
        pass(buffer, marks, BACKSPACE, count).total.class == Some(EditClass::LineBreak),
    decreases count,
{
    let state = pass(buffer, marks, BACKSPACE, count);
    let before = pass(buffer, marks, BACKSPACE, count - 1);
    let cursor = adjusted(before.marks[count - 1], before.total);
    let own = own_delta(BACKSPACE, cursor, before.text);
    assert(state.total == before.total.plus(own));
    if count == 1 {
        let first = marks[0];
        lemma_anchor(buffer.text, first);
        assert(column_sum(Seq::<(int, int)>::empty(), first.position.line) == 0);
        assert(cursor == first);
        lemma_join_keeps_later_mark(buffer.text, first, first);
    } else {
        lemma_join_class(buffer, marks, count - 1);
    }
}

/// Tells whether the offset of `cursor` lies in `text` on the line of the cursor: as many
/// line breaks come before the offset as lines come before that line.
pub open spec fn on_line(text: Seq<char>, cursor: Cursor) -> bool {
    &&& cursor.offset is Some
    &&& 0 <= cursor.offset->0 <= text.len()
    &&& newline_count(text.take(cursor.offset->0)) + 1 == cursor.position.line
}

/// Entries that move no column to the right move no column of `line` to the right.
pub proof fn lemma_column_sum_left(entries: Seq<(int, int)>, line: int)
    requires
        forall|e: int| 0 <= e < entries.len() ==> (#[trigger] entries[e]).1 <= 0,
    ensures
        column_sum(entries, line) <= 0,
    decreases entries.len(),
{
    if entries.len() > 0 {
        lemma_column_sum_left(entries.drop_last(), line);
    }
}

/// What holds after Enter was pressed at the first `count` of the marks: each of them made
/// its line break, the marks passed are settled in the text, and the offset of each mark to
/// come, carried along by the total, lies on its line.
pub open spec fn broken(buffer: Buffer, marks: Seq<Cursor>, count: int) -> bool {
    let state = pass(buffer, marks, ENTER, count);
    &&& state.marks.len() == marks.len()
    &&& state.text.len() == buffer.text.len() + count
    &&& state.total.offset == count
    &&& state.total.line == count
    &&& forall|e: int|
        0 <= e < state.total.columns.len() ==> (#[trigger] state.total.columns[e]).1 <= 0
    &&& forall|j: int|
        0 <= j < count ==> settled(state.text, #[trigger] state.marks[j])
            && state.marks[j].offset->0 <= marks[j].offset->0 + count
    &&& forall|i: int|
        count <= i < marks.len() ==> state.marks[i] == #[trigger] marks[i] && on_line(
            state.text,
            carried(marks[i], state.total),
        )
}

/// Every step of a pass of Enter over settled marks in the order of their offsets breaks
/// the line of its mark and keeps the marks in step with the text.
#[verifier::rlimit(60)]
pub proof fn lemma_pass_broken(buffer: Buffer, marks: Seq<Cursor>, count: int)
    requires
        forall|i: int| 0 <= i < marks.len() ==> settled(buffer.text, #[trigger] marks[i]),
        ordered(marks),
        buffer.text.len() + marks.len() < isize::MAX,
        0 <= count <= marks.len(),
    ensures
        broken(buffer, marks, count),
    decreases count,
{
    let state = pass(buffer, marks, ENTER, count);
    if count == 0 {
        assert forall|i: int| 0 <= i < marks.len() implies on_line(
            state.text,
            carried(#[trigger] marks[i], state.total),
        ) by {
            lemma_anchor(buffer.text, marks[i]);
            lemma_unbroken_count(buffer.text, start_of(marks[i]), marks[i].offset->0);
            assert(carried(marks[i], state.total).offset == marks[i].offset);
        }
    } else {
        let k = count - 1;
        lemma_pass_broken(buffer, marks, k);
        let before = pass(buffer, marks, ENTER, k);
        let total = before.total;
        let text = before.text;
        assert(broken(buffer, marks, k));
        assert(before.marks[k] == marks[k]);
        lemma_anchor(buffer.text, marks[k]);
        let at = carried(marks[k], total);
        assert(on_line(text, at));
        let p = at.offset->0;
        let line = at.position.line;
        lemma_newline_count_prefix(text, 0, p);
        lemma_newline_count_bound(text);
        lemma_column_sum_left(total.columns, line);
        let cursor = adjusted(marks[k], total);
        assert(cursor.offset == Some(p));
        assert(cursor.position.line == line);
        let column = cursor.position.column;
        assert(0 <= column <= marks[k].position.column);
        let own = own_delta(ENTER, cursor, text);
        assert(editable(text, cursor.offset, ENTER));
        assert(own.columns =~= seq![(line + 1, -column)]);
        lemma_column_sum_single(own.columns[0], line + 1);
        assert(state.total == total.plus(own));
        assert(state.total.columns == total.columns + own.columns);
        let after = state.text;
        assert(after == text.insert(p, ENTER));
        let moved = adjusted(cursor, own);
        assert(state.marks[k] == moved);
        assert(moved == Cursor {
            position: Position { line: line + 1, column: 0 },
            offset: Some(p + 1),
        });
        lemma_insert_count(text, p, ENTER, p);
        assert(after[p] == ENTER);
        lemma_anchored(after, moved);
        assert forall|e: int| 0 <= e < state.total.columns.len() implies (
        #[trigger] state.total.columns[e]).1 <= 0 by {
            if e < total.columns.len() {
                assert(state.total.columns[e] == total.columns[e]);
            } else {
                assert(state.total.columns[e] == own.columns[e - total.columns.len()]);
            }
        }
        assert forall|i: int| count <= i < marks.len() implies state.marks[i] == #[trigger] marks[i]
            && on_line(state.text, carried(marks[i], state.total)) by {
            let later = carried(marks[i], total);
            assert(on_line(text, later));
            assert(marks[k].offset->0 <= marks[i].offset->0);
            lemma_insert_count(text, p, ENTER, later.offset->0);
        }
        assert forall|j: int| 0 <= j < count implies settled(state.text, #[trigger] state.marks[j])
            && state.marks[j].offset->0 <= marks[j].offset->0 + count by {
            if j < k {
                let earlier = before.marks[j];
                assert(state.marks[j] == earlier);
                assert(marks[j].offset->0 <= marks[k].offset->0);
                lemma_anchor(text, earlier);
                lemma_insert_keeps_start(text, p, ENTER, start_of(earlier), earlier.position.line);
                lemma_anchored(after, earlier);
                assert forall|i: int| start_of(earlier) <= i < earlier.offset->0 implies
                    #[trigger] after[i] != ENTER by {
                    assert(after[i] == text[i]);
                }
            }
        }
    }
}

/// Enter keeps marks anchored: where each mark is settled in the text before the pass and
/// the marks stand in the order of their offsets, every mark stands at the start of the
/// line that its line break made, and the text after the pass gives its position the offset
/// that the mark holds. This holds however many marks share a line.
///
/// The law speaks of texts and marks few enough for a signed machine word to count them
/// together.
pub proof fn lemma_enter_keeps_marks(buffer: Buffer, marks: Seq<Cursor>)
    requires
        forall|i: int| 0 <= i < marks.len() ==> settled(buffer.text, #[trigger] marks[i]),
        ordered(marks),
        buffer.text.len() + marks.len() < isize::MAX,
    ensures
        forall|i: int|
            0 <= i < marks.len() ==> {
                let mark = #[trigger] pass(buffer, marks, ENTER, marks.len() as int).marks[i];
                settled(pass(buffer, marks, ENTER, marks.len() as int).text, mark)
                    && mark.position.column == 0 && position_to_offset(
                    pass(buffer, marks, ENTER, marks.len() as int).text,
                    mark.position,
                ) == mark.offset
            },
{
    let size = marks.len() as int;
    lemma_pass_broken(buffer, marks, size);
    assert forall|i: int| 0 <= i < marks.len() implies (#[trigger] pass(
        buffer,
        marks,
        ENTER,
        size,
    ).marks[i]).position.column == 0 by {
        lemma_enter_column(buffer, marks, size, i);
    }
}

/// After Enter was pressed at the first `count` of the marks, each of them stands at
/// column zero.
pub proof fn lemma_enter_column(buffer: Buffer, marks: Seq<Cursor>, count: int, i: int)
    requires
        forall|i: int| 0 <= i < marks.len() ==> settled(buffer.text, #[trigger] marks[i]),
        ordered(marks),
        buffer.text.len() + marks.len() < isize::MAX,
        0 <= i < count <= marks.len(),
    ensures
        pass(buffer, marks, ENTER, count).marks[i].position.column == 0,
    decreases count,
{
    let k = count - 1;
    lemma_pass_broken(buffer, marks, k);
    if i < k {
        lemma_enter_column(buffer, marks, k, i);
    } else {
        let before = pass(buffer, marks, ENTER, k);
        let total = before.total;
        lemma_anchor(buffer.text, marks[k]);
        let at = carried(marks[k], total);
        lemma_newline_count_prefix(before.text, 0, at.offset->0);
        lemma_newline_count_bound(before.text);
        lemma_column_sum_left(total.columns, at.position.line);
        let cursor = adjusted(marks[k], total);
        let own = own_delta(ENTER, cursor, before.text);
        assert(own.columns =~= seq![(at.position.line + 1, -cursor.position.column)]);
        lemma_column_sum_single(own.columns[0], at.position.line + 1);
    }
}

/// A larger number takes no fewer digits to write.
pub proof fn lemma_digit_count_grows(small: int, large: int)
    requires
        small <= large,
    ensures
        digit_count(small) <= digit_count(large),
    decreases large,
{
    if small > 0 {
        lemma_digit_count_grows(small / 10, large / 10);
    } else if large > 0 {
        lemma_digit_count_grows(small, large / 10);
    }
}

/// The row that shows `line` as the line with the number `number` of `count` lines: the
/// number in decimal, moved right to the width of the largest number, a space and the line.
pub open spec fn numbered(number: int, count: int, line: Seq<char>) -> Seq<char> {
    Seq::new((digit_count(count) - digit_count(number)) as nat, |i: int| ' ') + decimal(number)
        + seq![' '] + line
}

/// A text in which no character is dropped at loading is the text of the loaded document.
pub proof fn lemma_loaded_text(text: Seq<char>, path: Seq<char>)
    requires
        forall|i: int| 0 <= i < text.len() ==> kept(#[trigger] text[i]),
    ensures
        loaded(text, path).text == text,
    decreases text.len(),
{
    reveal(Seq::filter);
    if text.len() > 0 {
        lemma_loaded_text(text.drop_last(), path);
        assert(text.drop_last().push(text.last()) =~= text);
    } else {
        assert(text.filter(|c: char| kept(c)) =~= text);
    }
}

/// A text that is loaded and rendered before any edit comes back line for line: there is one
/// row for each line of the loaded text, in order, and the row of a line shows the number of
/// the line, counted from one, before the text of the line.
///
/// The law speaks of loaded texts that a machine word can count; the text of every document
/// is one, as [`lemma_document_round_trip`] states.
pub proof fn lemma_round_trip(text: Seq<char>, path: Seq<char>)
    requires
        loaded(text, path).text.len() <= usize::MAX,
    ensures
        loaded(text, path).rendered().len() == lines(loaded(text, path).text).len(),
        forall|i: int|
            0 <= i < lines(loaded(text, path).text).len() ==> #[trigger] loaded(
                text,
                path,
            ).rendered()[i] == (
                i + 1,
                numbered(
                    i + 1,
                    lines(loaded(text, path).text).len() as int,
                    lines(loaded(text, path).text)[i],
                ),
            ),
{
    let buffer = loaded(text, path);
    let count = line_count(buffer.text) as int;
    lemma_line_count_bound(buffer.text);
    assert forall|i: int| 0 <= i < count implies #[trigger] buffer.rendered()[i] == (
        i + 1,
        numbered(i + 1, count, lines(buffer.text)[i]),
    ) by {
        lemma_digit_count(i + 1);
        lemma_digit_count_grows(i + 1, count);
        let gap = digit_count(count) - digit_count(i + 1);
        assert(Seq::new(gap as nat, |j: int| ' ') =~= Seq::new(
            (digit_count(count) - digit_count(i + 1)) as nat,
            |j: int| ' ',
        ));
    }
}

/// Every document that was loaded and not edited shows its text line for line: the edits
/// that draw it clear the screen and then give each row, from the top one down, one line of
/// the text, in order, with the number of the line, counted from one, before it.
pub proof fn lemma_document_round_trip(document: Document, text: Seq<char>, path: Seq<char>)
    requires
        document@ == loaded(text, path),
    ensures
        document@.rendered().len() == lines(document@.text).len(),
        document@.redrawn().len() == lines(document@.text).len() + 1,
        document@.redrawn()[0].change == Drawing::Clear,
        forall|i: int|
            0 <= i < lines(document@.text).len() ==> #[trigger] document@.rendered()[i] == (
                i + 1,
                numbered(i + 1, lines(document@.text).len() as int, lines(document@.text)[i]),
            ),
        forall|i: int|
            0 <= i < lines(document@.text).len() ==> #[trigger] document@.redrawn()[i + 1] == (
                Stroke {
                    region: whole_row(i as usize),
                    change: Drawing::Row(
                        numbered(
                            i + 1,
                            lines(document@.text).len() as int,
                            lines(document@.text)[i],
                        ),
                    ),
                }
            ),
{
    document.lemma_bounds();
    lemma_round_trip(text, path);
    assert forall|i: int| 0 <= i < lines(document@.text).len() implies
        #[trigger] document@.redrawn()[i + 1] == (Stroke {
        region: whole_row(i as usize),
        change: Drawing::Row(
            numbered(i + 1, lines(document@.text).len() as int, lines(document@.text)[i]),
        ),
    }) by {
        assert(document@.rendered()[i] == (
            i + 1,
            numbered(i + 1, lines(document@.text).len() as int, lines(document@.text)[i]),
        ));
    }
}

/// A mark that is put at an edge of a section holds the offset that the text gives to its
/// position, where it holds an offset at all.
pub proof fn lemma_marked_anchored(edge: Edge, span: Span, text: Seq<char>)
    requires
        span.start.column >= 0,
    ensures
        marked(edge, span, text).offset is Some ==> anchored(text, marked(edge, span, text)),
{
}

/// A mark that is put at an edge of a section is settled where it comes to stand within a
/// line of the text.
pub proof fn lemma_marked_settled(edge: Edge, span: Span, text: Seq<char>)
    requires
        line_start(text, span.start.line) is Some,
        0 <= span.start.column,
        marked(edge, span, text).position.column <= line_length(text, span.start.line),
        text.len() <= usize::MAX,
    ensures
        settled(text, marked(edge, span, text)),
{
    let line = span.start.line;
    let start = line_start(text, line)->0;
    crate::text::lemma_line_start_begins(text, line);
    crate::text::lemma_line_end(text, start);
}

/// After the marks were put at an edge of the selected sections, every mark that holds an
/// offset holds the one that the text gives to its position.
pub proof fn lemma_marks_set_anchored(sheet: Sheet, edge: Edge)
    requires
        forall|i: int| 0 <= i < sheet.signals.len() ==> (#[trigger] sheet.signals[i]).start.column >= 0,
    ensures
        sheet.marks_set(edge).marks.len() == sheet.signals.len(),
        forall|i: int|
            0 <= i < sheet.signals.len() ==> {
                let mark = #[trigger] sheet.marks_set(edge).marks[i];
                mark.offset is Some ==> anchored(sheet.marks_set(edge).buffer.text, mark)
            },
{
    assert forall|i: int| 0 <= i < sheet.signals.len() implies {
        let mark = #[trigger] sheet.marks_set(edge).marks[i];
        mark.offset is Some ==> anchored(sheet.marks_set(edge).buffer.text, mark)
    } by {
        lemma_marked_anchored(edge, sheet.signals[i], sheet.buffer.text);
    }
}

/// Putting the marks anew at the same edge of an unchanged selection gives the same marks:
/// the marks depend on the edge, the selection and the text alone.
pub proof fn lemma_marks_set_again(sheet: Sheet, other: Sheet, edge: Edge)
    requires
        sheet.signals == other.signals,
        sheet.buffer.text == other.buffer.text,
    ensures
        sheet.marks_set(edge).marks == other.marks_set(edge).marks,
        sheet.marks_set(edge).marks_set(edge) == sheet.marks_set(edge),
{
    assert(sheet.marks_set(edge).marks =~= other.marks_set(edge).marks);
    assert(sheet.marks_set(edge).marks_set(edge).marks =~= sheet.marks_set(edge).marks);
}

/// The sections that cover the lines from `first` to `last` whole, one for each line, in
/// order; none where `last` comes before `first`.
pub open spec fn line_run(first: int, last: int) -> Seq<Span> {
    Seq::new(
        if last >= first {
            (last - first + 1) as nat
        } else {
            0nat
        },
        |i: int| whole_line(first + i),
    )
}

/// Of the sections that cover the lines of a document whole, the lines between `low` and
/// `high` keep exactly the sections of those lines that the document has: nothing else
/// stays, nothing is doubled, and the order is that of the lines.
pub proof fn lemma_whole_lines_within(count: int, low: int, high: int)
    requires
        0 <= count,
    ensures
        within_lines(whole_lines(count), low, high) == line_run(
            if low > 1 {
                low
            } else {
                1
            },
            if high < count {
                high
            } else {
                count
            },
        ),
    decreases count,
{
    reveal(Seq::filter);
    let keeps = |section: Span| in_lines(section, low, high);
    let first = if low > 1 {
        low
    } else {
        1
    };
    let last = if high < count {
        high
    } else {
        count
    };
    if count == 0 {
        assert(whole_lines(0) =~= Seq::<Span>::empty());
        assert(within_lines(whole_lines(count), low, high) =~= line_run(first, last));
    } else {
        lemma_whole_lines_within(count - 1, low, high);
        let before = whole_lines(count - 1);
        assert(whole_lines(count) =~= before.push(whole_line(count)));
        before.lemma_filter_push(whole_line(count), keeps);
        let earlier = if high < count - 1 {
            high
        } else {
            count - 1
        };
        assert(before.filter(keeps) == line_run(first, earlier));
        if low <= count <= high {
            assert(line_run(first, earlier).push(whole_line(count)) =~= line_run(first, last));
        } else {
            assert(line_run(first, earlier) =~= line_run(first, last));
        }
    }
}

/// The token made of `#` and a number narrows the sections that cover the lines of a
/// document whole to exactly the section of the line with that number, where the document
/// has such a line.
pub proof fn lemma_line_filter_exact(number: Seq<char>, count: int)
    requires
        is_number(number),
        1 <= number_value(number) <= count,
        count <= usize::MAX,
    ensures
        line_filtered(seq!['#'] + number, whole_lines(count)) == seq![
            whole_line(number_value(number)),
        ],
{
    lemma_single_line(number);
    lemma_whole_lines_within(count, number_value(number), number_value(number));
    assert(line_run(number_value(number), number_value(number)) =~= seq![
        whole_line(number_value(number)),
    ]);
}

/// The first of the lines that two numbers around `sign` select.
pub open spec fn range_low(first: int, sign: char, second: int) -> int {
    if sign == '.' {
        if first <= second {
            first
        } else {
            second
        }
    } else if sign == '+' {
        first
    } else {
        first - second
    }
}

/// The last of the lines that two numbers around `sign` select.
pub open spec fn range_high(first: int, sign: char, second: int) -> int {
    if sign == '.' {
        if first <= second {
            second
        } else {
            first
        }
    } else if sign == '+' {
        first + second
    } else {
        first
    }
}

/// A token of two numbers narrows the sections that cover the lines of a document whole to
/// the sections of the lines that it selects and the document has: around `.` the lines
/// from the smaller number to the larger, whichever is written first; around `+` the lines
/// from the first number to the sum; around `-` the lines from the difference to the first
/// number.
pub proof fn lemma_line_filter_range(first: Seq<char>, sign: char, second: Seq<char>, count: int)
    requires
        is_number(first),
        is_number(second),
        number_value(first) <= usize::MAX,
        number_value(second) <= usize::MAX,
        sign == '.' || sign == '+' || sign == '-',
        0 <= count,
    ensures
        line_filtered(range_token(first, sign, second), whole_lines(count)) == line_run(
            if range_low(number_value(first), sign, number_value(second)) > 1 {
                range_low(number_value(first), sign, number_value(second))
            } else {
                1
            },
            if range_high(number_value(first), sign, number_value(second)) < count {
                range_high(number_value(first), sign, number_value(second))
            } else {
                count
            },
        ),
        sign == '.' ==> line_filtered(range_token(first, sign, second), whole_lines(count))
            == line_filtered(range_token(second, sign, first), whole_lines(count)),
{
    lemma_line_range_of(first, sign, second);
    lemma_line_range_of(second, sign, first);
    lemma_whole_lines_within(
        count,
        range_low(number_value(first), sign, number_value(second)),
        range_high(number_value(first), sign, number_value(second)),
    );
}

/// Enter at the one mark of a paper breaks the line there: the line break is inserted at the
/// offset of the mark, the mark moves to column zero of the next line with the next offset,
/// the layout of the document is derived anew, and the edits drawn are those that draw the
/// document anew.
///
/// The law speaks of a mark that is settled in the text, and of a text that leaves a signed
/// machine word room to count one more character.
pub proof fn lemma_enter_at_single_mark(sheet: Sheet, height: int)
    requires
        sheet.marks.len() == 1,
        settled(sheet.buffer.text, sheet.marks[0]),
        sheet.buffer.text.len() < isize::MAX,
    ensures
        sheet.view_updated(ENTER).marks == seq![
            Cursor {
                position: Position { line: sheet.marks[0].position.line + 1, column: 0 },
                offset: Some(sheet.marks[0].offset->0 + 1),
            },
        ],
        sheet.view_updated(ENTER).buffer == (Buffer {
            text: sheet.buffer.text.insert(sheet.marks[0].offset->0, ENTER),
            ..sheet.buffer
        }).cleaned(),
        sheet.update_drawn(ENTER, height) == sheet.view_updated(ENTER).displayed(height),
{
    let mark = sheet.marks[0];
    let text = sheet.buffer.text;
    let before = pass(sheet.buffer, sheet.marks, ENTER, 0);
    let done = pass(sheet.buffer, sheet.marks, ENTER, 1);
    lemma_anchor(text, mark);
    assert(column_sum(Seq::<(int, int)>::empty(), mark.position.line) == 0);
    assert(adjusted(mark, before.total) == mark);
    let own = own_delta(ENTER, mark, text);
    assert(own.columns =~= seq![own.columns[0]]);
    lemma_column_sum_single(own.columns[0], mark.position.line + 1);
    assert(done.total == before.total.plus(own));
    assert(done.marks =~= seq![
        Cursor {
            position: Position { line: mark.position.line + 1, column: 0 },
            offset: Some(mark.offset->0 + 1),
        },
    ]);
}

/// Backspace at the one mark of a paper, where the mark stands at column zero of a line
/// other than the first, joins the line to the line before: the line break before the mark
/// is removed, the mark moves to the line before, to the column that is the length which
/// that line had, the layout of the document is derived anew, and the edits drawn are those
/// that draw the document anew.
///
/// The law speaks of a mark that is settled in the text, and of a text whose length a signed
/// machine word holds.
pub proof fn lemma_backspace_at_single_mark(sheet: Sheet, height: int)
    requires
        sheet.marks.len() == 1,
        settled(sheet.buffer.text, sheet.marks[0]),
        sheet.marks[0].position.column == 0,
        sheet.marks[0].position.line > 1,
        sheet.buffer.text.len() < isize::MAX,
    ensures
        sheet.view_updated(BACKSPACE).marks == seq![
            Cursor {
                position: Position {
                    line: sheet.marks[0].position.line - 1,
                    column: line_length(sheet.buffer.text, sheet.marks[0].position.line - 1),
                },
                offset: Some(sheet.marks[0].offset->0 - 1),
            },
        ],
        sheet.view_updated(BACKSPACE).buffer == (Buffer {
            text: sheet.buffer.text.remove(sheet.marks[0].offset->0 - 1),
            ..sheet.buffer
        }).cleaned(),
        sheet.update_drawn(BACKSPACE, height) == sheet.view_updated(BACKSPACE).displayed(height),
{
    let mark = sheet.marks[0];
    let text = sheet.buffer.text;
    let before = pass(sheet.buffer, sheet.marks, BACKSPACE, 0);
    let done = pass(sheet.buffer, sheet.marks, BACKSPACE, 1);
    lemma_anchor(text, mark);
    assert(column_sum(Seq::<(int, int)>::empty(), mark.position.line) == 0);
    assert(adjusted(mark, before.total) == mark);
    lemma_join_keeps_later_mark(text, mark, mark);
    lemma_line_length_range(text, mark.position.line - 1);
    let own = own_delta(BACKSPACE, mark, text);
    assert(own.columns =~= seq![own.columns[0]]);
    lemma_column_sum_single(own.columns[0], mark.position.line - 1);
    assert(done.total == before.total.plus(own));
    assert(done.marks =~= seq![
        Cursor {
            position: Position {
                line: mark.position.line - 1,
                column: line_length(text, mark.position.line - 1),
            },
            offset: Some(mark.offset->0 - 1),
        },
    ]);
}

/// Where the last token starts depends on the characters looked at alone.
pub proof fn lemma_feature_start_prefix(sketch: Seq<char>, other: Seq<char>, end: int)
    requires
        0 <= end <= sketch.len(),
        end <= other.len(),
        forall|i: int| 0 <= i < end ==> sketch[i] == other[i],
    ensures
        feature_start(sketch, end) == feature_start(other, end),
        feature_start(sketch, end) == 0 || 2 <= feature_start(sketch, end) <= end,
    decreases end,
{
    if end >= 2 && !(sketch[end - 2] == '&' && sketch[end - 1] == '&') {
        lemma_feature_start_prefix(sketch, other, end - 1);
    }
}

/// What the tokens of the first characters of a filter expression select depends on those
/// characters alone.
pub proof fn lemma_narrowed_prefix(
    sketch: Seq<char>,
    other: Seq<char>,
    end: int,
    sections: Seq<Span>,
    text: Seq<char>,
)
    requires
        0 <= end <= sketch.len(),
        end <= other.len(),
        forall|i: int| 0 <= i < end ==> sketch[i] == other[i],
    ensures
        narrowed(sketch, end, sections, text) == narrowed(other, end, sections, text),
    decreases end,
{
    lemma_feature_start_prefix(sketch, other, end);
    let start = feature_start(sketch, end);
    if 2 <= start <= end {
        lemma_narrowed_prefix(sketch, other, start - 2, sections, text);
        assert(sketch.subrange(start, end) =~= other.subrange(start, end));
    } else {
        assert(sketch.subrange(0, end) =~= other.subrange(0, end));
    }
}

/// Behind a separator that only characters other than `&` follow, the last token starts
/// right after the separator.
pub proof fn lemma_feature_start_behind(sketch: Seq<char>, cut: int, end: int)
    requires
        2 <= cut <= end <= sketch.len(),
        sketch[cut - 2] == '&',
        sketch[cut - 1] == '&',
        forall|i: int| cut <= i < sketch.len() ==> sketch[i] != '&',
    ensures
        feature_start(sketch, end) == cut,
    decreases end - cut,
{
    if end > cut {
        lemma_feature_start_behind(sketch, cut, end - 1);
    }
}

/// Later tokens narrow what the tokens before them selected: a filter expression with one
/// more token behind a separator selects what that token selects from the selection of the
/// expression before the separator.
///
/// The law speaks of a last token without the character `&`, of which separators are made.
pub proof fn lemma_tokens_narrow(
    first: Seq<char>,
    second: Seq<char>,
    sections: Seq<Span>,
    text: Seq<char>,
)
    requires
        forall|i: int| 0 <= i < second.len() ==> second[i] != '&',
    ensures
        highlighted(first + seq!['&', '&'] + second, sections, text) == filtered(
            second,
            highlighted(first, sections, text),
            text,
        ),
{
    let sketch = first + seq!['&', '&'] + second;
    let cut = first.len() as int + 2;
    let end = sketch.len() as int;
    assert forall|i: int| cut <= i < sketch.len() implies sketch[i] != '&' by {
        assert(sketch[i] == second[i - cut]);
    }
    lemma_feature_start_behind(sketch, cut, end);
    assert(sketch.subrange(cut, end) =~= second);
    lemma_narrowed_prefix(sketch, first, cut - 2, sections, text);
}

/// A filter expression of one token, without a separator, selects what that token selects.
pub proof fn lemma_token_narrows(token: Seq<char>, sections: Seq<Span>, text: Seq<char>)
    requires
        forall|i: int| 0 <= i < token.len() ==> token[i] != '&',
    ensures
        highlighted(token, sections, text) == filtered(token, sections, text),
{
    lemma_feature_start_none(token, token.len() as int);
    assert(token.subrange(0, token.len() as int) =~= token);
}

/// Where no `&` stands, no token starts behind a separator.
pub proof fn lemma_feature_start_none(sketch: Seq<char>, end: int)
    requires
        0 <= end <= sketch.len(),
        forall|i: int| 0 <= i < sketch.len() ==> sketch[i] != '&',
    ensures
        feature_start(sketch, end) == 0,
    decreases end,
{
    if end >= 2 {
        lemma_feature_start_none(sketch, end - 1);
    }
}

/// The mode that follows `mode` when the key `input` is pressed.
///
/// The display mode leads to the command mode and to the filter mode, the command mode back
/// to the display mode, the filter mode to the action mode, the action mode to the edit
/// mode, and Escape from every mode to the display mode.
pub open spec fn next_mode(mode: Mode, input: char) -> Mode {
    match mode {
        Mode::Display => if input == '.' {
            Mode::Command
        } else if input == '#' || input == '/' {
            Mode::Filter
        } else {
            Mode::Display
        },
        Mode::Command => if input == ENTER || input == ESC {
            Mode::Display
        } else {
            Mode::Command
        },
        Mode::Filter => if input == ENTER {
            Mode::Action
        } else if input == ESC {
            Mode::Display
        } else {
            Mode::Filter
        },
        Mode::Action => if input == ESC {
            Mode::Display
        } else if input == 'i' || input == 'I' {
            Mode::Edit
        } else {
            Mode::Action
        },
        Mode::Edit => if input == ESC {
            Mode::Display
        } else {
            Mode::Edit
        },
    }
}

/// The operations `steps` done one after the other, written out for up to three of them.
proof fn lemma_ran_unfolded(sheet: Sheet, steps: Seq<Step>, height: int)
    requires
        steps.len() <= 3,
    ensures
        steps.len() == 0 ==> sheet.ran(steps, height) == sheet,
        steps.len() == 1 ==> sheet.ran(steps, height) == sheet.operated(steps[0], height),
        steps.len() == 2 ==> sheet.ran(steps, height) == sheet.operated(steps[0], height).operated(
            steps[1],
            height,
        ),
        steps.len() == 3 ==> sheet.ran(steps, height) == sheet.operated(steps[0], height).operated(
            steps[1],
            height,
        ).operated(steps[2], height),
    decreases steps.len(),
{
    if steps.len() > 0 {
        lemma_ran_unfolded(sheet, steps.drop_last(), height);
    }
}

/// The mode after a key depends on the mode before it and on the key alone, and is the one
/// that the transitions of the modes give.
pub proof fn lemma_mode_follows(sheet: Sheet, input: char, height: int)
    ensures
        sheet.stepped(input, height).mode == next_mode(sheet.mode, input),
{
    lemma_ran_unfolded(sheet, operations(sheet.mode, input), height);
}

/// Escape leaves every mode for the display mode and discards the sketch, the selection and
/// the marks; the text of the document stays as it is.
pub proof fn lemma_escape_returns(sheet: Sheet, height: int)
    requires
        sheet.mode != Mode::Display,
    ensures
        sheet.stepped(ESC, height).mode == Mode::Display,
        sheet.stepped(ESC, height).sketch == Seq::<char>::empty(),
        sheet.stepped(ESC, height).signals == Seq::<Span>::empty(),
        sheet.stepped(ESC, height).marks == Seq::<Cursor>::empty(),
        sheet.stepped(ESC, height).buffer == sheet.buffer,
{
    lemma_ran_unfolded(sheet, operations(sheet.mode, ESC), height);
}

} // verus!
