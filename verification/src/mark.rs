//! The marks and the adjustments that keep them in step with the text.
//!
//! A key pressed while editing is applied at every mark, one mark after the other, in the
//! order in which the marks were made. Each edit moves the marks that come after it. What an
//! edit does to later marks is an [`Adjustment`]; the adjustments of one pass are added up in
//! a running total, and each mark is moved by the total before its own edit is made.

use crate::document::{editable, edited, region_of, Buffer, Document};
use crate::num::{clamp, Cursor, Length, LineNumber, Mark, Place, Pointer, Position};
use crate::text::{line_length, BACKSPACE, ENTER};
use crate::ui::{Change, Drawing, Edit, Stroke};
use vstd::prelude::*;

verus! {

/// The kinds of edit that a key makes.
#[derive(Copy, Clone, Debug, PartialEq, Eq, Hash)]
pub enum EditClass {
    /// A character was inserted; the lines stay as they are.
    Insert(char),
    /// A character of a line was removed; the lines stay as they are.
    Backspace,
    /// A line was split in two or two lines were joined: the screen must be drawn anew.
    LineBreak,
}

impl EditClass {
    /// The change on the screen that shows an edit of this kind.
    pub open spec fn drawing(self) -> Drawing {
        match self {
            EditClass::Insert(input) => Drawing::Insert(input),
            EditClass::Backspace => Drawing::Backspace,
            EditClass::LineBreak => Drawing::Clear,
        }
    }

    /// Returns the change on the screen that shows an edit of this kind.
    pub fn to_change(self) -> (change: Change)
        ensures
            change@ == self.drawing(),
    {
        match self {
            EditClass::Insert(input) => Change::Insert(input),
            EditClass::Backspace => Change::Backspace,
            EditClass::LineBreak => Change::Clear,
        }
    }
}

/// Returns `value` where a signed machine word holds it, else the nearest value that one holds.
pub open spec fn clamp_signed(value: int) -> int {
    clamp(value, isize::MIN as int, isize::MAX as int)
}

/// The sum of the column changes that `entries` hold for `line`.
pub open spec fn column_sum(entries: Seq<(int, int)>, line: int) -> int
    decreases entries.len(),
{
    if entries.len() == 0 {
        0
    } else {
        column_sum(entries.drop_last(), line) + if entries.last().0 == line {
            entries.last().1
        } else {
            0
        }
    }
}

/// The model of an [`Adjustment`].
pub struct Delta {
    /// By how much offsets change.
    pub offset: int,
    /// By how many lines positions move down.
    pub line: int,
    /// Pairs of a line and the change of the columns of that line. The change of a line is
    /// the sum over its pairs.
    pub columns: Seq<(int, int)>,
    /// The kind of edit, where there was one.
    pub class: Option<EditClass>,
}

impl Delta {
    /// The adjustment that changes nothing.
    pub open spec fn zero() -> Delta {
        Delta { offset: 0, line: 0, columns: Seq::empty(), class: None }
    }

    /// The adjustment of one edit of kind `class` made on `line`: offsets change by `offset`,
    /// lines change by `offset` too where the edit breaks or joins lines, and the columns of
    /// the line on which the mark then stands change by `column`.
    pub open spec fn single(line: int, offset: int, column: int, class: EditClass) -> Delta {
        let lines = if class == EditClass::LineBreak {
            offset
        } else {
            0
        };
        Delta {
            offset,
            line: lines,
            columns: seq![(clamp(line + lines, 1, usize::MAX as int), column)],
            class: Some(class),
        }
    }

    /// The change of the columns of `line`.
    pub open spec fn column_at(self, line: int) -> int {
        column_sum(self.columns, line)
    }

    /// The sum of this adjustment and `other`. The changes of offsets and of lines are added
    /// and stay within a signed machine word; the changes of columns are put together. Once
    /// a line was broken or joined the sum says so; else it has the kind of the later edit.
    pub open spec fn plus(self, other: Delta) -> Delta {
        Delta {
            offset: clamp_signed(self.offset + other.offset),
            line: clamp_signed(self.line + other.line),
            columns: self.columns + other.columns,
            class: if self.class == Some(EditClass::LineBreak) || other.class is None {
                self.class
            } else {
                other.class
            },
        }
    }
}

/// The adjustment that pressing the key `input` at `cursor` makes in `text`.
///
/// Where the key does not change the text, because the offset of the cursor is invalid or
/// outside of the text or because nothing stands before it to remove, the adjustment is zero.
/// Backspace at column zero of a line other than the first joins the line to the one before:
/// the cursor moves up one line, and its column grows by the length of that line. Backspace
/// elsewhere moves offset and column back by one. Enter moves the cursor down one line and
/// takes its column away from the columns of the new line. Every other key moves offset and
/// column on by one.
pub open spec fn own_delta(input: char, cursor: Cursor, text: Seq<char>) -> Delta {
    let line = cursor.position.line;
    if !editable(text, cursor.offset, input) {
        Delta::zero()
    } else if input == BACKSPACE {
        if cursor.position.column == 0 && line > 1 {
            Delta::single(line, -1, clamp_signed(line_length(text, line - 1)), EditClass::LineBreak)
        } else {
            Delta::single(line, -1, -1, EditClass::Backspace)
        }
    } else if input == ENTER {
        Delta::single(line, 1, clamp_signed(-cursor.position.column), EditClass::LineBreak)
    } else {
        Delta::single(line, 1, 1, EditClass::Insert(input))
    }
}

/// The cursor moved by `delta`.
///
/// A cursor whose offset is invalid, or would leave the indexes that a machine word holds,
/// stays as it is. Else its offset changes by the change of offsets, its line by the change
/// of lines, and its column by the change that `delta` holds for the line it then stands on.
/// Line and column stay within the numbers that a machine word holds.
pub open spec fn adjusted(cursor: Cursor, delta: Delta) -> Cursor {
    match cursor.offset {
        Some(offset) => if 0 <= offset + delta.offset <= usize::MAX {
            let line = clamp(cursor.position.line + delta.line, 1, usize::MAX as int);
            Cursor {
                position: Position {
                    line,
                    column: clamp(
                        cursor.position.column + delta.column_at(line),
                        0,
                        usize::MAX as int,
                    ),
                },
                offset: Some(offset + delta.offset),
            }
        } else {
            cursor
        },
        None => cursor,
    }
}

/// The edit on the screen that shows what a key did at `cursor`: nothing where the text did
/// not change, where lines were broken or joined, which only drawing the document anew can
/// show, or where the cursor lies above the viewport.
pub open spec fn shown(cursor: Cursor, own: Delta, buffer: Buffer) -> Seq<Stroke> {
    match (
        own.class,
        region_of(cursor.position, Length::Value(1), buffer.origin_line, buffer.origin_index),
    ) {
        (Some(class), Some(region)) => if class == EditClass::LineBreak {
            Seq::empty()
        } else {
            seq![Stroke { region, change: class.drawing() }]
        },
        _ => Seq::empty(),
    }
}

/// The state of a pass over the marks.
pub struct Pass {
    /// The text, with the edits made so far.
    pub text: Seq<char>,
    /// The marks; those passed are moved.
    pub marks: Seq<Cursor>,
    /// The sum of the adjustments of the edits made so far.
    pub total: Delta,
    /// The edits on the screen that show the edits made so far.
    pub edits: Seq<Stroke>,
}

/// The state after the key `input` was applied at the first `count` of `marks`, in order.
///
/// Each mark is first moved by the total of the adjustments made before it. Then the key is
/// applied to the text at its offset, the mark is moved by the adjustment of that edit, and
/// the adjustment is added to the total.
pub open spec fn pass(buffer: Buffer, marks: Seq<Cursor>, input: char, count: int) -> Pass
    decreases count,
{
    if count <= 0 {
        Pass { text: buffer.text, marks, total: Delta::zero(), edits: Seq::empty() }
    } else {
        let before = pass(buffer, marks, input, count - 1);
        let moved = adjusted(before.marks[count - 1], before.total);
        let own = own_delta(input, moved, before.text);
        Pass {
            text: edited(before.text, moved.offset, input),
            marks: before.marks.update(count - 1, adjusted(moved, own)),
            total: before.total.plus(own),
            edits: before.edits + shown(moved, own, buffer),
        }
    }
}

/// The sum of two signed numbers, kept within a signed machine word.
fn saturated_sum(a: isize, b: isize) -> (sum: isize)
    ensures
        sum == clamp_signed(a + b),
{
    match a.checked_add(b) {
        Some(sum) => sum,
        None => if b > 0 {
            isize::MAX
        } else {
            isize::MIN
        },
    }
}

/// Returns `value` as a signed number, or the largest signed number where it is larger.
fn signed(value: usize) -> (number: isize)
    ensures
        number == clamp_signed(value as int),
{
    if value > isize::MAX as usize {
        isize::MAX
    } else {
        value as isize
    }
}

/// Returns the negative of `value` as a signed number, or the smallest signed number where
/// the negative is smaller.
fn negated(value: usize) -> (number: isize)
    ensures
        number == clamp_signed(-(value as int)),
{
    if value > isize::MAX as usize {
        isize::MIN
    } else {
        -(value as isize)
    }
}

/// The lasting effect of an edit on the marks that come after it.
#[derive(Clone, Debug)]
pub struct Adjustment {
    /// By how much pointers change.
    pub shift: isize,
    /// By how many lines places move down.
    pub line_change: isize,
    /// Pairs of a line and the change of the indexes of that line.
    pub indexes_changed: Vec<(LineNumber, isize)>,
    /// The kind of edit, where there was one.
    pub change: Option<EditClass>,
}

/// The model of the pairs that an adjustment holds.
pub open spec fn entries_of(pairs: Seq<(LineNumber, isize)>) -> Seq<(int, int)> {
    pairs.map_values(|pair: (LineNumber, isize)| (pair.0@, pair.1 as int))
}

impl View for Adjustment {
    type V = Delta;

    open spec fn view(&self) -> Delta {
        Delta {
            offset: self.shift as int,
            line: self.line_change as int,
            columns: entries_of(self.indexes_changed@),
            class: self.change,
        }
    }
}

impl Default for Adjustment {
    fn default() -> (adjustment: Adjustment)
        ensures
            adjustment@ == Delta::zero(),
    {
        let adjustment = Adjustment {
            shift: 0,
            line_change: 0,
            indexes_changed: Vec::new(),
            change: None,
        };
        assert(adjustment@.columns =~= Seq::empty());
        adjustment
    }
}

/// The sum of the column changes of pairs put together is the sum of their sums.
pub proof fn lemma_column_sum_concat(first: Seq<(int, int)>, second: Seq<(int, int)>, line: int)
    ensures
        column_sum(first + second, line) == column_sum(first, line) + column_sum(second, line),
    decreases second.len(),
{
    if second.len() == 0 {
        assert(first + second =~= first);
    } else {
        assert((first + second).drop_last() =~= first + second.drop_last());
        assert((first + second).last() == second.last());
        lemma_column_sum_concat(first, second.drop_last(), line);
    }
}

/// The sum of the column changes of one pair is its change for its line and zero for others.
pub proof fn lemma_column_sum_single(pair: (int, int), line: int)
    ensures
        column_sum(seq![pair], line) == if pair.0 == line {
            pair.1
        } else {
            0
        },
{
    assert(seq![pair].drop_last() =~= Seq::<(int, int)>::empty());
    assert(column_sum(seq![pair].drop_last(), line) == 0);
}

impl Adjustment {
    /// Creates the adjustment of one edit of kind `change` made on `line`: pointers change by
    /// `shift`, lines change by `shift` too where the edit breaks or joins lines, and the
    /// indexes of the line on which the mark then stands change by `index_change`.
    pub fn new(line: LineNumber, shift: isize, index_change: isize, change: EditClass) -> (adjustment:
        Adjustment)
        ensures
            adjustment@ == Delta::single(line@, shift as int, index_change as int, change),
    {
        let line_change = match change {
            EditClass::LineBreak => shift,
            _ => 0,
        };
        let mut indexes_changed: Vec<(LineNumber, isize)> = Vec::new();
        indexes_changed.push((line.moved(line_change), index_change));
        let adjustment = Adjustment { shift, line_change, indexes_changed, change: Some(change) };
        assert(adjustment@.columns =~= Delta::single(
            line@,
            shift as int,
            index_change as int,
            change,
        ).columns);
        adjustment
    }

    /// Creates the adjustment that pressing the key `input` at `mark` makes in `document`.
    pub fn create(input: char, mark: &Mark, document: &Document) -> (adjustment: Adjustment)
        ensures
            adjustment@ == own_delta(input, mark@, document@.text),
    {
        let length = document.len();
        let changes = match mark.pointer.0 {
            Some(index) => if input == BACKSPACE {
                1 <= index && index <= length
            } else {
                index <= length
            },
            None => false,
        };
        if !changes {
            Adjustment::default()
        } else if input == BACKSPACE {
            if mark.place.index == 0 && mark.place.line.get() > 1 {
                let above = Place::new(mark.place.line.minus(1), 0);
                Adjustment::new(
                    mark.place.line,
                    -1,
                    signed(document.line_length(&above)),
                    EditClass::LineBreak,
                )
            } else {
                Adjustment::new(mark.place.line, -1, -1, EditClass::Backspace)
            }
        } else if input == ENTER {
            Adjustment::new(mark.place.line, 1, negated(mark.place.index), EditClass::LineBreak)
        } else {
            Adjustment::new(mark.place.line, 1, 1, EditClass::Insert(input))
        }
    }

    /// Adds `other` to this adjustment.
    pub fn add_assign(&mut self, other: Adjustment)
        ensures
            final(self)@ == old(self)@.plus(other@),
    {
        self.shift = saturated_sum(self.shift, other.shift);
        self.line_change = saturated_sum(self.line_change, other.line_change);
        let mut i: usize = 0;
        while i < other.indexes_changed.len()
            invariant
                i <= other.indexes_changed@.len(),
                self.indexes_changed@ == old(self).indexes_changed@ + other.indexes_changed@.take(
                    i as int,
                ),
                self.shift == clamp_signed(old(self).shift + other.shift),
                self.line_change == clamp_signed(old(self).line_change + other.line_change),
                self.change == old(self).change,
            decreases other.indexes_changed.len() - i,
        {
            self.indexes_changed.push(other.indexes_changed[i]);
            i += 1;
            assert(other.indexes_changed@.take(i as int) == other.indexes_changed@.take(i - 1).push(
                other.indexes_changed@[i - 1],
            ));
        }
        let broken = match self.change {
            Some(EditClass::LineBreak) => true,
            _ => false,
        };
        if !broken && other.change.is_some() {
            self.change = other.change;
        }
        proof {
            assert(other.indexes_changed@.take(i as int) == other.indexes_changed@);
            assert(final(self)@.columns =~= old(self)@.plus(other@).columns);
        }
    }

    /// Returns the change that this adjustment holds for the indexes of `line`.
    pub fn index_change(&self, line: LineNumber) -> (change: i128)
        ensures
            change == self@.column_at(line@),
            -(self.indexes_changed@.len() * 0x8000_0000_0000_0000) <= change
                <= self.indexes_changed@.len() * 0x7fff_ffff_ffff_ffff,
    {
        let mut change: i128 = 0;
        let mut i: usize = 0;
        while i < self.indexes_changed.len()
            invariant
                i <= self.indexes_changed@.len(),
                change == column_sum(entries_of(self.indexes_changed@).take(i as int), line@),
                -(i * 0x8000_0000_0000_0000) <= change <= i * 0x7fff_ffff_ffff_ffff,
            decreases self.indexes_changed.len() - i,
        {
            let pair = self.indexes_changed[i];
            proof {
                let entries = entries_of(self.indexes_changed@);
                assert(entries.take(i + 1).drop_last() == entries.take(i as int));
                assert(entries.take(i + 1).last() == (pair.0@, pair.1 as int));
            }
            if pair.0.is(line) {
                change = change + pair.1 as i128;
            }
            i += 1;
        }
        proof {
            let entries = entries_of(self.indexes_changed@);
            assert(entries.take(i as int) == entries);
        }
        change
    }
}

impl Mark {
    /// Creates the mark at `place` that holds `pointer` for it.
    pub fn new(place: Place, pointer: Pointer) -> (mark: Mark)
        ensures
            mark@ == (Cursor { position: place@, offset: pointer@ }),
    {
        Mark { pointer, place }
    }

    /// Moves the mark by `adjustment`.
    pub fn adjust(&mut self, adjustment: &Adjustment)
        ensures
            final(self)@ == adjusted(old(self)@, adjustment@),
    {
        let index = match self.pointer.0 {
            Some(index) => index,
            None => {
                return ;
            },
        };
        let moved = index as i128 + adjustment.shift as i128;
        if moved < 0 || moved > usize::MAX as i128 {
            return ;
        }
        let line = self.place.line.moved(adjustment.line_change);
        let change = adjustment.index_change(line);
        assert(adjustment.indexes_changed@.len() == adjustment.indexes_changed.len());
        let column = self.place.index as i128 + change;
        self.pointer = Pointer::new(moved as usize);
        self.place = Place::new(
            line,
            if column < 0 {
                0
            } else if column > usize::MAX as i128 {
                usize::MAX
            } else {
                column as usize
            },
        );
    }
}

/// Applies the key `input` at every mark of `marks`, in order, and returns the total of the
/// adjustments with the edits on the screen that show each change.
///
/// The text of `document` and the marks end as [`pass`] says; the layout of the document is
/// not derived anew.
pub fn apply_key(document: &mut Document, marks: &mut Vec<Mark>, input: char) -> (outcome: (
    Adjustment,
    Vec<Edit>,
))
    ensures
        final(document)@ == (Buffer {
            text: pass(old(document)@, old(marks).deep_view(), input, old(marks)@.len() as int).text,
            ..old(document)@
        }),
        final(marks).deep_view() == pass(
            old(document)@,
            old(marks).deep_view(),
            input,
            old(marks)@.len() as int,
        ).marks,
        outcome.0@ == pass(
            old(document)@,
            old(marks).deep_view(),
            input,
            old(marks)@.len() as int,
        ).total,
        outcome.1.deep_view() == pass(
            old(document)@,
            old(marks).deep_view(),
            input,
            old(marks)@.len() as int,
        ).edits,
{
    let mut total = Adjustment::default();
    let mut edits: Vec<Edit> = Vec::new();
    let origin = document.origin();
    let mut i: usize = 0;
    proof {
        assert(edits.deep_view() =~= Seq::<Stroke>::empty());
    }
    while i < marks.len()
        invariant
            i <= marks@.len(),
            marks@.len() == old(marks)@.len(),
            origin.line@ == old(document)@.origin_line,
            origin.index == old(document)@.origin_index,
            document@ == (Buffer {
                text: pass(old(document)@, old(marks).deep_view(), input, i as int).text,
                ..old(document)@
            }),
            marks.deep_view() == pass(old(document)@, old(marks).deep_view(), input, i as int).marks,
            total@ == pass(old(document)@, old(marks).deep_view(), input, i as int).total,
            edits.deep_view() == pass(old(document)@, old(marks).deep_view(), input, i as int).edits,
        decreases marks.len() - i,
    {
        let ghost before = pass(old(document)@, old(marks).deep_view(), input, i as int);
        let ghost earlier = marks.deep_view();
        let ghost drawn = edits.deep_view();
        let mut mark = marks[i];
        assert(mark@ == before.marks[i as int]);
        mark.adjust(&total);
        let ghost moved = mark@;
        let own = Adjustment::create(input, &mark, document);
        match (own.change, mark.place.to_region(&origin)) {
            (Some(class), Some(region)) => {
                match class {
                    EditClass::LineBreak => {},
                    _ => {
                        edits.push(Edit::new(region, class.to_change()));
                    },
                }
            },
            _ => {},
        }
        proof {
            assert(edits.deep_view() =~= drawn + shown(moved, own@, old(document)@));
        }
        document.add(&mark, input);
        mark.adjust(&own);
        marks.set(i, mark);
        proof {
            assert(marks.deep_view() =~= earlier.update(i as int, mark@));
        }
        total.add_assign(own);
        i += 1;
    }
    (total, edits)
}

} // verus!
