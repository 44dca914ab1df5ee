//! The document: the text that is shown and edited, with the layout derived from it.
//!
//! A [`Document`] owns the characters, the path they came from, the number of lines counted
//! when the layout was last derived, and the origin of the viewport. Its view is a [`Buffer`].

use crate::num::{clamp, Length, LineNumber, Mark, Place, Pointer, Position, Section};
use crate::strings::string_of;
use crate::text::{
    begins_line, lemma_break_count, lemma_counted_line_starts, lemma_first_line_start,
    lemma_line_end_is, lemma_line_start_is, lemma_line_start_range, lemma_started_line_counts,
    line_count, line_end, line_length, line_start, line_text, lines, newline_count, unbroken,
    BACKSPACE, ENTER,
};
use crate::ui::{whole_row, Address, Change, Drawing, Edit, Region, Stroke};
use vstd::prelude::*;

verus! {

/// A place that other places are measured from: the origin of the viewport.
///
/// Its line is the first line shown. Its index is negative: it lies as many columns to the
/// left of the text as the line numbers and the gap after them take.
#[derive(Copy, Clone, Debug, PartialEq, Eq)]
pub struct RelativePlace {
    /// The first line that is shown.
    pub line: LineNumber,
    /// The column of the text at which the screen starts.
    pub index: isize,
}

/// The model of a [`Document`].
pub struct Buffer {
    /// The characters of the document.
    pub text: Seq<char>,
    /// The first line that is shown.
    pub origin_line: int,
    /// The column of the text at which the screen starts; negative or zero.
    pub origin_index: int,
    /// The number of lines counted when the layout was last derived.
    pub line_count: int,
    /// The path that the document came from.
    pub path: Seq<char>,
}

/// The number of decimal digits that it takes to write `number`; none for zero.
pub open spec fn digit_count(number: int) -> int
    decreases number,
{
    if number <= 0 {
        0
    } else {
        1 + digit_count(number / 10)
    }
}

/// The character that writes the digit `value`.
pub open spec fn digit(value: int) -> char {
    if value == 0 {
        '0'
    } else if value == 1 {
        '1'
    } else if value == 2 {
        '2'
    } else if value == 3 {
        '3'
    } else if value == 4 {
        '4'
    } else if value == 5 {
        '5'
    } else if value == 6 {
        '6'
    } else if value == 7 {
        '7'
    } else if value == 8 {
        '8'
    } else {
        '9'
    }
}

/// The decimal digits of `number`, the most significant first.
pub open spec fn decimal(number: int) -> Seq<char>
    decreases number,
{
    if number < 10 {
        seq![digit(number)]
    } else {
        decimal(number / 10).push(digit(number % 10))
    }
}

/// The text of a row: `number` in decimal, moved to the right by spaces until it takes `width`
/// columns, then one space, then `line`.
pub open spec fn row_text(number: int, width: int, line: Seq<char>) -> Seq<char> {
    let digits = decimal(number);
    let gap = if width > digits.len() {
        width - digits.len()
    } else {
        0
    };
    Seq::new(gap as nat, |i: int| ' ') + digits + seq![' '] + line
}

/// Tells whether a character is kept when a text is loaded: every one but the carriage return.
pub open spec fn kept(c: char) -> bool {
    c != '\r'
}

/// The index of the origin for a document of `count` lines: the width of the largest line
/// number and one column more lie to the left of the text.
pub open spec fn layout_index(count: int) -> int {
    -(digit_count(count) + 1)
}

/// The buffer of a document that was just loaded from `text`, which came from `path`.
pub open spec fn loaded(text: Seq<char>, path: Seq<char>) -> Buffer {
    let kept_text = text.filter(|c: char| kept(c));
    Buffer {
        text: kept_text,
        origin_line: 1,
        origin_index: layout_index(line_count(kept_text) as int),
        line_count: line_count(kept_text) as int,
        path,
    }
}

/// The text after the key `input` was pressed at `offset`: the character before the offset
/// is removed for backspace, and `input` is inserted at the offset otherwise. Where the
/// offset is invalid or outside of the text, or nothing stands before it to remove, the text
/// stays as it is.
pub open spec fn edited(text: Seq<char>, offset: Option<int>, input: char) -> Seq<char> {
    if editable(text, offset, input) {
        if input == BACKSPACE {
            text.remove(offset->0 - 1)
        } else {
            text.insert(offset->0, input)
        }
    } else {
        text
    }
}

/// Tells whether pressing the key `input` at `offset` changes `text`.
pub open spec fn editable(text: Seq<char>, offset: Option<int>, input: char) -> bool {
    match offset {
        Some(at) => if input == BACKSPACE {
            1 <= at <= text.len()
        } else {
            0 <= at <= text.len()
        },
        None => false,
    }
}

/// The offset that `text` gives to `position`: the start of its line plus its column, or
/// `None` where the line does not start anywhere.
pub open spec fn position_to_offset(text: Seq<char>, position: Position) -> Option<int> {
    match line_start(text, position.line) {
        Some(start) => Some(start + position.column),
        None => None,
    }
}

impl Buffer {
    /// The number of columns that the line numbers take.
    pub open spec fn margin(self) -> int {
        -self.origin_index - 1
    }

    /// The buffer after its layout was derived anew from its text.
    pub open spec fn cleaned(self) -> Buffer {
        Buffer {
            line_count: line_count(self.text) as int,
            origin_index: layout_index(line_count(self.text) as int),
            ..self
        }
    }

    /// The buffer after the viewport moved by `movement` lines. The origin stops at the
    /// first line on the way up and at the last line on the way down; in a document without
    /// lines it stays at the first.
    pub open spec fn scrolled(self, movement: int) -> Buffer {
        Buffer {
            origin_line: clamp(
                self.origin_line + movement,
                1,
                if self.line_count >= 1 {
                    self.line_count
                } else {
                    1
                },
            ),
            ..self
        }
    }

    /// The number of rows that the document fills from the origin down.
    pub open spec fn row_count(self) -> int {
        if line_count(self.text) >= self.origin_line {
            line_count(self.text) - self.origin_line + 1
        } else {
            0
        }
    }

    /// The lines from the origin down, each with its number and the text shown for it.
    pub open spec fn rendered(self) -> Seq<(int, Seq<char>)> {
        Seq::new(
            self.row_count() as nat,
            |i: int|
                (
                    self.origin_line + i,
                    row_text(
                        clamp(self.origin_line + i, 1, usize::MAX as int),
                        self.margin(),
                        line_text(self.text, self.origin_line + i),
                    ),
                ),
        )
    }

    /// The edits that draw the document anew: one that clears the screen, then one for each
    /// row from the origin down.
    pub open spec fn redrawn(self) -> Seq<Stroke> {
        Seq::new(
            (self.row_count() + 1) as nat,
            |i: int|
                if i == 0 {
                    Stroke { region: Region::default_region(), change: Drawing::Clear }
                } else {
                    Stroke {
                        region: whole_row((i - 1) as usize),
                        change: Drawing::Row(self.rendered()[i - 1].1),
                    }
                },
        )
    }
}

impl Region {
    /// The region at the top left that covers nothing.
    pub open spec fn default_region() -> Region {
        Region { start: Address { row: 0, column: 0 }, length: Length::Value(0) }
    }
}

/// The address on the screen of `position` seen from an origin at `origin_line` and
/// `origin_index`, or `None` where the position lies above the origin.
pub open spec fn address_of(position: Position, origin_line: int, origin_index: int) -> Option<
    Address,
> {
    if position.line < origin_line {
        None
    } else {
        Some(
            Address {
                row: (position.line - origin_line) as usize,
                column: clamp(position.column - origin_index, 0, usize::MAX as int) as usize,
            },
        )
    }
}

/// The region of `length` at `position` seen from an origin, or `None` where the position
/// lies above the origin.
pub open spec fn region_of(
    position: Position,
    length: Length,
    origin_line: int,
    origin_index: int,
) -> Option<Region> {
    match address_of(position, origin_line, origin_index) {
        Some(start) => Some(Region { start, length }),
        None => None,
    }
}

impl Place {
    /// Returns the address on the screen that shows this place, or nothing where the place lies
    /// above the first line shown.
    pub fn to_address(&self, origin: &RelativePlace) -> (address: Option<Address>)
        ensures
            address == address_of(self@, origin.line@, origin.index as int),
    {
        if self.line.precedes(origin.line) {
            None
        } else {
            let row = self.line.get() - origin.line.get();
            let column = if origin.index <= 0 {
                self.index.saturating_add(crate::num::magnitude(origin.index))
            } else {
                self.index.saturating_sub(origin.index as usize)
            };
            Some(Address::new(row, column))
        }
    }

    /// Returns the region of one cell on the screen that shows this place, or nothing where
    /// the place lies above the first line shown.
    pub fn to_region(&self, origin: &RelativePlace) -> (region: Option<Region>)
        ensures
            region == region_of(self@, Length::Value(1), origin.line@, origin.index as int),
    {
        match self.to_address(origin) {
            Some(address) => Some(Region::new(address, Length::Value(1))),
            None => None,
        }
    }
}

impl Section {
    /// Returns the region on the screen that shows this section, or nothing where the section
    /// lies above the first line shown.
    pub fn to_region(&self, origin: &RelativePlace) -> (region: Option<Region>)
        ensures
            region == region_of(self@.start, self.length, origin.line@, origin.index as int),
    {
        match self.start.to_address(origin) {
            Some(address) => Some(Region::new(address, self.length)),
            None => None,
        }
    }
}

/// Returns the character that writes the digit `value`.
fn digit_of(value: usize) -> (c: char)
    requires
        value < 10,
    ensures
        c == digit(value as int),
{
    if value == 0 {
        '0'
    } else if value == 1 {
        '1'
    } else if value == 2 {
        '2'
    } else if value == 3 {
        '3'
    } else if value == 4 {
        '4'
    } else if value == 5 {
        '5'
    } else if value == 6 {
        '6'
    } else if value == 7 {
        '7'
    } else if value == 8 {
        '8'
    } else {
        '9'
    }
}

/// Appends the decimal digits of `number` to `text`.
fn push_decimal(text: &mut String, number: usize)
    ensures
        final(text)@ == old(text)@ + decimal(number as int),
    decreases number,
{
    if number >= 10 {
        push_decimal(text, number / 10);
    }
    text.push(digit_of(number % 10));
}

/// Returns the number of decimal digits that it takes to write `number`, one for zero.
fn decimal_length(number: usize) -> (length: usize)
    ensures
        length == decimal(number as int).len(),
        1 <= length <= 20,
{
    let mut rest: usize = number;
    let mut length: usize = 1;
    proof {
        lemma_decimal_length(number as int);
    }
    while rest >= 10
        invariant
            length + decimal(rest as int).len() == decimal(number as int).len() + 1,
            length >= 1,
            rest * pow10(length - 1) <= usize::MAX,
            length <= 20,
        decreases rest,
    {
        proof {
            lemma_pow10_step(rest as int, length as int);
        }
        rest = rest / 10;
        length += 1;
    }
    length
}

/// Ten to the power of `exponent`.
pub open spec fn pow10(exponent: int) -> int
    decreases exponent,
{
    if exponent <= 0 {
        1
    } else {
        10 * pow10(exponent - 1)
    }
}

proof fn lemma_pow10_step(rest: int, length: int)
    requires
        rest >= 10,
        1 <= length <= 20,
        rest * pow10(length - 1) <= usize::MAX,
    ensures
        (rest / 10) * pow10(length) <= usize::MAX,
        length < 20,
{
    let p = pow10(length - 1);
    assert(pow10(length) == 10 * p);
    assert(p >= 1) by {
        lemma_pow10_positive(length - 1);
    }
    assert((rest / 10) * (10 * p) == ((rest / 10) * 10) * p) by (nonlinear_arith);
    assert((rest / 10) * 10 <= rest);
    assert(((rest / 10) * 10) * p <= rest * p) by (nonlinear_arith)
        requires
            (rest / 10) * 10 <= rest,
            p >= 1,
    ;
    if length == 20 {
        lemma_pow10_19();
        assert(rest * p >= 10 * p) by (nonlinear_arith)
            requires
                rest >= 10,
                p >= 1,
        ;
    }
}

proof fn lemma_pow10_positive(exponent: int)
    ensures
        pow10(exponent) >= 1,
    decreases exponent,
{
    if exponent > 0 {
        lemma_pow10_positive(exponent - 1);
    }
}

proof fn lemma_pow10_19()
    ensures
        pow10(19) == 10000000000000000000int,
{
    reveal_with_fuel(pow10, 21);
}

proof fn lemma_decimal_length(number: int)
    ensures
        decimal(number).len() >= 1,
    decreases number,
{
    if number >= 10 {
        lemma_decimal_length(number / 10);
    }
}

/// Returns the text of a row: `number`, moved to the right until it takes `width` columns,
/// then a space, then `line`.
pub fn row_of(number: usize, width: usize, line: &str) -> (row: String)
    ensures
        row@ == row_text(number as int, width as int, line@),
{
    let digits = decimal_length(number);
    let gap = if width > digits {
        width - digits
    } else {
        0
    };
    let mut row = String::new();
    let mut i: usize = 0;
    while i < gap
        invariant
            i <= gap,
            row@ == Seq::new(i as nat, |j: int| ' '),
        decreases gap - i,
    {
        row.push(' ');
        i += 1;
        assert(row@ =~= Seq::new(i as nat, |j: int| ' '));
    }
    push_decimal(&mut row, number);
    row.push(' ');
    row.append(line);
    assert(row@ =~= row_text(number as int, width as int, line@));
    row
}

/// Returns the number of decimal digits that it takes to write `number`; none for zero.
fn count_digits(number: usize) -> (count: usize)
    ensures
        count == digit_count(number as int),
        count <= 20,
{
    if number == 0 {
        0
    } else {
        proof {
            lemma_digit_count(number as int);
        }
        decimal_length(number)
    }
}

pub proof fn lemma_digit_count(number: int)
    requires
        number >= 1,
    ensures
        digit_count(number) == decimal(number).len(),
    decreases number,
{
    if number >= 10 {
        lemma_digit_count(number / 10);
    } else {
        assert(digit_count(number / 10) == 0);
    }
}

/// The text that is shown and edited.
#[derive(Clone, Debug)]
pub struct Document {
    data: Vec<char>,
    origin: RelativePlace,
    line_count: usize,
    path: String,
}

impl View for Document {
    type V = Buffer;

    closed spec fn view(&self) -> Buffer {
        Buffer {
            text: self.data@,
            origin_line: self.origin.line@,
            origin_index: self.origin.index as int,
            line_count: self.line_count as int,
            path: self.path@,
        }
    }
}

impl Document {
    /// The text of a document is no longer than a machine word can count.
    pub proof fn lemma_bounds(&self)
        ensures
            self@.text.len() <= usize::MAX,
    {
        assert(self.data@.len() == self.data.len());
    }

    /// Creates the document without text.
    pub fn new() -> (document: Document)
        ensures
            document@ == loaded(Seq::empty(), Seq::empty()),
    {
        proof {
            reveal(Seq::filter);
            assert(Seq::<char>::empty().filter(|c: char| kept(c)) == Seq::<char>::empty());
        }
        let mut document = Document {
            data: Vec::new(),
            origin: RelativePlace { line: LineNumber::first(), index: 0 },
            line_count: 0,
            path: String::new(),
        };
        document.clean();
        document
    }

    /// Creates the document that holds `text`, which came from `path`. Carriage returns are
    /// left out of the text, the layout is derived from it, and the viewport starts at the
    /// first line.
    pub fn with_text(text: &str, path: &str) -> (document: Document)
        ensures
            document@ == loaded(text@, path@),
    {
        let mut data: Vec<char> = Vec::new();
        for c in it: text.chars()
            invariant
                data@ == it.seq().take(it.index()).filter(|c: char| kept(c)),
                it.seq() == text@,
        {
            proof {
                let seen = it.seq().take(it.index());
                seen.lemma_filter_push(c, |c: char| kept(c));
                assert(seen.push(c) == it.seq().take(it.index() + 1));
            }
            if c != '\r' {
                data.push(c);
            }
        }
        proof {
            assert(text@.take(text@.len() as int) == text@);
        }
        let mut document = Document {
            data,
            origin: RelativePlace { line: LineNumber::first(), index: 0 },
            line_count: 0,
            path: path.to_owned(),
        };
        document.clean();
        document
    }

    /// Returns the text of the document.
    pub fn text(&self) -> (text: String)
        ensures
            text@ == self@.text,
    {
        let text = string_of(&self.data, 0, self.data.len());
        assert(self.data@.subrange(0, self.data@.len() as int) == self.data@);
        text
    }

    /// Returns the path that the document came from.
    pub fn path(&self) -> (path: &str)
        ensures
            path@ == self@.path,
    {
        self.path.as_str()
    }

    /// Returns the number of characters of the document.
    pub fn len(&self) -> (length: usize)
        ensures
            length == self@.text.len(),
    {
        self.data.len()
    }

    /// Returns the number of lines counted when the layout was last derived.
    pub fn line_count(&self) -> (count: usize)
        ensures
            count == self@.line_count,
    {
        self.line_count
    }

    /// Returns the origin of the viewport.
    pub fn origin(&self) -> (origin: RelativePlace)
        ensures
            origin.line@ == self@.origin_line,
            origin.index == self@.origin_index,
    {
        self.origin
    }

    /// Returns the offset at which `line` starts, or nothing where the text has fewer than
    /// `line - 1` line breaks.
    pub fn line_start(&self, line: LineNumber) -> (start: Option<usize>)
        ensures
            match start {
                Some(offset) => line_start(self@.text, line@) == Some(offset as int),
                None => line_start(self@.text, line@) is None,
            },
    {
        let breaks = line.index();
        if breaks == 0 {
            proof {
                lemma_first_line_start(self.data@);
            }
            return Some(0);
        }
        let mut seen: usize = 0;
        let mut i: usize = 0;
        while i < self.data.len()
            invariant
                i <= self.data.len(),
                seen == newline_count(self.data@.take(i as int)),
                seen < breaks,
                breaks == line@ - 1,
            decreases self.data.len() - i,
        {
            proof {
                lemma_break_count(self.data@, i as int);
            }
            if self.data[i] == ENTER {
                seen += 1;
                if seen == breaks {
                    proof {
                        assert(begins_line(self.data@, i + 1, line@));
                        lemma_line_start_is(self.data@, i + 1, line@);
                    }
                    return Some(i + 1);
                }
            }
            i += 1;
        }
        proof {
            assert(self.data@.take(i as int) == self.data@);
            if line_start(self.data@, line@) is Some {
                lemma_line_start_range(self.data@, line@);
            }
        }
        None
    }

    /// Returns the pointer to `place`: the start of its line moved on by its column. The
    /// pointer is invalid where the line does not start anywhere, or the sum does not fit.
    pub fn position_to_offset(&self, place: &Place) -> (pointer: Pointer)
        ensures
            pointer@ == match position_to_offset(self@.text, place@) {
                Some(offset) => if offset <= usize::MAX {
                    Some(offset)
                } else {
                    None
                },
                None => None,
            },
    {
        match self.line_start(place.line) {
            Some(start) => Pointer::new(start).plus(place.index),
            None => Pointer::invalid(),
        }
    }

    /// Returns the offset of the first line break at or after `from`, or the length of the
    /// text where there is none; `from` itself where it lies beyond the text.
    pub fn line_end(&self, from: usize) -> (end: usize)
        ensures
            end == line_end(self@.text, from as int),
            from <= end,
            from <= self@.text.len() ==> end <= self@.text.len(),
    {
        if from >= self.data.len() {
            return from;
        }
        let mut end: usize = from;
        while end < self.data.len() && self.data[end] != ENTER
            invariant
                from <= end <= self.data.len(),
                unbroken(self.data@, from as int, end as int),
            decreases self.data.len() - end,
        {
            end += 1;
        }
        proof {
            lemma_line_end_is(self.data@, from as int, end as int);
        }
        end
    }

    /// Returns the number of characters in the line of `place`, its line break not counted;
    /// zero where the line does not start anywhere.
    pub fn line_length(&self, place: &Place) -> (length: usize)
        ensures
            length == line_length(self@.text, place@.line),
    {
        match self.line_start(place.line) {
            Some(start) => {
                proof {
                    crate::text::lemma_line_start_begins(self.data@, place@.line);
                }
                self.line_end(start) - start
            },
            None => 0,
        }
    }

    /// Returns the text of `line`, or nothing where the document has fewer lines.
    pub fn line(&self, line: LineNumber) -> (text: Option<String>)
        ensures
            match text {
                Some(found) => line@ <= line_count(self@.text) && found@ == line_text(
                    self@.text,
                    line@,
                ),
                None => line@ > line_count(self@.text),
            },
    {
        proof {
            LineNumber::lemma_range(line);
        }
        match self.line_start(line) {
            Some(start) => {
                proof {
                    crate::text::lemma_line_start_begins(self.data@, line@);
                }
                if start < self.data.len() {
                    proof {
                        lemma_started_line_counts(self.data@, line@);
                    }
                    let end = self.line_end(start);
                    Some(string_of(&self.data, start, end))
                } else {
                    proof {
                        if line@ <= line_count(self.data@) {
                            lemma_counted_line_starts(self.data@, line@);
                        }
                    }
                    None
                }
            },
            None => {
                proof {
                    if line@ <= line_count(self.data@) {
                        lemma_counted_line_starts(self.data@, line@);
                    }
                }
                None
            },
        }
    }

    /// Returns the lines of the document, in order.
    pub fn lines(&self) -> (found: Vec<String>)
        ensures
            found@.len() == line_count(self@.text),
            forall|i: int| 0 <= i < found@.len() ==> (#[trigger] found@[i])@ == lines(self@.text)[i],
    {
        let mut found: Vec<String> = Vec::new();
        let mut start: usize = 0;
        let mut i: usize = 0;
        proof {
            lemma_first_line_start(self.data@);
            crate::text::lemma_line_start_begins(self.data@, 1);
        }
        while i < self.data.len()
            invariant
                start <= i <= self.data.len(),
                found@.len() == newline_count(self.data@.take(i as int)),
                begins_line(self.data@, start as int, (found@.len() + 1) as int),
                unbroken(self.data@, start as int, i as int),
                forall|j: int|
                    0 <= j < found@.len() ==> (#[trigger] found@[j])@ == line_text(
                        self.data@,
                        j + 1,
                    ),
            decreases self.data.len() - i,
        {
            proof {
                lemma_break_count(self.data@, i as int);
            }
            if self.data[i] == ENTER {
                proof {
                    lemma_line_end_is(self.data@, start as int, i as int);
                    lemma_line_start_is(self.data@, start as int, (found@.len() + 1) as int);
                }
                let ghost before = found@;
                found.push(string_of(&self.data, start, i));
                start = i + 1;
                proof {
                    assert(forall|j: int|
                        0 <= j < before.len() ==> found@[j] == #[trigger] before[j]);
                }
            }
            i += 1;
        }
        proof {
            assert(self.data@.take(i as int) == self.data@);
        }
        if start < self.data.len() {
            proof {
                lemma_line_end_is(self.data@, start as int, i as int);
                lemma_line_start_is(self.data@, start as int, (found@.len() + 1) as int);
                assert(self.data@.last() != ENTER);
            }
            let ghost before = found@;
            found.push(string_of(&self.data, start, i));
            proof {
                assert(forall|j: int| 0 <= j < before.len() ==> found@[j] == #[trigger] before[j]);
            }
        } else {
            proof {
                if self.data@.len() > 0 {
                    assert(self.data@.last() == ENTER);
                }
            }
        }
        found
    }

    /// Derives the layout from the text: counts the lines, and moves the origin so far to the
    /// left that the largest line number and a gap fit before the text.
    pub fn clean(&mut self)
        ensures
            final(self)@ == old(self)@.cleaned(),
    {
        let mut breaks: usize = 0;
        let mut i: usize = 0;
        while i < self.data.len()
            invariant
                i <= self.data.len(),
                breaks == newline_count(self.data@.take(i as int)),
                breaks <= i,
                i > 0 && self.data@[i - 1] != ENTER ==> breaks < i,
                *self == *old(self),
            decreases self.data.len() - i,
        {
            proof {
                lemma_break_count(self.data@, i as int);
            }
            if self.data[i] == ENTER {
                breaks += 1;
            }
            i += 1;
        }
        proof {
            assert(self.data@.take(i as int) == self.data@);
        }
        let length = self.data.len();
        if length > 0 && self.data[length - 1] != ENTER {
            breaks += 1;
        }
        let digits = count_digits(breaks);
        self.line_count = breaks;
        self.origin.index = -((digits + 1) as isize);
    }

    /// Moves the viewport by `movement` lines: down where it is positive, up where it is
    /// negative. The origin stops at the first line on the way up and at the last line on
    /// the way down; in a document without lines it stays at the first.
    pub fn scroll(&mut self, movement: isize)
        ensures
            final(self)@ == old(self)@.scrolled(movement as int),
    {
        let moved = self.origin.line.moved(movement);
        let limit = match LineNumber::new(self.line_count) {
            Some(last) => last,
            None => LineNumber::first(),
        };
        proof {
            LineNumber::lemma_range(self.origin.line);
        }
        if limit.precedes(moved) {
            self.origin.line = limit;
        } else {
            self.origin.line = moved;
        }
    }

    /// Applies the key `input` to the text at the pointer of `mark`: backspace removes the
    /// character before the pointer, every other key inserts its character at the pointer.
    /// Where the pointer is invalid or outside of the text, or nothing stands before it to
    /// remove, the text stays as it is. The layout is not derived anew.
    pub fn add(&mut self, mark: &Mark, input: char)
        ensures
            final(self)@ == (Buffer { text: edited(old(self)@.text, mark@.offset, input), ..old(self)@ }),
    {
        match mark.pointer.0 {
            Some(index) => {
                if input == BACKSPACE {
                    if 1 <= index && index <= self.data.len() {
                        let _ = self.data.remove(index - 1);
                    }
                } else {
                    if index <= self.data.len() {
                        self.data.insert(index, input);
                    }
                }
            },
            None => {},
        }
    }

    /// Returns the lines from the origin down, each with its number and the text shown for it:
    /// the number, moved to the right by the margin, a space and the line.
    pub fn render_lines(&self) -> (rows: Vec<(usize, String)>)
        ensures
            rows@.len() == self@.rendered().len(),
            forall|i: int|
                0 <= i < rows@.len() ==> (#[trigger] rows@[i]).0 == self@.rendered()[i].0
                    && rows@[i].1@ == self@.rendered()[i].1,
    {
        let found = self.lines();
        let first = self.origin.line.index();
        let width = if self.origin.index < 0 {
            crate::num::magnitude(self.origin.index) - 1
        } else {
            0
        };
        let mut rows: Vec<(usize, String)> = Vec::new();
        let mut i: usize = first;
        proof {
            LineNumber::lemma_range(self.origin.line);
        }
        while i < found.len()
            invariant
                first <= i,
                first == self@.origin_line - 1,
                found@.len() == line_count(self@.text),
                forall|j: int|
                    0 <= j < found@.len() ==> (#[trigger] found@[j])@ == lines(self@.text)[j],
                i <= found@.len() ==> rows@.len() == i - first,
                i > found@.len() ==> rows@.len() == 0 && i == first,
                width == clamp(self@.margin(), 0, usize::MAX as int),
                forall|j: int|
                    0 <= j < rows@.len() ==> (#[trigger] rows@[j]).0 == self@.rendered()[j].0
                        && rows@[j].1@ == self@.rendered()[j].1,
            decreases found.len() - i,
        {
            let ghost before = rows@;
            let row = row_of(i + 1, width, found[i].as_str());
            rows.push((i + 1, row));
            proof {
                assert(forall|j: int| 0 <= j < before.len() ==> rows@[j] == #[trigger] before[j]);
                let k = i - first;
                assert(self@.rendered()[k].0 == i + 1);
                assert(found@[i as int]@ == lines(self@.text)[i as int]);
                assert(row_text((i + 1) as int, width as int, found@[i as int]@)
                    == self@.rendered()[k].1) by {
                    assert(row_text(i + 1, width as int, line_text(self@.text, i + 1))
                        =~= row_text(i + 1, self@.margin(), line_text(self@.text, i + 1)));
                }
            }
            i += 1;
        }
        proof {
            assert(self@.rendered().len() == self@.row_count());
            assert(found@.len() == line_count(self@.text));
        }
        rows
    }

    /// Returns the edits that draw the document anew: one that clears the screen, then one
    /// for each row from the origin down.
    pub fn redraw_edits(&self) -> (edits: Vec<Edit>)
        ensures
            edits.deep_view() == self@.redrawn(),
    {
        let rows = self.render_lines();
        let mut edits: Vec<Edit> = Vec::new();
        edits.push(Edit::new(Region::default(), Change::Clear));
        let mut i: usize = 0;
        while i < rows.len()
            invariant
                i <= rows@.len(),
                rows@.len() == self@.rendered().len(),
                forall|j: int|
                    0 <= j < rows@.len() ==> (#[trigger] rows@[j]).0 == self@.rendered()[j].0
                        && rows@[j].1@ == self@.rendered()[j].1,
                edits@.len() == i + 1,
                forall|j: int| 0 <= j < edits@.len() ==> (#[trigger] edits@[j])@ == self@.redrawn()[j],
            decreases rows.len() - i,
        {
            let ghost before = edits@;
            let text = rows[i].1.clone();
            edits.push(Edit::new(Region::row(i), Change::Row(text)));
            proof {
                assert(forall|j: int| 0 <= j < before.len() ==> edits@[j] == #[trigger] before[j]);
            }
            i += 1;
        }
        proof {
            assert(edits.deep_view() =~= self@.redrawn());
        }
        edits
    }
}

} // verus!
