//! Value types of the coordinate model: line numbers, places, pointers, lengths and sections.
//!
//! Each executable type has a view into a model made of mathematical integers. The functions
//! here are pure and total: where a sum leaves the range of a machine word, a line number or a
//! column stops at the end of the range and a pointer becomes invalid.

use vstd::prelude::*;

verus! {

/// Returns `value` where it lies between `low` and `high`, else the nearer of the two.
pub open spec fn clamp(value: int, low: int, high: int) -> int {
    if value < low {
        low
    } else if value > high {
        high
    } else {
        value
    }
}

/// Returns the distance of `value` from zero.
pub fn magnitude(value: isize) -> (distance: usize)
    ensures
        distance == if value < 0 {
            -(value as int)
        } else {
            value as int
        },
{
    if value >= 0 {
        value as usize
    } else if value == isize::MIN {
        (isize::MAX as usize) + 1
    } else {
        (-value) as usize
    }
}

/// Signifies a line number.
///
/// Line numbers start at one; there is no line zero.
#[derive(Copy, Clone, Debug, PartialEq, Eq, Hash)]
pub struct LineNumber(usize);

impl View for LineNumber {
    type V = int;

    /// The number of the line, which is at least one.
    closed spec fn view(&self) -> int {
        if self.0 == 0 {
            1
        } else {
            self.0 as int
        }
    }
}

impl LineNumber {
    #[verifier::type_invariant]
    spec fn is_positive(self) -> bool {
        self.0 >= 1
    }

    /// Every line number is at least one and fits a machine word.
    pub broadcast proof fn lemma_range(self)
        ensures
            1 <= #[trigger] self@ <= usize::MAX,
    {
    }

    /// Creates the line number `value`, or nothing where `value` is zero.
    pub fn new(value: usize) -> (line: Option<LineNumber>)
        ensures
            value == 0 <==> line is None,
            line matches Some(l) ==> l@ == value,
    {
        if value == 0 {
            None
        } else {
            Some(LineNumber(value))
        }
    }

    /// Returns the first line number.
    pub fn first() -> (line: LineNumber)
        ensures
            line@ == 1,
    {
        LineNumber(1)
    }

    /// Returns the number of the line.
    pub fn get(self) -> (value: usize)
        ensures
            value == self@,
            value >= 1,
    {
        proof {
            use_type_invariant(&self);
        }
        self.0
    }

    /// Returns the number of lines that come before this one.
    pub fn index(self) -> (index: usize)
        ensures
            index == self@ - 1,
    {
        proof {
            use_type_invariant(&self);
        }
        self.0 - 1
    }

    /// Returns the line `other` lines below this one, stopping at the last line number there is.
    pub fn plus(self, other: usize) -> (line: LineNumber)
        ensures
            line@ == clamp(self@ + other, 1, usize::MAX as int),
    {
        proof {
            use_type_invariant(&self);
        }
        LineNumber(self.0.saturating_add(other))
    }

    /// Returns the line `other` lines above this one, stopping at the first line.
    pub fn minus(self, other: usize) -> (line: LineNumber)
        ensures
            line@ == clamp(self@ - other, 1, usize::MAX as int),
    {
        proof {
            use_type_invariant(&self);
        }
        if self.0 > other {
            LineNumber(self.0 - other)
        } else {
            LineNumber(1)
        }
    }

    /// Returns the line `other` lines away from this one: below it where `other` is positive,
    /// above it where `other` is negative. The result stays within the line numbers.
    pub fn moved(self, other: isize) -> (line: LineNumber)
        ensures
            line@ == clamp(self@ + other, 1, usize::MAX as int),
    {
        if other < 0 {
            self.minus(magnitude(other))
        } else {
            self.plus(other as usize)
        }
    }

    /// Tells whether this line comes before `other`.
    pub fn precedes(self, other: LineNumber) -> (before: bool)
        ensures
            before == (self@ < other@),
    {
        self.get() < other.get()
    }

    /// Tells whether this line is `other`.
    pub fn is(self, other: LineNumber) -> (same: bool)
        ensures
            same == (self@ == other@),
    {
        self.get() == other.get()
    }
}

impl Default for LineNumber {
    fn default() -> (line: LineNumber)
        ensures
            line@ == 1,
    {
        LineNumber(1)
    }
}

/// The model of a [`Place`]: a line, counted from one, and a column, counted from zero.
///
/// Positions are ordered by line and then by column.
pub struct Position {
    pub line: int,
    pub column: int,
}

impl Position {
    /// Tells whether this position comes before `other` or is `other`.
    pub open spec fn precedes(self, other: Position) -> bool {
        self.line < other.line || (self.line == other.line && self.column <= other.column)
    }
}

/// Signifies the location of a character within a view.
#[derive(Copy, Clone, Debug, PartialEq, Eq, Hash)]
pub struct Place {
    /// The line of the character.
    pub line: LineNumber,
    /// The number of characters of the line that come before the character.
    pub index: usize,
}

impl View for Place {
    type V = Position;

    open spec fn view(&self) -> Position {
        Position { line: self.line@, column: self.index as int }
    }
}

impl DeepView for Place {
    type V = Position;

    open spec fn deep_view(&self) -> Position {
        self@
    }
}

impl Place {
    /// Creates the place at column `index` of `line`.
    pub fn new(line: LineNumber, index: usize) -> (place: Place)
        ensures
            place@ == (Position { line: line@, column: index as int }),
    {
        Place { line, index }
    }

    /// Returns the place `columns` characters further along the same line, stopping at the
    /// last column there is.
    pub fn shifted(self, columns: usize) -> (place: Place)
        ensures
            place@ == (Position {
                line: self@.line,
                column: clamp(self@.column + columns, 0, usize::MAX as int),
            }),
    {
        Place { line: self.line, index: self.index.saturating_add(columns) }
    }
}

impl Default for Place {
    fn default() -> (place: Place)
        ensures
            place@ == (Position { line: 1, column: 0 }),
    {
        Place { line: LineNumber::first(), index: 0 }
    }
}

/// An absolute index into the characters of a view, or the invalid pointer, which stands for a
/// location that does not exist.
///
/// The view of a pointer is its index, or `None` where it is invalid. Arithmetic on the invalid
/// pointer yields the invalid pointer.
#[derive(Copy, Clone, Debug, PartialEq, Eq, Hash)]
pub struct Pointer(pub Option<usize>);

impl View for Pointer {
    type V = Option<int>;

    open spec fn view(&self) -> Option<int> {
        match self.0 {
            Some(index) => Some(index as int),
            None => None,
        }
    }
}

/// Returns `offset` moved by `delta`: invalid where `offset` is, or where the sum is not an
/// index that a machine word holds.
pub open spec fn offset_moved(offset: Option<int>, delta: int) -> Option<int> {
    match offset {
        Some(index) => if 0 <= index + delta <= usize::MAX {
            Some(index + delta)
        } else {
            None
        },
        None => None,
    }
}

impl Pointer {
    /// Creates the pointer to `index`.
    pub fn new(index: usize) -> (pointer: Pointer)
        ensures
            pointer@ == Some(index as int),
    {
        Pointer(Some(index))
    }

    /// Creates the invalid pointer.
    pub fn invalid() -> (pointer: Pointer)
        ensures
            pointer@ is None,
    {
        Pointer(None)
    }

    /// Tells whether the pointer is valid.
    pub fn is_valid(&self) -> (valid: bool)
        ensures
            valid == (self@ is Some),
    {
        self.0.is_some()
    }

    /// Returns the index of a valid pointer.
    pub fn to_usize(&self) -> (index: usize)
        requires
            self@ is Some,
        ensures
            self@ == Some(index as int),
    {
        self.0.unwrap()
    }

    /// Returns the pointer `other` characters further on.
    pub fn plus(self, other: usize) -> (pointer: Pointer)
        ensures
            pointer@ == offset_moved(self@, other as int),
    {
        match self.0 {
            Some(index) => Pointer(index.checked_add(other)),
            None => Pointer(None),
        }
    }

    /// Returns the pointer `other` characters further back.
    pub fn minus(self, other: usize) -> (pointer: Pointer)
        ensures
            pointer@ == offset_moved(self@, -(other as int)),
    {
        match self.0 {
            Some(index) => Pointer(index.checked_sub(other)),
            None => Pointer(None),
        }
    }

    /// Returns the pointer moved by `other` characters: further on where `other` is positive,
    /// further back where it is negative.
    pub fn moved(self, other: isize) -> (pointer: Pointer)
        ensures
            pointer@ == offset_moved(self@, other as int),
    {
        if other < 0 {
            self.minus(magnitude(other))
        } else {
            self.plus(other as usize)
        }
    }
}

impl Default for Pointer {
    fn default() -> (pointer: Pointer)
        ensures
            pointer@ == Some(0int),
    {
        Pointer(Some(0))
    }
}

/// A number of characters, or the length that reaches to the end of the line.
///
/// The view of a length is its number of characters, or `None` where it reaches to the end of
/// the line.
#[derive(Copy, Clone, Debug, PartialEq, Eq, Hash)]
pub enum Length {
    /// A number of characters.
    Value(usize),
    /// All characters up to the end of the line.
    End,
}

impl View for Length {
    type V = Option<int>;

    open spec fn view(&self) -> Option<int> {
        match self {
            Length::Value(count) => Some(*count as int),
            Length::End => None,
        }
    }
}

impl Default for Length {
    fn default() -> (length: Length)
        ensures
            length@ == Some(0int),
    {
        Length::Value(0)
    }
}

/// The model of a [`Section`]: where it starts and how many characters it covers, `None`
/// standing for all characters up to the end of the line.
pub struct Span {
    pub start: Position,
    pub length: Option<int>,
}

/// Signifies adjacent [`Place`]s.
#[derive(Copy, Clone, Debug, PartialEq, Eq, Hash)]
pub struct Section {
    /// The first place of the section.
    pub start: Place,
    /// The number of places that the section covers.
    pub length: Length,
}

impl View for Section {
    type V = Span;

    open spec fn view(&self) -> Span {
        Span { start: self.start@, length: self.length@ }
    }
}

impl DeepView for Section {
    type V = Span;

    open spec fn deep_view(&self) -> Span {
        self@
    }
}

/// Returns the model of the section that covers all of `line`.
pub open spec fn whole_line(line: int) -> Span {
    Span { start: Position { line, column: 0 }, length: None }
}

impl Section {
    /// Creates a new `Section` that signifies an entire line.
    pub fn line(line: LineNumber) -> (section: Section)
        ensures
            section@ == whole_line(line@),
    {
        Section { start: Place { line, index: 0 }, length: Length::End }
    }

    /// Creates the section of `length` that starts at `start`.
    pub fn new(start: Place, length: Length) -> (section: Section)
        ensures
            section@ == (Span { start: start@, length: length@ }),
    {
        Section { start, length }
    }
}

impl Default for Section {
    fn default() -> (section: Section)
        ensures
            section@ == (Span { start: Position { line: 1, column: 0 }, length: Some(0int) }),
    {
        Section { start: Place::default(), length: Length::default() }
    }
}

/// Indicates a specific Place of a given Section.
#[derive(Copy, Clone, Debug, PartialEq, Eq, Hash)]
pub enum Edge {
    /// Indicates the first Place of the Section.
    Start,
    /// Indicates the last Place of the Section.
    End,
}

impl Default for Edge {
    fn default() -> (edge: Edge)
        ensures
            edge == Edge::Start,
    {
        Edge::Start
    }
}

/// The model of a [`Mark`]: a position, and the offset in the text that the mark holds for it.
pub struct Cursor {
    pub position: Position,
    pub offset: Option<int>,
}

/// An address and its respective pointer in a view.
#[derive(Copy, Clone, Debug, PartialEq, Eq, Hash)]
pub struct Mark {
    /// Pointer in view that corresponds with mark.
    pub pointer: Pointer,
    /// Place of mark.
    pub place: Place,
}

impl View for Mark {
    type V = Cursor;

    open spec fn view(&self) -> Cursor {
        Cursor { position: self.place@, offset: self.pointer@ }
    }
}

impl DeepView for Mark {
    type V = Cursor;

    open spec fn deep_view(&self) -> Cursor {
        self@
    }
}

impl Default for Mark {
    fn default() -> (mark: Mark)
        ensures
            mark@ == (Cursor { position: Position { line: 1, column: 0 }, offset: Some(0int) }),
    {
        Mark { pointer: Pointer::default(), place: Place::default() }
    }
}

} // verus!
