//! The values that describe what a user interface shall show.
//!
//! The library never draws. It hands out [`Edit`]s: each names a region of the screen and the
//! change to make there.

use crate::num::{clamp, Length};
use crate::strings::{characters, string_of};
use vstd::prelude::*;

verus! {

/// The location of a cell on the screen.
#[derive(Copy, Clone, Debug, PartialEq, Eq, Hash)]
pub struct Address {
    /// The row of the cell, counted from the top row, which is row zero.
    pub row: usize,
    /// The column of the cell, counted from the left column, which is column zero.
    pub column: usize,
}

impl Address {
    /// Creates the address of the cell at `row` and `column`.
    pub fn new(row: usize, column: usize) -> (address: Address)
        ensures
            address == (Address { row, column }),
    {
        Address { row, column }
    }
}

impl Default for Address {
    fn default() -> (address: Address)
        ensures
            address == (Address { row: 0, column: 0 }),
    {
        Address { row: 0, column: 0 }
    }
}

/// Adjacent cells of one row of the screen.
#[derive(Copy, Clone, Debug, PartialEq, Eq, Hash)]
pub struct Region {
    /// The first cell of the region.
    pub start: Address,
    /// The number of cells of the region.
    pub length: Length,
}

impl Region {
    /// Creates the region of `length` cells that starts at `start`.
    pub fn new(start: Address, length: Length) -> (region: Region)
        ensures
            region == (Region { start, length }),
    {
        Region { start, length }
    }

    /// Creates the region that covers all of `row`.
    pub fn row(row: usize) -> (region: Region)
        ensures
            region == whole_row(row),
    {
        Region { start: Address { row, column: 0 }, length: Length::End }
    }
}

impl Default for Region {
    fn default() -> (region: Region)
        ensures
            region == (Region { start: Address { row: 0, column: 0 }, length: Length::Value(0) }),
    {
        Region { start: Address { row: 0, column: 0 }, length: Length::Value(0) }
    }
}

/// The region that covers all of `row`.
pub open spec fn whole_row(row: usize) -> Region {
    Region { start: Address { row, column: 0 }, length: Length::End }
}

/// The colors in which a region can be shown.
#[derive(Copy, Clone, Debug, PartialEq, Eq, Hash)]
pub enum Color {
    /// The color of text that nothing has selected.
    Default,
    /// The color of text that the current filter matches.
    Red,
    /// The color of text that the current filter searches.
    Blue,
}

/// The model of a [`Change`], with the text of a row as a sequence of characters.
pub enum Drawing {
    Nothing,
    Clear,
    Row(Seq<char>),
    Insert(char),
    Backspace,
    Format(Color),
}

/// What shall happen to a region of the screen.
#[derive(Clone, Debug, PartialEq, Eq)]
pub enum Change {
    /// The region stays as it is.
    Nothing,
    /// The whole screen is cleared.
    Clear,
    /// The row of the region shows the given text.
    Row(String),
    /// The given character is inserted at the start of the region.
    Insert(char),
    /// The character before the start of the region is removed.
    Backspace,
    /// The region is shown in the given color.
    Format(Color),
}

impl View for Change {
    type V = Drawing;

    open spec fn view(&self) -> Drawing {
        match self {
            Change::Nothing => Drawing::Nothing,
            Change::Clear => Drawing::Clear,
            Change::Row(text) => Drawing::Row(text@),
            Change::Insert(input) => Drawing::Insert(*input),
            Change::Backspace => Drawing::Backspace,
            Change::Format(color) => Drawing::Format(*color),
        }
    }
}

/// The model of an [`Edit`].
pub struct Stroke {
    pub region: Region,
    pub change: Drawing,
}

/// A region of the screen together with the change to make there.
#[derive(Clone, Debug, PartialEq, Eq)]
pub struct Edit {
    /// Where the change is made.
    pub region: Region,
    /// The change that is made.
    pub change: Change,
}

impl View for Edit {
    type V = Stroke;

    open spec fn view(&self) -> Stroke {
        Stroke { region: self.region, change: self.change@ }
    }
}

impl DeepView for Edit {
    type V = Stroke;

    open spec fn deep_view(&self) -> Stroke {
        self@
    }
}

impl Edit {
    /// Creates the edit that makes `change` at `region`.
    pub fn new(region: Region, change: Change) -> (edit: Edit)
        ensures
            edit@ == (Stroke { region, change: change@ }),
    {
        Edit { region, change }
    }
}

/// The text of a row after `change` was made at `column` of it: a new text takes the place
/// of the old one, a character is inserted at the column, or at the end of a shorter row, and
/// a backspace removes the character before the column, if the row has one there. Every
/// other change leaves the text as it is.
pub open spec fn row_changed(row: Seq<char>, column: int, change: Drawing) -> Seq<char> {
    match change {
        Drawing::Row(text) => text,
        Drawing::Insert(input) => row.insert(clamp(column, 0, row.len() as int), input),
        Drawing::Backspace => if 1 <= column <= row.len() {
            row.remove(column - 1)
        } else {
            row
        },
        _ => row,
    }
}

/// Returns the text of a row after `change` was made at `column` of it.
pub fn change_row(row: &str, column: usize, change: &Change) -> (text: String)
    ensures
        text@ == row_changed(row@, column as int, change@),
{
    let mut cells = characters(row);
    match change {
        Change::Row(text) => text.clone(),
        Change::Insert(input) => {
            let at = if column < cells.len() {
                column
            } else {
                cells.len()
            };
            cells.insert(at, *input);
            let text = string_of(&cells, 0, cells.len());
            assert(cells@.subrange(0, cells@.len() as int) =~= cells@);
            text
        },
        Change::Backspace => {
            if 1 <= column && column <= cells.len() {
                let _ = cells.remove(column - 1);
            }
            let text = string_of(&cells, 0, cells.len());
            assert(cells@.subrange(0, cells@.len() as int) =~= cells@);
            text
        },
        _ => {
            let text = string_of(&cells, 0, cells.len());
            assert(cells@.subrange(0, cells@.len() as int) =~= cells@);
            text
        },
    }
}

/// The part of the text of a row that a region of `length` cells from `column` on covers:
/// as many characters as the row has there.
pub open spec fn row_span(row: Seq<char>, column: int, length: Length) -> Seq<char> {
    let from = clamp(column, 0, row.len() as int);
    let to = match length {
        Length::Value(count) => clamp(from + count, from, row.len() as int),
        Length::End => row.len() as int,
    };
    row.subrange(from, to)
}

/// Returns the part of the text of a row that a region of `length` cells from `column` on
/// covers.
pub fn span_of(row: &str, column: usize, length: Length) -> (text: String)
    ensures
        text@ == row_span(row@, column as int, length),
{
    let cells = characters(row);
    let from = if column < cells.len() {
        column
    } else {
        cells.len()
    };
    let to = match length {
        Length::Value(count) => if count < cells.len() - from {
            from + count
        } else {
            cells.len()
        },
        Length::End => cells.len(),
    };
    string_of(&cells, from, to)
}

/// Returns the row that shows `line` in a grid of `rows` rows whose top row shows the line
/// `first_line`: the top row for a line at or above it, and the bottom row for a line at or
/// below that one.
pub fn get_row(line: u64, first_line: u64, rows: u16) -> (row: u16)
    ensures
        row == clamp(line - first_line, 0, clamp(rows - 1, 0, u16::MAX as int)),
{
    let below: u64 = if line > first_line {
        line - first_line
    } else {
        0
    };
    let last: u16 = if rows > 0 {
        rows - 1
    } else {
        0
    };
    if below < last as u64 {
        below as u16
    } else {
        last
    }
}

} // verus!
