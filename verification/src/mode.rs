//! The modes of the editor, and what each key means in each of them.
//!
//! A mode turns a key into operations, which are then applied in order. The controller holds
//! nothing but the current mode; the text, the marks and the sketch live in the paper.

use crate::num::Edge;
use crate::text::{ENTER, ESC};
use vstd::prelude::*;

verus! {

/// Specifies the functionality of the editor for a given state.
#[derive(Copy, Clone, Eq, PartialEq, Hash, Debug)]
pub enum Mode {
    /// Displays the current view.
    Display,
    /// Displays the current command.
    Command,
    /// Displays the current filter expression and highlights the characters that match the filter.
    Filter,
    /// Displays the highlighting that has been selected.
    Action,
    /// Displays the current view along with the current edits.
    Edit,
}

impl Default for Mode {
    fn default() -> (mode: Mode)
        ensures
            mode == Mode::Display,
    {
        Mode::Display
    }
}

/// The model of an [`Operation`], with text as a sequence of characters.
pub enum Step {
    ChangeMode(Mode),
    AddToSketch(Seq<char>),
    DrawSketch,
    ExecuteCommand,
    IdentifyNoise,
    ScrollDown,
    ScrollUp,
    SetMarks(Edge),
    UpdateView(char),
}

/// One thing that the editor does in answer to a key.
#[derive(Clone, Debug, PartialEq, Eq)]
pub enum Operation {
    /// Enters the given mode.
    ChangeMode(Mode),
    /// Appends the given text to the sketch.
    AddToSketch(String),
    /// Shows the sketch.
    DrawSketch,
    /// Runs the sketch as a command.
    ExecuteCommand,
    /// Makes the sections that the filter has selected the sections that the next filter
    /// searches. No key asks for it: the tokens of a filter expression narrow the searched
    /// sections one after the other without it.
    IdentifyNoise,
    /// Moves the viewport down.
    ScrollDown,
    /// Moves the viewport up.
    ScrollUp,
    /// Puts a mark at the given edge of every selected section.
    SetMarks(Edge),
    /// Applies the given key to the text at every mark.
    UpdateView(char),
}

impl View for Operation {
    type V = Step;

    open spec fn view(&self) -> Step {
        match self {
            Operation::ChangeMode(mode) => Step::ChangeMode(*mode),
            Operation::AddToSketch(text) => Step::AddToSketch(text@),
            Operation::DrawSketch => Step::DrawSketch,
            Operation::ExecuteCommand => Step::ExecuteCommand,
            Operation::IdentifyNoise => Step::IdentifyNoise,
            Operation::ScrollDown => Step::ScrollDown,
            Operation::ScrollUp => Step::ScrollUp,
            Operation::SetMarks(edge) => Step::SetMarks(*edge),
            Operation::UpdateView(input) => Step::UpdateView(*input),
        }
    }
}

impl DeepView for Operation {
    type V = Step;

    open spec fn deep_view(&self) -> Step {
        self@
    }
}

/// The operations that the key `input` stands for in `mode`.
pub open spec fn operations(mode: Mode, input: char) -> Seq<Step> {
    match mode {
        Mode::Display => if input == '.' {
            seq![Step::ChangeMode(Mode::Command)]
        } else if input == '#' || input == '/' {
            seq![Step::ChangeMode(Mode::Filter), Step::AddToSketch(seq![input]), Step::DrawSketch]
        } else if input == 'j' {
            seq![Step::ScrollDown]
        } else if input == 'k' {
            seq![Step::ScrollUp]
        } else {
            Seq::empty()
        },
        Mode::Command => if input == ENTER {
            seq![Step::ExecuteCommand, Step::ChangeMode(Mode::Display)]
        } else if input == ESC {
            seq![Step::ChangeMode(Mode::Display)]
        } else {
            seq![Step::AddToSketch(seq![input]), Step::DrawSketch]
        },
        Mode::Filter => if input == ENTER {
            seq![Step::ChangeMode(Mode::Action)]
        } else if input == ESC {
            seq![Step::ChangeMode(Mode::Display)]
        } else {
            seq![Step::AddToSketch(seq![input]), Step::DrawSketch]
        },
        Mode::Action => if input == ESC {
            seq![Step::ChangeMode(Mode::Display)]
        } else if input == 'i' {
            seq![Step::SetMarks(Edge::Start), Step::ChangeMode(Mode::Edit)]
        } else if input == 'I' {
            seq![Step::SetMarks(Edge::End), Step::ChangeMode(Mode::Edit)]
        } else {
            Seq::empty()
        },
        Mode::Edit => if input == ESC {
            seq![Step::ChangeMode(Mode::Display)]
        } else {
            seq![Step::AddToSketch(seq![input]), Step::UpdateView(input)]
        },
    }
}

/// Returns the text made of the one character `input`.
fn text_of(input: char) -> (text: String)
    ensures
        text@ == seq![input],
{
    let mut text = String::new();
    text.push(input);
    assert(text@ =~= seq![input]);
    text
}

/// Returns the operations of the display mode for the key `input`.
fn display_operations(input: char) -> (found: Vec<Operation>)
    ensures
        found.deep_view() == operations(Mode::Display, input),
{
    let mut found: Vec<Operation> = Vec::new();
    if input == '.' {
        found.push(Operation::ChangeMode(Mode::Command));
    } else if input == '#' || input == '/' {
        found.push(Operation::ChangeMode(Mode::Filter));
        found.push(Operation::AddToSketch(text_of(input)));
        found.push(Operation::DrawSketch);
    } else if input == 'j' {
        found.push(Operation::ScrollDown);
    } else if input == 'k' {
        found.push(Operation::ScrollUp);
    }
    assert(found.deep_view() =~= operations(Mode::Display, input));
    found
}

/// Returns the operations of the command mode for the key `input`.
fn command_operations(input: char) -> (found: Vec<Operation>)
    ensures
        found.deep_view() == operations(Mode::Command, input),
{
    let mut found: Vec<Operation> = Vec::new();
    if input == ENTER {
        found.push(Operation::ExecuteCommand);
        found.push(Operation::ChangeMode(Mode::Display));
    } else if input == ESC {
        found.push(Operation::ChangeMode(Mode::Display));
    } else {
        found.push(Operation::AddToSketch(text_of(input)));
        found.push(Operation::DrawSketch);
    }
    assert(found.deep_view() =~= operations(Mode::Command, input));
    found
}

/// Returns the operations of the filter mode for the key `input`.
fn filter_operations(input: char) -> (found: Vec<Operation>)
    ensures
        found.deep_view() == operations(Mode::Filter, input),
{
    let mut found: Vec<Operation> = Vec::new();
    if input == ENTER {
        found.push(Operation::ChangeMode(Mode::Action));
    } else if input == ESC {
        found.push(Operation::ChangeMode(Mode::Display));
    } else {
        found.push(Operation::AddToSketch(text_of(input)));
        found.push(Operation::DrawSketch);
    }
    assert(found.deep_view() =~= operations(Mode::Filter, input));
    found
}

/// Returns the operations of the action mode for the key `input`.
fn action_operations(input: char) -> (found: Vec<Operation>)
    ensures
        found.deep_view() == operations(Mode::Action, input),
{
    let mut found: Vec<Operation> = Vec::new();
    if input == ESC {
        found.push(Operation::ChangeMode(Mode::Display));
    } else if input == 'i' {
        found.push(Operation::SetMarks(Edge::Start));
        found.push(Operation::ChangeMode(Mode::Edit));
    } else if input == 'I' {
        found.push(Operation::SetMarks(Edge::End));
        found.push(Operation::ChangeMode(Mode::Edit));
    }
    assert(found.deep_view() =~= operations(Mode::Action, input));
    found
}

/// Returns the operations of the edit mode for the key `input`.
fn edit_operations(input: char) -> (found: Vec<Operation>)
    ensures
        found.deep_view() == operations(Mode::Edit, input),
{
    let mut found: Vec<Operation> = Vec::new();
    if input == ESC {
        found.push(Operation::ChangeMode(Mode::Display));
    } else {
        found.push(Operation::AddToSketch(text_of(input)));
        found.push(Operation::UpdateView(input));
    }
    assert(found.deep_view() =~= operations(Mode::Edit, input));
    found
}

/// Decides what keys mean: it holds the current mode.
#[derive(Copy, Clone, Debug)]
pub struct Controller {
    mode: Mode,
}

impl View for Controller {
    type V = Mode;

    closed spec fn view(&self) -> Mode {
        self.mode
    }
}

impl Default for Controller {
    fn default() -> (controller: Controller)
        ensures
            controller@ == Mode::Display,
    {
        Controller { mode: Mode::Display }
    }
}

impl Controller {
    /// Returns the operations that the key `input` stands for in the current mode.
    pub fn process_input(&self, input: char) -> (found: Vec<Operation>)
        ensures
            found.deep_view() == operations(self@, input),
    {
        match self.mode {
            Mode::Display => display_operations(input),
            Mode::Command => command_operations(input),
            Mode::Filter => filter_operations(input),
            Mode::Action => action_operations(input),
            Mode::Edit => edit_operations(input),
        }
    }

    /// Makes `mode` the current mode.
    pub fn set_mode(&mut self, mode: Mode)
        ensures
            final(self)@ == mode,
    {
        self.mode = mode;
    }

    /// Returns the current mode.
    pub fn mode(&self) -> (mode: Mode)
        ensures
            mode == self@,
    {
        self.mode
    }
}

} // verus!
