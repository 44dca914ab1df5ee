//! The paper: the document with its marks, its sketch and the sections that filters select.

use crate::document::{position_to_offset, region_of, Buffer, Document};
use crate::filter::{line_filtered, pattern_filtered, LineFilter, PatternFilter};
use crate::mark::{apply_key, pass, EditClass};
use crate::mode::{operations, Controller, Mode, Operation, Step};
use crate::num::{
    clamp, whole_line, Cursor, Edge, Length, LineNumber, Mark, Position, Section, Span,
};
use crate::strings::{characters, string_of};
use crate::text::{line_count, line_length, BACKSPACE};
use crate::ui::{whole_row, Change, Color, Drawing, Edit, Region, Stroke};
use vstd::prelude::*;

verus! {

/// The model of a [`Paper`].
pub struct Sheet {
    /// The current mode.
    pub mode: Mode,
    /// The document.
    pub buffer: Buffer,
    /// The text typed so far for a command, a filter or an edit.
    pub sketch: Seq<char>,
    /// The sections that the current filter selects.
    pub signals: Seq<Span>,
    /// The sections that the current filter searches.
    pub noises: Seq<Span>,
    /// The marks, in the order in which they were made.
    pub marks: Seq<Cursor>,
}

/// The sections that cover the first `count` lines whole, one for each line, in order.
pub open spec fn whole_lines(count: int) -> Seq<Span> {
    Seq::new(count as nat, |i: int| whole_line(i + 1))
}

/// The working set after the token `feature` was read: the filter named by the first
/// character of the token narrows `sections`; a token that names no filter leaves them.
pub open spec fn filtered(feature: Seq<char>, sections: Seq<Span>, text: Seq<char>) -> Seq<Span> {
    if feature.len() > 0 && feature[0] == '#' {
        line_filtered(feature, sections)
    } else if feature.len() > 0 && feature[0] == '/' {
        pattern_filtered(feature, sections, text)
    } else {
        sections
    }
}

/// The mark that is put at the edge `edge` of `span` in `text`: its position is the start of
/// the span, or for the end edge the start moved on by the length of the span, which for a
/// span that reaches to the end of the line is the length of its line; its offset is the one
/// that the text gives to that position, invalid where a machine word does not hold it.
pub open spec fn marked(edge: Edge, span: Span, text: Seq<char>) -> Cursor {
    let reach = match span.length {
        Some(length) => length,
        None => line_length(text, span.start.line),
    };
    let position = if edge == Edge::End {
        Position {
            line: span.start.line,
            column: clamp(span.start.column + reach, 0, usize::MAX as int),
        }
    } else {
        span.start
    };
    Cursor {
        position,
        offset: match position_to_offset(text, position) {
            Some(offset) => if offset <= usize::MAX {
                Some(offset)
            } else {
                None
            },
            None => None,
        },
    }
}

impl Sheet {
    /// The sheet of a paper that was just made.
    pub open spec fn blank() -> Sheet {
        Sheet {
            mode: Mode::Display,
            buffer: crate::document::loaded(Seq::empty(), Seq::empty()),
            sketch: Seq::empty(),
            signals: Seq::empty(),
            noises: Seq::empty(),
            marks: Seq::empty(),
        }
    }

    /// The sheet after the layout was derived anew and every line became a section that
    /// filters search.
    pub open spec fn noise_reset(self) -> Sheet {
        Sheet {
            noises: whole_lines(line_count(self.buffer.text) as int),
            buffer: self.buffer.cleaned(),
            ..self
        }
    }

    /// The sheet after the document was replaced by the one that holds `text` from `path`.
    pub open spec fn viewing(self, text: Seq<char>, path: Seq<char>) -> Sheet {
        Sheet {
            buffer: crate::document::loaded(text, path),
            noises: whole_lines(crate::document::loaded(text, path).line_count),
            signals: Seq::empty(),
            marks: Seq::empty(),
            ..self
        }
    }

    /// The sheet after the selected sections became the sections that filters search.
    pub open spec fn noise_reduced(self) -> Sheet {
        Sheet { noises: self.signals, ..self }
    }

    /// The sheet after the token `feature` narrowed the searched sections to the selection.
    pub open spec fn signals_filtered(self, feature: Seq<char>) -> Sheet {
        Sheet { signals: filtered(feature, self.noises, self.buffer.text), ..self }
    }

    /// The sheet after a mark was put at the edge `edge` of every selected section.
    pub open spec fn marks_set(self, edge: Edge) -> Sheet {
        Sheet {
            marks: self.signals.map_values(|span: Span| marked(edge, span, self.buffer.text)),
            ..self
        }
    }
}

/// The sketch after the key `input` was added to it: backspace takes the last character
/// away, if there is one, and every other key appends its character.
pub open spec fn sketched(sketch: Seq<char>, input: char) -> Seq<char> {
    if input == BACKSPACE {
        if sketch.len() > 0 {
            sketch.drop_last()
        } else {
            sketch
        }
    } else {
        sketch.push(input)
    }
}

/// The sketch after the keys of `text` were added to it, one after the other.
pub open spec fn sketched_all(sketch: Seq<char>, text: Seq<char>) -> Seq<char>
    decreases text.len(),
{
    if text.len() == 0 {
        sketch
    } else {
        sketched(sketched_all(sketch, text.drop_last()), text.last())
    }
}

/// Tells whether one of the keys of `text` finds nothing to take away from the sketch.
pub open spec fn rejected(sketch: Seq<char>, text: Seq<char>) -> bool
    decreases text.len(),
{
    if text.len() == 0 {
        false
    } else {
        rejected(sketch, text.drop_last()) || (text.last() == BACKSPACE && sketched_all(
            sketch,
            text.drop_last(),
        ).len() == 0)
    }
}

/// The edits that show `sections` in `color`: one for each section that the viewport of
/// `buffer` shows, in order.
pub open spec fn colored(sections: Seq<Span>, color: Color, buffer: Buffer) -> Seq<Stroke>
    decreases sections.len(),
{
    if sections.len() == 0 {
        Seq::empty()
    } else {
        colored(sections.drop_last(), color, buffer) + match region_of(
            sections.last().start,
            length_of(sections.last().length),
            buffer.origin_line,
            buffer.origin_index,
        ) {
            Some(region) => seq![Stroke { region, change: Drawing::Format(color) }],
            None => Seq::empty(),
        }
    }
}

/// The length that has the model `length`.
pub open spec fn length_of(length: Option<int>) -> Length {
    match length {
        Some(count) => Length::Value(count as usize),
        None => Length::End,
    }
}

/// The edits that show the first `height` rows in the color of text that nothing has
/// selected.
pub open spec fn background(height: int) -> Seq<Stroke> {
    Seq::new(
        height as nat,
        |i: int| Stroke { region: whole_row(i as usize), change: Drawing::Format(Color::Default) },
    )
}

impl Sheet {
    /// The sheet after the keys of `text` were added to the sketch.
    pub open spec fn sketch_added(self, text: Seq<char>) -> Sheet {
        Sheet { sketch: sketched_all(self.sketch, text), ..self }
    }

    /// The sheet with an empty sketch.
    pub open spec fn sketch_reset(self) -> Sheet {
        Sheet { sketch: Seq::empty(), ..self }
    }

    /// The edit that shows the sketch in the top row.
    pub open spec fn popup(self) -> Seq<Stroke> {
        seq![Stroke { region: whole_row(0), change: Drawing::Row(self.sketch) }]
    }

    /// The edits that show the searched sections in blue and then the selected ones in red.
    pub open spec fn filter_backgrounds(self) -> Seq<Stroke> {
        colored(self.noises, Color::Blue, self.buffer) + colored(
            self.signals,
            Color::Red,
            self.buffer,
        )
    }

    /// The first `height` of the edits that draw the document anew.
    pub open spec fn displayed(self, height: int) -> Seq<Stroke> {
        self.buffer.redrawn().take(clamp(height, 0, self.buffer.redrawn().len() as int))
    }

    /// The sheet after the key `input` was applied at every mark. Where an edit broke or
    /// joined lines, the layout of the document is derived anew.
    pub open spec fn view_updated(self, input: char) -> Sheet {
        let done = pass(self.buffer, self.marks, input, self.marks.len() as int);
        let edited = Buffer { text: done.text, ..self.buffer };
        Sheet {
            buffer: if done.total.class == Some(EditClass::LineBreak) {
                edited.cleaned()
            } else {
                edited
            },
            marks: done.marks,
            ..self
        }
    }

    /// The edits that show what the key `input` did at the marks: where an edit broke or
    /// joined lines the document is drawn anew, else each change is shown where it was made.
    pub open spec fn update_drawn(self, input: char, height: int) -> Seq<Stroke> {
        let done = pass(self.buffer, self.marks, input, self.marks.len() as int);
        if done.total.class == Some(EditClass::LineBreak) {
            self.view_updated(input).displayed(height)
        } else {
            done.edits
        }
    }

    /// The sheet after the viewport moved by `movement` lines.
    pub open spec fn scrolled(self, movement: int) -> Sheet {
        Sheet { buffer: self.buffer.scrolled(movement), ..self }
    }

    /// The sheet after `mode` was entered. Entering the display mode drops the marks, the
    /// selection and the sketch. Entering the filter mode empties the sketch, makes every
    /// line a searched section and selects them all. Entering the command mode empties the
    /// sketch. Entering the action mode or the edit mode changes nothing else.
    pub open spec fn mode_entered(self, mode: Mode) -> Sheet {
        match mode {
            Mode::Display => Sheet {
                mode,
                sketch: Seq::empty(),
                signals: Seq::empty(),
                marks: Seq::empty(),
                ..self
            },
            Mode::Filter => Sheet {
                mode,
                sketch: Seq::empty(),
                signals: self.noise_reset().noises,
                ..self.noise_reset()
            },
            Mode::Command => Sheet { mode, sketch: Seq::empty(), ..self },
            _ => Sheet { mode, ..self },
        }
    }

    /// The edits that show the entering of `mode`: the display and the edit mode draw the
    /// document anew.
    pub open spec fn mode_drawn(self, mode: Mode, height: int) -> Seq<Stroke> {
        match mode {
            Mode::Display => self.displayed(height),
            Mode::Edit => self.displayed(height),
            _ => Seq::empty(),
        }
    }
}

/// The model of a [`Notice`], with a path as a sequence of characters.
pub enum Request {
    Quit,
    Flash,
    Load(Seq<char>),
    Save,
}

/// What the editor asks of the program around it after an operation.
#[derive(Clone, Debug, PartialEq, Eq)]
pub enum Notice {
    /// The program shall end.
    Quit,
    /// The screen shall flash, because a key could not be used.
    Flash,
    /// The file at the given path shall be read and become the document.
    Load(String),
    /// The text of the document shall be written to its file.
    Save,
}

impl View for Notice {
    type V = Request;

    open spec fn view(&self) -> Request {
        match self {
            Notice::Quit => Request::Quit,
            Notice::Flash => Request::Flash,
            Notice::Load(path) => Request::Load(path@),
            Notice::Save => Request::Save,
        }
    }
}

impl DeepView for Notice {
    type V = Request;

    open spec fn deep_view(&self) -> Request {
        self@
    }
}

/// The index of the first space of `text` at or after `from`, or the length of `text` where
/// there is none.
pub open spec fn word_end(text: Seq<char>, from: int) -> int
    decreases text.len() - from,
{
    if from < 0 || from >= text.len() || text[from] == ' ' {
        from
    } else {
        word_end(text, from + 1)
    }
}

/// What the command `sketch` asks for. The word before the first space names the command:
/// `see` loads the file whose path follows the space, `put` saves the document and `end`
/// quits. Any other word asks for nothing.
pub open spec fn command(sketch: Seq<char>) -> Option<Request> {
    let end = word_end(sketch, 0);
    let name = sketch.take(end);
    if name == seq!['s', 'e', 'e'] {
        Some(
            Request::Load(
                if end < sketch.len() {
                    sketch.skip(end + 1)
                } else {
                    Seq::empty()
                },
            ),
        )
    } else if name == seq!['p', 'u', 't'] {
        Some(Request::Save)
    } else if name == seq!['e', 'n', 'd'] {
        Some(Request::Quit)
    } else {
        None
    }
}

impl Sheet {
    /// The sheet after the operation `step` was done, with a viewport of `height` rows.
    pub open spec fn operated(self, step: Step, height: int) -> Sheet {
        match step {
            Step::ChangeMode(mode) => self.mode_entered(mode),
            Step::AddToSketch(text) => self.sketch_added(text),
            Step::DrawSketch => self,
            Step::ExecuteCommand => self,
            Step::IdentifyNoise => self.noise_reduced(),
            Step::ScrollDown => self.scrolled(height / 4),
            Step::ScrollUp => self.scrolled(-(height / 4)),
            Step::SetMarks(edge) => self.marks_set(edge),
            Step::UpdateView(input) => self.view_updated(input),
        }
    }

    /// The edits that show what the operation `step` did, in a viewport of `height` rows.
    pub open spec fn drawn(self, step: Step, height: int) -> Seq<Stroke> {
        match step {
            Step::ChangeMode(mode) => self.mode_drawn(mode, height),
            Step::DrawSketch => self.popup(),
            Step::ScrollDown => self.scrolled(height / 4).displayed(height),
            Step::ScrollUp => self.scrolled(-(height / 4)).displayed(height),
            Step::UpdateView(input) => self.update_drawn(input, height),
            _ => Seq::empty(),
        }
    }

    /// What the operation `step` asks of the program: a flash where a key could not be
    /// added to the sketch, and what the command asks for where one is executed.
    pub open spec fn noticed(self, step: Step) -> Option<Request> {
        match step {
            Step::AddToSketch(text) => if rejected(self.sketch, text) {
                Some(Request::Flash)
            } else {
                None
            },
            Step::ExecuteCommand => command(self.sketch),
            _ => None,
        }
    }
}

/// The index at which the last token of the filter expression `sketch` starts, looking at
/// its first `end` characters: behind the last separator `&&`, or zero where there is none.
pub open spec fn feature_start(sketch: Seq<char>, end: int) -> int
    decreases end,
{
    if end < 2 || end > sketch.len() {
        0
    } else if sketch[end - 2] == '&' && sketch[end - 1] == '&' {
        end
    } else {
        feature_start(sketch, end - 1)
    }
}

/// The working set after the tokens of the first `end` characters of the filter expression
/// `sketch` narrowed `sections`, one after the other: the first token narrows `sections`,
/// and each later token narrows what the tokens before it left. The tokens are the texts
/// between the separators `&&`.
pub open spec fn narrowed(sketch: Seq<char>, end: int, sections: Seq<Span>, text: Seq<char>) -> Seq<
    Span,
>
    decreases end,
{
    let start = feature_start(sketch, end);
    if 2 <= start <= end {
        filtered(sketch.subrange(start, end), narrowed(sketch, start - 2, sections, text), text)
    } else if 0 <= end <= sketch.len() {
        filtered(sketch.subrange(0, end), sections, text)
    } else {
        sections
    }
}

/// The sections that the filter expression `sketch` selects from `noises` in `text`: its
/// tokens narrow `noises` one after the other.
pub open spec fn highlighted(sketch: Seq<char>, noises: Seq<Span>, text: Seq<char>) -> Seq<Span> {
    narrowed(sketch, sketch.len() as int, noises, text)
}

/// What a mode offers beyond its operations, from the sketch and the document.
#[derive(Clone, Debug, PartialEq, Eq)]
pub enum Enhancement {
    /// The sections that the filter expression typed so far selects.
    FilterSections(Vec<Section>),
}

impl Sheet {
    /// The sections that the mode offers as the selection: in the filter mode those that
    /// the tokens of the sketch select one after the other, in every other mode none.
    pub open spec fn enhancement(self) -> Option<Seq<Span>> {
        if self.mode == Mode::Filter {
            Some(highlighted(self.sketch, self.noises, self.buffer.text))
        } else {
            None
        }
    }

    /// The sheet after the mode's offer, if it made one, became the selection.
    pub open spec fn enhanced(self) -> Sheet {
        match self.enhancement() {
            Some(signals) => Sheet { signals, ..self },
            None => self,
        }
    }

    /// The edits that show the selection after the mode's offer: the first `height` rows in
    /// the plain color, then the searched and the selected sections in theirs.
    pub open spec fn enhanced_drawn(self, height: int) -> Seq<Stroke> {
        match self.enhancement() {
            Some(_) => background(height) + self.enhanced().filter_backgrounds(),
            None => Seq::empty(),
        }
    }

    /// The sheet after the operations `steps` were done, first to last.
    pub open spec fn ran(self, steps: Seq<Step>, height: int) -> Sheet
        decreases steps.len(),
    {
        if steps.len() == 0 {
            self
        } else {
            self.ran(steps.drop_last(), height).operated(steps.last(), height)
        }
    }

    /// The edits that show what the operations `steps` did, first to last.
    pub open spec fn ran_drawn(self, steps: Seq<Step>, height: int) -> Seq<Stroke>
        decreases steps.len(),
    {
        if steps.len() == 0 {
            Seq::empty()
        } else {
            self.ran_drawn(steps.drop_last(), height) + self.ran(steps.drop_last(), height).drawn(
                steps.last(),
                height,
            )
        }
    }

    /// What the operations `steps` ask of the program, first to last.
    pub open spec fn ran_noticed(self, steps: Seq<Step>, height: int) -> Seq<Request>
        decreases steps.len(),
    {
        if steps.len() == 0 {
            Seq::empty()
        } else {
            self.ran_noticed(steps.drop_last(), height) + match self.ran(
                steps.drop_last(),
                height,
            ).noticed(steps.last()) {
                Some(request) => seq![request],
                None => Seq::empty(),
            }
        }
    }

    /// The sheet after the key `input` was handled: the operations that the key stands for
    /// in the current mode are done, then the offer of the mode is taken.
    pub open spec fn stepped(self, input: char, height: int) -> Sheet {
        self.ran(operations(self.mode, input), height).enhanced()
    }

    /// The edits that show what the key `input` did.
    pub open spec fn step_drawn(self, input: char, height: int) -> Seq<Stroke> {
        self.ran_drawn(operations(self.mode, input), height) + self.ran(
            operations(self.mode, input),
            height,
        ).enhanced_drawn(height)
    }

    /// What the key `input` asks of the program.
    pub open spec fn step_noticed(self, input: char, height: int) -> Seq<Request> {
        self.ran_noticed(operations(self.mode, input), height)
    }
}

/// The viewer and editor of one document.
pub struct Paper {
    controller: Controller,
    view: Document,
    sketch: String,
    signals: Vec<Section>,
    noises: Vec<Section>,
    marks: Vec<Mark>,
}

impl View for Paper {
    type V = Sheet;

    closed spec fn view(&self) -> Sheet {
        Sheet {
            mode: self.controller@,
            buffer: self.view@,
            sketch: self.sketch@,
            signals: self.signals.deep_view(),
            noises: self.noises.deep_view(),
            marks: self.marks.deep_view(),
        }
    }
}

impl Paper {
    /// Creates a new paper application: an empty document in display mode.
    pub fn new() -> (paper: Paper)
        ensures
            paper@ == Sheet::blank(),
    {
        let paper = Paper {
            controller: Controller::default(),
            view: Document::new(),
            sketch: String::new(),
            signals: Vec::new(),
            noises: Vec::new(),
            marks: Vec::new(),
        };
        proof {
            assert(paper.signals.deep_view() =~= Seq::<Span>::empty());
            assert(paper.noises.deep_view() =~= Seq::<Span>::empty());
            assert(paper.marks.deep_view() =~= Seq::<Cursor>::empty());
        }
        paper
    }

    /// Returns the current mode.
    pub fn mode(&self) -> (mode: Mode)
        ensures
            mode == self@.mode,
    {
        self.controller.mode()
    }

    /// Returns the document.
    pub fn document(&self) -> (document: &Document)
        ensures
            document@ == self@.buffer,
    {
        &self.view
    }

    /// Returns the text typed so far.
    pub fn sketch(&self) -> (sketch: &String)
        ensures
            sketch@ == self@.sketch,
    {
        &self.sketch
    }

    /// Returns the sections that the current filter selects.
    pub fn signals(&self) -> (signals: &Vec<Section>)
        ensures
            signals.deep_view() == self@.signals,
    {
        &self.signals
    }

    /// Returns the sections that the current filter searches.
    pub fn noises(&self) -> (noises: &Vec<Section>)
        ensures
            noises.deep_view() == self@.noises,
    {
        &self.noises
    }

    /// Returns the marks.
    pub fn marks(&self) -> (marks: &Vec<Mark>)
        ensures
            marks.deep_view() == self@.marks,
    {
        &self.marks
    }

    /// Derives the layout anew and makes every line of the document a section that filters
    /// search.
    pub fn reset_noise(&mut self)
        ensures
            final(self)@ == old(self)@.noise_reset(),
    {
        self.view.clean();
        self.noises.clear();
        let count = self.view.line_count();
        let mut line: usize = 0;
        proof {
            assert(self.noises.deep_view() =~= whole_lines(0));
        }
        while line < count
            invariant
                line <= count,
                self.noises.deep_view() == whole_lines(line as int),
                self@ == (Sheet { noises: self@.noises, ..old(self)@.noise_reset() }),
            decreases count - line,
        {
            line += 1;
            let ghost before = self.noises.deep_view();
            match LineNumber::new(line) {
                Some(number) => {
                    self.noises.push(Section::line(number));
                },
                None => {},
            }
            proof {
                assert(self.noises.deep_view() =~= before.push(whole_line(line as int)));
                assert(self.noises.deep_view() =~= whole_lines(line as int));
            }
        }
    }

    /// Replaces the document by the one that holds `text`, which came from `path`: the marks
    /// and the selection are dropped, every line becomes a section that filters search, and
    /// the viewport starts at the first line.
    pub fn change_view(&mut self, text: &str, path: &str)
        ensures
            final(self)@ == old(self)@.viewing(text@, path@),
    {
        self.view = Document::with_text(text, path);
        self.marks.clear();
        self.signals.clear();
        proof {
            assert(self.signals.deep_view() =~= Seq::<Span>::empty());
            assert(self.marks.deep_view() =~= Seq::<Cursor>::empty());
        }
        self.reset_noise();
    }

    /// Makes the sections that the filter has selected the sections that the next filter
    /// searches.
    pub fn reduce_noise(&mut self)
        ensures
            final(self)@ == old(self)@.noise_reduced(),
    {
        self.noises = self.signals.clone();
        proof {
            assert(self.noises.deep_view() =~= self.signals.deep_view());
        }
    }

    /// Selects the sections that the token `feature` narrows the searched sections to.
    pub fn filter_signals(&mut self, feature: &str)
        ensures
            final(self)@ == old(self)@.signals_filtered(feature@),
    {
        let mut signals = self.noises.clone();
        proof {
            assert(signals.deep_view() =~= self.noises.deep_view());
        }
        narrow(feature, &mut signals, &self.view);
        self.signals = signals;
    }

    /// Puts a mark at the edge `edge` of every selected section, in the order of the
    /// sections, in place of the marks there were. Each mark holds the offset that the text
    /// gives to its position.
    pub fn set_marks(&mut self, edge: &Edge)
        ensures
            final(self)@ == old(self)@.marks_set(*edge),
    {
        self.marks.clear();
        let at_end = match edge {
            Edge::End => true,
            Edge::Start => false,
        };
        let mut i: usize = 0;
        let ghost all = old(self)@.marks_set(*edge).marks;
        proof {
            assert(self.marks.deep_view() =~= all.take(0));
        }
        while i < self.signals.len()
            invariant
                i <= self.signals@.len(),
                at_end == (*edge == Edge::End),
                all == old(self)@.marks_set(*edge).marks,
                self@ == (Sheet { marks: self@.marks, ..old(self)@ }),
                self.marks.deep_view() == all.take(i as int),
            decreases self.signals.len() - i,
        {
            let signal = self.signals[i];
            let place = if at_end {
                let reach = match signal.length {
                    Length::End => self.view.line_length(&signal.start),
                    Length::Value(length) => length,
                };
                signal.start.shifted(reach)
            } else {
                signal.start
            };
            let pointer = self.view.position_to_offset(&place);
            let ghost before = self.marks.deep_view();
            self.marks.push(Mark::new(place, pointer));
            proof {
                assert(self.signals.deep_view()[i as int] == signal@);
                assert(self.marks.deep_view() =~= before.push(all[i as int]));
                assert(all.take(i + 1) =~= all.take(i as int).push(all[i as int]));
            }
            i += 1;
        }
        proof {
            assert(all.take(i as int) =~= all);
        }
    }

    /// Adds the keys of `text` to the sketch, one after the other, and tells whether each
    /// of them could be: a backspace on an empty sketch cannot.
    pub fn add_to_sketch(&mut self, text: &str) -> (accepted: bool)
        ensures
            final(self)@ == old(self)@.sketch_added(text@),
            accepted == !rejected(old(self)@.sketch, text@),
    {
        let keys = characters(text);
        let mut accepted = true;
        let mut i: usize = 0;
        while i < keys.len()
            invariant
                i <= keys@.len(),
                keys@ == text@,
                self@ == old(self)@.sketch_added(keys@.take(i as int)),
                accepted == !rejected(old(self)@.sketch, keys@.take(i as int)),
            decreases keys.len() - i,
        {
            proof {
                assert(keys@.take(i + 1).drop_last() =~= keys@.take(i as int));
                assert(keys@.take(i + 1).last() == keys@[i as int]);
            }
            if keys[i] == BACKSPACE {
                match self.sketch.pop() {
                    Some(_) => {},
                    None => {
                        accepted = false;
                    },
                }
            } else {
                self.sketch.push(keys[i]);
            }
            i += 1;
        }
        proof {
            assert(keys@.take(i as int) =~= keys@);
        }
        accepted
    }

    /// Empties the sketch.
    pub fn reset_sketch(&mut self)
        ensures
            final(self)@ == old(self)@.sketch_reset(),
    {
        self.sketch.clear();
    }

    /// Returns the edit that shows the sketch in the top row.
    pub fn draw_popup(&self) -> (edits: Vec<Edit>)
        ensures
            edits.deep_view() == self@.popup(),
    {
        let mut edits: Vec<Edit> = Vec::new();
        edits.push(Edit::new(Region::row(0), Change::Row(self.sketch.clone())));
        proof {
            assert(edits.deep_view() =~= self@.popup());
        }
        edits
    }

    /// Returns the edits that show the first `height` rows in the color of text that
    /// nothing has selected.
    pub fn clear_background(&self, height: usize) -> (edits: Vec<Edit>)
        ensures
            edits.deep_view() == background(height as int),
    {
        let mut edits: Vec<Edit> = Vec::new();
        let mut row: usize = 0;
        proof {
            assert(edits.deep_view() =~= background(0));
        }
        while row < height
            invariant
                row <= height,
                edits.deep_view() == background(row as int),
            decreases height - row,
        {
            let ghost before = edits.deep_view();
            edits.push(Edit::new(Region::row(row), Change::Format(Color::Default)));
            row += 1;
            proof {
                assert(edits.deep_view() =~= before.push(
                    Stroke {
                        region: whole_row((row - 1) as usize),
                        change: Drawing::Format(Color::Default),
                    },
                ));
                assert(edits.deep_view() =~= background(row as int));
            }
        }
        edits
    }

    /// Returns the edits that show the searched sections in blue and then the selected ones
    /// in red; sections above the viewport are left out.
    pub fn draw_filter_backgrounds(&self) -> (edits: Vec<Edit>)
        ensures
            edits.deep_view() == self@.filter_backgrounds(),
    {
        let mut edits: Vec<Edit> = Vec::new();
        proof {
            assert(edits.deep_view() =~= Seq::<Stroke>::empty());
        }
        format_sections(&self.noises, Color::Blue, &self.view, &mut edits);
        format_sections(&self.signals, Color::Red, &self.view, &mut edits);
        edits
    }

    /// Returns the edits that draw the document anew, as many as `height`.
    pub fn display_view(&self, height: usize) -> (edits: Vec<Edit>)
        ensures
            edits.deep_view() == self@.displayed(height as int),
    {
        let mut edits = self.view.redraw_edits();
        if height < edits.len() {
            let ghost before = edits.deep_view();
            edits.truncate(height);
            proof {
                assert(edits.deep_view() =~= before.take(height as int));
            }
        } else {
            proof {
                assert(edits.deep_view().take(edits.deep_view().len() as int) =~= edits.deep_view());
            }
        }
        edits
    }

    /// Applies the key `input` to the text at every mark, moves the marks with the text, and
    /// returns the edits that show it: those of a viewport of `height` rows.
    pub fn update_view(&mut self, input: char, height: usize) -> (edits: Vec<Edit>)
        ensures
            final(self)@ == old(self)@.view_updated(input),
            edits.deep_view() == old(self)@.update_drawn(input, height as int),
    {
        let (total, edits) = apply_key(&mut self.view, &mut self.marks, input);
        let broken = match total.change {
            Some(EditClass::LineBreak) => true,
            _ => false,
        };
        if broken {
            self.view.clean();
            self.display_view(height)
        } else {
            edits
        }
    }

    /// Moves the viewport by `movement` lines.
    pub fn scroll(&mut self, movement: isize)
        ensures
            final(self)@ == old(self)@.scrolled(movement as int),
    {
        self.view.scroll(movement);
    }

    /// Returns the number of lines by which a scroll key moves a viewport of `height` rows.
    pub fn scroll_height(&self, height: usize) -> (lines: usize)
        ensures
            lines == height / 4,
    {
        height / 4
    }

    /// Enters `mode` and returns the edits that show it.
    pub fn change_mode(&mut self, mode: Mode, height: usize) -> (edits: Vec<Edit>)
        ensures
            final(self)@ == old(self)@.mode_entered(mode),
            edits.deep_view() == old(self)@.mode_drawn(mode, height as int),
    {
        let mut edits: Vec<Edit> = Vec::new();
        proof {
            assert(edits.deep_view() =~= Seq::<Stroke>::empty());
        }
        match mode {
            Mode::Display => {
                edits = self.display_view(height);
                self.sketch.clear();
                self.signals.clear();
                self.marks.clear();
                proof {
                    assert(self.signals.deep_view() =~= Seq::<Span>::empty());
                    assert(self.marks.deep_view() =~= Seq::<Cursor>::empty());
                }
            },
            Mode::Filter => {
                self.sketch.clear();
                self.reset_noise();
                self.signals = self.noises.clone();
                proof {
                    assert(self.signals.deep_view() =~= self.noises.deep_view());
                }
            },
            Mode::Action => {},
            Mode::Command => {
                self.sketch.clear();
            },
            Mode::Edit => {
                edits = self.display_view(height);
            },
        }
        self.controller.set_mode(mode);
        edits
    }

    /// Reads the sketch as a command and returns what it asks for.
    pub fn execute_command(&self) -> (notice: Option<Notice>)
        ensures
            notice.deep_view() == command(self@.sketch),
    {
        let keys = characters(self.sketch.as_str());
        let mut end: usize = 0;
        while end < keys.len() && keys[end] != ' '
            invariant
                end <= keys@.len(),
                word_end(keys@, 0) == word_end(keys@, end as int),
            decreases keys.len() - end,
        {
            end += 1;
        }
        let ghost name = keys@.take(end as int);
        proof {
            assert(name.len() == end);
            assert(forall|i: int| 0 <= i < end ==> name[i] == keys@[i]);
        }
        if end == 3 && keys[0] == 's' && keys[1] == 'e' && keys[2] == 'e' {
            proof {
                assert(name =~= seq!['s', 'e', 'e']);
            }
            let path = if end < keys.len() {
                string_of(&keys, end + 1, keys.len())
            } else {
                String::new()
            };
            Some(Notice::Load(path))
        } else if end == 3 && keys[0] == 'p' && keys[1] == 'u' && keys[2] == 't' {
            proof {
                assert(name =~= seq!['p', 'u', 't']);
            }
            Some(Notice::Save)
        } else if end == 3 && keys[0] == 'e' && keys[1] == 'n' && keys[2] == 'd' {
            proof {
                assert(name =~= seq!['e', 'n', 'd']);
            }
            Some(Notice::Quit)
        } else {
            proof {
                assert(seq!['s', 'e', 'e'].len() == 3 && seq!['p', 'u', 't'].len() == 3
                    && seq!['e', 'n', 'd'].len() == 3);
                assert(seq!['s', 'e', 'e'][0] == 's' && seq!['s', 'e', 'e'][1] == 'e'
                    && seq!['s', 'e', 'e'][2] == 'e');
                assert(seq!['p', 'u', 't'][0] == 'p' && seq!['p', 'u', 't'][1] == 'u'
                    && seq!['p', 'u', 't'][2] == 't');
                assert(seq!['e', 'n', 'd'][0] == 'e' && seq!['e', 'n', 'd'][1] == 'n'
                    && seq!['e', 'n', 'd'][2] == 'd');
            }
            None
        }
    }

    /// Does the operation `operation` with a viewport of `height` rows. Returns what it asks
    /// of the program around the editor, and the edits that show what it did.
    pub fn operate(&mut self, operation: &Operation, height: usize) -> (done: (
        Option<Notice>,
        Vec<Edit>,
    ))
        ensures
            final(self)@ == old(self)@.operated(operation@, height as int),
            done.0.deep_view() == old(self)@.noticed(operation@),
            done.1.deep_view() == old(self)@.drawn(operation@, height as int),
    {
        let mut notice: Option<Notice> = None;
        let mut edits: Vec<Edit> = Vec::new();
        proof {
            assert(edits.deep_view() =~= Seq::<Stroke>::empty());
        }
        match operation {
            Operation::ChangeMode(mode) => {
                edits = self.change_mode(*mode, height);
            },
            Operation::AddToSketch(text) => {
                if !self.add_to_sketch(text.as_str()) {
                    notice = Some(Notice::Flash);
                }
            },
            Operation::DrawSketch => {
                edits = self.draw_popup();
            },
            Operation::ExecuteCommand => {
                notice = self.execute_command();
            },
            Operation::IdentifyNoise => {
                self.reduce_noise();
            },
            Operation::ScrollDown => {
                let lines = self.scroll_height(height);
                self.scroll(lines as isize);
                edits = self.display_view(height);
            },
            Operation::ScrollUp => {
                let lines = self.scroll_height(height);
                self.scroll(-(lines as isize));
                edits = self.display_view(height);
            },
            Operation::SetMarks(edge) => {
                self.set_marks(edge);
            },
            Operation::UpdateView(input) => {
                edits = self.update_view(*input, height);
            },
        }
        (notice, edits)
    }

    /// Makes `enhancement` the selection and returns the edits that show it in a viewport of
    /// `height` rows.
    pub fn apply_enhancement(&mut self, enhancement: Enhancement, height: usize) -> (edits: Vec<
        Edit,
    >)
        ensures
            final(self)@ == (Sheet { signals: selection_of(enhancement), ..old(self)@ }),
            edits.deep_view() == background(height as int) + final(self)@.filter_backgrounds(),
    {
        match enhancement {
            Enhancement::FilterSections(sections) => {
                self.signals = sections;
            },
        }
        let mut edits = self.clear_background(height);
        let mut colors = self.draw_filter_backgrounds();
        let ghost first = edits.deep_view();
        let ghost second = colors.deep_view();
        edits.append(&mut colors);
        proof {
            assert(edits.deep_view() =~= first + second);
        }
        edits
    }

    /// Handles the key `input` with a viewport of `height` rows: does the operations that
    /// the key stands for in the current mode, first to last, and then takes the offer of
    /// the mode. Returns what the operations ask of the program around the editor, and the
    /// edits that show what was done.
    pub fn step(&mut self, input: char, height: usize) -> (done: (Vec<Notice>, Vec<Edit>))
        ensures
            final(self)@ == old(self)@.stepped(input, height as int),
            done.0.deep_view() == old(self)@.step_noticed(input, height as int),
            done.1.deep_view() == old(self)@.step_drawn(input, height as int),
    {
        let found = self.controller.process_input(input);
        let ghost steps = found.deep_view();
        let mut notices: Vec<Notice> = Vec::new();
        let mut edits: Vec<Edit> = Vec::new();
        let mut i: usize = 0;
        proof {
            assert(steps.take(0) =~= Seq::<Step>::empty());
            assert(notices.deep_view() =~= Seq::<Request>::empty());
            assert(edits.deep_view() =~= Seq::<Stroke>::empty());
        }
        while i < found.len()
            invariant
                i <= found@.len(),
                steps == found.deep_view(),
                steps.len() == found@.len(),
                self@ == old(self)@.ran(steps.take(i as int), height as int),
                notices.deep_view() == old(self)@.ran_noticed(steps.take(i as int), height as int),
                edits.deep_view() == old(self)@.ran_drawn(steps.take(i as int), height as int),
            decreases found.len() - i,
        {
            let ghost before = edits.deep_view();
            let ghost asked = notices.deep_view();
            proof {
                assert(steps.take(i + 1).drop_last() =~= steps.take(i as int));
                assert(steps.take(i + 1).last() == found[i as int].deep_view());
            }
            let (notice, mut more) = self.operate(&found[i], height);
            let ghost added = more.deep_view();
            edits.append(&mut more);
            match notice {
                Some(notice) => {
                    notices.push(notice);
                    proof {
                        assert(notices.deep_view() =~= asked + seq![notice@]);
                    }
                },
                None => {
                    proof {
                        assert(notices.deep_view() =~= asked + Seq::<Request>::empty());
                    }
                },
            }
            i += 1;
            proof {
                assert(edits.deep_view() =~= before + added);
            }
        }
        proof {
            assert(steps.take(i as int) =~= steps);
        }
        let ghost ran = edits.deep_view();
        match self.controller.enhance(self) {
            Some(enhancement) => {
                let mut more = self.apply_enhancement(enhancement, height);
                let ghost added = more.deep_view();
                edits.append(&mut more);
                proof {
                    assert(edits.deep_view() =~= ran + added);
                }
            },
            None => {
                proof {
                    assert(edits.deep_view() =~= ran + Seq::<Stroke>::empty());
                }
            },
        }
        (notices, edits)
    }
}

/// Appends to `edits` the edits that show `sections` in `color`, one for each section that
/// the viewport of `view` shows.
pub fn format_sections(sections: &Vec<Section>, color: Color, view: &Document, edits: &mut Vec<Edit>)
    ensures
        final(edits).deep_view() == old(edits).deep_view() + colored(
            sections.deep_view(),
            color,
            view@,
        ),
{
    let origin = view.origin();
    let mut i: usize = 0;
    proof {
        assert(sections.deep_view().take(0) =~= Seq::<Span>::empty());
        assert(edits.deep_view() =~= old(edits).deep_view() + Seq::<Stroke>::empty());
    }
    while i < sections.len()
        invariant
            i <= sections@.len(),
            origin.line@ == view@.origin_line,
            origin.index == view@.origin_index,
            edits.deep_view() == old(edits).deep_view() + colored(
                sections.deep_view().take(i as int),
                color,
                view@,
            ),
        decreases sections.len() - i,
    {
        let section = sections[i];
        let ghost before = edits.deep_view();
        proof {
            assert(sections.deep_view().take(i + 1).drop_last() =~= sections.deep_view().take(
                i as int,
            ));
            assert(sections.deep_view().take(i + 1).last() == section@);
            assert(length_of(section@.length) == section.length);
        }
        match section.to_region(&origin) {
            Some(region) => {
                edits.push(Edit::new(region, Change::Format(color)));
                proof {
                    assert(edits.deep_view() =~= before.push(
                        Stroke { region, change: Drawing::Format(color) },
                    ));
                }
            },
            None => {},
        }
        i += 1;
        proof {
            assert(edits.deep_view() =~= old(edits).deep_view() + colored(
                sections.deep_view().take(i as int),
                color,
                view@,
            ));
        }
    }
    proof {
        assert(sections.deep_view().take(i as int) =~= sections.deep_view());
    }
}

/// Narrows `sections` by the token `feature`: the filter whose sign is the first character
/// of the token reads it; a token that names no filter leaves the sections as they are.
pub fn narrow(feature: &str, sections: &mut Vec<Section>, view: &Document)
    ensures
        final(sections).deep_view() == filtered(feature@, old(sections).deep_view(), view@.text),
{
    let token = characters(feature);
    if token.len() > 0 && token[0] == LineFilter::new().id() {
        let filter = LineFilter::new();
        filter.extract(feature, sections, view);
    } else if token.len() > 0 && token[0] == PatternFilter::new().id() {
        let filter = PatternFilter::new();
        filter.extract(feature, sections, view);
    }
}

/// Returns the index at which the last token of the first `end` characters of `keys` starts.
fn token_start(keys: &Vec<char>, end: usize) -> (start: usize)
    requires
        end <= keys.len(),
    ensures
        start == feature_start(keys@, end as int),
        start == 0 || 2 <= start <= end,
{
    let mut at: usize = end;
    while at >= 2 && !(keys[at - 2] == '&' && keys[at - 1] == '&')
        invariant
            at <= end <= keys@.len(),
            feature_start(keys@, end as int) == feature_start(keys@, at as int),
        decreases at,
    {
        at -= 1;
    }
    if at < 2 {
        0
    } else {
        at
    }
}

/// Narrows `sections` by the tokens of the first `end` characters of `keys`, one after the
/// other, first to last.
fn narrow_by_tokens(keys: &Vec<char>, end: usize, sections: &mut Vec<Section>, view: &Document)
    requires
        end <= keys.len(),
    ensures
        final(sections).deep_view() == narrowed(
            keys@,
            end as int,
            old(sections).deep_view(),
            view@.text,
        ),
    decreases end,
{
    let start = token_start(keys, end);
    if start >= 2 {
        narrow_by_tokens(keys, start - 2, sections, view);
    }
    let token = string_of(keys, start, end);
    narrow(token.as_str(), sections, view);
}

/// The sections that `enhancement` offers as the selection.
pub open spec fn selection_of(enhancement: Enhancement) -> Seq<Span> {
    match enhancement {
        Enhancement::FilterSections(sections) => sections.deep_view(),
    }
}

impl Controller {
    /// Returns what the current mode offers beyond its operations for `paper`: in the
    /// filter mode the sections that the tokens of the sketch, one after the other, select
    /// from the searched sections; in every other mode nothing.
    pub fn enhance(&self, paper: &Paper) -> (offer: Option<Enhancement>)
        ensures
            match offer {
                Some(enhancement) => self@ == Mode::Filter && selection_of(enhancement)
                    == highlighted(paper@.sketch, paper@.noises, paper@.buffer.text),
                None => self@ != Mode::Filter,
            },
    {
        match self.mode() {
            Mode::Filter => {
                let keys = characters(paper.sketch.as_str());
                let mut sections = paper.noises.clone();
                proof {
                    assert(sections.deep_view() =~= paper.noises.deep_view());
                }
                narrow_by_tokens(&keys, keys.len(), &mut sections, &paper.view);
                Some(Enhancement::FilterSections(sections))
            },
            _ => None,
        }
    }
}

} // verus!
