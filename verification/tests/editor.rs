use paper::{
    Address, Change, Color, Controller, Edge, Edit, Enhancement, Length, LineNumber, Mark, Mode,
    Notice, Operation, Paper, Place, Pointer, Region, Section, BACKSPACE, ENTER, ESC,
};

fn line(number: usize) -> LineNumber {
    LineNumber::new(number).unwrap()
}

fn whole_lines(count: usize) -> Vec<Section> {
    (1..=count).map(|number| Section::line(line(number))).collect()
}

fn part(number: usize, index: usize, length: usize) -> Section {
    Section::new(Place::new(line(number), index), Length::Value(length))
}

fn mark_at(number: usize, index: usize, pointer: usize) -> Mark {
    Mark::new(Place::new(line(number), index), Pointer::new(pointer))
}

fn viewing(text: &str) -> Paper {
    let mut paper = Paper::new();
    paper.change_view(text, "file.txt");
    paper
}

fn typed(paper: &mut Paper, keys: &str, height: usize) -> (Vec<Notice>, Vec<Edit>) {
    let mut notices = Vec::new();
    let mut edits = Vec::new();
    for key in keys.chars() {
        let (mut asked, mut drawn) = paper.step(key, height);
        notices.append(&mut asked);
        edits.append(&mut drawn);
    }
    (notices, edits)
}

fn format(row: usize, column: usize, length: Length, color: Color) -> Edit {
    Edit::new(Region::new(Address::new(row, column), length), Change::Format(color))
}

fn row(row: usize, text: &str) -> Edit {
    Edit::new(Region::row(row), Change::Row(text.to_string()))
}

fn clear() -> Edit {
    Edit::new(Region::default(), Change::Clear)
}

#[test]
fn new_paper_is_blank() {
    let paper = Paper::new();
    assert_eq!(paper.mode(), Mode::Display);
    assert_eq!(paper.sketch(), "");
    assert_eq!(paper.document().text(), "");
    assert_eq!(paper.document().path(), "");
    assert!(paper.signals().is_empty());
    assert!(paper.noises().is_empty());
    assert!(paper.marks().is_empty());
}

#[test]
fn change_view_replaces_the_document() {
    let mut paper = viewing("a\nb\nc");
    assert_eq!(paper.document().text(), "a\nb\nc");
    assert_eq!(paper.document().path(), "file.txt");
    assert_eq!(paper.noises(), &whole_lines(3));
    paper.filter_signals("#2");
    paper.set_marks(&Edge::Start);
    paper.scroll(2);
    paper.change_view("x\ny", "other.txt");
    assert_eq!(paper.document().text(), "x\ny");
    assert_eq!(paper.document().path(), "other.txt");
    assert_eq!(paper.document().origin().line, line(1));
    assert_eq!(paper.noises(), &whole_lines(2));
    assert!(paper.marks().is_empty());
    assert!(paper.signals().is_empty());
}

#[test]
fn sketch_takes_keys_and_backspaces() {
    let mut paper = Paper::new();
    assert!(paper.add_to_sketch("ab"));
    assert_eq!(paper.sketch(), "ab");
    assert!(paper.add_to_sketch("\u{8}"));
    assert_eq!(paper.sketch(), "a");
    assert!(paper.add_to_sketch("\u{8}c"));
    assert_eq!(paper.sketch(), "c");
    assert!(!paper.add_to_sketch("\u{8}\u{8}d"));
    assert_eq!(paper.sketch(), "d");
    paper.reset_sketch();
    assert_eq!(paper.sketch(), "");
    assert!(!paper.add_to_sketch("\u{8}"));
    assert_eq!(paper.sketch(), "");
    assert!(paper.add_to_sketch(""));
}

#[test]
fn popup_shows_the_sketch_in_the_top_row() {
    let mut paper = Paper::new();
    paper.add_to_sketch("see x");
    assert_eq!(paper.draw_popup(), vec![row(0, "see x")]);
}

#[test]
fn clear_background_formats_each_row() {
    let paper = Paper::new();
    assert_eq!(
        paper.clear_background(3),
        vec![
            format(0, 0, Length::End, Color::Default),
            format(1, 0, Length::End, Color::Default),
            format(2, 0, Length::End, Color::Default),
        ]
    );
    assert!(paper.clear_background(0).is_empty());
}

#[test]
fn filter_signals_picks_the_filter_by_the_first_character() {
    let mut paper = viewing("ab\ncab\nab ab");
    paper.filter_signals("#2.3");
    assert_eq!(paper.signals(), &vec![Section::line(line(2)), Section::line(line(3))]);
    paper.filter_signals("/ab");
    assert_eq!(paper.signals(), &vec![part(1, 0, 2), part(2, 1, 2), part(3, 0, 2), part(3, 3, 2)]);
    paper.filter_signals("x");
    assert_eq!(paper.signals(), &whole_lines(3));
    paper.filter_signals("");
    assert_eq!(paper.signals(), &whole_lines(3));
}

#[test]
fn reduce_noise_narrows_what_the_next_filter_searches() {
    let mut paper = viewing("ab\ncab\nab ab");
    paper.filter_signals("#2.3");
    paper.reduce_noise();
    assert_eq!(paper.noises(), &vec![Section::line(line(2)), Section::line(line(3))]);
    paper.filter_signals("/ab");
    assert_eq!(paper.signals(), &vec![part(2, 1, 2), part(3, 0, 2), part(3, 3, 2)]);
    paper.reduce_noise();
    paper.filter_signals("#3");
    assert_eq!(paper.signals(), &vec![part(3, 0, 2), part(3, 3, 2)]);
    paper.reset_noise();
    assert_eq!(paper.noises(), &whole_lines(3));
}

#[test]
fn filter_backgrounds_show_noises_in_blue_and_signals_in_red() {
    let mut paper = viewing("ab\ncab\nab ab");
    paper.filter_signals("/ca");
    assert_eq!(
        paper.draw_filter_backgrounds(),
        vec![
            format(0, 2, Length::End, Color::Blue),
            format(1, 2, Length::End, Color::Blue),
            format(2, 2, Length::End, Color::Blue),
            format(1, 2, Length::Value(2), Color::Red),
        ]
    );
    paper.scroll(1);
    assert_eq!(
        paper.draw_filter_backgrounds(),
        vec![
            format(0, 2, Length::End, Color::Blue),
            format(1, 2, Length::End, Color::Blue),
            format(0, 2, Length::Value(2), Color::Red),
        ]
    );
}

#[test]
fn set_marks_at_the_start_of_each_signal() {
    let mut paper = viewing("ab\ncab\nab ab");
    paper.filter_signals("/ab");
    paper.set_marks(&Edge::Start);
    assert_eq!(
        paper.marks(),
        &vec![mark_at(1, 0, 0), mark_at(2, 1, 4), mark_at(3, 0, 7), mark_at(3, 3, 10)]
    );
}

#[test]
fn set_marks_at_the_end_of_each_signal() {
    let mut paper = viewing("ab\ncab\nab ab");
    paper.filter_signals("/ab");
    paper.set_marks(&Edge::End);
    assert_eq!(
        paper.marks(),
        &vec![mark_at(1, 2, 2), mark_at(2, 3, 6), mark_at(3, 2, 9), mark_at(3, 5, 12)]
    );
    paper.filter_signals("#2");
    paper.set_marks(&Edge::End);
    assert_eq!(paper.marks(), &vec![mark_at(2, 3, 6)]);
    paper.set_marks(&Edge::Start);
    assert_eq!(paper.marks(), &vec![mark_at(2, 0, 3)]);
}

#[test]
fn set_marks_twice_gives_the_same_marks() {
    let mut paper = viewing("ab\ncab\nab ab");
    paper.filter_signals("/ab");
    paper.set_marks(&Edge::Start);
    let first = paper.marks().clone();
    paper.set_marks(&Edge::Start);
    assert_eq!(paper.marks(), &first);
    assert_eq!(first.len(), 4);
}

#[test]
fn set_marks_without_signals_gives_no_marks() {
    let mut paper = viewing("ab");
    paper.filter_signals("#1");
    paper.set_marks(&Edge::Start);
    assert_eq!(paper.marks().len(), 1);
    paper.filter_signals("#3");
    paper.set_marks(&Edge::Start);
    assert!(paper.marks().is_empty());
}

#[test]
fn display_view_draws_as_many_edits_as_rows() {
    let paper = viewing("a\nb\nc");
    assert_eq!(paper.display_view(9), vec![clear(), row(0, "1 a"), row(1, "2 b"), row(2, "3 c")]);
    assert_eq!(paper.display_view(2), vec![clear(), row(0, "1 a")]);
    assert!(paper.display_view(0).is_empty());
}

#[test]
fn scroll_height_is_a_quarter_of_the_viewport() {
    let paper = Paper::new();
    assert_eq!(paper.scroll_height(0), 0);
    assert_eq!(paper.scroll_height(3), 0);
    assert_eq!(paper.scroll_height(4), 1);
    assert_eq!(paper.scroll_height(23), 5);
    assert_eq!(paper.scroll_height(usize::MAX), usize::MAX / 4);
}

#[test]
fn scroll_keys_move_by_a_quarter_of_the_viewport() {
    let mut paper = viewing("1\n2\n3\n4\n5\n6\n7\n8\n9");
    let (notices, edits) = paper.step('j', 8);
    assert!(notices.is_empty());
    assert_eq!(paper.document().origin().line, line(3));
    assert_eq!(
        edits,
        vec![
            clear(),
            row(0, "3 3"),
            row(1, "4 4"),
            row(2, "5 5"),
            row(3, "6 6"),
            row(4, "7 7"),
            row(5, "8 8"),
            row(6, "9 9"),
        ]
    );
    let _ = paper.step('j', 8);
    assert_eq!(paper.document().origin().line, line(5));
    let _ = paper.step('k', 8);
    assert_eq!(paper.document().origin().line, line(3));
    let _ = paper.step('k', 16);
    assert_eq!(paper.document().origin().line, line(1));
    let _ = paper.step('j', 3);
    assert_eq!(paper.document().origin().line, line(1));
    assert_eq!(paper.mode(), Mode::Display);
}

#[test]
fn typing_a_filter_highlights_the_selection() {
    let mut paper = viewing("a\nb\nc");
    let (notices, edits) = paper.step('#', 2);
    assert!(notices.is_empty());
    assert_eq!(paper.mode(), Mode::Filter);
    assert_eq!(paper.sketch(), "#");
    assert_eq!(paper.signals(), &whole_lines(3));
    assert_eq!(
        edits,
        vec![
            row(0, "#"),
            format(0, 0, Length::End, Color::Default),
            format(1, 0, Length::End, Color::Default),
            format(0, 2, Length::End, Color::Blue),
            format(1, 2, Length::End, Color::Blue),
            format(2, 2, Length::End, Color::Blue),
            format(0, 2, Length::End, Color::Red),
            format(1, 2, Length::End, Color::Red),
            format(2, 2, Length::End, Color::Red),
        ]
    );
    let (_, edits) = paper.step('2', 2);
    assert_eq!(paper.sketch(), "#2");
    assert_eq!(paper.signals(), &vec![Section::line(line(2))]);
    assert_eq!(
        edits,
        vec![
            row(0, "#2"),
            format(0, 0, Length::End, Color::Default),
            format(1, 0, Length::End, Color::Default),
            format(0, 2, Length::End, Color::Blue),
            format(1, 2, Length::End, Color::Blue),
            format(2, 2, Length::End, Color::Blue),
            format(1, 2, Length::End, Color::Red),
        ]
    );
}

#[test]
fn filter_then_edit_changes_the_text_at_the_marks() {
    let mut paper = viewing("a\nb\nc");
    let _ = typed(&mut paper, "#2", 4);
    let (notices, edits) = paper.step(ENTER, 4);
    assert!(notices.is_empty());
    assert!(edits.is_empty());
    assert_eq!(paper.mode(), Mode::Action);
    assert_eq!(paper.signals(), &vec![Section::line(line(2))]);
    let (_, edits) = paper.step('i', 4);
    assert_eq!(paper.mode(), Mode::Edit);
    assert_eq!(paper.marks(), &vec![mark_at(2, 0, 2)]);
    assert_eq!(edits, vec![clear(), row(0, "1 a"), row(1, "2 b"), row(2, "3 c")]);
    let (_, edits) = paper.step('x', 4);
    assert_eq!(paper.document().text(), "a\nxb\nc");
    assert_eq!(paper.marks(), &vec![mark_at(2, 1, 3)]);
    assert_eq!(
        edits,
        vec![Edit::new(Region::new(Address::new(1, 2), Length::Value(1)), Change::Insert('x'))]
    );
    let (_, edits) = paper.step(ENTER, 4);
    assert_eq!(paper.document().text(), "a\nx\nb\nc");
    assert_eq!(paper.document().line_count(), 4);
    assert_eq!(paper.marks(), &vec![mark_at(3, 0, 4)]);
    assert_eq!(edits, vec![clear(), row(0, "1 a"), row(1, "2 x"), row(2, "3 b")]);
    let (_, edits) = paper.step(BACKSPACE, 4);
    assert_eq!(paper.document().text(), "a\nxb\nc");
    assert_eq!(paper.marks(), &vec![mark_at(2, 1, 3)]);
    assert_eq!(edits, vec![clear(), row(0, "1 a"), row(1, "2 xb"), row(2, "3 c")]);
    let (_, edits) = paper.step(BACKSPACE, 4);
    assert_eq!(paper.document().text(), "a\nb\nc");
    assert_eq!(
        edits,
        vec![Edit::new(Region::new(Address::new(1, 3), Length::Value(1)), Change::Backspace)]
    );
    let (_, edits) = paper.step(ESC, 4);
    assert_eq!(paper.mode(), Mode::Display);
    assert!(paper.marks().is_empty());
    assert!(paper.signals().is_empty());
    assert_eq!(paper.sketch(), "");
    assert_eq!(edits, vec![clear(), row(0, "1 a"), row(1, "2 b"), row(2, "3 c")]);
}

#[test]
fn chained_filters_narrow_the_previous_selection() {
    let mut paper = viewing("ab\ncab\nab ab");
    let _ = typed(&mut paper, "#1.2", 4);
    assert_eq!(paper.signals(), &vec![Section::line(line(1)), Section::line(line(2))]);
    let _ = paper.step('&', 4);
    assert_eq!(paper.sketch(), "#1.2&");
    assert_eq!(paper.signals(), &whole_lines(3));
    let _ = paper.step('&', 4);
    assert_eq!(paper.sketch(), "#1.2&&");
    assert_eq!(paper.noises(), &whole_lines(3));
    assert_eq!(paper.signals(), &vec![Section::line(line(1)), Section::line(line(2))]);
    let _ = paper.step('/', 4);
    assert!(paper.signals().is_empty());
    let _ = typed(&mut paper, "ab", 4);
    assert_eq!(paper.sketch(), "#1.2&&/ab");
    assert_eq!(paper.signals(), &vec![part(1, 0, 2), part(2, 1, 2)]);
    let _ = typed(&mut paper, "&&#2", 4);
    assert_eq!(paper.signals(), &vec![part(2, 1, 2)]);
    let _ = typed(&mut paper, "\u{8}\u{8}\u{8}\u{8}", 4);
    assert_eq!(paper.sketch(), "#1.2&&/ab");
    assert_eq!(paper.signals(), &vec![part(1, 0, 2), part(2, 1, 2)]);
    let _ = typed(&mut paper, "\nIx", 4);
    assert_eq!(paper.document().text(), "abx\ncabx\nab ab");
    assert_eq!(paper.marks(), &vec![mark_at(1, 3, 3), mark_at(2, 4, 8)]);
}

#[test]
fn entering_filter_again_searches_every_line() {
    let mut paper = viewing("ab\ncab\nab ab");
    let _ = typed(&mut paper, "#1", 4);
    paper.reduce_noise();
    assert_eq!(paper.noises(), &vec![Section::line(line(1))]);
    let _ = paper.step(ESC, 4);
    assert_eq!(paper.mode(), Mode::Display);
    let _ = paper.step('/', 4);
    assert_eq!(paper.noises(), &whole_lines(3));
    assert_eq!(paper.sketch(), "/");
}

#[test]
fn tokens_of_the_sketch_narrow_one_after_the_other() {
    let mut paper = viewing("ab\ncab\nab ab\nxx");
    let mut controller = Controller::default();
    controller.set_mode(Mode::Filter);
    let offered = |paper: &Paper| match controller.enhance(paper) {
        Some(Enhancement::FilterSections(sections)) => sections,
        None => panic!("the filter mode offers a selection"),
    };
    assert_eq!(offered(&paper), whole_lines(4));
    paper.add_to_sketch("#2.4");
    assert_eq!(offered(&paper), vec![Section::line(line(2)), Section::line(line(3)), Section::line(line(4))]);
    paper.add_to_sketch("&&");
    assert_eq!(offered(&paper), vec![Section::line(line(2)), Section::line(line(3)), Section::line(line(4))]);
    paper.add_to_sketch("/ab");
    assert_eq!(offered(&paper), vec![part(2, 1, 2), part(3, 0, 2), part(3, 3, 2)]);
    paper.add_to_sketch("&&#3");
    assert_eq!(offered(&paper), vec![part(3, 0, 2), part(3, 3, 2)]);
    paper.add_to_sketch("&&/b");
    assert_eq!(offered(&paper), vec![part(3, 1, 1), part(3, 4, 1), part(3, 4, 1)]);
    paper.add_to_sketch("&&#1");
    assert_eq!(offered(&paper), Vec::<Section>::new());
    paper.reset_sketch();
    paper.add_to_sketch("/a&b&&&#2");
    assert_eq!(offered(&paper), Vec::<Section>::new());
    paper.reset_sketch();
    paper.add_to_sketch("#2&&#9x");
    assert_eq!(offered(&paper), vec![Section::line(line(2))]);
    paper.reset_sketch();
    paper.add_to_sketch("#2&&&#3");
    assert_eq!(offered(&paper), vec![Section::line(line(3))]);
}

#[test]
fn enhance_offers_the_selection_in_filter_mode_only() {
    let mut paper = viewing("a\nb\nc");
    paper.add_to_sketch("#3");
    let mut controller = Controller::default();
    assert_eq!(controller.enhance(&paper), None);
    for mode in [Mode::Command, Mode::Action, Mode::Edit] {
        controller.set_mode(mode);
        assert_eq!(controller.enhance(&paper), None);
    }
    controller.set_mode(Mode::Filter);
    assert_eq!(
        controller.enhance(&paper),
        Some(Enhancement::FilterSections(vec![Section::line(line(3))]))
    );
    assert!(paper.signals().is_empty());
}

#[test]
fn apply_enhancement_sets_the_selection_and_draws_it() {
    let mut paper = viewing("a\nb");
    let edits = paper.apply_enhancement(Enhancement::FilterSections(vec![part(2, 0, 1)]), 1);
    assert_eq!(paper.signals(), &vec![part(2, 0, 1)]);
    assert_eq!(
        edits,
        vec![
            format(0, 0, Length::End, Color::Default),
            format(0, 2, Length::End, Color::Blue),
            format(1, 2, Length::End, Color::Blue),
            format(1, 2, Length::Value(1), Color::Red),
        ]
    );
}

#[test]
fn command_see_asks_for_the_file() {
    let mut paper = Paper::new();
    let (notices, _) = typed(&mut paper, ".see notes/a b.txt", 4);
    assert!(notices.is_empty());
    assert_eq!(paper.mode(), Mode::Command);
    assert_eq!(paper.sketch(), "see notes/a b.txt");
    assert_eq!(paper.execute_command(), Some(Notice::Load("notes/a b.txt".to_string())));
    let (notices, _) = paper.step(ENTER, 4);
    assert_eq!(notices, vec![Notice::Load("notes/a b.txt".to_string())]);
    assert_eq!(paper.mode(), Mode::Display);
    assert_eq!(paper.sketch(), "");
}

#[test]
fn command_end_asks_to_quit() {
    let mut paper = Paper::new();
    let (notices, _) = typed(&mut paper, ".end\n", 4);
    assert_eq!(notices, vec![Notice::Quit]);
    assert_eq!(paper.mode(), Mode::Display);
}

#[test]
fn command_put_asks_to_save() {
    let mut paper = viewing("abc");
    let (notices, _) = typed(&mut paper, ".put\n", 4);
    assert_eq!(notices, vec![Notice::Save]);
    assert_eq!(paper.document().text(), "abc");
}

#[test]
fn unknown_commands_ask_for_nothing() {
    for command in ["", "quit", "see2", "ends", "en", " end", "END", "Put", "seeput"] {
        let mut paper = Paper::new();
        paper.add_to_sketch(command);
        assert_eq!(paper.execute_command(), None, "command {:?}", command);
    }
}

#[test]
fn commands_are_named_by_the_first_word() {
    let mut paper = Paper::new();
    paper.add_to_sketch("see");
    assert_eq!(paper.execute_command(), Some(Notice::Load(String::new())));
    paper.add_to_sketch(" ");
    assert_eq!(paper.execute_command(), Some(Notice::Load(String::new())));
    paper.reset_sketch();
    paper.add_to_sketch("end now");
    assert_eq!(paper.execute_command(), Some(Notice::Quit));
    paper.reset_sketch();
    paper.add_to_sketch("put it");
    assert_eq!(paper.execute_command(), Some(Notice::Save));
}

#[test]
fn escape_in_command_mode_discards_the_sketch() {
    let mut paper = Paper::new();
    let (notices, _) = typed(&mut paper, ".end", 4);
    assert!(notices.is_empty());
    let (notices, _) = paper.step(ESC, 4);
    assert!(notices.is_empty());
    assert_eq!(paper.mode(), Mode::Display);
    assert_eq!(paper.sketch(), "");
}

#[test]
fn backspace_on_an_empty_sketch_asks_for_a_flash() {
    let mut paper = Paper::new();
    let _ = paper.step('.', 4);
    let (notices, edits) = paper.step(BACKSPACE, 4);
    assert_eq!(notices, vec![Notice::Flash]);
    assert_eq!(edits, vec![row(0, "")]);
    let _ = paper.step('e', 4);
    let (notices, edits) = paper.step(BACKSPACE, 4);
    assert!(notices.is_empty());
    assert_eq!(edits, vec![row(0, "")]);
}

#[test]
fn operate_does_one_operation() {
    let mut paper = viewing("a\nb\nc\nd");
    assert_eq!(paper.operate(&Operation::AddToSketch("#4".to_string()), 4), (None, vec![]));
    assert_eq!(paper.operate(&Operation::DrawSketch, 4), (None, vec![row(0, "#4")]));
    assert_eq!(paper.operate(&Operation::ExecuteCommand, 4), (None, vec![]));
    paper.filter_signals("#4");
    assert_eq!(paper.operate(&Operation::IdentifyNoise, 4), (None, vec![]));
    assert_eq!(paper.noises(), &vec![Section::line(line(4))]);
    assert_eq!(paper.operate(&Operation::SetMarks(Edge::End), 4), (None, vec![]));
    assert_eq!(paper.marks(), &vec![mark_at(4, 1, 7)]);
    let (notice, edits) = paper.operate(&Operation::ScrollDown, 4);
    assert_eq!(notice, None);
    assert_eq!(edits, vec![clear(), row(0, "2 b"), row(1, "3 c"), row(2, "4 d")]);
    let (_, edits) = paper.operate(&Operation::UpdateView('!'), 4);
    assert_eq!(
        edits,
        vec![Edit::new(Region::new(Address::new(2, 3), Length::Value(1)), Change::Insert('!'))]
    );
    assert_eq!(paper.document().text(), "a\nb\nc\nd!");
    let (_, edits) = paper.operate(&Operation::ScrollUp, 4);
    assert_eq!(edits, vec![clear(), row(0, "1 a"), row(1, "2 b"), row(2, "3 c")]);
    assert_eq!(
        paper.operate(&Operation::AddToSketch("\u{8}\u{8}\u{8}".to_string()), 4),
        (Some(Notice::Flash), vec![])
    );
    assert_eq!(paper.sketch(), "");
    let (_, edits) = paper.operate(&Operation::ChangeMode(Mode::Action), 4);
    assert!(edits.is_empty());
    assert_eq!(paper.mode(), Mode::Action);
}

#[test]
fn change_mode_to_display_drops_marks_and_sketch() {
    let mut paper = viewing("a\nb");
    paper.add_to_sketch("#1");
    paper.filter_signals("#1");
    paper.set_marks(&Edge::Start);
    let edits = paper.change_mode(Mode::Edit, 5);
    assert_eq!(edits, vec![clear(), row(0, "1 a"), row(1, "2 b")]);
    assert_eq!(paper.sketch(), "#1");
    assert_eq!(paper.marks().len(), 1);
    let edits = paper.change_mode(Mode::Display, 5);
    assert_eq!(edits, vec![clear(), row(0, "1 a"), row(1, "2 b")]);
    assert_eq!(paper.sketch(), "");
    assert!(paper.marks().is_empty());
    assert!(paper.signals().is_empty());
    assert_eq!(paper.noises().len(), 2);
    assert_eq!(paper.mode(), Mode::Display);
}

#[test]
fn keys_without_meaning_change_nothing() {
    let mut paper = viewing("a\nb");
    let (notices, edits) = paper.step('q', 4);
    assert!(notices.is_empty());
    assert!(edits.is_empty());
    assert_eq!(paper.mode(), Mode::Display);
    assert_eq!(paper.document().text(), "a\nb");
}
