use paper::{Controller, Edge, Mode, Operation, ENTER, ESC};

fn in_mode(mode: Mode) -> Controller {
    let mut controller = Controller::default();
    controller.set_mode(mode);
    controller
}

fn add(text: &str) -> Operation {
    Operation::AddToSketch(text.to_string())
}

#[test]
fn controller_starts_in_display() {
    assert_eq!(Controller::default().mode(), Mode::Display);
    assert_eq!(Mode::default(), Mode::Display);
}

#[test]
fn set_mode_is_remembered() {
    for mode in [Mode::Display, Mode::Command, Mode::Filter, Mode::Action, Mode::Edit] {
        assert_eq!(in_mode(mode).mode(), mode);
    }
}

#[test]
fn display_dot_enters_command() {
    assert_eq!(
        in_mode(Mode::Display).process_input('.'),
        vec![Operation::ChangeMode(Mode::Command)]
    );
}

#[test]
fn display_filter_keys_enter_filter_and_seed_the_sketch() {
    assert_eq!(
        in_mode(Mode::Display).process_input('#'),
        vec![Operation::ChangeMode(Mode::Filter), add("#"), Operation::DrawSketch]
    );
    assert_eq!(
        in_mode(Mode::Display).process_input('/'),
        vec![Operation::ChangeMode(Mode::Filter), add("/"), Operation::DrawSketch]
    );
}

#[test]
fn display_scroll_keys() {
    assert_eq!(in_mode(Mode::Display).process_input('j'), vec![Operation::ScrollDown]);
    assert_eq!(in_mode(Mode::Display).process_input('k'), vec![Operation::ScrollUp]);
}

#[test]
fn display_other_keys_do_nothing() {
    for key in ['a', 'J', ' ', ENTER, ESC, 'i', '\t'] {
        assert_eq!(in_mode(Mode::Display).process_input(key), Vec::<Operation>::new());
    }
}

#[test]
fn command_enter_executes_and_returns_to_display() {
    assert_eq!(
        in_mode(Mode::Command).process_input(ENTER),
        vec![Operation::ExecuteCommand, Operation::ChangeMode(Mode::Display)]
    );
}

#[test]
fn command_escape_returns_to_display() {
    assert_eq!(
        in_mode(Mode::Command).process_input(ESC),
        vec![Operation::ChangeMode(Mode::Display)]
    );
}

#[test]
fn command_other_keys_go_to_the_sketch() {
    assert_eq!(in_mode(Mode::Command).process_input('s'), vec![add("s"), Operation::DrawSketch]);
    assert_eq!(in_mode(Mode::Command).process_input('.'), vec![add("."), Operation::DrawSketch]);
    assert_eq!(in_mode(Mode::Command).process_input(' '), vec![add(" "), Operation::DrawSketch]);
}

#[test]
fn filter_enter_enters_action() {
    assert_eq!(
        in_mode(Mode::Filter).process_input(ENTER),
        vec![Operation::ChangeMode(Mode::Action)]
    );
}

#[test]
fn filter_escape_returns_to_display() {
    assert_eq!(
        in_mode(Mode::Filter).process_input(ESC),
        vec![Operation::ChangeMode(Mode::Display)]
    );
}

#[test]
fn filter_tab_goes_to_the_sketch_like_every_other_key() {
    assert_eq!(
        in_mode(Mode::Filter).process_input('\t'),
        vec![add("\t"), Operation::DrawSketch]
    );
    assert_eq!(in_mode(Mode::Filter).process_input('&'), vec![add("&"), Operation::DrawSketch]);
}

#[test]
fn filter_other_keys_go_to_the_sketch() {
    assert_eq!(in_mode(Mode::Filter).process_input('7'), vec![add("7"), Operation::DrawSketch]);
    assert_eq!(in_mode(Mode::Filter).process_input('#'), vec![add("#"), Operation::DrawSketch]);
}

#[test]
fn action_escape_returns_to_display() {
    assert_eq!(
        in_mode(Mode::Action).process_input(ESC),
        vec![Operation::ChangeMode(Mode::Display)]
    );
}

#[test]
fn action_small_i_marks_the_starts() {
    assert_eq!(
        in_mode(Mode::Action).process_input('i'),
        vec![Operation::SetMarks(Edge::Start), Operation::ChangeMode(Mode::Edit)]
    );
}

#[test]
fn action_capital_i_marks_the_ends() {
    assert_eq!(
        in_mode(Mode::Action).process_input('I'),
        vec![Operation::SetMarks(Edge::End), Operation::ChangeMode(Mode::Edit)]
    );
}

#[test]
fn action_other_keys_do_nothing() {
    for key in ['a', ENTER, '.', '#', 'j'] {
        assert_eq!(in_mode(Mode::Action).process_input(key), Vec::<Operation>::new());
    }
}

#[test]
fn edit_escape_returns_to_display() {
    assert_eq!(in_mode(Mode::Edit).process_input(ESC), vec![Operation::ChangeMode(Mode::Display)]);
}

#[test]
fn edit_other_keys_go_to_the_sketch_and_the_text() {
    assert_eq!(in_mode(Mode::Edit).process_input('x'), vec![add("x"), Operation::UpdateView('x')]);
    assert_eq!(
        in_mode(Mode::Edit).process_input(ENTER),
        vec![add("\n"), Operation::UpdateView(ENTER)]
    );
}

#[test]
fn process_input_leaves_the_mode() {
    let controller = in_mode(Mode::Display);
    let _ = controller.process_input('.');
    assert_eq!(controller.mode(), Mode::Display);
}
