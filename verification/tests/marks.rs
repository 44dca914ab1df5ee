use paper::{
    apply_key, Address, Adjustment, Change, Document, Edit, EditClass, Length, LineNumber, Mark,
    Place, Pointer, Region, BACKSPACE, ENTER,
};

fn line(number: usize) -> LineNumber {
    LineNumber::new(number).unwrap()
}

fn mark_at(number: usize, index: usize, pointer: usize) -> Mark {
    Mark::new(Place::new(line(number), index), Pointer::new(pointer))
}

fn anchored(document: &Document, mark: &Mark) -> bool {
    document.position_to_offset(&mark.place) == mark.pointer
}

#[test]
fn default_adjustment_changes_nothing() {
    let adjustment = Adjustment::default();
    assert_eq!(adjustment.shift, 0);
    assert_eq!(adjustment.line_change, 0);
    assert!(adjustment.indexes_changed.is_empty());
    assert_eq!(adjustment.change, None);
    let mut mark = mark_at(3, 4, 20);
    mark.adjust(&adjustment);
    assert_eq!(mark, mark_at(3, 4, 20));
}

#[test]
fn adjustment_of_an_ordinary_key() {
    let document = Document::with_text("hello", "p");
    let adjustment = Adjustment::create('x', &mark_at(1, 2, 2), &document);
    assert_eq!(adjustment.shift, 1);
    assert_eq!(adjustment.line_change, 0);
    assert_eq!(adjustment.indexes_changed, vec![(line(1), 1)]);
    assert_eq!(adjustment.change, Some(EditClass::Insert('x')));
}

#[test]
fn adjustment_of_a_backspace_within_a_line() {
    let document = Document::with_text("hello", "p");
    let adjustment = Adjustment::create(BACKSPACE, &mark_at(1, 2, 2), &document);
    assert_eq!(adjustment.shift, -1);
    assert_eq!(adjustment.line_change, 0);
    assert_eq!(adjustment.indexes_changed, vec![(line(1), -1)]);
    assert_eq!(adjustment.change, Some(EditClass::Backspace));
}

#[test]
fn adjustment_of_a_line_break() {
    let document = Document::with_text("hello", "p");
    let adjustment = Adjustment::create(ENTER, &mark_at(1, 2, 2), &document);
    assert_eq!(adjustment.shift, 1);
    assert_eq!(adjustment.line_change, 1);
    assert_eq!(adjustment.indexes_changed, vec![(line(2), -2)]);
    assert_eq!(adjustment.change, Some(EditClass::LineBreak));
}

#[test]
fn adjustment_of_a_backspace_that_joins_lines() {
    let document = Document::with_text("abc\nde", "p");
    let adjustment = Adjustment::create(BACKSPACE, &mark_at(2, 0, 4), &document);
    assert_eq!(adjustment.shift, -1);
    assert_eq!(adjustment.line_change, -1);
    assert_eq!(adjustment.indexes_changed, vec![(line(1), 3)]);
    assert_eq!(adjustment.change, Some(EditClass::LineBreak));
}

#[test]
fn backspace_at_column_zero_of_the_first_line_after_text_is_ordinary() {
    let document = Document::with_text("abc", "p");
    let adjustment =
        Adjustment::create(BACKSPACE, &Mark::new(Place::new(line(1), 0), Pointer::new(2)), &document);
    assert_eq!(adjustment.shift, -1);
    assert_eq!(adjustment.line_change, 0);
    assert_eq!(adjustment.change, Some(EditClass::Backspace));
}

#[test]
fn guard_gives_the_zero_adjustment() {
    let document = Document::with_text("abc", "p");
    let at_start = Adjustment::create(BACKSPACE, &mark_at(1, 0, 0), &document);
    assert_eq!(at_start.shift, 0);
    assert_eq!(at_start.line_change, 0);
    assert!(at_start.indexes_changed.is_empty());
    assert_eq!(at_start.change, None);
    let invalid = Adjustment::create('x', &Mark::new(Place::new(line(1), 0), Pointer::invalid()), &document);
    assert_eq!(invalid.shift, 0);
    assert_eq!(invalid.change, None);
    let outside = Adjustment::create('x', &mark_at(1, 4, 4), &document);
    assert_eq!(outside.shift, 0);
    assert_eq!(outside.change, None);
    let at_end = Adjustment::create('x', &mark_at(1, 3, 3), &document);
    assert_eq!(at_end.shift, 1);
}

#[test]
fn adjustments_add_up() {
    let mut total = Adjustment::new(line(2), 1, 1, EditClass::Insert('a'));
    total.add_assign(Adjustment::new(line(2), 1, 1, EditClass::Insert('a')));
    total.add_assign(Adjustment::new(line(3), -1, -1, EditClass::Backspace));
    assert_eq!(total.shift, 1);
    assert_eq!(total.line_change, 0);
    assert_eq!(total.index_change(line(2)), 2);
    assert_eq!(total.index_change(line(3)), -1);
    assert_eq!(total.index_change(line(4)), 0);
    assert_eq!(total.change, Some(EditClass::Backspace));
}

#[test]
fn sum_remembers_a_line_break() {
    let mut total = Adjustment::default();
    total.add_assign(Adjustment::new(line(1), 1, -4, EditClass::LineBreak));
    assert_eq!(total.change, Some(EditClass::LineBreak));
    total.add_assign(Adjustment::new(line(5), 1, 1, EditClass::Insert('z')));
    assert_eq!(total.change, Some(EditClass::LineBreak));
    total.add_assign(Adjustment::default());
    assert_eq!(total.change, Some(EditClass::LineBreak));
    assert_eq!(total.shift, 2);
    assert_eq!(total.line_change, 1);
    assert_eq!(total.index_change(line(2)), -4);
    assert_eq!(total.index_change(line(5)), 1);
}

#[test]
fn sum_stays_within_a_machine_word() {
    let mut total = Adjustment::new(line(1), isize::MAX, 1, EditClass::Insert('a'));
    total.add_assign(Adjustment::new(line(1), isize::MAX, 1, EditClass::Insert('a')));
    assert_eq!(total.shift, isize::MAX);
    let mut down = Adjustment::new(line(1), isize::MIN, 1, EditClass::Backspace);
    down.add_assign(Adjustment::new(line(1), -1, 1, EditClass::Backspace));
    assert_eq!(down.shift, isize::MIN);
}

#[test]
fn insert_at_first_mark_shifts_second_mark_on_the_line() {
    let document = Document::with_text("hello\nworld", "p");
    let first = mark_at(2, 1, 7);
    let mut second = mark_at(2, 3, 9);
    let adjustment = Adjustment::create('x', &first, &document);
    second.adjust(&adjustment);
    assert_eq!(second.place.line, line(2));
    assert_eq!(second.place.index, 4);
    assert_eq!(second.pointer, Pointer(Some(10)));
}

#[test]
fn insert_on_one_line_leaves_columns_of_other_lines() {
    let document = Document::with_text("hello\nworld", "p");
    let mut later = mark_at(2, 3, 9);
    let adjustment = Adjustment::create('x', &mark_at(1, 1, 1), &document);
    later.adjust(&adjustment);
    assert_eq!(later, mark_at(2, 3, 10));
}

#[test]
fn enter_moves_the_mark_to_the_start_of_the_next_line() {
    let mut document = Document::with_text("hello", "p");
    let mut marks = vec![mark_at(1, 2, 2)];
    let (total, edits) = apply_key(&mut document, &mut marks, ENTER);
    assert_eq!(document.text(), "he\nllo");
    assert_eq!(marks, vec![mark_at(2, 0, 3)]);
    assert_eq!(total.change, Some(EditClass::LineBreak));
    assert_eq!(total.change.unwrap().to_change(), Change::Clear);
    assert_eq!(total.line_change, 1);
    assert!(edits.is_empty());
    assert!(anchored(&document, &marks[0]));
}

#[test]
fn enter_on_a_later_line_adds_one_to_the_line() {
    let mut document = Document::with_text("ab\ncdef\ngh", "p");
    let mut marks = vec![mark_at(2, 3, 6)];
    let (total, _) = apply_key(&mut document, &mut marks, ENTER);
    assert_eq!(document.text(), "ab\ncde\nf\ngh");
    assert_eq!(marks, vec![mark_at(3, 0, 7)]);
    assert_eq!(total.change, Some(EditClass::LineBreak));
}

#[test]
fn backspace_at_the_start_of_the_second_line_joins_the_lines() {
    let mut document = Document::with_text("abc\nde", "p");
    let mut marks = vec![mark_at(2, 0, 4)];
    let (total, _) = apply_key(&mut document, &mut marks, BACKSPACE);
    assert_eq!(document.text(), "abcde");
    assert_eq!(marks, vec![mark_at(1, 3, 3)]);
    assert_eq!(total.change, Some(EditClass::LineBreak));
    assert_eq!(total.line_change, -1);
    assert!(anchored(&document, &marks[0]));
}

#[test]
fn backspace_at_the_start_of_the_text_changes_nothing() {
    let mut document = Document::with_text("abc", "p");
    let mut marks = vec![mark_at(1, 0, 0)];
    let (total, edits) = apply_key(&mut document, &mut marks, BACKSPACE);
    assert_eq!(document.text(), "abc");
    assert_eq!(marks, vec![mark_at(1, 0, 0)]);
    assert_eq!(total.change, None);
    assert_eq!(total.shift, 0);
    assert!(edits.is_empty());
}

#[test]
fn guard_skips_one_mark_and_edits_at_the_others() {
    let mut document = Document::with_text("abc\ndef", "p");
    let mut marks = vec![mark_at(1, 0, 0), mark_at(2, 2, 6)];
    let (total, edits) = apply_key(&mut document, &mut marks, BACKSPACE);
    assert_eq!(document.text(), "abc\ndf");
    assert_eq!(marks, vec![mark_at(1, 0, 0), mark_at(2, 1, 5)]);
    assert_eq!(total.change, Some(EditClass::Backspace));
    assert_eq!(edits.len(), 1);
}

#[test]
fn key_is_applied_at_every_mark_in_order() {
    let mut document = Document::with_text("hello", "p");
    let mut marks = vec![mark_at(1, 1, 1), mark_at(1, 3, 3)];
    let (total, edits) = apply_key(&mut document, &mut marks, 'x');
    assert_eq!(document.text(), "hxelxlo");
    assert_eq!(marks, vec![mark_at(1, 2, 2), mark_at(1, 5, 5)]);
    assert_eq!(total.shift, 2);
    assert_eq!(total.change, Some(EditClass::Insert('x')));
    assert_eq!(
        edits,
        vec![
            Edit::new(Region::new(Address::new(0, 3), Length::Value(1)), Change::Insert('x')),
            Edit::new(Region::new(Address::new(0, 6), Length::Value(1)), Change::Insert('x')),
        ]
    );
    assert!(marks.iter().all(|mark| anchored(&document, mark)));
}

#[test]
fn marks_on_several_lines_stay_anchored() {
    let mut document = Document::with_text("one\ntwo\nthree", "p");
    let mut marks = vec![mark_at(1, 3, 3), mark_at(2, 0, 4), mark_at(3, 5, 13)];
    for key in ['a', 'b', BACKSPACE, 'c'] {
        let _ = apply_key(&mut document, &mut marks, key);
        assert!(marks.iter().all(|mark| anchored(&document, mark)));
    }
    assert_eq!(document.text(), "oneac\nactwo\nthreeac");
    assert_eq!(marks, vec![mark_at(1, 5, 5), mark_at(2, 2, 8), mark_at(3, 7, 19)]);
}

#[test]
fn single_mark_stays_anchored_through_breaks_and_joins() {
    let mut document = Document::with_text("ab\ncd", "p");
    let mut marks = vec![mark_at(2, 1, 4)];
    for key in [ENTER, 'x', BACKSPACE, BACKSPACE, BACKSPACE, BACKSPACE, ENTER, ENTER] {
        let _ = apply_key(&mut document, &mut marks, key);
        assert!(anchored(&document, &marks[0]));
    }
    assert_eq!(document.text(), "ab\n\nd");
    assert_eq!(marks, vec![mark_at(3, 0, 4)]);
}

#[test]
fn marks_above_the_viewport_draw_nothing() {
    let mut document = Document::with_text("ab\ncd", "p");
    document.scroll(1);
    let mut marks = vec![mark_at(1, 1, 1), mark_at(2, 1, 4)];
    let (_, edits) = apply_key(&mut document, &mut marks, 'x');
    assert_eq!(document.text(), "axb\ncxd");
    assert_eq!(
        edits,
        vec![Edit::new(Region::new(Address::new(0, 3), Length::Value(1)), Change::Insert('x'))]
    );
}

#[test]
fn no_marks_nothing_happens() {
    let mut document = Document::with_text("ab", "p");
    let mut marks: Vec<Mark> = Vec::new();
    let (total, edits) = apply_key(&mut document, &mut marks, 'x');
    assert_eq!(document.text(), "ab");
    assert_eq!(total.change, None);
    assert!(edits.is_empty());
}

#[test]
fn edit_class_shows_as_change() {
    assert_eq!(EditClass::Insert('q').to_change(), Change::Insert('q'));
    assert_eq!(EditClass::Backspace.to_change(), Change::Backspace);
    assert_eq!(EditClass::LineBreak.to_change(), Change::Clear);
}

#[test]
fn marks_on_different_lines_stay_anchored_through_breaks_and_joins() {
    let mut document = Document::with_text("one\ntwo\nthree", "p");
    let mut marks = vec![mark_at(1, 1, 1), mark_at(2, 2, 6), mark_at(3, 0, 8)];
    let (total, _) = apply_key(&mut document, &mut marks, ENTER);
    assert_eq!(document.text(), "o\nne\ntw\no\n\nthree");
    assert_eq!(marks, vec![mark_at(2, 0, 2), mark_at(4, 0, 8), mark_at(6, 0, 11)]);
    assert_eq!(total.line_change, 3);
    assert_eq!(total.shift, 3);
    assert!(marks.iter().all(|mark| anchored(&document, mark)));
    let (total, _) = apply_key(&mut document, &mut marks, BACKSPACE);
    assert_eq!(document.text(), "one\ntwo\nthree");
    assert_eq!(marks, vec![mark_at(1, 1, 1), mark_at(2, 2, 6), mark_at(3, 0, 8)]);
    assert_eq!(total.line_change, -3);
    assert_eq!(total.change, Some(EditClass::LineBreak));
    assert!(marks.iter().all(|mark| anchored(&document, mark)));
}

#[test]
fn enter_at_several_marks_on_one_line_keeps_them_anchored() {
    let mut document = Document::with_text("abcd", "p");
    let mut marks = vec![mark_at(1, 1, 1), mark_at(1, 3, 3), mark_at(1, 4, 4)];
    let (total, edits) = apply_key(&mut document, &mut marks, ENTER);
    assert_eq!(document.text(), "a\nbc\nd\n");
    assert_eq!(marks, vec![mark_at(2, 0, 2), mark_at(3, 0, 5), mark_at(4, 0, 7)]);
    assert_eq!(total.change, Some(EditClass::LineBreak));
    assert_eq!(total.shift, 3);
    assert_eq!(total.line_change, 3);
    assert!(edits.is_empty());
    assert!(marks.iter().all(|mark| anchored(&document, mark)));
}

#[test]
fn backspace_that_joins_at_the_first_mark_keeps_marks_on_the_line_anchored() {
    let mut document = Document::with_text("ab\ncd", "p");
    let mut marks = vec![mark_at(2, 0, 3), mark_at(2, 1, 4)];
    let (total, edits) = apply_key(&mut document, &mut marks, BACKSPACE);
    assert_eq!(document.text(), "abd");
    assert_eq!(marks, vec![mark_at(1, 2, 2), mark_at(1, 2, 2)]);
    assert_eq!(total.change, Some(EditClass::LineBreak));
    assert_eq!(total.line_change, -1);
    assert_eq!(total.shift, -2);
    assert_eq!(
        edits,
        vec![Edit::new(Region::new(Address::new(0, 5), Length::Value(1)), Change::Backspace)]
    );
    assert!(marks.iter().all(|mark| anchored(&document, mark)));
}

#[test]
fn backspace_that_joins_once_below_other_marks_keeps_marks_anchored() {
    let mut document = Document::with_text("x\nyy\nab", "p");
    let mut marks = vec![mark_at(1, 1, 1), mark_at(3, 0, 5), mark_at(3, 1, 6)];
    let (total, _) = apply_key(&mut document, &mut marks, BACKSPACE);
    assert_eq!(document.text(), "\nyyb");
    assert_eq!(marks, vec![mark_at(1, 0, 0), mark_at(2, 2, 3), mark_at(2, 2, 3)]);
    assert_eq!(total.change, Some(EditClass::LineBreak));
    assert_eq!(total.line_change, -1);
    assert_eq!(total.shift, -3);
    assert!(marks.iter().all(|mark| anchored(&document, mark)));
}
