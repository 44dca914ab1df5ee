use paper::filter::{character_index, find_matches, retain_lines, sections_at};
use paper::search::Search;
use paper::grammar::{parse_line_range, read_number};
use paper::{Document, Length, LineFilter, LineNumber, PatternFilter, Place, Section};

fn line(number: usize) -> LineNumber {
    LineNumber::new(number).unwrap()
}

fn whole_lines(count: usize) -> Vec<Section> {
    (1..=count).map(|number| Section::line(line(number))).collect()
}

fn numbered_lines(count: usize) -> Document {
    let text: Vec<String> = (1..=count).map(|number| format!("line {}", number)).collect();
    Document::with_text(&text.join("\n"), "p")
}

fn part(number: usize, index: usize, length: usize) -> Section {
    Section::new(Place::new(line(number), index), Length::Value(length))
}

fn chars(text: &str) -> Vec<char> {
    text.chars().collect()
}

fn line_filtered(token: &str, count: usize) -> Vec<Section> {
    let document = numbered_lines(count);
    let mut sections = whole_lines(count);
    LineFilter::new().extract(token, &mut sections, &document);
    sections
}

fn pattern_filtered(token: &str, text: &str, mut sections: Vec<Section>) -> Vec<Section> {
    let document = Document::with_text(text, "p");
    PatternFilter::new().extract(token, &mut sections, &document);
    sections
}

#[test]
fn filter_ids() {
    assert_eq!(LineFilter::new().id(), '#');
    assert_eq!(PatternFilter::new().id(), '/');
}

#[test]
fn line_filter_exact_line() {
    assert_eq!(line_filtered("#3", 5), vec![Section::line(line(3))]);
}

#[test]
fn line_filter_range_in_either_order() {
    let lines = vec![Section::line(line(2)), Section::line(line(3)), Section::line(line(4))];
    assert_eq!(line_filtered("#2.4", 5), lines);
    assert_eq!(line_filtered("#4.2", 5), lines);
    assert_eq!(line_filtered("#2.4", 5), line_filtered("#4.2", 5));
}

#[test]
fn line_filter_relative_forward() {
    assert_eq!(
        line_filtered("#5+3", 10),
        vec![
            Section::line(line(5)),
            Section::line(line(6)),
            Section::line(line(7)),
            Section::line(line(8))
        ]
    );
}

#[test]
fn line_filter_relative_backward() {
    assert_eq!(
        line_filtered("#5-3", 10),
        vec![
            Section::line(line(2)),
            Section::line(line(3)),
            Section::line(line(4)),
            Section::line(line(5))
        ]
    );
}

#[test]
fn line_filter_relative_past_the_ends() {
    assert_eq!(line_filtered("#2-5", 4), vec![Section::line(line(1)), Section::line(line(2))]);
    assert_eq!(line_filtered("#3+9", 4), vec![Section::line(line(3)), Section::line(line(4))]);
    assert_eq!(line_filtered("#3+0", 4), vec![Section::line(line(3))]);
}

#[test]
fn line_filter_line_outside_the_document() {
    assert_eq!(line_filtered("#9", 5), Vec::<Section>::new());
    assert_eq!(line_filtered("#0", 5), Vec::<Section>::new());
    assert_eq!(line_filtered("#7.9", 5), Vec::<Section>::new());
}

#[test]
fn line_filter_malformed_token_changes_nothing() {
    for token in ["#", "#a", "#3x", "#3.", "#.3", "#3+", "#1.2.3", "#1 ", "3", "", "/3", "#-3", "# 3"] {
        assert_eq!(line_filtered(token, 5), whole_lines(5), "token {:?}", token);
    }
}

#[test]
fn line_filter_number_beyond_a_machine_word_is_malformed() {
    assert_eq!(line_filtered("#99999999999999999999999999", 5), whole_lines(5));
    assert_eq!(line_filtered("#1.99999999999999999999999999", 5), whole_lines(5));
    assert_eq!(line_filtered("#18446744073709551615", 5), Vec::<Section>::new());
}

#[test]
fn line_filter_keeps_sections_within_a_line() {
    let document = numbered_lines(5);
    let mut sections = vec![part(1, 0, 2), part(3, 1, 2), part(3, 4, 1), part(5, 0, 1)];
    LineFilter::new().extract("#3", &mut sections, &document);
    assert_eq!(sections, vec![part(3, 1, 2), part(3, 4, 1)]);
}

#[test]
fn retain_lines_keeps_the_lines_in_the_range() {
    let mut sections = whole_lines(6);
    retain_lines(&mut sections, 2, 3);
    assert_eq!(sections, vec![Section::line(line(2)), Section::line(line(3))]);
    retain_lines(&mut sections, 4, 1);
    assert_eq!(sections, Vec::<Section>::new());
}

#[test]
fn parse_line_range_reads_each_form() {
    assert_eq!(parse_line_range(&chars("#3")), Some((3, 3)));
    assert_eq!(parse_line_range(&chars("#2.4")), Some((2, 4)));
    assert_eq!(parse_line_range(&chars("#4.2")), Some((2, 4)));
    assert_eq!(parse_line_range(&chars("#5+3")), Some((5, 8)));
    assert_eq!(parse_line_range(&chars("#5-3")), Some((2, 5)));
    assert_eq!(parse_line_range(&chars("#2-5")), Some((0, 2)));
    assert_eq!(parse_line_range(&chars("#007")), Some((7, 7)));
    assert_eq!(
        parse_line_range(&chars("#18446744073709551615+1")),
        Some((usize::MAX, usize::MAX))
    );
}

#[test]
fn parse_line_range_refuses_what_is_no_token() {
    assert_eq!(parse_line_range(&chars("")), None);
    assert_eq!(parse_line_range(&chars("#")), None);
    assert_eq!(parse_line_range(&chars("3")), None);
    assert_eq!(parse_line_range(&chars("#3,4")), None);
    assert_eq!(parse_line_range(&chars("#3.4.")), None);
    assert_eq!(parse_line_range(&chars("#18446744073709551616")), None);
}

#[test]
fn read_number_reads_the_digits() {
    assert_eq!(read_number(&chars("123abc"), 0), (3, Some(123)));
    assert_eq!(read_number(&chars("#42.7"), 1), (3, Some(42)));
    assert_eq!(read_number(&chars("#42.7"), 4), (5, Some(7)));
    assert_eq!(read_number(&chars("abc"), 0), (0, Some(0)));
    assert_eq!(read_number(&chars("abc"), 3), (3, Some(0)));
    assert_eq!(read_number(&chars("18446744073709551615"), 0), (20, Some(usize::MAX)));
    assert_eq!(read_number(&chars("18446744073709551616"), 0), (20, None));
}

#[test]
fn pattern_filter_finds_the_match() {
    assert_eq!(
        pattern_filtered("/foo", "xxfooyy", vec![Section::line(line(1))]),
        vec![part(1, 2, 3)]
    );
}

#[test]
fn pattern_filter_finds_every_match_in_order() {
    assert_eq!(
        pattern_filtered("/ab", "abxab\nnone\nxxab", whole_lines(3)),
        vec![part(1, 0, 2), part(1, 3, 2), part(3, 2, 2)]
    );
}

#[test]
fn pattern_filter_matches_do_not_overlap() {
    assert_eq!(
        pattern_filtered("/aa", "aaaaa", vec![Section::line(line(1))]),
        vec![part(1, 0, 2), part(1, 2, 2)]
    );
}

#[test]
fn pattern_filter_searches_from_the_column_of_the_candidate() {
    let candidate = Section::new(Place::new(line(1), 2), Length::End);
    assert_eq!(pattern_filtered("/ab", "abxabab", vec![candidate]), vec![part(1, 3, 2), part(1, 5, 2)]);
    let late = Section::new(Place::new(line(1), 40), Length::End);
    assert_eq!(pattern_filtered("/ab", "abxabab", vec![late]), Vec::<Section>::new());
}

#[test]
fn pattern_filter_without_a_match_empties_the_set() {
    assert_eq!(pattern_filtered("/zzz", "abc\ndef", whole_lines(2)), Vec::<Section>::new());
}

#[test]
fn pattern_filter_candidate_on_a_missing_line_gives_nothing() {
    assert_eq!(
        pattern_filtered("/a", "a\na", vec![Section::line(line(2)), Section::line(line(7))]),
        vec![part(2, 0, 1)]
    );
}

#[test]
fn pattern_filter_empty_pattern_empties_the_set() {
    assert_eq!(pattern_filtered("/", "abc", whole_lines(1)), Vec::<Section>::new());
    assert_eq!(pattern_filtered("", "abc", whole_lines(1)), Vec::<Section>::new());
}

#[test]
fn pattern_filter_malformed_pattern_empties_the_set() {
    assert_eq!(pattern_filtered("/(", "a(b", whole_lines(1)), Vec::<Section>::new());
    assert_eq!(pattern_filtered("/[", "a[b", whole_lines(1)), Vec::<Section>::new());
}

#[test]
fn pattern_filter_counts_columns_in_characters() {
    assert_eq!(
        pattern_filtered("/foo", "\u{e9}\u{e9}foo\u{4e16}foo", vec![Section::line(line(1))]),
        vec![part(1, 2, 3), part(1, 6, 3)]
    );
    assert_eq!(
        pattern_filtered("/\u{e9}\u{4e16}", "a\u{e9}\u{4e16}b", vec![Section::line(line(1))]),
        vec![part(1, 1, 2)]
    );
}

#[test]
fn pattern_filter_reads_a_dot_as_a_dot() {
    assert_eq!(
        pattern_filtered("/a.b", "axb a.b", vec![Section::line(line(1))]),
        vec![part(1, 4, 3)]
    );
}

#[test]
fn search_loads_and_locates() {
    let search = Search::load("foo").unwrap();
    assert_eq!(search.locate("xxfooyyfoo"), vec![(2, 3), (7, 3)]);
    assert_eq!(search.locate("bar"), Vec::<(usize, usize)>::new());
    assert_eq!(search.locate("\u{e9}foo"), vec![(2, 3)]);
    assert!(Search::load("(").is_none());
}

#[test]
fn character_index_counts_whole_characters() {
    let text = chars("a\u{e9}\u{4e16}\u{1f600}z");
    assert_eq!(character_index(&text, 0), 0);
    assert_eq!(character_index(&text, 1), 1);
    assert_eq!(character_index(&text, 2), 1);
    assert_eq!(character_index(&text, 3), 2);
    assert_eq!(character_index(&text, 6), 3);
    assert_eq!(character_index(&text, 9), 3);
    assert_eq!(character_index(&text, 10), 4);
    assert_eq!(character_index(&text, 11), 5);
    assert_eq!(character_index(&text, 500), 5);
}

#[test]
fn sections_at_turns_bytes_into_columns() {
    let target = chars("\u{e9}\u{e9}foo");
    assert_eq!(
        sections_at(Place::new(line(4), 10), &target, &vec![(4, 3), (0, 2)]),
        vec![part(4, 12, 3), part(4, 10, 1)]
    );
    assert_eq!(sections_at(Place::new(line(1), 0), &target, &Vec::new()), Vec::<Section>::new());
}

#[test]
fn find_matches_of_one_candidate() {
    let document = Document::with_text("one\ntwo two", "p");
    let search = Search::load("two").unwrap();
    assert_eq!(
        find_matches(&search, &Section::line(line(2)), &document),
        vec![part(2, 0, 3), part(2, 4, 3)]
    );
    assert_eq!(find_matches(&search, &Section::line(line(1)), &document), Vec::<Section>::new());
    assert_eq!(find_matches(&search, &Section::line(line(3)), &document), Vec::<Section>::new());
}
