//! The filters: each narrows a working set of sections by one token of a filter expression.
//!
//! A token names its filter by its first character: `#` filters by line, `/` by pattern.

use crate::document::Document;
use crate::grammar::{line_range, parse_line_range};
use crate::num::{Length, Section, Span};
use crate::search::{pattern_loads, pattern_locations, Search};
use crate::strings::characters;
use vstd::prelude::*;

verus! {

/// Tells whether the line of `span` lies between `low` and `high`.
pub open spec fn in_lines(span: Span, low: int, high: int) -> bool {
    low <= span.start.line <= high
}

/// The sections of `sections` whose line lies between `low` and `high`, in their order.
pub open spec fn within_lines(sections: Seq<Span>, low: int, high: int) -> Seq<Span> {
    sections.filter(|section: Span| in_lines(section, low, high))
}

/// The working set after the line filter read `token`: the sections on the lines that the
/// token selects, or every section where the token is malformed.
pub open spec fn line_filtered(token: Seq<char>, sections: Seq<Span>) -> Seq<Span> {
    match line_range(token) {
        Some((low, high)) => within_lines(sections, low, high),
        None => sections,
    }
}

/// Keeps the sections of `sections` whose line lies between `low` and `high`.
pub fn retain_lines(sections: &mut Vec<Section>, low: usize, high: usize)
    ensures
        final(sections).deep_view() == within_lines(old(sections).deep_view(), low as int, high as int),
{
    let mut kept: Vec<Section> = Vec::new();
    let mut i: usize = 0;
    let ghost keeps = |section: Span| in_lines(section, low as int, high as int);
    let ghost all = sections.deep_view();
    proof {
        reveal(Seq::filter);
        assert(all.take(0).filter(keeps) =~= Seq::<Span>::empty());
        assert(kept.deep_view() =~= Seq::<Span>::empty());
    }
    while i < sections.len()
        invariant
            i <= sections@.len(),
            *sections == *old(sections),
            keeps == |section: Span| in_lines(section, low as int, high as int),
            all == sections.deep_view(),
            kept.deep_view() == all.take(i as int).filter(keeps),
        decreases sections.len() - i,
    {
        let section = sections[i];
        let line = section.start.line.get();
        proof {
            all.take(i as int).lemma_filter_push(section@, keeps);
            assert(all.take(i as int).push(section@) == all.take(i + 1));
        }
        let ghost before = kept.deep_view();
        if low <= line && line <= high {
            kept.push(section);
            proof {
                assert(kept.deep_view() =~= before.push(section@));
            }
        }
        i += 1;
    }
    proof {
        assert(all.take(i as int) == all);
    }
    *sections = kept;
}

/// The filter that narrows sections by their line.
#[derive(Copy, Clone, Debug)]
pub struct LineFilter {}

impl LineFilter {
    /// Creates the line filter.
    pub fn new() -> (filter: LineFilter)
        ensures
            filter == (LineFilter {  }),
    {
        LineFilter {  }
    }

    /// Returns the character with which the tokens of this filter start.
    pub fn id(&self) -> (id: char)
        ensures
            id == '#',
    {
        '#'
    }

    /// Narrows `sections` to those on the lines that `feature` selects. A malformed token
    /// leaves the sections as they are.
    pub fn extract(&self, feature: &str, sections: &mut Vec<Section>, _view: &Document)
        ensures
            final(sections).deep_view() == line_filtered(feature@, old(sections).deep_view()),
    {
        let token = characters(feature);
        match parse_line_range(&token) {
            Some((low, high)) => {
                proof {
                    let (first, last) = line_range(token@).unwrap();
                    crate::grammar::lemma_line_range_bounds(token@);
                    assert forall|i: int| 0 <= i < sections.deep_view().len() implies 1 <= (
                    #[trigger] sections.deep_view()[i]).start.line <= usize::MAX by {
                        crate::num::LineNumber::lemma_range(sections@[i].start.line);
                    }
                    lemma_within_lines_clamped(sections.deep_view(), first, last);
                }
                retain_lines(sections, low, high);
            },
            None => {},
        }
    }
}

/// Lines below zero or beyond the numbers of a machine word select no section, so a range
/// may be cut at both.
pub proof fn lemma_within_lines_clamped(sections: Seq<Span>, low: int, high: int)
    requires
        low <= usize::MAX,
        0 <= high,
        forall|i: int| 0 <= i < sections.len() ==> 1 <= (#[trigger] sections[i]).start.line <= usize::MAX,
    ensures
        within_lines(
            sections,
            crate::num::clamp(low, 0, usize::MAX as int),
            crate::num::clamp(high, 0, usize::MAX as int),
        ) == within_lines(sections, low, high),
    decreases sections.len(),
{
    reveal(Seq::filter);
    if sections.len() > 0 {
        lemma_within_lines_clamped(sections.drop_last(), low, high);
    }
}

/// The number of bytes that the character `c` takes in a string.
pub open spec fn byte_width(c: char) -> int {
    if (c as u32) < 0x80 {
        1
    } else if (c as u32) < 0x800 {
        2
    } else if (c as u32) < 0x10000 {
        3
    } else {
        4
    }
}

/// The number of characters of `text`, counted from `from` on, that end at or before the
/// byte `byte`, which is counted from the first byte of the character at `from`.
pub open spec fn characters_before(text: Seq<char>, from: int, byte: int) -> int
    decreases text.len() - from,
{
    if from < 0 || from >= text.len() || byte < byte_width(text[from]) {
        0
    } else {
        1 + characters_before(text, from + 1, byte - byte_width(text[from]))
    }
}

/// The section that a match makes of a candidate that starts at `start`: the match starts
/// at byte `location.0` of `target`, the text of the candidate, and covers `location.1`
/// bytes. The section starts as many columns after `start` as characters come before the
/// match, and covers as many columns as the match has characters.
pub open spec fn matched(start: crate::num::Position, target: Seq<char>, location: (usize, usize)) -> Span {
    let first = characters_before(target, 0, location.0 as int);
    let last = characters_before(
        target,
        0,
        crate::num::clamp(location.0 + location.1, 0, usize::MAX as int),
    );
    Span {
        start: crate::num::Position {
            line: start.line,
            column: crate::num::clamp(start.column + first, 0, usize::MAX as int),
        },
        length: Some(
            if last >= first {
                last - first
            } else {
                0
            },
        ),
    }
}

/// Returns the number of characters of `text` that end at or before the byte `byte`.
pub fn character_index(text: &Vec<char>, byte: usize) -> (index: usize)
    ensures
        index == characters_before(text@, 0, byte as int),
        index <= text.len(),
{
    let mut index: usize = 0;
    let mut rest: usize = byte;
    while index < text.len()
        invariant
            index <= text.len(),
            characters_before(text@, 0, byte as int) == index + characters_before(
                text@,
                index as int,
                rest as int,
            ),
        decreases text.len() - index,
    {
        let code = text[index] as u32;
        let width: usize = if code < 0x80 {
            1
        } else if code < 0x800 {
            2
        } else if code < 0x10000 {
            3
        } else {
            4
        };
        if rest < width {
            return index;
        }
        rest -= width;
        index += 1;
    }
    index
}

/// Returns the sections that the matches at `locations` make of a candidate that starts at
/// `start` and has the text `target`, one for each match, in order.
pub fn sections_at(start: crate::num::Place, target: &Vec<char>, locations: &Vec<(usize, usize)>) -> (found:
    Vec<Section>)
    ensures
        found@.len() == locations@.len(),
        forall|i: int|
            0 <= i < found@.len() ==> (#[trigger] found@[i])@ == matched(
                start@,
                target@,
                locations@[i],
            ),
{
    let mut found: Vec<Section> = Vec::new();
    let mut i: usize = 0;
    while i < locations.len()
        invariant
            i <= locations@.len(),
            found@.len() == i,
            forall|j: int|
                0 <= j < found@.len() ==> (#[trigger] found@[j])@ == matched(
                    start@,
                    target@,
                    locations@[j],
                ),
        decreases locations.len() - i,
    {
        let location = locations[i];
        let first = character_index(target, location.0);
        let last = character_index(target, location.0.saturating_add(location.1));
        let length = if last >= first {
            last - first
        } else {
            0
        };
        found.push(Section::new(start.shifted(first), Length::Value(length)));
        i += 1;
    }
    found
}

/// The text that the pattern filter searches for a candidate: the line of the candidate
/// from its column on.
pub open spec fn candidate_text(candidate: Span, text: Seq<char>) -> Seq<char> {
    let line = crate::text::line_text(text, candidate.start.line);
    line.subrange(crate::num::clamp(candidate.start.column, 0, line.len() as int), line.len() as int)
}

/// The sections that the matches of `pattern` make of `candidate`: one for each match in the
/// text of the candidate, in the order found; none where the document has no such line.
pub open spec fn matches_of(pattern: Seq<char>, candidate: Span, text: Seq<char>) -> Seq<Span> {
    if candidate.start.line <= crate::text::line_count(text) {
        let target = candidate_text(candidate, text);
        pattern_locations(pattern, target).map_values(
            |location: (usize, usize)| matched(candidate.start, target, location),
        )
    } else {
        Seq::empty()
    }
}

/// The sections that the matches of `pattern` make of `candidates`: each candidate gives way
/// to the sections of its matches.
pub open spec fn pattern_narrowed(pattern: Seq<char>, candidates: Seq<Span>, text: Seq<char>) -> Seq<
    Span,
>
    decreases candidates.len(),
{
    if candidates.len() == 0 {
        Seq::empty()
    } else {
        pattern_narrowed(pattern, candidates.drop_last(), text) + matches_of(
            pattern,
            candidates.last(),
            text,
        )
    }
}

/// The working set after the pattern filter read `token`: the sections of the matches of the
/// pattern that follows `/`. Where no pattern follows, or the text after `/` writes none, the
/// working set is empty.
pub open spec fn pattern_filtered(token: Seq<char>, sections: Seq<Span>, text: Seq<char>) -> Seq<
    Span,
> {
    if token.len() >= 2 && token[0] == '/' && pattern_loads(token.skip(1)) {
        pattern_narrowed(token.skip(1), sections, text)
    } else {
        Seq::empty()
    }
}

/// Returns the sections that the matches of `search` make of `candidate` in `view`.
pub fn find_matches(search: &Search, candidate: &Section, view: &Document) -> (found: Vec<Section>)
    ensures
        found.deep_view() == matches_of(search@, candidate@, view@.text),
{
    match view.line(candidate.start.line) {
        Some(line) => {
            let letters = characters(line.as_str());
            let from = if candidate.start.index < letters.len() {
                candidate.start.index
            } else {
                letters.len()
            };
            let text = crate::strings::string_of(&letters, from, letters.len());
            let target = characters(text.as_str());
            let locations = search.locate(text.as_str());
            let found = sections_at(candidate.start, &target, &locations);
            proof {
                assert(target@ == candidate_text(candidate@, view@.text));
                assert(found.deep_view() =~= matches_of(search@, candidate@, view@.text));
            }
            found
        },
        None => {
            let found: Vec<Section> = Vec::new();
            proof {
                assert(found.deep_view() =~= Seq::<Span>::empty());
            }
            found
        },
    }
}

/// The filter that narrows sections to the matches of a pattern.
#[derive(Copy, Clone, Debug)]
pub struct PatternFilter {}

impl PatternFilter {
    /// Creates the pattern filter.
    pub fn new() -> (filter: PatternFilter)
        ensures
            filter == (PatternFilter {  }),
    {
        PatternFilter {  }
    }

    /// Returns the character with which the tokens of this filter start.
    pub fn id(&self) -> (id: char)
        ensures
            id == '/',
    {
        '/'
    }

    /// Replaces each section of `sections` by the sections of the matches that the pattern
    /// of `feature` has in its text. A token without a pattern, or with a text that writes no
    /// pattern, empties the sections.
    pub fn extract(&self, feature: &str, sections: &mut Vec<Section>, view: &Document)
        ensures
            final(sections).deep_view() == pattern_filtered(
                feature@,
                old(sections).deep_view(),
                view@.text,
            ),
    {
        let token = characters(feature);
        let mut found: Vec<Section> = Vec::new();
        proof {
            assert(found.deep_view() =~= Seq::<Span>::empty());
        }
        if token.len() >= 2 && token[0] == '/' {
            let source = crate::strings::string_of(&token, 1, token.len());
            proof {
                assert(source@ == token@.skip(1));
            }
            match Search::load(source.as_str()) {
                Some(search) => {
                    let mut i: usize = 0;
                    while i < sections.len()
                        invariant
                            i <= sections@.len(),
                            *sections == *old(sections),
                            search@ == token@.skip(1),
                            found.deep_view() == pattern_narrowed(
                                search@,
                                sections.deep_view().take(i as int),
                                view@.text,
                            ),
                        decreases sections.len() - i,
                    {
                        let candidate = sections[i];
                        let matches = find_matches(&search, &candidate, view);
                        let ghost before = found.deep_view();
                        let mut j: usize = 0;
                        while j < matches.len()
                            invariant
                                j <= matches@.len(),
                                found.deep_view() == before + matches.deep_view().take(j as int),
                            decreases matches.len() - j,
                        {
                            let ghost earlier = found@;
                            found.push(matches[j]);
                            j += 1;
                            proof {
                                assert(found@ == earlier.push(matches@[j - 1]));
                                assert(forall|k: int|
                                    0 <= k < earlier.len() ==> found@[k] == #[trigger] earlier[k]);
                                assert(matches.deep_view().take(j as int) =~= matches.deep_view().take(
                                    j - 1,
                                ).push(matches@[j - 1]@));
                                assert(found.deep_view() =~= (before + matches.deep_view().take(
                                    j - 1,
                                )).push(matches@[j - 1]@));
                                assert(found.deep_view() =~= before + matches.deep_view().take(
                                    j as int,
                                ));
                            }
                        }
                        i += 1;
                        proof {
                            assert(matches.deep_view().take(j as int) == matches.deep_view());
                            assert(sections.deep_view().take(i as int).drop_last()
                                == sections.deep_view().take(i - 1));
                            assert(sections.deep_view().take(i as int).last() == candidate@);
                        }
                    }
                    proof {
                        assert(sections.deep_view().take(i as int) == sections.deep_view());
                    }
                },
                None => {},
            }
        }
        *sections = found;
    }
}


} // verus!
