//! The search for a pattern in a text, which the `rec` crate does.
//!
//! This module holds nothing but the search: the pattern of `rec`, the two calls into `rec`
//! and the type that keeps a loaded pattern beside its text. What `rec` finds is not derived
//! here; it has a name, and the filters state what they do with it.

use vstd::prelude::*;

verus! {

/// A compiled pattern of the `rec` crate. Nothing of its insides is known here.
#[verifier::external_type_specification]
#[verifier::external_body]
pub struct ExPattern(rec::Pattern);

/// Whether `rec::Pattern::load` accepts the text `pattern` as a pattern.
pub uninterp spec fn pattern_loads(pattern: Seq<char>) -> bool;

/// What `rec::Pattern::locate_iter` finds of the pattern loaded from the text `pattern` in
/// `target`: for each match, in the order found, the byte at which it starts and the number of
/// bytes that it covers.
pub uninterp spec fn pattern_locations(pattern: Seq<char>, target: Seq<char>) -> Seq<(usize, usize)>;

/// Loads the pattern that `source` writes, through `rec::Pattern::load`. The call gives a
/// pattern or an error; which of the two is all that is claimed of it.
#[verifier::external_body]
fn load_pattern(source: &str) -> (found: Option<rec::Pattern>)
    ensures
        found is Some <==> pattern_loads(source@),
{
    rec::Pattern::load(source).ok()
}

/// A pattern together with the text that it was loaded from. The view is that text.
///
/// The two fields belong together: the pattern is the one that `rec` loads from the text.
/// The contract of [`Search::locate`] rests on that. Both fields are private to this module,
/// and [`Search::load`] is the only function that makes a search, so that no other code can
/// put a pattern beside a text that it was not loaded from.
pub struct Search {
    pattern: rec::Pattern,
    source: String,
}

impl View for Search {
    type V = Seq<char>;

    closed spec fn view(&self) -> Seq<char> {
        self.source@
    }
}

/// Finds every match of the pattern of `search` in `target`, through
/// `rec::Pattern::locate_iter`, and returns for each the byte at which it starts and the
/// number of bytes that it covers. The pattern of a search is the one loaded from its text:
/// a search is made by [`Search::load`] alone.
#[verifier::external_body]
fn locate_all(search: &Search, target: &str) -> (found: Vec<(usize, usize)>)
    ensures
        found@ == pattern_locations(search@, target@),
{
    search.pattern.locate_iter(target).map(|location| (location.start(), location.length())).collect()
}

impl Search {
    /// Loads the pattern that `source` writes, or nothing where it writes none.
    pub fn load(source: &str) -> (search: Option<Search>)
        ensures
            search is Some <==> pattern_loads(source@),
            search matches Some(loaded) ==> loaded@ == source@,
    {
        match load_pattern(source) {
            Some(pattern) => Some(Search { pattern, source: source.to_owned() }),
            None => None,
        }
    }

    /// Finds every match of the pattern in `target`: for each, the byte at which it starts
    /// and the number of bytes that it covers.
    pub fn locate(&self, target: &str) -> (found: Vec<(usize, usize)>)
        ensures
            found@ == pattern_locations(self@, target@),
    {
        locate_all(self, target)
    }
}

} // verus!
