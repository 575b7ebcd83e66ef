//! Searches for regular expressions, performed by the `rec` crate.
use vstd::prelude::*;

verus! {

/// Declares `rec::Pattern`, a compiled regular expression, so that it can be held here.
#[verifier::external_type_specification]
#[verifier::external_body]
pub struct ExPattern(rec::Pattern);

/// Whether `source` is a regular expression that `rec` accepts.
pub uninterp spec fn pattern_compiles(source: Seq<char>) -> bool;

/// The matches that `rec` finds of the regular expression `source` in `target`: the byte
/// offsets of the start and of the end of each match, in order.
pub uninterp spec fn pattern_matches(source: Seq<char>, target: Seq<char>) -> Seq<(usize, usize)>;

/// A regular expression, compiled from the characters it is written with.
pub struct SearchPattern {
    source: Ghost<Seq<char>>,
    compiled: rec::Pattern,
}

impl SearchPattern {
    /// The characters that the expression was compiled from.
    pub closed spec fn source(&self) -> Seq<char> {
        self.source@
    }
}

/// Compiles `source` with `<rec::Pattern as FromStr>::from_str` (through `str::parse`).
///
/// Claimed of it: it succeeds exactly when `source` is an expression that `rec` accepts
/// (named by [`pattern_compiles`]), and the pattern it gives remembers `source`.
#[verifier::external_body]
pub(crate) fn compile_pattern(source: &Vec<char>) -> (r: Option<SearchPattern>)
    ensures
        r.is_some() == pattern_compiles(source@),
        r matches Some(p) ==> p.source() == source@,
{
    let text: String = source.iter().collect();
    match text.parse::<rec::Pattern>() {
        Ok(compiled) => Some(SearchPattern { source: Ghost(source@), compiled }),
        Err(_) => None,
    }
}

/// Lists the matches of `pattern` in `target` with `regex::Regex::find_iter`, which
/// `rec::Pattern` dereferences to, keeping the start and end of each match.
///
/// Claimed of it: the result is the one that [`pattern_matches`] names for the source of the
/// pattern and `target`, and every match starts at or before its end, as the documentation of
/// `regex::Match` promises.
#[verifier::external_body]
pub(crate) fn find_matches(pattern: &SearchPattern, target: &Vec<char>) -> (r: Vec<(usize, usize)>)
    ensures
        r@ == pattern_matches(pattern.source(), target@),
        forall|i: int| 0 <= i < r@.len() ==> (#[trigger] r@[i]).0 <= r@[i].1,
{
    let text: String = target.iter().collect();
    pattern.compiled.find_iter(&text).map(|m| (m.start(), m.end())).collect()
}

} // verus!
