//! Filters: commands that narrow a list of sections to those that match a feature.
//!
//! A feature that starts with `#` selects lines: `#n` line `n`, `#a.b` the lines from `a` to
//! `b`, `#o+m` and `#o-m` the lines from `o` to `m` lines after or before it.  A feature that
//! starts with `/` selects the matches of the regular expression that follows.  A digit of a
//! line feature is what the regular expression `\d` matches, as `rec` reads it: any decimal
//! digit of Unicode; a number is still read in ASCII digits alone, so a feature whose digits
//! are not all ASCII names no line, and the filter keeps every section.
use crate::convert::{i32_from_usize, IntConversionError};
use crate::line_number::{spec_line_add, spec_line_from_chars, LineNumber};
use crate::number::{is_digit, parse_i32, spec_parse_i32};
use crate::place::Section;
use crate::search::{compile_pattern, find_matches, pattern_compiles, pattern_matches, SearchPattern};
use crate::text::spec_lines;
use crate::ui::{clamp_index, Length};
use crate::view::View;
use vstd::prelude::*;
use vstd::view::View as _;

verus! {

/// What the line feature pattern finds in a feature: the texts of its tokens.
pub enum LineFeatureModel {
    /// `#` then digits that end the feature: one line.
    Line(Seq<char>),
    /// `#` then digits, `.` and digits: a range of lines.
    Range(Seq<char>, Seq<char>),
    /// `#` then digits, then a sign and digits: a line and a movement from it.
    Relative(Seq<char>, Seq<char>),
    /// No match.
    Unmatched,
}

/// The regular expression of a digit, `\d`, which is the `Digit` class of `rec`.
pub open spec fn digit_source() -> Seq<char> {
    seq!['\\', 'd']
}

/// Whether `c` is a digit of the line feature pattern: an ASCII character is one if it is
/// `0` to `9`; another character is one if `\d` compiles and finds a match in it.
pub open spec fn feature_digit(c: char) -> bool {
    if c <= '\u{7f}' {
        is_digit(c)
    } else {
        pattern_compiles(digit_source()) && pattern_matches(digit_source(), seq![c]).len() > 0
    }
}

/// Whether every character of `s` is a digit of the line feature pattern.
pub open spec fn all_feature_digits(s: Seq<char>) -> bool {
    forall|i: int| 0 <= i < s.len() ==> feature_digit(#[trigger] s[i])
}

/// Whether `digit` is `\d` compiled, when it compiles.
pub open spec fn is_digit_pattern(digit: Option<SearchPattern>) -> bool {
    &&& digit.is_some() == pattern_compiles(digit_source())
    &&& digit matches Some(p) ==> p.source() == digit_source()
}

/// How many digits follow position `i` of `s`, starting with it.
pub open spec fn digit_run(s: Seq<char>, i: int) -> nat
    decreases s.len() - i,
{
    if 0 <= i < s.len() && feature_digit(s[i]) {
        1 + digit_run(s, i + 1)
    } else {
        0
    }
}

/// Whether `c` is a sign.
pub open spec fn is_sign(c: char) -> bool {
    c == '+' || c == '-'
}

/// What the line feature pattern finds at position `p` of `s`, if it matches there: `#`
/// followed by digits, then the end, or `.` and digits, or a sign and digits (the digits
/// being as many as follow).
pub open spec fn line_match_at(s: Seq<char>, p: int) -> Option<LineFeatureModel> {
    let q = p + 1;
    let r1 = digit_run(s, q);
    let after = q + r1;
    let r2 = digit_run(s, after + 1);
    if !(0 <= p < s.len() && s[p] == '#' && r1 >= 1) {
        None
    } else if after == s.len() {
        Some(LineFeatureModel::Line(s.subrange(q, after)))
    } else if s[after] == '.' && r2 >= 1 {
        Some(LineFeatureModel::Range(s.subrange(q, after), s.subrange(after + 1, after + 1 + r2)))
    } else if is_sign(s[after]) && r2 >= 1 {
        Some(LineFeatureModel::Relative(s.subrange(q, after), s.subrange(after, after + 1 + r2)))
    } else {
        None
    }
}

/// The leftmost match of the line feature pattern in `s` from position `p` on.
pub open spec fn line_match_from(s: Seq<char>, p: int) -> LineFeatureModel
    decreases s.len() - p,
{
    if p >= s.len() || p < 0 {
        LineFeatureModel::Unmatched
    } else {
        match line_match_at(s, p) {
            Some(m) => m,
            None => line_match_from(s, p + 1),
        }
    }
}

/// The smaller of two numbers.
pub open spec fn min_nat(a: nat, b: nat) -> nat {
    if a <= b {
        a
    } else {
        b
    }
}

/// The larger of two numbers.
pub open spec fn max_nat(a: nat, b: nat) -> nat {
    if a >= b {
        a
    } else {
        b
    }
}

/// The first and the last line that the line feature `feature` selects, if it selects any.
pub open spec fn line_bounds(feature: Seq<char>) -> Option<(nat, nat)> {
    match line_match_from(feature, 0) {
        LineFeatureModel::Line(t) => match spec_line_from_chars(t) {
            Ok(n) => Some((n, n)),
            Err(_) => None,
        },
        LineFeatureModel::Range(a, b) => match (spec_line_from_chars(a), spec_line_from_chars(b)) {
            (Ok(x), Ok(y)) => Some((min_nat(x, y), max_nat(x, y))),
            _ => None,
        },
        LineFeatureModel::Relative(a, m) => match (spec_line_from_chars(a), spec_parse_i32(m)) {
            (Ok(o), Ok(d)) => {
                let e = spec_line_add(o, d);
                Some((min_nat(o, e), max_nat(o, e)))
            },
            _ => None,
        },
        LineFeatureModel::Unmatched => None,
    }
}

/// Whether `section` starts on a line from `low` to `high`.
pub open spec fn starts_between(section: Section, low: nat, high: nat) -> bool {
    low <= section.start.line@ <= high
}

/// The sections that the line feature `feature` keeps of `sections`: those that start on the
/// lines it selects, in their order; all of them if it selects none.
pub open spec fn line_filtered(feature: Seq<char>, sections: Seq<Section>) -> Seq<Section> {
    match line_bounds(feature) {
        Some((low, high)) => sections.filter(|s: Section| starts_between(s, low, high)),
        None => sections,
    }
}

/// Compiles `\d`.
fn compile_digit() -> (r: Option<SearchPattern>)
    ensures
        is_digit_pattern(r),
{
    let source: Vec<char> = vec!['\\', 'd'];
    assert(source@ =~= digit_source());
    compile_pattern(&source)
}

/// Returns whether `c` is a digit of the line feature pattern; `digit` is `\d` compiled.
fn is_feature_digit(c: char, digit: &Option<SearchPattern>) -> (b: bool)
    requires
        is_digit_pattern(*digit),
    ensures
        b == feature_digit(c),
{
    if c <= '\u{7f}' {
        '0' <= c && c <= '9'
    } else {
        match digit {
            Some(pattern) => {
                let target: Vec<char> = vec![c];
                assert(target@ =~= seq![c]);
                find_matches(pattern, &target).len() > 0
            },
            None => false,
        }
    }
}

/// Returns how many digits follow position `i` of `s`, starting with it; `digit` is `\d`
/// compiled.
fn digit_run_exec(s: &Vec<char>, i: usize, digit: &Option<SearchPattern>) -> (n: usize)
    requires
        i <= s@.len(),
        is_digit_pattern(*digit),
    ensures
        n == digit_run(s@, i as int),
        i + n <= s@.len(),
{
    let mut j: usize = i;
    while j < s.len() && is_feature_digit(s[j], digit)
        invariant
            i <= j <= s@.len(),
            is_digit_pattern(*digit),
            digit_run(s@, i as int) == (j - i) + digit_run(s@, j as int),
        decreases s@.len() - j,
    {
        j = j + 1;
    }
    j - i
}

/// Returns the characters of `s` from `start` up to `end`.
fn copy_range(s: &Vec<char>, start: usize, end: usize) -> (r: Vec<char>)
    requires
        start <= end <= s@.len(),
    ensures
        r@ == s@.subrange(start as int, end as int),
{
    let mut r: Vec<char> = Vec::new();
    let mut i: usize = start;
    while i < end
        invariant
            start <= i <= end,
            end <= s@.len(),
            r@ == s@.subrange(start as int, i as int),
        decreases end - i,
    {
        r.push(s[i]);
        i = i + 1;
        assert(r@ =~= s@.subrange(start as int, i as int));
    }
    r
}

/// The tokens that the line feature pattern finds in a feature.
pub enum LineFeature {
    /// One line.
    Line(Vec<char>),
    /// A range of lines.
    Range(Vec<char>, Vec<char>),
    /// A line and a movement from it.
    Relative(Vec<char>, Vec<char>),
    /// No match.
    Unmatched,
}

/// Whether `tokens` holds the texts that `m` describes.
pub open spec fn tokens_match(tokens: LineFeature, m: LineFeatureModel) -> bool {
    match (tokens, m) {
        (LineFeature::Line(a), LineFeatureModel::Line(x)) => a@ == x,
        (LineFeature::Range(a, b), LineFeatureModel::Range(x, y)) => a@ == x && b@ == y,
        (LineFeature::Relative(a, b), LineFeatureModel::Relative(x, y)) => a@ == x && b@ == y,
        (LineFeature::Unmatched, LineFeatureModel::Unmatched) => true,
        _ => false,
    }
}

/// Finds the tokens of the leftmost match of the line feature pattern in `feature`.
pub fn tokenize_line_feature(feature: &Vec<char>) -> (r: LineFeature)
    ensures
        tokens_match(r, line_match_from(feature@, 0)),
{
    let digit = compile_digit();
    let mut p: usize = 0;
    while p < feature.len()
        invariant
            p <= feature@.len(),
            is_digit_pattern(digit),
            line_match_from(feature@, 0) == line_match_from(feature@, p as int),
        decreases feature@.len() - p,
    {
        if feature[p] == '#' {
            let q = p + 1;
            let r1 = digit_run_exec(feature, q, &digit);
            if r1 >= 1 {
                let after = q + r1;
                if after == feature.len() {
                    return LineFeature::Line(copy_range(feature, q, after));
                }
                let c = feature[after];
                let r2 = digit_run_exec(feature, after + 1, &digit);
                if c == '.' && r2 >= 1 {
                    return LineFeature::Range(
                        copy_range(feature, q, after),
                        copy_range(feature, after + 1, after + 1 + r2),
                    );
                }
                if (c == '+' || c == '-') && r2 >= 1 {
                    return LineFeature::Relative(
                        copy_range(feature, q, after),
                        copy_range(feature, after, after + 1 + r2),
                    );
                }
            }
        }
        p = p + 1;
    }
    LineFeature::Unmatched
}

/// Returns the first and the last line that the line feature `feature` selects, if it
/// selects any.
pub fn line_feature_bounds(feature: &Vec<char>) -> (r: Option<(LineNumber, LineNumber)>)
    ensures
        match line_bounds(feature@) {
            Some((low, high)) => r matches Some((a, b)) && a@ == low && b@ == high,
            None => r is None,
        },
{
    match tokenize_line_feature(feature) {
        LineFeature::Line(t) => match LineNumber::from_chars(t.as_slice()) {
            Ok(line) => Some((line, line)),
            Err(_) => None,
        },
        LineFeature::Range(a, b) => match (
            LineNumber::from_chars(a.as_slice()),
            LineNumber::from_chars(b.as_slice()),
        ) {
            (Ok(start), Ok(end)) => Some((start.earlier(end), start.later(end))),
            _ => None,
        },
        LineFeature::Relative(a, m) => match (
            LineNumber::from_chars(a.as_slice()),
            parse_i32(m.as_slice()),
        ) {
            (Ok(origin), Ok(movement)) => {
                let end = origin.add(movement);
                Some((origin.earlier(end), origin.later(end)))
            },
            _ => None,
        },
        LineFeature::Unmatched => None,
    }
}

/// The filter that selects lines.
pub struct LineFilter;

impl LineFilter {
    /// The character that starts the features of this filter.
    pub fn id(&self) -> (c: char)
        ensures
            c == '#',
    {
        '#'
    }

    /// Keeps of `sections` those that start on the lines that `feature` selects, in their
    /// order; keeps all of them when it selects none.
    pub fn extract(&self, feature: &Vec<char>, sections: &mut Vec<Section>, _view: &View) -> (r: Result<
        (),
        IntConversionError,
    >)
        ensures
            r is Ok,
            final(sections)@ == line_filtered(feature@, old(sections)@),
    {
        match line_feature_bounds(feature) {
            Some((top, bottom)) => {
                let ghost low = top@;
                let ghost high = bottom@;
                let ghost pred = |s: Section| starts_between(s, low, high);
                let mut kept: Vec<Section> = Vec::new();
                let mut i: usize = 0;
                while i < sections.len()
                    invariant
                        i <= sections@.len(),
                        sections@ == old(sections)@,
                        low == top@,
                        high == bottom@,
                        pred == (|s: Section| starts_between(s, low, high)),
                        kept@ == sections@.take(i as int).filter(pred),
                    decreases sections@.len() - i,
                {
                    reveal_with_fuel(Seq::<_>::filter, 1);
                    let s = sections[i];
                    assert(sections@.take(i + 1).drop_last() == sections@.take(i as int));
                    if top.is_at_most(s.start.line) && s.start.line.is_at_most(bottom) {
                        kept.push(s);
                    }
                    i = i + 1;
                }
                assert(sections@.take(sections@.len() as int) == sections@);
                *sections = kept;
            },
            None => {},
        }
        Ok(())
    }
}

/// How many characters other than a line feed follow position `i` of `s`, starting with it.
pub open spec fn line_run(s: Seq<char>, i: int) -> nat
    decreases s.len() - i,
{
    if 0 <= i < s.len() && s[i] != '\n' {
        1 + line_run(s, i + 1)
    } else {
        0
    }
}

/// The expression that the pattern feature pattern finds in `s` from position `p` on: the
/// characters after the leftmost `/` that one character other than a line feed follows, up
/// to the next line feed.
pub open spec fn pattern_token_from(s: Seq<char>, p: int) -> Option<Seq<char>>
    decreases s.len() - p,
{
    if p >= s.len() || p < 0 {
        None
    } else if s[p] == '/' && line_run(s, p + 1) >= 1 {
        Some(s.subrange(p + 1, p + 1 + line_run(s, p + 1)))
    } else {
        pattern_token_from(s, p + 1)
    }
}

/// A section as numbers: its line, its column, and its length (-1 for the rest of a line).
pub open spec fn section_model(s: Section) -> (nat, int, int) {
    (
        s.start.line@,
        s.start.column@,
        match s.length {
            Length::Count(i) => i@,
            Length::End => -1,
        },
    )
}

/// The models of a sequence of sections.
pub open spec fn section_models(s: Seq<Section>) -> Seq<(nat, int, int)> {
    s.map_values(|x: Section| section_model(x))
}

/// The text that the pattern of a pattern feature is searched in for `target`: its line of
/// `data`, from its column on; none if `data` has no such line.
pub open spec fn target_text(data: Seq<char>, target: Section) -> Option<Seq<char>> {
    let lines = spec_lines(data);
    let row = target.start.line@ - 1;
    let column = target.start.column@;
    if 0 <= row < lines.len() {
        let line = lines[row];
        Some(
            if column <= line.len() {
                line.skip(column)
            } else {
                Seq::<char>::empty()
            },
        )
    } else {
        None
    }
}

/// A match found for a target section: the line and column of the section, then the start
/// and the end of the match.
pub type RawMatch = (nat, int, usize, usize);

/// The matches of `source` found for `target` in `data`.
pub open spec fn target_matches(target: Section, source: Seq<char>, data: Seq<char>) -> Seq<RawMatch> {
    match target_text(data, target) {
        Some(t) => pattern_matches(source, t).map_values(
            |m: (usize, usize)| (target.start.line@, target.start.column@, m.0, m.1),
        ),
        None => Seq::<RawMatch>::empty(),
    }
}

/// The matches of `source` found for each of `targets` in turn.
pub open spec fn all_matches(targets: Seq<Section>, source: Seq<char>, data: Seq<char>) -> Seq<
    RawMatch,
>
    decreases targets.len(),
{
    if targets.len() == 0 {
        Seq::<RawMatch>::empty()
    } else {
        all_matches(targets.drop_last(), source, data) + target_matches(
            targets.last(),
            source,
            data,
        )
    }
}

/// Whether the section of a match fits: its start and its length are indexes.
pub open spec fn match_fits(m: RawMatch) -> bool {
    m.2 <= i32::MAX && m.3 - m.2 <= i32::MAX
}

/// The model of the section that a match gives: on the line of its target, at the column of
/// the target moved right by the start of the match, as long as the match.
pub open spec fn match_model(m: RawMatch) -> (nat, int, int) {
    (m.0, clamp_index(m.1 + m.2), m.3 - m.2)
}

/// The models of the sections that a sequence of matches gives.
pub open spec fn match_models(ms: Seq<RawMatch>) -> Seq<(nat, int, int)> {
    ms.map_values(|m: RawMatch| match_model(m))
}

/// Whether the pattern feature `feature` turns the sections `before` of the text `data` into
/// `after` with the result `r`: when the feature gives an expression that compiles, `after`
/// holds the sections of its matches in each section of `before`, up to the first match whose
/// section does not fit (then `r` is an overflow); otherwise nothing changes.
pub open spec fn pattern_extracted(
    feature: Seq<char>,
    before: Seq<Section>,
    after: Seq<Section>,
    data: Seq<char>,
    r: Result<(), IntConversionError>,
) -> bool {
    match pattern_token_from(feature, 0) {
        Some(source) if pattern_compiles(source) => {
            let found = all_matches(before, source, data);
            match r {
                Ok(()) => (forall|j: int| 0 <= j < found.len() ==> match_fits(#[trigger] found[j]))
                    && section_models(after) == match_models(found),
                Err(e) => e == IntConversionError::Overflow && exists|b: int|
                    0 <= b < found.len() && !match_fits(found[b]) && (forall|j: int|
                        0 <= j < b ==> match_fits(#[trigger] found[j])) && section_models(after)
                        == match_models(found.take(b)),
            }
        },
        _ => r is Ok && after == before,
    }
}

/// The filter that selects the matches of a regular expression.
pub struct PatternFilter;

impl PatternFilter {
    /// The character that starts the features of this filter.
    pub fn id(&self) -> (c: char)
        ensures
            c == '/',
    {
        '/'
    }

    /// Replaces `sections` by the matches, in each of them to the end of its line, of the
    /// expression that `feature` gives; nothing changes when the feature gives none or it does
    /// not compile.  A match whose start or length is no index stops the search with an
    /// error, the sections found before it kept.
    pub fn extract(&self, feature: &Vec<char>, sections: &mut Vec<Section>, view: &View) -> (r: Result<
        (),
        IntConversionError,
    >)
        requires
            pattern_token_from(feature@, 0) matches Some(p) && pattern_compiles(p) ==> forall|i: int|
                0 <= i < old(sections)@.len() ==> #[trigger] old(sections)@[i].start.line@ >= 1,
        ensures
            pattern_extracted(feature@, old(sections)@, final(sections)@, view.data@, r),
    {
        let user_pattern = match pattern_token(feature) {
            Some(p) => p,
            None => return Ok(()),
        };
        let search_pattern = match compile_pattern(&user_pattern) {
            Some(p) => p,
            None => return Ok(()),
        };
        let ghost source = user_pattern@;
        assert(forall|k: int| 0 <= k < old(sections)@.len() ==> #[trigger] old(sections)@[k].start.line@ >= 1);
        let targets = sections.clone();
        let ghost data = view.data@;
        assert(targets@ == old(sections)@);
        sections.clear();
        let mut i: usize = 0;
        while i < targets.len()
            invariant
                i <= targets@.len(),
                targets@ == old(sections)@,
                data == view.data@,
                search_pattern.source() == source,
                pattern_token_from(feature@, 0) == Some(source),
                pattern_compiles(source),
                forall|k: int| 0 <= k < targets@.len() ==> #[trigger] targets@[k].start.line@ >= 1,
                forall|j: int| 0 <= j < all_matches(targets@.take(i as int), source, data).len()
                    ==> match_fits(#[trigger] all_matches(targets@.take(i as int), source, data)[j]),
                section_models(sections@) == match_models(all_matches(targets@.take(i as int), source, data)),
            decreases targets@.len() - i,
        {
            let target = targets[i];
            let ghost before = all_matches(targets@.take(i as int), source, data);
            assert(targets@.take(i + 1).drop_last() == targets@.take(i as int));
            assert(targets@.take(i + 1).last() == target);
            let start = match target.start.column.to_usize() {
                Ok(v) => v,
                Err(e) => return Err(e),
            };
            if let Some(line) = view.line(target.start.line) {
                let text = skip_chars(&line, start);
                assert(target_text(data, target) == Some(text@));
                let locations = find_matches(&search_pattern, &text);
                let ghost ms = target_matches(target, source, data);
                assert(ms.len() == locations@.len());
                assert(all_matches(targets@.take(i + 1), source, data) == before + ms);
                let mut j: usize = 0;
                while j < locations.len()
                    invariant
                        j <= locations@.len(),
                        i < targets@.len(),
                        targets@ == old(sections)@,
                        target == targets@[i as int],
                        data == view.data@,
                        search_pattern.source() == source,
                        pattern_token_from(feature@, 0) == Some(source),
                        pattern_compiles(source),
                        before == all_matches(targets@.take(i as int), source, data),
                        ms == target_matches(target, source, data),
                        all_matches(targets@.take(i + 1), source, data) == before + ms,
                        ms.len() == locations@.len(),
                        forall|k: int| 0 <= k < locations@.len() ==> (#[trigger] locations@[k]).0 <= locations@[k].1,
                        forall|k: int| 0 <= k < ms.len() ==> #[trigger] ms[k] == (target.start.line@, target.start.column@, locations@[k].0, locations@[k].1),
                        forall|k: int| 0 <= k < before.len() ==> match_fits(#[trigger] before[k]),
                        forall|k: int| 0 <= k < j ==> match_fits(#[trigger] ms[k]),
                        section_models(sections@) == match_models(before + ms.take(j as int)),
                    decreases locations@.len() - j,
                {
                    let (match_start, match_end) = locations[j];
                    let shift = match i32_from_usize(match_start) {
                        Ok(v) => v,
                        Err(e) => {
                            proof {
                                lemma_overflow_stops(old(sections)@, i as int, j as int, source, data, before, ms);
                                let found = all_matches(old(sections)@, source, data);
                                let b = before.len() + j;
                                assert(!match_fits(found[b]));
                            }
                            return Err(e);
                        },
                    };
                    let length = match Length::try_from_usize(match_end - match_start) {
                        Ok(l) => l,
                        Err(e) => {
                            proof {
                                lemma_overflow_stops(old(sections)@, i as int, j as int, source, data, before, ms);
                                let found = all_matches(old(sections)@, source, data);
                                let b = before.len() + j;
                                assert(!match_fits(found[b]));
                            }
                            return Err(e);
                        },
                    };
                    let section = Section::new(target.start.shr(shift), length);
                    let ghost old_sections = sections@;
                    sections.push(section);
                    proof {
                        assert(section_model(section) == match_model(ms[j as int]));
                        assert(ms.take(j + 1) == ms.take(j as int).push(ms[j as int]));
                        assert(section_models(sections@) =~= section_models(old_sections).push(section_model(section)));
                        assert(before + ms.take(j + 1) == (before + ms.take(j as int)).push(ms[j as int]));
                        assert(match_models((before + ms.take(j as int)).push(ms[j as int])) =~= match_models(before + ms.take(j as int)).push(match_model(ms[j as int])));
                    }
                    j = j + 1;
                }
                assert(ms.take(ms.len() as int) == ms);
            } else {
                assert(target_text(data, target) is None);
                assert(target_matches(target, source, data) == Seq::<RawMatch>::empty());
                assert(before + Seq::<RawMatch>::empty() == before);
            }
            i = i + 1;
        }
        assert(targets@.take(targets@.len() as int) == targets@);
        Ok(())
    }
}

/// When the match at position `j` of the matches for target `i` does not fit, it is the
/// first one among all matches that does not, and the sections found before it are those of
/// the matches before it.
proof fn lemma_overflow_stops(
    targets: Seq<Section>,
    i: int,
    j: int,
    source: Seq<char>,
    data: Seq<char>,
    before: Seq<RawMatch>,
    ms: Seq<RawMatch>,
)
    requires
        0 <= i < targets.len(),
        0 <= j < ms.len(),
        before == all_matches(targets.take(i), source, data),
        all_matches(targets.take(i + 1), source, data) == before + ms,
        !match_fits(ms[j]),
        forall|k: int| 0 <= k < before.len() ==> match_fits(#[trigger] before[k]),
        forall|k: int| 0 <= k < j ==> match_fits(#[trigger] ms[k]),
    ensures
        ({
            let found = all_matches(targets, source, data);
            let b = before.len() + j;
            &&& 0 <= b < found.len()
            &&& !match_fits(found[b])
            &&& forall|k: int| 0 <= k < b ==> match_fits(#[trigger] found[k])
            &&& found.take(b) == before + ms.take(j)
        }),
{
    lemma_all_matches_prefix(targets, i + 1, source, data);
    let found = all_matches(targets, source, data);
    let part = before + ms;
    let b = before.len() + j;
    assert(found.take(part.len() as int) == part);
    assert(found[b] == part[b]);
    assert forall|k: int| 0 <= k < b implies match_fits(#[trigger] found[k]) by {
        assert(found[k] == part[k]);
        if k >= before.len() {
            assert(part[k] == ms[k - before.len()]);
        }
    }
    assert(found.take(b) =~= before + ms.take(j));
}

/// The matches for the first `n` targets come first among the matches for all of them.
proof fn lemma_all_matches_prefix(targets: Seq<Section>, n: int, source: Seq<char>, data: Seq<char>)
    requires
        0 <= n <= targets.len(),
    ensures
        all_matches(targets, source, data).len() >= all_matches(targets.take(n), source, data).len(),
        all_matches(targets, source, data).take(all_matches(targets.take(n), source, data).len() as int)
            == all_matches(targets.take(n), source, data),
    decreases targets.len() - n,
{
    if n == targets.len() {
        assert(targets.take(n) == targets);
        let a = all_matches(targets, source, data);
        assert(a.take(a.len() as int) == a);
    } else {
        lemma_all_matches_prefix(targets, n + 1, source, data);
        assert(targets.take(n + 1).drop_last() == targets.take(n));
        let small = all_matches(targets.take(n), source, data);
        let big = all_matches(targets.take(n + 1), source, data);
        assert(big.take(small.len() as int) == small);
    }
}

/// Returns the characters of `line` from position `start` on (none if it is past the end).
fn skip_chars(line: &Vec<char>, start: usize) -> (r: Vec<char>)
    ensures
        r@ == if start <= line@.len() {
            line@.skip(start as int)
        } else {
            Seq::<char>::empty()
        },
{
    let mut r: Vec<char> = Vec::new();
    let mut i: usize = start;
    while i < line.len()
        invariant
            start <= i,
            i <= line@.len() || i == start,
            r@ == if start <= line@.len() {
                line@.subrange(start as int, i as int)
            } else {
                Seq::<char>::empty()
            },
        decreases line@.len() - i,
    {
        r.push(line[i]);
        i = i + 1;
        assert(r@ =~= line@.subrange(start as int, i as int));
    }
    if start <= line.len() {
        assert(line@.subrange(start as int, line@.len() as int) == line@.skip(start as int));
    }
    r
}

/// Returns the expression that a pattern feature gives, if any.
pub fn pattern_token(feature: &Vec<char>) -> (r: Option<Vec<char>>)
    ensures
        match pattern_token_from(feature@, 0) {
            Some(t) => r matches Some(v) && v@ == t,
            None => r is None,
        },
{
    let mut p: usize = 0;
    while p < feature.len()
        invariant
            p <= feature@.len(),
            pattern_token_from(feature@, 0) == pattern_token_from(feature@, p as int),
        decreases feature@.len() - p,
    {
        if feature[p] == '/' {
            let mut end: usize = p + 1;
            while end < feature.len() && feature[end] != '\n'
                invariant
                    p + 1 <= end <= feature@.len(),
                    line_run(feature@, p + 1) == (end - (p + 1)) + line_run(feature@, end as int),
                decreases feature@.len() - end,
            {
                end = end + 1;
            }
            if end > p + 1 {
                return Some(copy_range(feature, p + 1, end));
            }
        }
        p = p + 1;
    }
    None
}

} // verus!
