//! Properties that hold across the operations of the library.
use crate::adjustment::{model_add, AdjustmentModel};
use crate::filter::{all_feature_digits, digit_run, feature_digit, line_bounds, line_filtered, line_match_from, line_match_at, starts_between, LineFeatureModel};
use crate::line_number::{spec_line_add, spec_line_from_chars, ParseLineNumberError};
use crate::number::{spec_decimal, spec_parse_usize, pad_left};
use crate::place::Section;
use crate::text::{segments, spec_lines, strip_cr};
use crate::ui::{clamp_index, BACKSPACE};
use crate::update::{is_mark_after, state_after, zero_adjustment};
use crate::place::Mark;
use crate::ui::ENTER;
use crate::view::{ceil_log10, margin_for, pow10, remove_cr, scrolled_line, spec_address};
use crate::place::Place;
use crate::utf8::{char_at_byte, lemma_char_at_byte_found, lemma_char_at_prefix};
use crate::filter::{line_run, pattern_token_from};
use crate::paper::{section_edit, section_edits};
use crate::ui::{Color, Length};
use crate::update::{mark_edit, mark_edits};
use vstd::prelude::*;

verus! {

/// Moving a line by 0 lines leaves it where it is.
pub proof fn law_line_add_zero(line: nat)
    requires
        line <= u32::MAX,
    ensures
        spec_line_add(line, 0) == line,
{
}

/// Moving a line and then asking how far it moved gives the movement, as long as the line
/// stays from 0 to `u32::MAX`.
pub proof fn law_line_add_then_sub(line: nat, movement: int)
    requires
        0 <= line + movement <= u32::MAX,
    ensures
        spec_line_add(line, movement) - line == movement,
{
}

/// The sections that the line filter keeps are sections it was given, in the order it was
/// given them.
pub proof fn law_line_filter_keeps_a_subsequence(feature: Seq<char>, sections: Seq<Section>)
    ensures
        line_filtered(feature, sections).len() <= sections.len(),
        forall|i: int|
            0 <= i < line_filtered(feature, sections).len() ==> sections.contains(
                #[trigger] line_filtered(feature, sections)[i],
            ),
{
    match line_bounds(feature) {
        Some((low, high)) => {
            let pred = |s: Section| starts_between(s, low, high);
            sections.lemma_filter_len(pred);
            lemma_filter_subset(sections, pred);
        },
        None => {},
    }
}

/// Filtering twice with the same line feature keeps what filtering once keeps.
pub proof fn law_line_filter_idempotent(feature: Seq<char>, sections: Seq<Section>)
    ensures
        line_filtered(feature, line_filtered(feature, sections)) == line_filtered(feature, sections),
{
    match line_bounds(feature) {
        Some((low, high)) => {
            let pred = |s: Section| starts_between(s, low, high);
            lemma_filter_twice(sections, pred);
        },
        None => {},
    }
}

/// Filtering a filtered sequence again with the same predicate changes nothing.
proof fn lemma_filter_twice<A>(s: Seq<A>, pred: spec_fn(A) -> bool)
    ensures
        s.filter(pred).filter(pred) == s.filter(pred),
    decreases s.len(),
{
    reveal_with_fuel(Seq::<_>::filter, 1);
    if s.len() > 0 {
        lemma_filter_twice(s.drop_last(), pred);
        let f = s.drop_last().filter(pred);
        if pred(s.last()) {
            assert(s.filter(pred) == f.push(s.last()));
            assert(f.push(s.last()).drop_last() == f);
        }
    }
}

/// A section is kept by a line feature exactly when it starts on a selected line: every
/// section of the input on those lines is in the output, and no other.
pub proof fn law_line_filter_selects_lines(feature: Seq<char>, sections: Seq<Section>, section: Section)
    requires
        sections.contains(section),
    ensures
        match line_bounds(feature) {
            Some((low, high)) => line_filtered(feature, sections).contains(section) <==> starts_between(
                section,
                low,
                high,
            ),
            None => line_filtered(feature, sections).contains(section),
        },
{
    if line_bounds(feature) is None {
        return;
    }
    let (low, high) = line_bounds(feature)->0;
    let pred = |s: Section| starts_between(s, low, high);
    sections.filter_lemma(pred);
    let i = choose|i: int| 0 <= i < sections.len() && sections[i] == section;
    if pred(section) {
        assert(pred(sections[i]));
    }
    if line_filtered(feature, sections).contains(section) {
        let f = sections.filter(pred);
        let j = choose|j: int| 0 <= j < f.len() && f[j] == section;
        assert(pred(f[j]));
    }
}

/// Every element of a filtered sequence is an element of the sequence.
proof fn lemma_filter_subset<A>(s: Seq<A>, pred: spec_fn(A) -> bool)
    ensures
        forall|i: int| 0 <= i < s.filter(pred).len() ==> s.contains(#[trigger] s.filter(pred)[i]),
    decreases s.len(),
{
    reveal_with_fuel(Seq::<_>::filter, 1);
    if s.len() > 0 {
        lemma_filter_subset(s.drop_last(), pred);
        let f = s.drop_last().filter(pred);
        assert forall|i: int| 0 <= i < s.filter(pred).len() implies s.contains(#[trigger] s.filter(pred)[i]) by {
            if i < f.len() {
                assert(s.filter(pred)[i] == f[i]);
                let j = choose|j: int| 0 <= j < s.drop_last().len() && s.drop_last()[j] == f[i];
                assert(s[j] == f[i]);
            } else {
                assert(s.filter(pred)[i] == s.last());
                assert(s[s.len() - 1] == s.last());
            }
        }
    }
}

/// A character inserted before a pointer is removed again by a backspace at the pointer
/// before it: the text is as it was.
pub proof fn law_insert_then_backspace(data: Seq<char>, pointer: int, c: char)
    requires
        1 <= pointer,
        pointer - 1 <= data.len(),
        c != BACKSPACE,
    ensures
        ({
            let inserted = data.insert(pointer - 1, c);
            inserted.remove(pointer - 1) == data
        }),
{
    let inserted = data.insert(pointer - 1, c);
    assert(inserted.remove(pointer - 1) =~= data);
}

/// The adjustment that moves nothing, merged before another, gives that other.
pub proof fn law_adjustment_zero_left(a: AdjustmentModel)
    ensures
        model_add(zero_adjustment(), a) == a,
{
    assert(model_add(zero_adjustment(), a).indexes =~= a.indexes);
}

/// Merging adjustments is associative: the order in which consecutive merges are grouped
/// does not matter.
pub proof fn law_adjustment_add_associative(a: AdjustmentModel, b: AdjustmentModel, c: AdjustmentModel)
    ensures
        model_add(model_add(a, b), c) == model_add(a, model_add(b, c)),
{
    assert(model_add(model_add(a, b), c).indexes =~= model_add(a, model_add(b, c)).indexes);
}

/// Moving a column by `a` and then by `b` moves it by `a + b`, as long as it stays an index
/// on the way.
pub proof fn law_shift_compose(column: int, a: int, b: int)
    requires
        0 <= column + a <= i32::MAX,
    ensures
        clamp_index(clamp_index(column + a) + b) == clamp_index(column + a + b),
{
}

/// A text opened in the view holds no carriage return.
pub proof fn law_opened_text_has_no_carriage_return(data: Seq<char>)
    ensures
        !remove_cr(data).contains('\r'),
    decreases data.len(),
{
    if data.len() > 0 {
        law_opened_text_has_no_carriage_return(data.drop_last());
        let prev = remove_cr(data.drop_last());
        if data.last() != '\r' {
            assert forall|i: int| 0 <= i < prev.push(data.last()).len() implies prev.push(data.last())[i] != '\r' by {
                if i < prev.len() {
                    assert(prev.push(data.last())[i] == prev[i]);
                }
            }
        }
    }
}

/// Reading back the decimal text of a number gives the number.
pub proof fn law_decimal_reads_back(n: nat)
    requires
        n <= usize::MAX,
    ensures
        spec_parse_usize(spec_decimal(n)) == Ok::<nat, crate::number::IntErrorKind>(n),
{
    lemma_decimal_digits(n);
    crate::number::lemma_fold_digits_value(spec_decimal(n), usize::MAX as nat, crate::number::IntErrorKind::PosOverflow);
    assert(spec_decimal(n)[0] != '+' && spec_decimal(n)[0] != '-');
}

/// The decimal text of `n` is made of digits, is not empty, and reads as `n`.
proof fn lemma_decimal_digits(n: nat)
    ensures
        crate::number::all_digits(spec_decimal(n)),
        spec_decimal(n).len() >= 1,
        crate::number::decimal_value(spec_decimal(n)) == n,
    decreases n,
{
    assert(crate::number::digit_value(crate::number::digit_char(n % 10)) == n % 10);
    assert(crate::number::is_digit(crate::number::digit_char(n % 10)));
    if n < 10 {
        assert(spec_decimal(n).drop_last() =~= Seq::<char>::empty());
        assert(crate::number::decimal_value(Seq::<char>::empty()) == 0);
        assert(crate::number::decimal_value(spec_decimal(n)) == crate::number::decimal_value(
            spec_decimal(n).drop_last(),
        ) * 10 + crate::number::digit_value(spec_decimal(n).last()));
    }
    if n >= 10 {
        lemma_decimal_digits(n / 10);
        let prev = spec_decimal(n / 10);
        let s = spec_decimal(n);
        assert(s.drop_last() == prev);
        assert(crate::number::decimal_value(s) == crate::number::decimal_value(prev) * 10
            + crate::number::digit_value(s.last()));
        assert(n == (n / 10) * 10 + n % 10);
        assert forall|i: int| 0 <= i < s.len() implies crate::number::is_digit(#[trigger] s[i]) by {
            if i < prev.len() {
                assert(s[i] == prev[i]);
            }
        }
    }
}

/// The line numbers shown in the margin all fit it: the number of every line of a text of
/// `line_count` lines has at most as many digits as the margin has columns before its space,
/// and the number of the last line has exactly that many, so that the numbers align.
pub proof fn law_margin_fits_line_numbers(line_count: nat, line: nat)
    requires
        1 <= line <= line_count,
    ensures
        spec_decimal(line).len() <= margin_for(line_count) - 1,
        spec_decimal(line_count).len() == margin_for(line_count) - 1,
        pad_left(spec_decimal(line), (margin_for(line_count) - 1) as nat).len() == margin_for(line_count) - 1,
{
    lemma_decimal_len(line_count);
    lemma_decimal_len(line);
    let k = spec_decimal(line_count).len();
    let l = spec_decimal(line).len();
    if l >= 2 && l - 1 >= k {
        lemma_pow10_monotone(k, (l - 1) as nat);
        assert(false);
    }
}

/// The decimal text of `n` has `ceil_log10(n + 1)` digits (one for 0), and `n` lies below
/// ten to that power.
proof fn lemma_decimal_len(n: nat)
    ensures
        n >= 1 ==> spec_decimal(n).len() == ceil_log10(n + 1),
        n < pow10(spec_decimal(n).len()),
        spec_decimal(n).len() >= 1,
        spec_decimal(n).len() >= 2 ==> pow10((spec_decimal(n).len() - 1) as nat) <= n,
    decreases n,
{
    if n >= 10 {
        lemma_decimal_len(n / 10);
        let k = spec_decimal(n / 10).len();
        assert(spec_decimal(n).len() == k + 1);
        assert(pow10(1) == 10) by {
            reveal_with_fuel(pow10, 2);
        }
        assert(pow10(k) == 10 * pow10((k - 1) as nat));
        if k >= 2 {
            assert(pow10((k - 1) as nat) <= n / 10);
            assert(10 * pow10((k - 1) as nat) <= 10 * (n / 10));
        }
        assert(ceil_log10(n + 1) == 1 + ceil_log10(((n + 1 + 9) / 10) as nat));
        assert((n + 10) / 10 == n / 10 + 1);
    } else {
        assert(pow10(1) == 10) by {
            reveal_with_fuel(pow10, 2);
        }
        if n >= 1 {
            assert(ceil_log10(n + 1) == 1 + ceil_log10(((n + 1 + 9) / 10) as nat));
        }
    }
}

/// Ten to a larger power is larger.
proof fn lemma_pow10_monotone(a: nat, b: nat)
    requires
        a <= b,
    ensures
        pow10(a) <= pow10(b),
    decreases b,
{
    if a < b {
        lemma_pow10_monotone(a, (b - 1) as nat);
    }
}

/// Digits from position `i` up to a character that is no digit, or up to the end, are as many
/// as the run of digits there.
proof fn lemma_digit_run_exact(s: Seq<char>, i: int, k: int)
    requires
        0 <= i,
        0 <= k,
        i + k <= s.len(),
        forall|j: int| i <= j < i + k ==> feature_digit(#[trigger] s[j]),
        i + k == s.len() || !feature_digit(s[i + k]),
    ensures
        digit_run(s, i) == k,
    decreases k,
{
    if k > 0 {
        lemma_digit_run_exact(s, i + 1, k - 1);
    }
}

/// The range feature `#a.b` is read as the range from `a` to `b`.
proof fn lemma_range_feature(a: Seq<char>, b: Seq<char>)
    requires
        a.len() >= 1,
        b.len() >= 1,
        all_feature_digits(a),
        all_feature_digits(b),
    ensures
        line_match_from(seq!['#'] + a + seq!['.'] + b, 0) == LineFeatureModel::Range(a, b),
{
    let f = seq!['#'] + a + seq!['.'] + b;
    let after: int = 1 + a.len() as int;
    assert forall|j: int| 1 <= j < after implies feature_digit(#[trigger] f[j]) by {
        assert(f[j] == a[j - 1]);
    }
    assert(f[after] == '.');
    lemma_digit_run_exact(f, 1, a.len() as int);
    assert forall|j: int| after + 1 <= j < after + 1 + b.len() implies feature_digit(#[trigger] f[j]) by {
        assert(f[j] == b[j - after - 1]);
    }
    lemma_digit_run_exact(f, after + 1, b.len() as int);
    assert(f.subrange(1, after) =~= a);
    assert(f.subrange(after + 1, after + 1 + b.len()) =~= b);
    assert(line_match_at(f, 0) == Some(LineFeatureModel::Range(a, b)));
}

/// The feature `#a` is read as the single line `a`.
proof fn lemma_line_feature(a: Seq<char>)
    requires
        a.len() >= 1,
        all_feature_digits(a),
    ensures
        line_match_from(seq!['#'] + a, 0) == LineFeatureModel::Line(a),
{
    let f = seq!['#'] + a;
    assert forall|j: int| 1 <= j < f.len() implies feature_digit(#[trigger] f[j]) by {
        assert(f[j] == a[j - 1]);
    }
    lemma_digit_run_exact(f, 1, a.len() as int);
    assert(f.subrange(1, f.len() as int) =~= a);
    assert(line_match_at(f, 0) == Some(LineFeatureModel::Line(a)));
}

/// The order in which a range feature names its two lines does not matter: `#a.b` selects
/// the lines that `#b.a` selects.
pub proof fn law_range_order_does_not_matter(a: Seq<char>, b: Seq<char>)
    requires
        a.len() >= 1,
        b.len() >= 1,
        all_feature_digits(a),
        all_feature_digits(b),
    ensures
        line_bounds(seq!['#'] + a + seq!['.'] + b) == line_bounds(seq!['#'] + b + seq!['.'] + a),
{
    lemma_range_feature(a, b);
    lemma_range_feature(b, a);
}

/// A line feature `#a` selects what the range from `a` to `a` selects.
pub proof fn law_line_is_range_of_one(a: Seq<char>)
    requires
        a.len() >= 1,
        all_feature_digits(a),
    ensures
        line_bounds(seq!['#'] + a) == line_bounds(seq!['#'] + a + seq!['.'] + a),
{
    lemma_line_feature(a);
    lemma_range_feature(a, a);
}

/// Typing a character at a mark and then a backspace at the mark where it moved gives back
/// the text: the backspace removes the character that was typed.
pub proof fn law_type_then_backspace(mark: Mark, moved: Mark, c: char, data: Seq<char>)
    requires
        c != BACKSPACE,
        c != ENTER,
        mark.place.line@ >= 1,
        mark.place.column@ >= 0,
        mark.pointer.0 matches Some(p) && char_at_byte(data, p@) is Some && p@ + 1 <= i32::MAX,
        is_mark_after(moved, seq![mark], 0, c, data),
    ensures
        state_after(seq![moved], 1, BACKSPACE, state_after(seq![mark], 1, c, data).1).1 == data,
{
    let p = mark.pointer.0->0@;
    lemma_char_at_byte_found(data, p);
    let k = char_at_byte(data, p)->0 as int;
    let typed = state_after(seq![mark], 1, c, data);
    assert(state_after(seq![mark], 0, c, data) == (zero_adjustment(), data));
    law_adjustment_zero_left(crate::adjustment::model_new(mark.place.line@, 1, 1, crate::ui::Change::Insert(c)));
    assert(typed.1 == data.insert(k, c));
    assert(data.insert(k, c).take(k) =~= data.take(k));
    lemma_char_at_prefix(data.insert(k, c), k);
    assert(moved.place.column@ != 0);
    assert(state_after(seq![moved], 0, BACKSPACE, typed.1) == (zero_adjustment(), typed.1));
    law_adjustment_zero_left(crate::adjustment::model_new(moved.place.line@, -1, -1, crate::ui::Change::Backspace));
    law_insert_then_backspace(data, k + 1, c);
}

/// Lines joined with line feeds between them.
pub open spec fn join_lines(lines: Seq<Seq<char>>) -> Seq<char>
    decreases lines.len(),
{
    if lines.len() == 0 {
        Seq::<char>::empty()
    } else if lines.len() == 1 {
        lines[0]
    } else {
        join_lines(lines.drop_last()) + seq!['\n'] + lines.last()
    }
}

/// The pieces between the line feeds of a text, joined with line feeds, give the text; and
/// no piece holds a carriage return that the text does not.
proof fn lemma_segments_join(s: Seq<char>)
    ensures
        join_lines(segments(s)) == s,
        !s.contains('\r') ==> forall|i: int| 0 <= i < segments(s).len() ==> !(#[trigger] segments(s)[i]).contains('\r'),
    decreases s.len(),
{
    if s.len() == 0 {
        assert(segments(s) =~= seq![Seq::<char>::empty()]);
    } else {
        let prev = segments(s.drop_last());
        lemma_segments_join(s.drop_last());
        crate::text::lemma_segments_len(s.drop_last());
        let c = s.last();
        assert(s.drop_last().push(c) == s);
        if !s.contains('\r') {
            assert forall|j: int| 0 <= j < s.drop_last().len() implies s.drop_last()[j] != '\r' by {
                assert(s.drop_last()[j] == s[j]);
            }
            assert(s[s.len() - 1] == c);
        }
        if c == '\n' {
            let segs = prev.push(Seq::<char>::empty());
            assert(segs.drop_last() == prev);
            assert(join_lines(segs) == join_lines(prev) + seq!['\n'] + Seq::<char>::empty());
            assert(join_lines(segs) =~= s);
            if !s.contains('\r') {
                assert forall|i: int| 0 <= i < segs.len() implies !(#[trigger] segs[i]).contains('\r') by {
                    if i < prev.len() {
                        assert(segs[i] == prev[i]);
                    } else {
                        assert(segs[i] =~= Seq::<char>::empty());
                    }
                }
            }
        } else {
            let n = prev.len() - 1;
            let segs = prev.update(n, prev.last().push(c));
            if prev.len() == 1 {
                assert(join_lines(segs) == segs[0]);
                assert(join_lines(prev) == prev[0]);
                assert(join_lines(segs) =~= s);
            } else {
                assert(segs.drop_last() =~= prev.drop_last());
                assert(join_lines(segs) == join_lines(prev.drop_last()) + seq!['\n'] + prev.last().push(c));
                assert(join_lines(prev) == join_lines(prev.drop_last()) + seq!['\n'] + prev.last());
                assert(join_lines(segs) =~= s);
            }
            if !s.contains('\r') {
                assert forall|i: int| 0 <= i < segs.len() implies !(#[trigger] segs[i]).contains('\r') by {
                    if i < n {
                        assert(segs[i] == prev[i]);
                    } else {
                        let l = prev.last().push(c);
                        assert(segs[i] == l);
                        assert(!prev[n].contains('\r'));
                        assert forall|j: int| 0 <= j < l.len() implies l[j] != '\r' by {
                            if j < prev.last().len() {
                                assert(l[j] == prev.last()[j]);
                            }
                        }
                    }
                }
            }
        }
    }
}

/// The lines of a text without carriage returns, joined with line feeds, give the text back,
/// up to a final line feed.
pub proof fn law_lines_join_back(s: Seq<char>)
    requires
        !s.contains('\r'),
    ensures
        join_lines(spec_lines(s)) + (if s.len() > 0 && s.last() == '\n' {
            seq!['\n']
        } else {
            Seq::<char>::empty()
        }) == s,
{
    lemma_segments_join(s);
    crate::text::lemma_segments_len(s);
    let segs = segments(s);
    let lines = spec_lines(s);
    assert forall|i: int| 0 <= i < segs.len() implies strip_cr(#[trigger] segs[i]) == segs[i] by {
        if segs[i].len() > 0 {
            assert(segs[i].last() == segs[i][segs[i].len() - 1]);
        }
    }
    if s.len() == 0 {
        assert(lines =~= Seq::<Seq<char>>::empty());
    } else if s.last() == '\n' {
        assert(lines =~= segs.drop_last());
        assert(segs.last() =~= Seq::<char>::empty()) by {
            assert(s.drop_last().push(s.last()) == s);
        }
        if segs.len() >= 2 {
            assert(join_lines(segs) == join_lines(segs.drop_last()) + seq!['\n'] + segs.last());
            assert(join_lines(lines) + seq!['\n'] =~= s);
        } else {
            crate::text::lemma_segments_len(s.drop_last());
        }
    } else {
        assert(lines =~= segs);
        assert(join_lines(lines) + Seq::<char>::empty() =~= s);
    }
}

/// The text of a line number reads back as that line number.
pub proof fn law_line_number_text_reads_back(n: nat)
    requires
        1 <= n <= u32::MAX,
    ensures
        spec_line_from_chars(spec_decimal(n)) == Ok::<nat, ParseLineNumberError>(n),
{
    law_decimal_reads_back(n);
}

/// Filtering with one predicate and then another keeps what filtering once with both keeps.
proof fn lemma_filter_filter<A>(s: Seq<A>, p: spec_fn(A) -> bool, q: spec_fn(A) -> bool)
    ensures
        s.filter(p).filter(q) == s.filter(|x: A| p(x) && q(x)),
    decreases s.len(),
{
    reveal_with_fuel(Seq::<_>::filter, 1);
    if s.len() > 0 {
        lemma_filter_filter(s.drop_last(), p, q);
        let f = s.drop_last().filter(p);
        if p(s.last()) {
            assert(s.filter(p) == f.push(s.last()));
            assert(f.push(s.last()).drop_last() == f);
        }
    }
}

/// Narrowing sections by two line features gives the same sections in either order.
pub proof fn law_line_filters_commute(first: Seq<char>, second: Seq<char>, sections: Seq<Section>)
    ensures
        line_filtered(second, line_filtered(first, sections)) == line_filtered(
            first,
            line_filtered(second, sections),
        ),
{
    match (line_bounds(first), line_bounds(second)) {
        (Some((a, b)), Some((c, d))) => {
            let p = |s: Section| starts_between(s, a, b);
            let q = |s: Section| starts_between(s, c, d);
            lemma_filter_filter(sections, p, q);
            lemma_filter_filter(sections, q, p);
            assert((|x: Section| p(x) && q(x)) =~= (|x: Section| q(x) && p(x)));
        },
        _ => {},
    }
}

/// Scrolling never shows a line past the last line of the text (nor past line 1 when there is
/// no line to number).
pub proof fn law_scroll_stays_within_text(first_line: nat, movement: int, line_count: nat)
    ensures
        scrolled_line(first_line, movement, line_count) <= if 0 < line_count <= u32::MAX {
            line_count
        } else {
            1
        },
{
}

/// Scrolling by no line keeps the first line shown, when it is a line of the text.
pub proof fn law_scroll_by_zero(first_line: nat, line_count: nat)
    requires
        1 <= first_line <= line_count <= u32::MAX,
    ensures
        scrolled_line(first_line, 0, line_count) == first_line,
{
}

/// Moving the first line shown and a place by the same number of lines leaves the cell that
/// shows the place where it was.
pub proof fn law_address_moves_with_view(first_line: nat, margin: nat, place: Place, moved: Place, k: int)
    requires
        1 <= first_line + k,
        moved.line@ == place.line@ + k,
        moved.column == place.column,
    ensures
        spec_address((first_line + k) as nat, margin, moved) == spec_address(first_line, margin, place),
{
}

/// Each edit that typing `c` at the first `n` marks shows is the edit of one of those marks,
/// in their order, and it is drawn on the row of that mark's line counted from the first line
/// shown (so never for a mark above it), in the mark's column moved right by the margin.
pub proof fn law_typed_edits_are_at_their_marks(
    marks: Seq<Mark>,
    n: int,
    c: char,
    data: Seq<char>,
    first_line: nat,
    margin: nat,
)
    requires
        0 <= n <= marks.len(),
    ensures
        forall|k: int|
            #![trigger mark_edits(marks, n, c, data, first_line, margin)[k]]
            0 <= k < mark_edits(marks, n, c, data, first_line, margin).len() ==> exists|j: int|
                #![trigger marks[j]]
                0 <= j < n && {
                    let e = mark_edits(marks, n, c, data, first_line, margin)[k];
                    &&& mark_edit(marks, j, c, data, first_line, margin) == Some(e)
                    &&& e.0 == marks[j].place.line@ - first_line
                    &&& 0 <= e.0
                    &&& e.1 == clamp_index(marks[j].place.column@ + margin)
                },
    decreases n,
{
    if n > 0 {
        law_typed_edits_are_at_their_marks(marks, n - 1, c, data, first_line, margin);
        let prev = mark_edits(marks, n - 1, c, data, first_line, margin);
        let all = mark_edits(marks, n, c, data, first_line, margin);
        assert forall|k: int| #![trigger all[k]] 0 <= k < all.len() implies exists|j: int|
            #![trigger marks[j]]
            0 <= j < n && {
                let e = all[k];
                &&& mark_edit(marks, j, c, data, first_line, margin) == Some(e)
                &&& e.0 == marks[j].place.line@ - first_line
                &&& 0 <= e.0
                &&& e.1 == clamp_index(marks[j].place.column@ + margin)
            } by {
            if k < prev.len() {
                assert(all[k] == prev[k]);
            } else {
                let _ = marks[n - 1];
                assert(all[k] == mark_edit(marks, n - 1, c, data, first_line, margin)->0);
            }
        }
    }
}

/// Each edit that draws one of `sections` is the edit of one of them, on the row of its line
/// counted from the first line shown (so never for a section above it), in its column moved
/// right by the margin, with its length and the color asked for.
pub proof fn law_section_edits_are_at_their_sections(view: crate::view::View, sections: Seq<Section>, color: Color)
    ensures
        forall|k: int|
            #![trigger section_edits(view, sections, color)[k]]
            0 <= k < section_edits(view, sections, color).len() ==> exists|j: int|
                #![trigger sections[j]]
                0 <= j < sections.len() && {
                    let e = section_edits(view, sections, color)[k];
                    &&& section_edit(view, sections[j], color) == Some(e)
                    &&& e.0 == sections[j].start.line@ - view.first_line@
                    &&& 0 <= e.0
                    &&& e.1 == clamp_index(sections[j].start.column@ + view.margin_width)
                    &&& e.2 == sections[j].length
                    &&& e.3 == color
                },
        (forall|j: int| 0 <= j < sections.len() ==> #[trigger] sections[j].start.line@ < view.first_line@)
            ==> section_edits(view, sections, color).len() == 0,
    decreases sections.len(),
{
    if sections.len() > 0 {
        let rest = sections.drop_last();
        law_section_edits_are_at_their_sections(view, rest, color);
        let prev = section_edits(view, rest, color);
        let all = section_edits(view, sections, color);
        assert forall|k: int| #![trigger all[k]] 0 <= k < all.len() implies exists|j: int|
            #![trigger sections[j]]
            0 <= j < sections.len() && {
                let e = all[k];
                &&& section_edit(view, sections[j], color) == Some(e)
                &&& e.0 == sections[j].start.line@ - view.first_line@
                &&& 0 <= e.0
                &&& e.1 == clamp_index(sections[j].start.column@ + view.margin_width)
                &&& e.2 == sections[j].length
                &&& e.3 == color
            } by {
            if k < prev.len() {
                assert(all[k] == prev[k]);
                let j = choose|j: int|
                    #![trigger rest[j]]
                    0 <= j < rest.len() && {
                        let e = prev[k];
                        &&& section_edit(view, rest[j], color) == Some(e)
                        &&& e.0 == rest[j].start.line@ - view.first_line@
                        &&& 0 <= e.0
                        &&& e.1 == clamp_index(rest[j].start.column@ + view.margin_width)
                        &&& e.2 == rest[j].length
                        &&& e.3 == color
                    };
                assert(rest[j] == sections[j]);
            } else {
                let last = sections.len() - 1;
                assert(sections[last] == sections.last());
                assert(all[k] == section_edit(view, sections.last(), color)->0);
            }
        }
        if forall|j: int| 0 <= j < sections.len() ==> #[trigger] sections[j].start.line@ < view.first_line@ {
            assert forall|j: int| 0 <= j < rest.len() implies #[trigger] rest[j].start.line@ < view.first_line@ by {
                assert(rest[j] == sections[j]);
            }
            assert(sections[sections.len() - 1] == sections.last());
        }
    }
}

/// Scrolling by a movement that keeps the first line shown among the lines of the text moves
/// it by exactly that movement, up or down.
pub proof fn law_scroll_moves_by_the_movement(first_line: nat, movement: int, line_count: nat)
    requires
        1 <= first_line + movement <= line_count <= u32::MAX,
    ensures
        scrolled_line(first_line, movement, line_count) - first_line == movement,
{
}

/// Opening a text removes its carriage returns and keeps every other character, in order.
pub proof fn law_opening_keeps_all_but_carriage_returns(s: Seq<char>)
    ensures
        remove_cr(s) == s.filter(|c: char| c != '\r'),
    decreases s.len(),
{
    reveal_with_fuel(Seq::<_>::filter, 1);
    if s.len() > 0 {
        law_opening_keeps_all_but_carriage_returns(s.drop_last());
    }
}

/// The characters that follow position `i` of `s` up to a line feed or the end.
proof fn lemma_line_run_ends(s: Seq<char>, i: int)
    requires
        0 <= i <= s.len(),
    ensures
        i + line_run(s, i) <= s.len(),
        forall|j: int| i <= j < i + line_run(s, i) ==> s[j] != '\n',
        i + line_run(s, i) == s.len() || s[i + line_run(s, i)] == '\n',
    decreases s.len() - i,
{
    if i < s.len() && s[i] != '\n' {
        lemma_line_run_ends(s, i + 1);
    }
}

/// Whether position `q` of `s` holds a `/` that a character other than a line feed follows.
pub open spec fn starts_pattern(s: Seq<char>, q: int) -> bool {
    0 <= q && q + 1 < s.len() && s[q] == '/' && s[q + 1] != '\n'
}

/// What [`law_pattern_token_runs_to_line_end`] says, searching from position `p0`.
proof fn lemma_pattern_token_from(s: Seq<char>, p0: int)
    requires
        0 <= p0,
    ensures
        match pattern_token_from(s, p0) {
            Some(t) => exists|p: int|
                #![trigger s[p]]
                p0 <= p && starts_pattern(s, p) && {
                    &&& p + 1 + t.len() <= s.len()
                    &&& s.subrange(p + 1, p + 1 + t.len()) == t
                    &&& (p + 1 + t.len() == s.len() || s[p + 1 + t.len()] == '\n')
                    &&& forall|j: int| 0 <= j < t.len() ==> t[j] != '\n'
                    &&& forall|q: int| p0 <= q < p ==> !starts_pattern(s, q)
                },
            None => forall|q: int| p0 <= q < s.len() ==> !starts_pattern(s, q),
        },
    decreases s.len() - p0,
{
    if p0 < s.len() {
        lemma_pattern_token_from(s, p0 + 1);
        if p0 + 1 <= s.len() {
            lemma_line_run_ends(s, p0 + 1);
        }
        if s[p0] == '/' && line_run(s, p0 + 1) >= 1 {
            let t = s.subrange(p0 + 1, p0 + 1 + line_run(s, p0 + 1));
            assert(starts_pattern(s, p0));
            assert forall|j: int| 0 <= j < t.len() implies t[j] != '\n' by {
                assert(t[j] == s[p0 + 1 + j]);
            }
            assert(t.len() == line_run(s, p0 + 1));
            let _ = s[p0];
        } else {
            assert(!starts_pattern(s, p0));
            match pattern_token_from(s, p0 + 1) {
                Some(t) => {
                    let p = choose|p: int|
                        #![trigger s[p]]
                        p0 + 1 <= p && starts_pattern(s, p) && {
                            &&& p + 1 + t.len() <= s.len()
                            &&& s.subrange(p + 1, p + 1 + t.len()) == t
                            &&& (p + 1 + t.len() == s.len() || s[p + 1 + t.len()] == '\n')
                            &&& forall|j: int| 0 <= j < t.len() ==> t[j] != '\n'
                            &&& forall|q: int| p0 + 1 <= q < p ==> !starts_pattern(s, q)
                        };
                    let _ = s[p];
                },
                None => {},
            }
        }
    }
}

/// The expression that a pattern feature gives is everything after its leftmost `/` that a
/// character other than a line feed follows, up to the next line feed or the end: a `/`
/// inside it is kept.  A feature with no such `/` gives none.
pub proof fn law_pattern_token_runs_to_line_end(s: Seq<char>)
    ensures
        match pattern_token_from(s, 0) {
            Some(t) => exists|p: int|
                #![trigger s[p]]
                starts_pattern(s, p) && {
                    &&& p + 1 + t.len() <= s.len()
                    &&& s.subrange(p + 1, p + 1 + t.len()) == t
                    &&& (p + 1 + t.len() == s.len() || s[p + 1 + t.len()] == '\n')
                    &&& forall|j: int| 0 <= j < t.len() ==> t[j] != '\n'
                    &&& forall|q: int| 0 <= q < p ==> !starts_pattern(s, q)
                },
            None => forall|q: int| 0 <= q < s.len() ==> !starts_pattern(s, q),
        },
{
    lemma_pattern_token_from(s, 0);
}

} // verus!
