use paper::adjustment::Adjustment;
use paper::filter::{line_feature_bounds, pattern_token, LineFilter, PatternFilter};
use paper::line_number::LineNumber;
use paper::paper::{Mode, Paper};
use paper::place::{Edge, Mark, Place, Pointer, Section};
use paper::ui::{Change, Color, Edit, Index, Length, Region, BACKSPACE, ENTER};
use paper::view::View;
use std::collections::HashMap;

fn chars(s: &str) -> Vec<char> {
    s.chars().collect()
}

fn line(n: usize) -> LineNumber {
    LineNumber::new(n).unwrap()
}

fn section(l: usize, column: u8, length: Length) -> Section {
    Section::new(Place::new(line(l), Index::from_u8(column)), length)
}

fn opened(text: &str) -> Paper {
    let mut paper = Paper::new();
    paper.change_view(chars(text), String::from("f")).unwrap();
    paper
}

fn models(sections: &[Section]) -> Vec<(u32, i32, i32)> {
    sections
        .iter()
        .map(|s| {
            let length = match s.length {
                Length::Count(i) => i.value(),
                Length::End => -1,
            };
            (s.start.line.value(), s.start.column.value(), length)
        })
        .collect()
}

fn mark_models(marks: &[Mark]) -> Vec<(Option<i32>, u32, i32)> {
    marks
        .iter()
        .map(|m| (m.pointer.0.map(|i| i.value()), m.place.line.value(), m.place.column.value()))
        .collect()
}

#[test]
fn opening_makes_every_line_a_noise() {
    let paper = opened("abcabc\nxbc");
    assert_eq!(models(&paper.noises), vec![(1, 0, -1), (2, 0, -1)]);
    assert_eq!(paper.view.line_count, 2);
}

#[test]
fn line_features_select_lines() {
    let all = vec![section(1, 0, Length::End), section(2, 0, Length::End), section(3, 2, Length::End), section(4, 0, Length::End)];
    let cases: Vec<(&str, Vec<u32>)> = vec![
        ("#2", vec![2]),
        ("#3.1", vec![1, 2, 3]),
        ("#1.3", vec![1, 2, 3]),
        ("#2+1", vec![2, 3]),
        ("#3-2", vec![1, 2, 3]),
        ("#4-9", vec![1, 2, 3, 4]),
        ("#0", vec![1, 2, 3, 4]),
        ("#x", vec![1, 2, 3, 4]),
        ("#5abc", vec![1, 2, 3, 4]),
        ("##2", vec![2]),
        ("#2.3junk", vec![2, 3]),
        ("#9", vec![]),
    ];
    for (feature, lines) in cases {
        let mut sections = all.clone();
        let view = View::empty();
        assert_eq!(LineFilter.extract(&chars(feature), &mut sections, &view), Ok(()));
        let kept: Vec<u32> = sections.iter().map(|s| s.start.line.value()).collect();
        assert_eq!(kept, lines, "{}", feature);
    }
}

#[test]
fn line_feature_bounds_are_ordered() {
    let b = line_feature_bounds(&chars("#7.3")).unwrap();
    assert_eq!((b.0.value(), b.1.value()), (3, 7));
    let b = line_feature_bounds(&chars("#2-5")).unwrap();
    assert_eq!((b.0.value(), b.1.value()), (1, 2));
    assert!(line_feature_bounds(&chars("#99999999999")).is_none());
    assert!(line_feature_bounds(&chars("#")).is_none());
}

#[test]
fn line_filter_twice_is_line_filter_once() {
    let all = vec![section(1, 0, Length::End), section(2, 0, Length::End), section(3, 0, Length::End)];
    let view = View::empty();
    let mut once = all.clone();
    LineFilter.extract(&chars("#1.2"), &mut once, &view).unwrap();
    let mut twice = once.clone();
    LineFilter.extract(&chars("#1.2"), &mut twice, &view).unwrap();
    assert_eq!(once, twice);
}

#[test]
fn pattern_token_takes_the_rest_of_the_line() {
    assert_eq!(pattern_token(&chars("/bc")), Some(chars("bc")));
    assert_eq!(pattern_token(&chars("/")), None);
    assert_eq!(pattern_token(&chars("/\n/a b\nc")), Some(chars("a b")));
    assert_eq!(pattern_token(&chars("abc")), None);
}

#[test]
fn pattern_filter_finds_matches_in_each_section() {
    let paper = opened("abcabc\nxbc");
    let mut sections = vec![section(1, 0, Length::End), section(2, 0, Length::End), section(1, 3, Length::End), section(5, 0, Length::End)];
    assert_eq!(PatternFilter.extract(&chars("/bc"), &mut sections, &paper.view), Ok(()));
    assert_eq!(models(&sections), vec![(1, 1, 2), (1, 4, 2), (2, 1, 2), (1, 4, 2)]);
    let mut sections = vec![section(1, 0, Length::End)];
    assert_eq!(PatternFilter.extract(&chars("/b+c?"), &mut sections, &paper.view), Ok(()));
    assert_eq!(models(&sections), vec![(1, 1, 2), (1, 4, 2)]);
}

#[test]
fn pattern_filter_leaves_sections_for_a_bad_expression() {
    let paper = opened("abc");
    let before = vec![section(1, 0, Length::End)];
    let mut sections = before.clone();
    assert_eq!(PatternFilter.extract(&chars("/(a"), &mut sections, &paper.view), Ok(()));
    assert_eq!(sections, before);
    assert_eq!(PatternFilter.extract(&chars("/"), &mut sections, &paper.view), Ok(()));
    assert_eq!(sections, before);
}

#[test]
fn filter_signals_dispatches_on_the_first_character() {
    let mut paper = opened("abcabc\nxbc");
    paper.filter_signals(&chars("/bc")).unwrap();
    assert_eq!(models(&paper.signals), vec![(1, 1, 2), (1, 4, 2), (2, 1, 2)]);
    paper.filter_signals(&chars("#2")).unwrap();
    assert_eq!(models(&paper.signals), vec![(2, 0, -1)]);
    paper.filter_signals(&chars("?")).unwrap();
    assert_eq!(models(&paper.signals), vec![(1, 0, -1), (2, 0, -1)]);
    paper.filter_signals(&chars("/bc")).unwrap();
    paper.reduce_noise();
    paper.filter_signals(&chars("#2")).unwrap();
    assert_eq!(models(&paper.signals), vec![(2, 1, 2)]);
}

#[test]
fn marks_are_placed_at_an_edge_of_each_signal() {
    let mut paper = opened("abcabc\nxbc");
    paper.filter_signals(&chars("/bc")).unwrap();
    paper.set_marks(Edge::Start);
    assert_eq!(mark_models(&paper.marks), vec![(Some(1), 1, 1), (Some(4), 1, 4), (Some(8), 2, 1)]);
    paper.set_marks(Edge::End);
    assert_eq!(mark_models(&paper.marks), vec![(Some(2), 1, 2), (Some(5), 1, 5), (Some(9), 2, 2)]);
    paper.filter_signals(&chars("#2")).unwrap();
    paper.set_marks(Edge::End);
    assert_eq!(mark_models(&paper.marks), vec![(Some(9), 2, 2)]);
}

#[test]
fn typing_inserts_at_every_mark() {
    let mut paper = opened("abcabc\nxbc");
    paper.filter_signals(&chars("/bc")).unwrap();
    paper.set_marks(Edge::Start);
    let mut edits = Vec::new();
    assert_eq!(paper.update_view('X', 10, &mut edits), Ok(()));
    assert_eq!(paper.view.data, chars("aXbcaXbc\nxXbc"));
    assert_eq!(mark_models(&paper.marks), vec![(Some(2), 1, 2), (Some(6), 1, 6), (Some(11), 2, 2)]);
    let expected: Vec<(i32, i32, Change)> = vec![(0, 3, Change::Insert('X')), (0, 6, Change::Insert('X')), (1, 3, Change::Insert('X'))];
    let got: Vec<(i32, i32, Change)> = edits
        .iter()
        .map(|e| (e.region.start.row.value(), e.region.start.column.value(), e.change.clone()))
        .collect();
    assert_eq!(got, expected);
    assert!(edits.iter().all(|e| e.region.length == Length::from_u8(1)));
}

#[test]
fn backspace_removes_before_every_mark() {
    let mut paper = opened("abcabc\nxbc");
    paper.filter_signals(&chars("/bc")).unwrap();
    paper.set_marks(Edge::Start);
    let mut edits = Vec::new();
    assert_eq!(paper.update_view(BACKSPACE, 10, &mut edits), Ok(()));
    assert_eq!(paper.view.data, chars("bcbc\nbc"));
    assert_eq!(mark_models(&paper.marks), vec![(Some(0), 1, 0), (Some(2), 1, 2), (Some(5), 2, 0)]);
    assert_eq!(edits.len(), 3);
    assert!(edits.iter().all(|e| e.change == Change::Backspace));
}

#[test]
fn enter_splits_the_line_and_redraws() {
    let mut paper = opened("abcabc\nxbc");
    paper.filter_signals(&chars("/ca")).unwrap();
    paper.set_marks(Edge::Start);
    assert_eq!(mark_models(&paper.marks), vec![(Some(2), 1, 2)]);
    paper.marks = vec![Mark { pointer: Pointer(Some(Index::from_u8(3))), place: Place::new(line(1), Index::from_u8(3)) }];
    let mut edits = Vec::new();
    assert_eq!(paper.update_view(ENTER, 10, &mut edits), Ok(()));
    assert_eq!(paper.view.data, chars("abc\nabc\nxbc"));
    assert_eq!(mark_models(&paper.marks), vec![(Some(4), 2, 0)]);
    assert_eq!(paper.view.line_count, 3);
    assert_eq!(
        edits,
        vec![
            Edit::new(Region::origin(), Change::Clear),
            Edit::new(Region::row(0).unwrap(), Change::Row(chars("1 abc"))),
            Edit::new(Region::row(1).unwrap(), Change::Row(chars("2 abc"))),
            Edit::new(Region::row(2).unwrap(), Change::Row(chars("3 xbc"))),
        ]
    );
}

#[test]
fn backspace_at_the_start_of_a_line_joins_it() {
    let mut paper = opened("abcabc\nxbc");
    paper.marks = vec![Mark { pointer: Pointer(Some(Index::from_u8(7))), place: Place::new(line(2), Index::zero()) }];
    let mut edits = Vec::new();
    assert_eq!(paper.update_view(BACKSPACE, 1, &mut edits), Ok(()));
    assert_eq!(paper.view.data, chars("abcabcxbc"));
    assert_eq!(mark_models(&paper.marks), vec![(Some(6), 1, 3)]);
    assert_eq!(paper.view.line_count, 1);
    assert_eq!(edits, vec![Edit::new(Region::origin(), Change::Clear)]);
}

#[test]
fn updating_without_marks_changes_nothing() {
    let mut paper = opened("abc");
    let mut edits = Vec::new();
    assert_eq!(paper.update_view('z', 4, &mut edits), Ok(()));
    assert_eq!(paper.view.data, chars("abc"));
    assert!(edits.is_empty());
}

#[test]
fn adjustments_add_up() {
    let mut a = Adjustment::new(line(4), 1, 1, Change::Insert('a'));
    assert_eq!((a.shift, a.line_change), (1, 0));
    assert_eq!(a.indexes_changed, HashMap::from([(4u32, 1)]));
    let b = Adjustment::new(line(4), 1, -4, Change::Clear);
    assert_eq!((b.shift, b.line_change), (1, 1));
    assert_eq!(b.indexes_changed, HashMap::from([(5u32, -4)]));
    a.add_assign(b);
    assert_eq!((a.shift, a.line_change), (2, 1));
    assert_eq!(a.indexes_changed, HashMap::from([(4u32, 1), (5u32, -4)]));
    assert_eq!(a.change, Change::Clear);
    a.add_assign(Adjustment::new(line(5), 1, 2, Change::Insert('b')));
    assert_eq!(a.indexes_changed, HashMap::from([(4u32, 1), (5u32, -2)]));
    assert_eq!(a.change, Change::Clear);
    let mut zero = Adjustment::none();
    let c = Adjustment::new(line(2), -1, -1, Change::Backspace);
    zero.add_assign(c);
    assert_eq!(zero.indexes_changed, HashMap::from([(2u32, -1)]));
    assert_eq!(zero.change, Change::Backspace);
}

#[test]
fn creating_adjustments() {
    let paper = opened("abc\nxy");
    let at = |l: usize, c: u8| Place::new(line(l), Index::from_u8(c));
    let a = Adjustment::create('q', at(1, 2), &paper.view).unwrap();
    assert_eq!((a.shift, a.line_change, a.change.clone()), (1, 0, Change::Insert('q')));
    let a = Adjustment::create(BACKSPACE, at(2, 1), &paper.view).unwrap();
    assert_eq!((a.shift, a.line_change, a.change.clone()), (-1, 0, Change::Backspace));
    assert_eq!(a.indexes_changed, HashMap::from([(2u32, -1)]));
    let a = Adjustment::create(BACKSPACE, at(2, 0), &paper.view).unwrap();
    assert_eq!((a.shift, a.line_change, a.change.clone()), (-1, -1, Change::Clear));
    assert_eq!(a.indexes_changed, HashMap::from([(1u32, 2)]));
    assert!(Adjustment::create(BACKSPACE, at(9, 0), &paper.view).is_none());
    let a = Adjustment::create(ENTER, at(1, 2), &paper.view).unwrap();
    assert_eq!((a.shift, a.line_change, a.change.clone()), (1, 1, Change::Clear));
    assert_eq!(a.indexes_changed, HashMap::from([(2u32, -2)]));
}

#[test]
fn marks_move_by_adjustments() {
    let mut mark = Mark { pointer: Pointer(Some(Index::from_u8(5))), place: Place::new(line(2), Index::from_u8(3)) };
    mark.adjust(&Adjustment::new(line(2), 1, 1, Change::Insert('a')));
    assert_eq!(mark_models(&[mark]), vec![(Some(6), 2, 4)]);
    mark.adjust(&Adjustment::new(line(2), 1, -4, Change::Clear));
    assert_eq!(mark_models(&[mark]), vec![(Some(7), 3, 0)]);
    mark.adjust(&Adjustment::none());
    assert_eq!(mark_models(&[mark]), vec![(Some(7), 3, 0)]);
}

#[test]
fn paper_draws_sketch_backgrounds_and_modes() {
    let mut paper = opened("abc\nxbc");
    paper.sketch_mut().extend(chars("#2"));
    assert_eq!(paper.sketch(), &chars("#2"));
    assert_eq!(paper.draw_sketch(), Edit::new(Region::origin(), Change::Row(chars("#2"))));
    let (edits, result) = paper.clear_background(3);
    assert_eq!(result, Ok(()));
    assert_eq!(edits.len(), 3);
    assert_eq!(edits[2], Edit::new(Region::row(2).unwrap(), Change::Format(Color::Default)));
    paper.filter_signals(&chars("/bc")).unwrap();
    let backgrounds = paper.draw_filter_backgrounds();
    assert_eq!(backgrounds.len(), 4);
    assert_eq!(backgrounds[0].change, Change::Format(Color::Blue));
    assert_eq!(backgrounds[3].change, Change::Format(Color::Red));
    assert_eq!(backgrounds[3].region.start.column.value(), 1 + 2);
    paper.change_mode(Mode::Edit);
    assert_eq!(paper.mode, Mode::Edit);
    assert_eq!(paper.scroll_height(17), 4);
    let shown = paper.scroll(1, 2);
    assert_eq!(shown, vec![Edit::new(Region::origin(), Change::Clear), Edit::new(Region::row(0).unwrap(), Change::Row(chars("2 xbc")))]);
}

#[test]
fn display_view_takes_the_first_rows() {
    let paper = opened("a\nb\nc");
    assert_eq!(paper.display_view(0), vec![]);
    assert_eq!(paper.display_view(2).len(), 2);
    assert_eq!(paper.display_view(100).len(), 4);
}

#[test]
fn line_features_with_digits_outside_ascii_select_nothing() {
    let all = vec![section(2, 0, Length::End), section(3, 0, Length::End), section(7, 0, Length::End)];
    let view = View::empty();
    for feature in ["#2.3\u{663}", "#5.\u{663}#7", "#\u{663}", "#\u{663}+1"] {
        let mut sections = all.clone();
        assert_eq!(LineFilter.extract(&chars(feature), &mut sections, &view), Ok(()));
        assert_eq!(sections, all, "{}", feature);
        assert!(line_feature_bounds(&chars(feature)).is_none(), "{}", feature);
    }
    let mut sections = all.clone();
    assert_eq!(LineFilter.extract(&chars("#5.x#7"), &mut sections, &view), Ok(()));
    assert_eq!(models(&sections), vec![(7, 0, -1)]);
}

#[test]
fn a_paper_with_no_file_is_displayed_as_a_clear_grid() {
    let paper = Paper::new();
    let clear = Edit::new(Region::origin(), Change::Clear);
    assert_eq!(paper.display_view(5), vec![clear.clone()]);
    assert_eq!(paper.display_view(1), vec![clear.clone()]);
    assert_eq!(paper.display_view(0), vec![]);
    assert_eq!(paper.view.redraw_edits(), vec![clear]);
}

#[test]
fn display_view_of_one_row_is_the_clear_alone() {
    let paper = opened("a\nb\nc");
    assert_eq!(paper.display_view(1), vec![Edit::new(Region::origin(), Change::Clear)]);
}

#[test]
fn adjustments_are_created_on_line_zero_too() {
    let paper = opened("abc\nxy");
    let zero = LineNumber::first().add(-1);
    assert_eq!(zero.value(), 0);
    let a = Adjustment::create(BACKSPACE, Place::new(zero, Index::from_u8(2)), &paper.view).unwrap();
    assert_eq!((a.shift, a.line_change, a.change.clone()), (-1, 0, Change::Backspace));
    assert_eq!(a.indexes_changed, HashMap::from([(0u32, -1)]));
    let a = Adjustment::create('q', Place::new(zero, Index::zero()), &paper.view).unwrap();
    assert_eq!((a.shift, a.line_change, a.change.clone()), (1, 0, Change::Insert('q')));
    let a = Adjustment::create(ENTER, Place::new(zero, Index::from_u8(1)), &paper.view).unwrap();
    assert_eq!((a.shift, a.line_change, a.change.clone()), (1, 1, Change::Clear));
    assert_eq!(a.indexes_changed, HashMap::from([(1u32, -1)]));
}

#[test]
fn backspace_at_the_start_of_the_text_fails_with_underflow() {
    let mut paper = opened("ab\ncd");
    let start = Mark { pointer: Pointer(Some(Index::zero())), place: Place::new(line(1), Index::zero()) };
    paper.marks = vec![start];
    let mut edits = Vec::new();
    assert_eq!(paper.update_view(BACKSPACE, 10, &mut edits), Err(paper::convert::IntConversionError::Underflow));
    assert_eq!(paper.view.data, chars("ab\ncd"));
    assert_eq!(paper.marks, vec![start]);
    assert!(edits.is_empty());
}

#[test]
fn marks_before_an_underflow_are_applied() {
    let mut paper = opened("ab\ncd");
    let second = Mark { pointer: Pointer(Some(Index::from_u8(1))), place: Place::new(line(1), Index::from_u8(1)) };
    let first = Mark { pointer: Pointer(Some(Index::from_u8(2))), place: Place::new(line(1), Index::from_u8(2)) };
    paper.marks = vec![first, second];
    let mut edits = Vec::new();
    assert_eq!(paper.update_view(BACKSPACE, 10, &mut edits), Err(paper::convert::IntConversionError::Underflow));
    assert_eq!(paper.view.data, chars("a\ncd"));
    assert_eq!(mark_models(&paper.marks), vec![(Some(1), 1, 1), (Some(1), 1, 1)]);
    assert_eq!(edits.len(), 2);
}

#[test]
fn pointers_are_offsets_in_the_utf8_bytes_of_the_text() {
    let paper = opened("\u{e9}\u{e9}a\nb");
    assert_eq!(paper.view.line_length(Place::new(line(1), Index::zero())).map(|i| i.value()), Some(5));
    assert_eq!(paper.view.row_start(1), Some(6));
    let mut paper = opened("\u{e9}\u{e9}a");
    paper.filter_signals(&chars("/a")).unwrap();
    assert_eq!(models(&paper.signals), vec![(1, 4, 1)]);
    paper.set_marks(Edge::Start);
    assert_eq!(mark_models(&paper.marks), vec![(Some(4), 1, 4)]);
    let mut edits = Vec::new();
    assert_eq!(paper.update_view('X', 10, &mut edits), Ok(()));
    assert_eq!(paper.view.data, chars("\u{e9}\u{e9}Xa"));
}

#[test]
fn typing_at_a_column_inserts_at_the_byte_of_that_column() {
    let mut paper = opened("\u{e9}\u{e9}a");
    paper.signals = vec![section(1, 2, Length::from_u8(1))];
    paper.set_marks(Edge::Start);
    assert_eq!(mark_models(&paper.marks), vec![(Some(2), 1, 2)]);
    let mut edits = Vec::new();
    assert_eq!(paper.update_view('X', 10, &mut edits), Ok(()));
    assert_eq!(paper.view.data, chars("\u{e9}X\u{e9}a"));
}

#[test]
fn backspace_removes_the_character_at_a_byte_offset() {
    let mut paper = opened("\u{e9}\nbc");
    paper.signals = vec![section(2, 1, Length::from_u8(1))];
    paper.set_marks(Edge::Start);
    assert_eq!(mark_models(&paper.marks), vec![(Some(4), 2, 1)]);
    let mut edits = Vec::new();
    assert_eq!(paper.update_view(BACKSPACE, 10, &mut edits), Ok(()));
    assert_eq!(paper.view.data, chars("\u{e9}\nc"));
    assert_eq!(mark_models(&paper.marks), vec![(Some(3), 2, 0)]);
}
