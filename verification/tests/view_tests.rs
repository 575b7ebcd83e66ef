use paper::convert::IntConversionError;
use paper::line_number::LineNumber;
use paper::place::{Edge, Mark, Place, Pointer, Section};
use paper::text::split_lines;
use paper::ui::{Address, Change, Edit, Index, Length, Region, BACKSPACE};
use paper::view::View;

fn chars(s: &str) -> Vec<char> {
    s.chars().collect()
}

fn strings(lines: Vec<Vec<char>>) -> Vec<String> {
    lines.into_iter().map(|l| l.into_iter().collect()).collect()
}

fn view_of(text: &str) -> View {
    View::with_data(chars(text), String::from("file.txt")).unwrap()
}

fn line(n: usize) -> LineNumber {
    LineNumber::new(n).unwrap()
}

#[test]
fn split_lines_matches_str_lines() {
    for text in ["", "a", "a\n", "\n", "a\nb", "a\r\nb\r\n", "a\n\nb", "x\r", "x\ry\n", "\r\n", "one\ntwo\nthree\n"] {
        let expected: Vec<String> = text.lines().map(String::from).collect();
        assert_eq!(strings(split_lines(&chars(text))), expected, "{:?}", text);
    }
}

#[test]
fn opening_removes_carriage_returns_and_counts_lines() {
    let view = view_of("a\r\nbc\r\n");
    assert_eq!(view.data, chars("a\nbc\n"));
    assert_eq!(view.line_count, 2);
    assert_eq!(view.margin_width, 2);
    assert_eq!(view.first_line.value(), 1);
    assert_eq!(view.path, "file.txt");
}

#[test]
fn margin_holds_the_largest_line_number() {
    assert_eq!(view_of("").margin_width, 1);
    assert_eq!(view_of(&"x\n".repeat(9)).margin_width, 2);
    assert_eq!(view_of(&"x\n".repeat(10)).margin_width, 3);
    assert_eq!(view_of(&"x\n".repeat(99)).margin_width, 3);
    assert_eq!(view_of(&"x\n".repeat(100)).margin_width, 4);
}

#[test]
fn redraw_shows_numbered_rows() {
    let view = view_of("a\nbb");
    let edits = view.redraw_edits();
    assert_eq!(
        edits,
        vec![
            Edit::new(Region::origin(), Change::Clear),
            Edit::new(Region::row(0).unwrap(), Change::Row(chars("1 a"))),
            Edit::new(Region::row(1).unwrap(), Change::Row(chars("2 bb"))),
        ]
    );
}

#[test]
fn redraw_aligns_numbers_and_starts_at_first_line() {
    let mut view = view_of(&"x\n".repeat(12));
    view.scroll(8);
    let edits = view.redraw_edits();
    assert_eq!(edits.len(), 5);
    assert_eq!(edits[1].change, Change::Row(chars(" 9 x")));
    assert_eq!(edits[2].change, Change::Row(chars("10 x")));
    assert_eq!(edits[4].change, Change::Row(chars("12 x")));
    assert_eq!(edits[4].region, Region::row(3).unwrap());
}

#[test]
fn scroll_stays_within_the_text() {
    let mut view = view_of("a\nb\nc\n");
    view.scroll(1);
    assert_eq!(view.first_line.value(), 2);
    view.scroll(10);
    assert_eq!(view.first_line.value(), 3);
    view.scroll(-10);
    assert_eq!(view.first_line.value(), 1);
    view.scroll(0);
    assert_eq!(view.first_line.value(), 1);
}

#[test]
fn lines_and_line_lengths() {
    let view = view_of("ab\n\ncde");
    assert_eq!(strings(view.lines()), vec!["ab", "", "cde"]);
    assert_eq!(view.line(line(3)), Some(chars("cde")));
    assert_eq!(view.line(line(4)), None);
    let place = Place::new(line(1), Index::zero());
    assert_eq!(view.line_length(place).map(|i| i.value()), Some(2));
    assert_eq!(view.line_length(Place::new(line(2), Index::zero())).map(|i| i.value()), Some(0));
    assert_eq!(view.line_length(Place::new(line(9), Index::zero())), None);
}

#[test]
fn row_starts_follow_line_feeds() {
    let view = view_of("ab\n\ncde");
    assert_eq!(view.row_start(0), Some(0));
    assert_eq!(view.row_start(1), Some(3));
    assert_eq!(view.row_start(2), Some(4));
    assert_eq!(view.row_start(3), None);
}

#[test]
fn addresses_are_relative_to_the_first_line() {
    let mut view = view_of("a\nb\nc\n");
    view.scroll(1);
    let place = Place::new(line(3), Index::from_u8(4));
    let address = view.address_at(place).unwrap();
    assert_eq!(address, Address::new(Index::from_u8(1), Index::from_u8(6)));
    assert_eq!(view.address_at(Place::new(line(1), Index::zero())), None);
    let section = Section::new(place, Length::from_u8(3));
    assert_eq!(
        view.region_at(&section),
        Some(Region::new(address, Length::from_u8(3)))
    );
    assert_eq!(view.region_at(&place), Some(Region::new(address, Length::from_u8(1))));
}

#[test]
fn add_inserts_before_and_removes_at_the_pointer() {
    let mut view = view_of("abc");
    let mark = Mark { pointer: Pointer(Some(Index::from_u8(2))), place: Place::new(line(1), Index::from_u8(1)) };
    view.add(&mark, 'x').unwrap();
    assert_eq!(view.data, chars("axbc"));
    let back = Mark { pointer: Pointer(Some(Index::from_u8(1))), place: Place::new(line(1), Index::from_u8(1)) };
    view.add(&back, BACKSPACE).unwrap();
    assert_eq!(view.data, chars("abc"));
    let nowhere = Mark { pointer: Pointer(None), place: Place::new(line(1), Index::zero()) };
    view.add(&nowhere, 'q').unwrap();
    assert_eq!(view.data, chars("abc"));
}

#[test]
fn clean_recounts_lines() {
    let mut view = view_of("a");
    view.data = chars("a\nb\nc");
    assert_eq!(view.clean(), Ok(()));
    assert_eq!(view.line_count, 3);
    assert_eq!(view.margin_width, 2);
}

#[test]
fn margin_update_fails_when_lines_cannot_be_numbered() {
    let mut view = view_of("a");
    view.line_count = u32::MAX as usize;
    let before = view.margin_width;
    if usize::BITS > 32 {
        assert_eq!(view.update_margin_width(), Err(IntConversionError::Overflow));
        assert_eq!(view.margin_width, before);
    }
    view.line_count = 999;
    assert_eq!(view.update_margin_width(), Ok(()));
    assert_eq!(view.margin_width, 4);
}

#[test]
fn edges_and_texts() {
    assert_eq!(Edge::default(), Edge::Start);
    assert_eq!(Edge::Start.description(), "Starting edge");
    assert_eq!(Edge::End.description(), "Ending edge");
    let place = Place::new(line(12), Index::from_u8(3));
    assert_eq!(place.to_text(), chars("ln 12, idx 3"));
    assert_eq!(Pointer(None).to_text(), chars("[None]"));
    assert_eq!(Pointer(Some(Index::from_u8(40))).to_text(), chars("[40]"));
    let mark = Mark { pointer: Pointer::default(), place };
    assert_eq!(mark.to_text(), chars("ln 12, idx 3[0]"));
    assert_eq!(line(77).to_text(), chars("77"));
}

#[test]
fn sections_of_whole_lines() {
    let section = Section::line(line(4));
    assert_eq!(section.start, Place::new(line(4), Index::zero()));
    assert_eq!(section.length, Length::End);
    let moved = section.start.shr(3);
    assert_eq!(moved.column.value(), 3);
    assert_eq!(moved.shr(-5).column.value(), 0);
}
