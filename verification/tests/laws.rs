use paper::adjustment::Adjustment;
use paper::filter::LineFilter;
use paper::line_number::LineNumber;
use paper::paper::Paper;
use paper::place::{Edge, Place, Section};
use paper::text::split_lines;
use paper::ui::{Change, Index, Length, BACKSPACE};
use paper::view::View;

fn chars(s: &str) -> Vec<char> {
    s.chars().collect()
}

fn sections() -> Vec<Section> {
    (1..=6).map(|n| Section::new(Place::new(LineNumber::new(n).unwrap(), Index::zero()), Length::End)).collect()
}

fn filtered(feature: &str, mut s: Vec<Section>) -> Vec<Section> {
    LineFilter.extract(&chars(feature), &mut s, &View::empty()).unwrap();
    s
}

#[test]
fn range_order_does_not_matter() {
    assert_eq!(filtered("#2.5", sections()), filtered("#5.2", sections()));
    assert_eq!(filtered("#2", sections()), filtered("#2.2", sections()));
    assert_eq!(filtered("#2", sections()).len(), 1);
}

#[test]
fn line_filters_commute() {
    let a = filtered("#4-2", filtered("#3+3", sections()));
    let b = filtered("#3+3", filtered("#4-2", sections()));
    assert_eq!(a, b);
    assert_eq!(a.iter().map(|s| s.start.line.value()).collect::<Vec<_>>(), vec![3, 4]);
}

#[test]
fn typing_then_backspace_gives_back_the_text() {
    let mut paper = Paper::new();
    paper.change_view(chars("hello\nworld"), String::from("f")).unwrap();
    paper.filter_signals(&chars("/o")).unwrap();
    paper.signals.truncate(1);
    paper.set_marks(Edge::Start);
    let mut edits = Vec::new();
    paper.update_view('!', 5, &mut edits).unwrap();
    assert_eq!(paper.view.data, chars("hell!o\nworld"));
    paper.update_view(BACKSPACE, 5, &mut edits).unwrap();
    assert_eq!(paper.view.data, chars("hello\nworld"));
}

#[test]
fn lines_join_back_into_the_text() {
    for text in ["", "a", "a\n", "a\nb", "a\n\nb\n", "\n\n"] {
        let lines: Vec<String> = split_lines(&chars(text)).into_iter().map(|l| l.into_iter().collect()).collect();
        let mut joined = lines.join("\n");
        if text.ends_with('\n') {
            joined.push('\n');
        }
        assert_eq!(joined, text);
    }
}

#[test]
fn line_number_text_reads_back() {
    for n in [1usize, 9, 10, 4294967295] {
        let line = LineNumber::new(n).unwrap();
        assert_eq!(LineNumber::from_chars(&line.to_text()), Ok(line));
    }
}

#[test]
fn adjustments_merge_associatively() {
    let make = || {
        (
            Adjustment::new(LineNumber::new(2).unwrap(), 1, 1, Change::Insert('a')),
            Adjustment::new(LineNumber::new(2).unwrap(), 1, -3, Change::Clear),
            Adjustment::new(LineNumber::new(3).unwrap(), -1, -1, Change::Backspace),
        )
    };
    let (mut a, b, c) = make();
    a.add_assign(b);
    a.add_assign(c);
    let (mut a2, mut b2, c2) = make();
    b2.add_assign(c2);
    a2.add_assign(b2);
    assert_eq!((a.shift, a.line_change, &a.indexes_changed, &a.change), (a2.shift, a2.line_change, &a2.indexes_changed, &a2.change));
}

#[test]
fn addresses_move_with_the_view() {
    let mut view = View::empty();
    view.data = chars("a\nb\nc\nd\ne\nf");
    view.line_count = 6;
    view.margin_width = 2;
    let place = Place::new(LineNumber::new(3).unwrap(), Index::from_u8(1));
    let before = view.address_at(place);
    view.scroll(2);
    let moved = Place::new(LineNumber::new(5).unwrap(), Index::from_u8(1));
    assert_eq!(view.address_at(moved), before);
    assert_eq!(before.map(|a| (a.row.value(), a.column.value())), Some((2, 3)));
}
