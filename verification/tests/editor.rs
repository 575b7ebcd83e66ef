use paper::change_mode::Op;
use paper::paper::{Mode, Paper};
use paper::ui::{Change, Edit, Index, Length, Region};

fn chars(s: &str) -> Vec<char> {
    s.chars().collect()
}

fn row_edit(row: u8, text: &str) -> Edit {
    Edit::new(
        Region::new(paper::ui::Address::new(Index::from_u8(row), Index::zero()), Length::End),
        Change::Row(chars(text)),
    )
}

#[test]
fn escape_returns_to_display() {
    let mut paper = Paper::new();
    paper.change_view(chars("a"), String::from("a.txt")).unwrap();
    Op.operate(&mut paper, Mode::Filter, 5);
    let edits = Op.operate(&mut paper, Mode::Display, 5);
    assert_eq!(
        edits,
        vec![Edit::new(Region::origin(), Change::Clear), row_edit(0, "1 a")]
    );
    assert_eq!(paper.mode, Mode::Display);
}

#[test]
fn changing_mode_on_a_paper_with_no_file_shows_a_clear_grid() {
    let mut paper = Paper::new();
    let clear = Edit::new(Region::origin(), Change::Clear);
    assert_eq!(Op.operate(&mut paper, Mode::Display, 5), vec![clear.clone()]);
    assert_eq!(Op.operate(&mut paper, Mode::Edit, 5), vec![clear]);
    assert_eq!(paper.mode, Mode::Edit);
}
