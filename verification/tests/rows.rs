use soundboard::children::Children;
use soundboard::clip::Clip;
use soundboard::frame::{Command, Frame};
use soundboard::helpers::{Rect, SelectionState};
use soundboard::search::Search;
use soundboard::slider::{Slider, SliderState};
use soundboard::traits::Draw;
use soundboard::volume::Volume;

/// The row of each writing among `commands`, in order. A writing before
/// the cursor was put on a row has no row.
fn rows_written(commands: &[Command]) -> Vec<Option<u32>> {
    let mut row: Option<u32> = None;
    let mut rows = Vec::new();
    for command in commands {
        match command {
            Command::MoveTo { x: _, y } => row = Some(u32::from(*y)),
            Command::MoveDown(n) => row = row.map(|r| r + u32::from(*n)),
            Command::Print(_) => rows.push(row),
            Command::MoveLeft(_) | Command::Clear => {}
        }
    }
    rows
}

fn written_within(widget: &impl Draw, rect: Rect) -> bool {
    let mut frame = Frame::new();
    let report = widget.draw(rect, SelectionState::Active, &mut frame).unwrap();
    assert_eq!(report.y, rect.y);
    let first = u32::from(report.y);
    let past = first + u32::from(report.height);
    rows_written(&frame.into_commands())
        .into_iter()
        .all(|row| matches!(row, Some(r) if first <= r && r < past))
}

#[test]
fn the_rows_of_writings_follow_the_cursor() {
    let mut frame = Frame::new();
    frame.print("a");
    frame.move_to(4, 7);
    frame.print("b");
    frame.push(Command::MoveDown(2));
    frame.push(Command::MoveLeft(1));
    frame.print("c");
    assert_eq!(rows_written(&frame.into_commands()), vec![None, Some(7), Some(9)]);
}

#[test]
fn a_slider_writes_on_the_rows_it_reports() {
    for rect in [Rect::new(0, 0, 20, 1), Rect::new(5, 9, 12, 3)] {
        assert!(written_within(&Slider::new(SliderState::MinMax(300, 500)), rect));
        assert!(written_within(&Slider::new(SliderState::Value(700)), rect));
    }
}

#[test]
fn a_volume_writes_on_the_rows_it_reports() {
    for rect in [Rect::new(0, 0, 20, 1), Rect::new(5, 9, 12, 3)] {
        assert!(written_within(&Volume::new(), rect));
    }
}

#[test]
fn a_clip_writes_on_the_rows_it_reports() {
    for rect in [Rect::new(0, 0, 20, 1), Rect::new(5, 9, 12, 3), Rect::new(5, 65530, 12, 1)] {
        assert!(written_within(&Clip::new("a".to_string()), rect));
    }
    let bare = Clip::with_effects("a".to_string(), Children::<Volume>::new(Vec::new()));
    assert!(written_within(&bare, Rect::new(0, 0, 20, 1)));
}

#[test]
fn a_search_writes_on_the_rows_it_reports() {
    let paths: Vec<String> = (0..4).map(|i| format!("clip {}", i)).collect();
    let search = Search::query("".to_string(), paths);
    for rect in [Rect::new(10, 5, 40, 1), Rect::new(0, 0, 6, 2)] {
        assert!(written_within(&search, rect));
    }
    let empty = Search::query("x".to_string(), vec!["a".to_string()]);
    assert!(written_within(&empty, Rect::new(10, 5, 40, 1)));
}

#[test]
fn no_two_siblings_write_on_the_same_row() {
    let children = Children::new(vec![
        Box::new(Clip::new("a".to_string())),
        Box::new(Clip::new("b".to_string())),
        Box::new(Clip::new("c".to_string())),
    ]);
    let mut frame = Frame::new();
    let rects = children.draw(Rect::new(2, 3, 30, 1), SelectionState::Active, &mut frame).unwrap();
    let rows = rows_written(&frame.into_commands());
    // Each clip writes its title, five texts for each of its two volumes,
    // and a branch and one bar beside each of them.
    let writings = 1 + 2 * 5 + 2 * 2;
    assert_eq!(rows.len(), 3 * writings);
    for (k, row) in rows.into_iter().enumerate() {
        let rect = rects[k / writings];
        let row = row.unwrap();
        assert!(u32::from(rect.y) <= row && row < u32::from(rect.y) + u32::from(rect.height));
    }
}
