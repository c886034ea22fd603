use soundboard::children::Children;
use soundboard::clip::Clip;
use soundboard::cues::Cues;
use soundboard::frame::{Command, Frame, Style};
use soundboard::helpers::action::{Event, KeyCode, KeyEvent};
use soundboard::helpers::{CombinedRect, LayoutError, Rect, SelectionState};
use soundboard::slider::SliderState;
use soundboard::volume::Volume;

fn press(code: KeyCode) -> Event {
    Event::Key(KeyEvent::press(code))
}

fn clips(n: usize) -> Children<Clip> {
    let mut children = Vec::new();
    for i in 0..n {
        children.push(Box::new(Clip::new(format!("clip {}", i))));
    }
    Children::new(children)
}

fn volumes(n: usize) -> Children<Volume> {
    let mut children = Vec::new();
    for _ in 0..n {
        children.push(Box::new(Volume::new()));
    }
    Children::new(children)
}

/// The style of each clip title in the frame, in order: green for a clip
/// drawn as active, yellow for one drawn as selected, plain otherwise.
fn title_styles(frame: Frame) -> Vec<Style> {
    let mut styles = Vec::new();
    for command in frame.into_commands() {
        if let Command::Print(styled) = command {
            if styled.text.contains("clip") {
                styles.push(styled.style);
            }
        }
    }
    styles
}

#[test]
fn new_children_have_the_first_active_and_none_selected() {
    let children = clips(3);
    assert_eq!(children.len(), 3);
    assert_eq!(children.active_index(), 0);
    for i in 0..3 {
        assert!(!children.is_selected(i));
    }
}

#[test]
fn set_active_takes_the_index_of_a_child_only() {
    let mut children = clips(3);
    assert!(children.set_active(2));
    assert_eq!(children.active_index(), 2);
    assert!(!children.set_active(3));
    assert_eq!(children.active_index(), 2);
    let mut none = clips(0);
    assert!(!none.set_active(0));
    assert_eq!(none.active_index(), 0);
}

#[test]
fn select_takes_the_index_of_a_child_only() {
    let mut children = clips(3);
    assert!(children.select(2));
    assert!(children.select(2));
    assert!(!children.select(3));
    assert!(!children.is_selected(0));
    assert!(!children.is_selected(1));
    assert!(children.is_selected(2));
    assert!(!children.is_selected(3));
}

#[test]
fn get_hands_out_existing_children_only() {
    let children = clips(2);
    assert_eq!(children.get(1).unwrap().name(), "clip 1");
    assert!(children.get(2).is_none());
}

#[test]
fn an_active_parent_shows_the_active_and_the_selected_children() {
    let mut children = clips(3);
    children.set_active(1);
    children.select(0);
    children.select(2);
    let mut frame = Frame::new();
    let rects = children.draw(Rect::new(0, 0, 10, 1), SelectionState::Active, &mut frame);
    assert!(rects.is_ok());
    assert_eq!(title_styles(frame), vec![Style::Yellow, Style::Green, Style::Yellow]);
}

#[test]
fn each_child_has_the_emphasis_its_parent_shows() {
    let mut children = clips(3);
    children.set_active(1);
    children.select(0);
    children.select(2);
    let under = |parent: SelectionState| -> Vec<SelectionState> {
        (0..3).map(|i| children.emphasis(i, parent)).collect()
    };
    assert_eq!(
        under(SelectionState::Active),
        vec![SelectionState::Selected, SelectionState::Active, SelectionState::Selected]
    );
    assert_eq!(under(SelectionState::Normal), vec![SelectionState::Normal; 3]);
    assert_eq!(under(SelectionState::Selected), vec![SelectionState::Normal; 3]);
}

#[test]
fn exactly_one_child_of_an_active_parent_is_active() {
    let mut children = clips(4);
    children.select(1);
    children.select(3);
    for active in 0..4 {
        children.set_active(active);
        let count = (0..4)
            .filter(|i| children.emphasis(*i, SelectionState::Active) == SelectionState::Active)
            .count();
        assert_eq!(count, 1);
        assert_eq!(children.emphasis(active, SelectionState::Active), SelectionState::Active);
    }
}

#[test]
fn the_active_child_is_drawn_as_active_even_if_it_is_selected() {
    let mut children = clips(3);
    children.set_active(1);
    children.select(1);
    let mut frame = Frame::new();
    children.draw(Rect::new(0, 0, 10, 1), SelectionState::Active, &mut frame).unwrap();
    assert_eq!(title_styles(frame), vec![Style::Plain, Style::Green, Style::Plain]);
}

#[test]
fn a_parent_that_is_not_active_hides_the_selection() {
    for parent in [SelectionState::Normal, SelectionState::Selected] {
        let mut children = clips(3);
        children.set_active(1);
        children.select(0);
        children.select(2);
        let mut frame = Frame::new();
        children.draw(Rect::new(0, 0, 10, 1), parent, &mut frame).unwrap();
        assert_eq!(title_styles(frame), vec![Style::Plain, Style::Plain, Style::Plain]);
    }
}

#[test]
fn children_are_drawn_one_below_the_other() {
    let children = volumes(3);
    let mut frame = Frame::new();
    let rects = children.draw(Rect::new(2, 3, 10, 1), SelectionState::Active, &mut frame).unwrap();
    assert_eq!(
        rects,
        vec![Rect::new(2, 3, 10, 2), Rect::new(2, 5, 10, 2), Rect::new(2, 7, 10, 2)]
    );
    assert_eq!(rects.combined(), Ok(Some(Rect::new(2, 3, 10, 6))));
    assert_eq!(frame.len(), 30);
    assert_eq!(frame.get(0), &Command::MoveTo { x: 2, y: 3 });
    assert_eq!(frame.get(10), &Command::MoveTo { x: 2, y: 5 });
    assert_eq!(frame.get(20), &Command::MoveTo { x: 2, y: 7 });
}

#[test]
fn no_two_children_share_a_row() {
    let children = clips(4);
    let mut frame = Frame::new();
    let rects = children.draw(Rect::new(0, 0, 10, 1), SelectionState::Normal, &mut frame).unwrap();
    assert_eq!(
        rects,
        vec![
            Rect::new(0, 0, 10, 5),
            Rect::new(0, 5, 10, 5),
            Rect::new(0, 10, 10, 5),
            Rect::new(0, 15, 10, 5),
        ]
    );
    for i in 0..rects.len() {
        for j in (i + 1)..rects.len() {
            assert!(rects[i].y + rects[i].height <= rects[j].y);
        }
    }
    assert_eq!(rects.combined(), Ok(Some(Rect::new(0, 0, 10, 20))));
}

#[test]
fn each_child_starts_on_the_row_on_which_the_one_before_ends() {
    let mut frame = Frame::new();
    let rects = clips(3).draw(Rect::new(4, 7, 30, 2), SelectionState::Active, &mut frame).unwrap();
    assert_eq!(rects[0].y, 7);
    for i in 1..rects.len() {
        assert_eq!(rects[i].y, rects[i - 1].y + rects[i - 1].height);
    }
    let heights: u16 = rects.iter().map(|rect| rect.height).sum();
    assert_eq!(rects.combined(), Ok(Some(Rect::new(4, 7, 30, heights))));
}

#[test]
fn drawing_no_children_draws_nothing() {
    let children = clips(0);
    let mut frame = Frame::new();
    let rects = children.draw(Rect::new(0, 0, 10, 1), SelectionState::Active, &mut frame);
    assert_eq!(rects, Ok(Vec::new()));
    assert_eq!(frame.len(), 0);
}

#[test]
fn a_child_that_does_not_fit_fails_the_whole_draw() {
    let children = volumes(2);
    let mut frame = Frame::new();
    frame.print("before");
    let rects = children.draw(Rect::new(0, 65532, 10, 1), SelectionState::Active, &mut frame);
    assert_eq!(rects, Err(LayoutError::Overflow));
    assert_eq!(frame.len(), 1);
}

#[test]
fn the_place_past_the_last_child_has_to_exist() {
    let mut frame = Frame::new();
    let fits = volumes(1).draw(Rect::new(0, 65533, 10, 1), SelectionState::Active, &mut frame);
    assert_eq!(fits, Ok(vec![Rect::new(0, 65533, 10, 2)]));
    let mut frame = Frame::new();
    let ends_on_last_row =
        volumes(1).draw(Rect::new(0, 65534, 10, 1), SelectionState::Active, &mut frame);
    assert_eq!(ends_on_last_row, Err(LayoutError::Overflow));
    assert_eq!(frame.len(), 0);
}

#[test]
fn input_goes_to_the_active_child_and_to_no_other() {
    let mut children = volumes(3);
    children.set_active(1);
    let mut cues = Cues::new();
    assert_eq!(children.route_input(press(KeyCode::Right), &mut cues), None);
    assert_eq!(children.get(0).unwrap().state(), SliderState::MinMax(300, 500));
    assert_eq!(children.get(1).unwrap().state(), SliderState::MinMax(400, 600));
    assert_eq!(children.get(2).unwrap().state(), SliderState::MinMax(300, 500));
    assert_eq!(children.active_index(), 1);
}

#[test]
fn an_event_the_active_child_does_not_claim_is_handed_back() {
    let mut children = volumes(2);
    let mut cues = Cues::new();
    let event = press(KeyCode::Left);
    assert_eq!(children.route_input(event, &mut cues), Some(event));
    assert_eq!(children.get(0).unwrap().state(), SliderState::MinMax(300, 500));
}

#[test]
fn input_to_no_children_is_handed_back() {
    let mut children = volumes(0);
    let mut cues = Cues::new();
    let event = press(KeyCode::Right);
    assert_eq!(children.route_input(event, &mut cues), Some(event));
    assert_eq!(children.len(), 0);
    assert_eq!(cues.len(), 0);
}

#[test]
fn active_is_the_child_at_the_active_index() {
    let mut children = clips(3);
    children.set_active(2);
    assert_eq!(children.active().name(), "clip 2");
}
