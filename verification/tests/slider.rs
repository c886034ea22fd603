use soundboard::cues::Cues;
use soundboard::frame::{Command, Frame, Style, Styled};
use soundboard::helpers::action::{Event, KeyCode, KeyEvent};
use soundboard::helpers::{LayoutError, Rect, SelectionState};
use soundboard::slider::{Slider, SliderState, SCALE, SPREAD, STEP, UNIT};
use soundboard::strs;
use soundboard::traits::{Draw, Effect, Input};
use soundboard::volume::Volume;

fn press(code: KeyCode) -> Event {
    Event::Key(KeyEvent::press(code))
}

fn plain(text: &str) -> Command {
    Command::Print(Styled { text: text.to_string(), style: Style::Plain })
}

fn drawn(state: SliderState, rect: Rect) -> Result<(Rect, Vec<Command>), LayoutError> {
    let mut frame = Frame::new();
    let rect = Slider::new(state).draw(rect, SelectionState::Normal, &mut frame)?;
    Ok((rect, frame.into_commands()))
}

/// The parameter that stands for `x`.
fn param(x: f64) -> i32 {
    (x * f64::from(UNIT)).round() as i32
}

fn marker_column(value: i32) -> u16 {
    let (_, commands) = drawn(SliderState::Value(value), Rect::new(0, 0, u16::MAX, 1)).unwrap();
    match commands[2] {
        Command::MoveTo { x, y: 0 } => x,
        _ => panic!("no marker"),
    }
}

#[test]
fn the_constants_stand_for_tenths() {
    assert_eq!(UNIT, 1000);
    assert_eq!(STEP * 10, UNIT);
    assert_eq!(SPREAD * 10, UNIT);
    assert_eq!(SCALE, 10);
}

#[test]
fn parameters_are_thousandths() {
    assert_eq!(param(1.0), UNIT);
    assert_eq!(param(0.1), STEP);
    assert_eq!(param(0.1), SPREAD);
    assert_eq!(param(0.3), 300);
    assert_eq!(param(-0.25), -250);
}

#[test]
fn a_range_has_its_markers_at_the_scaled_ends() {
    let rect = Rect::new(2, 1, 20, 1);
    let (consumed, commands) =
        drawn(SliderState::MinMax(param(0.3), param(0.5)), rect).unwrap();
    assert_eq!(consumed, rect);
    assert_eq!(
        commands,
        vec![
            Command::MoveTo { x: 2, y: 1 },
            plain(&strs::RULE.repeat(18)),
            Command::MoveTo { x: 5, y: 1 },
            plain(strs::LEFT),
            Command::MoveTo { x: 7, y: 1 },
            plain(strs::RIGHT),
            Command::MoveTo { x: 6, y: 1 },
            plain(strs::MID),
        ]
    );
}

#[test]
fn a_wide_range_is_filled_between_its_markers() {
    let (_, commands) = drawn(SliderState::MinMax(100, 900), Rect::new(0, 0, 20, 1)).unwrap();
    assert_eq!(commands[2], Command::MoveTo { x: 1, y: 0 });
    assert_eq!(commands[4], Command::MoveTo { x: 9, y: 0 });
    assert_eq!(commands[6], Command::MoveTo { x: 2, y: 0 });
    assert_eq!(commands[7], plain(&strs::MID.repeat(7)));
}

#[test]
fn a_value_has_one_marker() {
    let rect = Rect::new(4, 7, 12, 3);
    let (consumed, commands) = drawn(SliderState::Value(400), rect).unwrap();
    assert_eq!(consumed, rect);
    assert_eq!(
        commands,
        vec![
            Command::MoveTo { x: 4, y: 7 },
            plain(&strs::RULE.repeat(10)),
            Command::MoveTo { x: 8, y: 7 },
            plain(strs::CIRCLE),
        ]
    );
}

#[test]
fn the_emphasis_does_not_change_a_slider() {
    let rect = Rect::new(0, 0, 20, 1);
    let slider = Slider::new(SliderState::MinMax(300, 500));
    let mut normal = Frame::new();
    let mut active = Frame::new();
    slider.draw(rect, SelectionState::Normal, &mut normal).unwrap();
    slider.draw(rect, SelectionState::Active, &mut active).unwrap();
    assert_eq!(normal.into_commands(), active.into_commands());
}

#[test]
fn markers_stand_where_the_rounded_product_says() {
    for x in [0.0, 0.04, 0.05, 0.3, 0.349, 0.35, 0.5, 0.96, 1.0, 2.75] {
        let expected = (x * f64::from(SCALE)).round() as u16;
        assert_eq!(marker_column(param(x)), expected);
    }
}

#[test]
fn markers_stand_at_the_nearest_cell() {
    assert_eq!(marker_column(0), 0);
    assert_eq!(marker_column(49), 0);
    assert_eq!(marker_column(50), 1);
    assert_eq!(marker_column(300), 3);
    assert_eq!(marker_column(349), 3);
    assert_eq!(marker_column(350), 4);
    assert_eq!(marker_column(1000), 10);
}

#[test]
fn markers_of_negative_parameters_stand_at_the_origin() {
    assert_eq!(marker_column(-1), 0);
    assert_eq!(marker_column(-100), 0);
    assert_eq!(marker_column(i32::MIN), 0);
}

#[test]
fn markers_stop_at_the_last_column() {
    assert_eq!(marker_column(6_553_500), 65535);
    assert_eq!(marker_column(i32::MAX), 65535);
}

#[test]
fn a_slider_needs_two_cells() {
    assert_eq!(
        drawn(SliderState::Value(0), Rect::new(0, 0, 1, 1)),
        Err(LayoutError::Underflow)
    );
    assert!(drawn(SliderState::Value(0), Rect::new(0, 0, 2, 1)).is_ok());
}

#[test]
fn a_marker_past_the_width_does_not_fit() {
    assert_eq!(
        drawn(SliderState::Value(1100), Rect::new(0, 0, 10, 1)),
        Err(LayoutError::Underflow)
    );
    assert!(drawn(SliderState::Value(1000), Rect::new(0, 0, 10, 1)).is_ok());
}

#[test]
fn a_marker_past_the_last_column_does_not_fit() {
    assert_eq!(
        drawn(SliderState::Value(600), Rect::new(65530, 0, 10, 1)),
        Err(LayoutError::Overflow)
    );
}

#[test]
fn a_range_whose_ends_share_a_cell_does_not_fit() {
    assert_eq!(
        drawn(SliderState::MinMax(300, 340), Rect::new(0, 0, 20, 1)),
        Err(LayoutError::Underflow)
    );
    assert_eq!(
        drawn(SliderState::MinMax(500, 300), Rect::new(0, 0, 20, 1)),
        Err(LayoutError::Underflow)
    );
}

#[test]
fn a_failed_draw_leaves_the_frame_alone() {
    let mut frame = Frame::new();
    frame.print("before");
    let slider = Slider::new(SliderState::MinMax(500, 300));
    let r = slider.draw(Rect::new(0, 0, 20, 1), SelectionState::Normal, &mut frame);
    assert_eq!(r, Err(LayoutError::Underflow));
    assert_eq!(frame.into_commands(), vec![plain("before")]);
}

#[test]
fn right_steps_a_value_and_claims_the_event() {
    let mut slider = Slider::new(SliderState::Value(param(0.2)));
    let mut cues = Cues::new();
    assert_eq!(slider.handle_input(press(KeyCode::Right), &mut cues), None);
    assert_eq!(slider.state(), SliderState::Value(param(0.3)));
    assert_eq!(slider.state(), SliderState::Value(300));
    assert_eq!(cues.len(), 0);
}

#[test]
fn right_steps_both_ends_of_a_range() {
    let mut slider = Slider::new(SliderState::MinMax(300, 500));
    let mut cues = Cues::new();
    assert_eq!(slider.handle_input(press(KeyCode::Right), &mut cues), None);
    assert_eq!(slider.state(), SliderState::MinMax(400, 600));
}

#[test]
fn right_stops_at_the_largest_parameter() {
    let mut slider = Slider::new(SliderState::MinMax(i32::MAX - 150, i32::MAX - 50));
    let mut cues = Cues::new();
    slider.handle_input(press(KeyCode::Right), &mut cues);
    assert_eq!(slider.state(), SliderState::MinMax(i32::MAX - 50, i32::MAX));
}

#[test]
fn toggle_collapses_a_range_to_its_midpoint() {
    let mut slider = Slider::new(SliderState::MinMax(300, 500));
    let mut cues = Cues::new();
    assert_eq!(slider.handle_input(press(KeyCode::Tab), &mut cues), None);
    assert_eq!(slider.state(), SliderState::Value(400));
}

#[test]
fn the_midpoint_is_rounded_down() {
    let mut cues = Cues::new();
    let mut odd = Slider::new(SliderState::MinMax(300, 401));
    odd.handle_input(press(KeyCode::Tab), &mut cues);
    assert_eq!(odd.state(), SliderState::Value(350));
    let mut negative = Slider::new(SliderState::MinMax(-4, 1));
    negative.handle_input(press(KeyCode::Tab), &mut cues);
    assert_eq!(negative.state(), SliderState::Value(-2));
    let mut large = Slider::new(SliderState::MinMax(i32::MAX, i32::MAX));
    large.handle_input(press(KeyCode::Tab), &mut cues);
    assert_eq!(large.state(), SliderState::Value(i32::MAX));
}

#[test]
fn toggle_expands_a_value_to_a_range_around_it() {
    let mut slider = Slider::new(SliderState::Value(400));
    let mut cues = Cues::new();
    assert_eq!(slider.handle_input(press(KeyCode::Tab), &mut cues), None);
    assert_eq!(slider.state(), SliderState::MinMax(300, 500));
}

#[test]
fn toggle_stops_at_the_bounds_of_the_parameter() {
    let mut cues = Cues::new();
    let mut low = Slider::new(SliderState::Value(i32::MIN + 10));
    low.handle_input(press(KeyCode::Tab), &mut cues);
    assert_eq!(low.state(), SliderState::MinMax(i32::MIN, i32::MIN + 110));
    let mut high = Slider::new(SliderState::Value(i32::MAX - 10));
    high.handle_input(press(KeyCode::Tab), &mut cues);
    assert_eq!(high.state(), SliderState::MinMax(i32::MAX - 110, i32::MAX));
}

#[test]
fn toggling_twice_rebuilds_the_range_around_its_midpoint() {
    let mut cues = Cues::new();
    let mut narrow = Slider::new(SliderState::MinMax(300, 500));
    narrow.handle_input(press(KeyCode::Tab), &mut cues);
    narrow.handle_input(press(KeyCode::Tab), &mut cues);
    assert_eq!(narrow.state(), SliderState::MinMax(300, 500));
    let mut wide = Slider::new(SliderState::MinMax(200, 800));
    wide.handle_input(press(KeyCode::Tab), &mut cues);
    assert_eq!(wide.state(), SliderState::Value(500));
    wide.handle_input(press(KeyCode::Tab), &mut cues);
    assert_eq!(wide.state(), SliderState::MinMax(400, 600));
}

#[test]
fn toggling_twice_keeps_one_range_that_is_not_two_tenths_wide() {
    let mut cues = Cues::new();
    let mut slider = Slider::new(SliderState::MinMax(i32::MIN, i32::MIN + 199));
    slider.handle_input(press(KeyCode::Tab), &mut cues);
    assert_eq!(slider.state(), SliderState::Value(i32::MIN + 99));
    slider.handle_input(press(KeyCode::Tab), &mut cues);
    assert_eq!(slider.state(), SliderState::MinMax(i32::MIN, i32::MIN + 199));
}

#[test]
fn toggling_a_value_twice_gives_it_back_unless_an_end_is_cut_off() {
    let twice = |value: i32| -> SliderState {
        let mut cues = Cues::new();
        let mut slider = Slider::new(SliderState::Value(value));
        slider.handle_input(press(KeyCode::Tab), &mut cues);
        slider.handle_input(press(KeyCode::Tab), &mut cues);
        slider.state()
    };
    for value in [0, 400, -250, i32::MIN + 99, i32::MIN + 100, i32::MAX - 100] {
        assert_eq!(twice(value), SliderState::Value(value));
    }
    assert_eq!(twice(i32::MIN + 98), SliderState::Value(i32::MIN + 99));
    assert_eq!(twice(i32::MIN), SliderState::Value(i32::MIN + 50));
    assert_eq!(twice(i32::MAX - 99), SliderState::Value(i32::MAX - 100));
    assert_eq!(twice(i32::MAX), SliderState::Value(i32::MAX - 50));
}

#[test]
fn other_events_are_handed_back() {
    let mut cues = Cues::new();
    for event in [
        press(KeyCode::Left),
        press(KeyCode::Up),
        press(KeyCode::Down),
        press(KeyCode::Enter),
        press(KeyCode::Char('x')),
        Event::FocusGained,
        Event::Resize(10, 10),
    ] {
        let mut slider = Slider::new(SliderState::MinMax(300, 500));
        assert_eq!(slider.handle_input(event, &mut cues), Some(event));
        assert_eq!(slider.state(), SliderState::MinMax(300, 500));
    }
    assert_eq!(cues.len(), 0);
}

#[test]
fn a_volume_starts_as_the_range_from_three_to_five_tenths() {
    let volume = Volume::new();
    assert_eq!(volume.state(), SliderState::MinMax(300, 500));
    assert_eq!(volume.name(), "Volume");
}

#[test]
fn a_volume_is_a_label_above_its_slider() {
    let mut frame = Frame::new();
    let rect = Rect::new(1, 1, 19, 1);
    let consumed = Volume::new().draw(rect, SelectionState::Active, &mut frame);
    assert_eq!(consumed, Ok(Rect::new(1, 1, 19, 2)));
    assert_eq!(
        frame.into_commands(),
        vec![
            Command::MoveTo { x: 1, y: 1 },
            plain(" Volume"),
            Command::MoveTo { x: 1, y: 2 },
            plain(&strs::RULE.repeat(17)),
            Command::MoveTo { x: 4, y: 2 },
            plain(strs::LEFT),
            Command::MoveTo { x: 6, y: 2 },
            plain(strs::RIGHT),
            Command::MoveTo { x: 5, y: 2 },
            plain(strs::MID),
        ]
    );
}

#[test]
fn a_volume_hands_its_events_to_the_slider() {
    let mut volume = Volume::new();
    let mut cues = Cues::new();
    assert_eq!(volume.handle_input(press(KeyCode::Right), &mut cues), None);
    assert_eq!(volume.state(), SliderState::MinMax(400, 600));
    assert_eq!(volume.handle_input(press(KeyCode::Tab), &mut cues), None);
    assert_eq!(volume.state(), SliderState::Value(500));
    let enter = press(KeyCode::Enter);
    assert_eq!(volume.handle_input(enter, &mut cues), Some(enter));
    assert_eq!(volume.state(), SliderState::Value(500));
}

#[test]
fn a_volume_that_does_not_fit_leaves_the_frame_alone() {
    let mut frame = Frame::new();
    frame.print("before");
    let on_last_row = Volume::new().draw(
        Rect::new(0, u16::MAX, 20, 1),
        SelectionState::Normal,
        &mut frame,
    );
    assert_eq!(on_last_row, Err(LayoutError::Overflow));
    let too_narrow = Volume::new().draw(Rect::new(0, 0, 4, 1), SelectionState::Normal, &mut frame);
    assert_eq!(too_narrow, Err(LayoutError::Underflow));
    assert_eq!(frame.into_commands(), vec![plain("before")]);
}
