use soundboard::cues::Cues;
use soundboard::frame::{Command, Frame, Style, Styled};
use soundboard::helpers::style::StateStyle;
use soundboard::helpers::{HorizontalRepeat, SelectionState, VerticalRepeat};

fn print(text: &str, style: Style) -> Command {
    Command::Print(Styled { text: text.to_string(), style })
}

#[test]
fn a_new_frame_is_empty() {
    let frame = Frame::new();
    assert_eq!(frame.len(), 0);
    assert_eq!(frame.into_commands(), Vec::<Command>::new());
}

#[test]
fn commands_come_out_in_the_order_they_went_in() {
    let mut frame = Frame::new();
    frame.push(Command::Clear);
    frame.move_to(3, 4);
    frame.print("abc");
    frame.print_styled(Styled { text: "x".to_string(), style: Style::Red });
    frame.push(Command::MoveDown(2));
    frame.push(Command::MoveLeft(5));
    assert_eq!(frame.len(), 6);
    assert_eq!(frame.get(1), &Command::MoveTo { x: 3, y: 4 });
    assert_eq!(
        frame.into_commands(),
        vec![
            Command::Clear,
            Command::MoveTo { x: 3, y: 4 },
            print("abc", Style::Plain),
            print("x", Style::Red),
            Command::MoveDown(2),
            Command::MoveLeft(5),
        ]
    );
}

#[test]
fn rewind_drops_what_came_after_the_mark() {
    let mut frame = Frame::new();
    frame.print("kept");
    let mark = frame.len();
    frame.print("dropped");
    frame.move_to(1, 1);
    frame.rewind(mark);
    assert_eq!(frame.into_commands(), vec![print("kept", Style::Plain)]);
}

#[test]
fn rewind_to_the_end_changes_nothing() {
    let mut frame = Frame::new();
    frame.print("kept");
    frame.rewind(1);
    assert_eq!(frame.len(), 1);
}

#[test]
fn plain_text_has_the_default_look() {
    assert_eq!(Styled::plain("abc"), Styled { text: "abc".to_string(), style: Style::Plain });
}

#[test]
fn clone_keeps_text_and_style() {
    let styled = Styled { text: "abc".to_string(), style: Style::Magenta };
    assert_eq!(styled.clone(), styled);
    for command in [
        Command::Clear,
        Command::MoveTo { x: 1, y: 2 },
        Command::MoveDown(3),
        Command::MoveLeft(4),
        Command::Print(styled),
    ] {
        assert_eq!(command.clone(), command);
    }
}

#[test]
fn active_text_is_green() {
    let styled = "abc".state(SelectionState::Active);
    assert_eq!(styled, Styled { text: "abc".to_string(), style: Style::Green });
}

#[test]
fn selected_text_is_yellow() {
    let styled = "abc".to_string().state(SelectionState::Selected);
    assert_eq!(styled, Styled { text: "abc".to_string(), style: Style::Yellow });
}

#[test]
fn normal_text_is_plain() {
    let styled = "abc".state(SelectionState::Normal);
    assert_eq!(styled, Styled { text: "abc".to_string(), style: Style::Plain });
}

#[test]
fn h_repeat_writes_the_text_n_times_in_one_go() {
    let mut frame = Frame::new();
    "ab".h_repeat(3, &mut frame);
    assert_eq!(frame.into_commands(), vec![print("ababab", Style::Plain)]);
}

#[test]
fn h_repeat_of_zero_writes_an_empty_text() {
    let mut frame = Frame::new();
    "ab".h_repeat(0, &mut frame);
    assert_eq!(frame.into_commands(), vec![print("", Style::Plain)]);
}

#[test]
fn v_repeat_steps_down_and_back_after_each_writing() {
    let mut frame = Frame::new();
    "ab".v_repeat(2, &mut frame);
    assert_eq!(
        frame.into_commands(),
        vec![
            print("ab", Style::Plain),
            Command::MoveDown(1),
            Command::MoveLeft(2),
            print("ab", Style::Plain),
            Command::MoveDown(1),
            Command::MoveLeft(2),
        ]
    );
}

#[test]
fn v_repeat_steps_back_by_the_length_in_bytes() {
    let mut frame = Frame::new();
    let bar = Styled { text: "┃".to_string(), style: Style::Green };
    bar.v_repeat(1, &mut frame);
    assert_eq!(
        frame.into_commands(),
        vec![print("┃", Style::Green), Command::MoveDown(1), Command::MoveLeft(3)]
    );
}

#[test]
fn v_repeat_of_zero_writes_nothing() {
    let mut frame = Frame::new();
    "ab".v_repeat(0, &mut frame);
    assert_eq!(frame.len(), 0);
}

#[test]
fn cues_keep_their_order() {
    let mut cues = Cues::new();
    assert_eq!(cues.len(), 0);
    cues.push("a.wav".to_string());
    cues.push("b.wav".to_string());
    assert_eq!(cues.len(), 2);
    assert_eq!(cues.get(0), "a.wav");
    assert_eq!(cues.into_names(), vec!["a.wav".to_string(), "b.wav".to_string()]);
}
