//! The status line at the bottom of the screen.

use vstd::prelude::*;

use crate::frame::{Command, CommandView, Frame, Style, Styled};
use crate::helpers::LayoutError;

verus! {

/// The commands that show `text` as the status line of a terminal with
/// `rows` rows: at the start of the last row, in italic grey.
///
/// There is no status line on a terminal without rows.
pub open spec fn info_commands(text: Seq<char>, rows: u16) -> Result<Seq<CommandView>, LayoutError> {
    if rows == 0 {
        Err(LayoutError::Underflow)
    } else {
        Ok(
            seq![
                CommandView::MoveTo { x: 0, y: (rows - 1) as u16 },
                CommandView::Print { text, style: Style::Note },
            ],
        )
    }
}

/// Appends the status line `text` for a terminal with `rows` rows to
/// `frame`. On failure the frame is left as it was.
pub fn info(text: String, rows: u16, frame: &mut Frame) -> (r: Result<(), LayoutError>)
    ensures
        match info_commands(text@, rows) {
            Ok(commands) => r is Ok && final(frame)@ == old(frame)@ + commands,
            Err(e) => r == Err::<(), LayoutError>(e) && final(frame)@ == old(frame)@,
        },
{
    if rows == 0 {
        return Err(LayoutError::Underflow);
    }
    frame.push(Command::MoveTo { x: 0, y: rows - 1 });
    frame.print_styled(Styled { text, style: Style::Note });
    assert(frame@ =~= old(frame)@ + info_commands(text@, rows)->Ok_0);
    Ok(())
}

} // verus!
