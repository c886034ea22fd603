//! The line at the top of the screen: a bar, the logo and the version.

use vstd::prelude::*;
use vstd::utf8::encode_utf8;

use crate::frame::{Command, CommandView, Frame, Style, Styled};
use crate::helpers::{repeated, HorizontalRepeat, LayoutError};

verus! {

/// The glyph the bar is made of.
pub const DASH: &'static str = "—";

/// The five parts of the logo, each shown in a colour of its own.
pub const LOGO_BLUE: &'static str = "  ᑎ";

pub const LOGO_GREEN: &'static str = " ᑌ";

pub const LOGO_YELLOW: &'static str = " ∕";

pub const LOGO_RED: &'static str = " ᑕ";

pub const LOGO_MAGENTA: &'static str = " ᑢ  ";

/// The text that shows the version.
pub open spec fn label_of(version: Seq<char>) -> Seq<char> {
    " v: "@ + version + " "@
}

/// The commands of the header on a terminal `cols` columns wide: a bar
/// across the first row, the logo from column 2 on, and the version label
/// so that two columns stay free right of it, counting one column for
/// each byte of the label.
///
/// There is no header where the label and the two columns do not fit.
pub open spec fn header_commands(cols: u16, version: Seq<char>) -> Result<
    Seq<CommandView>,
    LayoutError,
> {
    let label = label_of(version);
    let bytes = encode_utf8(label).len();
    if cols < bytes + 2 {
        Err(LayoutError::Underflow)
    } else {
        Ok(
            seq![
                CommandView::MoveTo { x: 0, y: 0 },
                CommandView::Print { text: repeated(DASH@, cols as nat), style: Style::Plain },
                CommandView::MoveTo { x: 2, y: 0 },
                CommandView::Print { text: LOGO_BLUE@, style: Style::Blue },
                CommandView::Print { text: LOGO_GREEN@, style: Style::Green },
                CommandView::Print { text: LOGO_YELLOW@, style: Style::Yellow },
                CommandView::Print { text: LOGO_RED@, style: Style::Red },
                CommandView::Print { text: LOGO_MAGENTA@, style: Style::Magenta },
                CommandView::MoveTo { x: (cols - bytes - 2) as u16, y: 0 },
                CommandView::Print { text: label, style: Style::Plain },
            ],
        )
    }
}

fn coloured(text: &str, style: Style) -> (r: Styled)
    ensures
        r@ == (CommandView::Print { text: text@, style }),
{
    Styled { text: String::from_str(text), style }
}

/// Appends the header for a terminal `cols` columns wide to `frame`. On
/// failure the frame is left as it was.
pub fn header(cols: u16, version: &str, frame: &mut Frame) -> (r: Result<(), LayoutError>)
    ensures
        match header_commands(cols, version@) {
            Ok(commands) => r is Ok && final(frame)@ == old(frame)@ + commands,
            Err(e) => r == Err::<(), LayoutError>(e) && final(frame)@ == old(frame)@,
        },
{
    let mut label = String::from_str(" v: ");
    label.append(version);
    label.append(" ");
    let bytes: usize = label.as_str().as_bytes().len();
    if bytes > u16::MAX as usize - 2 || cols < bytes as u16 + 2 {
        return Err(LayoutError::Underflow);
    }
    let column: u16 = cols - bytes as u16 - 2;
    frame.push(Command::MoveTo { x: 0, y: 0 });
    DASH.h_repeat(cols, frame);
    frame.push(Command::MoveTo { x: 2, y: 0 });
    frame.print_styled(coloured(LOGO_BLUE, Style::Blue));
    frame.print_styled(coloured(LOGO_GREEN, Style::Green));
    frame.print_styled(coloured(LOGO_YELLOW, Style::Yellow));
    frame.print_styled(coloured(LOGO_RED, Style::Red));
    frame.print_styled(coloured(LOGO_MAGENTA, Style::Magenta));
    frame.push(Command::MoveTo { x: column, y: 0 });
    frame.print_styled(Styled { text: label, style: Style::Plain });
    assert(frame@ =~= old(frame)@ + header_commands(cols, version@)->Ok_0);
    Ok(())
}

} // verus!
