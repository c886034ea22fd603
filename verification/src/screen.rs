//! One turn of the program: an event comes in, the widgets react, and the
//! whole screen is drawn anew.

use vstd::prelude::*;

use crate::cues::Cues;
use crate::frame::{Command, CommandView, Frame};
use crate::header::{header, header_commands};
use crate::helpers::action::Event;
use crate::helpers::{LayoutError, Rect, SelectionState};
use crate::info::{info, info_commands};
use crate::search::{Search, SearchView};
use crate::traits::{Draw, Input};

verus! {

/// The rectangle the search is drawn at.
pub open spec fn root() -> Rect {
    Rect { x: 10, y: 5, width: 40, height: 1 }
}

/// The text of the status line for the clip called `name`.
pub open spec fn note_of(name: Seq<char>) -> Seq<char> {
    "Play "@ + name
}

/// The status lines for `cues[i]` and the following, one after the other.
pub open spec fn notes_from(cues: Seq<Seq<char>>, i: int, rows: u16) -> Result<
    Seq<CommandView>,
    LayoutError,
>
    decreases cues.len() - i,
{
    if i < 0 || i >= cues.len() {
        Ok(Seq::empty())
    } else {
        match info_commands(note_of(cues[i]), rows) {
            Err(e) => Err(e),
            Ok(note) => match notes_from(cues, i + 1, rows) {
                Err(e) => Err(e),
                Ok(rest) => Ok(note + rest),
            },
        }
    }
}

/// What is to be shown and played after one turn.
#[verifier::ext_equal]
pub ghost struct Shown {
    pub commands: Seq<CommandView>,
    pub cues: Seq<Seq<char>>,
}

/// What one turn leads to: the state of the search afterwards, and what is
/// to be shown and played, or the reason why the screen cannot be drawn.
#[verifier::ext_equal]
pub ghost struct Turn {
    pub after: SearchView,
    pub outcome: Result<Shown, LayoutError>,
}

/// One turn on a terminal of `cols` columns and `rows` rows.
///
/// The screen is cleared and the header drawn. Then the search reacts to
/// the event; for each clip that is to be played a status line follows; and
/// the search is drawn at [`root`] as the active widget. Where the header
/// does not fit the search is not touched. Where a status line or the
/// search does not fit the search has reacted all the same.
pub open spec fn turned(
    model: SearchView,
    event: Event,
    cols: u16,
    rows: u16,
    version: Seq<char>,
) -> Turn {
    match header_commands(cols, version) {
        Err(e) => Turn { after: model, outcome: Err(e) },
        Ok(head) => {
            let handled = Search::handled(model, event);
            Turn {
                after: handled.after,
                outcome: match notes_from(handled.cues, 0, rows) {
                    Err(e) => Err(e),
                    Ok(notes) => match Search::drawn(
                        handled.after,
                        root(),
                        SelectionState::Active,
                    ) {
                        Err(e) => Err(e),
                        Ok(d) => Ok(
                            Shown {
                                commands: seq![CommandView::Clear] + head + notes + d.commands,
                                cues: handled.cues,
                            },
                        ),
                    },
                },
            }
        },
    }
}

/// What the caller is to do after one turn: write the frame to the terminal
/// and play the clips.
pub struct Update {
    pub frame: Frame,
    pub cues: Cues,
}

/// Appends to `frame` the status lines for the clips in `cues`. On failure
/// the frame is left as it was.
fn draw_notes(cues: &Cues, rows: u16, frame: &mut Frame) -> (r: Result<(), LayoutError>)
    ensures
        match notes_from(cues@, 0, rows) {
            Ok(notes) => r is Ok && final(frame)@ == old(frame)@ + notes,
            Err(e) => r == Err::<(), LayoutError>(e) && final(frame)@ == old(frame)@,
        },
{
    let mark = frame.len();
    let mut i: usize = 0;
    while i < cues.len()
        invariant
            i <= cues@.len(),
            mark == old(frame)@.len(),
            mark <= frame@.len(),
            frame@.take(mark as int) == old(frame)@,
            match notes_from(cues@, i as int, rows) {
                Ok(rest) => notes_from(cues@, 0, rows) == Ok::<Seq<CommandView>, LayoutError>(
                    frame@.skip(mark as int) + rest,
                ),
                Err(e) => notes_from(cues@, 0, rows) == Err::<Seq<CommandView>, LayoutError>(e),
            },
        decreases cues@.len() - i,
    {
        let ghost before = frame@;
        let mut text = String::from_str("Play ");
        text.append(cues.get(i).as_str());
        match info(text, rows, frame) {
            Ok(()) => {},
            Err(e) => {
                frame.rewind(mark);
                return Err(e);
            },
        }
        proof {
            let note = info_commands(note_of(cues@[i as int]), rows)->Ok_0;
            assert(frame@.take(mark as int) =~= before.take(mark as int));
            assert(frame@.skip(mark as int) =~= before.skip(mark as int) + note);
            match notes_from(cues@, i + 1, rows) {
                Ok(rest) => {
                    assert(before.skip(mark as int) + (note + rest) =~= frame@.skip(mark as int)
                        + rest);
                },
                Err(e) => {},
            }
        }
        i = i + 1;
    }
    proof {
        assert(frame@.skip(mark as int) + Seq::<CommandView>::empty() =~= frame@.skip(mark as int));
        assert(frame@ =~= frame@.take(mark as int) + frame@.skip(mark as int));
    }
    Ok(())
}

/// Takes one turn: lets `search` react to `event` and draws the screen for
/// a terminal of `cols` columns and `rows` rows into a new frame.
pub fn update(event: Event, search: &mut Search, cols: u16, rows: u16, version: &str) -> (r: Result<
    Update,
    LayoutError,
>)
    ensures
        final(search)@ == turned(old(search)@, event, cols, rows, version@).after,
        match turned(old(search)@, event, cols, rows, version@).outcome {
            Ok(shown) => r matches Ok(u) && u.frame@ == shown.commands && u.cues@ == shown.cues,
            Err(e) => r matches Err(x) && x == e,
        },
{
    let mut frame = Frame::new();
    frame.push(Command::Clear);
    match header(cols, version, &mut frame) {
        Ok(()) => {},
        Err(e) => {
            return Err(e);
        },
    }
    let mut cues = Cues::new();
    search.handle_input(event, &mut cues);
    assert(cues@ =~= Search::handled(old(search)@, event).cues);
    match draw_notes(&cues, rows, &mut frame) {
        Ok(()) => {},
        Err(e) => {
            return Err(e);
        },
    }
    match search.draw(Rect::new(10, 5, 40, 1), SelectionState::Active, &mut frame) {
        Ok(_) => {
            assert(frame@ =~= turned(old(search)@, event, cols, rows, version@).outcome->Ok_0.commands);
            Ok(Update { frame, cues })
        },
        Err(e) => Err(e),
    }
}

} // verus!
