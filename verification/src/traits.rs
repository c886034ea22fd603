//! What every widget can do: draw itself and react to input.

use vstd::prelude::*;

use crate::children::Child;
use crate::cues::Cues;
use crate::frame::{write_within, CommandView, Frame};
use crate::helpers::action::Event;
use crate::helpers::{LayoutError, Rect, SelectionState};

verus! {

/// What one draw call yields: the rectangle the widget consumed and the
/// commands that show it.
#[verifier::ext_equal]
pub ghost struct Drawn {
    pub rect: Rect,
    pub commands: Seq<CommandView>,
}

/// The command does not put the cursor on a row above `row`.
pub open spec fn stays_below(command: CommandView, row: int) -> bool {
    match command {
        CommandView::MoveTo { x, y } => y >= row,
        _ => true,
    }
}

/// No command of `commands` puts the cursor on a row above `row`.
pub open spec fn keep_below(commands: Seq<CommandView>, row: int) -> bool {
    forall|k: int| 0 <= k < commands.len() ==> stays_below(#[trigger] commands[k], row)
}

/// Commands that keep below a row keep below every row above it.
pub proof fn lemma_keep_below_higher(commands: Seq<CommandView>, row: int, higher: int)
    requires
        keep_below(commands, row),
        higher <= row,
    ensures
        keep_below(commands, higher),
{
    assert forall|k: int| 0 <= k < commands.len() implies stays_below(
        #[trigger] commands[k],
        higher,
    ) by {
        assert(stays_below(commands[k], row));
    }
}

/// Two lists of commands that keep below a row do so one after the other.
pub proof fn lemma_keep_below_both(first: Seq<CommandView>, second: Seq<CommandView>, row: int)
    requires
        keep_below(first, row),
        keep_below(second, row),
    ensures
        keep_below(first + second, row),
{
    assert forall|k: int| 0 <= k < (first + second).len() implies stays_below(
        #[trigger] (first + second)[k],
        row,
    ) by {
        if k < first.len() {
            assert(stays_below(first[k], row));
        } else {
            assert(stays_below(second[k - first.len()], row));
        }
    }
}

/// What one input event leads to: the widget's state afterwards, the event
/// handed back if the widget did not claim it, and the clips to play.
#[verifier::ext_equal]
pub ghost struct Handled<V> {
    pub after: V,
    pub reply: Option<Event>,
    pub cues: Seq<Seq<char>>,
}

/// A widget that can be drawn.
///
/// Drawing is a function of the widget's state, the rectangle it is asked to
/// draw at and the emphasis its parent gives it; [`Draw::drawn`] is that
/// function.
pub trait Draw: View {
    /// What drawing a widget in state `model` at `rect` with emphasis `state`
    /// yields, or the reason why it does not fit on the grid.
    spec fn drawn(model: Self::V, rect: Rect, state: SelectionState) -> Result<Drawn, LayoutError>;

    /// A widget starts on the row it was asked to draw at: the consumed
    /// rectangle starts on that row, and the widget's commands put the
    /// cursor on no row above it.
    proof fn lemma_drawn_from_row(model: Self::V, rect: Rect, state: SelectionState)
        ensures
            Self::drawn(model, rect, state) matches Ok(d) ==> d.rect.y == rect.y && keep_below(
                d.commands,
                rect.y as int,
            ),
    ;

    /// A widget that is asked to draw at a rectangle of at least one row
    /// writes on no row but those of the rectangle it reports.
    proof fn lemma_drawn_within(model: Self::V, rect: Rect, state: SelectionState)
        requires
            rect.height >= 1,
        ensures
            Self::drawn(model, rect, state) matches Ok(d) ==> write_within(
                d.commands,
                None,
                rect.y as int,
                d.rect.bottom(),
            ),
    ;

    /// Appends the widget's commands to `frame` and returns the rectangle it
    /// consumed. On failure the frame is left as it was.
    fn draw(&self, rect: Rect, state: SelectionState, frame: &mut Frame) -> (r: Result<
        Rect,
        LayoutError,
    >)
        ensures
            match Self::drawn(self@, rect, state) {
                Ok(d) => r == Ok::<Rect, LayoutError>(d.rect) && final(frame)@ == old(frame)@
                    + d.commands,
                Err(e) => r == Err::<Rect, LayoutError>(e) && final(frame)@ == old(frame)@,
            },
    ;
}

/// A widget that reacts to input.
///
/// Handling an event is a function of the widget's state and the event;
/// [`Input::handled`] is that function.
pub trait Input: View {
    /// What the event `event` leads to for a widget in state `model`.
    spec fn handled(model: Self::V, event: Event) -> Handled<Self::V>;

    /// A widget either claims an event or hands back that very event.
    proof fn lemma_reply(model: Self::V, event: Event)
        ensures
            Self::handled(model, event).reply matches Some(e) ==> e == event,
    ;

    /// Lets the widget react to `event`. Returns `None` if the widget claimed
    /// the event and the event itself if it did not. Clips that are to be
    /// played are added to `cues`.
    fn handle_input(&mut self, event: Event, cues: &mut Cues) -> (r: Option<Event>)
        ensures
            final(self)@ == Self::handled(old(self)@, event).after,
            r == Self::handled(old(self)@, event).reply,
            final(cues)@ == old(cues)@ + Self::handled(old(self)@, event).cues,
    ;
}

/// A named sound effect control.
pub trait Effect: Child {
    /// The characters of the effect's name.
    spec fn title() -> Seq<char>;

    /// The effect's name.
    fn name(&self) -> (r: String)
        ensures
            r@ == Self::title(),
    ;
}

} // verus!
