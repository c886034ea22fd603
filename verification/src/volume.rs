//! The volume effect: a label with a slider below it.

use vstd::prelude::*;

use crate::children::Child;
use crate::cues::Cues;
use crate::frame::{lemma_write_within_then, lemma_write_within_wider, CommandView, Frame};
use crate::helpers::action::Event;
use crate::helpers::{LayoutError, Rect, SelectionState};
use crate::slider::{lemma_text_at_within, text_at, Slider, SliderState};
use crate::traits::{
    lemma_keep_below_both, lemma_keep_below_higher, Draw, Drawn, Effect, Handled, Input,
};

verus! {

/// The volume of a clip, as a range.
pub struct Volume {
    min_max: Slider,
}

impl View for Volume {
    type V = SliderState;

    closed spec fn view(&self) -> SliderState {
        self.min_max@
    }
}

impl Effect for Volume {
    open spec fn title() -> Seq<char> {
        "Volume"@
    }

    fn name(&self) -> (r: String) {
        String::from_str("Volume")
    }
}

impl Child for Volume {

}

impl Input for Volume {
    /// Every event goes to the slider.
    open spec fn handled(model: SliderState, event: Event) -> Handled<SliderState> {
        Slider::handled(model, event)
    }

    proof fn lemma_reply(model: SliderState, event: Event) {
        Slider::lemma_reply(model, event);
    }

    fn handle_input(&mut self, event: Event, cues: &mut Cues) -> (r: Option<Event>) {
        self.min_max.handle_input(event, cues)
    }
}

impl Draw for Volume {
    /// The label stands at the origin of the rectangle and the slider on the
    /// row below it. The widget consumes the rows of both.
    open spec fn drawn(model: SliderState, rect: Rect, state: SelectionState) -> Result<
        Drawn,
        LayoutError,
    > {
        match rect.spec_down() {
            Err(e) => Err(e),
            Ok(below) => match Slider::drawn(model, below, state) {
                Err(e) => Err(e),
                Ok(slider) => match rect.spec_to(slider.rect) {
                    Err(e) => Err(e),
                    Ok(whole) => Ok(
                        Drawn {
                            rect: whole,
                            commands: text_at(rect, " Volume"@) + slider.commands,
                        },
                    ),
                },
            },
        }
    }

    proof fn lemma_drawn_from_row(model: SliderState, rect: Rect, state: SelectionState) {
        if Self::drawn(model, rect, state) is Ok {
            let below = rect.spec_down()->Ok_0;
            let slider = Slider::drawn(model, below, state)->Ok_0;
            Slider::lemma_drawn_from_row(model, below, state);
            lemma_keep_below_higher(slider.commands, below.y as int, rect.y as int);
            lemma_keep_below_both(text_at(rect, " Volume"@), slider.commands, rect.y as int);
        }
    }

    proof fn lemma_drawn_within(model: SliderState, rect: Rect, state: SelectionState) {
        if Self::drawn(model, rect, state) is Ok {
            let below = rect.spec_down()->Ok_0;
            let slider = Slider::drawn(model, below, state)->Ok_0;
            let whole = rect.spec_to(slider.rect)->Ok_0;
            Slider::lemma_drawn_within(model, below, state);
            lemma_write_within_wider(
                slider.commands,
                None,
                below.y as int,
                slider.rect.bottom(),
                rect.y as int,
                whole.bottom(),
            );
            lemma_text_at_within(rect, " Volume"@, None, rect.y as int, whole.bottom());
            lemma_write_within_then(
                text_at(rect, " Volume"@),
                slider.commands,
                None,
                rect.y as int,
                whole.bottom(),
            );
        }
    }

    fn draw(&self, rect: Rect, state: SelectionState, frame: &mut Frame) -> (r: Result<
        Rect,
        LayoutError,
    >) {
        let mark = frame.len();
        frame.push(rect.pos());
        frame.print(" Volume");
        let ghost labelled = frame@;
        let below = match rect.down() {
            Ok(below) => below,
            Err(e) => {
                frame.rewind(mark);
                assert(frame@ =~= old(frame)@);
                return Err(e);
            },
        };
        let end = match self.min_max.draw(below, state, frame) {
            Ok(end) => end,
            Err(e) => {
                frame.rewind(mark);
                assert(frame@ =~= old(frame)@);
                return Err(e);
            },
        };
        match rect.to(end) {
            Ok(whole) => {
                assert(frame@ =~= old(frame)@ + Self::drawn(self@, rect, state)->Ok_0.commands);
                Ok(whole)
            },
            Err(e) => {
                frame.rewind(mark);
                assert(frame@ =~= old(frame)@);
                Err(e)
            },
        }
    }
}

/// A volume reports a rectangle that starts at the origin it was asked to
/// draw at and is one row higher than the rectangle it was given.
pub proof fn lemma_volume_reports_from_origin(model: SliderState, rect: Rect, state: SelectionState)
    ensures
        Volume::drawn(model, rect, state) matches Ok(d) ==> d.rect.x == rect.x && d.rect.y == rect.y
            && d.rect.height == rect.height + 1,
{
}

impl Volume {
    /// A volume from 0.3 to 0.5.
    pub fn new() -> (r: Volume)
        ensures
            r@ == SliderState::MinMax(300, 500),
    {
        Volume { min_max: Slider::new(SliderState::MinMax(300, 500)) }
    }

    /// What the volume's slider holds.
    pub fn state(&self) -> (r: SliderState)
        ensures
            r == self@,
    {
        self.min_max.state()
    }
}

} // verus!
