//! A slider: a parameter that is either a range or a single value.
//!
//! Parameters are fixed-point numbers: [`UNIT`] stands for 1.0, so 300 is
//! 0.3. Arithmetic on them saturates at the bounds of `i32`.

use vstd::prelude::*;

use crate::cues::Cues;
use crate::frame::{lemma_write_within_then, write_within, CommandView, Frame, Style};
use crate::helpers::action::{Action, Event, IsEvent};
use crate::helpers::{repeated, HorizontalRepeat, LayoutError, Rect, SelectionState};
use crate::strs;
use crate::traits::{Draw, Drawn, Handled, Input};

verus! {

/// The parameter value that stands for 1.0.
pub const UNIT: i32 = 1000;

/// How far one step to the right moves a parameter: 0.1.
pub const STEP: i32 = 100;

/// How far the two ends of a range lie from the value it is made from: 0.1.
pub const SPREAD: i32 = 100;

/// The number of cells per 1.0 of a parameter.
pub const SCALE: i32 = 10;

/// What a slider holds.
#[derive(Clone, Copy, Debug, PartialEq, Eq, Structural)]
pub enum SliderState {
    /// A range, from its lower to its upper end.
    MinMax(i32, i32),
    /// A single value.
    Value(i32),
}

/// `v`, or the bound of `i32` that it lies beyond.
pub open spec fn clamped(v: int) -> i32 {
    if v < i32::MIN {
        i32::MIN
    } else if v > i32::MAX {
        i32::MAX
    } else {
        v as i32
    }
}

/// The parameter halfway between `min` and `max`, rounded down.
pub open spec fn midpoint(min: i32, max: i32) -> i32 {
    ((min + max) / 2) as i32
}

/// The state after a step to the right: every parameter grows by [`STEP`].
pub open spec fn stepped(state: SliderState) -> SliderState {
    match state {
        SliderState::MinMax(min, max) => SliderState::MinMax(
            clamped(min + STEP),
            clamped(max + STEP),
        ),
        SliderState::Value(value) => SliderState::Value(clamped(value + STEP)),
    }
}

/// The state after a toggle: a range collapses to the value at its
/// midpoint, a value expands to the range [`SPREAD`] to either side of it.
pub open spec fn toggled(state: SliderState) -> SliderState {
    match state {
        SliderState::MinMax(min, max) => SliderState::Value(midpoint(min, max)),
        SliderState::Value(value) => SliderState::MinMax(
            clamped(value - SPREAD),
            clamped(value + SPREAD),
        ),
    }
}

/// The column, counted from the slider's origin, at which the marker of
/// parameter `v` stands: `v` times [`SCALE`] cells per [`UNIT`], rounded to
/// the nearest cell, and no less than 0 nor more than `u16::MAX`.
pub open spec fn marker(v: i32) -> u16 {
    let cells = (v * SCALE + UNIT / 2) / (UNIT as int);
    if cells < 0 {
        0
    } else if cells > u16::MAX {
        u16::MAX
    } else {
        cells as u16
    }
}

fn add_clamped(v: i32, d: i32) -> (r: i32)
    ensures
        r == clamped(v + d),
{
    let sum: i64 = v as i64 + d as i64;
    if sum < i32::MIN as i64 {
        i32::MIN
    } else if sum > i32::MAX as i64 {
        i32::MAX
    } else {
        sum as i32
    }
}

fn half_way(min: i32, max: i32) -> (r: i32)
    ensures
        r == midpoint(min, max),
{
    let sum: i64 = min as i64 + max as i64;
    if sum >= 0 {
        (sum / 2) as i32
    } else {
        let up: i64 = (1 - sum) / 2;
        (0 - up) as i32
    }
}

fn marker_of(v: i32) -> (r: u16)
    ensures
        r == marker(v),
{
    assert(-21474836480 <= v * SCALE <= 21474836470) by (nonlinear_arith)
        requires
            SCALE == 10,
            i32::MIN <= v <= i32::MAX,
    ;
    let scaled: i64 = v as i64 * SCALE as i64 + (UNIT / 2) as i64;
    if scaled < 0 {
        0
    } else {
        let cells: i64 = scaled / UNIT as i64;
        if cells > u16::MAX as i64 {
            u16::MAX
        } else {
            cells as u16
        }
    }
}

/// A slider widget.
pub struct Slider {
    state: SliderState,
}

impl View for Slider {
    type V = SliderState;

    closed spec fn view(&self) -> SliderState {
        self.state
    }
}

impl Slider {
    pub fn new(state: SliderState) -> (r: Slider)
        ensures
            r@ == state,
    {
        Slider { state }
    }

    /// What the slider holds.
    pub fn state(&self) -> (r: SliderState)
        ensures
            r == self@,
    {
        self.state
    }
}

/// The commands that put the cursor at the origin of `at` and write `text`
/// there in the default look.
pub open spec fn text_at(at: Rect, text: Seq<char>) -> Seq<CommandView> {
    seq![
        CommandView::MoveTo { x: at.x, y: at.y },
        CommandView::Print { text, style: Style::Plain },
    ]
}

/// A text placed on a row is written on that row, wherever the cursor was.
pub proof fn lemma_text_at_within(
    at: Rect,
    text: Seq<char>,
    row: Option<int>,
    low: int,
    high: int,
)
    requires
        low <= at.y < high,
    ensures
        write_within(text_at(at, text), row, low, high),
{
    let commands = text_at(at, text);
    assert(commands.drop_first() =~= seq![CommandView::Print { text, style: Style::Plain }]);
    assert(commands.drop_first().drop_first() =~= Seq::<CommandView>::empty());
    reveal_with_fuel(write_within, 3);
}

impl Draw for Slider {
    /// A slider is a rule two cells shorter than the rectangle is wide, with
    /// markers on it: one for a value, and for a range one at either end
    /// with a filling between them. It consumes the rectangle it is given.
    ///
    /// It does not fit when the rectangle is narrower than two cells, when a
    /// marker lies beyond the rectangle, or when the upper end of a range
    /// does not stand right of the lower end.
    open spec fn drawn(model: SliderState, rect: Rect, state: SelectionState) -> Result<
        Drawn,
        LayoutError,
    > {
        if rect.width < 2 {
            Err(LayoutError::Underflow)
        } else {
            let rule = text_at(rect, repeated(strs::RULE@, (rect.width - 2) as nat));
            match model {
                SliderState::Value(value) => match rect.spec_right_n(marker(value)) {
                    Err(e) => Err(e),
                    Ok(at) => Ok(Drawn { rect, commands: rule + text_at(at, strs::CIRCLE@) }),
                },
                SliderState::MinMax(min, max) => match rect.spec_right_n(marker(min)) {
                    Err(e) => Err(e),
                    Ok(low) => match rect.spec_right_n(marker(max)) {
                        Err(e) => Err(e),
                        Ok(high) => match low.spec_right() {
                            Err(e) => Err(e),
                            Ok(fill) => if high.x <= low.x {
                                Err(LayoutError::Underflow)
                            } else {
                                Ok(
                                    Drawn {
                                        rect,
                                        commands: rule + text_at(low, strs::LEFT@) + text_at(
                                            high,
                                            strs::RIGHT@,
                                        ) + text_at(
                                            fill,
                                            repeated(strs::MID@, (high.x - low.x - 1) as nat),
                                        ),
                                    },
                                )
                            },
                        },
                    },
                },
            }
        }
    }

    proof fn lemma_drawn_from_row(model: SliderState, rect: Rect, state: SelectionState) {
    }

    proof fn lemma_drawn_within(model: SliderState, rect: Rect, state: SelectionState) {
        if Self::drawn(model, rect, state) is Ok {
            let low = rect.y as int;
            let high = rect.bottom();
            let rule = text_at(rect, repeated(strs::RULE@, (rect.width - 2) as nat));
            lemma_text_at_within(rect, repeated(strs::RULE@, (rect.width - 2) as nat), None, low, high);
            match model {
                SliderState::Value(value) => {
                    let at = rect.spec_right_n(marker(value))->Ok_0;
                    lemma_text_at_within(at, strs::CIRCLE@, None, low, high);
                    lemma_write_within_then(rule, text_at(at, strs::CIRCLE@), None, low, high);
                },
                SliderState::MinMax(min, max) => {
                    let lower = rect.spec_right_n(marker(min))->Ok_0;
                    let upper = rect.spec_right_n(marker(max))->Ok_0;
                    let fill = lower.spec_right()->Ok_0;
                    let filling = repeated(strs::MID@, (upper.x - lower.x - 1) as nat);
                    lemma_text_at_within(lower, strs::LEFT@, None, low, high);
                    lemma_text_at_within(upper, strs::RIGHT@, None, low, high);
                    lemma_text_at_within(fill, filling, None, low, high);
                    lemma_write_within_then(rule, text_at(lower, strs::LEFT@), None, low, high);
                    lemma_write_within_then(
                        rule + text_at(lower, strs::LEFT@),
                        text_at(upper, strs::RIGHT@),
                        None,
                        low,
                        high,
                    );
                    lemma_write_within_then(
                        rule + text_at(lower, strs::LEFT@) + text_at(upper, strs::RIGHT@),
                        text_at(fill, filling),
                        None,
                        low,
                        high,
                    );
                },
            }
        }
    }

    fn draw(&self, rect: Rect, state: SelectionState, frame: &mut Frame) -> (r: Result<
        Rect,
        LayoutError,
    >) {
        if rect.width < 2 {
            return Err(LayoutError::Underflow);
        }
        match self.state {
            SliderState::Value(value) => {
                let at = match rect.right_n(marker_of(value)) {
                    Ok(at) => at,
                    Err(e) => {
                        return Err(e);
                    },
                };
                frame.push(rect.pos());
                strs::RULE.h_repeat(rect.width - 2, frame);
                frame.push(at.pos());
                frame.print(strs::CIRCLE);
                assert(frame@ =~= old(frame)@ + Self::drawn(self@, rect, state)->Ok_0.commands);
                Ok(rect)
            },
            SliderState::MinMax(min, max) => {
                let low = match rect.right_n(marker_of(min)) {
                    Ok(low) => low,
                    Err(e) => {
                        return Err(e);
                    },
                };
                let high = match rect.right_n(marker_of(max)) {
                    Ok(high) => high,
                    Err(e) => {
                        return Err(e);
                    },
                };
                let fill = match low.right() {
                    Ok(fill) => fill,
                    Err(e) => {
                        return Err(e);
                    },
                };
                if high.x <= low.x {
                    return Err(LayoutError::Underflow);
                }
                frame.push(rect.pos());
                strs::RULE.h_repeat(rect.width - 2, frame);
                frame.push(low.pos());
                frame.print(strs::LEFT);
                frame.push(high.pos());
                frame.print(strs::RIGHT);
                frame.push(fill.pos());
                strs::MID.h_repeat(high.x - low.x - 1, frame);
                assert(frame@ =~= old(frame)@ + Self::drawn(self@, rect, state)->Ok_0.commands);
                Ok(rect)
            },
        }
    }
}

impl Input for Slider {
    /// A step to the right and a toggle change the slider and are claimed;
    /// every other event is handed back and changes nothing.
    open spec fn handled(model: SliderState, event: Event) -> Handled<SliderState> {
        if event.stands_for(Action::Right) {
            Handled { after: stepped(model), reply: None, cues: Seq::empty() }
        } else if event.stands_for(Action::Toggle) {
            Handled { after: toggled(model), reply: None, cues: Seq::empty() }
        } else {
            Handled { after: model, reply: Some(event), cues: Seq::empty() }
        }
    }

    proof fn lemma_reply(model: SliderState, event: Event) {
    }

    fn handle_input(&mut self, event: Event, cues: &mut Cues) -> (r: Option<Event>) {
        assert(cues@ + Seq::<Seq<char>>::empty() =~= cues@);
        if event.is(Action::Right) {
            self.state = match self.state {
                SliderState::MinMax(min, max) => SliderState::MinMax(
                    add_clamped(min, STEP),
                    add_clamped(max, STEP),
                ),
                SliderState::Value(value) => SliderState::Value(add_clamped(value, STEP)),
            };
            return None;
        }
        if event.is(Action::Toggle) {
            self.state = match self.state {
                SliderState::MinMax(min, max) => SliderState::Value(half_way(min, max)),
                SliderState::Value(value) => SliderState::MinMax(
                    add_clamped(value, 0 - SPREAD),
                    add_clamped(value, SPREAD),
                ),
            };
            return None;
        }
        Some(event)
    }
}

/// Toggling a range twice gives the range [`SPREAD`] to either side of its
/// midpoint, whatever its ends were.
pub proof fn lemma_toggle_twice(min: i32, max: i32)
    ensures
        toggled(toggled(SliderState::MinMax(min, max))) == SliderState::MinMax(
            clamped(midpoint(min, max) - SPREAD),
            clamped(midpoint(min, max) + SPREAD),
        ),
{
}

/// Toggling a range twice gives the range back exactly when its ends lie
/// twice [`SPREAD`] apart. The one range of which this does not hold is the
/// one from the least parameter to 199 above it: its midpoint lies so low
/// that the new lower end is cut off at the old one.
pub proof fn lemma_toggle_twice_round_trip(min: i32, max: i32)
    requires
        !(min == i32::MIN && max == i32::MIN + 199),
    ensures
        toggled(toggled(SliderState::MinMax(min, max))) == SliderState::MinMax(min, max) <==> max
            - min == 2 * SPREAD,
{
}

/// Toggling a value twice gives the value back exactly when no end of the
/// range in between is cut off at a bound of `i32` so that the midpoint
/// moves: for every value from 99 above the least parameter to 100 below
/// the greatest.
pub proof fn lemma_toggle_value_twice(value: i32)
    ensures
        toggled(toggled(SliderState::Value(value))) == SliderState::Value(value) <==> i32::MIN + 99
            <= value <= i32::MAX - 100,
{
}

/// The markers of a range that was made from a value stand two cells apart,
/// one to either side of the value's own marker, wherever the value is a
/// whole number of cells.
pub proof fn lemma_markers_of_toggled_value(cell: int)
    requires
        1 <= cell < u16::MAX,
    ensures
        ({
            let value = (cell * (UNIT / SCALE)) as i32;
            toggled(SliderState::Value(value)) matches SliderState::MinMax(min, max) && marker(min)
                == cell - 1 && marker(value) == cell && marker(max) == cell + 1
        }),
{
}

} // verus!
