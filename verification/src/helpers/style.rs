//! The look that goes with each emphasis.

use vstd::prelude::*;

use crate::frame::{CommandView, Style, Styled};
use crate::helpers::SelectionState;

verus! {

/// The style for an emphasis: green for the active widget, yellow for a
/// selected one, the default look otherwise.
pub open spec fn style_of(state: SelectionState) -> Style {
    match state {
        SelectionState::Active => Style::Green,
        SelectionState::Selected => Style::Yellow,
        SelectionState::Normal => Style::Plain,
    }
}

/// Text that can be given the look of an emphasis.
pub trait StateStyle {
    /// The characters of the text.
    spec fn chars(&self) -> Seq<char>;

    /// The text in the style of `state`.
    fn state(&self, state: SelectionState) -> (r: Styled)
        ensures
            r@ == (CommandView::Print { text: self.chars(), style: style_of(state) }),
    ;
}

impl StateStyle for String {
    open spec fn chars(&self) -> Seq<char> {
        self@
    }

    fn state(&self, state: SelectionState) -> (r: Styled) {
        let style = match state {
            SelectionState::Active => Style::Green,
            SelectionState::Selected => Style::Yellow,
            SelectionState::Normal => Style::Plain,
        };
        Styled { text: self.clone(), style }
    }
}

impl StateStyle for &str {
    open spec fn chars(&self) -> Seq<char> {
        self@
    }

    fn state(&self, state: SelectionState) -> (r: Styled) {
        String::from_str(*self).state(state)
    }
}

} // verus!
