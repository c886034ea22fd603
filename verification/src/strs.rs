//! The glyphs the widgets are drawn with.

use vstd::prelude::*;

verus! {

/// The rule a slider runs along.
pub const RULE: &'static str = "―";

/// The marker at the lower end of a slider's range.
pub const LEFT: &'static str = "┣";

/// The marker at the upper end of a slider's range.
pub const RIGHT: &'static str = "┫";

/// The filling between the two ends of a slider's range.
pub const MID: &'static str = "━";

/// The marker of a slider's single value.
pub const CIRCLE: &'static str = "●";

/// The sign in front of a clip's name.
pub const SPEAKER: &'static str = "♪";

/// The bar that runs down the left side of a clip.
pub const BAR: &'static str = "┃";

/// The branch from the bar to one effect of a clip.
pub const BRANCH: &'static str = "┣";

} // verus!
