//! Layout and input routing for a terminal soundboard.
//!
//! A screen is a fixed tree of widgets. Drawing walks the tree once: every
//! widget appends its terminal commands to a [`frame::Frame`] and reports the
//! rectangle it consumed, so that its parent can stack the next sibling below
//! it. Input walks the same tree along the chain of active children until a
//! widget claims the event.
//!
//! Nothing here touches a terminal or an audio device. A frame is a list of
//! commands for the caller to write out, and a request to play a clip is a
//! name handed back to the caller.

pub mod children;
pub mod clip;
pub mod cues;
pub mod frame;
pub mod header;
pub mod helpers;
pub mod info;
pub mod screen;
pub mod search;
pub mod slider;
pub mod strs;
pub mod traits;
pub mod volume;
