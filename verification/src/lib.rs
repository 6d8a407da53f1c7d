//! Verified model of a 256-entry byte color map editor: a 16x16 grid of
//! byte cells, a range selection made by dragging, an RGB picker that paints
//! the selection, presets, and the tracing of the selection outline.
#![allow(unused_imports)]

use vstd::prelude::*;

pub mod color;
pub mod editor;
pub mod edges;
pub mod grid;
pub mod picker;

pub use color::{ColorMap, Rgb};
pub use editor::{ColorMapEditor, Event, Message, PresetKind};
pub use grid::{GridInteraction, GridMessage};
pub use picker::{ColorPickerState, PickerMessage};

verus! {

} // verus!
