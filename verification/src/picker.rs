//! The RGB picker: three 8-bit channels edited one at a time.
use vstd::prelude::*;
use crate::color::Rgb;

verus! {

/// What the picker panel reports.
#[derive(Debug, Clone, Copy, PartialEq, Eq, Structural)]
pub enum PickerMessage {
    RedChanged(u8),
    GreenChanged(u8),
    BlueChanged(u8),
    Confirm,
    Cancel,
    CopyHex,
}

/// The color being picked, channel by channel.
#[derive(Debug, Clone, Copy, PartialEq, Eq, Structural)]
pub struct ColorPickerState {
    pub r: u8,
    pub g: u8,
    pub b: u8,
}

/// The color of the picker state.
pub open spec fn picker_color(p: ColorPickerState) -> Rgb {
    Rgb { r: p.r, g: p.g, b: p.b }
}

/// The picker color after `msg`: a channel message sets that channel, the
/// others leave the color as it is.
pub open spec fn picker_step(c: Rgb, msg: PickerMessage) -> Rgb {
    match msg {
        PickerMessage::RedChanged(v) => Rgb { r: v, ..c },
        PickerMessage::GreenChanged(v) => Rgb { g: v, ..c },
        PickerMessage::BlueChanged(v) => Rgb { b: v, ..c },
        _ => c,
    }
}

impl ColorPickerState {
    /// A picker showing `c`.
    pub fn from_rgb(c: Rgb) -> (p: ColorPickerState)
        ensures
            picker_color(p) == c,
    {
        ColorPickerState { r: c.r, g: c.g, b: c.b }
    }

    /// The picked color.
    pub fn to_rgb(&self) -> (c: Rgb)
        ensures
            c == picker_color(*self),
    {
        Rgb { r: self.r, g: self.g, b: self.b }
    }

    /// Applies a picker message: a channel message sets that channel.
    pub fn update(&mut self, msg: &PickerMessage)
        ensures
            picker_color(*final(self)) == picker_step(picker_color(*old(self)), *msg),
            match *msg {
                PickerMessage::RedChanged(v) => final(self).r == v && final(self).g == old(self).g
                    && final(self).b == old(self).b,
                PickerMessage::GreenChanged(v) => final(self).r == old(self).r && final(self).g
                    == v && final(self).b == old(self).b,
                PickerMessage::BlueChanged(v) => final(self).r == old(self).r && final(self).g
                    == old(self).g && final(self).b == v,
                _ => *final(self) == *old(self),
            },
    {
        match msg {
            PickerMessage::RedChanged(v) => self.r = *v,
            PickerMessage::GreenChanged(v) => self.g = *v,
            PickerMessage::BlueChanged(v) => self.b = *v,
            PickerMessage::Confirm | PickerMessage::Cancel | PickerMessage::CopyHex => {},
        }
    }
}

/// Law: a channel message sets that channel to its value, whatever it was,
/// and keeps the other two; the other messages keep the color.
pub proof fn lemma_picker_channels(c: Rgb, v: u8, msg: PickerMessage)
    ensures
        picker_step(c, PickerMessage::RedChanged(v)) == (Rgb { r: v, g: c.g, b: c.b }),
        picker_step(c, PickerMessage::GreenChanged(v)) == (Rgb { r: c.r, g: v, b: c.b }),
        picker_step(c, PickerMessage::BlueChanged(v)) == (Rgb { r: c.r, g: c.g, b: v }),
        !(msg is RedChanged || msg is GreenChanged || msg is BlueChanged) ==> picker_step(c, msg)
            == c,
{
}

} // verus!
