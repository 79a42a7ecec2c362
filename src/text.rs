//! Styling of subtitle cues.
use vstd::prelude::*;

verus! {

/// Where a cue sits on the picture, as on a numeric keypad.
#[derive(Clone, Copy, Debug, PartialEq, Eq, Structural)]
pub enum TextAlign {
    TopLeft,
    Top,
    TopRight,
    MidLeft,
    Mid,
    MidRight,
    BotLeft,
    Bot,
    BotRight,
}

/// Which of a cue's colours a setting applies to.
#[derive(Clone, Copy, Debug, PartialEq, Eq, Structural)]
pub enum ColorType {
    Primary,
    Karaoke,
    Outline,
    Shadow,
}

/// A colour, as `0xBBGGRR`, for one of a cue's colours.
#[derive(Clone, Copy, Debug, PartialEq, Eq, Structural)]
pub struct TextFill(pub ColorType, pub u32);

/// A transparency, 0 opaque to 255 clear, for one of a cue's colours.
#[derive(Clone, Copy, Debug, PartialEq, Eq, Structural)]
pub struct TextAlpha(pub ColorType, pub u8);

} // verus!
