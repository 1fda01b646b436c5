//! Color samples: one RGB triple per sampling round, with the channel-wise
//! blending operation shared by both fillers.

use vstd::prelude::*;

verus! {

/// One RGB color, derived from one round of three scalar metric reads.
/// Each channel is an 8-bit value; truncation to this range happens at the
/// sampling edge, before a `ColorSample` is formed.
#[derive(Clone, Copy, Debug, PartialEq, Eq, Structural)]
pub struct ColorSample {
    pub red: u8,
    pub green: u8,
    pub blue: u8,
}

impl ColorSample {
    /// The all-zero (black) color that a fresh canvas is filled with.
    pub open spec fn spec_zero() -> ColorSample {
        ColorSample { red: 0, green: 0, blue: 0 }
    }

    /// Channel-wise arithmetic mean, truncated (floored) per channel.
    pub open spec fn spec_blend(a: ColorSample, b: ColorSample) -> ColorSample {
        ColorSample {
            red: ((a.red + b.red) / 2) as u8,
            green: ((a.green + b.green) / 2) as u8,
            blue: ((a.blue + b.blue) / 2) as u8,
        }
    }

    pub fn new(red: u8, green: u8, blue: u8) -> (c: ColorSample)
        ensures
            c == (ColorSample { red, green, blue }),
    {
        ColorSample { red, green, blue }
    }

    pub fn zero() -> (c: ColorSample)
        ensures
            c == ColorSample::spec_zero(),
    {
        ColorSample { red: 0, green: 0, blue: 0 }
    }

    /// Blend two colors: the channel-wise mean, each channel floored.
    pub fn blend(a: ColorSample, b: ColorSample) -> (c: ColorSample)
        ensures
            c == ColorSample::spec_blend(a, b),
    {
        ColorSample {
            red: ((a.red as u16 + b.red as u16) / 2) as u8,
            green: ((a.green as u16 + b.green as u16) / 2) as u8,
            blue: ((a.blue as u16 + b.blue as u16) / 2) as u8,
        }
    }
}

} // verus!
