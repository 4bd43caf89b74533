//! The colours that the interface gives to statuses and console lines.

use vstd::prelude::*;

verus! {

/// A colour as red, green and blue components.
#[derive(Clone, Copy, PartialEq, Eq, Structural, Debug)]
pub struct Rgb {
    pub r: u8,
    pub g: u8,
    pub b: u8,
}

/// The named colours of the interface's palette that its logic chooses from.
#[derive(Clone, Copy, PartialEq, Eq, Structural, Debug)]
pub enum Shade {
    /// Accent green, also used for finished tasks.
    Accent,
    /// Ordinary text.
    TextNormal,
    /// Secondary text.
    TextDim,
    /// Errors and failed tasks.
    Error,
    /// Warnings and running tasks.
    Warning,
    /// Success lines in the console.
    Success,
    /// Progress lines in the console.
    Dim,
    /// Section headers in the console.
    Section,
    /// Any other console line.
    Default,
}

impl Shade {
    /// The components of each palette colour.
    pub open spec fn value(self) -> Rgb {
        match self {
            Shade::Accent => Rgb { r: 82, g: 196, b: 130 },
            Shade::TextNormal => Rgb { r: 210, g: 215, b: 220 },
            Shade::TextDim => Rgb { r: 120, g: 130, b: 145 },
            Shade::Error => Rgb { r: 230, g: 80, b: 70 },
            Shade::Warning => Rgb { r: 255, g: 180, b: 50 },
            Shade::Success => Rgb { r: 82, g: 196, b: 130 },
            Shade::Dim => Rgb { r: 120, g: 130, b: 145 },
            Shade::Section => Rgb { r: 82, g: 196, b: 130 },
            Shade::Default => Rgb { r: 210, g: 215, b: 220 },
        }
    }

    /// The colour of this palette entry.
    pub fn rgb(self) -> (c: Rgb)
        ensures
            c == self.value(),
    {
        match self {
            Shade::Accent => Rgb { r: 82, g: 196, b: 130 },
            Shade::TextNormal => Rgb { r: 210, g: 215, b: 220 },
            Shade::TextDim => Rgb { r: 120, g: 130, b: 145 },
            Shade::Error => Rgb { r: 230, g: 80, b: 70 },
            Shade::Warning => Rgb { r: 255, g: 180, b: 50 },
            Shade::Success => Rgb { r: 82, g: 196, b: 130 },
            Shade::Dim => Rgb { r: 120, g: 130, b: 145 },
            Shade::Section => Rgb { r: 82, g: 196, b: 130 },
            Shade::Default => Rgb { r: 210, g: 215, b: 220 },
        }
    }
}

} // verus!
