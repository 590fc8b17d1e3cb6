use vstd::prelude::*;

verus! {

/// One pixel: three colour channels and an alpha channel, eight bits each.
#[derive(Clone, Copy, Debug, PartialEq, Eq, Structural)]
pub struct Pixel {
    pub red: u8,
    pub green: u8,
    pub blue: u8,
    pub alpha: u8,
}

impl Pixel {
    /// Fully transparent black, which stands in for a pixel below the last row.
    pub open spec fn clear() -> Pixel {
        Pixel { red: 0, green: 0, blue: 0, alpha: 0 }
    }

    /// A pixel is painted when its alpha reaches the threshold.
    pub open spec fn visible(self, threshold: u8) -> bool {
        self.alpha >= threshold
    }

    pub fn new(red: u8, green: u8, blue: u8, alpha: u8) -> (p: Pixel)
        ensures
            p == (Pixel { red, green, blue, alpha }),
    {
        Pixel { red, green, blue, alpha }
    }

    pub fn transparent() -> (p: Pixel)
        ensures
            p == Pixel::clear(),
    {
        Pixel { red: 0, green: 0, blue: 0, alpha: 0 }
    }

    pub fn is_visible(&self, threshold: u8) -> (v: bool)
        ensures
            v == self.visible(threshold),
    {
        self.alpha >= threshold
    }
}

/// How the control character that opens each colour sequence is written.
#[derive(Clone, Copy, Debug, PartialEq, Eq, Structural)]
pub enum EscapeStyle {
    /// The control byte itself.
    Literal,
    /// The four printable characters backslash, `x`, `1`, `b`.
    Escaped,
}

impl EscapeStyle {
    /// The style that the flag of the image entry points selects.
    pub open spec fn of_flag(raw: bool) -> EscapeStyle {
        if raw {
            EscapeStyle::Escaped
        } else {
            EscapeStyle::Literal
        }
    }

    pub fn from_raw_flag(raw: bool) -> (style: EscapeStyle)
        ensures
            style == EscapeStyle::of_flag(raw),
    {
        if raw {
            EscapeStyle::Escaped
        } else {
            EscapeStyle::Literal
        }
    }
}

} // verus!
