//! The colours of the banner.
//!
//! The banner is coloured with ANSI escape sequences where the console takes
//! them, and plain where it does not.

use vstd::prelude::*;

verus! {

/// The mathematical value of a `Palette`.
pub struct PaletteV {
    pub title: Seq<char>,
    pub version: Seq<char>,
    pub author: Seq<char>,
    pub reset: Seq<char>,
}

/// The escape sequences that colour the banner; all empty for no colour.
#[derive(Debug, PartialEq, Eq)]
pub struct Palette {
    /// Before the title: bold red.
    pub title: String,
    /// Before the version: yellow.
    pub version: String,
    /// Before the author: cyan.
    pub author: String,
    /// After each of them: back to normal.
    pub reset: String,
}

impl View for Palette {
    type V = PaletteV;

    open spec fn view(&self) -> PaletteV {
        PaletteV {
            title: self.title@,
            version: self.version@,
            author: self.author@,
            reset: self.reset@,
        }
    }
}

/// The palette for a console that takes escape sequences, or not.
pub open spec fn palette_for(ansi: bool) -> PaletteV {
    if ansi {
        PaletteV {
            title: "\x1B[1;31m"@,
            version: "\x1B[33m"@,
            author: "\x1B[36m"@,
            reset: "\x1B[0m"@,
        }
    } else {
        PaletteV { title: ""@, version: ""@, author: ""@, reset: ""@ }
    }
}

/// The palette for a console that takes escape sequences, or not.
pub fn palette(ansi: bool) -> (out: Palette)
    ensures
        out@ == palette_for(ansi),
{
    if ansi {
        Palette {
            title: String::from_str("\x1B[1;31m"),
            version: String::from_str("\x1B[33m"),
            author: String::from_str("\x1B[36m"),
            reset: String::from_str("\x1B[0m"),
        }
    } else {
        Palette {
            title: String::from_str(""),
            version: String::from_str(""),
            author: String::from_str(""),
            reset: String::from_str(""),
        }
    }
}

/// Asks the console to take ANSI escape sequences, through
/// `enable_ansi_support::enable_ansi_support`, and says whether it agreed.
/// The answer depends on the console, so nothing is promised of it.
#[verifier::external_body]
fn console_takes_ansi() -> (agreed: bool) {
    enable_ansi_support::enable_ansi_support().is_ok()
}

/// The palette for the console that the program runs in: coloured where
/// the console agrees to take escape sequences, plain where it does not.
pub fn detect_palette() -> (out: Palette)
    ensures
        out@ == palette_for(true) || out@ == palette_for(false),
{
    palette(console_takes_ansi())
}

} // verus!
