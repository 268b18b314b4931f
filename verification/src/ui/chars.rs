//! The characters that a frame is drawn with.

use vstd::prelude::*;

verus! {

/// The characters of a frame: corners, bars, tees and the crossing.
#[derive(Debug, Clone, Copy, PartialEq, Eq, Structural)]
pub struct Chars {
    pub corner_top_left: char,
    pub corner_top_right: char,
    pub corner_bottom_left: char,
    pub corner_bottom_right: char,
    pub bar_horizontal: char,
    pub bar_vertical: char,
    pub tee_north: char,
    pub tee_south: char,
    pub tee_west: char,
    pub tee_east: char,
    pub intersection: char,
}

/// The frame in box-drawing characters.
pub open spec fn box_frame() -> Chars {
    Chars {
        corner_top_left: '\u{250c}',
        corner_top_right: '\u{2510}',
        corner_bottom_left: '\u{2514}',
        corner_bottom_right: '\u{2518}',
        bar_horizontal: '\u{2500}',
        bar_vertical: '\u{2502}',
        tee_north: '\u{252c}',
        tee_south: '\u{2534}',
        tee_west: '\u{251c}',
        tee_east: '\u{2524}',
        intersection: '\u{253c}',
    }
}

/// The frame in characters that every terminal has.
pub open spec fn ascii_frame() -> Chars {
    Chars {
        corner_top_left: '/',
        corner_top_right: '\\',
        corner_bottom_left: '\\',
        corner_bottom_right: '/',
        bar_horizontal: '-',
        bar_vertical: '|',
        tee_north: '+',
        tee_south: '+',
        tee_west: '+',
        tee_east: '+',
        intersection: '+',
    }
}

impl Chars {
    /// The frame in box-drawing characters.
    pub fn boxed() -> (chars: Chars)
        ensures
            chars == box_frame(),
    {
        Chars {
            corner_top_left: '\u{250c}',
            corner_top_right: '\u{2510}',
            corner_bottom_left: '\u{2514}',
            corner_bottom_right: '\u{2518}',
            bar_horizontal: '\u{2500}',
            bar_vertical: '\u{2502}',
            tee_north: '\u{252c}',
            tee_south: '\u{2534}',
            tee_west: '\u{251c}',
            tee_east: '\u{2524}',
            intersection: '\u{253c}',
        }
    }

    /// The frame in characters that every terminal has.
    pub fn ascii() -> (chars: Chars)
        ensures
            chars == ascii_frame(),
    {
        Chars {
            corner_top_left: '/',
            corner_top_right: '\\',
            corner_bottom_left: '\\',
            corner_bottom_right: '/',
            bar_horizontal: '-',
            bar_vertical: '|',
            tee_north: '+',
            tee_south: '+',
            tee_west: '+',
            tee_east: '+',
            intersection: '+',
        }
    }

    /// The frame for a terminal: in box-drawing characters where it can show
    /// them.
    pub fn for_terminal(unicode: bool) -> (chars: Chars)
        ensures
            chars == if unicode {
                box_frame()
            } else {
                ascii_frame()
            },
    {
        if unicode {
            Chars::boxed()
        } else {
            Chars::ascii()
        }
    }
}

} // verus!
