//! The colours of the interface.
use vstd::prelude::*;

verus! {

/// A colour as its red, green and blue parts.
pub type Rgb = (u8, u8, u8);

pub struct Theme {
    pub light_square: Rgb,
    pub dark_square: Rgb,
    pub selection: Rgb,
    pub move_hint: Rgb,
    pub capture_hint: Rgb,
    pub last_move: Rgb,
    pub check: Rgb,
    pub text: Rgb,
    pub background: Rgb,
}

/// The Tokyo Night colours.
pub fn tokio_night_theme() -> (t: Theme)
    ensures
        t.light_square == (46u8, 52u8, 64u8),
        t.dark_square == (59u8, 66u8, 82u8),
        t.selection == (94u8, 129u8, 172u8),
        t.move_hint == (163u8, 190u8, 140u8),
        t.capture_hint == (191u8, 97u8, 106u8),
        t.last_move == (235u8, 203u8, 139u8),
        t.check == (208u8, 135u8, 112u8),
        t.text == (216u8, 222u8, 233u8),
        t.background == (30u8, 31u8, 41u8),
{
    Theme {
        light_square: (46, 52, 64),
        dark_square: (59, 66, 82),
        selection: (94, 129, 172),
        move_hint: (163, 190, 140),
        capture_hint: (191, 97, 106),
        last_move: (235, 203, 139),
        check: (208, 135, 112),
        text: (216, 222, 233),
        background: (30, 31, 41),
    }
}

} // verus!
