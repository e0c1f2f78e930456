//! Highlighting of the focused panel.

use vstd::prelude::*;

verus! {

/// The two highlight colors panels are drawn in.
#[derive(Clone, Copy, PartialEq, Eq, Structural, Debug)]
pub enum UiColor {
    Green,
    LightMagenta,
}

/// How a panel's frame is drawn.
#[derive(Clone, Copy, PartialEq, Eq, Structural, Debug)]
pub struct UiStyle {
    pub fg: UiColor,
}

/// The style of an unfocused panel.
pub fn default_style() -> (r: UiStyle)
    ensures
        r == (UiStyle { fg: UiColor::LightMagenta }),
{
    UiStyle { fg: UiColor::LightMagenta }
}

/// The style of the focused panel.
pub fn active_style() -> (r: UiStyle)
    ensures
        r == (UiStyle { fg: UiColor::Green }),
{
    UiStyle { fg: UiColor::Green }
}

/// The style a panel is drawn in, depending on whether it is focused.
pub fn style(active: bool) -> (r: UiStyle)
    ensures
        r == if active {
            (UiStyle { fg: UiColor::Green })
        } else {
            (UiStyle { fg: UiColor::LightMagenta })
        },
{
    if active {
        active_style()
    } else {
        default_style()
    }
}

} // verus!
