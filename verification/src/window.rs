//! Where the window goes when it comes back.

use vstd::prelude::*;
use crate::model::{grabbable, WindowGeometry};

verus! {

/// One screen, in millionths of a logical pixel.
#[derive(Debug, Clone, Copy, PartialEq, Eq, Structural)]
pub struct Screen {
    pub left: i64,
    pub top: i64,
    pub right: i64,
    pub bottom: i64,
}

/// Whether a window would be visible on a screen.
pub open spec fn is_on(g: WindowGeometry, s: Screen) -> bool {
    &&& g.x >= s.left - 1_000_000
    &&& g.y >= s.top - 1_000_000
    &&& grabbable(g, s.right as int, s.bottom as int)
}

/// Would a remembered position still put the window somewhere visible?
///
/// A saved position outlives the display it was saved on, and a window restored
/// onto a monitor that is no longer plugged in looks exactly like the app
/// failing to launch.
///
/// An empty list means nobody has told us about any screens, which is not the
/// same as the window not fitting on one.
pub fn fits_on_a_screen(geometry: &WindowGeometry, screens: &[Screen]) -> (r: bool)
    ensures
        r == (screens@.len() == 0 || exists|i: int|
            0 <= i < screens@.len() && is_on(*geometry, #[trigger] screens@[i])),
{
    if screens.len() == 0 {
        return true;
    }
    let mut i: usize = 0;
    while i < screens.len()
        invariant
            i <= screens@.len(),
            forall|k: int| 0 <= k < i ==> !is_on(*geometry, #[trigger] screens@[k]),
        decreases screens@.len() - i,
    {
        let s = screens[i];
        if geometry.x as i128 >= s.left as i128 - 1_000_000 && geometry.y as i128 >= s.top as i128
            - 1_000_000 && geometry.fits_within(s.right, s.bottom) {
            assert(is_on(*geometry, screens@[i as int]));
            return true;
        }
        i += 1;
    }
    false
}

/// A window is on a screen when it begins no more than a pixel outside its upper
/// left corner and can be grabbed there.
pub proof fn a_window_begins_on_its_screen(g: WindowGeometry, s: Screen)
    ensures
        is_on(g, s) ==> g.x >= s.left - 1_000_000 && g.y >= s.top - 1_000_000 && grabbable(
            g,
            s.right as int,
            s.bottom as int,
        ),
        g.x >= s.left && g.y >= s.top && grabbable(g, s.right as int, s.bottom as int) ==> is_on(
            g,
            s,
        ),
        g.x < s.left - 1_000_000 ==> !is_on(g, s),
        g.y < s.top - 1_000_000 ==> !is_on(g, s),
{
}

} // verus!
