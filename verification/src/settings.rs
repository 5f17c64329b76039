//! User-adjustable view settings.

use vstd::prelude::*;

verus! {

/// How deep past the current room the view renders, and which decorations
/// are drawn.
pub struct Settings {
    pub depth: u8,
    pub draw_room_names: bool,
    pub debug_show_room_origins: bool,
}

impl Default for Settings {
    /// Two rooms of exploration depth, room names on, debug markers off.
    fn default() -> (s: Self)
        ensures
            s.depth == 2,
            s.draw_room_names,
            !s.debug_show_room_origins,
    {
        Settings { depth: 2, draw_room_names: true, debug_show_room_origins: false }
    }
}

} // verus!
