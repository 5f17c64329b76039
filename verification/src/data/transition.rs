//! A doorway out of a room, and the orientation class of its name.

use vstd::prelude::*;

use crate::data::COORD_LIMIT;
use crate::text::spec_starts_with;
use crate::text::spec_transition_info;
use crate::text::str_starts_with;
use crate::text::transition_info;

verus! {

/// A transition at a local room position (milli-units), optionally carrying
/// the vanilla destination's qualified id.
pub struct Transition {
    pub to: Option<String>,
    pub x: i64,
    pub y: i64,
}

impl Transition {
    pub open spec fn wf(self) -> bool {
        &&& -COORD_LIMIT <= self.x <= COORD_LIMIT
        &&& -COORD_LIMIT <= self.y <= COORD_LIMIT
    }

    /// Splits a qualified id `"<room>[<name>]"` into room id and transition
    /// name; `None` when the id contains no `'['`.
    pub fn get_transition_info(transition: &str) -> (r: Option<(String, String)>)
        ensures
            match r {
                Some(p) => spec_transition_info(transition@) == Some((p.0@, p.1@)),
                None => spec_transition_info(transition@) is None,
            },
    {
        transition_info(transition)
    }
}

/// The orientation class a transition name's prefix selects.  Alignment
/// forces treat opposite-facing horizontal and vertical doorways specially.
#[derive(Clone, Copy, Debug, PartialEq, Eq, Structural)]
pub enum DoorClass {
    Rightward,
    Leftward,
    Upward,
    Downward,
    Doorway,
    Other,
}

/// The class of a transition name, decided by its prefix.
pub open spec fn spec_door_class(name: Seq<char>) -> DoorClass {
    if spec_starts_with(name, "right"@) {
        DoorClass::Rightward
    } else if spec_starts_with(name, "left"@) {
        DoorClass::Leftward
    } else if spec_starts_with(name, "top"@) {
        DoorClass::Upward
    } else if spec_starts_with(name, "bot"@) {
        DoorClass::Downward
    } else if spec_starts_with(name, "door"@) || spec_starts_with(name, "room"@) {
        DoorClass::Doorway
    } else {
        DoorClass::Other
    }
}

/// Classifies a transition name by its prefix.
pub fn door_class_of(name: &str) -> (c: DoorClass)
    ensures
        c == spec_door_class(name@),
{
    if str_starts_with(name, "right") {
        DoorClass::Rightward
    } else if str_starts_with(name, "left") {
        DoorClass::Leftward
    } else if str_starts_with(name, "top") {
        DoorClass::Upward
    } else if str_starts_with(name, "bot") {
        DoorClass::Downward
    } else if str_starts_with(name, "door") || str_starts_with(name, "room") {
        DoorClass::Doorway
    } else {
        DoorClass::Other
    }
}

} // verus!
