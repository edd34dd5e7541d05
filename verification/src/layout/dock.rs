//! Docking a dragged terminal tab onto one side of a pane.
use vstd::prelude::*;
use crate::layout::size::{SplitDirection, SplitRequest, SplitSize};

verus! {

/// The side of the target pane that a dragged tab is dropped on.
#[derive(Clone, Copy, Debug, PartialEq, Eq, Structural)]
pub enum DockSide {
    Left,
    Right,
    Top,
    Bottom,
}

impl DockSide {
    /// The split that puts the moved pane on this side, taking half of the
    /// target pane.
    pub fn split_request(self) -> (request: SplitRequest)
        ensures
            request.direction == (if self == DockSide::Left || self == DockSide::Right {
                SplitDirection::Horizontal
            } else {
                SplitDirection::Vertical
            }),
            request.target_is_second == (self == DockSide::Right || self == DockSide::Bottom),
            !request.top_level,
            request.size == SplitSize::Percent(50),
    {
        SplitRequest {
            direction: match self {
                DockSide::Left | DockSide::Right => SplitDirection::Horizontal,
                DockSide::Top | DockSide::Bottom => SplitDirection::Vertical,
            },
            target_is_second: match self {
                DockSide::Right | DockSide::Bottom => true,
                _ => false,
            },
            top_level: false,
            size: SplitSize::Percent(50),
        }
    }
}

} // verus!
