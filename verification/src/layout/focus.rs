//! Which pane of a tab has the focus, and whom a change of focus concerns.
use vstd::prelude::*;
use crate::layout::direction::{extents_fit, moves_focus_to, PaneDirection};
use crate::layout::pane_chrome::{all_panes, shown_panes};
use crate::layout::pane_move::pane_index_of;
use crate::layout::tab::{position_of, resize_defined, unzoomed_layout, TabLayout};
use crate::layout::tree::{coords_fit, leaves};

verus! {

/// The panes that lose and gain the focus.
#[derive(Debug, Clone, Copy, PartialEq, Eq, Structural)]
pub struct FocusChange {
    pub lost: Option<usize>,
    pub gained: Option<usize>,
}

/// Whom a move of the focus from `prior` to `current` concerns: nobody when
/// it stays on one pane.
pub open spec fn focus_change_spec(prior: Option<usize>, current: Option<usize>) -> FocusChange {
    match (prior, current) {
        (Some(p), Some(c)) => if p != c {
            FocusChange { lost: Some(p), gained: Some(c) }
        } else {
            FocusChange { lost: None, gained: None }
        },
        (None, Some(c)) => FocusChange { lost: None, gained: Some(c) },
        (Some(p), None) => FocusChange { lost: Some(p), gained: None },
        (None, None) => FocusChange { lost: None, gained: None },
    }
}

pub fn advise_focus_change(prior: Option<usize>, current: Option<usize>) -> (change: FocusChange)
    ensures
        change == focus_change_spec(prior, current),
{
    match (prior, current) {
        (Some(p), Some(c)) => if p != c {
            FocusChange { lost: Some(p), gained: Some(c) }
        } else {
            FocusChange { lost: None, gained: None }
        },
        (None, Some(c)) => FocusChange { lost: None, gained: Some(c) },
        (Some(p), None) => FocusChange { lost: Some(p), gained: None },
        (None, None) => FocusChange { lost: None, gained: None },
    }
}

/// The tab in which focusing `pane_id` takes place: a zoom ends first.
pub open spec fn focus_base(layout: TabLayout) -> TabLayout {
    if layout.zoomed is Some {
        unzoomed_layout(layout)
    } else {
        layout
    }
}

impl TabLayout {
    /// Focus pane `pane_id`. Focusing the focused pane does nothing, and in a
    /// zoomed tab nothing happens unless `unzoom_on_switch` lets the zoom end
    /// first. Says whom the change of focus concerns.
    pub fn set_active_pane(&mut self, pane_id: usize, unzoom_on_switch: bool) -> (change: FocusChange)
        requires
            old(self).wf(),
            old(self).zoomed is Some && unzoom_on_switch && old(self).active_pane() != Some(pane_id)
                ==> resize_defined(
                TabLayout { size: old(self).size_before_zoom, zoomed: None, ..*old(self) },
                old(self).size,
            ),
        ensures
            old(self).active_pane() == Some(pane_id) || (old(self).zoomed is Some && !unzoom_on_switch) ==> {
                &&& *final(self) == *old(self)
                &&& change == (FocusChange { lost: None, gained: None })
            },
            !(old(self).active_pane() == Some(pane_id) || (old(self).zoomed is Some && !unzoom_on_switch)) ==> {
                let base = focus_base(*old(self));
                if base.panes().contains(pane_id) {
                    let index = position_of(base.panes(), pane_id);
                    &&& final(self).active == index
                    &&& final(self).tree == base.tree
                    &&& final(self).size == base.size
                    &&& final(self).zoomed is None
                    &&& final(self).proportional == base.proportional
                    &&& final(self).resize_reference == base.resize_reference
                    &&& final(self).size_before_zoom == base.size_before_zoom
                    &&& final(self).recency.wf()
                    &&& final(self).recency.scores() == base.recency.scores().insert(
                        index as usize,
                        base.recency.clock(),
                    )
                    &&& final(self).recency.clock() == base.recency.clock() + 1
                    &&& change == focus_change_spec(old(self).active_pane(), Some(pane_id))
                } else {
                    &&& *final(self) == base
                    &&& change == (FocusChange { lost: None, gained: None })
                }
            },
    {
        let prior = self.get_active_pane();
        let same = match prior {
            Some(p) => p == pane_id,
            None => false,
        };
        if same {
            return FocusChange { lost: None, gained: None };
        }
        if self.zoomed.is_some() {
            if !unzoom_on_switch {
                return FocusChange { lost: None, gained: None };
            }
            self.toggle_zoom();
        }
        assert(*self == focus_base(*old(self)));
        if !crate::layout::tree::tree_contains(&self.tree, pane_id) {
            return FocusChange { lost: None, gained: None };
        }
        let index = pane_index_of(self, pane_id);
        proof {
            crate::layout::tab::lemma_position_of(self.panes(), pane_id);
        }
        self.active = index;
        self.recency.tag(index);
        advise_focus_change(prior, Some(pane_id))
    }

    /// The panes the focus moves among: those shown, or all of them.
    pub open spec fn focus_panes(&self, ignore_zoom: bool) -> Seq<crate::layout::tree::PositionedPane> {
        if ignore_zoom {
            all_panes(*self)
        } else {
            shown_panes(*self)
        }
    }

    /// The panes of the tab have places within the machine's integers.
    pub open spec fn places_fit(&self) -> bool {
        &&& coords_fit(self.tree, 0, 0)
        &&& leaves(self.tree).len() <= usize::MAX
        &&& extents_fit(all_panes(*self))
        &&& self.size.cols + 1 <= usize::MAX
        &&& self.size.rows + 1 <= usize::MAX
    }

    /// The index of the pane next to the active one in `direction` (see
    /// `moves_focus_to`), among the panes shown, or among all of them when
    /// `ignore_zoom`.
    pub fn get_pane_direction(&self, direction: PaneDirection, ignore_zoom: bool) -> (target: Option<usize>)
        requires
            self.recency.wf(),
            self.places_fit(),
        ensures
            moves_focus_to(self.focus_panes(ignore_zoom), self.recency, direction, target),
    {
        let panes = if ignore_zoom {
            self.iter_panes_ignoring_zoom()
        } else {
            self.iter_panes()
        };
        assert(extents_fit(panes@));
        crate::layout::direction::get_pane_direction(panes.as_slice(), &self.recency, direction)
    }

    /// Move the focus to the pane next to the active one in `direction`. In
    /// a zoomed tab nothing happens unless `unzoom_on_switch` lets the zoom
    /// end first; without a neighbour the focus stays.
    pub fn activate_pane_direction(&mut self, direction: PaneDirection, unzoom_on_switch: bool)
        requires
            old(self).wf(),
            old(self).zoomed is Some && unzoom_on_switch ==> resize_defined(
                TabLayout { size: old(self).size_before_zoom, zoomed: None, ..*old(self) },
                old(self).size,
            ),
            focus_base(*old(self)).places_fit(),
        ensures
            old(self).zoomed is Some && !unzoom_on_switch ==> *final(self) == *old(self),
            !(old(self).zoomed is Some && !unzoom_on_switch) ==> {
                let base = focus_base(*old(self));
                let panes = shown_panes(base);
                ||| moves_focus_to(panes, base.recency, direction, None) && *final(self) == base
                ||| {
                    &&& moves_focus_to(panes, base.recency, direction, Some(final(self).active))
                    &&& final(self).tree == base.tree
                    &&& final(self).size == base.size
                    &&& final(self).zoomed is None
                    &&& final(self).proportional == base.proportional
                    &&& final(self).resize_reference == base.resize_reference
                    &&& final(self).size_before_zoom == base.size_before_zoom
                    &&& final(self).recency.wf()
                    &&& final(self).recency.scores() == base.recency.scores().insert(
                        final(self).active,
                        base.recency.clock(),
                    )
                    &&& final(self).recency.clock() == base.recency.clock() + 1
                }
            },
    {
        if self.zoomed.is_some() {
            if !unzoom_on_switch {
                return;
            }
            self.toggle_zoom();
        }
        assert(*self == focus_base(*old(self)));
        match self.get_pane_direction(direction, false) {
            Some(index) => {
                self.active = index;
                self.recency.tag(index);
            },
            None => {},
        }
    }
}

} // verus!
