//! Moving the focus between panes: by order, or to the neighbour on one side,
//! preferring the neighbour that was focused most recently.
use vstd::prelude::*;
use std::collections::HashMap;
use crate::layout::tree::PositionedPane;

verus! {

#[derive(Debug, Clone, Copy, PartialEq, Eq, Structural)]
pub enum PaneDirection {
    Up,
    Down,
    Left,
    Right,
    Next,
    Prev,
}

/// When each pane index was last activated; later activations score higher.
pub struct Recency {
    count: usize,
    by_idx: HashMap<usize, usize>,
}

impl Recency {
    /// The score of every index ever tagged.
    pub closed spec fn scores(&self) -> Map<usize, usize> {
        self.by_idx@
    }

    /// The number of activations so far.
    pub closed spec fn clock(&self) -> usize {
        self.count
    }

    pub open spec fn score_of(&self, idx: usize) -> nat {
        if self.scores().contains_key(idx) {
            self.scores()[idx] as nat
        } else {
            0
        }
    }

    pub closed spec fn wf(&self) -> bool {
        forall|idx: usize| #[trigger] self.by_idx@.contains_key(idx) ==> self.by_idx@[idx] < self.count
    }

    pub fn new() -> (recency: Self)
        ensures
            recency.wf(),
            recency.scores() == Map::<usize, usize>::empty(),
            recency.clock() == 0,
    {
        let recency = Recency { count: 0, by_idx: HashMap::new() };
        assert(recency.by_idx@ =~= Map::<usize, usize>::empty());
        recency
    }

    /// Record an activation of `idx`.
    pub fn tag(&mut self, idx: usize)
        requires
            old(self).wf(),
            old(self).clock() < usize::MAX,
        ensures
            final(self).wf(),
            final(self).scores() == old(self).scores().insert(idx, old(self).clock()),
            final(self).clock() == old(self).clock() + 1,
    {
        self.by_idx.insert(idx, self.count);
        self.count = self.count + 1;
    }

    pub fn score(&self, idx: usize) -> (score: usize)
        requires
            self.wf(),
        ensures
            score == self.score_of(idx),
            score < self.clock() || score == 0,
    {
        match self.by_idx.get(&idx) {
            Some(score) => *score,
            None => 0,
        }
    }
}

impl Clone for Recency {
    fn clone(&self) -> (copy: Self)
        ensures
            copy.scores() == self.scores(),
            copy.clock() == self.clock(),
            copy.wf() == self.wf(),
    {
        Recency { count: self.count, by_idx: self.by_idx.clone() }
    }
}

/// The half-open ranges `a..a+a_len` and `b..b+b_len` overlap.
pub open spec fn ranges_intersect(a: int, a_len: int, b: int, b_len: int) -> bool {
    let start = if a >= b {
        a
    } else {
        b
    };
    let end = if a + a_len <= b + b_len {
        a + a_len
    } else {
        b + b_len
    };
    end > start
}

/// Whether `pane` borders `active` on the given side, sharing part of that edge.
pub open spec fn is_neighbour(active: PositionedPane, pane: PositionedPane, direction: PaneDirection) -> bool {
    match direction {
        PaneDirection::Right => pane.left == active.left + active.width + 1 && ranges_intersect(
            active.top as int,
            active.height as int,
            pane.top as int,
            pane.height as int,
        ),
        PaneDirection::Left => pane.left + pane.width + 1 == active.left && ranges_intersect(
            active.top as int,
            active.height as int,
            pane.top as int,
            pane.height as int,
        ),
        PaneDirection::Up => pane.top + pane.height + 1 == active.top && ranges_intersect(
            active.left as int,
            active.width as int,
            pane.left as int,
            pane.width as int,
        ),
        PaneDirection::Down => active.top + active.height + 1 == pane.top && ranges_intersect(
            active.left as int,
            active.width as int,
            pane.left as int,
            pane.width as int,
        ),
        _ => false,
    }
}

/// A neighbour scores one more than its recency; other panes score nothing.
pub open spec fn neighbour_score(
    active: PositionedPane,
    pane: PositionedPane,
    direction: PaneDirection,
    recency: Recency,
) -> nat {
    if is_neighbour(active, pane, direction) {
        1 + recency.score_of(pane.index)
    } else {
        0
    }
}

/// Sums that the neighbour search computes stay within `usize`.
pub open spec fn extents_fit(panes: Seq<PositionedPane>) -> bool {
    forall|k: int|
        0 <= k < panes.len() ==> #[trigger] panes[k].left + panes[k].width + 1 <= usize::MAX
            && panes[k].top + panes[k].height + 1 <= usize::MAX
}

pub open spec fn is_first_active(panes: Seq<PositionedPane>, a: int) -> bool {
    &&& 0 <= a < panes.len()
    &&& panes[a].is_active
    &&& forall|k: int| 0 <= k < a ==> !(#[trigger] panes[k]).is_active
}

pub open spec fn max_index_upto(panes: Seq<PositionedPane>, n: int, initial: usize) -> usize
    decreases n,
{
    if n <= 0 {
        initial
    } else {
        let prev = max_index_upto(panes, n - 1, initial);
        if panes[n - 1].index > prev {
            panes[n - 1].index
        } else {
            prev
        }
    }
}

pub fn edge_intersects(active_start: usize, active_size: usize, current_start: usize, current_size: usize) -> (hit: bool)
    requires
        active_start + active_size <= usize::MAX,
        current_start + current_size <= usize::MAX,
    ensures
        hit == ranges_intersect(active_start as int, active_size as int, current_start as int, current_size as int),
{
    let start = if active_start >= current_start {
        active_start
    } else {
        current_start
    };
    let end = if active_start + active_size <= current_start + current_size {
        active_start + active_size
    } else {
        current_start + current_size
    };
    end > start
}

/// Where focus moves in `direction` from the first active pane of `panes`:
/// `Next` and `Prev` cycle through the indices; a side picks the neighbour
/// with the highest score, the last of them on a tie; `None` when there is
/// no neighbour. Without an active pane, the first index.
pub open spec fn moves_focus_to(
    panes: Seq<PositionedPane>,
    recency: Recency,
    direction: PaneDirection,
    target: Option<usize>,
) -> bool {
    &&& (forall|k: int| 0 <= k < panes.len() ==> !(#[trigger] panes[k]).is_active) ==> target == Some(0usize)
    &&& forall|a: int| #[trigger] is_first_active(panes, a) ==> {
            let active = panes[a];
            let max_index = max_index_upto(panes, panes.len() as int, active.index);
            &&& direction == PaneDirection::Next ==> target == Some(
                if active.index == max_index {
                    0
                } else {
                    (active.index + 1) as usize
                },
            )
            &&& direction == PaneDirection::Prev ==> target == Some(
                if active.index == 0 {
                    max_index
                } else {
                    (active.index - 1) as usize
                },
            )
            &&& direction != PaneDirection::Next && direction != PaneDirection::Prev ==> match target {
                None => forall|k: int| 0 <= k < panes.len() ==> neighbour_score(active, #[trigger] panes[k], direction, recency) == 0,
                Some(idx) => exists|j: int|
                    {
                        &&& 0 <= j < panes.len()
                        &&& idx == (#[trigger] panes[j]).index
                        &&& neighbour_score(active, panes[j], direction, recency) > 0
                        &&& forall|k: int| 0 <= k < panes.len() ==> neighbour_score(active, #[trigger] panes[k], direction, recency) <= neighbour_score(active, panes[j], direction, recency)
                        &&& forall|k: int| j < k < panes.len() ==> neighbour_score(active, #[trigger] panes[k], direction, recency) < neighbour_score(active, panes[j], direction, recency)
                    },
            }
        }
}

/// The pane index that focus moves to from the first active pane. `Next` and
/// `Prev` cycle through the indices; a side picks the neighbour with the
/// highest score, the last of them on a tie; `None` when there is no neighbour.
pub fn get_pane_direction(panes: &[PositionedPane], recency: &Recency, direction: PaneDirection) -> (target: Option<usize>)
    requires
        recency.wf(),
        extents_fit(panes@),
    ensures
        moves_focus_to(panes@, *recency, direction, target),
{
    let mut a: usize = 0;
    while a < panes.len() && !panes[a].is_active
        invariant
            a <= panes.len(),
            forall|k: int| 0 <= k < a ==> !(#[trigger] panes@[k]).is_active,
        decreases panes.len() - a,
    {
        a = a + 1;
    }
    if a == panes.len() {
        return Some(0);
    }
    assert(is_first_active(panes@, a as int));
    assert forall|b: int| #[trigger] is_first_active(panes@, b) implies b == a by {
        if b < a {
            assert(!panes@[b].is_active);
        } else if b > a {
            assert(!panes@[a as int].is_active);
        }
    }
    let active = panes[a];
    match direction {
        PaneDirection::Next | PaneDirection::Prev => {
            let mut max_index = active.index;
            let mut i: usize = 0;
            while i < panes.len()
                invariant
                    i <= panes.len(),
                    max_index == max_index_upto(panes@, i as int, active.index),
                decreases panes.len() - i,
            {
                if panes[i].index > max_index {
                    max_index = panes[i].index;
                }
                i = i + 1;
            }
            proof {
                lemma_max_index_at_least(panes@, panes@.len() as int, active.index);
            }
            if direction == PaneDirection::Next {
                if active.index == max_index {
                    Some(0)
                } else {
                    Some(active.index + 1)
                }
            } else {
                if active.index == 0 {
                    Some(max_index)
                } else {
                    Some(active.index - 1)
                }
            }
        },
        _ => {
            let mut best: Option<(usize, usize)> = None;
            let mut i: usize = 0;
            while i < panes.len()
                invariant
                    i <= panes.len(),
                    a < panes.len(),
                    active == panes@[a as int],
                    direction != PaneDirection::Next && direction != PaneDirection::Prev,
                    recency.wf(),
                    extents_fit(panes@),
                    best is None ==> forall|k: int| 0 <= k < i ==> neighbour_score(active, #[trigger] panes@[k], direction, *recency) == 0,
                    best matches Some((bs, bj)) ==> {
                        &&& bj < i
                        &&& bs == neighbour_score(active, panes@[bj as int], direction, *recency)
                        &&& bs > 0
                        &&& forall|k: int| 0 <= k < i ==> neighbour_score(active, #[trigger] panes@[k], direction, *recency) <= bs
                        &&& forall|k: int| bj < k < i ==> neighbour_score(active, #[trigger] panes@[k], direction, *recency) < bs
                    },
                decreases panes.len() - i,
            {
                let pane = panes[i];
                assert(panes@[i as int] == pane);
                assert(panes@[a as int].left + panes@[a as int].width + 1 <= usize::MAX);
                assert(pane.left + pane.width + 1 <= usize::MAX);
                let neighbour = match direction {
                    PaneDirection::Right => pane.left == active.left + active.width + 1
                        && edge_intersects(active.top, active.height, pane.top, pane.height),
                    PaneDirection::Left => pane.left + pane.width + 1 == active.left
                        && edge_intersects(active.top, active.height, pane.top, pane.height),
                    PaneDirection::Up => pane.top + pane.height + 1 == active.top
                        && edge_intersects(active.left, active.width, pane.left, pane.width),
                    _ => active.top + active.height + 1 == pane.top
                        && edge_intersects(active.left, active.width, pane.left, pane.width),
                };
                let score: usize = if neighbour {
                    1 + recency.score(pane.index)
                } else {
                    0
                };
                assert(score == neighbour_score(active, pane, direction, *recency));
                if score > 0 {
                    match best {
                        Some((best_score, best_index)) if best_score > score => {},
                        _ => {
                            best = Some((score, i));
                        },
                    }
                }
                i = i + 1;
            }
            match best {
                Some((_, j)) => {
                    let idx = panes[j].index;
                    assert(panes@[j as int].index == idx);
                    Some(idx)
                },
                None => None,
            }
        },
    }
}

pub proof fn lemma_max_index_at_least(panes: Seq<PositionedPane>, n: int, initial: usize)
    ensures
        max_index_upto(panes, n, initial) >= initial,
    decreases n,
{
    if n > 0 {
        lemma_max_index_at_least(panes, n - 1, initial);
    }
}

} // verus!
