//! Splits and moves that ask the terminals concerned to take their new size
//! before the tree changes: when a terminal refuses, the tabs stay as they
//! were and the terminals are given their old sizes back.
//!
//! `ptys(pane, size)` resizes the terminal of `pane` and says whether it
//! took the size. Only these resizes decide; once the tree has changed, the
//! caller gives every shown terminal its size from `Tab::pty_sizes`.
use vstd::prelude::*;
use crate::layout::pane_chrome::{cell_for, split_sizes};
use crate::layout::pane_move::{
    after_removal, clone_pane_tree, clone_reference, lemma_not_the_one, move_within_defined, pane_index_of,
    same_layout, MoveError,
};
use crate::layout::prune::{lemma_pruning_keeps_others, pruning_defined};
use crate::layout::ptys::Tab;
use crate::layout::size::{cell_of, size_with_cell_spec, SplitRequest, TermSize};
use crate::layout::tab::{
    plan_defined, planned, position_of, split_outcome, split_resize_defined, SplitError, TabLayout,
};
use crate::layout::tree::tree_contains;
use crate::workspaces::{first_index, lemma_first_index_at};

verus! {

/// The terminal size of each pane under a header of `header_rows`,
/// `padding` and the cell sizes `cells`.
pub open spec fn content_with(
    header_rows: usize,
    padding: (usize, usize),
    cells: Map<usize, (usize, usize)>,
) -> spec_fn(usize, TermSize) -> TermSize {
    |id: usize, size: TermSize| size_with_cell_spec(size, header_rows, padding, cell_for(cells, id))
}

/// The terminals a split resizes before it changes the tree, in order, each
/// with its new size (`content` gives a pane's terminal size in a part of
/// the tab): for a new root over several panes, the incoming pane in its
/// part; for a split of one pane, the first part's pane, then the second's.
pub open spec fn split_checks(
    layout: TabLayout,
    content: spec_fn(usize, TermSize) -> TermSize,
    pane_index: usize,
    request: SplitRequest,
    pane: usize,
) -> Seq<(usize, TermSize)> {
    match planned(layout, pane_index, request) {
        Err(_) => Seq::empty(),
        Ok(plan) => if plan.new_root {
            if plan.needs_resize {
                let part = if request.target_is_second { plan.split.second } else { plan.split.first };
                seq![(pane, content(pane, part))]
            } else {
                Seq::empty()
            }
        } else {
            let existing = plan.existing.unwrap().0;
            let first = if request.target_is_second { existing } else { pane };
            let second = if request.target_is_second { pane } else { existing };
            seq![(first, content(first, plan.split.first)), (second, content(second, plan.split.second))]
        },
    }
}

/// Every terminal in `checks` took its size.
pub open spec fn all_accepted<F: Fn(usize, TermSize) -> bool>(ptys: F, checks: Seq<(usize, TermSize)>) -> bool {
    forall|k: int| #![trigger checks[k]] 0 <= k < checks.len() ==> ptys.ensures((checks[k].0, checks[k].1), true)
}

/// Some terminal in `checks` refused its size.
pub open spec fn one_refused<F: Fn(usize, TermSize) -> bool>(ptys: F, checks: Seq<(usize, TermSize)>) -> bool {
    exists|k: int| #![trigger checks[k]] 0 <= k < checks.len() && ptys.ensures((checks[k].0, checks[k].1), false)
}

/// What a split that asks the terminals first gives: the refusal of
/// `planned`, or `Refused` with the layout as it was after a terminal
/// refused, or the split of `split_outcome` after every terminal took its
/// size.
pub open spec fn checked_split<F: Fn(usize, TermSize) -> bool>(
    before: TabLayout,
    content: spec_fn(usize, TermSize) -> TermSize,
    pane_index: usize,
    request: SplitRequest,
    pane: usize,
    after: TabLayout,
    result: Result<usize, SplitError>,
    ptys: F,
) -> bool {
    let checks = split_checks(before, content, pane_index, request, pane);
    match planned(before, pane_index, request) {
        Err(e) => result == Err::<usize, SplitError>(e) && after == before,
        Ok(_) => {
            ||| result == Err::<usize, SplitError>(SplitError::Refused) && after == before && one_refused(ptys, checks)
            ||| all_accepted(ptys, checks) && split_outcome(before, pane_index, request, pane, after, result)
        },
    }
}

/// Ask each terminal of `checks` in turn to take its size, stopping at the
/// first that refuses.
fn ask_ptys<F: Fn(usize, TermSize) -> bool>(checks: &Vec<(usize, TermSize)>, ptys: &F) -> (accepted: bool)
    requires
        forall|id: usize, size: TermSize| ptys.requires((id, size)),
    ensures
        accepted ==> all_accepted(*ptys, checks@),
        !accepted ==> one_refused(*ptys, checks@),
{
    let mut k: usize = 0;
    while k < checks.len()
        invariant
            k <= checks@.len(),
            forall|id: usize, size: TermSize| ptys.requires((id, size)),
            forall|j: int| #![trigger checks@[j]] 0 <= j < k ==> ptys.ensures((checks@[j].0, checks@[j].1), true),
        decreases checks.len() - k,
    {
        let (id, size) = checks[k];
        if !ptys(id, size) {
            assert(checks@[k as int] == (id, size));
            return false;
        }
        k = k + 1;
    }
    true
}

impl Tab {
    /// Split as `TabLayout::split_and_insert` does, once the terminals of
    /// `split_checks` have taken their new sizes. When one refuses, nothing
    /// changes and the split fails with `Refused`. Gives as well the
    /// terminals to give their old sizes back to (see `split_give_back`).
    pub fn split_and_insert<F: Fn(usize, TermSize) -> bool>(
        &mut self,
        pane_index: usize,
        request: SplitRequest,
        pane: usize,
        ptys: &F,
    ) -> (result: (Result<usize, SplitError>, Vec<(usize, TermSize)>))
        requires
            old(self).layout.wf(),
            old(self).chrome.wf(),
            plan_defined(old(self).layout, pane_index, request),
            split_resize_defined(old(self).layout, pane_index, request),
            forall|id: usize, size: TermSize| ptys.requires((id, size)),
        ensures
            final(self).chrome == old(self).chrome,
            checked_split(
                old(self).layout,
                content_with(old(self).chrome.header_rows, old(self).chrome.padding, old(self).chrome.cell_sizes@),
                pane_index,
                request,
                pane,
                final(self).layout,
                result.0,
                *ptys,
            ),
            result.1@ == split_give_back(
                old(self).layout,
                content_with(old(self).chrome.header_rows, old(self).chrome.padding, old(self).chrome.cell_sizes@),
                pane_index,
                request,
                result.0,
            ),
    {
        let plan = match self.layout.plan_split(pane_index, request) {
            Err(e) => {
                return (Err(e), Vec::new());
            },
            Ok(plan) => plan,
        };
        let ghost content = content_with(self.chrome.header_rows, self.chrome.padding, self.chrome.cell_sizes@);
        let second = request.target_is_second;
        let mut checks: Vec<(usize, TermSize)> = Vec::new();
        if plan.new_root {
            if plan.needs_resize {
                let part = if second { plan.split.second } else { plan.split.first };
                checks.push((pane, self.chrome.pane_content_size(pane, part)));
            }
        } else {
            match plan.existing {
                Some((existing, _)) => {
                    let first = if second { existing } else { pane };
                    let other = if second { pane } else { existing };
                    checks.push((first, self.chrome.pane_content_size(first, plan.split.first)));
                    checks.push((other, self.chrome.pane_content_size(other, plan.split.second)));
                },
                None => {},
            }
        }
        assert(checks@ =~= split_checks(self.layout, content, pane_index, request, pane));
        if !ask_ptys(&checks, ptys) {
            let mut restore: Vec<(usize, TermSize)> = Vec::new();
            match plan.existing {
                Some((existing, size)) => {
                    restore.push((existing, self.chrome.pane_content_size(existing, size)));
                },
                None => {},
            }
            assert(restore@ =~= split_give_back(self.layout, content, pane_index, request, Err(SplitError::Refused)));
            return (Err(SplitError::Refused), restore);
        }
        let result = self.layout.split_and_insert(pane_index, request, pane);
        assert(split_give_back(old(self).layout, content, pane_index, request, result) =~= Seq::<(usize, TermSize)>::empty());
        (result, Vec::new())
    }

    /// The terminal size pane `id` has in this tab: the whole tab's when it
    /// is zoomed, else that of its first part of the splits; none when the
    /// splits give it no part.
    fn size_given(&self, id: usize) -> (given: Option<TermSize>)
        requires
            self.chrome.wf(),
        ensures
            given == given_size(*self, id),
    {
        match self.layout.zoomed {
            Some(z) => {
                if z == id {
                    return Some(self.chrome.pane_content_size(id, self.layout.size));
                }
            },
            None => {},
        }
        assert(self.layout.zoomed != Some(id));
        let ghost parts = split_sizes(self.layout.tree, self.layout.size);
        let sizes = self.chrome.pane_sizes(&self.layout.tree, self.layout.size);
        let mut k: usize = 0;
        while k < sizes.len()
            invariant
                k <= sizes@.len(),
                sizes@ == parts.map_values(
                    |entry: (usize, TermSize)| (entry.0, self.chrome.content_spec(entry.0, entry.1)),
                ),
                forall|j: int| 0 <= j < k ==> !part_of(id)(#[trigger] parts[j]),
                parts == split_sizes(self.layout.tree, self.layout.size),
                self.layout.zoomed != Some(id),
            decreases sizes.len() - k,
        {
            if sizes[k].0 == id {
                let ghost j = k as int;
                assert(sizes@[j].0 == parts[j].0);
                assert(sizes@[j].0 == id);
                assert(parts[j].0 == id);
                assert(part_of(id)(parts[j]));
                proof {
                    lemma_first_index_at(parts, part_of(id), j);
                }
                assert(sizes@[j].1 == self.chrome.content_spec(id, parts[j].1));
                assert(first_index(parts, part_of(id)) == j);
                return Some(sizes[k].1);
            }
            assert(sizes@[k as int].0 == parts[k as int].0);
            assert(!part_of(id)(parts[k as int]));
            k = k + 1;
        }
        proof {
            lemma_first_index_at(parts, part_of(id), k as int);
        }
        None
    }

    /// The size of every terminal of the tab: that of its part of the
    /// splits, then the whole tab's for the zoomed pane.
    fn sizes_to_give(&self) -> (sizes: Vec<(usize, TermSize)>)
        requires
            self.chrome.wf(),
        ensures
            sizes@ == all_sizes(
                self.layout,
                content_with(self.chrome.header_rows, self.chrome.padding, self.chrome.cell_sizes@),
            ),
    {
        let ghost content = content_with(self.chrome.header_rows, self.chrome.padding, self.chrome.cell_sizes@);
        let mut sizes = self.chrome.pane_sizes(&self.layout.tree, self.layout.size);
        let ghost parts = split_sizes(self.layout.tree, self.layout.size);
        assert(parts.map_values(|entry: (usize, TermSize)| (entry.0, content(entry.0, entry.1))) =~= sizes@);
        match self.layout.zoomed {
            Some(z) => {
                sizes.push((z, self.chrome.pane_content_size(z, self.layout.size)));
            },
            None => {},
        }
        assert(sizes@ =~= all_sizes(self.layout, content));
        sizes
    }

    /// Move pane `source_id` of the tab `source` next to pane `target_id` of
    /// this tab. Its own cell size comes along, then the target is split as
    /// `split_and_insert` does (so its terminals are asked first), then the
    /// pane leaves its old tab. When the split fails neither tab changes;
    /// gives as well the terminals to give their old sizes back to (see
    /// `move_from_give_back`).
    pub fn move_pane_from<F: Fn(usize, TermSize) -> bool>(
        &mut self,
        source: &mut Tab,
        source_id: usize,
        target_id: usize,
        request: SplitRequest,
        ptys: &F,
    ) -> (result: (Result<usize, MoveError>, Vec<(usize, TermSize)>))
        requires
            old(self).layout.wf(),
            old(self).chrome.wf(),
            old(source).chrome.wf(),
            old(source).layout.size.cols > 0,
            old(source).layout.size.rows > 0,
            old(self).layout.panes().contains(target_id) ==> {
                let index = position_of(old(self).layout.panes(), target_id) as usize;
                &&& plan_defined(old(self).layout, index, request)
                &&& split_resize_defined(old(self).layout, index, request)
            },
            pruning_defined(old(source).layout, seq![source_id]),
            forall|id: usize, size: TermSize| ptys.requires((id, size)),
        ensures
            checked_move_from(
                old(self).layout,
                content_with(
                    old(self).chrome.header_rows,
                    old(self).chrome.padding,
                    moved_cells(old(self).chrome.cell_sizes@, old(source).chrome.cell_sizes@, source_id),
                ),
                old(source).layout,
                source_id,
                target_id,
                request,
                final(self).layout,
                final(source).layout,
                result.0,
                *ptys,
            ),
            result.1@ == move_from_give_back(
                old(self).layout,
                content_with(
                    old(self).chrome.header_rows,
                    old(self).chrome.padding,
                    moved_cells(old(self).chrome.cell_sizes@, old(source).chrome.cell_sizes@, source_id),
                ),
                *old(source),
                source_id,
                target_id,
                request,
                result.0,
            ),
            final(self).chrome.header_rows == old(self).chrome.header_rows,
            final(self).chrome.padding == old(self).chrome.padding,
            final(source).chrome.header_rows == old(source).chrome.header_rows,
            final(source).chrome.padding == old(source).chrome.padding,
            result.0 is Err ==> final(self).chrome.cell_sizes@ == old(self).chrome.cell_sizes@
                && final(source).chrome.cell_sizes@ == old(source).chrome.cell_sizes@,
            result.0 is Ok ==> {
                &&& final(self).chrome.cell_sizes@ == moved_cells(
                    old(self).chrome.cell_sizes@,
                    old(source).chrome.cell_sizes@,
                    source_id,
                )
                &&& final(source).chrome.cell_sizes@ == old(source).chrome.cell_sizes@.remove(source_id)
            },
            final(self).chrome.wf(),
            final(source).chrome.wf(),
    {
        if source_id == target_id {
            return (Err(MoveError::IntoItself), Vec::new());
        }
        if !tree_contains(&source.layout.tree, source_id) {
            return (Err(MoveError::SourceMissing(source_id)), Vec::new());
        }
        if !tree_contains(&self.layout.tree, target_id) {
            return (Err(MoveError::TargetMissing(target_id)), Vec::new());
        }
        let back = source.size_given(source_id);
        let cell = source.chrome.cell_of(source_id);
        let kept = self.chrome.cell_of(source_id);
        self.chrome.cell_sizes.remove(&source_id);
        match cell {
            Some(c) => {
                self.chrome.cell_sizes.insert(source_id, c);
            },
            None => {},
        }
        assert(self.chrome.cell_sizes@ =~= moved_cells(
            old(self).chrome.cell_sizes@,
            old(source).chrome.cell_sizes@,
            source_id,
        ));
        let index = pane_index_of(&self.layout, target_id);
        let (split, mut restore) = self.split_and_insert(index, request, source_id, ptys);
        match split {
            Err(e) => {
                self.chrome.cell_sizes.remove(&source_id);
                match kept {
                    Some(c) => {
                        self.chrome.cell_sizes.insert(source_id, c);
                    },
                    None => {},
                }
                assert(self.chrome.cell_sizes@ =~= old(self).chrome.cell_sizes@);
                let ghost first = restore@;
                match back {
                    Some(size) => {
                        restore.push((source_id, size));
                    },
                    None => {},
                }
                assert(restore@ =~= first + given_pane(*old(source), source_id));
                (Err(MoveError::Split(e)), restore)
            },
            Ok(i) => {
                source.remove_pane(source_id);
                (Ok(i), Vec::new())
            },
        }
    }

    /// Move pane `source_id` next to pane `target_id` of this tab: it leaves
    /// its place, then the target is split as `split_and_insert` does (so
    /// its terminals are asked first). When the split fails the tab is put
    /// back as it was; gives as well the terminals to give their old sizes
    /// back to (see `move_within_give_back`). The pane keeps its own cell
    /// size.
    pub fn move_pane_within_tab<F: Fn(usize, TermSize) -> bool>(
        &mut self,
        source_id: usize,
        target_id: usize,
        request: SplitRequest,
        ptys: &F,
    ) -> (result: (Result<usize, MoveError>, Vec<(usize, TermSize)>))
        requires
            old(self).layout.wf(),
            old(self).chrome.wf(),
            old(self).layout.size.cols > 0,
            old(self).layout.size.rows > 0,
            move_within_defined(old(self).layout, source_id, target_id, request),
            forall|id: usize, size: TermSize| ptys.requires((id, size)),
        ensures
            checked_move_within(
                old(self).layout,
                content_with(old(self).chrome.header_rows, old(self).chrome.padding, old(self).chrome.cell_sizes@),
                source_id,
                target_id,
                request,
                final(self).layout,
                result.0,
                *ptys,
            ),
            result.1@ == move_within_give_back(
                old(self).layout,
                content_with(old(self).chrome.header_rows, old(self).chrome.padding, old(self).chrome.cell_sizes@),
                source_id,
                target_id,
                request,
                result.0,
            ),
            final(self).chrome == old(self).chrome,
    {
        if source_id == target_id {
            return (Err(MoveError::IntoItself), Vec::new());
        }
        if !tree_contains(&self.layout.tree, source_id) {
            return (Err(MoveError::SourceMissing(source_id)), Vec::new());
        }
        if !tree_contains(&self.layout.tree, target_id) {
            return (Err(MoveError::TargetMissing(target_id)), Vec::new());
        }
        let ghost before = self.layout;
        let tree = clone_pane_tree(&self.layout.tree);
        let size = self.layout.size;
        let active = self.layout.active;
        let recency = self.layout.recency.clone();
        let zoomed = self.layout.zoomed;
        let size_before_zoom = self.layout.size_before_zoom;
        let resize_reference = match &self.layout.resize_reference {
            Some(reference) => Some(clone_reference(reference)),
            None => None,
        };
        self.layout.remove_pane(source_id);
        proof {
            lemma_not_the_one(source_id, target_id);
            lemma_pruning_keeps_others(before, seq![source_id], target_id);
        }
        let index = pane_index_of(&self.layout, target_id);
        let (split, mut restore) = self.split_and_insert(index, request, source_id, ptys);
        match split {
            Err(e) => {
                self.layout.tree = tree;
                self.layout.size = size;
                self.layout.active = active;
                self.layout.recency = recency;
                self.layout.zoomed = zoomed;
                self.layout.size_before_zoom = size_before_zoom;
                self.layout.resize_reference = resize_reference;
                let all = self.sizes_to_give();
                let ghost first = restore@;
                let mut k: usize = 0;
                while k < all.len()
                    invariant
                        k <= all@.len(),
                        restore@ == first + all@.subrange(0, k as int),
                    decreases all.len() - k,
                {
                    restore.push(all[k]);
                    assert(all@.subrange(0, k + 1) =~= all@.subrange(0, k as int).push(all@[k as int]));
                    k = k + 1;
                }
                assert(all@.subrange(0, all.len() as int) =~= all@);
                (Err(MoveError::Split(e)), restore)
            },
            Ok(i) => (Ok(i), Vec::new()),
        }
    }
}

/// The terminals a split gives back their old size after a refusal: the
/// pane that was to be split, in its rectangle.
pub open spec fn split_give_back(
    layout: TabLayout,
    content: spec_fn(usize, TermSize) -> TermSize,
    pane_index: usize,
    request: SplitRequest,
    result: Result<usize, SplitError>,
) -> Seq<(usize, TermSize)> {
    match (result, planned(layout, pane_index, request)) {
        (Err(SplitError::Refused), Ok(plan)) => match plan.existing {
            Some((existing, size)) => seq![(existing, content(existing, size))],
            None => Seq::empty(),
        },
        _ => Seq::empty(),
    }
}

/// The size of every terminal of `layout`: those of the parts of the splits,
/// then the whole tab's for the zoomed pane.
pub open spec fn all_sizes(layout: TabLayout, content: spec_fn(usize, TermSize) -> TermSize) -> Seq<(usize, TermSize)> {
    split_sizes(layout.tree, layout.size).map_values(|entry: (usize, TermSize)| (entry.0, content(entry.0, entry.1)))
        + match layout.zoomed {
        Some(z) => seq![(z, content(z, layout.size))],
        None => Seq::empty(),
    }
}

/// Pane `id` with the size it has in `tab`, if any.
pub open spec fn given_pane(tab: Tab, id: usize) -> Seq<(usize, TermSize)> {
    match given_size(tab, id) {
        Some(size) => seq![(id, size)],
        None => Seq::empty(),
    }
}

/// The terminals a move between tabs gives back their old sizes when the
/// split fails: those the split gives back, then the moved pane in its old
/// tab.
pub open spec fn move_from_give_back(
    target: TabLayout,
    content: spec_fn(usize, TermSize) -> TermSize,
    source: Tab,
    source_id: usize,
    target_id: usize,
    request: SplitRequest,
    result: Result<usize, MoveError>,
) -> Seq<(usize, TermSize)> {
    match result {
        Err(MoveError::Split(e)) => split_give_back(
            target,
            content,
            position_of(target.panes(), target_id) as usize,
            request,
            Err(e),
        ) + given_pane(source, source_id),
        _ => Seq::empty(),
    }
}

/// The terminals a move within a tab gives back their old sizes when the
/// split fails: those the split gives back, then every terminal of the tab
/// as it was.
pub open spec fn move_within_give_back(
    before: TabLayout,
    content: spec_fn(usize, TermSize) -> TermSize,
    source_id: usize,
    target_id: usize,
    request: SplitRequest,
    result: Result<usize, MoveError>,
) -> Seq<(usize, TermSize)> {
    match result {
        Err(MoveError::Split(e)) => {
            let mid = after_removal(before, source_id);
            split_give_back(mid, content, position_of(mid.panes(), target_id) as usize, request, Err(e)) + all_sizes(
                before,
                content,
            )
        },
        _ => Seq::empty(),
    }
}

/// Whether a part of the splits is that of pane `id`.
pub open spec fn part_of(id: usize) -> spec_fn((usize, TermSize)) -> bool {
    |e: (usize, TermSize)| e.0 == id
}

/// The terminal size pane `id` has in `tab`: the whole tab's when it is
/// zoomed, else that of its first part of the splits, if any.
pub open spec fn given_size(tab: Tab, id: usize) -> Option<TermSize> {
    let parts = split_sizes(tab.layout.tree, tab.layout.size);
    let at = first_index(parts, part_of(id));
    if tab.layout.zoomed == Some(id) {
        Some(tab.chrome.content_spec(id, tab.layout.size))
    } else if at < 0 {
        None
    } else {
        Some(tab.chrome.content_spec(id, parts[at].1))
    }
}

/// The cell sizes of the target tab once pane `id` has come from a tab with
/// `source` cell sizes: its own, or none.
pub open spec fn moved_cells(
    target: Map<usize, (usize, usize)>,
    source: Map<usize, (usize, usize)>,
    id: usize,
) -> Map<usize, (usize, usize)> {
    if source.contains_key(id) {
        target.insert(id, source[id])
    } else {
        target.remove(id)
    }
}

/// What moving pane `source_id` of `source` next to pane `target_id` of
/// `target` gives when the target's terminals are asked first (`content`
/// gives their sizes, the moved pane's cell size included): a refusal with
/// both tabs unchanged, or the split target and the source without the pane.
pub open spec fn checked_move_from<F: Fn(usize, TermSize) -> bool>(
    target: TabLayout,
    content: spec_fn(usize, TermSize) -> TermSize,
    source: TabLayout,
    source_id: usize,
    target_id: usize,
    request: SplitRequest,
    target_after: TabLayout,
    source_after: TabLayout,
    result: Result<usize, MoveError>,
    ptys: F,
) -> bool {
    let present = source.panes().contains(source_id) && target.panes().contains(target_id);
    &&& source_id == target_id ==> result == Err::<usize, MoveError>(MoveError::IntoItself)
    &&& source_id != target_id && !source.panes().contains(source_id) ==> result == Err::<usize, MoveError>(
        MoveError::SourceMissing(source_id),
    )
    &&& source_id != target_id && source.panes().contains(source_id) && !target.panes().contains(target_id)
        ==> result == Err::<usize, MoveError>(MoveError::TargetMissing(target_id))
    &&& result is Err ==> target_after == target && source_after == source
    &&& source_id != target_id && present ==> {
        let index = position_of(target.panes(), target_id) as usize;
        let checks = split_checks(target, content, index, request, source_id);
        match planned(target, index, request) {
            Err(e) => result == Err::<usize, MoveError>(MoveError::Split(e)),
            Ok(_) => {
                ||| result == Err::<usize, MoveError>(MoveError::Split(SplitError::Refused)) && one_refused(
                    ptys,
                    checks,
                )
                ||| result matches Ok(i) && all_accepted(ptys, checks) && split_outcome(
                    target,
                    index,
                    request,
                    source_id,
                    target_after,
                    Ok::<usize, SplitError>(i),
                ) && source_after == after_removal(source, source_id)
            },
        }
    }
}

/// What moving pane `source_id` next to pane `target_id` of the same tab
/// gives when the terminals are asked first: a refusal with the tab as it
/// was, or the tab without the pane and the target split for it.
pub open spec fn checked_move_within<F: Fn(usize, TermSize) -> bool>(
    before: TabLayout,
    content: spec_fn(usize, TermSize) -> TermSize,
    source_id: usize,
    target_id: usize,
    request: SplitRequest,
    after: TabLayout,
    result: Result<usize, MoveError>,
    ptys: F,
) -> bool {
    &&& source_id == target_id ==> result == Err::<usize, MoveError>(MoveError::IntoItself) && after == before
    &&& source_id != target_id && !before.panes().contains(source_id) ==> result == Err::<usize, MoveError>(
        MoveError::SourceMissing(source_id),
    ) && after == before
    &&& source_id != target_id && before.panes().contains(source_id) && !before.panes().contains(target_id)
        ==> result == Err::<usize, MoveError>(MoveError::TargetMissing(target_id)) && after == before
    &&& source_id != target_id && before.panes().contains(source_id) && before.panes().contains(target_id) ==> {
        let mid = after_removal(before, source_id);
        let index = position_of(mid.panes(), target_id) as usize;
        let checks = split_checks(mid, content, index, request, source_id);
        match planned(mid, index, request) {
            Err(e) => result == Err::<usize, MoveError>(MoveError::Split(e)) && same_layout(after, before),
            Ok(_) => {
                ||| result == Err::<usize, MoveError>(MoveError::Split(SplitError::Refused)) && same_layout(
                    after,
                    before,
                ) && one_refused(ptys, checks)
                ||| result matches Ok(i) && all_accepted(ptys, checks) && split_outcome(
                    mid,
                    index,
                    request,
                    source_id,
                    after,
                    Ok::<usize, SplitError>(i),
                )
            },
        }
    }
}

} // verus!
