//! Moving a pane next to another one, in the same tab or from another tab:
//! the pane leaves its place and splits the target pane, or nothing changes.
use vstd::prelude::*;
use crate::layout::proportional::SplitResizeReference;
use crate::layout::size::SplitRequest;
use crate::layout::prune::{lemma_pruning_keeps_others, pruned_layout, pruning_defined};
use crate::layout::tab::{plan_defined, planned, position_of, split_outcome, split_resize_defined, SplitError, TabLayout};
use crate::layout::tree::{leaves, tree_contains, Tree};

verus! {

/// Why a pane was not moved.
#[derive(Debug, Clone, Copy, PartialEq, Eq, Structural)]
pub enum MoveError {
    /// A pane cannot split itself.
    IntoItself,
    /// The pane to move is not (or no longer) in its tab.
    SourceMissing(usize),
    /// The pane to split is not (or no longer) in its tab.
    TargetMissing(usize),
    /// The target pane cannot be split.
    Split(SplitError),
}

/// A copy of a split tree.
pub fn clone_pane_tree(tree: &Tree) -> (copy: Tree)
    ensures
        copy == *tree,
    decreases tree,
{
    match tree {
        Tree::Empty => Tree::Empty,
        Tree::Leaf(id) => Tree::Leaf(*id),
        Tree::Node { left, right, data } => Tree::Node {
            left: Box::new(clone_pane_tree(left)),
            right: Box::new(clone_pane_tree(right)),
            data: *data,
        },
    }
}

pub(crate) fn clone_reference(reference: &SplitResizeReference) -> (copy: SplitResizeReference)
    ensures
        copy == *reference,
    decreases reference,
{
    match reference {
        SplitResizeReference::Empty => SplitResizeReference::Empty,
        SplitResizeReference::Pane(id) => SplitResizeReference::Pane(*id),
        SplitResizeReference::Split { direction, first, second, left, right } => SplitResizeReference::Split {
            direction: *direction,
            first: *first,
            second: *second,
            left: Box::new(clone_reference(left)),
            right: Box::new(clone_reference(right)),
        },
    }
}

/// The layout after `remove_pane(id)`.
pub open spec fn after_removal(layout: TabLayout, id: usize) -> TabLayout {
    pruned_layout(layout, seq![id])
}

/// Two layouts that agree on everything the tab shows and remembers.
pub open spec fn same_layout(a: TabLayout, b: TabLayout) -> bool {
    &&& a.tree == b.tree
    &&& a.size == b.size
    &&& a.active == b.active
    &&& a.zoomed == b.zoomed
    &&& a.proportional == b.proportional
    &&& a.resize_reference == b.resize_reference
    &&& a.size_before_zoom == b.size_before_zoom
    &&& a.recency.scores() == b.recency.scores()
    &&& a.recency.clock() == b.recency.clock()
    &&& a.recency.wf() == b.recency.wf()
}

/// A pane other than `one` is not in the list of `one` alone.
pub(crate) proof fn lemma_not_the_one(one: usize, other: usize)
    requires
        one != other,
    ensures
        !seq![one].contains(other),
{
    if seq![one].contains(other) {
        let k = choose|k: int| 0 <= k < seq![one].len() && seq![one][k] == other;
        assert(seq![one][0] == one);
    }
}

/// The place of `id` among the panes, left to right.
pub(crate) fn pane_index_of(layout: &TabLayout, id: usize) -> (index: usize)
    requires
        layout.panes().contains(id),
    ensures
        index == position_of(layout.panes(), id),
{
    let ids = pane_ids(&layout.tree);
    let mut at: usize = 0;
    while at < ids.len() && ids[at] != id
        invariant
            at <= ids@.len(),
            ids@ == layout.panes(),
            forall|k: int| 0 <= k < at ==> ids@[k] != id,
        decreases ids.len() - at,
    {
        at = at + 1;
    }
    proof {
        lemma_first_at(ids@, id, at as int);
    }
    at
}

pub(crate) fn pane_ids(tree: &Tree) -> (ids: Vec<usize>)
    ensures
        ids@ == leaves(*tree),
{
    let mut ids: Vec<usize> = Vec::new();
    push_leaves(tree, &mut ids);
    ids
}

fn push_leaves(tree: &Tree, out: &mut Vec<usize>)
    ensures
        final(out)@ == old(out)@ + leaves(*tree),
    decreases tree,
{
    match tree {
        Tree::Empty => {
            assert(old(out)@ + leaves(*tree) =~= old(out)@);
        },
        Tree::Leaf(id) => {
            out.push(*id);
            assert(out@ =~= old(out)@ + leaves(*tree));
        },
        Tree::Node { left, right, .. } => {
            push_leaves(left, out);
            push_leaves(right, out);
            assert(out@ =~= old(out)@ + leaves(*tree));
        },
    }
}

proof fn lemma_first_at(s: Seq<usize>, id: usize, at: int)
    requires
        0 <= at <= s.len(),
        forall|k: int| 0 <= k < at ==> s[k] != id,
        at < s.len() ==> s[at] == id,
        s.contains(id),
    ensures
        at == position_of(s, id),
    decreases s.len(),
{
    if at == s.len() {
        let k = choose|k: int| 0 <= k < s.len() && s[k] == id;
        assert(false);
    }
    if s[0] != id {
        let rest = s.drop_first();
        assert forall|k: int| 0 <= k < at - 1 implies rest[k] != id by {
            assert(rest[k] == s[k + 1]);
        }
        assert(rest[at - 1] == id);
        lemma_first_at(rest, id, at - 1);
    }
}

/// Moving `source` next to `target` in one tab stays within the machine's
/// integers.
pub open spec fn move_within_defined(layout: TabLayout, source: usize, target: usize, request: SplitRequest) -> bool {
    layout.panes().contains(source) && layout.panes().contains(target) ==> {
        let mid = after_removal(layout, source);
        let index = position_of(mid.panes(), target);
        &&& pruning_defined(layout, seq![source])
        &&& plan_defined(mid, index as usize, request)
        &&& split_resize_defined(mid, index as usize, request)
    }
}

/// What moving pane `source_id` of `source` next to pane `target_id` of
/// `target` gives: a refusal with both tabs unchanged, or the split target
/// and the source without the pane.
pub open spec fn move_from_outcome(
    target: TabLayout,
    source: TabLayout,
    source_id: usize,
    target_id: usize,
    request: SplitRequest,
    target_after: TabLayout,
    source_after: TabLayout,
    result: Result<usize, MoveError>,
) -> bool {
    let present = source.panes().contains(source_id) && target.panes().contains(target_id);
    &&& source_id == target_id ==> result == Err::<usize, MoveError>(MoveError::IntoItself)
    &&& source_id != target_id && !source.panes().contains(source_id) ==> result == Err::<usize, MoveError>(
        MoveError::SourceMissing(source_id),
    )
    &&& source_id != target_id && source.panes().contains(source_id) && !target.panes().contains(target_id)
        ==> result == Err::<usize, MoveError>(MoveError::TargetMissing(target_id))
    &&& result is Err ==> target_after == target && source_after == source
    &&& source_id != target_id && present ==> {
        let index = position_of(target.panes(), target_id) as usize;
        match planned(target, index, request) {
            Err(e) => result == Err::<usize, MoveError>(MoveError::Split(e)),
            Ok(_) => {
                &&& result matches Ok(i) && split_outcome(
                    target,
                    index,
                    request,
                    source_id,
                    target_after,
                    Ok::<usize, SplitError>(i),
                )
                &&& source_after == after_removal(source, source_id)
            },
        }
    }
}

/// What moving pane `source_id` next to pane `target_id` of the same tab
/// gives: a refusal with the tab as it was, or the tab without the pane with
/// the target split for it.
pub open spec fn move_within_outcome(
    before: TabLayout,
    source_id: usize,
    target_id: usize,
    request: SplitRequest,
    after: TabLayout,
    result: Result<usize, MoveError>,
) -> bool {
    &&& !before.panes().contains(source_id) ==> result == Err::<usize, MoveError>(
        MoveError::SourceMissing(source_id),
    ) && after == before
    &&& before.panes().contains(source_id) && !before.panes().contains(target_id) ==> result == Err::<
        usize,
        MoveError,
    >(MoveError::TargetMissing(target_id)) && after == before
    &&& before.panes().contains(source_id) && before.panes().contains(target_id) ==> {
        let mid = after_removal(before, source_id);
        let index = position_of(mid.panes(), target_id) as usize;
        match planned(mid, index, request) {
            Err(e) => result == Err::<usize, MoveError>(MoveError::Split(e)) && same_layout(after, before),
            Ok(_) => result matches Ok(i) && split_outcome(
                mid,
                index,
                request,
                source_id,
                after,
                Ok::<usize, SplitError>(i),
            ),
        }
    }
}

impl TabLayout {
    /// Move pane `source_id` of this tab next to pane `target_id`: it leaves
    /// its place, then splits the target as `request` says. When the split
    /// is refused the tab is put back as it was. Gives the new index of the
    /// moved pane.
    pub fn move_pane_within_tab(&mut self, source_id: usize, target_id: usize, request: SplitRequest) -> (result: Result<
        usize,
        MoveError,
    >)
        requires
            old(self).wf(),
            source_id != target_id,
            old(self).size.cols > 0,
            old(self).size.rows > 0,
            move_within_defined(*old(self), source_id, target_id, request),
        ensures
            move_within_outcome(*old(self), source_id, target_id, request, *final(self), result),
    {
        if !tree_contains(&self.tree, source_id) {
            return Err(MoveError::SourceMissing(source_id));
        }
        if !tree_contains(&self.tree, target_id) {
            return Err(MoveError::TargetMissing(target_id));
        }
        let ghost before = *self;
        let tree = clone_pane_tree(&self.tree);
        let size = self.size;
        let active = self.active;
        let recency = self.recency.clone();
        let zoomed = self.zoomed;
        let size_before_zoom = self.size_before_zoom;
        let resize_reference = match &self.resize_reference {
            Some(reference) => Some(clone_reference(reference)),
            None => None,
        };
        self.remove_pane(source_id);
        proof {
            lemma_not_the_one(source_id, target_id);
            lemma_pruning_keeps_others(before, seq![source_id], target_id);
        }
        let index = pane_index_of(self, target_id);
        match self.split_and_insert(index, request, source_id) {
            Err(e) => {
                self.tree = tree;
                self.size = size;
                self.active = active;
                self.recency = recency;
                self.zoomed = zoomed;
                self.size_before_zoom = size_before_zoom;
                self.resize_reference = resize_reference;
                Err(MoveError::Split(e))
            },
            Ok(i) => Ok(i),
        }
    }

    /// Move pane `source_id` of the tab `source` next to pane `target_id` of
    /// this tab: the target is split as `request` says, then the pane leaves
    /// its old tab. When the split is refused neither tab changes. Gives the
    /// index of the moved pane in this tab.
    pub fn move_pane_from(
        &mut self,
        source: &mut TabLayout,
        source_id: usize,
        target_id: usize,
        request: SplitRequest,
    ) -> (result: Result<usize, MoveError>)
        requires
            old(self).wf(),
            old(source).size.cols > 0,
            old(source).size.rows > 0,
            old(self).panes().contains(target_id) ==> {
                let index = position_of(old(self).panes(), target_id) as usize;
                &&& plan_defined(*old(self), index, request)
                &&& split_resize_defined(*old(self), index, request)
            },
            pruning_defined(*old(source), seq![source_id]),
        ensures
            move_from_outcome(
                *old(self),
                *old(source),
                source_id,
                target_id,
                request,
                *final(self),
                *final(source),
                result,
            ),
    {
        if source_id == target_id {
            return Err(MoveError::IntoItself);
        }
        if !tree_contains(&source.tree, source_id) {
            return Err(MoveError::SourceMissing(source_id));
        }
        if !tree_contains(&self.tree, target_id) {
            return Err(MoveError::TargetMissing(target_id));
        }
        let index = pane_index_of(self, target_id);
        match self.split_and_insert(index, request, source_id) {
            Err(e) => Err(MoveError::Split(e)),
            Ok(i) => {
                source.remove_pane(source_id);
                Ok(i)
            },
        }
    }
}

} // verus!
