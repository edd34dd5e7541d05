//! The layout state of one tab: its split tree, size, active pane and zoom,
//! and the operations that rearrange panes.
use vstd::prelude::*;
use crate::layout::direction::Recency;
use crate::layout::prune::{lemma_only_not_elsewhere, lemma_pruning_finds, lemma_pruning_single, pruned_layout, pruning_defined};
use crate::layout::adjust::{adjust_defined, adjust_size, adjusted, height, lemma_adjusted_height};
use crate::layout::proportional::{
    applied, captured, lemma_applied_keeps_panes, lemma_resize_has_no_drift, reference_matches, resize_split_proportionally, resized_split, split_dimensions,
    split_dimensions_spec, SplitResizeReference,
};
use crate::layout::size::{
    cell_dimensions, cell_of, sat_sub, SplitDirection, SplitDirectionAndSize, SplitRequest, TermSize,
};
use crate::layout::tree::{
    compute_min_size, count_leaves, leaves, min_size, split_layout, split_layout_fits, split_layout_spec,
    tree_contains, Tree,
};

verus! {

/// `tree` with its panes replaced, left to right, by `ids`.
pub open spec fn relabeled(tree: Tree, ids: Seq<usize>) -> Tree
    decreases tree,
{
    match tree {
        Tree::Empty => Tree::Empty,
        Tree::Leaf(_) => Tree::Leaf(ids[0]),
        Tree::Node { left, right, data } => {
            let n = leaves(*left).len() as int;
            Tree::Node {
                left: Box::new(relabeled(*left, ids.take(n))),
                right: Box::new(relabeled(*right, ids.skip(n))),
                data,
            }
        },
    }
}

/// Two trees with the same splits, whatever their panes.
pub open spec fn same_shape(a: Tree, b: Tree) -> bool
    decreases a,
{
    match (a, b) {
        (Tree::Empty, Tree::Empty) => true,
        (Tree::Leaf(_), Tree::Leaf(_)) => true,
        (Tree::Node { left: al, right: ar, data: ad }, Tree::Node { left: bl, right: br, data: bd }) => ad == bd
            && same_shape(*al, *bl) && same_shape(*ar, *br),
        _ => false,
    }
}

pub proof fn lemma_same_shape_reflexive(tree: Tree)
    ensures
        same_shape(tree, tree),
    decreases tree,
{
    if let Tree::Node { left, right, .. } = tree {
        lemma_same_shape_reflexive(*left);
        lemma_same_shape_reflexive(*right);
    }
}

/// Relabelling gives the tree exactly the new panes and keeps its splits.
pub proof fn lemma_relabeled(tree: Tree, ids: Seq<usize>)
    requires
        ids.len() == leaves(tree).len(),
    ensures
        leaves(relabeled(tree, ids)) == ids,
        same_shape(tree, relabeled(tree, ids)),
    decreases tree,
{
    match tree {
        Tree::Empty => {
            assert(ids =~= Seq::<usize>::empty());
        },
        Tree::Leaf(_) => {
            assert(ids =~= seq![ids[0]]);
        },
        Tree::Node { left, right, data } => {
            let n = leaves(*left).len() as int;
            lemma_relabeled(*left, ids.take(n));
            lemma_relabeled(*right, ids.skip(n));
            assert(ids.take(n) + ids.skip(n) =~= ids);
        },
    }
}

/// Give the panes of `tree`, left to right, the ids `ids[at..]`.
fn relabel(tree: &mut Tree, ids: &Vec<usize>, at: usize) -> (next: usize)
    requires
        at + leaves(*old(tree)).len() <= ids@.len(),
    ensures
        next == at + leaves(*old(tree)).len(),
        *final(tree) == relabeled(*old(tree), ids@.subrange(at as int, next as int)),
    decreases *old(tree),
{
    match tree {
        Tree::Empty => at,
        Tree::Leaf(id) => {
            let n = ids.len();
            assert(at + 1 <= n);
            *id = ids[at];
            at + 1
        },
        Tree::Node { left, right, .. } => {
            let ghost l = leaves(**left);
            let ghost r = leaves(**right);
            let mid = relabel(&mut **left, ids, at);
            let next = relabel(&mut **right, ids, mid);
            proof {
                let all = ids@.subrange(at as int, next as int);
                assert(all.take(l.len() as int) =~= ids@.subrange(at as int, mid as int));
                assert(all.skip(l.len() as int) =~= ids@.subrange(mid as int, next as int));
            }
            next
        },
    }
}

fn collect_leaves(tree: &Tree, out: &mut Vec<usize>)
    requires
        old(out)@.len() + leaves(*tree).len() <= usize::MAX,
    ensures
        final(out)@ == old(out)@ + leaves(*tree),
    decreases tree,
{
    match tree {
        Tree::Empty => {
            assert(old(out)@ + leaves(*tree) =~= old(out)@);
        },
        Tree::Leaf(id) => {
            out.push(*id);
            assert(out@ =~= old(out)@ + leaves(*tree));
        },
        Tree::Node { left, right, .. } => {
            collect_leaves(left, out);
            collect_leaves(right, out);
            assert(out@ =~= old(out)@ + leaves(*tree));
        },
    }
}

/// The panes turned one place to the right: the last comes first.
pub open spec fn rotated_right(s: Seq<usize>) -> Seq<usize> {
    if s.len() == 0 { s } else { seq![s.last()] + s.drop_last() }
}

/// The panes turned one place to the left: the first goes last.
pub open spec fn rotated_left(s: Seq<usize>) -> Seq<usize> {
    if s.len() == 0 { s } else { s.drop_first().push(s[0]) }
}

/// A rotation one way undoes a rotation the other way.
pub proof fn lemma_rotations_undo(s: Seq<usize>)
    ensures
        rotated_left(rotated_right(s)) == s,
        rotated_right(rotated_left(s)) == s,
{
    if s.len() > 0 {
        assert(rotated_left(rotated_right(s)) =~= s);
        assert(rotated_right(rotated_left(s)) =~= s);
    }
}

/// The layout of one tab: its split tree, the size of the whole tab, the
/// active pane as an index into the panes left to right, and the zoomed
/// pane, if any.
pub struct TabLayout {
    pub tree: Tree,
    pub size: TermSize,
    pub active: usize,
    pub zoomed: Option<usize>,
    pub recency: Recency,
    /// Resize splits in their stored ratios instead of growing the last part.
    pub proportional: bool,
    /// The ratios proportional resizing keeps, while the splits still match.
    pub resize_reference: Option<SplitResizeReference>,
    /// The tab's size when its pane was zoomed.
    pub size_before_zoom: TermSize,
}

impl TabLayout {
    pub open spec fn panes(&self) -> Seq<usize> {
        leaves(self.tree)
    }

    /// The tab's panes fit the machine: their count fits `usize`.
    pub open spec fn wf(&self) -> bool {
        &&& self.panes().len() < usize::MAX
        &&& self.recency.wf()
        &&& self.recency.clock() < usize::MAX
    }

    /// The active pane: the zoomed one, or the pane at the active index.
    pub open spec fn active_pane(&self) -> Option<usize> {
        match self.zoomed {
            Some(p) => Some(p),
            None => if self.active < self.panes().len() { Some(self.panes()[self.active as int]) } else { None },
        }
    }

    pub fn count_panes(&self) -> (count: usize)
        requires
            self.wf(),
        ensures
            count == self.panes().len(),
    {
        count_leaves(&self.tree)
    }

    pub fn contains_pane(&self, pane: usize) -> (found: bool)
        ensures
            found == self.panes().contains(pane),
    {
        tree_contains(&self.tree, pane)
    }

    fn pane_ids(&self) -> (ids: Vec<usize>)
        requires
            self.wf(),
        ensures
            ids@ == self.panes(),
    {
        let mut ids: Vec<usize> = Vec::new();
        collect_leaves(&self.tree, &mut ids);
        assert(ids@ =~= self.panes());
        ids
    }

    /// The index of the active pane among the panes, left to right.
    pub fn get_active_idx(&self) -> (index: usize)
        ensures
            index == self.active,
    {
        self.active
    }

    /// The zoomed pane, if any.
    pub fn get_zoomed_pane(&self) -> (pane: Option<usize>)
        ensures
            pane == self.zoomed,
    {
        self.zoomed
    }

    pub fn get_active_pane(&self) -> (pane: Option<usize>)
        requires
            self.wf(),
        ensures
            pane == self.active_pane(),
    {
        match self.zoomed {
            Some(p) => Some(p),
            None => {
                let ids = self.pane_ids();
                if self.active < ids.len() {
                    Some(ids[self.active])
                } else {
                    None
                }
            },
        }
    }

    /// Make the pane at `pane_index` active and note the activation.
    pub fn set_active_idx(&mut self, pane_index: usize)
        requires
            old(self).wf(),
        ensures
            final(self).active == pane_index,
            final(self).recency.scores() == old(self).recency.scores().insert(pane_index, old(self).recency.clock()),
            final(self).recency.wf(),
            final(self).recency.clock() == old(self).recency.clock() + 1,
            final(self).tree == old(self).tree,
            final(self).zoomed == old(self).zoomed,
            final(self).size == old(self).size,
    {
        self.active = pane_index;
        self.recency.tag(pane_index);
    }

    /// Move every pane one place to the right in the left-to-right order;
    /// the last pane comes first. The splits stay as they are.
    pub fn rotate_clockwise(&mut self)
        requires
            old(self).wf(),
        ensures
            final(self).panes() == rotated_right(old(self).panes()),
            same_shape(old(self).tree, final(self).tree),
            final(self).active == old(self).active,
            final(self).zoomed == old(self).zoomed,
            final(self).size == old(self).size,
    {
        let ids = self.pane_ids();
        let n = ids.len();
        if n == 0 {
            proof {
                lemma_same_shape_reflexive(self.tree);
            }
            return;
        }
        let mut turned: Vec<usize> = Vec::new();
        turned.push(ids[n - 1]);
        let mut i: usize = 0;
        while i + 1 < n
            invariant
                n == ids@.len(),
                n > 0,
                i + 1 <= n,
                turned@ == seq![ids@.last()] + ids@.subrange(0, i as int),
            decreases n - i,
        {
            turned.push(ids[i]);
            assert(ids@.subrange(0, i + 1) =~= ids@.subrange(0, i as int).push(ids@[i as int]));
            i = i + 1;
        }
        assert(turned@ =~= rotated_right(ids@));
        let ghost before = self.tree;
        relabel(&mut self.tree, &turned, 0);
        proof {
            assert(turned@.subrange(0, n as int) =~= turned@);
            lemma_relabeled(before, turned@);
        }
    }

    /// Move every pane one place to the left; the first pane goes last.
    pub fn rotate_counter_clockwise(&mut self)
        requires
            old(self).wf(),
        ensures
            final(self).panes() == rotated_left(old(self).panes()),
            same_shape(old(self).tree, final(self).tree),
            final(self).active == old(self).active,
            final(self).zoomed == old(self).zoomed,
            final(self).size == old(self).size,
    {
        let ids = self.pane_ids();
        let n = ids.len();
        if n == 0 {
            proof {
                lemma_same_shape_reflexive(self.tree);
            }
            return;
        }
        let mut turned: Vec<usize> = Vec::new();
        let mut i: usize = 1;
        while i < n
            invariant
                n == ids@.len(),
                1 <= i <= n,
                turned@ == ids@.subrange(1, i as int),
            decreases n - i,
        {
            turned.push(ids[i]);
            assert(ids@.subrange(1, i + 1) =~= ids@.subrange(1, i as int).push(ids@[i as int]));
            i = i + 1;
        }
        turned.push(ids[0]);
        assert(turned@ =~= rotated_left(ids@));
        let ghost before = self.tree;
        relabel(&mut self.tree, &turned, 0);
        proof {
            assert(turned@.subrange(0, n as int) =~= turned@);
            lemma_relabeled(before, turned@);
        }
    }

    /// Swap the active pane with the pane at `pane_index`; with `keep_focus`
    /// the focus follows the active pane to its new place. `None`, and no
    /// change, when there is no active pane or no pane at `pane_index`.
    pub fn swap_active_with_index(&mut self, pane_index: usize, keep_focus: bool) -> (done: Option<()>)
        requires
            old(self).wf(),
        ensures
            ({
                let panes = old(self).panes();
                let a = old(self).active as int;
                let i = pane_index as int;
                match old(self).active_pane() {
                    None => done is None && *final(self) == *old(self),
                    Some(p) => if i >= panes.len() {
                        done is None && *final(self) == *old(self)
                    } else if a >= panes.len() {
                        &&& done is None
                        &&& final(self).panes() == panes.update(i, p)
                        &&& same_shape(old(self).tree, final(self).tree)
                        &&& final(self).active == old(self).active
                    } else {
                        &&& done is Some
                        &&& final(self).panes() == panes.update(i, p).update(a, panes[i])
                        &&& same_shape(old(self).tree, final(self).tree)
                        &&& final(self).active == if keep_focus { pane_index } else { old(self).active }
                    },
                }
            }),
            final(self).zoomed == old(self).zoomed,
            final(self).size == old(self).size,
    {
        let active = self.active;
        let pane = match self.get_active_pane() {
            Some(p) => p,
            None => {
                return None;
            },
        };
        let mut ids = self.pane_ids();
        let n = ids.len();
        if pane_index >= n {
            return None;
        }
        let taken = ids[pane_index];
        ids.set(pane_index, pane);
        if active >= n {
            let ghost before = self.tree;
            relabel(&mut self.tree, &ids, 0);
            proof {
                assert(ids@.subrange(0, n as int) =~= ids@);
                lemma_relabeled(before, ids@);
            }
            return None;
        }
        ids.set(active, taken);
        let ghost before = self.tree;
        relabel(&mut self.tree, &ids, 0);
        proof {
            assert(ids@.subrange(0, n as int) =~= ids@);
            lemma_relabeled(before, ids@);
        }
        if keep_focus {
            self.set_active_idx(pane_index);
        }
        Some(())
    }
}

/// The cell size of a pane `size` for recomputing pixels: one pixel when the
/// size has no cells.
pub open spec fn per_cell(pixels: usize, cells: usize) -> int {
    if cells == 0 { 1 } else { pixels as int / cells as int }
}

/// A split made to fill `size`, keeping the first part where it can: the
/// second part takes what is left after the divider. In proportional mode
/// the stored ratio of the parts is kept instead.
pub open spec fn fitted(nd: SplitDirectionAndSize, size: TermSize, left: Tree, right: Tree, proportional: bool) -> SplitDirectionAndSize {
    if proportional {
        resized_split(
            nd.direction,
            size,
            split_dimensions_spec(nd).0,
            split_dimensions_spec(nd).1,
            min_size(left),
            min_size(right),
        )
    } else {
        let cw = per_cell(size.pixel_width, size.cols);
        let ch = per_cell(size.pixel_height, size.rows);
        let (fc, fr, sc, sr) = match nd.direction {
            SplitDirection::Horizontal => (nd.first.cols as int, size.rows as int, sat_sub(size.cols as int, 1 + nd.first.cols), size.rows as int),
            SplitDirection::Vertical => (size.cols as int, nd.first.rows as int, size.cols as int, sat_sub(size.rows as int, 1 + nd.first.rows)),
        };
        SplitDirectionAndSize {
            direction: nd.direction,
            first: TermSize {
                rows: fr as usize,
                cols: fc as usize,
                pixel_width: (fc * cw) as usize,
                pixel_height: (fr * ch) as usize,
                dpi: nd.first.dpi,
            },
            second: TermSize {
                rows: sr as usize,
                cols: sc as usize,
                pixel_width: (sc * cw) as usize,
                pixel_height: (sr * ch) as usize,
                dpi: nd.second.dpi,
            },
        }
    }
}

/// Fitting `nd` to `size` stays within the machine's integers.
pub open spec fn fit_defined(nd: SplitDirectionAndSize, size: TermSize, left: Tree, right: Tree, proportional: bool) -> bool {
    if proportional {
        &&& size.cols > 0 && size.rows > 0
        &&& min_size(left).0 <= usize::MAX && min_size(left).1 <= usize::MAX
        &&& min_size(right).0 <= usize::MAX && min_size(right).1 <= usize::MAX
    } else {
        let cw = per_cell(size.pixel_width, size.cols);
        let ch = per_cell(size.pixel_height, size.rows);
        &&& nd.first.cols < usize::MAX && nd.first.rows < usize::MAX
        &&& nd.first.cols * cw <= usize::MAX && nd.first.rows * ch <= usize::MAX
        &&& size.cols * cw <= usize::MAX && size.rows * ch <= usize::MAX
    }
}

/// The rectangle of a split as one size, in cells of `cell`.
pub open spec fn node_size(nd: SplitDirectionAndSize, cell: TermSize) -> TermSize {
    TermSize {
        rows: nd.height_spec() as usize,
        cols: nd.width_spec() as usize,
        pixel_width: (cell.pixel_width * nd.width_spec()) as usize,
        pixel_height: (cell.pixel_height * nd.height_spec()) as usize,
        dpi: cell.dpi,
    }
}

pub open spec fn node_size_defined(nd: SplitDirectionAndSize, cell: TermSize) -> bool {
    &&& nd.width_spec() <= usize::MAX && nd.height_spec() <= usize::MAX
    &&& cell.pixel_width * nd.width_spec() <= usize::MAX
    &&& cell.pixel_height * nd.height_spec() <= usize::MAX
}

/// The first place of `id` in `s`, or -1.
pub open spec fn position_of(s: Seq<usize>, id: usize) -> int
    decreases s.len(),
{
    if s.len() == 0 {
        -1
    } else if s[0] == id {
        0
    } else {
        let rest = position_of(s.drop_first(), id);
        if rest < 0 { -1 } else { rest + 1 }
    }
}

pub proof fn lemma_position_of(s: Seq<usize>, id: usize)
    ensures
        s.contains(id) ==> 0 <= position_of(s, id) < s.len() && s[position_of(s, id)] == id,
        !s.contains(id) ==> position_of(s, id) == -1,
    decreases s.len(),
{
    if s.len() > 0 {
        lemma_position_of(s.drop_first(), id);
        if s[0] != id {
            if s.contains(id) {
                let k = choose|k: int| 0 <= k < s.len() && s[k] == id;
                assert(s.drop_first()[k - 1] == id);
            }
            if s.drop_first().contains(id) {
                let k = choose|k: int| 0 <= k < s.drop_first().len() && s.drop_first()[k] == id;
                assert(s[k + 1] == id);
            }
        }
    }
}

pub(crate) proof fn lemma_position_of_append(a: Seq<usize>, b: Seq<usize>, id: usize)
    ensures
        position_of(a + b, id) == if a.contains(id) {
            position_of(a, id)
        } else if b.contains(id) {
            a.len() + position_of(b, id)
        } else {
            -1
        },
    decreases a.len(),
{
    lemma_position_of(a, id);
    lemma_position_of(b, id);
    lemma_position_of(a + b, id);
    if a.len() == 0 {
        assert(a + b =~= b);
    } else {
        assert((a + b).drop_first() =~= a.drop_first() + b);
        lemma_position_of_append(a.drop_first(), b, id);
        if a[0] != id {
            if a.drop_first().contains(id) {
                let k = choose|k: int| 0 <= k < a.drop_first().len() && a.drop_first()[k] == id;
                assert(a[k + 1] == id);
            }
            if a.contains(id) {
                let k = choose|k: int| 0 <= k < a.len() && a[k] == id;
                assert(a.drop_first()[k - 1] == id);
            }
        }
    }
}

pub(crate) fn fit(nd: &mut SplitDirectionAndSize, size: TermSize, left: &Tree, right: &Tree, proportional: bool)
    requires
        fit_defined(*old(nd), size, *left, *right, proportional),
    ensures
        *final(nd) == fitted(*old(nd), size, *left, *right, proportional),
{
    if proportional {
        let (first, second) = split_dimensions(nd);
        let minimum_first = compute_min_size(left);
        let minimum_second = compute_min_size(right);
        resize_split_proportionally(nd, size, first, second, minimum_first, minimum_second);
        return;
    }
    let cw: usize = if size.cols == 0 { 1 } else { size.pixel_width / size.cols };
    let ch: usize = if size.rows == 0 { 1 } else { size.pixel_height / size.rows };
    match nd.direction {
        SplitDirection::Horizontal => {
            nd.first.rows = size.rows;
            nd.second.rows = size.rows;
            nd.second.cols = size.cols.saturating_sub(1 + nd.first.cols);
        },
        SplitDirection::Vertical => {
            nd.first.cols = size.cols;
            nd.second.cols = size.cols;
            nd.second.rows = size.rows.saturating_sub(1 + nd.first.rows);
        },
    }
    proof {
        assert(nd.second.cols <= size.cols);
        assert(nd.second.rows <= size.rows);
        assert(nd.second.cols * cw <= size.cols * cw) by (nonlinear_arith)
            requires
                nd.second.cols <= size.cols,
                cw >= 0,
        ;
        assert(nd.second.rows * ch <= size.rows * ch) by (nonlinear_arith)
            requires
                nd.second.rows <= size.rows,
                ch >= 0,
        ;
    }
    nd.first.pixel_width = nd.first.cols * cw;
    nd.first.pixel_height = nd.first.rows * ch;
    nd.second.pixel_width = nd.second.cols * cw;
    nd.second.pixel_height = nd.second.rows * ch;
}

impl TabLayout {
    /// Remove the pane `pane_id`, as `remove_pane_if` does for a single
    /// pane; says whether it was there. See `lemma_pruning_single` for what
    /// becomes of the panes, the active index and the zoom.
    pub fn remove_pane(&mut self, pane_id: usize) -> (found: bool)
        requires
            pruning_defined(*old(self), seq![pane_id]),
        ensures
            found == old(self).panes().contains(pane_id),
            *final(self) == pruned_layout(*old(self), seq![pane_id]),
    {
        let ids = [pane_id];
        assert(ids@ =~= seq![pane_id]);
        let dead = self.remove_pane_if(&ids);
        proof {
            lemma_pruning_finds(*old(self), seq![pane_id]);
            if old(self).panes().contains(pane_id) {
                let k = choose|k: int| 0 <= k < old(self).panes().len() && old(self).panes()[k] == pane_id;
                assert(seq![pane_id].contains(old(self).panes()[k])) by {
                    assert(seq![pane_id][0] == pane_id);
                }
            } else {
                lemma_only_not_elsewhere(old(self).tree, pane_id);
            }
        }
        dead.len() > 0
    }

    fn pane_ids_unbounded(&self) -> (ids: Vec<usize>)
        ensures
            ids@ == self.panes(),
    {
        let mut ids: Vec<usize> = Vec::new();
        collect_all(&self.tree, &mut ids);
        ids
    }
}

fn collect_all(tree: &Tree, out: &mut Vec<usize>)
    ensures
        final(out)@ == old(out)@ + leaves(*tree),
    decreases tree,
{
    match tree {
        Tree::Empty => {
            assert(old(out)@ + leaves(*tree) =~= old(out)@);
        },
        Tree::Leaf(id) => {
            out.push(*id);
            assert(out@ =~= old(out)@ + leaves(*tree));
        },
        Tree::Node { left, right, .. } => {
            collect_all(left, out);
            collect_all(right, out);
            assert(out@ =~= old(out)@ + leaves(*tree));
        },
    }
}

proof fn lemma_first_place(s: Seq<usize>, id: usize, at: int)
    requires
        0 <= at <= s.len(),
        forall|k: int| 0 <= k < at ==> s[k] != id,
        at < s.len() ==> s[at] == id,
        s.contains(id),
    ensures
        at == position_of(s, id),
    decreases s.len(),
{
    lemma_position_of(s, id);
    if at == s.len() {
        let k = choose|k: int| 0 <= k < s.len() && s[k] == id;
        assert(false);
    }
    if s[0] != id {
        let rest = s.drop_first();
        assert forall|k: int| 0 <= k < at - 1 implies rest[k] != id by {
            assert(rest[k] == s[k + 1]);
        }
        assert(rest[at - 1] == id);
        assert(rest.contains(id));
        lemma_first_place(rest, id, at - 1);
    }
}

/// The size a tab takes when asked for `size`: never below what its panes
/// need, in whole cells of `size`.
pub open spec fn grown_size(size: TermSize, tree: Tree) -> TermSize {
    let dims = cell_of(size);
    let cols = if size.cols >= min_size(tree).0 { size.cols as int } else { min_size(tree).0 as int };
    let rows = if size.rows >= min_size(tree).1 { size.rows as int } else { min_size(tree).1 as int };
    TermSize {
        rows: rows as usize,
        cols: cols as usize,
        pixel_width: (cols * dims.pixel_width) as usize,
        pixel_height: (rows * dims.pixel_height) as usize,
        dpi: dims.dpi,
    }
}


/// The layout `resize(size)` gives a tab that shows its splits.
pub open spec fn resized_layout(layout: TabLayout, size: TermSize) -> TabLayout {
    TabLayout {
        size: grown_size(size, layout.tree),
        tree: resized_tree(layout, size),
        resize_reference: if layout.proportional {
            Some(reference_for(layout.resize_reference, layout.tree))
        } else {
            layout.resize_reference
        },
        ..layout
    }
}

/// The ratios taken from a tree fit that tree.
pub proof fn lemma_captured_matches(tree: Tree)
    ensures
        reference_matches(captured(tree), tree),
    decreases tree,
{
    match tree {
        Tree::Node { left, right, data: Some(_) } => {
            lemma_captured_matches(*left);
            lemma_captured_matches(*right);
        },
        _ => {},
    }
}

/// A proportionally resizing tab never drifts: once resized to `size`, going
/// to any other size and back to `size` gives back exactly the same layout.
pub proof fn lemma_resize_round_trip(layout: TabLayout, size: TermSize, other: TermSize)
    requires
        layout.proportional,
        layout.zoomed is None,
        size.rows > 0 && size.cols > 0,
        other.rows > 0 && other.cols > 0,
    ensures
        ({
            let once = resized_layout(layout, size);
            resized_layout(resized_layout(once, other), size) == once
        }),
{
    let t = layout.tree;
    let r = reference_for(layout.resize_reference, t);
    lemma_captured_matches(t);
    assert(reference_matches(r, t));
    let g1 = grown_size(size, t);
    let t1 = applied(r, t, g1);
    lemma_applied_keeps_panes(r, t, g1);
    let once = resized_layout(layout, size);
    assert(once.tree == t1);
    let g2 = grown_size(other, t1);
    let t2 = applied(r, t1, g2);
    lemma_applied_keeps_panes(r, t1, g2);
    let twice = resized_layout(once, other);
    assert(reference_for(once.resize_reference, t1) == r);
    assert(twice.tree == t2);
    assert(reference_for(twice.resize_reference, t2) == r);
    assert(grown_size(size, t2) == g1);
    lemma_resize_has_no_drift(r, t1, g2, g1);
    lemma_resize_has_no_drift(r, t, g1, g1);
}


/// Every split of `tree` is where proportional resizing to `size` would put
/// it, by its own ratio: the two parts tile the split's rectangle in whole
/// cells of `size` and keep the minimum sizes their panes need.
pub open spec fn settled(tree: Tree, size: TermSize) -> bool
    decreases tree,
{
    match tree {
        Tree::Node { left, right, data: Some(data) } => {
            &&& data == resized_split(
                data.direction,
                size,
                split_dimensions_spec(data).0,
                split_dimensions_spec(data).1,
                min_size(*left),
                min_size(*right),
            )
            &&& settled(*left, data.first)
            &&& settled(*right, data.second)
        },
        _ => true,
    }
}

/// A settled tree is its own proportional resize.
pub proof fn lemma_settled_is_fixed(tree: Tree, size: TermSize)
    requires
        settled(tree, size),
    ensures
        applied(captured(tree), tree, size) == tree,
    decreases tree,
{
    match tree {
        Tree::Node { left, right, data: Some(data) } => {
            lemma_settled_is_fixed(*left, data.first);
            lemma_settled_is_fixed(*right, data.second);
        },
        _ => {},
    }
}

/// Resizing a tab that has just begun to resize proportionally away to any
/// size and back gives back the layout it had, when that layout is settled
/// at the tab's size and the size needs no growing: the ratios then stay
/// stored.
pub proof fn lemma_resize_back_to_start(layout: TabLayout, other: TermSize)
    requires
        layout.proportional,
        layout.zoomed is None,
        reference_for(layout.resize_reference, layout.tree) == captured(layout.tree),
        layout.size.rows > 0 && layout.size.cols > 0,
        other.rows > 0 && other.cols > 0,
        grown_size(layout.size, layout.tree) == layout.size,
        settled(layout.tree, layout.size),
    ensures
        resized_layout(resized_layout(layout, other), layout.size) == (TabLayout {
            resize_reference: Some(captured(layout.tree)),
            ..layout
        }),
{
    let t = layout.tree;
    let r = captured(t);
    lemma_captured_matches(t);
    let g2 = grown_size(other, t);
    let t1 = applied(r, t, g2);
    lemma_applied_keeps_panes(r, t, g2);
    let away = resized_layout(layout, other);
    assert(away.tree == t1);
    assert(reference_for(away.resize_reference, t1) == r);
    assert(grown_size(layout.size, t1) == layout.size);
    lemma_resize_has_no_drift(r, t, g2, layout.size);
    lemma_settled_is_fixed(t, layout.size);
}

/// The reference proportional resizing uses: the stored one while the
/// splits still match it, otherwise the tree's current ratios.
pub open spec fn reference_for(reference: Option<SplitResizeReference>, tree: Tree) -> SplitResizeReference {
    match reference {
        Some(r) => if reference_matches(r, tree) { r } else { captured(tree) },
        None => captured(tree),
    }
}

/// The splits of a tab resized from `current` to `size`.
pub open spec fn resized_tree(layout: TabLayout, size: TermSize) -> Tree {
    let grown = grown_size(size, layout.tree);
    let dims = cell_of(size);
    if layout.proportional {
        applied(reference_for(layout.resize_reference, layout.tree), layout.tree, grown)
    } else {
        let h = height(layout.tree);
        let wider = adjusted(layout.tree, grown.cols - layout.size.cols, dims, true, h);
        adjusted(wider, grown.rows - layout.size.rows, dims, false, h)
    }
}

/// Resizing stays within the machine's integers and ends.
pub open spec fn resize_defined(layout: TabLayout, size: TermSize) -> bool {
    size.rows > 0 && size.cols > 0 && layout.zoomed is None ==> {
        let grown = grown_size(size, layout.tree);
        let dims = cell_of(size);
        let h = height(layout.tree);
        let wider = adjusted(layout.tree, grown.cols - layout.size.cols, dims, true, h);
        &&& min_size(layout.tree).0 <= usize::MAX && min_size(layout.tree).1 <= usize::MAX
        &&& grown.cols * dims.pixel_width <= usize::MAX
        &&& grown.rows * dims.pixel_height <= usize::MAX
        &&& !layout.proportional ==> {
            &&& grown.cols <= isize::MAX && layout.size.cols <= isize::MAX
            &&& grown.rows <= isize::MAX && layout.size.rows <= isize::MAX
            &&& adjust_defined(layout.tree, grown.cols - layout.size.cols, dims, true, h)
            &&& adjust_defined(wider, grown.rows - layout.size.rows, dims, false, h)
        }
    }
}

impl TabLayout {
    /// Resize the tab to `size` (ignored without rows or columns). A zoomed
    /// tab only records the size; otherwise the size grows to what the
    /// panes need, and the splits follow: in their stored ratios when
    /// resizing proportionally, else growing or shrinking split by split.
    pub fn resize(&mut self, size: TermSize)
        requires
            resize_defined(*old(self), size),
        ensures
            size.rows == 0 || size.cols == 0 ==> *final(self) == *old(self),
            size.rows > 0 && size.cols > 0 && old(self).zoomed is Some ==> {
                &&& final(self).size == size
                &&& final(self).tree == old(self).tree
                &&& final(self).resize_reference == old(self).resize_reference
            },
            size.rows > 0 && size.cols > 0 && old(self).zoomed is None ==> {
                &&& final(self).size == grown_size(size, old(self).tree)
                &&& final(self).tree == resized_tree(*old(self), size)
                &&& final(self).resize_reference == if old(self).proportional {
                    Some(reference_for(old(self).resize_reference, old(self).tree))
                } else {
                    old(self).resize_reference
                }
            },
            size.rows > 0 && size.cols > 0 && old(self).zoomed is None ==> *final(self) == resized_layout(
                *old(self),
                size,
            ),
            final(self).active == old(self).active,
            final(self).zoomed == old(self).zoomed,
            final(self).recency == old(self).recency,
            final(self).proportional == old(self).proportional,
            final(self).size_before_zoom == old(self).size_before_zoom,
    {
        if size.rows == 0 || size.cols == 0 {
            return;
        }
        if self.zoomed.is_some() {
            self.size = size;
            return;
        }
        let dims = cell_dimensions(&size);
        let (min_x, min_y) = compute_min_size(&self.tree);
        let current = self.size;
        let cols: usize = if size.cols >= min_x { size.cols } else { min_x };
        let rows: usize = if size.rows >= min_y { size.rows } else { min_y };
        let grown = TermSize {
            rows,
            cols,
            pixel_width: cols * dims.pixel_width,
            pixel_height: rows * dims.pixel_height,
            dpi: dims.dpi,
        };
        if self.proportional {
            let keep = match &self.resize_reference {
                Some(reference) => reference.matches(&self.tree),
                None => false,
            };
            if !keep {
                self.resize_reference = Some(SplitResizeReference::capture(&self.tree));
            }
            match &self.resize_reference {
                Some(reference) => reference.apply(&mut self.tree, grown),
                None => {},
            }
        } else {
            let ghost h = height(self.tree);
            proof {
                lemma_adjusted_height(self.tree, cols - current.cols, dims, true, h);
            }
            adjust_size(&mut self.tree, cols as isize - current.cols as isize, &dims, true, Ghost(h));
            adjust_size(&mut self.tree, rows as isize - current.rows as isize, &dims, false, Ghost(h));
        }
        self.size = grown;
    }
}

/// The size of the pane at `n` (left to right) when the tab is `size`.
pub open spec fn leaf_size(tree: Tree, n: int, size: TermSize) -> Option<TermSize>
    decreases tree,
{
    match tree {
        Tree::Empty => None,
        Tree::Leaf(_) => if n == 0 { Some(size) } else { None },
        Tree::Node { left, right, data } => {
            let k = leaves(*left).len() as int;
            let (a, b) = match data {
                Some(d) => (d.first, d.second),
                None => (size, size),
            };
            if n < k { leaf_size(*left, n, a) } else { leaf_size(*right, n - k, b) }
        },
    }
}

fn pane_size(tree: &Tree, n: usize, size: TermSize) -> (found: Option<TermSize>)
    ensures
        found == leaf_size(*tree, n as int, size),
    decreases tree,
{
    match tree {
        Tree::Empty => None,
        Tree::Leaf(_) => if n == 0 { Some(size) } else { None },
        Tree::Node { left, right, data } => {
            let k = count_all(left);
            let (a, b) = match data {
                Some(d) => (d.first, d.second),
                None => (size, size),
            };
            if n < k { pane_size(left, n, a) } else { pane_size(right, n - k, b) }
        },
    }
}

fn count_all(tree: &Tree) -> (n: usize)
    ensures
        n == leaves(*tree).len(),
{
    let mut ids: Vec<usize> = Vec::new();
    collect_all(tree, &mut ids);
    ids.len()
}

proof fn lemma_leaf_size_in_range(tree: Tree, n: int, size: TermSize)
    ensures
        (leaf_size(tree, n, size) is Some) == (0 <= n < leaves(tree).len()),
    decreases tree,
{
    if let Tree::Node { left, right, data } = tree {
        let (a, b) = match data {
            Some(d) => (d.first, d.second),
            None => (size, size),
        };
        lemma_leaf_size_in_range(*left, n, a);
        lemma_leaf_size_in_range(*right, n - leaves(*left).len(), b);
    }
}

/// `tree` with its pane at `n` split in two: the existing pane and `pane`,
/// in the order the request asks for.
pub open spec fn split_leaf(tree: Tree, n: int, pane: usize, second: bool, split: SplitDirectionAndSize) -> Tree
    decreases tree,
{
    match tree {
        Tree::Empty => Tree::Empty,
        Tree::Leaf(id) => if n == 0 {
            Tree::Node {
                left: Box::new(Tree::Leaf(if second { id } else { pane })),
                right: Box::new(Tree::Leaf(if second { pane } else { id })),
                data: Some(split),
            }
        } else {
            tree
        },
        Tree::Node { left, right, data } => {
            let k = leaves(*left).len() as int;
            if n < k {
                Tree::Node { left: Box::new(split_leaf(*left, n, pane, second, split)), right, data }
            } else {
                Tree::Node { left, right: Box::new(split_leaf(*right, n - k, pane, second, split)), data }
            }
        },
    }
}

/// Splitting a pane puts the new pane right before or after it and keeps
/// every other pane in its place.
pub proof fn lemma_split_leaf_panes(tree: Tree, n: int, pane: usize, second: bool, split: SplitDirectionAndSize)
    requires
        0 <= n < leaves(tree).len(),
    ensures
        leaves(split_leaf(tree, n, pane, second, split)) == leaves(tree).take(n) + (if second {
            seq![leaves(tree)[n], pane]
        } else {
            seq![pane, leaves(tree)[n]]
        }) + leaves(tree).skip(n + 1),
    decreases tree,
{
    match tree {
        Tree::Leaf(id) => {
            let a = if second { id } else { pane };
            let b = if second { pane } else { id };
            assert(n == 0);
            let made = split_leaf(tree, n, pane, second, split);
            assert(made == Tree::Node { left: Box::new(Tree::Leaf(a)), right: Box::new(Tree::Leaf(b)), data: Some(split) });
            assert(leaves(Tree::Leaf(a)) == seq![a]);
            assert(leaves(Tree::Leaf(b)) == seq![b]);
            assert(leaves(made) =~= (if second { seq![id, pane] } else { seq![pane, id] }));
            assert(leaves(tree).take(0) + (if second { seq![id, pane] } else { seq![pane, id] }) + leaves(tree).skip(1)
                =~= (if second { seq![id, pane] } else { seq![pane, id] }));
        },
        Tree::Node { left, right, data } => {
            let l = leaves(*left);
            let r = leaves(*right);
            let k = l.len() as int;
            if n < k {
                lemma_split_leaf_panes(*left, n, pane, second, split);
                assert((l + r)[n] == l[n]);
                assert((l + r).take(n) =~= l.take(n));
                assert((l + r).skip(n + 1) =~= l.skip(n + 1) + r);
                let mid = if second { seq![l[n], pane] } else { seq![pane, l[n]] };
                assert(l.take(n) + mid + l.skip(n + 1) + r =~= (l + r).take(n) + mid + (l + r).skip(n + 1));
            } else {
                lemma_split_leaf_panes(*right, n - k, pane, second, split);
                assert((l + r)[n] == r[n - k]);
                assert((l + r).take(n) =~= l + r.take(n - k));
                assert((l + r).skip(n + 1) =~= r.skip(n - k + 1));
                let mid = if second { seq![r[n - k], pane] } else { seq![pane, r[n - k]] };
                assert(l + (r.take(n - k) + mid + r.skip(n - k + 1)) =~= (l + r).take(n) + mid + (l + r).skip(n + 1));
            }
        },
        Tree::Empty => {},
    }
}

fn split_leaf_exec(tree: Tree, n: usize, pane: usize, second: bool, split: SplitDirectionAndSize) -> (result: Tree)
    ensures
        result == split_leaf(tree, n as int, pane, second, split),
    decreases tree,
{
    match tree {
        Tree::Empty => Tree::Empty,
        Tree::Leaf(id) => {
            if n == 0 {
                Tree::Node {
                    left: Box::new(Tree::Leaf(if second { id } else { pane })),
                    right: Box::new(Tree::Leaf(if second { pane } else { id })),
                    data: Some(split),
                }
            } else {
                Tree::Leaf(id)
            }
        },
        Tree::Node { left, right, data } => {
            let k = count_all(&left);
            if n < k {
                Tree::Node { left: Box::new(split_leaf_exec(*left, n, pane, second, split)), right, data }
            } else {
                Tree::Node { left, right: Box::new(split_leaf_exec(*right, n - k, pane, second, split)), data }
            }
        },
    }
}

#[derive(Debug, Clone, Copy, PartialEq, Eq, Structural)]
pub enum SplitError {
    Zoomed,
    InvalidIndex(usize),
    NoSpace,
    /// A terminal did not accept the size the split gives it.
    Refused,
}

/// What a split will do, for the caller to resize the terminals concerned
/// before the tree changes.
#[derive(Debug, Clone, Copy)]
pub struct SplitPlan {
    /// The sizes of the two parts of the new split.
    pub split: SplitDirectionAndSize,
    /// The new split becomes the root, around all existing panes.
    pub new_root: bool,
    /// The existing panes shrink to make room first.
    pub needs_resize: bool,
    /// For a split of one pane: that pane and its current size.
    pub existing: Option<(usize, TermSize)>,
}

/// Whether the split parts have room: at least one row and column each,
/// and the second part inside the tab.
pub open spec fn split_has_room(split: SplitDirectionAndSize, tab: TermSize) -> bool {
    &&& split.first.rows > 0 && split.first.cols > 0 && split.second.rows > 0 && split.second.cols > 0
    &&& split.top_of_second_spec() + split.second.rows <= tab.rows
    &&& split.left_of_second_spec() + split.second.cols <= tab.cols
}

/// The rectangle a split request divides: the whole tab, or the pane at
/// `pane_index`.
pub open spec fn split_target(layout: TabLayout, pane_index: usize, request: SplitRequest) -> Option<TermSize> {
    if request.top_level {
        Some(layout.size)
    } else {
        leaf_size(layout.tree, pane_index as int, layout.size)
    }
}

/// What splitting the pane at `pane_index` (or the whole tab) will do, or
/// why it cannot be done.
pub open spec fn planned(layout: TabLayout, pane_index: usize, request: SplitRequest) -> Result<SplitPlan, SplitError> {
    if layout.zoomed is Some {
        Err(SplitError::Zoomed)
    } else {
        match split_target(layout, pane_index, request) {
            None => Err(SplitError::InvalidIndex(pane_index)),
            Some(target) => {
                let split = split_layout_spec(target.cols, target.rows, request, cell_of(layout.size));
                if !split_has_room(split, layout.size) {
                    Err(SplitError::NoSpace)
                } else {
                    let new_root = request.top_level && layout.tree is Node;
                    if !new_root && pane_index >= leaves(layout.tree).len() {
                        Err(SplitError::InvalidIndex(pane_index))
                    } else {
                        Ok(SplitPlan {
                            split,
                            new_root,
                            needs_resize: request.top_level && leaves(layout.tree).len() > 1,
                            existing: if new_root {
                                None
                            } else {
                                Some((leaves(layout.tree)[pane_index as int], leaf_size(layout.tree, pane_index as int, layout.size).unwrap()))
                            },
                        })
                    }
                }
            },
        }
    }
}

/// Planning a split stays within the machine's integers.
pub open spec fn plan_defined(layout: TabLayout, pane_index: usize, request: SplitRequest) -> bool {
    &&& layout.size.cols > 0 && layout.size.rows > 0
    &&& split_target(layout, pane_index, request) matches Some(target) ==> split_layout_fits(
        target.cols,
        target.rows,
        request,
        cell_of(layout.size),
    )
    &&& leaves(layout.tree).len() < usize::MAX
}

/// The part of a new root split that the existing panes keep.
pub open spec fn kept_part(split: SplitDirectionAndSize, request: SplitRequest) -> TermSize {
    if request.target_is_second { split.first } else { split.second }
}

impl TabLayout {
    /// What `split_and_insert` would do; the caller resizes the terminals
    /// concerned with it before committing the split.
    pub fn plan_split(&self, pane_index: usize, request: SplitRequest) -> (plan: Result<SplitPlan, SplitError>)
        requires
            plan_defined(*self, pane_index, request),
        ensures
            plan == planned(*self, pane_index, request),
    {
        if self.zoomed.is_some() {
            return Err(SplitError::Zoomed);
        }
        let cell = cell_dimensions(&self.size);
        let target = if request.top_level {
            Some(self.size)
        } else {
            pane_size(&self.tree, pane_index, self.size)
        };
        let target = match target {
            Some(t) => t,
            None => {
                return Err(SplitError::InvalidIndex(pane_index));
            },
        };
        let split = split_layout(target.cols, target.rows, request, cell);
        let tab = self.size;
        if split.first.rows == 0 || split.first.cols == 0 || split.second.rows == 0 || split.second.cols == 0 {
            return Err(SplitError::NoSpace);
        }
        let top: usize = match split.direction {
            SplitDirection::Horizontal => 0,
            SplitDirection::Vertical => split.first.rows + 1,
        };
        let left: usize = match split.direction {
            SplitDirection::Horizontal => split.first.cols + 1,
            SplitDirection::Vertical => 0,
        };
        if top > tab.rows || split.second.rows > tab.rows - top || left > tab.cols || split.second.cols > tab.cols - left {
            return Err(SplitError::NoSpace);
        }
        let n = count_all(&self.tree);
        let new_root = request.top_level && match &self.tree {
            Tree::Node { .. } => true,
            _ => false,
        };
        if !new_root && pane_index >= n {
            return Err(SplitError::InvalidIndex(pane_index));
        }
        let existing = if new_root {
            None
        } else {
            let ids = self.pane_ids_unbounded();
            proof {
                lemma_leaf_size_in_range(self.tree, pane_index as int, self.size);
            }
            match pane_size(&self.tree, pane_index, self.size) {
                Some(size) => Some((ids[pane_index], size)),
                None => None,
            }
        };
        Ok(SplitPlan { split, new_root, needs_resize: request.top_level && n > 1, existing })
    }
}

impl TabLayout {
    /// The sizes a split of pane `pane_index` (or, for a top-level request,
    /// of the whole tab) would give its two parts, in cells of the tab's size;
    /// `None` for a pane that is not there. Asking about a pane ends a zoom.
    pub fn compute_split_size(&mut self, pane_index: usize, request: SplitRequest) -> (split: Option<
        SplitDirectionAndSize,
    >)
        requires
            old(self).wf(),
            old(self).size.cols > 0,
            old(self).size.rows > 0,
            request.top_level ==> split_layout_fits(
                old(self).size.cols,
                old(self).size.rows,
                request,
                cell_of(old(self).size),
            ),
            !request.top_level && old(self).zoomed is Some ==> resize_defined(
                TabLayout { size: old(self).size_before_zoom, zoomed: None, ..*old(self) },
                old(self).size,
            ),
            !request.top_level ==> {
                let base = if old(self).zoomed is Some { unzoomed_layout(*old(self)) } else { *old(self) };
                leaf_size(base.tree, pane_index as int, base.size) matches Some(t) ==> split_layout_fits(
                    t.cols,
                    t.rows,
                    request,
                    cell_of(old(self).size),
                )
            },
        ensures
            request.top_level ==> *final(self) == *old(self) && split == Some(
                split_layout_spec(old(self).size.cols, old(self).size.rows, request, cell_of(old(self).size)),
            ),
            !request.top_level ==> {
                let base = if old(self).zoomed is Some { unzoomed_layout(*old(self)) } else { *old(self) };
                &&& *final(self) == base
                &&& split == match leaf_size(base.tree, pane_index as int, base.size) {
                    Some(t) => Some(split_layout_spec(t.cols, t.rows, request, cell_of(old(self).size))),
                    None => None,
                }
            },
    {
        let cell = cell_dimensions(&self.size);
        if request.top_level {
            return Some(split_layout(self.size.cols, self.size.rows, request, cell));
        }
        self.set_zoomed(false);
        match pane_size(&self.tree, pane_index, self.size) {
            Some(t) => Some(split_layout(t.cols, t.rows, request, cell)),
            None => None,
        }
    }
}

/// The tree of a new root split: the existing panes (resized first when
/// there are several) on one side and `pane` on the other.
pub open spec fn rooted(layout: TabLayout, plan: SplitPlan, request: SplitRequest, pane: usize) -> Tree {
    let kept = if plan.needs_resize { resized_tree(layout, kept_part(plan.split, request)) } else { layout.tree };
    if request.target_is_second {
        Tree::Node { left: Box::new(kept), right: Box::new(Tree::Leaf(pane)), data: Some(plan.split) }
    } else {
        Tree::Node { left: Box::new(Tree::Leaf(pane)), right: Box::new(kept), data: Some(plan.split) }
    }
}

/// Shrinking the existing panes for a new root split stays within the
/// machine's integers and ends.
pub open spec fn split_resize_defined(layout: TabLayout, pane_index: usize, request: SplitRequest) -> bool {
    match planned(layout, pane_index, request) {
        Ok(plan) => plan.needs_resize ==> resize_defined(layout, kept_part(plan.split, request)),
        Err(_) => true,
    }
}

/// What splitting pane `pane_index` of `before` for `pane` gives: the
/// refusal of `planned`, with the layout unchanged, or the new tree, the
/// index of the new pane and the pane that becomes active.
pub open spec fn split_outcome(
    before: TabLayout,
    pane_index: usize,
    request: SplitRequest,
    pane: usize,
    after: TabLayout,
    result: Result<usize, SplitError>,
) -> bool {
    match planned(before, pane_index, request) {
        Err(e) => result == Err::<usize, SplitError>(e) && after == before,
        Ok(plan) => {
            &&& after.size == before.size
            &&& after.resize_reference is None
            &&& after.zoomed == before.zoomed
            &&& after.proportional == before.proportional
            &&& after.recency.wf()
            &&& if plan.new_root {
                let tree = rooted(before, plan, request, pane);
                let index = if request.target_is_second { leaves(tree).len() - 1 } else { 0 };
                &&& after.tree == tree
                &&& result == Ok::<usize, SplitError>(index as usize)
                &&& after.active == index
                &&& after.recency.scores() == before.recency.scores().insert(index as usize, before.recency.clock())
            } else {
                &&& after.tree == split_leaf(before.tree, pane_index as int, pane, request.target_is_second, plan.split)
                &&& result == Ok::<usize, SplitError>(if request.target_is_second { (pane_index + 1) as usize } else { pane_index })
                &&& after.active == if request.target_is_second { (pane_index + 1) as usize } else { before.active }
                &&& after.recency.scores() == if request.target_is_second {
                    before.recency.scores().insert((pane_index + 1) as usize, before.recency.clock())
                } else {
                    before.recency.scores()
                }
            }
        },
    }
}

impl TabLayout {
    /// Split the pane at `pane_index` (or, for a top-level request, the
    /// whole tab) and insert `pane` in the new part; see `planned` for when
    /// this cannot be done. Returns the index of the new pane, which becomes
    /// active when it is the second part or a new root.
    pub fn split_and_insert(&mut self, pane_index: usize, request: SplitRequest, pane: usize) -> (result: Result<usize, SplitError>)
        requires
            old(self).wf(),
            plan_defined(*old(self), pane_index, request),
            split_resize_defined(*old(self), pane_index, request),
        ensures
            split_outcome(*old(self), pane_index, request, pane, *final(self), result),
    {
        let plan = match self.plan_split(pane_index, request) {
            Err(e) => {
                return Err(e);
            },
            Ok(plan) => plan,
        };
        let tab_size = self.size;
        let second = request.target_is_second;
        if plan.new_root {
            if plan.needs_resize {
                let kept = if second { plan.split.first } else { plan.split.second };
                self.resize(kept);
            }
            let mut kept_tree = Tree::Empty;
            std::mem::swap(&mut kept_tree, &mut self.tree);
            self.tree = if second {
                Tree::Node { left: Box::new(kept_tree), right: Box::new(Tree::Leaf(pane)), data: Some(plan.split) }
            } else {
                Tree::Node { left: Box::new(Tree::Leaf(pane)), right: Box::new(kept_tree), data: Some(plan.split) }
            };
            self.size = tab_size;
            self.resize_reference = None;
            let n = count_all(&self.tree);
            proof {
                assert(leaves(Tree::Leaf(pane)) == seq![pane]);
            }
            let index: usize = if second { n - 1 } else { 0 };
            self.active = index;
            self.recency.tag(index);
            return Ok(index);
        }
        let mut whole = Tree::Empty;
        std::mem::swap(&mut whole, &mut self.tree);
        self.tree = split_leaf_exec(whole, pane_index, pane, second, plan.split);
        self.resize_reference = None;
        if second {
            self.active = pane_index + 1;
            self.recency.tag(pane_index + 1);
            Ok(pane_index + 1)
        } else {
            Ok(pane_index)
        }
    }
}

/// A zoomed tab after its zoom ended: the splits take the tab's current
/// size again, as a resize from the size it had before the zoom gives them.
pub open spec fn unzoomed_layout(layout: TabLayout) -> TabLayout {
    let unzoomed = TabLayout { size: layout.size_before_zoom, zoomed: None, ..layout };
    if layout.size.rows > 0 && layout.size.cols > 0 {
        TabLayout {
            tree: resized_tree(unzoomed, layout.size),
            size: grown_size(layout.size, layout.tree),
            resize_reference: if layout.proportional {
                Some(reference_for(layout.resize_reference, layout.tree))
            } else {
                layout.resize_reference
            },
            ..unzoomed
        }
    } else {
        unzoomed
    }
}

impl TabLayout {
    /// A tab of `size` without panes.
    pub fn new(size: TermSize) -> (layout: Self)
        ensures
            layout.tree == Tree::Empty,
            layout.size == size,
            layout.active == 0,
            layout.zoomed is None,
            layout.recency.wf(),
            layout.recency.clock() == 0,
            !layout.proportional,
            layout.resize_reference is None,
            layout.size_before_zoom == size,
    {
        TabLayout {
            tree: Tree::Empty,
            size,
            active: 0,
            zoomed: None,
            recency: Recency::new(),
            proportional: false,
            resize_reference: None,
            size_before_zoom: size,
        }
    }

    /// Make `pane` the only pane of an empty tab.
    pub fn assign_pane(&mut self, pane: usize)
        requires
            old(self).tree == Tree::Empty,
        ensures
            *final(self) == (TabLayout { tree: Tree::Leaf(pane), ..*old(self) }),
            final(self).panes() == seq![pane],
            final(self).recency == old(self).recency,
            final(self).proportional == old(self).proportional,
            final(self).resize_reference == old(self).resize_reference,
            final(self).size_before_zoom == old(self).size_before_zoom,
            final(self).size == old(self).size,
            final(self).active == old(self).active,
            final(self).zoomed == old(self).zoomed,
    {
        self.tree = Tree::Leaf(pane);
    }

    /// Zoom the active pane to the whole tab, or end the zoom; ending it
    /// brings back the size from before and resizes the splits to the size
    /// the tab has now.
    pub fn toggle_zoom(&mut self)
        requires
            old(self).wf(),
            old(self).zoomed is Some ==> resize_defined(
                TabLayout { size: old(self).size_before_zoom, zoomed: None, ..*old(self) },
                old(self).size,
            ),
        ensures
            old(self).zoomed is Some ==> *final(self) == unzoomed_layout(*old(self)),
            old(self).zoomed is None ==> *final(self) == (TabLayout {
                zoomed: old(self).active_pane(),
                size_before_zoom: old(self).size,
                ..*old(self)
            }),
            old(self).zoomed is Some ==> {
                let unzoomed = TabLayout { size: old(self).size_before_zoom, zoomed: None, ..*old(self) };
                &&& final(self).zoomed is None
                &&& old(self).size.rows > 0 && old(self).size.cols > 0 ==> {
                    &&& final(self).tree == resized_tree(unzoomed, old(self).size)
                    &&& final(self).size == grown_size(old(self).size, old(self).tree)
                }
                &&& !(old(self).size.rows > 0 && old(self).size.cols > 0) ==> {
                    &&& final(self).tree == old(self).tree
                    &&& final(self).size == old(self).size_before_zoom
                }
            },
            old(self).zoomed is None ==> {
                &&& final(self).zoomed == old(self).active_pane()
                &&& final(self).size_before_zoom == old(self).size
                &&& final(self).tree == old(self).tree
                &&& final(self).size == old(self).size
            },
            final(self).active == old(self).active,
    {
        let size = self.size;
        if self.zoomed.is_some() {
            self.zoomed = None;
            self.size = self.size_before_zoom;
            self.resize(size);
        } else {
            self.size_before_zoom = size;
            let active = self.get_active_pane();
            self.zoomed = active;
        }
    }

    /// Keep the divider ratios across window resizes (or stop keeping them);
    /// a change forgets the stored ratios.
    pub fn set_proportional_resize(&mut self, enabled: bool)
        ensures
            *final(self) == if old(self).proportional != enabled {
                TabLayout { proportional: enabled, resize_reference: None, ..*old(self) }
            } else {
                *old(self)
            },
    {
        if self.proportional != enabled {
            self.proportional = enabled;
            self.resize_reference = None;
        }
    }

    /// A resize asked for by the window: a proportional tab that already has
    /// `size` is left alone, since animated chrome asks for the same size on
    /// consecutive frames; otherwise see `resize`.
    pub fn request_resize(&mut self, size: TermSize)
        requires
            !(old(self).proportional && old(self).size == size) ==> resize_defined(*old(self), size),
        ensures
            old(self).proportional && old(self).size == size ==> *final(self) == *old(self),
            !(old(self).proportional && old(self).size == size) ==> {
                &&& size.rows == 0 || size.cols == 0 ==> *final(self) == *old(self)
                &&& size.rows > 0 && size.cols > 0 && old(self).zoomed is Some ==> {
                    &&& final(self).size == size
                    &&& final(self).tree == old(self).tree
                }
                &&& size.rows > 0 && size.cols > 0 && old(self).zoomed is None ==> {
                    &&& final(self).size == grown_size(size, old(self).tree)
                    &&& final(self).tree == resized_tree(*old(self), size)
                }
            },
            final(self).active == old(self).active,
            final(self).zoomed == old(self).zoomed,
    {
        if self.proportional && self.size == size {
            return;
        }
        self.resize(size);
    }

    /// Set the zoom state; returns the state before.
    pub fn set_zoomed(&mut self, zoomed: bool) -> (before: bool)
        requires
            old(self).wf(),
            old(self).zoomed is Some && !zoomed ==> resize_defined(
                TabLayout { size: old(self).size_before_zoom, zoomed: None, ..*old(self) },
                old(self).size,
            ),
        ensures
            before == old(self).zoomed is Some,
            (old(self).zoomed is Some) == zoomed ==> *final(self) == *old(self),
            (old(self).zoomed is None) && zoomed ==> *final(self) == (TabLayout {
                zoomed: old(self).active_pane(),
                size_before_zoom: old(self).size,
                ..*old(self)
            }),
            (old(self).zoomed is Some) && !zoomed ==> *final(self) == unzoomed_layout(*old(self)),
    {
        if self.zoomed.is_some() == zoomed {
            return zoomed;
        }
        self.toggle_zoom();
        !zoomed
    }
}

/// Splitting a pane for a new pane and then removing the new pane gives
/// back the panes there were.
pub proof fn lemma_split_then_remove(
    layout: TabLayout,
    n: int,
    pane: usize,
    second: bool,
    split: SplitDirectionAndSize,
)
    requires
        0 <= n < layout.panes().len(),
        !layout.panes().contains(pane),
    ensures
        pruned_layout(
            TabLayout { tree: split_leaf(layout.tree, n, pane, second, split), ..layout },
            seq![pane],
        ).panes() == layout.panes(),
{
    let s = layout.panes();
    let grown_layout = TabLayout { tree: split_leaf(layout.tree, n, pane, second, split), ..layout };
    lemma_split_leaf_panes(layout.tree, n, pane, second, split);
    let grown = grown_layout.panes();
    let at = if second { n + 1 } else { n };
    assert(grown[at] == pane);
    assert forall|k: int| 0 <= k < at implies grown[k] != pane by {
        if k < n {
            assert(grown[k] == s[k]);
        } else {
            assert(grown[k] == s[n]);
        }
    }
    assert forall|i: int, j: int| 0 <= i < grown.len() && 0 <= j < grown.len() && grown[i] == pane && grown[j] == pane implies i == j by {
        if i != at {
            if i < n {
                assert(grown[i] == s[i]);
            } else if i == n && second {
                assert(grown[i] == s[n]);
            } else if i == n + 1 && !second {
                assert(grown[i] == s[n]);
            } else {
                assert(grown[i] == s[i - 1]);
            }
        }
        if j != at {
            if j < n {
                assert(grown[j] == s[j]);
            } else if j == n && second {
                assert(grown[j] == s[n]);
            } else if j == n + 1 && !second {
                assert(grown[j] == s[n]);
            } else {
                assert(grown[j] == s[j - 1]);
            }
        }
    }
    assert(grown.contains(pane));
    lemma_first_place(grown, pane, at);
    lemma_pruning_single(grown_layout, pane);
    assert(grown.remove(at) =~= s);
}

} // verus!
