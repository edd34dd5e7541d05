//! Moving a divider: by a number of cells from the keyboard or a drag, kept
//! within the minimum sizes of both sides, then handed down to the splits
//! inside it.
use vstd::prelude::*;
use crate::layout::adjust::sat_usize;
use crate::layout::direction::PaneDirection;
use crate::layout::proportional::{lemma_applied_keeps_panes, updated, SplitResizeReference};
use crate::layout::size::{cell_dimensions, cell_of, sat_sub, SplitDirection, SplitDirectionAndSize, TermSize};
use crate::layout::tab::{grown_size, reference_for, resize_defined, resized_tree, TabLayout};
use crate::layout::tree::{compute_min_size, count_leaves, inner_count, leaves, min_size, Tree};

verus! {

pub open spec fn sat_isize_of(v: int) -> int {
    if v > isize::MAX { isize::MAX as int } else if v < isize::MIN { isize::MIN as int } else { v }
}

/// The new size of the first part: moved by `delta`, at least `min_first`,
/// and leaving the divider and `min_second` cells of the `span`.
pub open spec fn moved_cells(cells: int, delta: int, span: int, min_first: int, min_second: int) -> int {
    let moved = sat_isize_of(cells + delta);
    let at_least = if moved >= min_first { moved } else { min_first };
    let limit = span - (1 + min_second);
    if at_least <= limit { at_least } else { limit }
}

/// A split with its divider moved by `delta` cells; the second part takes
/// what is left of the span, and pixels follow the cells.
pub open spec fn nudged(
    d: SplitDirectionAndSize,
    delta: int,
    min_first: (nat, nat),
    min_second: (nat, nat),
    cell: TermSize,
) -> SplitDirectionAndSize {
    match d.direction {
        SplitDirection::Horizontal => {
            let span = d.width_spec();
            let f = moved_cells(d.first.cols as int, delta, span, min_first.0 as int, min_second.0 as int);
            let s = sat_sub(span, f + 1);
            SplitDirectionAndSize {
                first: TermSize { cols: f as usize, pixel_width: sat_usize(f * cell.pixel_width), ..d.first },
                second: TermSize { cols: s as usize, pixel_width: sat_usize(s * cell.pixel_width), ..d.second },
                ..d
            }
        },
        SplitDirection::Vertical => {
            let span = d.height_spec();
            let f = moved_cells(d.first.rows as int, delta, span, min_first.1 as int, min_second.1 as int);
            let s = sat_sub(span, f + 1);
            SplitDirectionAndSize {
                first: TermSize { rows: f as usize, pixel_height: sat_usize(f * cell.pixel_height), ..d.first },
                second: TermSize { rows: s as usize, pixel_height: sat_usize(s * cell.pixel_height), ..d.second },
                ..d
            }
        },
    }
}

/// The divider can move within the machine's signed integers and the split
/// is wide (or tall) enough for the divider and the second part's minimum.
pub open spec fn nudge_fits(d: SplitDirectionAndSize, min_first: (nat, nat), min_second: (nat, nat)) -> bool {
    match d.direction {
        SplitDirection::Horizontal => {
            &&& d.width_spec() <= isize::MAX
            &&& min_first.0 <= isize::MAX
            &&& min_second.0 + 1 <= isize::MAX
            &&& d.width_spec() >= 1 + min_second.0
        },
        SplitDirection::Vertical => {
            &&& d.height_spec() <= isize::MAX
            &&& min_first.1 <= isize::MAX
            &&& min_second.1 + 1 <= isize::MAX
            &&& d.height_spec() >= 1 + min_second.1
        },
    }
}

fn mul_saturating(a: usize, b: usize) -> (product: usize)
    ensures
        product == sat_usize(a * b),
{
    match a.checked_mul(b) {
        Some(p) => p,
        None => usize::MAX,
    }
}

fn add_saturating(a: isize, b: isize) -> (sum: isize)
    ensures
        sum == sat_isize_of(a + b),
{
    match a.checked_add(b) {
        Some(v) => v,
        None => if b > 0 { isize::MAX } else { isize::MIN },
    }
}

/// Move the divider of `node` by `delta` cells; says whether it moved.
pub fn nudge_split(
    node: &mut SplitDirectionAndSize,
    delta: isize,
    minimum_first: (usize, usize),
    minimum_second: (usize, usize),
    cell: &TermSize,
) -> (changed: bool)
    requires
        nudge_fits(
            *old(node),
            (minimum_first.0 as nat, minimum_first.1 as nat),
            (minimum_second.0 as nat, minimum_second.1 as nat),
        ),
    ensures
        *final(node) == nudged(
            *old(node),
            delta as int,
            (minimum_first.0 as nat, minimum_first.1 as nat),
            (minimum_second.0 as nat, minimum_second.1 as nat),
            *cell,
        ),
        changed == (*final(node) != *old(node)),
{
    let original = *node;
    match node.direction {
        SplitDirection::Horizontal => {
            let width = node.width();
            let cols: isize = node.first.cols as isize;
            let moved: isize = add_saturating(cols, delta);
            let at_least: isize = if moved >= minimum_first.0 as isize {
                moved
            } else {
                minimum_first.0 as isize
            };
            let limit: isize = width as isize - (1 + minimum_second.0 as isize);
            let f: isize = if at_least <= limit {
                at_least
            } else {
                limit
            };
            node.first.cols = f as usize;
            node.first.pixel_width = mul_saturating(node.first.cols, cell.pixel_width);
            node.second.cols = width.saturating_sub(node.first.cols.saturating_add(1));
            node.second.pixel_width = mul_saturating(node.second.cols, cell.pixel_width);
        },
        SplitDirection::Vertical => {
            let height = node.height();
            let rows: isize = node.first.rows as isize;
            let moved: isize = add_saturating(rows, delta);
            let at_least: isize = if moved >= minimum_first.1 as isize {
                moved
            } else {
                minimum_first.1 as isize
            };
            let limit: isize = height as isize - (1 + minimum_second.1 as isize);
            let f: isize = if at_least <= limit {
                at_least
            } else {
                limit
            };
            node.first.rows = f as usize;
            node.first.pixel_height = mul_saturating(node.first.rows, cell.pixel_height);
            node.second.rows = height.saturating_sub(node.first.rows.saturating_add(1));
            node.second.pixel_height = mul_saturating(node.second.rows, cell.pixel_height);
        },
    }
    !(node.direction == original.direction && node.first == original.first && node.second == original.second)
}

/// Cells per pixel column (row) of a size, or 1 for an empty size.
pub open spec fn cell_span(pixels: usize, cells: usize) -> int {
    if cells == 0 { 1 } else { (pixels / cells) as int }
}

/// A split fitted to `pane` cells: the parts take the full size across the
/// divider, the first part keeps its size along it and the second part gets
/// the rest; pixels follow the cells of `pane`.
pub open spec fn refit_fixed(d: SplitDirectionAndSize, pane: TermSize) -> SplitDirectionAndSize {
    let cw = cell_span(pane.pixel_width, pane.cols);
    let ch = cell_span(pane.pixel_height, pane.rows);
    let (first_cols, first_rows, second_cols, second_rows) = match d.direction {
        SplitDirection::Horizontal => (
            d.first.cols as int,
            pane.rows as int,
            sat_sub(pane.cols as int, 1 + d.first.cols),
            pane.rows as int,
        ),
        SplitDirection::Vertical => (
            pane.cols as int,
            d.first.rows as int,
            pane.cols as int,
            sat_sub(pane.rows as int, 1 + d.first.rows),
        ),
    };
    SplitDirectionAndSize {
        first: TermSize {
            cols: first_cols as usize,
            rows: first_rows as usize,
            pixel_width: (first_cols * cw) as usize,
            pixel_height: (first_rows * ch) as usize,
            ..d.first
        },
        second: TermSize {
            cols: second_cols as usize,
            rows: second_rows as usize,
            pixel_width: (second_cols * cw) as usize,
            pixel_height: (second_rows * ch) as usize,
            ..d.second
        },
        ..d
    }
}

/// Fitting stays within the machine's integers.
pub open spec fn refit_fits(d: SplitDirectionAndSize, pane: TermSize) -> bool {
    let r = refit_fixed(d, pane);
    let cw = cell_span(pane.pixel_width, pane.cols);
    let ch = cell_span(pane.pixel_height, pane.rows);
    &&& d.direction == SplitDirection::Horizontal ==> d.first.cols < usize::MAX
    &&& d.direction == SplitDirection::Vertical ==> d.first.rows < usize::MAX
    &&& (if d.direction == SplitDirection::Horizontal { d.first.cols as int } else { pane.cols as int }) * cw
        <= usize::MAX
    &&& (if d.direction == SplitDirection::Vertical { d.first.rows as int } else { pane.rows as int }) * ch
        <= usize::MAX
    &&& r.second.cols * cw <= usize::MAX
    &&& r.second.rows * ch <= usize::MAX
}

/// Fit `node` to the `pane` size its parent gives it.
pub fn refit_split(node: &mut SplitDirectionAndSize, pane: TermSize)
    requires
        refit_fits(*old(node), pane),
    ensures
        *final(node) == refit_fixed(*old(node), pane),
{
    let cell_width: usize = if pane.cols == 0 { 1 } else { pane.pixel_width / pane.cols };
    let cell_height: usize = if pane.rows == 0 { 1 } else { pane.pixel_height / pane.rows };
    if node.direction == SplitDirection::Horizontal {
        node.first.rows = pane.rows;
        node.second.rows = pane.rows;
        node.second.cols = pane.cols.saturating_sub(1 + node.first.cols);
    } else {
        node.first.cols = pane.cols;
        node.second.cols = pane.cols;
        node.second.rows = pane.rows.saturating_sub(1 + node.first.rows);
    }
    node.first.pixel_width = node.first.cols * cell_width;
    node.first.pixel_height = node.first.rows * cell_height;
    node.second.pixel_width = node.second.cols * cell_width;
    node.second.pixel_height = node.second.rows * cell_height;
}

/// The subtree of the split at position `t` of a preorder walk over the
/// splits (the root split is 0).
pub open spec fn split_subtree(tree: Tree, t: int) -> Option<Tree>
    decreases tree,
{
    match tree {
        Tree::Node { left, right, .. } => {
            if t == 0 {
                Some(tree)
            } else if t - 1 < inner_count(*left) {
                split_subtree(*left, t - 1)
            } else {
                split_subtree(*right, t - 1 - inner_count(*left))
            }
        },
        _ => None,
    }
}

/// The least sizes a moved divider leaves to each side: what the panes need
/// when resizing proportionally, one cell otherwise.
pub open spec fn drag_minimums(left: Tree, right: Tree, proportional: bool) -> ((nat, nat), (nat, nat)) {
    if proportional {
        (min_size(left), min_size(right))
    } else {
        ((1, 1), (1, 1))
    }
}

/// The tree with the divider of split `t` moved by `delta` cells.
pub open spec fn nudged_tree(tree: Tree, t: int, delta: int, cell: TermSize, proportional: bool) -> Tree
    decreases tree,
{
    match tree {
        Tree::Node { left, right, data } => {
            if t == 0 {
                match data {
                    Some(d) => {
                        let (a, b) = drag_minimums(*left, *right, proportional);
                        Tree::Node { left, right, data: Some(nudged(d, delta, a, b, cell)) }
                    },
                    None => tree,
                }
            } else if t - 1 < inner_count(*left) {
                Tree::Node {
                    left: Box::new(nudged_tree(*left, t - 1, delta, cell, proportional)),
                    right,
                    data,
                }
            } else {
                Tree::Node {
                    left,
                    right: Box::new(nudged_tree(*right, t - 1 - inner_count(*left), delta, cell, proportional)),
                    data,
                }
            }
        },
        _ => tree,
    }
}

/// Whether moving the divider of split `t` changes it.
pub open spec fn nudge_moves(tree: Tree, t: int, delta: int, cell: TermSize, proportional: bool) -> bool {
    match split_subtree(tree, t) {
        Some(Tree::Node { left, right, data: Some(d) }) => {
            let (a, b) = drag_minimums(*left, *right, proportional);
            nudged(d, delta, a, b, cell) != d
        },
        _ => false,
    }
}

/// The divider of split `t` can move within the machine's integers.
pub open spec fn nudge_defined(tree: Tree, t: int, proportional: bool) -> bool {
    match split_subtree(tree, t) {
        Some(Tree::Node { left, right, data: Some(d) }) => {
            let (a, b) = drag_minimums(*left, *right, proportional);
            &&& nudge_fits(d, a, b)
            &&& proportional ==> {
                &&& min_size(*left).0 <= usize::MAX && min_size(*left).1 <= usize::MAX
                &&& min_size(*right).0 <= usize::MAX && min_size(*right).1 <= usize::MAX
            }
        },
        _ => true,
    }
}

/// The splits after position `t` of the preorder walk (all of them for a
/// negative `t`) fitted, outermost first, to the size their parent gives
/// them; the children of a split without sizes get the tab's `root` size.
pub open spec fn cascaded(tree: Tree, size: TermSize, t: int, root: TermSize) -> Tree
    decreases tree,
{
    match tree {
        Tree::Node { left, right, data } => {
            let data2 = match data {
                Some(d) => if t < 0 {
                    Some(refit_fixed(d, size))
                } else {
                    Some(d)
                },
                None => None,
            };
            let (a, b) = match data2 {
                Some(d) => (d.first, d.second),
                None => (root, root),
            };
            Tree::Node {
                left: Box::new(cascaded(*left, a, t - 1, root)),
                right: Box::new(cascaded(*right, b, t - 1 - inner_count(*left), root)),
                data: data2,
            }
        },
        _ => tree,
    }
}

/// Fitting the splits after position `t` stays within the machine's integers.
pub open spec fn cascade_defined(tree: Tree, size: TermSize, t: int, root: TermSize) -> bool
    decreases tree,
{
    match tree {
        Tree::Node { left, right, data } => {
            let data2 = match data {
                Some(d) => if t < 0 {
                    Some(refit_fixed(d, size))
                } else {
                    Some(d)
                },
                None => None,
            };
            let (a, b) = match data2 {
                Some(d) => (d.first, d.second),
                None => (root, root),
            };
            &&& (match data {
                Some(d) => t < 0 ==> refit_fits(d, size),
                None => true,
            })
            &&& cascade_defined(*left, a, t - 1, root)
            &&& cascade_defined(*right, b, t - 1 - inner_count(*left), root)
        },
        _ => true,
    }
}

/// The number of splits.
pub fn count_splits(tree: &Tree) -> (count: usize)
    requires
        inner_count(*tree) <= usize::MAX,
    ensures
        count == inner_count(*tree),
    decreases tree,
{
    match tree {
        Tree::Node { left, right, .. } => 1 + count_splits(left) + count_splits(right),
        _ => 0,
    }
}

proof fn lemma_split_subtree_inside(tree: Tree, t: int)
    ensures
        split_subtree(tree, t) is Some ==> 0 <= t < inner_count(tree),
    decreases tree,
{
    if let Tree::Node { left, right, .. } = tree {
        if t != 0 {
            lemma_split_subtree_inside(*left, t - 1);
            lemma_split_subtree_inside(*right, t - 1 - inner_count(*left));
        }
    }
}

/// Moving a divider keeps the shape of the tree, and a divider that does not
/// move leaves the tree as it was.
proof fn lemma_nudged_shape(tree: Tree, t: int, delta: int, cell: TermSize, proportional: bool)
    ensures
        inner_count(nudged_tree(tree, t, delta, cell, proportional)) == inner_count(tree),
        split_subtree(tree, t) is Some ==> split_subtree(nudged_tree(tree, t, delta, cell, proportional), t) is Some,
        !nudge_moves(tree, t, delta, cell, proportional) ==> nudged_tree(tree, t, delta, cell, proportional) == tree,
    decreases tree,
{
    if let Tree::Node { left, right, data } = tree {
        if t != 0 {
            lemma_nudged_shape(*left, t - 1, delta, cell, proportional);
            lemma_nudged_shape(*right, t - 1 - inner_count(*left), delta, cell, proportional);
        }
    }
}

/// The subtree of split `t`.
fn split_at(tree: &Tree, t: usize) -> (sub: &Tree)
    requires
        split_subtree(*tree, t as int) is Some,
        inner_count(*tree) <= usize::MAX,
    ensures
        *sub == split_subtree(*tree, t as int).unwrap(),
    decreases tree,
{
    match tree {
        Tree::Node { left, right, .. } => {
            if t == 0 {
                tree
            } else {
                let n = count_splits(left);
                if t - 1 < n {
                    split_at(left, t - 1)
                } else {
                    split_at(right, t - 1 - n)
                }
            }
        },
        _ => tree,
    }
}

/// Move the divider of split `t` by `delta` cells; says whether it moved.
fn nudge_in_tree(tree: &mut Tree, t: usize, delta: isize, cell: &TermSize, proportional: bool) -> (changed: bool)
    requires
        nudge_defined(*old(tree), t as int, proportional),
        inner_count(*old(tree)) <= usize::MAX,
    ensures
        *final(tree) == nudged_tree(*old(tree), t as int, delta as int, *cell, proportional),
        changed == nudge_moves(*old(tree), t as int, delta as int, *cell, proportional),
    decreases *old(tree),
{
    match tree {
        Tree::Node { left, right, data } => {
            if t == 0 {
                match data {
                    Some(d) => {
                        let (a, b) = if proportional {
                            (compute_min_size(left), compute_min_size(right))
                        } else {
                            ((1, 1), (1, 1))
                        };
                        nudge_split(d, delta, a, b, cell)
                    },
                    None => false,
                }
            } else {
                let n = count_splits(left);
                if t - 1 < n {
                    nudge_in_tree(&mut **left, t - 1, delta, cell, proportional)
                } else {
                    nudge_in_tree(&mut **right, t - 1 - n, delta, cell, proportional)
                }
            }
        },
        _ => false,
    }
}

pub open spec fn position_of_after(after: Option<usize>) -> int {
    match after {
        Some(k) => k as int,
        None => -1,
    }
}

/// Only whether a position lies before the walk matters.
proof fn lemma_cascade_before(tree: Tree, size: TermSize, t: int, root: TermSize)
    requires
        t < 0,
    ensures
        cascaded(tree, size, t, root) == cascaded(tree, size, -1, root),
        cascade_defined(tree, size, t, root) == cascade_defined(tree, size, -1, root),
    decreases tree,
{
    if let Tree::Node { left, right, data } = tree {
        let data2 = match data {
            Some(d) => Some(refit_fixed(d, size)),
            None => None,
        };
        let (a, b) = match data2 {
            Some(d) => (d.first, d.second),
            None => (root, root),
        };
        lemma_cascade_before(*left, a, t - 1, root);
        lemma_cascade_before(*left, a, -2, root);
        lemma_cascade_before(*right, b, t - 1 - inner_count(*left), root);
        lemma_cascade_before(*right, b, -2 - inner_count(*left), root);
    }
}

/// Fit the splits after position `after` (all of them for `None`) to the
/// sizes their parents give them.
fn cascade(tree: &mut Tree, size: TermSize, after: Option<usize>, root: TermSize)
    requires
        cascade_defined(*old(tree), size, position_of_after(after), root),
        inner_count(*old(tree)) <= usize::MAX,
    ensures
        *final(tree) == cascaded(*old(tree), size, position_of_after(after), root),
    decreases *old(tree),
{
    match tree {
        Tree::Node { left, right, data } => {
            let n = count_splits(left);
            let (left_after, right_after): (Option<usize>, Option<usize>) = match after {
                None => (None, None),
                Some(k) => if k == 0 {
                    (None, None)
                } else if k - 1 < n {
                    (Some(k - 1), None)
                } else {
                    (Some(k - 1), Some(k - 1 - n))
                },
            };
            let (a, b) = match data {
                Some(d) => {
                    if after.is_none() {
                        refit_split(d, size);
                    }
                    (d.first, d.second)
                },
                None => (root, root),
            };
            proof {
                let t = position_of_after(after);
                if t - 1 < 0 {
                    lemma_cascade_before(**left, a, t - 1, root);
                }
                if t - 1 - inner_count(**left) < 0 {
                    lemma_cascade_before(**right, b, t - 1 - inner_count(**left), root);
                }
            }
            cascade(&mut **left, a, left_after, root);
            cascade(&mut **right, b, right_after, root);
        },
        _ => {},
    }
}

/// The layout with the ratios proportional resizing will keep: the stored
/// ones while the splits still match them, otherwise the current ones.
pub open spec fn prepared(layout: TabLayout) -> TabLayout {
    TabLayout {
        resize_reference: if layout.proportional {
            Some(reference_for(layout.resize_reference, layout.tree))
        } else {
            layout.resize_reference
        },
        ..layout
    }
}

/// The layout after the divider of split `t` moved by `delta` cells: when it
/// moved, proportional resizing records the new ratio and resizes the tab to
/// its size, otherwise the splits after it follow the sizes their parents
/// now give them.
pub open spec fn dragged(layout: TabLayout, t: nat, delta: int) -> TabLayout {
    let cell = cell_of(layout.size);
    let moved = nudged_tree(layout.tree, t as int, delta, cell, layout.proportional);
    if !nudge_moves(layout.tree, t as int, delta, cell, layout.proportional) {
        layout
    } else if layout.proportional {
        let reference = updated(layout.resize_reference.unwrap(), split_subtree(moved, t as int).unwrap()).0;
        let mid = TabLayout { tree: moved, resize_reference: Some(reference), ..layout };
        TabLayout {
            tree: resized_tree(mid, layout.size),
            size: grown_size(layout.size, moved),
            resize_reference: Some(reference_for(Some(reference), moved)),
            ..mid
        }
    } else {
        TabLayout { tree: cascaded(moved, layout.size, t as int, layout.size), ..layout }
    }
}

/// Moving the divider of split `t` stays within the machine's integers.
pub open spec fn drag_defined(layout: TabLayout, t: nat, delta: int) -> bool {
    let cell = cell_of(layout.size);
    let moved = nudged_tree(layout.tree, t as int, delta, cell, layout.proportional);
    &&& layout.size.cols > 0 && layout.size.rows > 0
    &&& inner_count(layout.tree) <= usize::MAX
    &&& nudge_defined(layout.tree, t as int, layout.proportional)
    &&& nudge_moves(layout.tree, t as int, delta, cell, layout.proportional) ==> if layout.proportional {
        let reference = updated(layout.resize_reference.unwrap(), split_subtree(moved, t as int).unwrap()).0;
        resize_defined(TabLayout { tree: moved, resize_reference: Some(reference), ..layout }, layout.size)
    } else {
        cascade_defined(moved, layout.size, t as int, layout.size)
    }
}

/// The split nearest above pane `n` (left to right) whose parts lie in
/// `direction`, by its position in the preorder walk over the splits.
pub open spec fn ancestor_split(tree: Tree, n: int, direction: SplitDirection) -> Option<nat>
    decreases tree,
{
    match tree {
        Tree::Node { left, right, data } => {
            let nl = leaves(*left).len() as int;
            let nr = leaves(*right).len() as int;
            let below = if 0 <= n < nl {
                match ancestor_split(*left, n, direction) {
                    Some(i) => Some(1 + i),
                    None => None,
                }
            } else if nl <= n < nl + nr {
                match ancestor_split(*right, n - nl, direction) {
                    Some(i) => Some(1 + inner_count(*left) + i),
                    None => None,
                }
            } else {
                None
            };
            let own = match data {
                Some(d) => d.direction == direction,
                None => false,
            };
            if below is Some {
                below
            } else if 0 <= n < nl + nr && own {
                Some(0)
            } else {
                None
            }
        },
        _ => None,
    }
}

proof fn lemma_ancestor_inside(tree: Tree, n: int, direction: SplitDirection)
    ensures
        ancestor_split(tree, n, direction) matches Some(i) ==> i < inner_count(tree),
    decreases tree,
{
    if let Tree::Node { left, right, .. } = tree {
        lemma_ancestor_inside(*left, n, direction);
        lemma_ancestor_inside(*right, n - leaves(*left).len(), direction);
    }
}

fn find_ancestor(tree: &Tree, n: usize, direction: SplitDirection) -> (found: Option<usize>)
    requires
        leaves(*tree).len() <= usize::MAX,
        inner_count(*tree) <= usize::MAX,
    ensures
        match ancestor_split(*tree, n as int, direction) {
            Some(i) => found == Some(i as usize),
            None => found is None,
        },
    decreases tree,
{
    match tree {
        Tree::Node { left, right, data } => {
            let nl = count_leaves(left);
            let nr = count_leaves(right);
            let ghost nli = leaves(**left).len() as int;
            let ghost nri = leaves(**right).len() as int;
            let ghost spec_below = if 0 <= n < nli {
                match ancestor_split(**left, n as int, direction) {
                    Some(i) => Some(1 + i),
                    None => None,
                }
            } else if nli <= n < nli + nri {
                match ancestor_split(**right, n - nli, direction) {
                    Some(i) => Some(1 + inner_count(**left) + i),
                    None => None,
                }
            } else {
                None::<nat>
            };
            let below: Option<usize> = if n < nl {
                proof {
                    lemma_ancestor_inside(**left, n as int, direction);
                }
                match find_ancestor(left, n, direction) {
                    Some(i) => Some(1 + i),
                    None => None,
                }
            } else if n - nl < nr {
                proof {
                    lemma_ancestor_inside(**right, n - nl, direction);
                }
                let skipped = count_splits(left);
                match find_ancestor(right, n - nl, direction) {
                    Some(i) => Some(1 + skipped + i),
                    None => None,
                }
            } else {
                None
            };
            assert(match spec_below {
                Some(i) => below == Some(i as usize),
                None => below is None,
            });
            let own = match data {
                Some(d) => d.direction == direction,
                None => false,
            };
            if below.is_some() {
                below
            } else if n >= nl && n - nl < nr && own {
                Some(0)
            } else if n < nl && own {
                Some(0)
            } else {
                None
            }
        },
        _ => None,
    }
}

/// The split a pane moves along `direction`, and the cells it moves by.
pub open spec fn axis_of(direction: PaneDirection) -> SplitDirection {
    match direction {
        PaneDirection::Left | PaneDirection::Right => SplitDirection::Horizontal,
        _ => SplitDirection::Vertical,
    }
}

pub open spec fn signed_amount(direction: PaneDirection, amount: usize) -> int {
    match direction {
        PaneDirection::Down | PaneDirection::Right => amount as int,
        _ => -(amount as int),
    }
}

impl TabLayout {
    fn prepare_resize_reference(&mut self)
        ensures
            *final(self) == prepared(*old(self)),
    {
        if self.proportional {
            let keep = match &self.resize_reference {
                Some(reference) => reference.matches(&self.tree),
                None => false,
            };
            if !keep {
                self.resize_reference = Some(SplitResizeReference::capture(&self.tree));
            }
        }
    }

    fn drag_split(&mut self, t: usize, delta: isize)
        requires
            drag_defined(*old(self), t as nat, delta as int),
            old(self).zoomed is None,
            old(self).proportional ==> old(self).resize_reference is Some,
        ensures
            *final(self) == dragged(*old(self), t as nat, delta as int),
    {
        let ghost before = *self;
        let cell = cell_dimensions(&self.size);
        let proportional = self.proportional;
        proof {
            lemma_nudged_shape(self.tree, t as int, delta as int, cell, proportional);
        }
        let changed = nudge_in_tree(&mut self.tree, t, delta, &cell, proportional);
        if !changed {
            return;
        }
        let size = self.size;
        if proportional {
            match &mut self.resize_reference {
                Some(reference) => {
                    let sub = split_at(&self.tree, t);
                    reference.update_split(sub);
                },
                None => {},
            }
            self.resize(size);
        } else {
            cascade(&mut self.tree, size, Some(t), size);
        }
    }

    /// Move the divider of split `split_index` (as numbered by the preorder
    /// walk over the splits) by `delta` cells: positive moves it right or
    /// down. Nothing moves while a pane is zoomed.
    pub fn resize_split_by(&mut self, split_index: usize, delta: isize)
        requires
            old(self).zoomed is None ==> drag_defined(prepared(*old(self)), split_index as nat, delta as int),
        ensures
            *final(self) == if old(self).zoomed is Some {
                *old(self)
            } else {
                dragged(prepared(*old(self)), split_index as nat, delta as int)
            },
    {
        if self.zoomed.is_some() {
            return;
        }
        self.prepare_resize_reference();
        self.drag_split(split_index, delta);
    }

    /// Grow the active pane by `amount` cells towards `direction`, moving the
    /// nearest divider above it that lies across that direction. Nothing
    /// moves while a pane is zoomed or when no such divider exists.
    pub fn adjust_pane_size(&mut self, direction: PaneDirection, amount: usize)
        requires
            direction != PaneDirection::Next && direction != PaneDirection::Prev,
            amount <= isize::MAX,
            old(self).wf(),
            inner_count(old(self).tree) <= usize::MAX,
            old(self).zoomed is None ==> match ancestor_split(old(self).tree, old(self).active as int, axis_of(direction)) {
                Some(t) => drag_defined(prepared(*old(self)), t, signed_amount(direction, amount)),
                None => true,
            },
        ensures
            *final(self) == if old(self).zoomed is Some {
                *old(self)
            } else {
                match ancestor_split(old(self).tree, old(self).active as int, axis_of(direction)) {
                    Some(t) => dragged(prepared(*old(self)), t, signed_amount(direction, amount)),
                    None => prepared(*old(self)),
                }
            },
    {
        if self.zoomed.is_some() {
            return;
        }
        self.prepare_resize_reference();
        let axis = match direction {
            PaneDirection::Left | PaneDirection::Right => SplitDirection::Horizontal,
            _ => SplitDirection::Vertical,
        };
        let delta: isize = match direction {
            PaneDirection::Down | PaneDirection::Right => amount as isize,
            _ => -(amount as isize),
        };
        assert(axis == axis_of(direction));
        assert(delta == signed_amount(direction, amount));
        assert(self.tree == old(self).tree && self.active == old(self).active);
        proof {
            lemma_ancestor_inside(self.tree, self.active as int, axis);
        }
        match find_ancestor(&self.tree, self.active, axis) {
            Some(t) => self.drag_split(t, delta),
            None => {},
        }
    }
}

/// A moved divider only trades cells between the two parts: the split keeps
/// its width and height.
pub proof fn lemma_nudge_keeps_span(
    d: SplitDirectionAndSize,
    delta: int,
    min_first: (nat, nat),
    min_second: (nat, nat),
    cell: TermSize,
)
    requires
        nudge_fits(d, min_first, min_second),
    ensures
        nudged(d, delta, min_first, min_second, cell).width_spec() == d.width_spec(),
        nudged(d, delta, min_first, min_second, cell).height_spec() == d.height_spec(),
{
}

proof fn lemma_nudged_keeps_panes(tree: Tree, t: int, delta: int, cell: TermSize, proportional: bool)
    ensures
        leaves(nudged_tree(tree, t, delta, cell, proportional)) == leaves(tree),
    decreases tree,
{
    if let Tree::Node { left, right, .. } = tree {
        if t != 0 {
            lemma_nudged_keeps_panes(*left, t - 1, delta, cell, proportional);
            lemma_nudged_keeps_panes(*right, t - 1 - inner_count(*left), delta, cell, proportional);
        }
    }
}

proof fn lemma_cascaded_keeps_panes(tree: Tree, size: TermSize, t: int, root: TermSize)
    ensures
        leaves(cascaded(tree, size, t, root)) == leaves(tree),
    decreases tree,
{
    if let Tree::Node { left, right, data } = tree {
        let data2 = match data {
            Some(d) => if t < 0 {
                Some(refit_fixed(d, size))
            } else {
                Some(d)
            },
            None => None,
        };
        let (a, b) = match data2 {
            Some(d) => (d.first, d.second),
            None => (root, root),
        };
        lemma_cascaded_keeps_panes(*left, a, t - 1, root);
        lemma_cascaded_keeps_panes(*right, b, t - 1 - inner_count(*left), root);
    }
}

/// Moving a divider keeps the panes of the tab and their order, the active
/// pane and the zoom.
pub proof fn lemma_drag_keeps_panes(layout: TabLayout, t: nat, delta: int)
    ensures
        dragged(layout, t, delta).panes() == layout.panes(),
        dragged(layout, t, delta).active == layout.active,
        dragged(layout, t, delta).zoomed == layout.zoomed,
{
    let cell = cell_of(layout.size);
    let moved = nudged_tree(layout.tree, t as int, delta, cell, layout.proportional);
    lemma_nudged_keeps_panes(layout.tree, t as int, delta, cell, layout.proportional);
    lemma_cascaded_keeps_panes(moved, layout.size, t as int, layout.size);
    if layout.proportional {
        let reference = updated(layout.resize_reference.unwrap(), split_subtree(moved, t as int).unwrap()).0;
        let mid = TabLayout { tree: moved, resize_reference: Some(reference), ..layout };
        lemma_applied_keeps_panes(
            reference_for(mid.resize_reference, moved),
            moved,
            grown_size(layout.size, moved),
        );
    }
}

} // verus!
