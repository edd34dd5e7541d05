//! Growing or shrinking a split tree along one axis by a number of cells,
//! split by split: the parts of a split across the axis change together,
//! and the parts of a split along the axis take turns, one cell at a time.
use vstd::prelude::*;
use crate::layout::size::{SplitDirection, SplitDirectionAndSize, TermSize};
use crate::layout::tree::{compute_min_size, min_size, Tree};

verus! {

/// The number of levels of a tree.
pub open spec fn height(tree: Tree) -> nat
    decreases tree,
{
    match tree {
        Tree::Node { left, right, .. } => {
            let l = height(*left);
            let r = height(*right);
            1 + if l >= r { l } else { r }
        },
        _ => 0,
    }
}

/// Cells of `t` along the axis: columns for `x`, rows otherwise.
pub open spec fn cells(t: TermSize, x: bool) -> int {
    if x { t.cols as int } else { t.rows as int }
}

pub open spec fn cell_pixels(dims: TermSize, x: bool) -> int {
    if x { dims.pixel_width as int } else { dims.pixel_height as int }
}

pub open spec fn sat_usize(v: int) -> usize {
    if v > usize::MAX { usize::MAX } else if v < 0 { 0 } else { v as usize }
}

pub open spec fn sat_isize(v: int) -> int {
    if v > isize::MAX { isize::MAX as int } else if v < isize::MIN { isize::MIN as int } else { v }
}

/// `t` with `n` cells along the axis, and pixels to match.
pub open spec fn with_cells(t: TermSize, x: bool, n: int, dims: TermSize) -> TermSize {
    if x {
        TermSize { cols: n as usize, pixel_width: sat_usize(n * dims.pixel_width), ..t }
    } else {
        TermSize { rows: n as usize, pixel_height: sat_usize(n * dims.pixel_height), ..t }
    }
}

/// The minimum size of a tree along the axis.
pub open spec fn min_cells(tree: Tree, x: bool) -> int {
    if x { min_size(tree).0 as int } else { min_size(tree).1 as int }
}

/// The direction whose two parts lie side by side along the axis.
pub open spec fn serial(x: bool) -> SplitDirection {
    if x { SplitDirection::Horizontal } else { SplitDirection::Vertical }
}

pub open spec fn with_dpi(d: SplitDirectionAndSize, dpi: u32) -> SplitDirectionAndSize {
    SplitDirectionAndSize {
        first: TermSize { dpi, ..d.first },
        second: TermSize { dpi, ..d.second },
        ..d
    }
}

/// `tree` grown (or shrunk, for negative `adj`) by `adj` cells along the
/// axis. A split across the axis moves both parts to the new size, never
/// below the tree's minimum; a split along the axis gives cells to (or takes
/// them from) its first and second part in turn. `depth` bounds the levels.
pub open spec fn adjusted(tree: Tree, adj: int, dims: TermSize, x: bool, depth: nat) -> Tree
    decreases depth, 1nat, 0int,
{
    if adj == 0 || depth == 0 {
        tree
    } else {
        match tree {
            Tree::Node { left, right, data: Some(d0) } => {
                let d = with_dpi(d0, dims.dpi);
                if d.direction != serial(x) {
                    let wanted = sat_isize(cells(d.first, x) + adj);
                    let min = min_cells(tree, x);
                    let new = if wanted >= min { wanted } else { min };
                    let a = new - cells(d.first, x);
                    if a != 0 {
                        let first = with_cells(d.first, x, new, dims);
                        let second = if x {
                            TermSize { cols: first.cols, pixel_width: first.pixel_width, ..d.second }
                        } else {
                            TermSize { rows: first.rows, pixel_height: first.pixel_height, ..d.second }
                        };
                        Tree::Node {
                            left: Box::new(adjusted(*left, a, dims, x, (depth - 1) as nat)),
                            right: Box::new(adjusted(*right, a, dims, x, (depth - 1) as nat)),
                            data: Some(SplitDirectionAndSize { first, second, ..d }),
                        }
                    } else {
                        Tree::Node { left, right, data: Some(d) }
                    }
                } else {
                    adjusted_along(*left, *right, d, adj, dims, x, depth)
                }
            },
            _ => tree,
        }
    }
}

/// The turns of a split along the axis: see `adjusted`.
pub open spec fn adjusted_along(
    left: Tree,
    right: Tree,
    d: SplitDirectionAndSize,
    adj: int,
    dims: TermSize,
    x: bool,
    depth: nat,
) -> Tree
    decreases depth, 0nat, if adj > 0 { adj } else if adj < 0 { cells(d.first, x) + cells(d.second, x) } else { 0 },
{
    if adj == 0 || depth == 0 {
        Tree::Node { left: Box::new(left), right: Box::new(right), data: Some(d) }
    } else if adj > 0 {
        let l2 = adjusted(left, 1, dims, x, (depth - 1) as nat);
        let d1 = SplitDirectionAndSize { first: with_cells(d.first, x, cells(d.first, x) + 1, dims), ..d };
        if adj - 1 > 0 {
            let r2 = adjusted(right, 1, dims, x, (depth - 1) as nat);
            let d2 = SplitDirectionAndSize { second: with_cells(d1.second, x, cells(d1.second, x) + 1, dims), ..d1 };
            adjusted_along(l2, r2, d2, adj - 2, dims, x, depth)
        } else {
            adjusted_along(l2, right, d1, adj - 1, dims, x, depth)
        }
    } else {
        let shrink_first = cells(d.first, x) > 1;
        let l2 = if shrink_first { adjusted(left, -1, dims, x, (depth - 1) as nat) } else { left };
        let d1 = if shrink_first {
            SplitDirectionAndSize { first: with_cells(d.first, x, cells(d.first, x) - 1, dims), ..d }
        } else {
            d
        };
        let adj1 = if shrink_first { adj + 1 } else { adj };
        let shrink_second = adj1 < 0 && cells(d1.second, x) > 1;
        let r2 = if shrink_second { adjusted(right, -1, dims, x, (depth - 1) as nat) } else { right };
        let d2 = if shrink_second {
            SplitDirectionAndSize { second: with_cells(d1.second, x, cells(d1.second, x) - 1, dims), ..d1 }
        } else {
            d1
        };
        let adj2 = if shrink_second { adj1 + 1 } else { adj1 };
        if adj2 == adj {
            Tree::Node { left: Box::new(l2), right: Box::new(r2), data: Some(d2) }
        } else {
            adjusted_along(l2, r2, d2, adj2, dims, x, depth)
        }
    }
}

/// The adjustment stays within the machine's integers and ends: a split along
/// the axis whose two parts are a single cell each can shrink no further.
pub open spec fn adjust_defined(tree: Tree, adj: int, dims: TermSize, x: bool, depth: nat) -> bool
    decreases depth, 1nat, 0int,
{
    if adj == 0 || depth == 0 {
        true
    } else {
        match tree {
            Tree::Node { left, right, data: Some(d0) } => {
                let d = with_dpi(d0, dims.dpi);
                &&& min_size(tree).0 <= isize::MAX && min_size(tree).1 <= isize::MAX
                &&& cells(d.first, x) <= isize::MAX
                &&& if d.direction != serial(x) {
                    let wanted = sat_isize(cells(d.first, x) + adj);
                    let min = min_cells(tree, x);
                    let new = if wanted >= min { wanted } else { min };
                    let a = new - cells(d.first, x);
                    a != 0 ==> adjust_defined(*left, a, dims, x, (depth - 1) as nat) && adjust_defined(*right, a, dims, x, (depth - 1) as nat)
                } else {
                    adjust_along_defined(*left, *right, d, adj, dims, x, depth)
                }
            },
            _ => true,
        }
    }
}

pub open spec fn adjust_along_defined(
    left: Tree,
    right: Tree,
    d: SplitDirectionAndSize,
    adj: int,
    dims: TermSize,
    x: bool,
    depth: nat,
) -> bool
    decreases depth, 0nat, if adj > 0 { adj } else if adj < 0 { cells(d.first, x) + cells(d.second, x) } else { 0 },
{
    if adj == 0 || depth == 0 {
        true
    } else if adj > 0 {
        let l2 = adjusted(left, 1, dims, x, (depth - 1) as nat);
        let d1 = SplitDirectionAndSize { first: with_cells(d.first, x, cells(d.first, x) + 1, dims), ..d };
        &&& cells(d.first, x) < usize::MAX
        &&& adjust_defined(left, 1, dims, x, (depth - 1) as nat)
        &&& if adj - 1 > 0 {
            let r2 = adjusted(right, 1, dims, x, (depth - 1) as nat);
            let d2 = SplitDirectionAndSize { second: with_cells(d1.second, x, cells(d1.second, x) + 1, dims), ..d1 };
            &&& cells(d.second, x) < usize::MAX
            &&& adjust_defined(right, 1, dims, x, (depth - 1) as nat)
            &&& adjust_along_defined(l2, r2, d2, adj - 2, dims, x, depth)
        } else {
            adjust_along_defined(l2, right, d1, adj - 1, dims, x, depth)
        }
    } else {
        let shrink_first = cells(d.first, x) > 1;
        let l2 = if shrink_first { adjusted(left, -1, dims, x, (depth - 1) as nat) } else { left };
        let d1 = if shrink_first {
            SplitDirectionAndSize { first: with_cells(d.first, x, cells(d.first, x) - 1, dims), ..d }
        } else {
            d
        };
        let adj1 = if shrink_first { adj + 1 } else { adj };
        let shrink_second = adj1 < 0 && cells(d1.second, x) > 1;
        let r2 = if shrink_second { adjusted(right, -1, dims, x, (depth - 1) as nat) } else { right };
        let d2 = if shrink_second {
            SplitDirectionAndSize { second: with_cells(d1.second, x, cells(d1.second, x) - 1, dims), ..d1 }
        } else {
            d1
        };
        let adj2 = if shrink_second { adj1 + 1 } else { adj1 };
        &&& shrink_first ==> adjust_defined(left, -1, dims, x, (depth - 1) as nat)
        &&& shrink_second ==> adjust_defined(right, -1, dims, x, (depth - 1) as nat)
        &&& adj2 != adj
        &&& adjust_along_defined(l2, r2, d2, adj2, dims, x, depth)
    }
}

/// Adjusting keeps the tree's levels.
pub proof fn lemma_adjusted_height(tree: Tree, adj: int, dims: TermSize, x: bool, depth: nat)
    ensures
        height(adjusted(tree, adj, dims, x, depth)) == height(tree),
    decreases depth, 1nat, 0int,
{
    if adj != 0 && depth != 0 {
        match tree {
            Tree::Node { left, right, data: Some(d0) } => {
                let d = with_dpi(d0, dims.dpi);
                if d.direction != serial(x) {
                    let wanted = sat_isize(cells(d.first, x) + adj);
                    let min = min_cells(tree, x);
                    let new = if wanted >= min { wanted } else { min };
                    let a = new - cells(d.first, x);
                    lemma_adjusted_height(*left, a, dims, x, (depth - 1) as nat);
                    lemma_adjusted_height(*right, a, dims, x, (depth - 1) as nat);
                } else {
                    lemma_along_height(*left, *right, d, adj, dims, x, depth);
                }
            },
            _ => {},
        }
    }
}

pub proof fn lemma_along_height(left: Tree, right: Tree, d: SplitDirectionAndSize, adj: int, dims: TermSize, x: bool, depth: nat)
    ensures
        height(adjusted_along(left, right, d, adj, dims, x, depth)) == height(
            Tree::Node { left: Box::new(left), right: Box::new(right), data: Some(d) },
        ),
    decreases depth, 0nat, if adj > 0 { adj } else if adj < 0 { cells(d.first, x) + cells(d.second, x) } else { 0 },
{
    if adj != 0 && depth != 0 {
        if adj > 0 {
            lemma_adjusted_height(left, 1, dims, x, (depth - 1) as nat);
            let l2 = adjusted(left, 1, dims, x, (depth - 1) as nat);
            let d1 = SplitDirectionAndSize { first: with_cells(d.first, x, cells(d.first, x) + 1, dims), ..d };
            if adj - 1 > 0 {
                lemma_adjusted_height(right, 1, dims, x, (depth - 1) as nat);
                let r2 = adjusted(right, 1, dims, x, (depth - 1) as nat);
                let d2 = SplitDirectionAndSize { second: with_cells(d1.second, x, cells(d1.second, x) + 1, dims), ..d1 };
                lemma_along_height(l2, r2, d2, adj - 2, dims, x, depth);
            } else {
                lemma_along_height(l2, right, d1, adj - 1, dims, x, depth);
            }
        } else {
            let shrink_first = cells(d.first, x) > 1;
            lemma_adjusted_height(left, -1, dims, x, (depth - 1) as nat);
            lemma_adjusted_height(right, -1, dims, x, (depth - 1) as nat);
            let l2 = if shrink_first { adjusted(left, -1, dims, x, (depth - 1) as nat) } else { left };
            let d1 = if shrink_first {
                SplitDirectionAndSize { first: with_cells(d.first, x, cells(d.first, x) - 1, dims), ..d }
            } else {
                d
            };
            let adj1 = if shrink_first { adj + 1 } else { adj };
            let shrink_second = adj1 < 0 && cells(d1.second, x) > 1;
            let r2 = if shrink_second { adjusted(right, -1, dims, x, (depth - 1) as nat) } else { right };
            let d2 = if shrink_second {
                SplitDirectionAndSize { second: with_cells(d1.second, x, cells(d1.second, x) - 1, dims), ..d1 }
            } else {
                d1
            };
            let adj2 = if shrink_second { adj1 + 1 } else { adj1 };
            if adj2 != adj {
                lemma_along_height(l2, r2, d2, adj2, dims, x, depth);
            }
        }
    }
}

fn get_cells(t: &TermSize, x: bool) -> (n: usize)
    ensures
        n == cells(*t, x),
{
    if x { t.cols } else { t.rows }
}

fn set_cells(t: &mut TermSize, x: bool, n: usize, dims: &TermSize)
    ensures
        *final(t) == with_cells(*old(t), x, n as int, *dims),
{
    if x {
        t.cols = n;
        t.pixel_width = match n.checked_mul(dims.pixel_width) {
            Some(p) => p,
            None => usize::MAX,
        };
    } else {
        t.rows = n;
        t.pixel_height = match n.checked_mul(dims.pixel_height) {
            Some(p) => p,
            None => usize::MAX,
        };
    }
}

/// Grow (or shrink) `tree` by `adj` cells along the axis; see `adjusted`.
pub fn adjust_size(tree: &mut Tree, adj: isize, dims: &TermSize, x: bool, Ghost(depth): Ghost<nat>)
    requires
        height(*old(tree)) <= depth,
        adjust_defined(*old(tree), adj as int, *dims, x, depth),
    ensures
        *final(tree) == adjusted(*old(tree), adj as int, *dims, x, depth),
    decreases depth,
{
    if adj == 0 {
        return;
    }
    let ghost start = *tree;
    let minimum = compute_min_size(tree);
    let min: usize = if x { minimum.0 } else { minimum.1 };
    match tree {
        Tree::Node { left, right, data: Some(data) } => {
            data.first.dpi = dims.dpi;
            data.second.dpi = dims.dpi;
            let across = if x { data.direction != SplitDirection::Horizontal } else { data.direction != SplitDirection::Vertical };
            if across {
                let c = get_cells(&data.first, x) as isize;
                let wanted: isize = match c.checked_add(adj) {
                    Some(v) => v,
                    None => if adj > 0 { isize::MAX } else { isize::MIN },
                };
                let min_i = min as isize;
                let new: isize = if wanted >= min_i { wanted } else { min_i };
                let a: isize = new - c;
                if a != 0 {
                    adjust_size(&mut **left, a, dims, x, Ghost((depth - 1) as nat));
                    set_cells(&mut data.first, x, new as usize, dims);
                    adjust_size(&mut **right, a, dims, x, Ghost((depth - 1) as nat));
                    if x {
                        data.second.cols = data.first.cols;
                        data.second.pixel_width = data.first.pixel_width;
                    } else {
                        data.second.rows = data.first.rows;
                        data.second.pixel_height = data.first.pixel_height;
                    }
                }
                return;
            }
            let ghost l0 = **left;
            let ghost r0 = **right;
            let ghost d0 = *data;
            let ghost a0 = adj as int;
            let mut adj = adj;
            while adj != 0
                invariant
                    depth >= 1,
                    height(**left) <= depth - 1,
                    height(**right) <= depth - 1,
                    data.direction == serial(x),
                    adjusted_along(l0, r0, d0, a0, *dims, x, depth) == adjusted_along(**left, **right, *data, adj as int, *dims, x, depth),
                    adjust_along_defined(**left, **right, *data, adj as int, *dims, x, depth),
                decreases if adj > 0 { adj as int } else if adj < 0 { cells(data.first, x) + cells(data.second, x) } else { 0 },
            {
                let ghost l1 = **left;
                let ghost r1 = **right;
                let ghost d1 = *data;
                let ghost a1 = adj as int;
                if adj > 0 {
                    proof {
                        lemma_adjusted_height(**left, 1, *dims, x, (depth - 1) as nat);
                    }
                    adjust_size(&mut **left, 1, dims, x, Ghost((depth - 1) as nat));
                    let n = get_cells(&data.first, x);
                    set_cells(&mut data.first, x, n + 1, dims);
                    adj = adj - 1;
                    if adj > 0 {
                        proof {
                            lemma_adjusted_height(**right, 1, *dims, x, (depth - 1) as nat);
                        }
                        adjust_size(&mut **right, 1, dims, x, Ghost((depth - 1) as nat));
                        let n = get_cells(&data.second, x);
                        set_cells(&mut data.second, x, n + 1, dims);
                        adj = adj - 1;
                    }
                } else {
                    let ghost before = adj;
                    if get_cells(&data.first, x) > 1 {
                        proof {
                            lemma_adjusted_height(**left, -1, *dims, x, (depth - 1) as nat);
                        }
                        adjust_size(&mut **left, -1, dims, x, Ghost((depth - 1) as nat));
                        let n = get_cells(&data.first, x);
                        set_cells(&mut data.first, x, n - 1, dims);
                        adj = adj + 1;
                    }
                    if adj < 0 && get_cells(&data.second, x) > 1 {
                        proof {
                            lemma_adjusted_height(**right, -1, *dims, x, (depth - 1) as nat);
                        }
                        adjust_size(&mut **right, -1, dims, x, Ghost((depth - 1) as nat));
                        let n = get_cells(&data.second, x);
                        set_cells(&mut data.second, x, n - 1, dims);
                        adj = adj + 1;
                    }
                }
                assert(adjusted_along(l1, r1, d1, a1, *dims, x, depth) == adjusted_along(**left, **right, *data, adj as int, *dims, x, depth));
            }
            assert(adjusted_along(**left, **right, *data, 0, *dims, x, depth) == Tree::Node { left: Box::new(**left), right: Box::new(**right), data: Some(*data) });
            assert(adjusted(start, a0, *dims, x, depth) == adjusted_along(l0, r0, d0, a0, *dims, x, depth));
        },
        _ => {},
    }
}

} // verus!
