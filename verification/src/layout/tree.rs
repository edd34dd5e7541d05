//! The split tree of a tab and the rectangles it assigns to panes and dividers.
use vstd::prelude::*;
use crate::layout::size::{
    sat_sub, PositionedSplit, SplitDirection, SplitDirectionAndSize, SplitRequest, SplitSize, TermSize,
};

verus! {

/// Leaves are pane identifiers; a node describes how its rectangle is split
/// between its two children.
#[derive(Debug)]
pub enum Tree {
    Empty,
    Leaf(usize),
    Node { left: Box<Tree>, right: Box<Tree>, data: Option<SplitDirectionAndSize> },
}

/// A pane together with its place in the tab, in cells.
#[derive(Debug, Clone, Copy, PartialEq, Eq)]
pub struct PositionedPane {
    /// The topological pane index that can be used to reference this pane
    pub index: usize,
    /// true if this is the active pane at the time the position was computed
    pub is_active: bool,
    /// true if this pane is zoomed
    pub is_zoomed: bool,
    /// Offset from the top left corner of the tab to that of this pane.
    pub left: usize,
    pub top: usize,
    /// The width of this pane in cells
    pub width: usize,
    pub pixel_width: usize,
    /// The height of this pane in cells
    pub height: usize,
    pub pixel_height: usize,
    pub pane_id: usize,
}

/// The panes of a tree, left to right.
pub open spec fn leaves(tree: Tree) -> Seq<usize>
    decreases tree,
{
    match tree {
        Tree::Empty => Seq::empty(),
        Tree::Leaf(id) => seq![id],
        Tree::Node { left, right, .. } => leaves(*left) + leaves(*right),
    }
}

/// The number of inner nodes, in the order a preorder walk meets them.
pub open spec fn inner_count(tree: Tree) -> nat
    decreases tree,
{
    match tree {
        Tree::Node { left, right, .. } => 1 + inner_count(*left) + inner_count(*right),
        _ => 0,
    }
}

pub open spec fn max_nat(a: nat, b: nat) -> nat {
    if a >= b {
        a
    } else {
        b
    }
}

/// The smallest (columns, rows) that still gives every pane one cell.
pub open spec fn min_size(tree: Tree) -> (nat, nat)
    decreases tree,
{
    match tree {
        Tree::Node { left, right, data: Some(data) } => {
            let l = min_size(*left);
            let r = min_size(*right);
            match data.direction {
                SplitDirection::Vertical => (max_nat(l.0, r.0), l.1 + r.1 + 1),
                SplitDirection::Horizontal => (l.0 + r.0 + 1, max_nat(l.1, r.1)),
            }
        },
        _ => (1, 1),
    }
}

/// Every pane needs at least one cell.
pub proof fn lemma_min_size_positive(tree: Tree)
    ensures
        min_size(tree).0 >= 1,
        min_size(tree).1 >= 1,
    decreases tree,
{
    match tree {
        Tree::Node { left, right, data: Some(data) } => {
            lemma_min_size_positive(*left);
            lemma_min_size_positive(*right);
        },
        _ => {},
    }
}

/// Computes the minimum (x, y) size based on the panes in this portion
/// of the tree.
pub fn compute_min_size(tree: &Tree) -> (min: (usize, usize))
    requires
        min_size(*tree).0 <= usize::MAX,
        min_size(*tree).1 <= usize::MAX,
    ensures
        min.0 == min_size(*tree).0,
        min.1 == min_size(*tree).1,
    decreases tree,
{
    match tree {
        Tree::Node { left, right, data: Some(data) } => {
            let (left_x, left_y) = compute_min_size(left);
            let (right_x, right_y) = compute_min_size(right);
            match data.direction {
                SplitDirection::Vertical => (
                    if left_x >= right_x { left_x } else { right_x },
                    left_y + right_y + 1,
                ),
                SplitDirection::Horizontal => (
                    left_x + right_x + 1,
                    if left_y >= right_y { left_y } else { right_y },
                ),
            }
        },
        _ => (1, 1),
    }
}

/// Every offset a walk of the tree computes stays within `usize`, starting
/// from the cell (`left`, `top`).
pub open spec fn coords_fit(tree: Tree, left: int, top: int) -> bool
    decreases tree,
{
    match tree {
        Tree::Node { left: l, right: r, data } => match data {
            Some(d) => {
                &&& left + d.left_of_second_spec() <= usize::MAX
                &&& top + d.top_of_second_spec() <= usize::MAX
                &&& left + d.first.cols <= usize::MAX
                &&& top + d.first.rows <= usize::MAX
                &&& d.width_spec() <= usize::MAX
                &&& d.height_spec() <= usize::MAX
                &&& coords_fit(*l, left, top)
                &&& coords_fit(*r, left + d.left_of_second_spec(), top + d.top_of_second_spec())
            },
            None => coords_fit(*l, left, top) && coords_fit(*r, left, top),
        },
        _ => true,
    }
}

/// Each pane with the cell of its top left corner and its size. A node
/// without sizes passes its own rectangle to both children.
pub open spec fn pane_rects(tree: Tree, left: int, top: int, size: TermSize) -> Seq<(usize, int, int, TermSize)>
    decreases tree,
{
    match tree {
        Tree::Empty => Seq::empty(),
        Tree::Leaf(id) => seq![(id, left, top, size)],
        Tree::Node { left: l, right: r, data } => match data {
            Some(d) => pane_rects(*l, left, top, d.first) + pane_rects(
                *r,
                left + d.left_of_second_spec(),
                top + d.top_of_second_spec(),
                d.second,
            ),
            None => pane_rects(*l, left, top, size) + pane_rects(*r, left, top, size),
        },
    }
}

/// The positioned pane at `index` of the walk.
pub open spec fn positioned(
    rect: (usize, int, int, TermSize),
    index: int,
    active: usize,
    zoomed: Option<usize>,
) -> PositionedPane {
    PositionedPane {
        index: index as usize,
        is_active: index == active,
        is_zoomed: zoomed == Some(rect.0),
        left: rect.1 as usize,
        top: rect.2 as usize,
        width: rect.3.cols,
        pixel_width: rect.3.pixel_width,
        height: rect.3.rows,
        pixel_height: rect.3.pixel_height,
        pane_id: rect.0,
    }
}

/// Every divider in preorder, with the index of the node it belongs to.
pub open spec fn split_rects(tree: Tree, left: int, top: int, index: int) -> Seq<PositionedSplit>
    decreases tree,
{
    match tree {
        Tree::Node { left: l, right: r, data } => {
            let first = index + 1;
            let second = index + 1 + inner_count(*l);
            match data {
                Some(d) => {
                    let divider = PositionedSplit {
                        index: index as usize,
                        direction: d.direction,
                        left: (if d.direction == SplitDirection::Horizontal {
                            left + d.first.cols
                        } else {
                            left
                        }) as usize,
                        top: (if d.direction == SplitDirection::Vertical {
                            top + d.first.rows
                        } else {
                            top
                        }) as usize,
                        size: (if d.direction == SplitDirection::Horizontal {
                            d.height_spec()
                        } else {
                            d.width_spec()
                        }) as usize,
                    };
                    seq![divider] + split_rects(*l, left, top, first) + split_rects(
                        *r,
                        left + d.left_of_second_spec(),
                        top + d.top_of_second_spec(),
                        second,
                    )
                },
                None => split_rects(*l, left, top, first) + split_rects(*r, left, top, second),
            }
        },
        _ => Seq::empty(),
    }
}

/// Appends the panes of `tree` to `out`, numbering them from `out.len()`.
pub fn collect_panes(
    tree: &Tree,
    left: usize,
    top: usize,
    size: TermSize,
    active: usize,
    zoomed: Option<usize>,
    out: &mut Vec<PositionedPane>,
)
    requires
        coords_fit(*tree, left as int, top as int),
        old(out).len() + leaves(*tree).len() <= usize::MAX,
    ensures
        final(out)@.len() == old(out)@.len() + pane_rects(*tree, left as int, top as int, size).len(),
        final(out)@.subrange(0, old(out)@.len() as int) == old(out)@,
        forall|k: int|
            0 <= k < pane_rects(*tree, left as int, top as int, size).len() ==> #[trigger] final(out)@[old(
                out,
            )@.len() + k] == positioned(
                pane_rects(*tree, left as int, top as int, size)[k],
                old(out)@.len() + k,
                active,
                zoomed,
            ),
    decreases tree,
{
    proof {
        lemma_rects_len(*tree, left as int, top as int, size);
    }
    match tree {
        Tree::Empty => {},
        Tree::Leaf(id) => {
            let index = out.len();
            let is_zoomed = match zoomed {
                Some(z) => z == *id,
                None => false,
            };
            out.push(
                PositionedPane {
                    index,
                    is_active: index == active,
                    is_zoomed,
                    left,
                    top,
                    width: size.cols,
                    pixel_width: size.pixel_width,
                    height: size.rows,
                    pixel_height: size.pixel_height,
                    pane_id: *id,
                },
            );
        },
        Tree::Node { left: l, right: r, data } => {
            let ghost before = out@;
            match data {
                Some(d) => {
                    collect_panes(l, left, top, d.first, active, zoomed, out);
                    let ghost mid = out@;
                    proof {
                        lemma_rects_len(**l, left as int, top as int, d.first);
                    }
                    let second_left = left + d.left_of_second();
                    let second_top = top + d.top_of_second();
                    collect_panes(r, second_left, second_top, d.second, active, zoomed, out);
                    proof {
                        let rl = pane_rects(**l, left as int, top as int, d.first);
                        let rr = pane_rects(**r, second_left as int, second_top as int, d.second);
                        assert forall|k: int| 0 <= k < rl.len() + rr.len() implies #[trigger] out@[before.len()
                            + k] == positioned(
                            (rl + rr)[k],
                            before.len() + k,
                            active,
                            zoomed,
                        ) by {
                            if k < rl.len() {
                                assert(out@[before.len() + k] == mid[before.len() + k]);
                            } else {
                                assert(out@[mid.len() + (k - rl.len())] == positioned(
                                    rr[k - rl.len()],
                                    mid.len() + (k - rl.len()),
                                    active,
                                    zoomed,
                                ));
                            }
                        }
                        assert(out@.subrange(0, before.len() as int) =~= before) by {
                            assert(mid.subrange(0, before.len() as int) =~= before);
                            assert forall|k: int| 0 <= k < before.len() implies out@[k] == before[k] by {
                                assert(out@.subrange(0, mid.len() as int)[k] == mid[k]);
                            }
                        }
                    }
                },
                None => {
                    collect_panes(l, left, top, size, active, zoomed, out);
                    let ghost mid = out@;
                    proof {
                        lemma_rects_len(**l, left as int, top as int, size);
                    }
                    collect_panes(r, left, top, size, active, zoomed, out);
                    proof {
                        let rl = pane_rects(**l, left as int, top as int, size);
                        let rr = pane_rects(**r, left as int, top as int, size);
                        assert forall|k: int| 0 <= k < rl.len() + rr.len() implies #[trigger] out@[before.len()
                            + k] == positioned(
                            (rl + rr)[k],
                            before.len() + k,
                            active,
                            zoomed,
                        ) by {
                            if k < rl.len() {
                                assert(out@[before.len() + k] == mid[before.len() + k]);
                            } else {
                                assert(out@[mid.len() + (k - rl.len())] == positioned(
                                    rr[k - rl.len()],
                                    mid.len() + (k - rl.len()),
                                    active,
                                    zoomed,
                                ));
                            }
                        }
                        assert(out@.subrange(0, before.len() as int) =~= before) by {
                            assert(mid.subrange(0, before.len() as int) =~= before);
                            assert forall|k: int| 0 <= k < before.len() implies out@[k] == before[k] by {
                                assert(out@.subrange(0, mid.len() as int)[k] == mid[k]);
                            }
                        }
                    }
                },
            }
        },
    }
}

/// A tree assigns exactly one rectangle to each of its panes.
pub proof fn lemma_rects_len(tree: Tree, left: int, top: int, size: TermSize)
    ensures
        pane_rects(tree, left, top, size).len() == leaves(tree).len(),
        forall|k: int|
            0 <= k < leaves(tree).len() ==> #[trigger] pane_rects(tree, left, top, size)[k].0 == leaves(
                tree,
            )[k],
    decreases tree,
{
    match tree {
        Tree::Node { left: l, right: r, data } => match data {
            Some(d) => {
                lemma_rects_len(*l, left, top, d.first);
                lemma_rects_len(
                    *r,
                    left + d.left_of_second_spec(),
                    top + d.top_of_second_spec(),
                    d.second,
                );
                let a = pane_rects(*l, left, top, d.first);
                let b = pane_rects(
                    *r,
                    left + d.left_of_second_spec(),
                    top + d.top_of_second_spec(),
                    d.second,
                );
                assert forall|k: int| 0 <= k < leaves(tree).len() implies #[trigger] pane_rects(
                    tree,
                    left,
                    top,
                    size,
                )[k].0 == leaves(tree)[k] by {
                    if k >= a.len() {
                        assert((a + b)[k] == b[k - a.len()]);
                    }
                }
            },
            None => {
                lemma_rects_len(*l, left, top, size);
                lemma_rects_len(*r, left, top, size);
                let a = pane_rects(*l, left, top, size);
                let b = pane_rects(*r, left, top, size);
                assert forall|k: int| 0 <= k < leaves(tree).len() implies #[trigger] pane_rects(
                    tree,
                    left,
                    top,
                    size,
                )[k].0 == leaves(tree)[k] by {
                    if k >= a.len() {
                        assert((a + b)[k] == b[k - a.len()]);
                    }
                }
            },
        },
        _ => {},
    }
}

/// Appends the dividers of `tree` to `out`; the first inner node of `tree`
/// has the index `index`. Returns the index after the last inner node.
pub fn collect_splits(tree: &Tree, left: usize, top: usize, index: usize, out: &mut Vec<PositionedSplit>) -> (next: usize)
    requires
        coords_fit(*tree, left as int, top as int),
        index + inner_count(*tree) <= usize::MAX,
    ensures
        next == index + inner_count(*tree),
        final(out)@ == old(out)@ + split_rects(*tree, left as int, top as int, index as int),
    decreases tree,
{
    match tree {
        Tree::Node { left: l, right: r, data } => {
            let ghost before = out@;
            match data {
                Some(d) => {
                    let divider_left = if d.direction == SplitDirection::Horizontal {
                        left + d.first.cols
                    } else {
                        left
                    };
                    let divider_top = if d.direction == SplitDirection::Vertical {
                        top + d.first.rows
                    } else {
                        top
                    };
                    let size = if d.direction == SplitDirection::Horizontal {
                        d.height()
                    } else {
                        d.width()
                    };
                    out.push(PositionedSplit { index, direction: d.direction, left: divider_left, top: divider_top, size });
                    let after_left = collect_splits(l, left, top, index + 1, out);
                    let second_left = left + d.left_of_second();
                    let second_top = top + d.top_of_second();
                    let next = collect_splits(r, second_left, second_top, after_left, out);
                    assert(out@ =~= before + split_rects(*tree, left as int, top as int, index as int));
                    next
                },
                None => {
                    let after_left = collect_splits(l, left, top, index + 1, out);
                    let next = collect_splits(r, left, top, after_left, out);
                    assert(out@ =~= before + split_rects(*tree, left as int, top as int, index as int));
                    next
                },
            }
        },
        _ => {
            assert(out@ =~= old(out)@ + split_rects(*tree, left as int, top as int, index as int));
            index
        },
    }
}

/// The number of panes.
pub fn count_leaves(tree: &Tree) -> (count: usize)
    requires
        leaves(*tree).len() <= usize::MAX,
    ensures
        count == leaves(*tree).len(),
    decreases tree,
{
    match tree {
        Tree::Empty => 0,
        Tree::Leaf(_) => 1,
        Tree::Node { left, right, .. } => count_leaves(left) + count_leaves(right),
    }
}

/// Whether `pane` is one of the panes.
pub fn tree_contains(tree: &Tree, pane: usize) -> (found: bool)
    ensures
        found == leaves(*tree).contains(pane),
    decreases tree,
{
    match tree {
        Tree::Empty => false,
        Tree::Leaf(id) => {
            assert(leaves(*tree) =~= seq![*id]);
            assert(leaves(*tree)[0] == *id);
            *id == pane
        },
        Tree::Node { left, right, .. } => {
            let a = tree_contains(left, pane);
            let b = tree_contains(right, pane);
            proof {
                let l = leaves(**left);
                let r = leaves(**right);
                if a {
                    let k = choose|k: int| 0 <= k < l.len() && l[k] == pane;
                    assert((l + r)[k] == pane);
                }
                if b {
                    let k = choose|k: int| 0 <= k < r.len() && r[k] == pane;
                    assert((l + r)[l.len() + k] == pane);
                }
                if (l + r).contains(pane) {
                    let k = choose|k: int| 0 <= k < (l + r).len() && (l + r)[k] == pane;
                    if k < l.len() {
                        assert(l[k] == pane);
                    } else {
                        assert(r[k - l.len()] == pane);
                    }
                }
            }
            a || b
        },
    }
}

/// The requested size of the new part of a split of `dim` cells.
pub open spec fn target_size_spec(dim: int, request: SplitRequest) -> int {
    let target = match request.size {
        SplitSize::Cells(n) => n as int,
        SplitSize::Percent(n) => (dim * n) / 100,
    };
    if target >= 1 {
        target
    } else {
        1
    }
}

/// (first, second) cells of a split of `dim` cells, one cell going to the divider.
pub open spec fn split_dimension_spec(dim: int, request: SplitRequest) -> (int, int) {
    let target = target_size_spec(dim, request);
    let remain = sat_sub(dim, target + 1);
    if request.target_is_second {
        (remain, target)
    } else {
        (target, remain)
    }
}

pub open spec fn split_fits(dim: usize, request: SplitRequest) -> bool {
    &&& request.size matches SplitSize::Percent(n) ==> dim * n <= usize::MAX
    &&& request.size matches SplitSize::Cells(n) ==> n < usize::MAX
}

pub fn split_dimension(dim: usize, request: SplitRequest) -> (parts: (usize, usize))
    requires
        split_fits(dim, request),
    ensures
        parts.0 == split_dimension_spec(dim as int, request).0,
        parts.1 == split_dimension_spec(dim as int, request).1,
{
    let target = match request.size {
        SplitSize::Cells(n) => n,
        SplitSize::Percent(n) => (dim * (n as usize)) / 100,
    };
    let target = if target >= 1 { target } else { 1 };
    proof {
        if let SplitSize::Percent(n) = request.size {
            assert((dim * n) / 100 < usize::MAX) by (nonlinear_arith)
                requires
                    dim * n <= usize::MAX,
                    dim * n >= 0,
            ;
        }
    }
    let remain = dim.saturating_sub(target + 1);
    if request.target_is_second {
        (remain, target)
    } else {
        (target, remain)
    }
}

/// A split of a `width` x `height` rectangle made of `cell` sized cells.
pub open spec fn split_layout_spec(width: usize, height: usize, request: SplitRequest, cell: TermSize) -> SplitDirectionAndSize {
    let (w1, w2, h1, h2) = match request.direction {
        SplitDirection::Horizontal => {
            let (a, b) = split_dimension_spec(width as int, request);
            (a, b, height as int, height as int)
        },
        SplitDirection::Vertical => {
            let (a, b) = split_dimension_spec(height as int, request);
            (width as int, width as int, a, b)
        },
    };
    SplitDirectionAndSize {
        direction: request.direction,
        first: TermSize {
            rows: h1 as usize,
            cols: w1 as usize,
            pixel_height: (cell.pixel_height * h1) as usize,
            pixel_width: (cell.pixel_width * w1) as usize,
            dpi: cell.dpi,
        },
        second: TermSize {
            rows: h2 as usize,
            cols: w2 as usize,
            pixel_height: (cell.pixel_height * h2) as usize,
            pixel_width: (cell.pixel_width * w2) as usize,
            dpi: cell.dpi,
        },
    }
}

pub open spec fn split_layout_fits(width: usize, height: usize, request: SplitRequest, cell: TermSize) -> bool {
    let split = split_layout_spec(width, height, request, cell);
    &&& split_fits(if request.direction == SplitDirection::Horizontal { width } else { height }, request)
    &&& cell.pixel_height * split_layout_spec(width, height, request, cell).first.rows <= usize::MAX
    &&& cell.pixel_width * split_layout_spec(width, height, request, cell).first.cols <= usize::MAX
    &&& cell.pixel_height * split_layout_spec(width, height, request, cell).second.rows <= usize::MAX
    &&& cell.pixel_width * split_layout_spec(width, height, request, cell).second.cols <= usize::MAX
}

/// The sizes a new split of a `width` x `height` pane (or of the whole tab)
/// would give its two parts.
pub fn split_layout(width: usize, height: usize, request: SplitRequest, cell: TermSize) -> (split: SplitDirectionAndSize)
    requires
        split_layout_fits(width, height, request, cell),
    ensures
        split == split_layout_spec(width, height, request, cell),
{
    let (width1, width2, height1, height2) = match request.direction {
        SplitDirection::Horizontal => {
            let (a, b) = split_dimension(width, request);
            (a, b, height, height)
        },
        SplitDirection::Vertical => {
            let (a, b) = split_dimension(height, request);
            (width, width, a, b)
        },
    };
    SplitDirectionAndSize {
        direction: request.direction,
        first: TermSize {
            rows: height1,
            cols: width1,
            pixel_height: cell.pixel_height * height1,
            pixel_width: cell.pixel_width * width1,
            dpi: cell.dpi,
        },
        second: TermSize {
            rows: height2,
            cols: width2,
            pixel_height: cell.pixel_height * height2,
            pixel_width: cell.pixel_width * width2,
            dpi: cell.dpi,
        },
    }
}

} // verus!
