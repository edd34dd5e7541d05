//! Proportional resizing. The ratios describe a user-selected layout rather
//! than the last rounded cell allocation; keeping them across window resizes
//! prevents one-cell steps and temporarily clamped minimum sizes from
//! gradually moving the dividers.
use vstd::prelude::*;
use crate::layout::size::{cell_dimensions, cell_of, sat_sub, SplitDirection, SplitDirectionAndSize, TermSize};
use crate::layout::tree::{compute_min_size, leaves, lemma_min_size_positive, min_size, Tree};

verus! {

/// `span` cells shared in the ratio `first : second`, rounded to the nearest
/// cell, then kept within the two minimum sizes (the second one wins).
pub open spec fn proportional_first_spec(span: int, first: int, second: int, min_first: int, min_second: int) -> int {
    let total = first + second;
    let rounded = if total == 0 {
        span / 2
    } else {
        (span * first + total / 2) / total
    };
    let at_least = if rounded >= min_first {
        rounded
    } else {
        min_first
    };
    let limit = sat_sub(span, min_second);
    if at_least <= limit {
        at_least
    } else {
        limit
    }
}

pub fn proportional_first_size(
    span: usize,
    first: usize,
    second: usize,
    minimum_first: usize,
    minimum_second: usize,
) -> (size: usize)
    ensures
        size == proportional_first_spec(
            span as int,
            first as int,
            second as int,
            minimum_first as int,
            minimum_second as int,
        ),
        size <= span,
{
    // Use integers and round only at allocation time. u128 avoids intermediate
    // multiplication overflow on either 32-bit or 64-bit targets.
    let total: u128 = first as u128 + second as u128;
    let rounded: usize = if total == 0 {
        span / 2
    } else {
        proof {
            assert((span as int) * (first as int) <= 0xffff_ffff_ffff_ffffint * 0xffff_ffff_ffff_ffffint) by (nonlinear_arith)
                requires
                    span <= 0xffff_ffff_ffff_ffffint,
                    first <= 0xffff_ffff_ffff_ffffint,
            ;
            assert(((span as int) * (first as int) + total / 2) / (total as int) <= span) by (nonlinear_arith)
                requires
                    total > 0,
                    first <= total,
            ;
        }
        let product: u128 = span as u128 * first as u128;
        ((product + total / 2) / total) as usize
    };
    let at_least = if rounded >= minimum_first {
        rounded
    } else {
        minimum_first
    };
    let limit = span.saturating_sub(minimum_second);
    if at_least <= limit {
        at_least
    } else {
        limit
    }
}

/// A split of `size` in the stored ratio, each side given at least its
/// minimum where the size allows it.
pub open spec fn resized_split(
    direction: SplitDirection,
    size: TermSize,
    first: usize,
    second: usize,
    minimum_first: (nat, nat),
    minimum_second: (nat, nat),
) -> SplitDirectionAndSize {
    let cell = cell_of(size);
    let (first_cols, second_cols, first_rows, second_rows) = match direction {
        SplitDirection::Horizontal => {
            let available = sat_sub(size.cols as int, 1);
            let a = proportional_first_spec(
                available,
                first as int,
                second as int,
                minimum_first.0 as int,
                minimum_second.0 as int,
            );
            (a, available - a, size.rows as int, size.rows as int)
        },
        SplitDirection::Vertical => {
            let available = sat_sub(size.rows as int, 1);
            let a = proportional_first_spec(
                available,
                first as int,
                second as int,
                minimum_first.1 as int,
                minimum_second.1 as int,
            );
            (size.cols as int, size.cols as int, a, available - a)
        },
    };
    SplitDirectionAndSize {
        direction,
        first: TermSize {
            rows: first_rows as usize,
            cols: first_cols as usize,
            pixel_width: (first_cols * cell.pixel_width) as usize,
            pixel_height: (first_rows * cell.pixel_height) as usize,
            dpi: size.dpi,
        },
        second: TermSize {
            rows: second_rows as usize,
            cols: second_cols as usize,
            pixel_width: (second_cols * cell.pixel_width) as usize,
            pixel_height: (second_rows * cell.pixel_height) as usize,
            dpi: size.dpi,
        },
    }
}

proof fn lemma_cells_fit(count: int, total: int, pixels: int)
    requires
        0 <= count <= total,
        total > 0,
        0 <= pixels,
    ensures
        0 <= count * (pixels / total) <= pixels,
{
    assert(0 <= count * (pixels / total) <= pixels) by (nonlinear_arith)
        requires
            0 <= count <= total,
            total > 0,
            0 <= pixels,
    ;
}

pub fn resize_split_proportionally(
    data: &mut SplitDirectionAndSize,
    size: TermSize,
    first: usize,
    second: usize,
    minimum_first: (usize, usize),
    minimum_second: (usize, usize),
)
    requires
        size.cols > 0,
        size.rows > 0,
    ensures
        *final(data) == resized_split(
            old(data).direction,
            size,
            first,
            second,
            (minimum_first.0 as nat, minimum_first.1 as nat),
            (minimum_second.0 as nat, minimum_second.1 as nat),
        ),
{
    let dims = cell_dimensions(&size);
    data.first = size;
    data.second = size;
    match data.direction {
        SplitDirection::Horizontal => {
            let available = size.cols - 1;
            data.first.cols = proportional_first_size(
                available,
                first,
                second,
                minimum_first.0,
                minimum_second.0,
            );
            data.second.cols = available - data.first.cols;
        },
        SplitDirection::Vertical => {
            let available = size.rows - 1;
            data.first.rows = proportional_first_size(
                available,
                first,
                second,
                minimum_first.1,
                minimum_second.1,
            );
            data.second.rows = available - data.first.rows;
        },
    }
    proof {
        lemma_cells_fit(data.first.cols as int, size.cols as int, size.pixel_width as int);
        lemma_cells_fit(data.second.cols as int, size.cols as int, size.pixel_width as int);
        lemma_cells_fit(data.first.rows as int, size.rows as int, size.pixel_height as int);
        lemma_cells_fit(data.second.rows as int, size.rows as int, size.pixel_height as int);
    }
    data.first.pixel_width = data.first.cols * dims.pixel_width;
    data.first.pixel_height = data.first.rows * dims.pixel_height;
    data.second.pixel_width = data.second.cols * dims.pixel_width;
    data.second.pixel_height = data.second.rows * dims.pixel_height;
}

/// The sizes of the first and second child along the split's axis.
pub open spec fn split_dimensions_spec(data: SplitDirectionAndSize) -> (usize, usize) {
    match data.direction {
        SplitDirection::Horizontal => (data.first.cols, data.second.cols),
        SplitDirection::Vertical => (data.first.rows, data.second.rows),
    }
}

pub fn split_dimensions(data: &SplitDirectionAndSize) -> (dims: (usize, usize))
    ensures
        dims == split_dimensions_spec(*data),
{
    match data.direction {
        SplitDirection::Horizontal => (data.first.cols, data.second.cols),
        SplitDirection::Vertical => (data.first.rows, data.second.rows),
    }
}

/// The ratios a layout was last arranged with, mirroring the split tree.
#[derive(Debug)]
pub enum SplitResizeReference {
    Empty,
    Pane(usize),
    Split {
        direction: SplitDirection,
        first: usize,
        second: usize,
        left: Box<SplitResizeReference>,
        right: Box<SplitResizeReference>,
    },
}

/// The reference recording the current ratios of `tree`.
pub open spec fn captured(tree: Tree) -> SplitResizeReference
    decreases tree,
{
    match tree {
        Tree::Leaf(id) => SplitResizeReference::Pane(id),
        Tree::Node { left, right, data: Some(data) } => SplitResizeReference::Split {
            direction: data.direction,
            first: split_dimensions_spec(data).0,
            second: split_dimensions_spec(data).1,
            left: Box::new(captured(*left)),
            right: Box::new(captured(*right)),
        },
        _ => SplitResizeReference::Empty,
    }
}

/// Whether `reference` has the shape, directions and panes of `tree`.
pub open spec fn reference_matches(reference: SplitResizeReference, tree: Tree) -> bool
    decreases tree,
{
    match (reference, tree) {
        (SplitResizeReference::Empty, Tree::Empty) => true,
        (SplitResizeReference::Empty, Tree::Node { data: None, .. }) => true,
        (SplitResizeReference::Pane(id), Tree::Leaf(pane)) => id == pane,
        (
            SplitResizeReference::Split { direction, left, right, .. },
            Tree::Node { left: tree_left, right: tree_right, data: Some(data) },
        ) => direction == data.direction && reference_matches(*left, *tree_left) && reference_matches(
            *right,
            *tree_right,
        ),
        _ => false,
    }
}

/// The tree after every matching split took its stored ratio within `size`.
pub open spec fn applied(reference: SplitResizeReference, tree: Tree, size: TermSize) -> Tree
    decreases tree,
{
    match (reference, tree) {
        (
            SplitResizeReference::Split { first, second, left: reference_left, right: reference_right, .. },
            Tree::Node { left, right, data: Some(data) },
        ) => {
            let resized = resized_split(
                data.direction,
                size,
                first,
                second,
                min_size(*left),
                min_size(*right),
            );
            Tree::Node {
                left: Box::new(applied(*reference_left, *left, resized.first)),
                right: Box::new(applied(*reference_right, *right, resized.second)),
                data: Some(resized),
            }
        },
        _ => tree,
    }
}

/// The reference after a divider drag in `tree`: the first split of the
/// reference (outermost first, left before right) whose subtree `tree` is
/// takes the new ratio; the ratios of its descendants are left alone.
pub open spec fn updated(reference: SplitResizeReference, tree: Tree) -> (SplitResizeReference, bool)
    decreases reference,
{
    if reference_matches(reference, tree) {
        match (reference, tree) {
            (
                SplitResizeReference::Split { direction, left, right, .. },
                Tree::Node { data: Some(data), .. },
            ) => (
                SplitResizeReference::Split {
                    direction,
                    first: split_dimensions_spec(data).0,
                    second: split_dimensions_spec(data).1,
                    left,
                    right,
                },
                true,
            ),
            _ => (reference, false),
        }
    } else {
        match reference {
            SplitResizeReference::Split { direction, first, second, left, right } => {
                let (new_left, found_left) = updated(*left, tree);
                if found_left {
                    (
                        SplitResizeReference::Split { direction, first, second, left: Box::new(new_left), right },
                        true,
                    )
                } else {
                    let (new_right, found_right) = updated(*right, tree);
                    (
                        SplitResizeReference::Split { direction, first, second, left, right: Box::new(new_right) },
                        found_right,
                    )
                }
            },
            _ => (reference, false),
        }
    }
}

/// A reference in which no split matched is left as it was.
pub proof fn lemma_update_miss_unchanged(reference: SplitResizeReference, tree: Tree)
    ensures
        !updated(reference, tree).1 ==> updated(reference, tree).0 == reference,
    decreases reference,
{
    if !reference_matches(reference, tree) {
        match reference {
            SplitResizeReference::Split { left, right, .. } => {
                lemma_update_miss_unchanged(*left, tree);
                lemma_update_miss_unchanged(*right, tree);
            },
            _ => {},
        }
    }
}

impl SplitResizeReference {
    /// A divider drag changes this node's ratio, not its descendants' ratios.
    pub fn update_split(&mut self, tree: &Tree) -> (found: bool)
        ensures
            (*final(self), found) == updated(*old(self), *tree),
        decreases *old(self),
    {
        if self.matches(tree) {
            match (self, tree) {
                (
                    SplitResizeReference::Split { first, second, .. },
                    Tree::Node { data: Some(data), .. },
                ) => {
                    let (a, b) = split_dimensions(data);
                    *first = a;
                    *second = b;
                    return true;
                },
                _ => {
                    return false;
                },
            }
        }
        match self {
            SplitResizeReference::Split { left, right, .. } => {
                proof {
                    lemma_update_miss_unchanged(**left, *tree);
                }
                if SplitResizeReference::update_split(&mut **left, tree) {
                    true
                } else {
                    SplitResizeReference::update_split(&mut **right, tree)
                }
            },
            _ => false,
        }
    }

    pub fn capture(tree: &Tree) -> (reference: Self)
        ensures
            reference == captured(*tree),
        decreases tree,
    {
        match tree {
            Tree::Leaf(pane) => SplitResizeReference::Pane(*pane),
            Tree::Node { left, right, data: Some(data) } => {
                let (first, second) = split_dimensions(data);
                SplitResizeReference::Split {
                    direction: data.direction,
                    first,
                    second,
                    left: Box::new(Self::capture(left)),
                    right: Box::new(Self::capture(right)),
                }
            },
            _ => SplitResizeReference::Empty,
        }
    }

    pub fn matches(&self, tree: &Tree) -> (same: bool)
        ensures
            same == reference_matches(*self, *tree),
        decreases tree,
    {
        match (self, tree) {
            (SplitResizeReference::Empty, Tree::Empty) => true,
            (SplitResizeReference::Empty, Tree::Node { data: None, .. }) => true,
            (SplitResizeReference::Pane(id), Tree::Leaf(pane)) => *id == *pane,
            (
                SplitResizeReference::Split { direction, left, right, .. },
                Tree::Node { left: tree_left, right: tree_right, data: Some(data) },
            ) => *direction == data.direction && left.matches(tree_left) && right.matches(tree_right),
            _ => false,
        }
    }

    /// Update every split from the same stable layout reference; the window
    /// size at the time does not feed the previous rounding back into it.
    pub fn apply(&self, tree: &mut Tree, size: TermSize)
        requires
            size.cols >= min_size(*old(tree)).0,
            size.rows >= min_size(*old(tree)).1,
        ensures
            *final(tree) == applied(*self, *old(tree), size),
        decreases *old(tree),
    {
        match (self, tree) {
            (
                SplitResizeReference::Split { first, second, left: reference_left, right: reference_right, .. },
                Tree::Node { left, right, data: Some(data) },
            ) => {
                proof {
                    lemma_min_size_positive(*old(tree));
                }
                let minimum_first = compute_min_size(left);
                let minimum_second = compute_min_size(right);
                resize_split_proportionally(data, size, *first, *second, minimum_first, minimum_second);
                reference_left.apply(&mut **left, data.first);
                reference_right.apply(&mut **right, data.second);
            },
            _ => {},
        }
    }
}

/// Unless a minimum size intervenes, the first child receives the stored share
/// of the span rounded to the nearest cell: the error is at most half a cell.
pub proof fn lemma_share_is_rounded(span: int, first: int, second: int, min_first: int, min_second: int)
    requires
        span >= 0,
        first >= 0,
        second >= 0,
        first + second > 0,
        min_first >= 0,
        min_second >= 0,
        min_first + min_second <= span,
    ensures
        min_first <= proportional_first_spec(span, first, second, min_first, min_second) <= span - min_second,
        ({
            let a = proportional_first_spec(span, first, second, min_first, min_second);
            let rounded = (span * first + (first + second) / 2) / (first + second);
            min_first <= rounded <= span - min_second ==> {
                &&& 2 * (a * (first + second) - span * first) <= first + second
                &&& 2 * (span * first - a * (first + second)) <= first + second
            }
        }),
{
    let total = first + second;
    let rounded = (span * first + total / 2) / total;
    assert(rounded * total <= span * first + total / 2 < rounded * total + total) by (nonlinear_arith)
        requires
            total > 0,
            span * first >= 0,
            rounded == (span * first + total / 2) / total,
    ;
}

/// Both children of a resized split fill its rectangle exactly, with the
/// divider between them, and each keeps its minimum size when `size` allows.
pub proof fn lemma_resized_split_tiles(
    direction: SplitDirection,
    size: TermSize,
    first: usize,
    second: usize,
    minimum_first: (nat, nat),
    minimum_second: (nat, nat),
)
    requires
        size.cols > 0,
        size.rows > 0,
        direction == SplitDirection::Horizontal ==> minimum_first.0 + minimum_second.0 + 1 <= size.cols,
        direction == SplitDirection::Vertical ==> minimum_first.1 + minimum_second.1 + 1 <= size.rows,
    ensures
        ({
            let split = resized_split(direction, size, first, second, minimum_first, minimum_second);
            &&& split.width_spec() == size.cols
            &&& split.height_spec() == size.rows
            &&& direction == SplitDirection::Horizontal ==> split.first.cols >= minimum_first.0
                && split.second.cols >= minimum_second.0
            &&& direction == SplitDirection::Vertical ==> split.first.rows >= minimum_first.1
                && split.second.rows >= minimum_second.1
        }),
{
}

/// Proportional resizing keeps the panes and their order.
pub proof fn lemma_applied_keeps_panes(reference: SplitResizeReference, tree: Tree, size: TermSize)
    ensures
        leaves(applied(reference, tree, size)) == leaves(tree),
        min_size(applied(reference, tree, size)) == min_size(tree),
        reference_matches(reference, tree) == reference_matches(reference, applied(reference, tree, size)),
    decreases tree,
{
    match (reference, tree) {
        (
            SplitResizeReference::Split { first, second, left: reference_left, right: reference_right, .. },
            Tree::Node { left, right, data: Some(data) },
        ) => {
            let resized = resized_split(data.direction, size, first, second, min_size(*left), min_size(*right));
            lemma_applied_keeps_panes(*reference_left, *left, resized.first);
            lemma_applied_keeps_panes(*reference_right, *right, resized.second);
        },
        _ => {},
    }
}

/// Resizing never drifts: the layout after a series of window sizes is the
/// layout a single resize to the last size produces.
pub proof fn lemma_resize_has_no_drift(reference: SplitResizeReference, tree: Tree, a: TermSize, b: TermSize)
    ensures
        applied(reference, applied(reference, tree, a), b) == applied(reference, tree, b),
    decreases tree,
{
    match (reference, tree) {
        (
            SplitResizeReference::Split { first, second, left: reference_left, right: reference_right, .. },
            Tree::Node { left, right, data: Some(data) },
        ) => {
            let ra = resized_split(data.direction, a, first, second, min_size(*left), min_size(*right));
            let rb = resized_split(data.direction, b, first, second, min_size(*left), min_size(*right));
            lemma_applied_keeps_panes(*reference_left, *left, ra.first);
            lemma_applied_keeps_panes(*reference_right, *right, ra.second);
            lemma_resize_has_no_drift(*reference_left, *left, ra.first, rb.first);
            lemma_resize_has_no_drift(*reference_right, *right, ra.second, rb.second);
        },
        _ => {},
    }
}

} // verus!
