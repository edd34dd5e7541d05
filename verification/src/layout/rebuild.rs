//! Split sizes taken back from the sizes the panes report, for a tab whose
//! panes were resized elsewhere.
use vstd::prelude::*;
use vstd::slice::slice_subrange;
use crate::layout::size::{SplitDirectionAndSize, TermSize};
use crate::layout::tab::TabLayout;
use crate::layout::tree::{count_leaves, leaves, Tree};

verus! {

/// The whole size of a split, in the cell size of its first part.
pub open spec fn whole_size(d: SplitDirectionAndSize) -> TermSize {
    TermSize {
        rows: d.height_spec() as usize,
        cols: d.width_spec() as usize,
        pixel_height: ((d.first.pixel_height / d.first.rows) * d.height_spec()) as usize,
        pixel_width: ((d.first.pixel_width / d.first.cols) * d.width_spec()) as usize,
        dpi: d.first.dpi,
    }
}

/// The tree with every split taking the sizes its parts report, the panes
/// (left to right) reporting `sizes`, and the size of the whole; a split
/// without sizes reports nothing and keeps its parts as they are.
pub open spec fn rebuilt(tree: Tree, sizes: Seq<TermSize>) -> (Tree, Option<TermSize>)
    decreases tree,
{
    match tree {
        Tree::Leaf(_) => (tree, Some(sizes[0])),
        Tree::Node { left, right, data: Some(d) } => {
            let nl = leaves(*left).len() as int;
            let (l2, a) = rebuilt(*left, sizes.subrange(0, nl));
            let (r2, b) = rebuilt(*right, sizes.subrange(nl, sizes.len() as int));
            let d1 = SplitDirectionAndSize {
                first: match a {
                    Some(x) => x,
                    None => d.first,
                },
                second: match b {
                    Some(y) => y,
                    None => d.second,
                },
                ..d
            };
            (Tree::Node { left: Box::new(l2), right: Box::new(r2), data: Some(d1) }, Some(whole_size(d1)))
        },
        _ => (tree, None),
    }
}

/// Every split's size can be computed: its first part has cells, and the
/// products stay within the machine's integers.
pub open spec fn rebuild_defined(tree: Tree, sizes: Seq<TermSize>) -> bool
    decreases tree,
{
    match tree {
        Tree::Node { left, right, data: Some(d) } => {
            let nl = leaves(*left).len() as int;
            let (l2, a) = rebuilt(*left, sizes.subrange(0, nl));
            let (r2, b) = rebuilt(*right, sizes.subrange(nl, sizes.len() as int));
            let d1 = SplitDirectionAndSize {
                first: match a {
                    Some(x) => x,
                    None => d.first,
                },
                second: match b {
                    Some(y) => y,
                    None => d.second,
                },
                ..d
            };
            &&& rebuild_defined(*left, sizes.subrange(0, nl))
            &&& rebuild_defined(*right, sizes.subrange(nl, sizes.len() as int))
            &&& d1.first.cols > 0 && d1.first.rows > 0
            &&& d1.width_spec() <= usize::MAX && d1.height_spec() <= usize::MAX
            &&& (d1.first.pixel_height / d1.first.rows) * d1.height_spec() <= usize::MAX
            &&& (d1.first.pixel_width / d1.first.cols) * d1.width_spec() <= usize::MAX
        },
        _ => true,
    }
}

fn rebuild_tree(tree: &mut Tree, sizes: &[TermSize]) -> (whole: Option<TermSize>)
    requires
        sizes@.len() == leaves(*old(tree)).len(),
        rebuild_defined(*old(tree), sizes@),
    ensures
        (*final(tree), whole) == rebuilt(*old(tree), sizes@),
    decreases *old(tree),
{
    match tree {
        Tree::Leaf(_) => Some(sizes[0]),
        Tree::Node { left, right, data: Some(d) } => {
            let total = sizes.len();
            assert(leaves(*old(tree)) =~= leaves(**left) + leaves(**right));
            let nl = count_leaves(left);
            let a = rebuild_tree(&mut **left, slice_subrange(sizes, 0, nl));
            let b = rebuild_tree(&mut **right, slice_subrange(sizes, nl, total));
            match a {
                Some(x) => {
                    d.first = x;
                },
                None => {},
            }
            match b {
                Some(y) => {
                    d.second = y;
                },
                None => {},
            }
            Some(d.size())
        },
        _ => None,
    }
}

impl TabLayout {
    /// Take the split sizes back from the sizes the panes report (left to
    /// right), for panes resized elsewhere; the tab takes the size of the
    /// whole and forgets the ratios proportional resizing kept. Nothing
    /// changes while a pane is zoomed.
    pub fn rebuild_splits_sizes_from_contained_panes(&mut self, sizes: &[TermSize])
        requires
            old(self).zoomed is None ==> {
                &&& sizes@.len() == leaves(old(self).tree).len()
                &&& rebuild_defined(old(self).tree, sizes@)
            },
        ensures
            *final(self) == if old(self).zoomed is Some {
                *old(self)
            } else {
                let (tree, whole) = rebuilt(old(self).tree, sizes@);
                TabLayout {
                    tree,
                    size: match whole {
                        Some(s) => s,
                        None => old(self).size,
                    },
                    resize_reference: None,
                    ..*old(self)
                }
            },
    {
        if self.zoomed.is_some() {
            return;
        }
        match rebuild_tree(&mut self.tree, sizes) {
            Some(size) => {
                self.size = size;
            },
            None => {},
        }
        self.resize_reference = None;
    }
}

} // verus!
