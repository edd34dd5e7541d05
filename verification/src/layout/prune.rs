//! Taking several panes out of a tab in one walk over its splits, as the
//! tab does for panes that died or whose domain went away.
//!
//! The walk goes through the tree in preorder. A pane to take out leaves
//! its split, and the other child takes the split's place, fitted to the
//! split's whole rectangle; the walk then goes on from that place: into the
//! children of a promoted split (again, when it had already been walked), or
//! past a promoted pane, which is then not looked at. Once a pane has gone,
//! every split the walk reaches is fitted to the part its parent gives it.
//! Each pane met counts one index; the active index moves down by the panes
//! taken out at an index up to it.
use vstd::prelude::*;
use crate::layout::adjust::height;
use crate::layout::size::{cell_dimensions, cell_of, SplitDirectionAndSize, TermSize};
use crate::layout::ptys::Tab;
use crate::layout::tab::{
    fit, fit_defined, fitted, lemma_position_of, lemma_position_of_append, node_size, node_size_defined, position_of,
    TabLayout,
};
use crate::layout::tree::{leaves, Tree};

verus! {

/// The state of a walk: the index of the next pane met, and the panes taken
/// out so far, each with the index it was met at.
pub type WalkState = (nat, Seq<(nat, usize)>);

/// A split fitted to `size`, as the walk fits the splits it reaches.
pub open spec fn fit_node(t: Tree, size: TermSize, proportional: bool) -> Tree {
    match t {
        Tree::Node { left, right, data: Some(nd) } => Tree::Node {
            left,
            right,
            data: Some(fitted(nd, size, *left, *right, proportional)),
        },
        _ => t,
    }
}

pub open spec fn fit_node_defined(t: Tree, size: TermSize, proportional: bool) -> bool {
    match t {
        Tree::Node { left, right, data: Some(nd) } => fit_defined(nd, size, *left, *right, proportional),
        _ => true,
    }
}

/// What the walk makes of the subtree `t` in a part of `size`: `None` when
/// `t` is a pane that goes, else the subtree that stays.
pub open spec fn visit(
    t: Tree,
    size: TermSize,
    st: WalkState,
    h: nat,
    doomed: Seq<usize>,
    root: TermSize,
    cell: TermSize,
    proportional: bool,
) -> (Option<Tree>, WalkState)
    decreases h, 1nat,
{
    match t {
        Tree::Leaf(p) => if doomed.contains(p) {
            (None, (st.0 + 1, st.1.push((st.0, p))))
        } else {
            (Some(t), (st.0 + 1, st.1))
        },
        Tree::Node { .. } => {
            let reached = if st.1.len() > 0 { fit_node(t, size, proportional) } else { t };
            match reached {
                Tree::Node { left, right, data } => {
                    let (out, after) = walk_node(*left, *right, data, st, h, doomed, root, cell, proportional);
                    (Some(out), after)
                },
                _ => (Some(t), st),
            }
        },
        Tree::Empty => (Some(t), st),
    }
}

/// The walk through the children of a split it has reached; `h` bounds the
/// depth of the walk.
pub open spec fn walk_node(
    left: Tree,
    right: Tree,
    data: Option<SplitDirectionAndSize>,
    st: WalkState,
    h: nat,
    doomed: Seq<usize>,
    root: TermSize,
    cell: TermSize,
    proportional: bool,
) -> (Tree, WalkState)
    decreases h, 0nat,
{
    if h == 0 {
        (Tree::Node { left: Box::new(left), right: Box::new(right), data }, st)
    } else {
        let first = match data {
            Some(d) => d.first,
            None => root,
        };
        let second = match data {
            Some(d) => d.second,
            None => root,
        };
        let (l_out, st1) = visit(left, first, st, (h - 1) as nat, doomed, root, cell, proportional);
        match l_out {
            None => promote_walk(right, data, st1, (h - 1) as nat, doomed, root, cell, proportional),
            Some(l2) => {
                let (r_out, st2) = visit(right, second, st1, (h - 1) as nat, doomed, root, cell, proportional);
                match r_out {
                    None => promote_walk(l2, data, st2, (h - 1) as nat, doomed, root, cell, proportional),
                    Some(r2) => (Tree::Node { left: Box::new(l2), right: Box::new(r2), data }, st2),
                }
            },
        }
    }
}

/// The other child of a split whose pane went takes the split's place: a
/// split is fitted to the whole rectangle and the walk goes into its
/// children; a pane or nothing ends the walk there.
pub open spec fn promote_walk(
    sibling: Tree,
    data: Option<SplitDirectionAndSize>,
    st: WalkState,
    h: nat,
    doomed: Seq<usize>,
    root: TermSize,
    cell: TermSize,
    proportional: bool,
) -> (Tree, WalkState)
    decreases h, 2nat,
{
    match (sibling, data) {
        (Tree::Node { .. }, Some(nd)) => match fit_node(sibling, node_size(nd, cell), proportional) {
            Tree::Node { left, right, data: d2 } => walk_node(
                *left,
                *right,
                d2,
                st,
                h,
                doomed,
                root,
                cell,
                proportional,
            ),
            other => (other, st),
        },
        _ => (sibling, st),
    }
}

/// The walk of `visit` stays within the machine's integers and its depth
/// bound, and every split whose pane goes has sizes.
pub open spec fn visit_defined(
    t: Tree,
    size: TermSize,
    st: WalkState,
    h: nat,
    doomed: Seq<usize>,
    root: TermSize,
    cell: TermSize,
    proportional: bool,
) -> bool
    decreases h, 1nat,
{
    match t {
        Tree::Node { .. } => {
            let reached = if st.1.len() > 0 { fit_node(t, size, proportional) } else { t };
            &&& st.1.len() > 0 ==> fit_node_defined(t, size, proportional)
            &&& match reached {
                Tree::Node { left, right, data } => walk_node_defined(
                    *left,
                    *right,
                    data,
                    st,
                    h,
                    doomed,
                    root,
                    cell,
                    proportional,
                ),
                _ => true,
            }
        },
        _ => true,
    }
}

pub open spec fn walk_node_defined(
    left: Tree,
    right: Tree,
    data: Option<SplitDirectionAndSize>,
    st: WalkState,
    h: nat,
    doomed: Seq<usize>,
    root: TermSize,
    cell: TermSize,
    proportional: bool,
) -> bool
    decreases h, 0nat,
{
    if h == 0 {
        false
    } else {
        let first = match data {
            Some(d) => d.first,
            None => root,
        };
        let second = match data {
            Some(d) => d.second,
            None => root,
        };
        let (l_out, st1) = visit(left, first, st, (h - 1) as nat, doomed, root, cell, proportional);
        &&& visit_defined(left, first, st, (h - 1) as nat, doomed, root, cell, proportional)
        &&& match l_out {
            None => promote_defined(right, data, st1, (h - 1) as nat, doomed, root, cell, proportional),
            Some(l2) => {
                let (r_out, st2) = visit(right, second, st1, (h - 1) as nat, doomed, root, cell, proportional);
                &&& visit_defined(right, second, st1, (h - 1) as nat, doomed, root, cell, proportional)
                &&& match r_out {
                    None => promote_defined(l2, data, st2, (h - 1) as nat, doomed, root, cell, proportional),
                    Some(_) => true,
                }
            },
        }
    }
}

pub open spec fn promote_defined(
    sibling: Tree,
    data: Option<SplitDirectionAndSize>,
    st: WalkState,
    h: nat,
    doomed: Seq<usize>,
    root: TermSize,
    cell: TermSize,
    proportional: bool,
) -> bool
    decreases h, 2nat,
{
    match data {
        None => false,
        Some(nd) => {
            &&& node_size_defined(nd, cell)
            &&& sibling is Node ==> {
                &&& fit_node_defined(sibling, node_size(nd, cell), proportional)
                &&& match fit_node(sibling, node_size(nd, cell), proportional) {
                    Tree::Node { left, right, data: d2 } => walk_node_defined(
                        *left,
                        *right,
                        d2,
                        st,
                        h,
                        doomed,
                        root,
                        cell,
                        proportional,
                    ),
                    _ => true,
                }
            }
        },
    }
}

/// The whole walk over the tab: the tree that stays and the final state.
pub open spec fn pruning(layout: TabLayout, doomed: Seq<usize>) -> (Tree, WalkState) {
    let start: WalkState = (0, Seq::empty());
    match layout.tree {
        Tree::Leaf(p) => if doomed.contains(p) {
            (Tree::Empty, (0, seq![(0nat, p)]))
        } else {
            (layout.tree, (1, Seq::empty()))
        },
        Tree::Node { left, right, data } => walk_node(
            *left,
            *right,
            data,
            start,
            height(layout.tree),
            doomed,
            layout.size,
            cell_of(layout.size),
            layout.proportional,
        ),
        Tree::Empty => (Tree::Empty, start),
    }
}

pub open spec fn pruning_defined(layout: TabLayout, doomed: Seq<usize>) -> bool {
    &&& layout.size.cols > 0 && layout.size.rows > 0
    &&& height(layout.tree) <= usize::MAX
    &&& layout.tree matches Tree::Node { left, right, data } ==> walk_node_defined(
        *left,
        *right,
        data,
        (0, Seq::empty()),
        height(layout.tree),
        doomed,
        layout.size,
        cell_of(layout.size),
        layout.proportional,
    )
}

/// How many of `removed` were met at an index up to `active`.
pub open spec fn met_up_to(removed: Seq<(nat, usize)>, active: nat) -> nat
    decreases removed.len(),
{
    if removed.len() == 0 {
        0
    } else {
        met_up_to(removed.drop_last(), active) + if removed.last().0 <= active { 1nat } else { 0nat }
    }
}

/// The panes of `removed`, in the order they went.
pub open spec fn panes_of(removed: Seq<(nat, usize)>) -> Seq<usize> {
    removed.map_values(|e: (nat, usize)| e.1)
}

/// The tab after taking out the panes of `doomed`.
pub open spec fn pruned_layout(layout: TabLayout, doomed: Seq<usize>) -> TabLayout {
    let (tree, st) = pruning(layout, doomed);
    let gone = panes_of(st.1);
    let k = met_up_to(st.1, layout.active as nat);
    TabLayout {
        tree,
        active: if k <= layout.active { (layout.active - k) as usize } else { 0 },
        zoomed: match layout.zoomed {
            Some(z) => if gone.contains(z) { None } else { Some(z) },
            None => None,
        },
        resize_reference: if st.1.len() > 0 { None } else { layout.resize_reference },
        ..layout
    }
}


/// `later` is `earlier` with more entries after it, each of a pane of
/// `doomed`.
pub open spec fn grows(earlier: Seq<(nat, usize)>, later: Seq<(nat, usize)>, doomed: Seq<usize>) -> bool {
    &&& earlier.len() <= later.len()
    &&& later.subrange(0, earlier.len() as int) == earlier
    &&& forall|k: int| earlier.len() <= k < later.len() ==> doomed.contains(#[trigger] later[k].1)
}

proof fn lemma_grows_trans(
    a: Seq<(nat, usize)>,
    b: Seq<(nat, usize)>,
    c: Seq<(nat, usize)>,
    doomed: Seq<usize>,
)
    requires
        grows(a, b, doomed),
        grows(b, c, doomed),
    ensures
        grows(a, c, doomed),
{
    assert(c.subrange(0, a.len() as int) =~= c.subrange(0, b.len() as int).subrange(0, a.len() as int));
    assert forall|k: int| a.len() <= k < c.len() implies doomed.contains(#[trigger] c[k].1) by {
        if k < b.len() {
            assert(c[k] == c.subrange(0, b.len() as int)[k]);
            assert(doomed.contains(b[k].1));
        }
    }
}

proof fn lemma_visit_grows(
    t: Tree,
    size: TermSize,
    st: WalkState,
    h: nat,
    doomed: Seq<usize>,
    root: TermSize,
    cell: TermSize,
    proportional: bool,
)
    ensures
        grows(st.1, visit(t, size, st, h, doomed, root, cell, proportional).1.1, doomed),
    decreases h, 1nat,
{
    match t {
        Tree::Leaf(p) => {
            assert(st.1.push((st.0, p)).subrange(0, st.1.len() as int) =~= st.1);
            assert(st.1.subrange(0, st.1.len() as int) =~= st.1);
        },
        Tree::Node { .. } => {
            let reached = if st.1.len() > 0 { fit_node(t, size, proportional) } else { t };
            match reached {
                Tree::Node { left, right, data } => {
                    lemma_walk_grows(*left, *right, data, st, h, doomed, root, cell, proportional);
                },
                _ => {
                    assert(st.1.subrange(0, st.1.len() as int) =~= st.1);
                },
            }
        },
        Tree::Empty => {
            assert(st.1.subrange(0, st.1.len() as int) =~= st.1);
        },
    }
}

proof fn lemma_walk_grows(
    left: Tree,
    right: Tree,
    data: Option<SplitDirectionAndSize>,
    st: WalkState,
    h: nat,
    doomed: Seq<usize>,
    root: TermSize,
    cell: TermSize,
    proportional: bool,
)
    ensures
        grows(st.1, walk_node(left, right, data, st, h, doomed, root, cell, proportional).1.1, doomed),
    decreases h, 0nat,
{
    if h == 0 {
        assert(st.1.subrange(0, st.1.len() as int) =~= st.1);
    } else {
        let first = match data {
            Some(d) => d.first,
            None => root,
        };
        let second = match data {
            Some(d) => d.second,
            None => root,
        };
        let (l_out, st1) = visit(left, first, st, (h - 1) as nat, doomed, root, cell, proportional);
        lemma_visit_grows(left, first, st, (h - 1) as nat, doomed, root, cell, proportional);
        match l_out {
            None => {
                lemma_promote_grows(right, data, st1, (h - 1) as nat, doomed, root, cell, proportional);
                let fin = promote_walk(right, data, st1, (h - 1) as nat, doomed, root, cell, proportional).1;
                lemma_grows_trans(st.1, st1.1, fin.1, doomed);
            },
            Some(l2) => {
                let (r_out, st2) = visit(right, second, st1, (h - 1) as nat, doomed, root, cell, proportional);
                lemma_visit_grows(right, second, st1, (h - 1) as nat, doomed, root, cell, proportional);
                lemma_grows_trans(st.1, st1.1, st2.1, doomed);
                match r_out {
                    None => {
                        lemma_promote_grows(l2, data, st2, (h - 1) as nat, doomed, root, cell, proportional);
                        let fin = promote_walk(l2, data, st2, (h - 1) as nat, doomed, root, cell, proportional).1;
                        lemma_grows_trans(st.1, st2.1, fin.1, doomed);
                    },
                    Some(_) => {},
                }
            },
        }
    }
}

proof fn lemma_promote_grows(
    sibling: Tree,
    data: Option<SplitDirectionAndSize>,
    st: WalkState,
    h: nat,
    doomed: Seq<usize>,
    root: TermSize,
    cell: TermSize,
    proportional: bool,
)
    ensures
        grows(st.1, promote_walk(sibling, data, st, h, doomed, root, cell, proportional).1.1, doomed),
    decreases h, 2nat,
{
    assert(st.1.subrange(0, st.1.len() as int) =~= st.1);
    match (sibling, data) {
        (Tree::Node { .. }, Some(nd)) => match fit_node(sibling, node_size(nd, cell), proportional) {
            Tree::Node { left, right, data: d2 } => {
                lemma_walk_grows(*left, *right, d2, st, h, doomed, root, cell, proportional);
            },
            _ => {},
        },
        _ => {},
    }
}


/// No pane of `t` is one of `doomed`.
pub open spec fn none_doomed(t: Tree, doomed: Seq<usize>) -> bool {
    forall|k: int| 0 <= k < leaves(t).len() ==> !doomed.contains(#[trigger] leaves(t)[k])
}

proof fn lemma_none_doomed_parts(left: Tree, right: Tree, data: Option<SplitDirectionAndSize>, doomed: Seq<usize>)
    requires
        none_doomed(Tree::Node { left: Box::new(left), right: Box::new(right), data }, doomed),
    ensures
        none_doomed(left, doomed),
        none_doomed(right, doomed),
{
    let t = Tree::Node { left: Box::new(left), right: Box::new(right), data };
    assert(leaves(t) == leaves(left) + leaves(right));
    assert forall|k: int| 0 <= k < leaves(left).len() implies !doomed.contains(#[trigger] leaves(left)[k]) by {
        assert(leaves(t)[k] == leaves(left)[k]);
    }
    assert forall|k: int| 0 <= k < leaves(right).len() implies !doomed.contains(#[trigger] leaves(right)[k]) by {
        assert(leaves(t)[leaves(left).len() + k] == leaves(right)[k]);
    }
}

/// A walk over panes none of which is to go keeps them all; before any pane
/// went, and within its depth bound, it changes nothing but the index.
proof fn lemma_visit_spares(
    t: Tree,
    size: TermSize,
    st: WalkState,
    h: nat,
    doomed: Seq<usize>,
    root: TermSize,
    cell: TermSize,
    proportional: bool,
)
    requires
        none_doomed(t, doomed),
    ensures
        ({
            let (out, st2) = visit(t, size, st, h, doomed, root, cell, proportional);
            &&& out matches Some(t2) && leaves(t2) == leaves(t)
            &&& st2.1 == st.1
            &&& st.1.len() == 0 && height(t) <= h ==> out == Some(t) && st2.0 == st.0 + leaves(t).len()
        }),
    decreases h, 1nat,
{
    match t {
        Tree::Leaf(p) => {
            assert(leaves(t)[0] == p);
        },
        Tree::Node { left, right, data } => {
            let reached = if st.1.len() > 0 { fit_node(t, size, proportional) } else { t };
            lemma_none_doomed_parts(*left, *right, data, doomed);
            match reached {
                Tree::Node { left: l, right: r, data: d } => {
                    assert(leaves(*l) == leaves(*left) && leaves(*r) == leaves(*right));
                    lemma_walk_spares(*l, *r, d, st, h, doomed, root, cell, proportional);
                },
                _ => {},
            }
        },
        Tree::Empty => {},
    }
}

proof fn lemma_walk_spares(
    left: Tree,
    right: Tree,
    data: Option<SplitDirectionAndSize>,
    st: WalkState,
    h: nat,
    doomed: Seq<usize>,
    root: TermSize,
    cell: TermSize,
    proportional: bool,
)
    requires
        none_doomed(left, doomed),
        none_doomed(right, doomed),
    ensures
        ({
            let (out, st2) = walk_node(left, right, data, st, h, doomed, root, cell, proportional);
            &&& leaves(out) == leaves(left) + leaves(right)
            &&& st2.1 == st.1
            &&& st.1.len() == 0 && height(left) < h && height(right) < h ==> {
                &&& out == Tree::Node { left: Box::new(left), right: Box::new(right), data }
                &&& st2.0 == st.0 + leaves(left).len() + leaves(right).len()
            }
        }),
    decreases h, 0nat,
{
    if h > 0 {
        let first = match data {
            Some(d) => d.first,
            None => root,
        };
        let second = match data {
            Some(d) => d.second,
            None => root,
        };
        let (l_out, st1) = visit(left, first, st, (h - 1) as nat, doomed, root, cell, proportional);
        lemma_visit_spares(left, first, st, (h - 1) as nat, doomed, root, cell, proportional);
        let l2 = l_out.unwrap();
        let (r_out, st2) = visit(right, second, st1, (h - 1) as nat, doomed, root, cell, proportional);
        lemma_visit_spares(right, second, st1, (h - 1) as nat, doomed, root, cell, proportional);
    }
}

proof fn lemma_promote_spares(
    sibling: Tree,
    data: Option<SplitDirectionAndSize>,
    st: WalkState,
    h: nat,
    doomed: Seq<usize>,
    root: TermSize,
    cell: TermSize,
    proportional: bool,
)
    requires
        none_doomed(sibling, doomed),
    ensures
        ({
            let (out, st2) = promote_walk(sibling, data, st, h, doomed, root, cell, proportional);
            &&& leaves(out) == leaves(sibling)
            &&& st2.1 == st.1
        }),
    decreases h, 2nat,
{
    match (sibling, data) {
        (Tree::Node { left, right, data: d0 }, Some(nd)) => match fit_node(sibling, node_size(nd, cell), proportional) {
            Tree::Node { left: l, right: r, data: d2 } => {
                assert(leaves(*l) == leaves(*left) && leaves(*r) == leaves(*right));
                lemma_none_doomed_parts(*left, *right, d0, doomed);
                lemma_walk_spares(*l, *r, d2, st, h, doomed, root, cell, proportional);
            },
            _ => {},
        },
        _ => {},
    }
}


proof fn lemma_none_doomed_join(left: Tree, right: Tree, data: Option<SplitDirectionAndSize>, doomed: Seq<usize>)
    requires
        none_doomed(left, doomed),
        none_doomed(right, doomed),
    ensures
        none_doomed(Tree::Node { left: Box::new(left), right: Box::new(right), data }, doomed),
{
    let t = Tree::Node { left: Box::new(left), right: Box::new(right), data };
    assert forall|k: int| 0 <= k < leaves(t).len() implies !doomed.contains(#[trigger] leaves(t)[k]) by {
        if k < leaves(left).len() {
            assert(leaves(t)[k] == leaves(left)[k]);
        } else {
            assert(leaves(t)[k] == leaves(right)[k - leaves(left).len()]);
        }
    }
}

proof fn lemma_in_parts(a: Seq<usize>, b: Seq<usize>, x: usize)
    requires
        (a + b).contains(x),
    ensures
        a.contains(x) || b.contains(x),
{
    let k = choose|k: int| 0 <= k < (a + b).len() && (a + b)[k] == x;
    if k < a.len() {
        assert(a[k] == x);
    } else {
        assert(b[k - a.len()] == x);
    }
}

/// A pane that is not to go stays wherever the walk takes its subtree.
proof fn lemma_visit_keeps(
    t: Tree,
    size: TermSize,
    st: WalkState,
    h: nat,
    doomed: Seq<usize>,
    root: TermSize,
    cell: TermSize,
    proportional: bool,
    x: usize,
)
    requires
        leaves(t).contains(x),
        !doomed.contains(x),
    ensures
        visit(t, size, st, h, doomed, root, cell, proportional).0 matches Some(t2) && leaves(t2).contains(x),
    decreases h, 1nat,
{
    match t {
        Tree::Leaf(p) => {
            assert(leaves(t)[0] == p);
        },
        Tree::Node { left, right, data } => {
            let reached = if st.1.len() > 0 { fit_node(t, size, proportional) } else { t };
            match reached {
                Tree::Node { left: l, right: r, data: d } => {
                    assert(leaves(*l) + leaves(*r) == leaves(t));
                    lemma_walk_keeps(*l, *r, d, st, h, doomed, root, cell, proportional, x);
                },
                _ => {},
            }
        },
        Tree::Empty => {},
    }
}

proof fn lemma_walk_keeps(
    left: Tree,
    right: Tree,
    data: Option<SplitDirectionAndSize>,
    st: WalkState,
    h: nat,
    doomed: Seq<usize>,
    root: TermSize,
    cell: TermSize,
    proportional: bool,
    x: usize,
)
    requires
        (leaves(left) + leaves(right)).contains(x),
        !doomed.contains(x),
    ensures
        leaves(walk_node(left, right, data, st, h, doomed, root, cell, proportional).0).contains(x),
    decreases h, 0nat,
{
    if h > 0 {
        let first = match data {
            Some(d) => d.first,
            None => root,
        };
        let second = match data {
            Some(d) => d.second,
            None => root,
        };
        lemma_in_parts(leaves(left), leaves(right), x);
        let (l_out, st1) = visit(left, first, st, (h - 1) as nat, doomed, root, cell, proportional);
        if leaves(left).contains(x) {
            lemma_visit_keeps(left, first, st, (h - 1) as nat, doomed, root, cell, proportional, x);
            let l2 = l_out.unwrap();
            let (r_out, st2) = visit(right, second, st1, (h - 1) as nat, doomed, root, cell, proportional);
            match r_out {
                None => {
                    lemma_promote_keeps(l2, data, st2, (h - 1) as nat, doomed, root, cell, proportional, x);
                },
                Some(r2) => {
                    let k = choose|k: int| 0 <= k < leaves(l2).len() && leaves(l2)[k] == x;
                    assert((leaves(l2) + leaves(r2))[k] == x);
                },
            }
        } else {
            match l_out {
                None => {
                    lemma_promote_keeps(right, data, st1, (h - 1) as nat, doomed, root, cell, proportional, x);
                },
                Some(l2) => {
                    lemma_visit_keeps(right, second, st1, (h - 1) as nat, doomed, root, cell, proportional, x);
                    let (r_out, st2) = visit(right, second, st1, (h - 1) as nat, doomed, root, cell, proportional);
                    let r2 = r_out.unwrap();
                    let k = choose|k: int| 0 <= k < leaves(r2).len() && leaves(r2)[k] == x;
                    assert((leaves(l2) + leaves(r2))[leaves(l2).len() + k] == x);
                },
            }
        }
    }
}

proof fn lemma_promote_keeps(
    sibling: Tree,
    data: Option<SplitDirectionAndSize>,
    st: WalkState,
    h: nat,
    doomed: Seq<usize>,
    root: TermSize,
    cell: TermSize,
    proportional: bool,
    x: usize,
)
    requires
        leaves(sibling).contains(x),
        !doomed.contains(x),
    ensures
        leaves(promote_walk(sibling, data, st, h, doomed, root, cell, proportional).0).contains(x),
    decreases h, 2nat,
{
    match (sibling, data) {
        (Tree::Node { .. }, Some(nd)) => match fit_node(sibling, node_size(nd, cell), proportional) {
            Tree::Node { left: l, right: r, data: d2 } => {
                assert(leaves(*l) + leaves(*r) == leaves(sibling));
                lemma_walk_keeps(*l, *r, d2, st, h, doomed, root, cell, proportional, x);
            },
            _ => {},
        },
        _ => {},
    }
}

/// Before any pane went, a walk over a subtree that holds a pane to go,
/// within its depth bound, takes at least one out.
proof fn lemma_visit_finds(
    t: Tree,
    size: TermSize,
    st: WalkState,
    h: nat,
    doomed: Seq<usize>,
    root: TermSize,
    cell: TermSize,
    proportional: bool,
)
    requires
        st.1.len() == 0,
        !none_doomed(t, doomed),
        height(t) <= h,
    ensures
        visit(t, size, st, h, doomed, root, cell, proportional).1.1.len() > 0,
    decreases h, 1nat,
{
    match t {
        Tree::Leaf(p) => {
            assert(leaves(t) == seq![p]);
        },
        Tree::Node { left, right, data } => {
            if none_doomed(*left, doomed) && none_doomed(*right, doomed) {
                lemma_none_doomed_join(*left, *right, data, doomed);
            }
            lemma_walk_finds(*left, *right, data, st, h, doomed, root, cell, proportional);
        },
        Tree::Empty => {},
    }
}

proof fn lemma_walk_finds(
    left: Tree,
    right: Tree,
    data: Option<SplitDirectionAndSize>,
    st: WalkState,
    h: nat,
    doomed: Seq<usize>,
    root: TermSize,
    cell: TermSize,
    proportional: bool,
)
    requires
        st.1.len() == 0,
        !none_doomed(left, doomed) || !none_doomed(right, doomed),
        height(left) < h,
        height(right) < h,
    ensures
        walk_node(left, right, data, st, h, doomed, root, cell, proportional).1.1.len() > 0,
    decreases h, 0nat,
{
    let first = match data {
        Some(d) => d.first,
        None => root,
    };
    let second = match data {
        Some(d) => d.second,
        None => root,
    };
    let (l_out, st1) = visit(left, first, st, (h - 1) as nat, doomed, root, cell, proportional);
    if !none_doomed(left, doomed) {
        lemma_visit_finds(left, first, st, (h - 1) as nat, doomed, root, cell, proportional);
    } else {
        lemma_visit_spares(left, first, st, (h - 1) as nat, doomed, root, cell, proportional);
    }
    match l_out {
        None => {
            lemma_promote_grows(right, data, st1, (h - 1) as nat, doomed, root, cell, proportional);
        },
        Some(l2) => {
            let (r_out, st2) = visit(right, second, st1, (h - 1) as nat, doomed, root, cell, proportional);
            if !none_doomed(left, doomed) {
                lemma_visit_grows(right, second, st1, (h - 1) as nat, doomed, root, cell, proportional);
            } else {
                lemma_visit_finds(right, second, st1, (h - 1) as nat, doomed, root, cell, proportional);
            }
            match r_out {
                None => {
                    lemma_promote_grows(l2, data, st2, (h - 1) as nat, doomed, root, cell, proportional);
                },
                Some(_) => {},
            }
        },
    }
}

/// `id` occurs exactly once in `s`.
pub open spec fn once(s: Seq<usize>, id: usize) -> bool {
    &&& s.contains(id)
    &&& forall|i: int, j: int| 0 <= i < s.len() && 0 <= j < s.len() && s[i] == id && s[j] == id ==> i == j
}

/// The panes a walk leaves of a subtree: none when the subtree went.
pub open spec fn out_leaves(out: Option<Tree>) -> Seq<usize> {
    match out {
        Some(t) => leaves(t),
        None => Seq::empty(),
    }
}

proof fn lemma_once_parts(a: Seq<usize>, b: Seq<usize>, id: usize)
    requires
        once(a + b, id),
    ensures
        a.contains(id) ==> once(a, id) && !b.contains(id),
        !a.contains(id) ==> once(b, id),
{
    let s = a + b;
    if a.contains(id) {
        let i = choose|i: int| 0 <= i < a.len() && a[i] == id;
        assert(s[i] == id);
        assert forall|p: int, q: int| 0 <= p < a.len() && 0 <= q < a.len() && a[p] == id && a[q] == id implies p == q by {
            assert(s[p] == id && s[q] == id);
        }
        if b.contains(id) {
            let j = choose|j: int| 0 <= j < b.len() && b[j] == id;
            assert(s[a.len() + j] == id);
        }
    } else {
        lemma_in_parts(a, b, id);
        assert forall|p: int, q: int| 0 <= p < b.len() && 0 <= q < b.len() && b[p] == id && b[q] == id implies p == q by {
            assert(s[a.len() + p] == id && s[a.len() + q] == id);
        }
    }
}

pub(crate) proof fn lemma_only_not_elsewhere(t: Tree, id: usize)
    requires
        !leaves(t).contains(id),
    ensures
        none_doomed(t, seq![id]),
{
    assert forall|k: int| 0 <= k < leaves(t).len() implies !seq![id].contains(#[trigger] leaves(t)[k]) by {
        if seq![id].contains(leaves(t)[k]) {
            assert(seq![id][0] == id);
        }
    }
}

/// Before any pane went, taking out the one pane `id` that occurs once in
/// a subtree takes out exactly it, met at its place.
proof fn lemma_visit_single(
    t: Tree,
    size: TermSize,
    st: WalkState,
    h: nat,
    id: usize,
    root: TermSize,
    cell: TermSize,
    proportional: bool,
)
    requires
        st.1.len() == 0,
        once(leaves(t), id),
        height(t) <= h,
    ensures
        ({
            let (out, st2) = visit(t, size, st, h, seq![id], root, cell, proportional);
            let at = position_of(leaves(t), id);
            &&& st2.1 == seq![((st.0 + at) as nat, id)]
            &&& out_leaves(out) == leaves(t).remove(at)
        }),
    decreases h, 1nat,
{
    lemma_position_of(leaves(t), id);
    match t {
        Tree::Leaf(p) => {
            assert(leaves(t)[0] == p);
            assert(seq![id].contains(p)) by {
                assert(seq![id][0] == id);
            }
            assert(leaves(t).remove(0) =~= Seq::<usize>::empty());
            assert(st.1.push((st.0, p)) =~= seq![((st.0 + 0) as nat, id)]);
        },
        Tree::Node { left, right, data } => {
            lemma_walk_single(*left, *right, data, st, h, id, root, cell, proportional);
        },
        Tree::Empty => {},
    }
}

proof fn lemma_walk_single(
    left: Tree,
    right: Tree,
    data: Option<SplitDirectionAndSize>,
    st: WalkState,
    h: nat,
    id: usize,
    root: TermSize,
    cell: TermSize,
    proportional: bool,
)
    requires
        st.1.len() == 0,
        once(leaves(left) + leaves(right), id),
        height(left) < h,
        height(right) < h,
    ensures
        ({
            let (out, st2) = walk_node(left, right, data, st, h, seq![id], root, cell, proportional);
            let s = leaves(left) + leaves(right);
            let at = position_of(s, id);
            &&& st2.1 == seq![((st.0 + at) as nat, id)]
            &&& leaves(out) == s.remove(at)
        }),
    decreases h, 0nat,
{
    let doomed = seq![id];
    let first = match data {
        Some(d) => d.first,
        None => root,
    };
    let second = match data {
        Some(d) => d.second,
        None => root,
    };
    let a = leaves(left);
    let b = leaves(right);
    lemma_once_parts(a, b, id);
    lemma_position_of_append(a, b, id);
    lemma_position_of(a, id);
    lemma_position_of(b, id);
    let (l_out, st1) = visit(left, first, st, (h - 1) as nat, doomed, root, cell, proportional);
    if a.contains(id) {
        lemma_visit_single(left, first, st, (h - 1) as nat, id, root, cell, proportional);
        lemma_only_not_elsewhere(right, id);
        let pa = position_of(a, id);
        match l_out {
            None => {
                lemma_promote_spares(right, data, st1, (h - 1) as nat, doomed, root, cell, proportional);
                assert(a.remove(pa).len() == 0);
                assert((a + b).remove(pa) =~= b);
            },
            Some(l2) => {
                lemma_visit_spares(right, second, st1, (h - 1) as nat, doomed, root, cell, proportional);
                assert((a + b).remove(pa) =~= a.remove(pa) + b);
            },
        }
    } else {
        lemma_only_not_elsewhere(left, id);
        lemma_visit_spares(left, first, st, (h - 1) as nat, doomed, root, cell, proportional);
        lemma_visit_single(right, second, st1, (h - 1) as nat, id, root, cell, proportional);
        let pb = position_of(b, id);
        let (r_out, st2) = visit(right, second, st1, (h - 1) as nat, doomed, root, cell, proportional);
        match r_out {
            None => {
                lemma_promote_spares(left, data, st2, (h - 1) as nat, doomed, root, cell, proportional);
                assert(b.remove(pb).len() == 0);
                assert((a + b).remove(a.len() + pb) =~= a);
            },
            Some(r2) => {
                assert((a + b).remove(a.len() + pb) =~= a + b.remove(pb));
            },
        }
    }
}


/// Every pane a walk takes out is one of those to go.
pub proof fn lemma_pruning_takes_only_doomed(layout: TabLayout, doomed: Seq<usize>)
    ensures
        forall|k: int|
            0 <= k < panes_of(pruning(layout, doomed).1.1).len() ==> doomed.contains(
                #[trigger] panes_of(pruning(layout, doomed).1.1)[k],
            ),
{
    let start: WalkState = (0, Seq::empty());
    let removed = pruning(layout, doomed).1.1;
    match layout.tree {
        Tree::Leaf(p) => {
            if doomed.contains(p) {
                assert(panes_of(removed) =~= seq![p]);
            } else {
                assert(panes_of(removed) =~= Seq::<usize>::empty());
            }
        },
        Tree::Node { left, right, data } => {
            lemma_walk_grows(
                *left,
                *right,
                data,
                start,
                height(layout.tree),
                doomed,
                layout.size,
                cell_of(layout.size),
                layout.proportional,
            );
            assert forall|k: int| 0 <= k < panes_of(removed).len() implies doomed.contains(
                #[trigger] panes_of(removed)[k],
            ) by {
                assert(panes_of(removed)[k] == removed[k].1);
            }
        },
        Tree::Empty => {
            assert(panes_of(removed) =~= Seq::<usize>::empty());
        },
    }
}

/// Every pane that is not to go stays in the tab.
pub proof fn lemma_pruning_keeps_others(layout: TabLayout, doomed: Seq<usize>, x: usize)
    requires
        layout.panes().contains(x),
        !doomed.contains(x),
    ensures
        pruned_layout(layout, doomed).panes().contains(x),
{
    match layout.tree {
        Tree::Leaf(p) => {
            assert(leaves(layout.tree)[0] == p);
        },
        Tree::Node { left, right, data } => {
            lemma_walk_keeps(
                *left,
                *right,
                data,
                (0, Seq::empty()),
                height(layout.tree),
                doomed,
                layout.size,
                cell_of(layout.size),
                layout.proportional,
                x,
            );
        },
        Tree::Empty => {},
    }
}

/// A tab that holds a pane to go loses at least one pane; a tab that holds
/// none stays exactly as it is.
pub proof fn lemma_pruning_finds(layout: TabLayout, doomed: Seq<usize>)
    ensures
        !none_doomed(layout.tree, doomed) ==> pruning(layout, doomed).1.1.len() > 0,
        none_doomed(layout.tree, doomed) ==> pruned_layout(layout, doomed) == layout
            && pruning(layout, doomed).1.1.len() == 0,
{
    let start: WalkState = (0, Seq::empty());
    match layout.tree {
        Tree::Leaf(p) => {
            assert(leaves(layout.tree)[0] == p);
            assert(panes_of(Seq::<(nat, usize)>::empty()) =~= Seq::<usize>::empty());
        },
        Tree::Node { left, right, data } => {
            let args = (height(layout.tree), cell_of(layout.size));
            if !none_doomed(layout.tree, doomed) {
                if none_doomed(*left, doomed) && none_doomed(*right, doomed) {
                    lemma_none_doomed_join(*left, *right, data, doomed);
                }
                lemma_walk_finds(*left, *right, data, start, args.0, doomed, layout.size, args.1, layout.proportional);
            } else {
                lemma_none_doomed_parts(*left, *right, data, doomed);
                lemma_walk_spares(*left, *right, data, start, args.0, doomed, layout.size, args.1, layout.proportional);
                assert(panes_of(Seq::<(nat, usize)>::empty()) =~= Seq::<usize>::empty());
            }
        },
        Tree::Empty => {
            assert(panes_of(Seq::<(nat, usize)>::empty()) =~= Seq::<usize>::empty());
        },
    }
}

/// Taking out a pane that occurs once takes out exactly that pane, from its
/// place among the panes; the active index moves down when the pane was at
/// or before it, and a zoom on it ends.
pub proof fn lemma_pruning_single(layout: TabLayout, id: usize)
    requires
        once(layout.panes(), id),
    ensures
        ({
            let at = position_of(layout.panes(), id);
            let after = pruned_layout(layout, seq![id]);
            &&& panes_of(pruning(layout, seq![id]).1.1) == seq![id]
            &&& after.panes() == layout.panes().remove(at)
            &&& after.active == if at <= layout.active && layout.active > 0 {
                (layout.active - 1) as usize
            } else if at <= layout.active {
                0
            } else {
                layout.active
            }
            &&& after.zoomed == if layout.zoomed == Some(id) { None } else { layout.zoomed }
            &&& after.resize_reference is None
        }),
{
    let start: WalkState = (0, Seq::empty());
    let at = position_of(layout.panes(), id);
    lemma_position_of(layout.panes(), id);
    let removed = pruning(layout, seq![id]).1.1;
    match layout.tree {
        Tree::Leaf(p) => {
            assert(leaves(layout.tree)[0] == p);
            assert(seq![id].contains(p)) by {
                assert(seq![id][0] == id);
            }
            assert(layout.panes().remove(0) =~= Seq::<usize>::empty());
            assert(removed =~= seq![(0nat, id)]);
        },
        Tree::Node { left, right, data } => {
            lemma_walk_single(
                *left,
                *right,
                data,
                start,
                height(layout.tree),
                id,
                layout.size,
                cell_of(layout.size),
                layout.proportional,
            );
            assert(removed =~= seq![(at as nat, id)]);
        },
        Tree::Empty => {},
    }
    assert(panes_of(removed) =~= seq![id]);
    assert(removed.drop_last() =~= Seq::<(nat, usize)>::empty());
    assert(removed =~= seq![(at as nat, id)]);
    assert(removed.last() == (at as nat, id));
    assert(met_up_to(Seq::<(nat, usize)>::empty(), layout.active as nat) == 0);
    assert(met_up_to(removed, layout.active as nat) == if at <= layout.active { 1nat } else { 0nat });
    assert(pruned_layout(layout, seq![id]).panes() == layout.panes().remove(at));
    assert(seq![id].contains(id)) by {
        assert(seq![id][0] == id);
    }
    match layout.zoomed {
        Some(z) => {
            if z != id {
                assert(!seq![id].contains(z)) by {
                    if seq![id].contains(z) {
                        let k = choose|k: int| 0 <= k < seq![id].len() && seq![id][k] == z;
                    }
                }
            }
        },
        None => {},
    }
}

/// Where a walk stands, as the machine keeps it: the index of the next pane
/// while it is still at most `active` (`passed` once it is beyond), the
/// panes taken out, and how many of them were met at an index up to
/// `active`.
struct Progress {
    at: usize,
    passed: bool,
    dead: Vec<usize>,
    before: usize,
}

spec fn tracks(p: Progress, st: WalkState, active: usize) -> bool {
    &&& p.dead@ == panes_of(st.1)
    &&& p.passed == (st.0 > active)
    &&& !p.passed ==> p.at == st.0
    &&& p.before == met_up_to(st.1, active as nat)
    &&& p.before <= p.dead@.len()
}

fn contains_id(ids: &[usize], id: usize) -> (found: bool)
    ensures
        found == ids@.contains(id),
{
    let mut k: usize = 0;
    while k < ids.len()
        invariant
            k <= ids@.len(),
            forall|j: int| 0 <= j < k ==> ids@[j] != id,
        decreases ids.len() - k,
    {
        if ids[k] == id {
            assert(ids@[k as int] == id);
            return true;
        }
        k = k + 1;
    }
    false
}

/// One more pane met.
fn count_pane(p: &mut Progress, active: usize, Ghost(st): Ghost<WalkState>)
    requires
        tracks(*old(p), st, active),
    ensures
        tracks(*final(p), (st.0 + 1, st.1), active),
{
    if !p.passed {
        if p.at == active {
            p.passed = true;
        } else {
            p.at = p.at + 1;
        }
    }
}

/// Pane `id` goes, met at the current index.
fn record(p: &mut Progress, id: usize, active: usize, Ghost(st): Ghost<WalkState>)
    requires
        tracks(*old(p), st, active),
    ensures
        tracks(*final(p), (st.0, st.1.push((st.0, id))), active),
{
    let ghost next = st.1.push((st.0, id));
    assert(next.drop_last() =~= st.1);
    assert(panes_of(next) =~= panes_of(st.1).push(id));
    let counted = !p.passed;
    p.dead.push(id);
    let n = p.dead.len();
    if counted {
        p.before = p.before + 1;
    }
}

fn fit_exec(t: &mut Tree, size: TermSize, proportional: bool)
    requires
        fit_node_defined(*old(t), size, proportional),
    ensures
        *final(t) == fit_node(*old(t), size, proportional),
{
    match t {
        Tree::Node { left, right, data: Some(nd) } => {
            fit(nd, size, left, right, proportional);
        },
        _ => {},
    }
}

fn visit_exec(
    t: Tree,
    size: TermSize,
    p: &mut Progress,
    h: usize,
    doomed: &[usize],
    root: TermSize,
    cell: TermSize,
    proportional: bool,
    active: usize,
    Ghost(st): Ghost<WalkState>,
) -> (out: (Option<Tree>, Ghost<WalkState>))
    requires
        tracks(*old(p), st, active),
        visit_defined(t, size, st, h as nat, doomed@, root, cell, proportional),
    ensures
        (out.0, out.1@) == visit(t, size, st, h as nat, doomed@, root, cell, proportional),
        tracks(*final(p), out.1@, active),
    decreases h, 1nat,
{
    match t {
        Tree::Leaf(id) => {
            if contains_id(doomed, id) {
                record(p, id, active, Ghost(st));
                count_pane(p, active, Ghost((st.0, st.1.push((st.0, id)))));
                (None, Ghost((st.0 + 1, st.1.push((st.0, id)))))
            } else {
                count_pane(p, active, Ghost(st));
                (Some(Tree::Leaf(id)), Ghost((st.0 + 1, st.1)))
            }
        },
        Tree::Node { left, right, data } => {
            let mut reached = Tree::Node { left, right, data };
            if p.dead.len() > 0 {
                fit_exec(&mut reached, size, proportional);
            }
            match reached {
                Tree::Node { left, right, data } => {
                    let (out, after) = walk_node_exec(
                        *left,
                        *right,
                        data,
                        p,
                        h,
                        doomed,
                        root,
                        cell,
                        proportional,
                        active,
                        Ghost(st),
                    );
                    (Some(out), after)
                },
                other => (Some(other), Ghost(st)),
            }
        },
        Tree::Empty => (Some(Tree::Empty), Ghost(st)),
    }
}

fn walk_node_exec(
    left: Tree,
    right: Tree,
    data: Option<SplitDirectionAndSize>,
    p: &mut Progress,
    h: usize,
    doomed: &[usize],
    root: TermSize,
    cell: TermSize,
    proportional: bool,
    active: usize,
    Ghost(st): Ghost<WalkState>,
) -> (out: (Tree, Ghost<WalkState>))
    requires
        tracks(*old(p), st, active),
        walk_node_defined(left, right, data, st, h as nat, doomed@, root, cell, proportional),
    ensures
        (out.0, out.1@) == walk_node(left, right, data, st, h as nat, doomed@, root, cell, proportional),
        tracks(*final(p), out.1@, active),
    decreases h, 0nat,
{
    let first = match data {
        Some(d) => d.first,
        None => root,
    };
    let second = match data {
        Some(d) => d.second,
        None => root,
    };
    let (l_out, st1) = visit_exec(left, first, p, h - 1, doomed, root, cell, proportional, active, Ghost(st));
    match l_out {
        None => promote_exec(right, data, p, h - 1, doomed, root, cell, proportional, active, st1),
        Some(l2) => {
            let (r_out, st2) = visit_exec(right, second, p, h - 1, doomed, root, cell, proportional, active, st1);
            match r_out {
                None => promote_exec(l2, data, p, h - 1, doomed, root, cell, proportional, active, st2),
                Some(r2) => (Tree::Node { left: Box::new(l2), right: Box::new(r2), data }, st2),
            }
        },
    }
}

fn promote_exec(
    sibling: Tree,
    data: Option<SplitDirectionAndSize>,
    p: &mut Progress,
    h: usize,
    doomed: &[usize],
    root: TermSize,
    cell: TermSize,
    proportional: bool,
    active: usize,
    Ghost(st): Ghost<WalkState>,
) -> (out: (Tree, Ghost<WalkState>))
    requires
        tracks(*old(p), st, active),
        promote_defined(sibling, data, st, h as nat, doomed@, root, cell, proportional),
    ensures
        (out.0, out.1@) == promote_walk(sibling, data, st, h as nat, doomed@, root, cell, proportional),
        tracks(*final(p), out.1@, active),
    decreases h, 2nat,
{
    let nd = match data {
        Some(nd) => nd,
        None => {
            return (sibling, Ghost(st));
        },
    };
    match sibling {
        Tree::Node { left, right, data: d } => {
            let width = nd.width();
            let height = nd.height();
            let size = TermSize {
                rows: height,
                cols: width,
                pixel_width: cell.pixel_width * width,
                pixel_height: cell.pixel_height * height,
                dpi: cell.dpi,
            };
            let mut promoted = Tree::Node { left, right, data: d };
            fit_exec(&mut promoted, size, proportional);
            match promoted {
                Tree::Node { left, right, data: d2 } => walk_node_exec(
                    *left,
                    *right,
                    d2,
                    p,
                    h,
                    doomed,
                    root,
                    cell,
                    proportional,
                    active,
                    Ghost(st),
                ),
                other => (other, Ghost(st)),
            }
        },
        other => (other, Ghost(st)),
    }
}

fn tree_height(t: &Tree) -> (h: usize)
    requires
        height(*t) <= usize::MAX,
    ensures
        h == height(*t),
    decreases t,
{
    match t {
        Tree::Node { left, right, .. } => {
            let l = tree_height(left);
            let r = tree_height(right);
            1 + if l >= r { l } else { r }
        },
        _ => 0,
    }
}

impl TabLayout {
    /// Take out every pane of `doomed` that the walk meets (see the module
    /// notes). Gives the panes taken out, in the order they went.
    pub fn remove_pane_if(&mut self, doomed: &[usize]) -> (dead: Vec<usize>)
        requires
            pruning_defined(*old(self), doomed@),
        ensures
            *final(self) == pruned_layout(*old(self), doomed@),
            dead@ == panes_of(pruning(*old(self), doomed@).1.1),
    {
        let cell = cell_dimensions(&self.size);
        let active = self.active;
        let mut p = Progress { at: 0, passed: false, dead: Vec::new(), before: 0 };
        let ghost start: WalkState = (0, Seq::empty());
        assert(panes_of(start.1) =~= Seq::<usize>::empty());
        let mut tree = Tree::Empty;
        std::mem::swap(&mut tree, &mut self.tree);
        let ghost result = pruning(*old(self), doomed@);
        let h = tree_height(&tree);
        let ghost mut fin: WalkState = start;
        match tree {
            Tree::Leaf(id) => {
                if contains_id(doomed, id) {
                    record(&mut p, id, active, Ghost(start));
                    assert(start.1.push((0nat, id)) =~= seq![(0nat, id)]);
                    proof {
                        fin = (0, seq![(0nat, id)]);
                    }
                } else {
                    count_pane(&mut p, active, Ghost(start));
                    proof {
                        fin = (1, start.1);
                    }
                    self.tree = Tree::Leaf(id);
                }
            },
            Tree::Node { left, right, data } => {
                let (out, reached) = walk_node_exec(
                    *left,
                    *right,
                    data,
                    &mut p,
                    h,
                    doomed,
                    self.size,
                    cell,
                    self.proportional,
                    active,
                    Ghost(start),
                );
                proof {
                    fin = reached@;
                }
                self.tree = out;
            },
            Tree::Empty => {},
        }
        assert(fin == result.1);
        assert(self.tree == result.0);
        self.active = if p.before <= active { active - p.before } else { 0 };
        match self.zoomed {
            Some(z) => {
                if contains_id(p.dead.as_slice(), z) {
                    self.zoomed = None;
                }
            },
            None => {},
        }
        if p.dead.len() > 0 {
            self.resize_reference = None;
        }
        p.dead
    }
}

/// Every pane of `panes` is one of `ids`.
pub open spec fn all_among(panes: Seq<usize>, ids: Seq<usize>) -> bool {
    forall|k: int| 0 <= k < panes.len() ==> ids.contains(#[trigger] panes[k])
}

fn all_in(panes: &Vec<usize>, ids: &[usize]) -> (all: bool)
    ensures
        all == all_among(panes@, ids@),
{
    let mut k: usize = 0;
    while k < panes.len()
        invariant
            k <= panes@.len(),
            forall|j: int| 0 <= j < k ==> ids@.contains(#[trigger] panes@[j]),
        decreases panes.len() - k,
    {
        if !contains_id(ids, panes[k]) {
            return false;
        }
        k = k + 1;
    }
    true
}

impl Tab {
    /// Take out the panes of `doomed` as `TabLayout::remove_pane_if` does;
    /// their own cell sizes go with them. Gives the panes taken out.
    pub fn remove_pane_if(&mut self, doomed: &[usize]) -> (dead: Vec<usize>)
        requires
            pruning_defined(old(self).layout, doomed@),
            old(self).chrome.wf(),
        ensures
            final(self).layout == pruned_layout(old(self).layout, doomed@),
            dead@ == panes_of(pruning(old(self).layout, doomed@).1.1),
            final(self).chrome.cell_sizes@ == old(self).chrome.cell_sizes@.remove_keys(dead@.to_set()),
            final(self).chrome.header_rows == old(self).chrome.header_rows,
            final(self).chrome.padding == old(self).chrome.padding,
            final(self).chrome.wf(),
            final(self).title == old(self).title,
    {
        let dead = self.layout.remove_pane_if(doomed);
        let mut k: usize = 0;
        while k < dead.len()
            invariant
                k <= dead@.len(),
                self.chrome.cell_sizes@ == old(self).chrome.cell_sizes@.remove_keys(
                    dead@.subrange(0, k as int).to_set(),
                ),
                self.chrome.header_rows == old(self).chrome.header_rows,
                self.chrome.padding == old(self).chrome.padding,
                old(self).chrome.wf(),
                self.layout == pruned_layout(old(self).layout, doomed@),
                self.title == old(self).title,
            decreases dead.len() - k,
        {
            let id = dead[k];
            self.chrome.cell_sizes.remove(&id);
            assert(dead@.subrange(0, k + 1).to_set() =~= dead@.subrange(0, k as int).to_set().insert(id)) by {
                assert(dead@.subrange(0, k + 1) =~= dead@.subrange(0, k as int) + seq![id]);
                Seq::<usize>::lemma_to_set_insert_commutes(dead@.subrange(0, k as int), id);
            }
            assert(self.chrome.cell_sizes@ =~= old(self).chrome.cell_sizes@.remove_keys(
                dead@.subrange(0, k + 1).to_set(),
            ));
            k = k + 1;
        }
        assert(dead@.subrange(0, dead@.len() as int) =~= dead@);
        dead
    }

    /// Take out the panes that died, `dead_panes`; gives those taken out,
    /// which are then to be closed.
    pub fn prune_dead_panes(&mut self, dead_panes: &[usize]) -> (dead: Vec<usize>)
        requires
            pruning_defined(old(self).layout, dead_panes@),
            old(self).chrome.wf(),
        ensures
            final(self).layout == pruned_layout(old(self).layout, dead_panes@),
            dead@ == panes_of(pruning(old(self).layout, dead_panes@).1.1),
            final(self).chrome.cell_sizes@ == old(self).chrome.cell_sizes@.remove_keys(dead@.to_set()),
            final(self).chrome.header_rows == old(self).chrome.header_rows,
            final(self).chrome.padding == old(self).chrome.padding,
            final(self).chrome.wf(),
    {
        self.remove_pane_if(dead_panes)
    }

    /// Take out pane `pane_id`; gives it, to be closed, when it was there.
    pub fn kill_pane(&mut self, pane_id: usize) -> (dead: Vec<usize>)
        requires
            pruning_defined(old(self).layout, seq![pane_id]),
            old(self).chrome.wf(),
        ensures
            final(self).layout == pruned_layout(old(self).layout, seq![pane_id]),
            dead@ == panes_of(pruning(old(self).layout, seq![pane_id]).1.1),
            final(self).chrome.cell_sizes@ == old(self).chrome.cell_sizes@.remove_keys(dead@.to_set()),
            final(self).chrome.header_rows == old(self).chrome.header_rows,
            final(self).chrome.padding == old(self).chrome.padding,
            final(self).chrome.wf(),
    {
        let ids = [pane_id];
        assert(ids@ =~= seq![pane_id]);
        self.remove_pane_if(&ids)
    }

    /// Take out the panes of a domain that went away, `in_domain`; gives
    /// those taken out, to be closed.
    pub fn kill_panes_in_domain(&mut self, in_domain: &[usize]) -> (dead: Vec<usize>)
        requires
            pruning_defined(old(self).layout, in_domain@),
            old(self).chrome.wf(),
        ensures
            final(self).layout == pruned_layout(old(self).layout, in_domain@),
            dead@ == panes_of(pruning(old(self).layout, in_domain@).1.1),
            final(self).chrome.cell_sizes@ == old(self).chrome.cell_sizes@.remove_keys(dead@.to_set()),
            final(self).chrome.header_rows == old(self).chrome.header_rows,
            final(self).chrome.padding == old(self).chrome.padding,
            final(self).chrome.wf(),
    {
        self.remove_pane_if(in_domain)
    }

    /// The tab is dead when every pane is, the zoomed one or not:
    /// `dead_panes` are the panes that died.
    pub fn is_dead(&self, dead_panes: &[usize]) -> (dead: bool)
        ensures
            dead == all_among(leaves(self.layout.tree), dead_panes@),
    {
        let panes = crate::layout::pane_move::pane_ids(&self.layout.tree);
        all_in(&panes, dead_panes)
    }

    /// The tab can close without asking when every pane can:
    /// `closable` are the panes that can.
    pub fn can_close_without_prompting(&self, closable: &[usize]) -> (can: bool)
        ensures
            can == all_among(leaves(self.layout.tree), closable@),
    {
        let panes = crate::layout::pane_move::pane_ids(&self.layout.tree);
        all_in(&panes, closable)
    }
}

} // verus!
