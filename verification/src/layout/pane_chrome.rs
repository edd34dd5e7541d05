//! What each terminal of a tab gets of its pane: the pane's part of the tab
//! less a header and padding, in the pane's own cell size where its font has
//! one. Split geometry never changes for these.
use vstd::prelude::*;
use std::collections::HashMap;
use crate::layout::size::{pane_size_with_cell, size_with_cell_spec, PositionedSplit, TermSize};
use crate::layout::tab::TabLayout;
use crate::layout::tree::{
    collect_panes, collect_splits, coords_fit, inner_count, leaves, pane_rects, positioned, split_rects, PositionedPane,
    Tree,
};
use crate::workspaces::{first_index, lemma_first_index_at};

verus! {

/// Every pane of the tab, ignoring the zoom.
pub open spec fn all_panes(layout: TabLayout) -> Seq<PositionedPane> {
    let rects = pane_rects(layout.tree, 0, 0, layout.size);
    Seq::new(rects.len(), |k: int| positioned(rects[k], k, layout.active, layout.zoomed))
}

/// The panes the window shows: the zoomed pane alone over the whole tab, or
/// every pane.
pub open spec fn shown_panes(layout: TabLayout) -> Seq<PositionedPane> {
    match layout.zoomed {
        Some(z) => seq![
            PositionedPane {
                index: 0,
                is_active: true,
                is_zoomed: true,
                left: 0,
                top: 0,
                width: layout.size.cols,
                pixel_width: layout.size.pixel_width,
                height: layout.size.rows,
                pixel_height: layout.size.pixel_height,
                pane_id: z,
            },
        ],
        None => all_panes(layout),
    }
}

impl TabLayout {
    /// Every pane with its place, left to right, ignoring the zoom.
    pub fn iter_panes_ignoring_zoom(&self) -> (panes: Vec<PositionedPane>)
        requires
            coords_fit(self.tree, 0, 0),
            leaves(self.tree).len() <= usize::MAX,
        ensures
            panes@ == all_panes(*self),
    {
        let mut panes: Vec<PositionedPane> = Vec::new();
        let ghost before = panes@;
        collect_panes(&self.tree, 0, 0, self.size, self.active, self.zoomed, &mut panes);
        assert forall|k: int| 0 <= k < panes@.len() implies panes@[k] == all_panes(*self)[k] by {
            assert(panes@[before.len() + k] == positioned(
                pane_rects(self.tree, 0, 0, self.size)[k],
                before.len() + k,
                self.active,
                self.zoomed,
            ));
        }
        assert(panes@ =~= all_panes(*self));
        panes
    }

    /// The panes the window shows, with their places.
    pub fn iter_panes(&self) -> (panes: Vec<PositionedPane>)
        requires
            coords_fit(self.tree, 0, 0),
            leaves(self.tree).len() <= usize::MAX,
        ensures
            panes@ == shown_panes(*self),
    {
        match self.zoomed {
            Some(z) => {
                let mut panes: Vec<PositionedPane> = Vec::new();
                panes.push(
                    PositionedPane {
                        index: 0,
                        is_active: true,
                        is_zoomed: true,
                        left: 0,
                        top: 0,
                        width: self.size.cols,
                        pixel_width: self.size.pixel_width,
                        height: self.size.rows,
                        pixel_height: self.size.pixel_height,
                        pane_id: z,
                    },
                );
                assert(panes@ =~= shown_panes(*self));
                panes
            },
            None => self.iter_panes_ignoring_zoom(),
        }
    }

    /// The dividers between the panes, in preorder, each with the index of
    /// its split; none while a pane is zoomed.
    pub fn iter_splits(&self) -> (splits: Vec<PositionedSplit>)
        requires
            coords_fit(self.tree, 0, 0),
            inner_count(self.tree) <= usize::MAX,
        ensures
            splits@ == if self.zoomed is Some {
                Seq::<PositionedSplit>::empty()
            } else {
                split_rects(self.tree, 0, 0, 0)
            },
    {
        let mut splits: Vec<PositionedSplit> = Vec::new();
        if self.zoomed.is_some() {
            return splits;
        }
        collect_splits(&self.tree, 0, 0, 0, &mut splits);
        assert(splits@ =~= split_rects(self.tree, 0, 0, 0));
        splits
    }
}

/// The parts of the tab that the splits give their panes, left to right;
/// panes below a split without sizes get none.
pub open spec fn split_sizes(tree: Tree, size: TermSize) -> Seq<(usize, TermSize)>
    decreases tree,
{
    match tree {
        Tree::Leaf(id) => seq![(id, size)],
        Tree::Node { left, right, data: Some(d) } => split_sizes(*left, d.first) + split_sizes(*right, d.second),
        _ => Seq::empty(),
    }
}

/// The cell size of pane `id`, if its font has its own.
pub open spec fn cell_for(cells: Map<usize, (usize, usize)>, id: usize) -> Option<(usize, usize)> {
    if cells.contains_key(id) {
        Some(cells[id])
    } else {
        None
    }
}

/// What giving pane `pane_id` of `layout` the cell size `cell` does: a
/// refused or unchanged cell, or a pane not in the tab, changes nothing;
/// otherwise the cell is stored (or dropped) and the pane's terminal, if the
/// window shows it, takes its new size.
pub open spec fn cell_size_outcome(
    before: PaneChrome,
    layout: TabLayout,
    pane_id: usize,
    cell: Option<(usize, usize)>,
    after: PaneChrome,
    resize: Option<TermSize>,
) -> bool {
    let refused = (cell matches Some(c) && (c.0 == 0 || c.1 == 0)) || cell_for(before.cell_sizes@, pane_id) == cell
        || !layout.panes().contains(pane_id);
    if refused {
        resize is None && after.cell_sizes@ == before.cell_sizes@
    } else {
        let shown = shown_panes(layout);
        let at = first_index(shown, |p: PositionedPane| p.pane_id == pane_id);
        &&& after.cell_sizes@ == match cell {
            Some(c) => before.cell_sizes@.insert(pane_id, c),
            None => before.cell_sizes@.remove(pane_id),
        }
        &&& resize == if at < 0 {
            None
        } else {
            Some(
                after.content_spec(
                    pane_id,
                    TermSize {
                        cols: shown[at].width,
                        rows: shown[at].height,
                        pixel_width: shown[at].pixel_width,
                        pixel_height: shown[at].pixel_height,
                        dpi: layout.size.dpi,
                    },
                ),
            )
        }
    }
}

/// The header, padding and font cell sizes of the panes of a tab.
pub struct PaneChrome {
    pub header_rows: usize,
    pub padding: (usize, usize),
    pub cell_sizes: HashMap<usize, (usize, usize)>,
}

impl PaneChrome {
    /// Every stored cell size has width and height.
    pub open spec fn wf(&self) -> bool {
        forall|id: usize| #[trigger]
            self.cell_sizes@.contains_key(id) ==> self.cell_sizes@[id].0 > 0 && self.cell_sizes@[id].1 > 0
    }

    /// The terminal size of pane `id` in a part of the tab of `size`.
    pub open spec fn content_spec(&self, id: usize, size: TermSize) -> TermSize {
        size_with_cell_spec(size, self.header_rows, self.padding, cell_for(self.cell_sizes@, id))
    }

    /// No header, no padding, every pane in the tab's cell size.
    pub fn new() -> (chrome: Self)
        ensures
            chrome.wf(),
            chrome.header_rows == 0,
            chrome.padding == (0usize, 0usize),
            chrome.cell_sizes@ == Map::<usize, (usize, usize)>::empty(),
    {
        PaneChrome { header_rows: 0, padding: (0, 0), cell_sizes: HashMap::new() }
    }

    /// Reserve `rows` header rows above each pane; says whether the
    /// terminals must be resized.
    pub fn set_pane_header_rows(&mut self, rows: usize) -> (changed: bool)
        ensures
            changed == (old(self).header_rows != rows),
            final(self).header_rows == rows,
            final(self).padding == old(self).padding,
            final(self).cell_sizes@ == old(self).cell_sizes@,
    {
        let changed = self.header_rows != rows;
        self.header_rows = rows;
        changed
    }

    /// Reserve `padding` pixels around each terminal grid; says whether the
    /// terminals must be resized.
    pub fn set_pane_content_padding(&mut self, padding: (usize, usize)) -> (changed: bool)
        ensures
            changed == (old(self).padding != padding),
            final(self).padding == padding,
            final(self).header_rows == old(self).header_rows,
            final(self).cell_sizes@ == old(self).cell_sizes@,
    {
        let changed = self.padding.0 != padding.0 || self.padding.1 != padding.1;
        self.padding = padding;
        changed
    }

    /// Set header and padding together, so that no terminal sees one without
    /// the other; says whether the terminals must be resized.
    pub fn set_pane_chrome(&mut self, header_rows: usize, padding: (usize, usize)) -> (changed: bool)
        ensures
            changed == (old(self).header_rows != header_rows || old(self).padding != padding),
            final(self).header_rows == header_rows,
            final(self).padding == padding,
            final(self).cell_sizes@ == old(self).cell_sizes@,
    {
        let changed = self.header_rows != header_rows || self.padding.0 != padding.0 || self.padding.1
            != padding.1;
        self.header_rows = header_rows;
        self.padding = padding;
        changed
    }

    pub fn cell_of(&self, id: usize) -> (cell: Option<(usize, usize)>)
        ensures
            cell == cell_for(self.cell_sizes@, id),
    {
        match self.cell_sizes.get(&id) {
            Some(c) => Some(*c),
            None => None,
        }
    }

    /// The terminal size of pane `id` in a part of the tab of `size`.
    pub fn pane_content_size(&self, id: usize, size: TermSize) -> (content: TermSize)
        requires
            self.wf(),
        ensures
            content == self.content_spec(id, size),
    {
        let cell = self.cell_of(id);
        pane_size_with_cell(size, self.header_rows, self.padding, cell)
    }

    /// The terminal size of every pane, left to right, for a tab of `size`.
    pub fn pane_sizes(&self, tree: &Tree, size: TermSize) -> (sizes: Vec<(usize, TermSize)>)
        requires
            self.wf(),
        ensures
            sizes@ == split_sizes(*tree, size).map_values(
                |entry: (usize, TermSize)| (entry.0, self.content_spec(entry.0, entry.1)),
            ),
    {
        let mut sizes: Vec<(usize, TermSize)> = Vec::new();
        self.push_sizes(tree, size, &mut sizes);
        sizes
    }

    fn push_sizes(&self, tree: &Tree, size: TermSize, out: &mut Vec<(usize, TermSize)>)
        requires
            self.wf(),
        ensures
            final(out)@ == old(out)@ + split_sizes(*tree, size).map_values(
                |entry: (usize, TermSize)| (entry.0, self.content_spec(entry.0, entry.1)),
            ),
        decreases tree,
    {
        match tree {
            Tree::Leaf(id) => {
                let content = self.pane_content_size(*id, size);
                out.push((*id, content));
                assert(split_sizes(*tree, size).map_values(
                    |entry: (usize, TermSize)| (entry.0, self.content_spec(entry.0, entry.1)),
                ) =~= seq![(*id, content)]);
            },
            Tree::Node { left, right, data: Some(d) } => {
                self.push_sizes(left, d.first, out);
                self.push_sizes(right, d.second, out);
                assert(split_sizes(*tree, size).map_values(
                    |entry: (usize, TermSize)| (entry.0, self.content_spec(entry.0, entry.1)),
                ) =~= split_sizes(**left, d.first).map_values(
                    |entry: (usize, TermSize)| (entry.0, self.content_spec(entry.0, entry.1)),
                ) + split_sizes(**right, d.second).map_values(
                    |entry: (usize, TermSize)| (entry.0, self.content_spec(entry.0, entry.1)),
                ));
            },
            _ => {
                assert(split_sizes(*tree, size).map_values(
                    |entry: (usize, TermSize)| (entry.0, self.content_spec(entry.0, entry.1)),
                ) =~= Seq::<(usize, TermSize)>::empty());
                assert(old(out)@ + Seq::<(usize, TermSize)>::empty() =~= old(out)@);
            },
        }
    }

    /// Give pane `pane_id` of `layout` its own cell size (`None` for the
    /// tab's), and say what size its terminal takes now, if the window shows
    /// it. A cell without width or height, an unchanged cell and a pane that
    /// is not in the tab change nothing.
    pub fn set_pane_cell_size(&mut self, layout: &TabLayout, pane_id: usize, cell: Option<(usize, usize)>) -> (resize:
        Option<TermSize>)
        requires
            old(self).wf(),
            coords_fit(layout.tree, 0, 0),
            leaves(layout.tree).len() <= usize::MAX,
        ensures
            final(self).wf(),
            final(self).header_rows == old(self).header_rows,
            final(self).padding == old(self).padding,
            cell_size_outcome(*old(self), *layout, pane_id, cell, *final(self), resize),
    {
        let zero = match cell {
            Some(c) => c.0 == 0 || c.1 == 0,
            None => false,
        };
        let current = self.cell_of(pane_id);
        let same = match (current, cell) {
            (Some(a), Some(b)) => a.0 == b.0 && a.1 == b.1,
            (None, None) => true,
            _ => false,
        };
        if zero || same || !crate::layout::tree::tree_contains(&layout.tree, pane_id) {
            return None;
        }
        match cell {
            Some(c) => {
                self.cell_sizes.insert(pane_id, c);
            },
            None => {
                self.cell_sizes.remove(&pane_id);
            },
        }
        let shown = layout.iter_panes();
        let ghost p = |q: PositionedPane| q.pane_id == pane_id;
        let mut i: usize = 0;
        while i < shown.len() && shown[i].pane_id != pane_id
            invariant
                i <= shown@.len(),
                forall|k: int| 0 <= k < i ==> (#[trigger] shown@[k]).pane_id != pane_id,
            decreases shown.len() - i,
        {
            i = i + 1;
        }
        proof {
            assert forall|k: int| 0 <= k < i implies !p(#[trigger] shown@[k]) by {}
            lemma_first_index_at(shown@, p, i as int);
        }
        if i == shown.len() {
            return None;
        }
        let place = shown[i];
        let size = TermSize {
            cols: place.width,
            rows: place.height,
            pixel_width: place.pixel_width,
            pixel_height: place.pixel_height,
            dpi: layout.size.dpi,
        };
        Some(self.pane_content_size(pane_id, size))
    }
}

} // verus!
