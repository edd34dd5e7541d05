//! A tab together with the chrome of its panes: the layout, and the size
//! each terminal is given whenever the layout or the chrome changes.
use vstd::prelude::*;
use crate::layout::pane_chrome::{cell_size_outcome, split_sizes, PaneChrome};
use crate::layout::pane_move::after_removal;
use crate::layout::size::TermSize;
use crate::layout::prune::{lemma_only_not_elsewhere, lemma_pruning_finds, pruning_defined};
use crate::layout::tab::{grown_size, resize_defined, resized_tree, TabLayout};
use crate::layout::tree::{leaves, Tree};
use crate::text::{chars_of, same_chars, string_of};

verus! {

pub struct Tab {
    pub layout: TabLayout,
    pub chrome: PaneChrome,
    pub title: String,
}

/// The terminal size of every pane the window shows: the zoomed pane over
/// the whole tab, or each pane in its part of the splits.
pub open spec fn shown_ptys(tab: Tab) -> Seq<(usize, TermSize)> {
    match tab.layout.zoomed {
        Some(z) => seq![(z, tab.chrome.content_spec(z, tab.layout.size))],
        None => split_sizes(tab.layout.tree, tab.layout.size).map_values(
            |entry: (usize, TermSize)| (entry.0, tab.chrome.content_spec(entry.0, entry.1)),
        ),
    }
}

impl Tab {
    pub open spec fn wf(&self) -> bool {
        self.layout.wf() && self.chrome.wf()
    }

    /// A tab of `size` without panes or chrome.
    pub fn new(size: TermSize) -> (tab: Self)
        ensures
            tab.wf(),
            tab.layout.tree == Tree::Empty,
            tab.layout.size == size,
            tab.layout.active == 0,
            tab.layout.zoomed is None,
            !tab.layout.proportional,
            tab.chrome.header_rows == 0,
            tab.chrome.padding == (0usize, 0usize),
            tab.chrome.cell_sizes@ == Map::<usize, (usize, usize)>::empty(),
            tab.title@ == Seq::<char>::empty(),
    {
        Tab { layout: TabLayout::new(size), chrome: PaneChrome::new(), title: String::new() }
    }

    pub fn get_title(&self) -> (title: String)
        ensures
            title@ == self.title@,
    {
        self.title.clone()
    }

    /// Name the tab `title`. Says whether the name changed, which is when
    /// the window must show the new one.
    pub fn set_title(&mut self, title: &str) -> (changed: bool)
        ensures
            final(self).title@ == title@,
            changed == (old(self).title@ != title@),
            final(self).layout == old(self).layout,
            final(self).chrome == old(self).chrome,
    {
        let now = chars_of(self.title.as_str());
        let new = chars_of(title);
        if same_chars(now.as_slice(), new.as_slice()) {
            return false;
        }
        self.title = string_of(new.as_slice());
        true
    }

    pub fn get_size(&self) -> (size: TermSize)
        ensures
            size == self.layout.size,
    {
        self.layout.size
    }

    pub fn pane_header_rows(&self) -> (rows: usize)
        ensures
            rows == self.chrome.header_rows,
    {
        self.chrome.header_rows
    }

    pub fn pane_content_padding(&self) -> (padding: (usize, usize))
        ensures
            padding == self.chrome.padding,
    {
        self.chrome.padding
    }

    /// The terminal size of every pane the window shows.
    pub fn pty_sizes(&self) -> (sizes: Vec<(usize, TermSize)>)
        requires
            self.chrome.wf(),
        ensures
            sizes@ == shown_ptys(*self),
    {
        match self.layout.zoomed {
            Some(z) => {
                let content = self.chrome.pane_content_size(z, self.layout.size);
                let mut sizes: Vec<(usize, TermSize)> = Vec::new();
                sizes.push((z, content));
                assert(sizes@ =~= shown_ptys(*self));
                sizes
            },
            None => self.chrome.pane_sizes(&self.layout.tree, self.layout.size),
        }
    }

    /// Make `pane` the only pane of an empty tab; with a header its terminal
    /// is resized to leave room for it.
    pub fn assign_pane(&mut self, pane: usize) -> (resize: Option<(usize, TermSize)>)
        requires
            old(self).layout.tree == Tree::Empty,
            old(self).chrome.wf(),
        ensures
            final(self).layout == (TabLayout { tree: Tree::Leaf(pane), ..old(self).layout }),
            final(self).layout.tree == Tree::Leaf(pane),
            final(self).layout.recency == old(self).layout.recency,
            final(self).layout.proportional == old(self).layout.proportional,
            final(self).layout.resize_reference == old(self).layout.resize_reference,
            final(self).layout.size_before_zoom == old(self).layout.size_before_zoom,
            final(self).layout.size == old(self).layout.size,
            final(self).layout.active == old(self).layout.active,
            final(self).layout.zoomed == old(self).layout.zoomed,
            final(self).chrome == old(self).chrome,
            final(self).title == old(self).title,
            resize == if old(self).chrome.header_rows != 0 {
                Some((pane, old(self).chrome.content_spec(pane, old(self).layout.size)))
            } else {
                None
            },
    {
        let resize = if self.chrome.header_rows != 0 {
            Some((pane, self.chrome.pane_content_size(pane, self.layout.size)))
        } else {
            None
        };
        self.layout.assign_pane(pane);
        resize
    }

    /// Resize the layout to its own size again and give every shown
    /// terminal its size; nothing happens for a size without cells.
    fn refresh(&mut self) -> (ptys: Vec<(usize, TermSize)>)
        requires
            old(self).chrome.wf(),
            resize_defined(old(self).layout, old(self).layout.size),
        ensures
            final(self).chrome == old(self).chrome,
            old(self).layout.size.rows == 0 || old(self).layout.size.cols == 0 ==> {
                &&& final(self).layout == old(self).layout
                &&& ptys@ == Seq::<(usize, TermSize)>::empty()
            },
            old(self).layout.size.rows > 0 && old(self).layout.size.cols > 0 ==> {
                &&& final(self).layout.zoomed is Some ==> final(self).layout.tree == old(self).layout.tree
                &&& final(self).layout.zoomed is None ==> {
                    &&& final(self).layout.size == grown_size(old(self).layout.size, old(self).layout.tree)
                    &&& final(self).layout.tree == resized_tree(old(self).layout, old(self).layout.size)
                }
                &&& ptys@ == shown_ptys(*final(self))
            },
            final(self).layout.active == old(self).layout.active,
            final(self).layout.zoomed == old(self).layout.zoomed,
            final(self).layout.proportional == old(self).layout.proportional,
    {
        let size = self.layout.size;
        if size.rows == 0 || size.cols == 0 {
            return Vec::new();
        }
        self.layout.resize(size);
        self.pty_sizes()
    }

    /// Resize the tab to `size`; a proportional tab that already has `size`
    /// is left alone. Gives the terminals resized and their sizes.
    pub fn resize(&mut self, size: TermSize) -> (ptys: Vec<(usize, TermSize)>)
        requires
            old(self).chrome.wf(),
            !(old(self).layout.proportional && old(self).layout.size == size) ==> resize_defined(
                old(self).layout,
                size,
            ),
        ensures
            final(self).chrome == old(self).chrome,
            (old(self).layout.proportional && old(self).layout.size == size) || size.rows == 0 || size.cols == 0
                ==> {
                &&& final(self).layout == old(self).layout
                &&& ptys@ == Seq::<(usize, TermSize)>::empty()
            },
            !(old(self).layout.proportional && old(self).layout.size == size) && size.rows > 0 && size.cols > 0
                ==> {
                &&& old(self).layout.zoomed is Some ==> {
                    &&& final(self).layout.size == size
                    &&& final(self).layout.tree == old(self).layout.tree
                }
                &&& old(self).layout.zoomed is None ==> {
                    &&& final(self).layout.size == grown_size(size, old(self).layout.tree)
                    &&& final(self).layout.tree == resized_tree(old(self).layout, size)
                }
                &&& ptys@ == shown_ptys(*final(self))
            },
            final(self).layout.active == old(self).layout.active,
            final(self).layout.zoomed == old(self).layout.zoomed,
            final(self).layout.proportional == old(self).layout.proportional,
    {
        if self.layout.proportional && self.layout.size == size {
            return Vec::new();
        }
        if size.rows == 0 || size.cols == 0 {
            return Vec::new();
        }
        self.layout.resize(size);
        self.pty_sizes()
    }

    /// Reserve `rows` header rows above each pane; a change resizes the tab
    /// to its size, so every shown terminal gets its new size.
    pub fn set_pane_header_rows(&mut self, rows: usize) -> (ptys: Vec<(usize, TermSize)>)
        requires
            old(self).chrome.wf(),
            resize_defined(old(self).layout, old(self).layout.size),
        ensures
            final(self).chrome.header_rows == rows,
            final(self).chrome.padding == old(self).chrome.padding,
            final(self).chrome.cell_sizes@ == old(self).chrome.cell_sizes@,
            old(self).chrome.header_rows == rows ==> final(self).layout == old(self).layout && ptys@
                == Seq::<(usize, TermSize)>::empty(),
            old(self).chrome.header_rows != rows && old(self).layout.size.rows > 0 && old(self).layout.size.cols > 0
                ==> ptys@ == shown_ptys(*final(self)),
            final(self).layout.active == old(self).layout.active,
            final(self).layout.zoomed == old(self).layout.zoomed,
    {
        if self.chrome.set_pane_header_rows(rows) {
            self.refresh()
        } else {
            Vec::new()
        }
    }

    /// Reserve `padding` pixels around each terminal grid; a change resizes
    /// the tab to its size.
    pub fn set_pane_content_padding(&mut self, padding: (usize, usize)) -> (ptys: Vec<(usize, TermSize)>)
        requires
            old(self).chrome.wf(),
            resize_defined(old(self).layout, old(self).layout.size),
        ensures
            final(self).chrome.padding == padding,
            final(self).chrome.header_rows == old(self).chrome.header_rows,
            final(self).chrome.cell_sizes@ == old(self).chrome.cell_sizes@,
            old(self).chrome.padding == padding ==> final(self).layout == old(self).layout && ptys@ == Seq::<
                (usize, TermSize),
            >::empty(),
            old(self).chrome.padding != padding && old(self).layout.size.rows > 0 && old(self).layout.size.cols > 0
                ==> ptys@ == shown_ptys(*final(self)),
            final(self).layout.active == old(self).layout.active,
            final(self).layout.zoomed == old(self).layout.zoomed,
    {
        if self.chrome.set_pane_content_padding(padding) {
            self.refresh()
        } else {
            Vec::new()
        }
    }

    /// Set header and padding together in one resize.
    pub fn set_pane_chrome(&mut self, header_rows: usize, padding: (usize, usize)) -> (ptys: Vec<(usize, TermSize)>)
        requires
            old(self).chrome.wf(),
            resize_defined(old(self).layout, old(self).layout.size),
        ensures
            final(self).chrome.header_rows == header_rows,
            final(self).chrome.padding == padding,
            final(self).chrome.cell_sizes@ == old(self).chrome.cell_sizes@,
            old(self).chrome.header_rows == header_rows && old(self).chrome.padding == padding ==> final(self).layout
                == old(self).layout && ptys@ == Seq::<(usize, TermSize)>::empty(),
            !(old(self).chrome.header_rows == header_rows && old(self).chrome.padding == padding)
                && old(self).layout.size.rows > 0 && old(self).layout.size.cols > 0 ==> ptys@ == shown_ptys(
                *final(self),
            ),
            final(self).layout.active == old(self).layout.active,
            final(self).layout.zoomed == old(self).layout.zoomed,
    {
        if self.chrome.set_pane_chrome(header_rows, padding) {
            self.refresh()
        } else {
            Vec::new()
        }
    }

    /// Give pane `pane_id` its own cell size (`None` for the tab's); see
    /// `PaneChrome::set_pane_cell_size`. Gives the terminal resized, if any.
    pub fn set_pane_cell_size(&mut self, pane_id: usize, cell: Option<(usize, usize)>) -> (resize: Option<
        (usize, TermSize),
    >)
        requires
            old(self).chrome.wf(),
            crate::layout::tree::coords_fit(old(self).layout.tree, 0, 0),
            leaves(old(self).layout.tree).len() <= usize::MAX,
        ensures
            final(self).layout == old(self).layout,
            final(self).chrome.wf(),
            final(self).chrome.header_rows == old(self).chrome.header_rows,
            final(self).chrome.padding == old(self).chrome.padding,
            cell_size_outcome(
                old(self).chrome,
                old(self).layout,
                pane_id,
                cell,
                final(self).chrome,
                match resize {
                    Some((_, size)) => Some(size),
                    None => None,
                },
            ),
            match resize {
                Some((id, _)) => id == pane_id,
                None => true,
            },
    {
        match self.chrome.set_pane_cell_size(&self.layout, pane_id, cell) {
            Some(size) => Some((pane_id, size)),
            None => None,
        }
    }

    /// Remove pane `pane_id` (see `TabLayout::remove_pane`); its own cell
    /// size is forgotten with it.
    pub fn remove_pane(&mut self, pane_id: usize) -> (found: bool)
        requires
            pruning_defined(old(self).layout, seq![pane_id]),
            old(self).chrome.wf(),
        ensures
            found == old(self).layout.panes().contains(pane_id),
            !found ==> *final(self) == *old(self),
            found ==> {
                &&& final(self).layout == after_removal(old(self).layout, pane_id)
                &&& final(self).chrome.cell_sizes@ == old(self).chrome.cell_sizes@.remove(pane_id)
                &&& final(self).chrome.header_rows == old(self).chrome.header_rows
                &&& final(self).chrome.padding == old(self).chrome.padding
            },
            final(self).chrome.wf(),
    {
        let found = self.layout.remove_pane(pane_id);
        if found {
            self.chrome.cell_sizes.remove(&pane_id);
        } else {
            proof {
                lemma_only_not_elsewhere(old(self).layout.tree, pane_id);
                lemma_pruning_finds(old(self).layout, seq![pane_id]);
            }
        }
        found
    }

}

} // verus!
