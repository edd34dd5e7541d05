//! Split layout of the panes of one tab: a binary tree whose inner nodes hold
//! the sizes of their two children and whose leaves are pane identifiers.
pub mod size;
pub mod tree;
pub mod proportional;
pub mod direction;
pub mod dock;
pub mod tab;
pub mod adjust;
pub mod drag;
pub mod rebuild;
pub mod pane_move;
pub mod pane_chrome;
pub mod focus;
pub mod ptys;
pub mod pty_moves;
pub mod prune;
