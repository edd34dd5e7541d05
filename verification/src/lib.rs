//! Verified core of a multi-host SSH terminal: selective input broadcast,
//! workspace layouts and the small pieces of state the interface relies on.
pub mod id_set;
pub mod broadcast;
pub mod router;
pub mod input_policy;
pub mod tab_broadcasts;
pub mod text;
pub mod confirm;
pub mod layout;
pub mod hosts;
pub mod workspaces;
pub mod ui;
pub mod labels;
pub mod chrome;
pub mod icons;
pub mod capture;
pub mod restore;
pub mod keys;
pub mod ui_state;
pub mod pointer;
pub mod preferences;
