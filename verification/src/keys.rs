//! Where a key press goes: to an open confirmation, to the terminal, or to
//! the interface, and what the interface does with it.
use vstd::prelude::*;
use crate::text::{char_is_control, is_control};
use crate::ui::{KeyCode, Modifiers, Page};

verus! {

/// What the window shows when a key arrives.
#[derive(Clone, Copy, Debug, PartialEq, Eq, Structural)]
pub struct KeyContext {
    /// The interface is switched on.
    pub ui_enabled: bool,
    /// A close confirmation is open, or the release of its key is awaited.
    pub confirmation: bool,
    /// Another modal overlay of the terminal is open.
    pub modal: bool,
    /// A tab is being dragged.
    pub dragging: bool,
    pub tab_menu: bool,
    pub page: Page,
    pub form_open: bool,
    /// A form is closing and takes no more input.
    pub form_closing: bool,
}

/// What the interface does with a key it takes in a text field or list.
#[derive(Clone, Debug, PartialEq, Eq)]
pub enum KeyEdit {
    /// Close the form, or leave the library page.
    Escape,
    /// Submit the form, or open the first entry of the page.
    Enter,
    NextField,
    PreviousField,
    FocusSearch,
    SelectAll,
    DeleteBack,
    DeleteForward,
    Left,
    Right,
    Home,
    End,
    Type(char),
    TypeText(String),
    /// Taken, with no effect on the field.
    Ignored,
}

/// Where a key goes.
#[derive(Clone, Debug, PartialEq, Eq)]
pub enum KeyOutcome {
    /// The close confirmation decides.
    Confirmation,
    /// The terminal gets the key.
    Terminal,
    /// The terminal gets the key, and an unfinished tab drag is dropped.
    TerminalEndingDrag,
    /// The interface takes the key and does nothing.
    Swallowed,
    CancelDrag,
    OpenHosts,
    CloseTabMenu,
    SaveWorkspace,
    Paste,
    /// The interface takes the key: a new input generation starts, the list
    /// scrolls back to the top and the window is drawn again.
    Edit(KeyEdit),
}

/// The interface takes keys: a confirmation, a library page, a form or a
/// tab menu is open.
pub open spec fn input_active(c: KeyContext) -> bool {
    c.ui_enabled && (c.confirmation || c.page != Page::Terminal || c.form_open || c.form_closing || c.tab_menu)
}

/// Whether the interface takes keys now.
pub fn interface_takes_keys(c: &KeyContext) -> (takes: bool)
    ensures
        takes == input_active(*c),
{
    c.ui_enabled && (c.confirmation || c.page != Page::Terminal || c.form_open || c.form_closing || c.tab_menu)
}

pub open spec fn is_char(key: KeyCode, lower: char, upper: char) -> bool {
    key matches KeyCode::Char(c) && (c == lower || c == upper)
}

pub open spec fn escape() -> char {
    '\u{1b}'
}

/// What a key does in a field or list of the interface.
pub open spec fn edit_spec(c: KeyContext, key: KeyCode, mods: Modifiers) -> KeyEdit {
    match key {
        KeyCode::Char(ch) => {
            if ch == escape() {
                KeyEdit::Escape
            } else if ch == '\r' {
                KeyEdit::Enter
            } else if ch == '\t' {
                if mods.shift { KeyEdit::PreviousField } else { KeyEdit::NextField }
            } else if (ch == 'f' || ch == 'F') && mods.ctrl && !c.form_open {
                KeyEdit::FocusSearch
            } else if (ch == 'a' || ch == 'A') && mods.ctrl {
                KeyEdit::SelectAll
            } else if ch == '\u{8}' {
                KeyEdit::DeleteBack
            } else if ch == '\u{7f}' {
                KeyEdit::DeleteForward
            } else if !mods.ctrl && !mods.alt && !is_control(ch) {
                KeyEdit::Type(ch)
            } else {
                KeyEdit::Ignored
            }
        },
        KeyCode::Composed(text) => KeyEdit::TypeText(text),
        KeyCode::LeftArrow => KeyEdit::Left,
        KeyCode::RightArrow => KeyEdit::Right,
        KeyCode::Home => KeyEdit::Home,
        KeyCode::End => KeyEdit::End,
        KeyCode::Other(_) => KeyEdit::Ignored,
    }
}

/// Where a key goes, checked in this order: an open confirmation; the
/// terminal when the interface is off or another overlay is modal; a tab
/// drag (Escape cancels it); Ctrl+Shift+H for the host list; an open tab
/// menu (Escape closes it); Ctrl+S on the terminal page to save the tab; the
/// terminal when the interface takes no keys; releases and a closing form
/// are swallowed; Ctrl+V pastes; the rest edits.
pub open spec fn key_outcome_spec(c: KeyContext, key: KeyCode, mods: Modifiers, down: bool) -> KeyOutcome {
    let is_escape = key == KeyCode::Char(escape());
    if c.confirmation && c.ui_enabled {
        KeyOutcome::Confirmation
    } else if !c.ui_enabled || c.modal {
        if c.dragging { KeyOutcome::TerminalEndingDrag } else { KeyOutcome::Terminal }
    } else if c.dragging {
        if down && is_escape { KeyOutcome::CancelDrag } else { KeyOutcome::Swallowed }
    } else if down && mods.ctrl && mods.shift && is_char(key, 'h', 'H') {
        KeyOutcome::OpenHosts
    } else if c.tab_menu {
        if down && is_escape { KeyOutcome::CloseTabMenu } else { KeyOutcome::Swallowed }
    } else if c.page == Page::Terminal && !c.form_open && mods.ctrl && is_char(key, 's', 'S') {
        if down { KeyOutcome::SaveWorkspace } else { KeyOutcome::Swallowed }
    } else if !input_active(c) {
        KeyOutcome::Terminal
    } else if !down || c.form_closing {
        KeyOutcome::Swallowed
    } else if mods.ctrl && is_char(key, 'v', 'V') {
        KeyOutcome::Paste
    } else {
        KeyOutcome::Edit(edit_spec(c, key, mods))
    }
}

fn char_key(key: &KeyCode, lower: char, upper: char) -> (found: bool)
    ensures
        found == is_char(*key, lower, upper),
{
    match key {
        KeyCode::Char(c) => *c == lower || *c == upper,
        _ => false,
    }
}

fn edit_for(c: &KeyContext, key: &KeyCode, mods: Modifiers) -> (edit: KeyEdit)
    ensures
        edit == edit_spec(*c, *key, mods),
{
    match key {
        KeyCode::Char(ch) => {
            let ch = *ch;
            if ch == '\u{1b}' {
                KeyEdit::Escape
            } else if ch == '\r' {
                KeyEdit::Enter
            } else if ch == '\t' {
                if mods.shift { KeyEdit::PreviousField } else { KeyEdit::NextField }
            } else if (ch == 'f' || ch == 'F') && mods.ctrl && !c.form_open {
                KeyEdit::FocusSearch
            } else if (ch == 'a' || ch == 'A') && mods.ctrl {
                KeyEdit::SelectAll
            } else if ch == '\u{8}' {
                KeyEdit::DeleteBack
            } else if ch == '\u{7f}' {
                KeyEdit::DeleteForward
            } else if !mods.ctrl && !mods.alt && !char_is_control(ch) {
                KeyEdit::Type(ch)
            } else {
                KeyEdit::Ignored
            }
        },
        KeyCode::Composed(text) => KeyEdit::TypeText(text.clone()),
        KeyCode::LeftArrow => KeyEdit::Left,
        KeyCode::RightArrow => KeyEdit::Right,
        KeyCode::Home => KeyEdit::Home,
        KeyCode::End => KeyEdit::End,
        KeyCode::Other(_) => KeyEdit::Ignored,
    }
}

/// Decide where a key goes; see `key_outcome_spec`.
pub fn key_outcome(c: &KeyContext, key: &KeyCode, mods: Modifiers, down: bool) -> (outcome: KeyOutcome)
    ensures
        outcome == key_outcome_spec(*c, *key, mods, down),
{
    let is_escape = match key {
        KeyCode::Char(ch) => *ch == '\u{1b}',
        _ => false,
    };
    let input = c.ui_enabled && (c.confirmation || c.page != Page::Terminal || c.form_open || c.form_closing
        || c.tab_menu);
    if c.confirmation && c.ui_enabled {
        KeyOutcome::Confirmation
    } else if !c.ui_enabled || c.modal {
        if c.dragging { KeyOutcome::TerminalEndingDrag } else { KeyOutcome::Terminal }
    } else if c.dragging {
        if down && is_escape { KeyOutcome::CancelDrag } else { KeyOutcome::Swallowed }
    } else if down && mods.ctrl && mods.shift && char_key(key, 'h', 'H') {
        KeyOutcome::OpenHosts
    } else if c.tab_menu {
        if down && is_escape { KeyOutcome::CloseTabMenu } else { KeyOutcome::Swallowed }
    } else if c.page == Page::Terminal && !c.form_open && mods.ctrl && char_key(key, 's', 'S') {
        if down { KeyOutcome::SaveWorkspace } else { KeyOutcome::Swallowed }
    } else if !input {
        KeyOutcome::Terminal
    } else if !down || c.form_closing {
        KeyOutcome::Swallowed
    } else if mods.ctrl && char_key(key, 'v', 'V') {
        KeyOutcome::Paste
    } else {
        KeyOutcome::Edit(edit_for(c, key, mods))
    }
}

/// The terminal gets the key.
pub open spec fn to_terminal(outcome: KeyOutcome) -> bool {
    outcome == KeyOutcome::Terminal || outcome == KeyOutcome::TerminalEndingDrag
}

/// A key reaches the terminal only when no confirmation is open and the
/// interface is off, another overlay is modal, or the interface takes no
/// keys; so the terminal never sees a key while a library page, a form or a
/// tab menu is open.
pub proof fn lemma_terminal_keys(c: KeyContext, key: KeyCode, mods: Modifiers, down: bool)
    ensures
        to_terminal(key_outcome_spec(c, key, mods, down)) ==> !(c.confirmation && c.ui_enabled) && (!c.ui_enabled
            || c.modal || !input_active(c)),
        c.ui_enabled && !c.modal && (c.page != Page::Terminal || c.form_open || c.tab_menu) ==> !to_terminal(
            key_outcome_spec(c, key, mods, down),
        ),
{
}

} // verus!
