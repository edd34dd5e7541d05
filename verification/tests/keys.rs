use termviai::keys::{interface_takes_keys, key_outcome, KeyContext, KeyEdit, KeyOutcome};
use termviai::ui::{KeyCode, Modifiers, Page};

fn library() -> KeyContext {
    KeyContext {
        ui_enabled: true,
        confirmation: false,
        modal: false,
        dragging: false,
        tab_menu: false,
        page: Page::Hosts,
        form_open: false,
        form_closing: false,
    }
}

fn terminal() -> KeyContext {
    KeyContext { page: Page::Terminal, ..library() }
}

fn ctrl() -> Modifiers {
    Modifiers { ctrl: true, ..Modifiers::none() }
}

fn press(c: &KeyContext, key: KeyCode, mods: Modifiers) -> KeyOutcome {
    key_outcome(c, &key, mods, true)
}

#[test]
fn keys_go_to_the_terminal_unless_the_interface_takes_them() {
    let none = Modifiers::none();
    assert_eq!(press(&terminal(), KeyCode::Char('x'), none), KeyOutcome::Terminal);
    assert_eq!(press(&library(), KeyCode::Char('x'), none), KeyOutcome::Edit(KeyEdit::Type('x')));
    let off = KeyContext { ui_enabled: false, dragging: true, ..library() };
    assert_eq!(press(&off, KeyCode::Char('x'), none), KeyOutcome::TerminalEndingDrag);
    let modal = KeyContext { modal: true, ..library() };
    assert_eq!(press(&modal, KeyCode::Char('x'), none), KeyOutcome::Terminal);
    let confirm = KeyContext { confirmation: true, ..terminal() };
    assert_eq!(press(&confirm, KeyCode::Char('x'), none), KeyOutcome::Confirmation);
}

#[test]
fn shortcuts_and_overlays_take_their_keys() {
    let esc = KeyCode::Char('\u{1b}');
    let none = Modifiers::none();
    let dragging = KeyContext { dragging: true, ..terminal() };
    assert_eq!(press(&dragging, esc.clone(), none), KeyOutcome::CancelDrag);
    assert_eq!(press(&dragging, KeyCode::Char('x'), none), KeyOutcome::Swallowed);
    let hosts = Modifiers { ctrl: true, shift: true, ..Modifiers::none() };
    assert_eq!(press(&terminal(), KeyCode::Char('H'), hosts), KeyOutcome::OpenHosts);
    let menu = KeyContext { tab_menu: true, ..terminal() };
    assert_eq!(press(&menu, esc.clone(), none), KeyOutcome::CloseTabMenu);
    assert_eq!(press(&menu, KeyCode::Char('q'), none), KeyOutcome::Swallowed);
    assert_eq!(press(&terminal(), KeyCode::Char('s'), ctrl()), KeyOutcome::SaveWorkspace);
    assert_eq!(key_outcome(&terminal(), &KeyCode::Char('s'), ctrl(), false), KeyOutcome::Swallowed);
    assert_eq!(press(&library(), KeyCode::Char('v'), ctrl()), KeyOutcome::Paste);
}

#[test]
fn fields_take_editing_keys() {
    let none = Modifiers::none();
    let shift = Modifiers { shift: true, ..Modifiers::none() };
    let form = KeyContext { form_open: true, ..terminal() };
    assert_eq!(press(&form, KeyCode::Char('\t'), shift), KeyOutcome::Edit(KeyEdit::PreviousField));
    assert_eq!(press(&form, KeyCode::Char('\t'), none), KeyOutcome::Edit(KeyEdit::NextField));
    assert_eq!(press(&form, KeyCode::Char('\r'), none), KeyOutcome::Edit(KeyEdit::Enter));
    assert_eq!(press(&form, KeyCode::Char('f'), ctrl()), KeyOutcome::Edit(KeyEdit::Ignored));
    assert_eq!(press(&library(), KeyCode::Char('f'), ctrl()), KeyOutcome::Edit(KeyEdit::FocusSearch));
    assert_eq!(press(&form, KeyCode::Char('A'), ctrl()), KeyOutcome::Edit(KeyEdit::SelectAll));
    assert_eq!(press(&form, KeyCode::Char('\u{8}'), none), KeyOutcome::Edit(KeyEdit::DeleteBack));
    assert_eq!(press(&form, KeyCode::Char('\u{7f}'), none), KeyOutcome::Edit(KeyEdit::DeleteForward));
    assert_eq!(press(&form, KeyCode::Home, none), KeyOutcome::Edit(KeyEdit::Home));
    assert_eq!(press(&form, KeyCode::Composed("\u{e9}".to_string()), none), KeyOutcome::Edit(KeyEdit::TypeText("\u{e9}".to_string())));
    assert_eq!(press(&form, KeyCode::Char('\u{1}'), none), KeyOutcome::Edit(KeyEdit::Ignored));
    assert_eq!(key_outcome(&form, &KeyCode::Char('x'), none, false), KeyOutcome::Swallowed);
    let closing = KeyContext { form_closing: true, ..form };
    assert_eq!(press(&closing, KeyCode::Char('x'), none), KeyOutcome::Swallowed);
}

#[test]
fn the_interface_takes_keys_while_it_shows_more_than_the_terminal() {
    assert!(interface_takes_keys(&library()));
    assert!(!interface_takes_keys(&terminal()));
    assert!(interface_takes_keys(&KeyContext { tab_menu: true, ..terminal() }));
    assert!(interface_takes_keys(&KeyContext { form_closing: true, ..terminal() }));
    assert!(!interface_takes_keys(&KeyContext { ui_enabled: false, ..library() }));
}
