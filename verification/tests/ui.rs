use termviai::broadcast::BroadcastState;
use termviai::hosts::{Host, HostError, HostStore};
use termviai::ui::{
    action_hint, close_key_action, dialog_lines, host_form, rename_form, save_form, FormError, minimum_window_size, termviai_library_active, Action, CloseKeyAction,
    CloseKeyLatch, Form, Input, KeyCode, Modifiers, Page,
};

#[test]
fn library_pages_cover_the_terminal_only_with_the_interface_on() {
    assert!(termviai_library_active(true, Page::Hosts));
    assert!(termviai_library_active(true, Page::NewTab));
    assert!(!termviai_library_active(true, Page::Terminal));
    assert!(!termviai_library_active(false, Page::Keys));
}

#[test]
fn unicode_editing() {
    let mut input = Input::new("开发host".into());
    assert_eq!(input.cursor, 6);
    input.cursor = 2;
    input.insert("服务器");
    assert_eq!(input.value, "开发服务器host");
    input.delete(true);
    assert_eq!(input.value, "开发服务host");
    input.selected = true;
    input.insert("new\nname");
    assert_eq!(input.value, "newname");
    input.cursor = 0;
    input.delete(false);
    assert_eq!(input.value, "ewname");
}

#[test]
fn fields_hold_at_most_4096_characters() {
    let mut input = Input::new("a".repeat(4090));
    input.insert("0123456789");
    assert_eq!(input.value.chars().count(), 4096);
    assert!(input.value.ends_with("012345"));
    assert_eq!(input.cursor, 4096);
    input.insert("x");
    assert_eq!(input.value.chars().count(), 4096);
}

#[test]
fn deleting_at_the_ends_changes_nothing() {
    let mut input = Input::new("ab".into());
    input.delete(false);
    assert_eq!(input.value, "ab");
    input.cursor = 0;
    input.delete(true);
    assert_eq!(input.value, "ab");
    assert_eq!(input.cursor, 0);
}

#[test]
fn focused_fields_scroll_to_the_cursor() {
    let input = Input::new("abcdefghij".into());
    assert_eq!(input.display(false, 4), "abcd");
    assert_eq!(input.display(true, 4), "ij│");
    let mut start = Input::new("abcdefghij".into());
    start.cursor = 0;
    assert_eq!(start.display(true, 4), "│abcd");
    assert_eq!(Input::new("界".into()).display(true, 10), "界│");
}

fn form(fields: usize) -> Form {
    Form {
        fields: (0..fields).map(|_| Input::default()).collect(),
        focus: 0,
        key: false,
        original: None,
        rename_tab: None,
        settings: false,
        first_row: 0,
        reveal_focus: true,
    }
}

#[test]
fn keyboard_scrolling_reveals_the_focus() {
    for n in [2, 6] {
        let mut form = form(n);
        assert_eq!(form.visible_rows(2), 0..2);
        form.focus = n - 1;
        form.reveal_focus = true;
        assert_eq!(form.visible_rows(2), n - 2..n);
        // Scroll explicitly without focus snapping the viewport back.
        form.first_row = 0;
        assert_eq!(form.visible_rows(2), 0..2);
        form.reveal_focus = true;
        assert!(form.visible_rows(2).contains(&form.focus));
        // Growing the window exposes all fields and clamps the old offset.
        assert_eq!(form.visible_rows(8), 0..n);
    }
    let mut empty = form(0);
    assert_eq!(empty.visible_rows(0), 0..0);
}

#[test]
fn hints_follow_the_broadcast_state() {
    assert_eq!(action_hint(&Action::Edit(1), None), Some("Edit host"));
    assert_eq!(action_hint(&Action::Save, None), None);
    let mut state = BroadcastState::new(&[1, 2]);
    assert_eq!(
        action_hint(&Action::Member(1), Some(&state)),
        Some("Broadcast OFF · Selected for the next broadcast")
    );
    assert_eq!(action_hint(&Action::Broadcast, Some(&state)), Some("Start broadcast to selected hosts"));
    state.set_enabled(true);
    state.set_member(2, false).unwrap();
    assert_eq!(
        action_hint(&Action::Member(1), Some(&state)),
        Some("Broadcast ON · Click to use independent input")
    );
    assert_eq!(
        action_hint(&Action::Member(2), Some(&state)),
        Some("Independent input · Click to join broadcast")
    );
    assert_eq!(action_hint(&Action::Broadcast, Some(&state)), Some("Pause broadcast · Keep selected hosts"));
    state.select_none();
    assert_eq!(action_hint(&Action::Broadcast, Some(&state)), Some("Select hosts to enable broadcast"));
    assert_eq!(
        action_hint(&Action::Member(1), None),
        Some("Broadcast OFF · Click to select this session")
    );
}

#[test]
fn dialog_text_wraps_between_words() {
    assert_eq!(
        dialog_lines("All connections in this window will be disconnected.", 20),
        vec!["All connections in", "this window will be", "disconnected."]
    );
    assert_eq!(dialog_lines("  a  b\n c ", 3), vec!["a b", "c"]);
    assert_eq!(dialog_lines("averyveryverylongword x", 5), vec!["averyveryverylongword", "x"]);
    assert!(dialog_lines("   ", 10).is_empty());
}

#[test]
fn held_confirmation_keys_only_execute_on_the_matching_release() {
    for (key, focus, expected) in [
        (KeyCode::Char('\r'), true, CloseKeyAction::Accept),
        (KeyCode::Char('\u{1b}'), false, CloseKeyAction::Cancel),
    ] {
        let mut latch = CloseKeyLatch::default();
        for _ in 0..8 {
            assert_eq!(latch.event(&key, Modifiers::none(), true, focus), None);
            assert!(latch.pending.is_some());
        }
        assert_eq!(latch.event(&KeyCode::Char('x'), Modifiers::none(), false, focus), None);
        assert!(latch.pending.is_some());
        assert_eq!(latch.event(&key, Modifiers::none(), false, focus), Some(expected));
        assert!(latch.pending.is_none());
        assert_eq!(latch.event(&key, Modifiers::none(), false, focus), None);
    }
}

#[test]
fn close_confirmation_requires_explicit_focus_for_destructive_enter() {
    let ctrl = Modifiers { ctrl: true, ..Modifiers::none() };
    assert_eq!(close_key_action(&KeyCode::Char('\r'), Modifiers::none(), false), Some(CloseKeyAction::Cancel));
    assert_eq!(close_key_action(&KeyCode::Char('\t'), Modifiers::none(), false), Some(CloseKeyAction::Focus(true)));
    assert_eq!(close_key_action(&KeyCode::Char('\r'), Modifiers::none(), true), Some(CloseKeyAction::Accept));
    assert_eq!(close_key_action(&KeyCode::Char('\u{1b}'), Modifiers::none(), true), Some(CloseKeyAction::Cancel));
    for (key, mods) in [
        (KeyCode::Char('y'), Modifiers::none()),
        (KeyCode::Char('s'), ctrl),
        (KeyCode::Char('\r'), ctrl),
        (KeyCode::Composed("确认".into()), Modifiers::none()),
    ] {
        assert_eq!(close_key_action(&key, mods, true), None);
    }
}

#[test]
fn arrows_move_the_focus_and_move_keys_act_at_once() {
    assert_eq!(close_key_action(&KeyCode::LeftArrow, Modifiers::none(), true), Some(CloseKeyAction::Focus(false)));
    assert_eq!(close_key_action(&KeyCode::RightArrow, Modifiers::none(), false), Some(CloseKeyAction::Focus(true)));
    let shift = Modifiers { shift: true, ..Modifiers::none() };
    assert_eq!(close_key_action(&KeyCode::RightArrow, shift, false), None);
    let mut latch = CloseKeyLatch::default();
    assert_eq!(latch.event(&KeyCode::Char('\t'), Modifiers::none(), true, false), Some(CloseKeyAction::Focus(true)));
    assert!(latch.pending.is_none());
}

fn ipv6(text: &[char]) -> bool {
    text.iter().collect::<String>().parse::<core::net::Ipv6Addr>().is_ok()
}

fn set(form: &mut Form, field: usize, value: &str) {
    form.fields[field] = Input::new(value.into());
}

#[test]
fn host_forms_add_and_edit_hosts() {
    let mut store = HostStore::default();
    let mut form = host_form(false, None);
    assert_eq!(form.fields.len(), 6);
    assert_eq!(form.fields[2].value, "22");
    set(&mut form, 0, " web ");
    set(&mut form, 1, "example.org");
    set(&mut form, 3, "alice");
    save_form(&mut store, &form, &ipv6, &|_: &[char]| true).unwrap();
    assert_eq!(store.hosts.len(), 1);
    assert_eq!(store.hosts[0].label, "web");

    let original = store.hosts[0].clone();
    let mut edit = host_form(false, Some(original.clone()));
    assert_eq!(edit.fields[0].value, "web");
    set(&mut edit, 2, " 2222 ");
    save_form(&mut store, &edit, &ipv6, &|_: &[char]| true).unwrap();
    assert_eq!(store.hosts.len(), 1);
    assert_eq!(store.hosts[0].port, 2222);

    // The host changed since the form opened.
    assert_eq!(save_form(&mut store, &edit, &ipv6, &|_: &[char]| true), Err(FormError::Changed));
    let mut bad = host_form(false, None);
    set(&mut bad, 1, "example.org");
    set(&mut bad, 2, "70000");
    assert_eq!(save_form(&mut store, &bad, &ipv6, &|_: &[char]| true), Err(FormError::Port));
    set(&mut bad, 2, "22");
    set(&mut bad, 1, "a b");
    assert_eq!(
        save_form(&mut store, &bad, &ipv6, &|_: &[char]| true),
        Err(FormError::Host(HostError::InvalidAddress))
    );
    assert_eq!(store.hosts.len(), 1);
}

#[test]
fn key_forms_need_a_unique_name_and_an_existing_file() {
    let mut store = HostStore::default();
    let mut form = host_form(true, None);
    assert_eq!(form.fields.len(), 2);
    assert_eq!(save_form(&mut store, &form, &ipv6, &|_: &[char]| true), Err(FormError::KeyName));
    set(&mut form, 0, "laptop");
    set(&mut form, 1, " /keys/id ");
    assert_eq!(save_form(&mut store, &form, &ipv6, &|_: &[char]| false), Err(FormError::KeyFile));
    save_form(&mut store, &form, &ipv6, &|_: &[char]| true).unwrap();
    assert_eq!(store.keys[0].path, "/keys/id");
    assert_eq!(save_form(&mut store, &form, &ipv6, &|_: &[char]| true), Err(FormError::KeyExists));
    let rename = rename_form(4, "Prod".into());
    assert!(rename.fields[0].selected);
    assert_eq!(save_form(&mut store, &rename, &ipv6, &|_: &[char]| true), Err(FormError::WrongForm));
    assert_eq!(FormError::KeyExists.message(), "A key with this name already exists.");
    let _ = Host::default();
}

#[test]
fn the_cursor_moves_within_the_text_and_ends_the_selection() {
    let mut input = Input::new("abc".to_string());
    input.selected = true;
    input.move_left();
    assert_eq!((input.cursor, input.selected), (2, false));
    input.move_right();
    input.move_right();
    assert_eq!(input.cursor, 3);
    input.move_to_edge(false);
    assert_eq!(input.cursor, 0);
    input.move_left();
    assert_eq!(input.cursor, 0);
    input.move_to_edge(true);
    assert_eq!(input.cursor, 3);
    assert_eq!(input.value, "abc");
}

#[test]
fn tab_and_shift_tab_cycle_through_the_fields() {
    let mut form = host_form(false, None);
    let n = form.fields.len();
    assert!(n > 1);
    assert_eq!(form.focus, 0);
    form.focus_step(true);
    assert_eq!(form.focus, n - 1);
    form.focus_step(false);
    assert_eq!(form.focus, 0);
    form.focus_step(false);
    assert_eq!(form.focus, 1);
    assert!(form.reveal_focus);
}

#[test]
fn termviai_window_minimum_keeps_the_responsive_toolbar_usable() {
    let (width, height) = minimum_window_size();
    assert_eq!((width, height), (720, 480));
}

#[test]
fn drawer_layout_and_keyboard_scrolling() {
    for key in [false, true] {
        let mut form = Form {
            fields: (0..if key { 2 } else { 6 }).map(|_| Input::default()).collect(),
            focus: 0,
            key,
            original: None,
            rename_tab: None,
            settings: false,
            first_row: 0,
            reveal_focus: true,
        };
        let n = form.fields.len();
        assert_eq!(form.visible_rows(2), 0..2);
        form.focus = n - 1;
        form.reveal_focus = true;
        assert_eq!(form.visible_rows(2), n - 2..n);
        // Scroll explicitly without focus snapping the viewport back.
        form.first_row = 0;
        assert_eq!(form.visible_rows(2), 0..2);
        form.reveal_focus = true;
        assert!(form.visible_rows(2).contains(&form.focus));
        // Growing the window exposes all fields and clamps the old offset.
        assert_eq!(form.visible_rows(8), 0..n);
    }
}

#[test]
fn palette_and_unicode_editing() {
    let mut input = Input::new("\u{5f00}\u{53d1}host".into());
    input.cursor = 2;
    input.insert("\u{670d}\u{52a1}\u{5668}");
    assert_eq!(input.value, "\u{5f00}\u{53d1}\u{670d}\u{52a1}\u{5668}host");
    input.delete(true);
    assert_eq!(input.value, "\u{5f00}\u{53d1}\u{670d}\u{52a1}host");
    input.selected = true;
    input.insert("new\nname");
    assert_eq!(input.value, "newname");
    input.cursor = 0;
    input.delete(false);
    assert_eq!(input.value, "ewname");
}
