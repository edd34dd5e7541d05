use termviai::confirm::{
    close_prompt, count_label, quit_needs_confirmation, target_is_current, ClosePrompt, CloseTarget, ConfirmState,
};

fn prompt(target: CloseTarget) -> ClosePrompt {
    ClosePrompt {
        title: "Close tab?".into(),
        detail: "Disconnect this connection.".into(),
        summary: "host-label · 1 connection".into(),
        confirm_label: "Disconnect".into(),
        target,
        window_id: 5,
    }
}

#[test]
fn empty_application_can_quit_but_connections_in_other_windows_require_confirmation() {
    assert!(!quit_needs_confirmation(false, false));
    assert!(quit_needs_confirmation(false, true));
    assert!(!quit_needs_confirmation(true, true));
    assert!(!quit_needs_confirmation(true, false));
}

// The card's animation is represented by where it is heading (`visible`) and
// by whether it is still running when the card settles.
#[test]
fn cancel_keeps_input_modal_until_exit_finishes() {
    let mut state = ConfirmState::default();
    state.open(prompt(CloseTarget::Tab(11)));
    assert!(state.is_active());
    assert!(!state.focused_confirm);
    assert!(state.visible);
    state.dismiss();
    state.settle(true);
    assert!(state.is_active());
    assert!(state.closing);
    assert!(state.accept().is_none());
    state.settle(false);
    assert!(!state.is_active());
    assert!(!state.closing);
}

#[test]
fn accepting_is_once_only_and_keeps_the_original_target() {
    let mut state = ConfirmState::default();
    state.open(prompt(CloseTarget::Tab(11)));
    state.open(prompt(CloseTarget::Tab(22)));
    assert_eq!(state.accept(), Some((CloseTarget::Tab(11), 5)));
    assert!(state.accept().is_none());
    state.settle(false);
    state.open(prompt(CloseTarget::Tab(22)));
    assert_eq!(state.accept(), Some((CloseTarget::Tab(22), 5)));
}

#[test]
fn accepted_quit_stays_visible_and_modal_until_the_application_exits() {
    let mut state = ConfirmState::default();
    state.open(prompt(CloseTarget::Application));
    assert_eq!(state.accept(), Some((CloseTarget::Application, 5)));
    state.settle(false);
    assert!(state.is_active());
    assert!(state.closing);
    assert!(state.visible);
    assert_eq!(state.prompt.as_ref().unwrap().confirm_label, "Closing…");
    state.dismiss();
    assert!(state.accept().is_none());
    assert!(state.visible);
}

#[test]
fn cancelled_quit_exits_normally_and_restores_input() {
    let mut state = ConfirmState::default();
    state.open(prompt(CloseTarget::Application));
    state.dismiss();
    state.settle(false);
    assert!(!state.is_active());
    assert!(!state.closing);
    assert!(!state.visible);
}

#[test]
fn target_check_rejects_a_pane_moved_to_another_tab_or_window() {
    let target = CloseTarget::Pane { tab_id: 11, pane_id: 3 };
    let original = vec![(11, vec![3, 4]), (22, vec![6])];
    assert!(target_is_current(target, 5, 5, &original));
    assert!(!target_is_current(target, 5, 9, &original));
    let moved = vec![(11, vec![4]), (22, vec![3, 6])];
    assert!(!target_is_current(target, 5, 5, &moved));
    assert!(!target_is_current(target, 5, 5, &[]));
}

#[test]
fn tab_target_does_not_depend_on_order_or_active_tab() {
    let tabs = vec![(22, vec![4]), (11, vec![3])];
    assert!(target_is_current(CloseTarget::Tab(11), 5, 5, &tabs));
    assert!(!target_is_current(CloseTarget::Tab(11), 5, 5, &tabs[..1]));
    assert!(!target_is_current(CloseTarget::Window, 5, 9, &tabs));
    assert!(target_is_current(CloseTarget::Window, 5, 5, &[]));
}

#[test]
fn application_target_is_always_current() {
    assert!(target_is_current(CloseTarget::Application, 5, 9, &[]));
}

#[test]
fn counts_use_the_plural_except_for_one() {
    assert_eq!(count_label(0, "connection"), "0 connections");
    assert_eq!(count_label(1, "tab"), "1 tab");
    assert_eq!(count_label(12, "window"), "12 windows");
}

#[test]
fn prompts_describe_what_closes() {
    let pane = close_prompt(CloseTarget::Pane { tab_id: 1, pane_id: 2 }, 7, "db", 1, 1);
    assert_eq!(pane.title, "Disconnect terminal?");
    assert_eq!(pane.detail, "This terminal connection will be closed.");
    assert_eq!(pane.summary, "1 connection · db");
    assert_eq!(pane.confirm_label, "Disconnect");
    assert_eq!(pane.window_id, 7);
    let group = close_prompt(CloseTarget::Tab(1), 7, "web + 2 hosts", 3, 1);
    assert_eq!(group.title, "Close tab group?");
    assert_eq!(group.summary, "3 connections · web + 2 hosts");
    assert_eq!(group.confirm_label, "Disconnect all");
    let single = close_prompt(CloseTarget::Tab(1), 7, "web", 1, 1);
    assert_eq!(single.title, "Close tab?");
    assert_eq!(single.detail, "The connection in this tab will be disconnected.");
    assert_eq!(single.confirm_label, "Disconnect");
    let window = close_prompt(CloseTarget::Window, 7, "", 4, 2);
    assert_eq!(window.summary, "4 connections in 2 tabs");
    assert_eq!(window.confirm_label, "Close window");
    let quit = close_prompt(CloseTarget::Application, 7, "", 1, 1);
    assert_eq!(quit.title, "Quit TermViAI?");
    assert_eq!(quit.summary, "1 connection in 1 window");
    assert_eq!(quit.confirm_label, "Quit TermViAI");
}
