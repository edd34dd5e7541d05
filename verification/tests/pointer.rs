use termviai::pointer::scroll_by;
use termviai::ui::{host_form, Action, Page};
use termviai::ui_state::UiState;

#[test]
fn a_wheel_turn_moves_at_least_one_row_and_stops_at_both_ends() {
    assert_eq!(scroll_by(5, 2, 10), 3);
    assert_eq!(scroll_by(1, 3, 10), 0);
    assert_eq!(scroll_by(5, 0, 10), 6);
    assert_eq!(scroll_by(9, -3, 10), 10);
    assert_eq!(scroll_by(12, -1, 10), 10);
    assert_eq!(scroll_by(usize::MAX - 1, -4, usize::MAX), usize::MAX);
}

#[test]
fn the_library_page_scrolls_up_to_its_last_row() {
    let mut state = UiState::new(String::new());
    state.scroll = 2;
    assert!(state.wheel(-5, false, false, 0, 4));
    assert_eq!(state.scroll, 4);
    assert!(state.wheel(1, false, false, 0, 4));
    assert_eq!(state.scroll, 3);
}

#[test]
fn the_tray_scrolls_only_on_the_terminal_page() {
    let mut state = UiState::new(String::new());
    state.page = Page::Terminal;
    assert!(state.wheel(-2, true, false, 0, 0));
    assert_eq!(state.pane_scroll, 2);
    assert!(!state.wheel(-2, false, false, 0, 0));
    assert_eq!((state.pane_scroll, state.scroll), (2, 0));
}

#[test]
fn an_open_drawer_scrolls_its_rows_and_a_closing_one_takes_nothing() {
    let mut state = UiState::new(String::new());
    let fields = host_form(false, None).fields.len();
    state.form = Some(host_form(false, None));
    assert!(!state.wheel(-1, false, false, 2, 9));
    assert_eq!(state.scroll, 0);
    assert!(state.wheel(-100, false, true, 2, 9));
    let form = state.form.take().unwrap();
    assert_eq!(form.first_row, fields - 2);
    assert!(!form.reveal_focus);
    state.closing_form = Some(form);
    assert!(!state.wheel(-1, false, false, 0, 9));
    assert_eq!(state.scroll, 0);
}

#[test]
fn a_right_click_on_a_tab_opens_its_menu() {
    let mut state = UiState::new(String::new());
    let generation = state.generation;
    assert!(!state.right_press(&Some(Action::Hosts)));
    assert!(!state.right_press(&None));
    assert_eq!((state.tab_menu, state.generation), (None, generation));
    assert!(state.right_press(&Some(Action::TabBroadcast(4))));
    assert_eq!((state.tab_menu, state.generation), (Some(4), generation + 1));
}
