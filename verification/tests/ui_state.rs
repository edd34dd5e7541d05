use termviai::ui::{Action, Page};
use termviai::ui_state::{ActionEffect, InputTarget, UiState};

#[test]
fn a_new_window_shows_the_host_list_with_search_focused() {
    let state = UiState::new("could not read hosts".to_string());
    assert_eq!(state.page, Page::Hosts);
    assert!(state.search_focus && state.sidebar_expanded && state.tray_expanded);
    assert_eq!(state.error, "could not read hosts");
    assert_eq!(state.input_target(), InputTarget::Query);
}

#[test]
fn library_pages_start_unfiltered_and_drop_a_pending_split() {
    let mut state = UiState::new(String::new());
    state.page = Page::Terminal;
    state.group = "prod".to_string();
    state.scroll = 7;
    state.query.value = "web".to_string();
    assert!(state.start_split(3, 9, true));
    assert_eq!(state.split_target, Some((3, 9, true)));
    assert_eq!(state.page, Page::Hosts);
    assert_eq!((state.group.as_str(), state.scroll, state.query.value.as_str()), ("", 0, ""));
    assert_eq!(state.act(&Action::Keys, true), ActionEffect::ReloadHosts);
    assert_eq!(state.page, Page::Keys);
    assert_eq!(state.split_target, None);
    state.connecting = true;
    let generation = state.generation;
    assert!(!state.start_split(1, 2, false));
    assert_eq!(state.generation, generation);
}

#[test]
fn forms_open_slide_out_and_take_typing() {
    let mut state = UiState::new(String::new());
    assert_eq!(state.act(&Action::AddHost, false), ActionEffect::Done);
    assert_eq!(state.form.as_ref().unwrap().fields.len(), 6);
    assert_eq!(state.act(&Action::Field(2), false), ActionEffect::Done);
    assert_eq!(state.input_target(), InputTarget::Field(2));
    state.use_key("/home/alice/.ssh/id_ed25519".to_string());
    assert_eq!(state.input_target(), InputTarget::Field(5));
    assert_eq!(state.form.as_ref().unwrap().fields[5].value, "/home/alice/.ssh/id_ed25519");
    state.error = "bad port".to_string();
    assert_eq!(state.act(&Action::Cancel, false), ActionEffect::Done);
    assert!(state.form.is_none() && state.closing_form.is_some());
    assert_eq!(state.error, "");
    assert_eq!(state.input_target(), InputTarget::Nothing);
    state.open_rename(4, "build".to_string());
    let form = state.form.as_ref().unwrap();
    assert_eq!(form.rename_tab, Some(4));
    assert!(form.fields[0].selected);
    assert!(state.closing_form.is_none());
    state.open_settings("12.0".to_string(), "30".to_string());
    let form = state.form.as_ref().unwrap();
    assert!(form.settings);
    assert_eq!((form.fields[0].value.as_str(), form.fields[1].value.as_str()), ("12.0", "30"));
}

#[test]
fn scrolling_lists_stop_at_the_top_and_the_new_tab_page_scrolls_to_its_end() {
    let mut state = UiState::new(String::new());
    assert_eq!(state.act(&Action::PrevTab, false), ActionEffect::Done);
    assert_eq!(state.tab_scroll, 0);
    state.act(&Action::NextGroup, false);
    state.act(&Action::NextGroup, false);
    state.act(&Action::PrevGroup, false);
    assert_eq!(state.group_scroll, 1);
    assert_eq!(state.act(&Action::NewTab, false), ActionEffect::LoadWorkspaces);
    assert!(state.new_tab_open);
    assert_eq!(state.page, Page::NewTab);
    state.library_loaded();
    assert_eq!(state.tab_scroll, usize::MAX);
    assert_eq!(state.act(&Action::CloseNewTab, false), ActionEffect::Done);
    assert_eq!(state.page, Page::Hosts);
    assert_eq!(state.act(&Action::Minimize, false), ActionEffect::Window);
    let before = state.generation;
    state.act(&Action::Drag, false);
    assert_eq!(state.generation, before + 1);
}

fn type_into(state: &mut UiState, text: &str) {
    match state.input_target() {
        InputTarget::Field(i) => state.form.as_mut().unwrap().fields[i].insert(text),
        InputTarget::Query => state.query.insert(text),
        InputTarget::Nothing => panic!("no field takes input"),
    }
}

#[test]
fn sidebar_toggle_preserves_page_and_animates_both_directions() {
    let mut ui = UiState::new(String::new());
    ui.page = Page::Keys;
    ui.act(&Action::ToggleSidebar, true);
    assert!(ui.page == Page::Keys);
    assert!(!ui.sidebar_expanded);
    ui.act(&Action::ToggleSidebar, true);
    assert!(ui.page == Page::Keys);
    assert!(ui.sidebar_expanded);
}

#[test]
fn settings_drawer_keeps_session_and_exposes_keepalive() {
    let mut ui = UiState::new(String::new());
    ui.page = Page::Terminal;
    ui.open_settings(format!("{:.1}", 13.0), 30.to_string());
    assert!(ui.page == Page::Terminal);
    let form = ui.form.as_ref().unwrap();
    assert!(form.settings);
    assert_eq!(form.fields.len(), 2);
    assert_eq!(form.fields[1].value, "30");
    type_into(&mut ui, "16");
    assert_eq!(ui.form.as_ref().unwrap().fields[0].value, "16");
    ui.close_form();
    assert_eq!(ui.input_target(), InputTarget::Nothing);
    assert!(ui.page == Page::Terminal);
}

#[test]
fn rename_drawer_accepts_one_name_without_switching_the_terminal_page() {
    let mut ui = UiState::new(String::new());
    ui.page = Page::Terminal;
    ui.open_rename(42, "209 + 212".into());
    assert!(ui.page == Page::Terminal);
    let form = ui.form.as_ref().unwrap();
    assert_eq!(form.rename_tab, Some(42));
    assert_eq!(form.fields.len(), 1);
    type_into(&mut ui, "Production");
    assert_eq!(ui.form.as_ref().unwrap().fields[0].value, "Production");
    ui.close_form();
    assert_eq!(ui.input_target(), InputTarget::Nothing);
    assert!(ui.page == Page::Terminal);
}

#[test]
fn closing_drawer_discards_input_target_and_can_be_reopened() {
    let mut ui = UiState::new(String::new());
    ui.open_form(false, None);
    type_into(&mut ui, "unsaved host");
    let generation = ui.generation;
    ui.close_form();
    assert!(ui.form.is_none());
    assert!(ui.closing_form.is_some());
    assert_eq!(ui.input_target(), InputTarget::Nothing);
    assert!(ui.generation > generation);
    ui.open_form(true, None);
    assert!(ui.closing_form.is_none());
    assert!(ui.form.as_ref().unwrap().key);
    match ui.input_target() {
        InputTarget::Field(i) => assert!(ui.form.as_ref().unwrap().fields[i].value.is_empty()),
        _ => panic!("the form takes input"),
    }
    ui.discard_form();
    assert!(ui.closing_form.is_none());
}
