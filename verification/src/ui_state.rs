//! The state of the interface that its actions change: the page shown, the
//! search field, the open drawer form, the scrolled lists and the split that
//! waits for a host. Animations and the terminals stay with the window.
use vstd::prelude::*;
use crate::hosts::Host;
use crate::ui::{host_form, rename_form, Action, Form, Input, Page};

verus! {

broadcast use vstd::string::group_string_axioms;

pub struct UiState {
    pub page: Page,
    pub query: Input,
    pub search_focus: bool,
    /// The host group the list shows; empty for all.
    pub group: String,
    pub form: Option<Form>,
    /// A form sliding out of view, which takes no more input.
    pub closing_form: Option<Form>,
    pub sidebar_expanded: bool,
    pub error: String,
    pub scroll: usize,
    pub tab_scroll: usize,
    pub group_scroll: usize,
    pub pane_scroll: usize,
    /// Counts changes of what input goes to; a late paste checks it.
    pub generation: u64,
    /// A pane (tab, pane, below) waiting to be split for the next host.
    pub split_target: Option<(usize, usize, bool)>,
    pub connecting: bool,
    pub new_tab_open: bool,
    /// The tab whose menu is open.
    pub tab_menu: Option<usize>,
    pub tray_expanded: bool,
}

/// What the window still has to do once the interface state took an action.
#[derive(Debug, Clone, Copy, PartialEq, Eq, Structural)]
pub enum ActionEffect {
    /// Nothing more.
    Done,
    /// Read the host list again.
    ReloadHosts,
    /// Read the workspace library; when it was read, `library_loaded` follows.
    LoadWorkspaces,
    /// The window carries the action out itself.
    Window,
}

/// Which field typing goes to.
#[derive(Debug, Clone, Copy, PartialEq, Eq, Structural)]
pub enum InputTarget {
    Nothing,
    /// The focused field of the open form.
    Field(usize),
    /// The search field.
    Query,
}

pub open spec fn empty_input(input: Input) -> bool {
    input.value@ == Seq::<char>::empty() && input.cursor == 0 && !input.selected
}

/// `s` without its form, a new input generation begun.
pub open spec fn discarded(s: UiState) -> UiState {
    UiState { form: None, closing_form: None, generation: (s.generation + 1) as u64, ..s }
}

/// `s` with its form sliding out and a new input generation begun (the
/// error is cleared as well).
pub open spec fn closed(s: UiState) -> UiState {
    UiState {
        form: None,
        closing_form: if s.form is Some { s.form } else { s.closing_form },
        generation: (s.generation + 1) as u64,
        ..s
    }
}

pub open spec fn cleared_error(s: UiState) -> bool {
    s.error@ == Seq::<char>::empty()
}

impl UiState {
    /// The state of a new window: the host list, its search field focused,
    /// the sidebar and the broadcast tray expanded, and `error` from reading
    /// the hosts.
    pub fn new(error: String) -> (s: Self)
        ensures
            s.page == Page::Hosts,
            empty_input(s.query),
            s.search_focus,
            s.group@ == Seq::<char>::empty(),
            s.form is None && s.closing_form is None,
            s.sidebar_expanded && s.tray_expanded,
            s.error == error,
            s.scroll == 0 && s.tab_scroll == 0 && s.group_scroll == 0 && s.pane_scroll == 0,
            s.generation == 0,
            s.split_target is None && !s.connecting && !s.new_tab_open && s.tab_menu is None,
    {
        UiState {
            page: Page::Hosts,
            query: Input::default(),
            search_focus: true,
            group: String::new(),
            form: None,
            closing_form: None,
            sidebar_expanded: true,
            error,
            scroll: 0,
            tab_scroll: 0,
            group_scroll: 0,
            pane_scroll: 0,
            generation: 0,
            split_target: None,
            connecting: false,
            new_tab_open: false,
            tab_menu: None,
            tray_expanded: true,
        }
    }

    /// Drop the form at once.
    pub fn discard_form(&mut self)
        requires
            old(self).generation < u64::MAX,
        ensures
            *final(self) == discarded(*old(self)),
    {
        self.form = None;
        self.closing_form = None;
        self.generation = self.generation + 1;
    }

    /// Let the form slide out of view.
    pub fn close_form(&mut self)
        requires
            old(self).generation < u64::MAX,
        ensures
            cleared_error(*final(self)),
            *final(self) == (UiState { error: final(self).error, ..closed(*old(self)) }),
    {
        let form = self.form.take();
        if form.is_some() {
            self.closing_form = form;
        }
        self.generation = self.generation + 1;
        self.error = String::new();
    }

    /// Open the form that adds a host, adds a key (`key`) or edits `host`.
    pub fn open_form(&mut self, key: bool, host: Option<Host>)
        requires
            old(self).generation < u64::MAX,
        ensures
            final(self).form matches Some(f) && f.key == key && f.original == host && f.rename_tab is None
                && !f.settings,
            final(self).closing_form is None,
            cleared_error(*final(self)),
            final(self).generation == old(self).generation + 1,
            *final(self) == (UiState {
                form: final(self).form,
                closing_form: None,
                error: final(self).error,
                generation: final(self).generation,
                ..*old(self)
            }),
    {
        self.closing_form = None;
        self.form = Some(host_form(key, host));
        self.error = String::new();
        self.generation = self.generation + 1;
    }

    /// Open the form that renames tab `tab_id`, its name `name` selected.
    pub fn open_rename(&mut self, tab_id: usize, name: String)
        requires
            old(self).generation < u64::MAX,
        ensures
            final(self).form matches Some(f) && f.rename_tab == Some(tab_id) && f.fields@.len() == 1
                && f.fields@[0].value == name && f.fields@[0].selected,
            final(self).closing_form is None,
            final(self).tab_menu is None,
            cleared_error(*final(self)),
            *final(self) == (UiState {
                form: final(self).form,
                error: final(self).error,
                tab_menu: None,
                ..discarded(*old(self))
            }),
    {
        self.discard_form();
        self.form = Some(rename_form(tab_id, name));
        self.tab_menu = None;
        self.error = String::new();
    }

    /// Open the settings form with the font size (as shown) and the SSH
    /// keepalive interval (in decimal), the first selected.
    pub fn open_settings(&mut self, font_size: String, keepalive: String)
        requires
            old(self).generation < u64::MAX,
        ensures
            final(self).form matches Some(f) && f.settings && !f.key && f.rename_tab is None && f.original is None
                && f.fields@.len() == 2 && f.fields@[0].value == font_size && f.fields@[0].selected
                && f.fields@[1].value == keepalive && f.focus == 0 && f.reveal_focus,
            final(self).tab_menu is None,
            cleared_error(*final(self)),
            *final(self) == (UiState {
                form: final(self).form,
                error: final(self).error,
                tab_menu: None,
                ..discarded(*old(self))
            }),
    {
        self.discard_form();
        let mut size_field = Input::new(font_size);
        size_field.selected = true;
        let mut fields: Vec<Input> = Vec::new();
        fields.push(size_field);
        fields.push(Input::new(keepalive));
        self.form = Some(
            Form {
                fields,
                focus: 0,
                key: false,
                original: None,
                rename_tab: None,
                settings: true,
                first_row: 0,
                reveal_focus: true,
            },
        );
        self.tab_menu = None;
        self.error = String::new();
    }

    /// Which field typing goes to: none while a form slides out, the focused
    /// field of the form, the search field when it has the focus.
    pub fn input_target(&self) -> (target: InputTarget)
        ensures
            target == if self.closing_form is Some {
                InputTarget::Nothing
            } else if self.form is Some {
                InputTarget::Field(self.form->Some_0.focus)
            } else if self.search_focus {
                InputTarget::Query
            } else {
                InputTarget::Nothing
            },
    {
        if self.closing_form.is_some() {
            return InputTarget::Nothing;
        }
        match &self.form {
            Some(f) => InputTarget::Field(f.focus),
            None => if self.search_focus {
                InputTarget::Query
            } else {
                InputTarget::Nothing
            },
        }
    }

    /// Show the host list (or the key list) from its top, unfiltered, with
    /// the search field focused; a pending split is dropped.
    pub fn show_library(&mut self, keys: bool)
        requires
            old(self).generation < u64::MAX,
        ensures
            final(self).page == if keys { Page::Keys } else { Page::Hosts },
            final(self).split_target is None,
            final(self).group@ == Seq::<char>::empty(),
            final(self).scroll == 0,
            empty_input(final(self).query),
            final(self).search_focus,
            *final(self) == (UiState {
                page: final(self).page,
                split_target: None,
                group: final(self).group,
                scroll: 0,
                query: final(self).query,
                search_focus: true,
                ..discarded(*old(self))
            }),
    {
        self.split_target = None;
        self.page = if keys { Page::Keys } else { Page::Hosts };
        self.discard_form();
        self.group = String::new();
        self.scroll = 0;
        self.query = Input::default();
        self.search_focus = true;
    }

    /// Show the new-tab page from its top, the search field focused.
    pub fn show_new_tab(&mut self)
        requires
            old(self).generation < u64::MAX,
        ensures
            empty_input(final(self).query),
            *final(self) == (UiState {
                split_target: None,
                new_tab_open: true,
                page: Page::NewTab,
                query: final(self).query,
                search_focus: true,
                scroll: 0,
                ..discarded(*old(self))
            }),
    {
        self.discard_form();
        self.split_target = None;
        self.new_tab_open = true;
        self.page = Page::NewTab;
        self.query = Input::default();
        self.search_focus = true;
        self.scroll = 0;
    }

    /// The workspace library was read: the tab list scrolls to its end.
    pub fn library_loaded(&mut self)
        ensures
            *final(self) == (UiState { tab_scroll: usize::MAX, ..*old(self) }),
    {
        self.tab_scroll = usize::MAX;
    }

    /// Put the key file `path` into the identity field of an open host form
    /// and focus it; other forms are left alone.
    pub fn use_key(&mut self, path: String)
        requires
            (match old(self).form {
                Some(f) => !f.key && !f.settings && f.rename_tab is None ==> f.fields@.len() > 5,
                None => true,
            }),
        ensures
            match old(self).form {
                Some(f) => if !f.key && !f.settings && f.rename_tab is None {
                    final(self).form matches Some(g) && g.fields@ == f.fields@.update(5, g.fields@[5])
                        && g.fields@[5].value == path && g.fields@[5].cursor == path@.len()
                        && !g.fields@[5].selected && g.focus == 5 && g.reveal_focus && g.key == f.key
                        && g.settings == f.settings && g.rename_tab == f.rename_tab && g.original == f.original
                        && g.first_row == f.first_row
                } else {
                    final(self).form == old(self).form
                },
                None => final(self).form is None,
            },
            *final(self) == (UiState { form: final(self).form, ..*old(self) }),
    {
        match &mut self.form {
            Some(f) => {
                if !f.key && !f.settings && f.rename_tab.is_none() {
                    f.fields.set(5, Input::new(path));
                    f.focus = 5;
                    f.reveal_focus = true;
                }
            },
            None => {},
        }
    }

    /// Show the terminal of a tab that was chosen: a pending split and the
    /// form are dropped.
    pub fn show_tab(&mut self)
        requires
            old(self).generation < u64::MAX,
        ensures
            *final(self) == (UiState { page: Page::Terminal, split_target: None, ..discarded(*old(self)) }),
    {
        self.page = Page::Terminal;
        self.split_target = None;
        self.discard_form();
    }

    /// Ask for a host to open beside pane `pane` of tab `tab` (below it for
    /// `vertical`): the host list opens and the split waits. Refused while a
    /// connection is still opening.
    pub fn start_split(&mut self, tab: usize, pane: usize, vertical: bool) -> (started: bool)
        requires
            old(self).generation < u64::MAX - 1,
        ensures
            started == !old(self).connecting,
            !started ==> *final(self) == *old(self),
            started ==> {
                &&& final(self).page == Page::Hosts
                &&& final(self).split_target == Some((tab, pane, vertical))
                &&& final(self).generation == old(self).generation + 2
                &&& final(self).form is None && final(self).closing_form is None
                &&& final(self).scroll == 0 && final(self).search_focus
                &&& empty_input(final(self).query)
                &&& final(self).group@ == Seq::<char>::empty()
            },
    {
        if self.connecting {
            return false;
        }
        self.generation = self.generation + 1;
        self.show_library(false);
        self.split_target = Some((tab, pane, vertical));
        true
    }

    /// Take `action` as far as the interface state goes, and say what the
    /// window still has to do. A new input generation begins with every
    /// action.
    pub fn act(&mut self, action: &Action, has_active_tab: bool) -> (effect: ActionEffect)
        requires
            old(self).generation < u64::MAX - 1,
            *action == Action::NextMember ==> old(self).pane_scroll < usize::MAX,
            *action == Action::NextTab ==> old(self).tab_scroll < usize::MAX,
            *action == Action::NextGroup ==> old(self).group_scroll < usize::MAX,
        ensures
            ({
                let s = UiState { generation: (old(self).generation + 1) as u64, ..*old(self) };
                match *action {
                    Action::ToggleSidebar => effect == ActionEffect::Window && *final(self) == (UiState {
                        sidebar_expanded: !s.sidebar_expanded,
                        ..s
                    }),
                    Action::ToggleTray => effect == ActionEffect::Window && *final(self) == (UiState {
                        tray_expanded: !s.tray_expanded,
                        ..s
                    }),
                    Action::Hosts | Action::Keys => {
                        &&& effect == ActionEffect::ReloadHosts
                        &&& final(self).page == if *action == Action::Hosts { Page::Hosts } else { Page::Keys }
                        &&& final(self).group@ == Seq::<char>::empty()
                        &&& empty_input(final(self).query)
                        &&& *final(self) == (UiState {
                            page: final(self).page,
                            split_target: None,
                            group: final(self).group,
                            scroll: 0,
                            query: final(self).query,
                            search_focus: true,
                            ..discarded(s)
                        })
                    },
                    Action::NewTab => {
                        &&& effect == ActionEffect::LoadWorkspaces
                        &&& empty_input(final(self).query)
                        &&& *final(self) == (UiState {
                            split_target: None,
                            new_tab_open: true,
                            page: Page::NewTab,
                            query: final(self).query,
                            search_focus: true,
                            scroll: 0,
                            ..discarded(s)
                        })
                    },
                    Action::CloseNewTab => effect == ActionEffect::Done && *final(self) == (UiState {
                        new_tab_open: false,
                        page: if has_active_tab { Page::Terminal } else { Page::Hosts },
                        ..s
                    }),
                    Action::SaveWorkspace(_) => effect == ActionEffect::Window && *final(self) == (UiState {
                        tab_menu: None,
                        ..s
                    }),
                    Action::DismissMenu => effect == ActionEffect::Done && *final(self) == (UiState {
                        tab_menu: None,
                        ..s
                    }),
                    Action::PrevMember => effect == ActionEffect::Done && *final(self) == (UiState {
                        pane_scroll: if s.pane_scroll > 0 { (s.pane_scroll - 1) as usize } else { 0 },
                        ..s
                    }),
                    Action::NextMember => effect == ActionEffect::Done && *final(self) == (UiState {
                        pane_scroll: (s.pane_scroll + 1) as usize,
                        ..s
                    }),
                    Action::PrevTab => effect == ActionEffect::Done && *final(self) == (UiState {
                        tab_scroll: if s.tab_scroll > 0 { (s.tab_scroll - 1) as usize } else { 0 },
                        ..s
                    }),
                    Action::NextTab => effect == ActionEffect::Done && *final(self) == (UiState {
                        tab_scroll: (s.tab_scroll + 1) as usize,
                        ..s
                    }),
                    Action::PrevGroup => effect == ActionEffect::Done && *final(self) == (UiState {
                        group_scroll: if s.group_scroll > 0 { (s.group_scroll - 1) as usize } else { 0 },
                        ..s
                    }),
                    Action::NextGroup => effect == ActionEffect::Done && *final(self) == (UiState {
                        group_scroll: (s.group_scroll + 1) as usize,
                        ..s
                    }),
                    Action::TabBroadcast(_) | Action::Broadcast | Action::BroadcastAll | Action::BroadcastNone
                    | Action::Member(_) => effect == ActionEffect::Window && cleared_error(*final(self))
                        && *final(self) == (UiState { error: final(self).error, ..s }),
                    Action::AddHost | Action::AddKey => {
                        &&& effect == ActionEffect::Done
                        &&& final(self).form matches Some(f) && f.key == (*action == Action::AddKey)
                            && f.original is None && f.rename_tab is None && !f.settings
                        &&& final(self).closing_form is None
                        &&& cleared_error(*final(self))
                        &&& *final(self) == (UiState {
                            form: final(self).form,
                            closing_form: None,
                            error: final(self).error,
                            generation: (s.generation + 1) as u64,
                            ..s
                        })
                    },
                    Action::Cancel => effect == ActionEffect::Done && cleared_error(*final(self)) && *final(self)
                        == (UiState { error: final(self).error, ..closed(s) }),
                    Action::Field(i) => effect == ActionEffect::Done && *final(self) == (UiState {
                        form: match s.form {
                            Some(f) => Some(Form { focus: i, reveal_focus: true, ..f }),
                            None => None,
                        },
                        ..s
                    }),
                    Action::Search => effect == ActionEffect::Done && *final(self) == (UiState {
                        search_focus: true,
                        ..s
                    }),
                    Action::Group(g) => effect == ActionEffect::Done && *final(self) == (UiState {
                        group: g,
                        scroll: 0,
                        ..s
                    }),
                    Action::CancelSplit => effect == ActionEffect::Done && *final(self) == (UiState {
                        split_target: None,
                        page: Page::Terminal,
                        ..s
                    }),
                    Action::ConfirmCard | Action::Drag | Action::Drawer => effect == ActionEffect::Done
                        && *final(self) == s,
                    _ => effect == ActionEffect::Window && *final(self) == s,
                }
            }),
    {
        self.generation = self.generation + 1;
        match action {
            Action::ToggleSidebar => {
                self.sidebar_expanded = !self.sidebar_expanded;
                ActionEffect::Window
            },
            Action::ToggleTray => {
                self.tray_expanded = !self.tray_expanded;
                ActionEffect::Window
            },
            Action::Hosts => {
                self.show_library(false);
                ActionEffect::ReloadHosts
            },
            Action::Keys => {
                self.show_library(true);
                ActionEffect::ReloadHosts
            },
            Action::NewTab => {
                self.show_new_tab();
                ActionEffect::LoadWorkspaces
            },
            Action::CloseNewTab => {
                self.new_tab_open = false;
                self.page = if has_active_tab { Page::Terminal } else { Page::Hosts };
                ActionEffect::Done
            },
            Action::SaveWorkspace(_) => {
                self.tab_menu = None;
                ActionEffect::Window
            },
            Action::DismissMenu => {
                self.tab_menu = None;
                ActionEffect::Done
            },
            Action::PrevMember => {
                self.pane_scroll = self.pane_scroll.saturating_sub(1);
                ActionEffect::Done
            },
            Action::NextMember => {
                self.pane_scroll = self.pane_scroll + 1;
                ActionEffect::Done
            },
            Action::PrevTab => {
                self.tab_scroll = self.tab_scroll.saturating_sub(1);
                ActionEffect::Done
            },
            Action::NextTab => {
                self.tab_scroll = self.tab_scroll + 1;
                ActionEffect::Done
            },
            Action::PrevGroup => {
                self.group_scroll = self.group_scroll.saturating_sub(1);
                ActionEffect::Done
            },
            Action::NextGroup => {
                self.group_scroll = self.group_scroll + 1;
                ActionEffect::Done
            },
            Action::TabBroadcast(_) | Action::Broadcast | Action::BroadcastAll | Action::BroadcastNone
            | Action::Member(_) => {
                self.error = String::new();
                ActionEffect::Window
            },
            Action::AddHost => {
                self.open_form(false, None);
                ActionEffect::Done
            },
            Action::AddKey => {
                self.open_form(true, None);
                ActionEffect::Done
            },
            Action::Cancel => {
                self.close_form();
                ActionEffect::Done
            },
            Action::Field(i) => {
                match &mut self.form {
                    Some(f) => {
                        f.focus = *i;
                        f.reveal_focus = true;
                    },
                    None => {},
                }
                ActionEffect::Done
            },
            Action::Search => {
                self.search_focus = true;
                ActionEffect::Done
            },
            Action::Group(g) => {
                self.group = g.clone();
                self.scroll = 0;
                ActionEffect::Done
            },
            Action::CancelSplit => {
                self.split_target = None;
                self.page = Page::Terminal;
                ActionEffect::Done
            },
            Action::ConfirmCard | Action::Drag | Action::Drawer => ActionEffect::Done,
            _ => ActionEffect::Window,
        }
    }
}

} // verus!
