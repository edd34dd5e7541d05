//! Close confirmations. The target is captured when the card opens, so a later
//! tab switch or pane move cannot change what the user is confirming.
use vstd::prelude::*;
use crate::text::{append_chars, chars_of, decimal, decimal_chars, string_of};

verus! {

#[derive(Clone, Copy, Debug, PartialEq, Eq, Structural)]
pub enum CloseTarget {
    Pane { tab_id: usize, pane_id: usize },
    Tab(usize),
    Window,
    Application,
}

#[derive(Debug)]
pub struct ClosePrompt {
    pub title: String,
    pub detail: String,
    pub summary: String,
    pub confirm_label: String,
    pub target: CloseTarget,
    pub window_id: usize,
}

/// The confirmation card of one window. `visible` is where the card's
/// animation is heading: shown (`true`) or hidden (`false`).
#[derive(Debug)]
pub struct ConfirmState {
    pub prompt: Option<ClosePrompt>,
    pub visible: bool,
    pub closing: bool,
    pub focused_confirm: bool,
    pub quitting: bool,
}

pub open spec fn closing_label() -> Seq<char> {
    seq!['C', 'l', 'o', 's', 'i', 'n', 'g', '…']
}

pub open spec fn closing_detail() -> Seq<char> {
    "Closing all windows and connections…"@
}

impl ConfirmState {
    pub fn new() -> (state: Self)
        ensures
            state.prompt is None,
            !state.visible,
            !state.closing,
            !state.focused_confirm,
            !state.quitting,
    {
        ConfirmState { prompt: None, visible: false, closing: false, focused_confirm: false, quitting: false }
    }

    /// The modal input shield is retained through the exit animation.
    pub fn is_active(&self) -> (active: bool)
        ensures
            active == self.prompt is Some,
    {
        self.prompt.is_some()
    }

    /// Show a card; a card that is already up keeps its original prompt.
    pub fn open(&mut self, prompt: ClosePrompt)
        ensures
            old(self).prompt is Some ==> *final(self) == *old(self),
            old(self).prompt is None ==> {
                &&& final(self).prompt == Some(prompt)
                &&& !final(self).closing
                &&& !final(self).focused_confirm
                &&& !final(self).quitting
                &&& final(self).visible
            },
    {
        if self.is_active() {
            return ;
        }
        self.prompt = Some(prompt);
        self.closing = false;
        self.focused_confirm = false;
        self.quitting = false;
        self.visible = true;
    }

    /// Start hiding an open card; it stays modal until `settle`.
    pub fn dismiss(&mut self)
        ensures
            (old(self).prompt is Some && !old(self).closing) ==> {
                &&& final(self).closing
                &&& !final(self).visible
                &&& final(self).prompt == old(self).prompt
                &&& final(self).focused_confirm == old(self).focused_confirm
                &&& final(self).quitting == old(self).quitting
            },
            !(old(self).prompt is Some && !old(self).closing) ==> *final(self) == *old(self),
    {
        if self.is_active() && !self.closing {
            self.closing = true;
            self.visible = false;
        }
    }

    /// Accept the card at most once, returning the target captured when it
    /// opened. Quitting keeps the card up until the application exits.
    pub fn accept(&mut self) -> (accepted: Option<(CloseTarget, usize)>)
        ensures
            (old(self).closing || old(self).prompt is None) ==> accepted is None && *final(self)
                == *old(self),
            (!old(self).closing && old(self).prompt is Some) ==> {
                let prompt = old(self).prompt.unwrap();
                &&& accepted == Some((prompt.target, prompt.window_id))
                &&& final(self).closing
                &&& final(self).prompt is Some
                &&& final(self).prompt.unwrap().target == prompt.target
                &&& final(self).prompt.unwrap().window_id == prompt.window_id
                &&& final(self).focused_confirm == old(self).focused_confirm
                &&& if prompt.target == CloseTarget::Application {
                    &&& final(self).quitting
                    &&& final(self).visible
                    &&& final(self).prompt.unwrap().confirm_label@ == closing_label()
                    &&& final(self).prompt.unwrap().detail@ == closing_detail()
                    &&& final(self).prompt.unwrap().title == prompt.title
                    &&& final(self).prompt.unwrap().summary == prompt.summary
                } else {
                    &&& !final(self).visible
                    &&& final(self).quitting == old(self).quitting
                    &&& final(self).prompt == old(self).prompt
                }
            },
    {
        if self.closing {
            return None;
        }
        let (target, window_id) = match &self.prompt {
            Some(prompt) => (prompt.target, prompt.window_id),
            None => return None,
        };
        if target == CloseTarget::Application {
            self.quitting = true;
            self.closing = true;
            self.visible = true;
            let prompt = self.prompt.take();
            match prompt {
                Some(mut prompt) => {
                    let label: Vec<char> = vec!['C', 'l', 'o', 's', 'i', 'n', 'g', '…'];
                    prompt.confirm_label = string_of(label.as_slice());
                    proof {
                        reveal_strlit("Closing all windows and connections…");
                    }
                    prompt.detail = "Closing all windows and connections…".to_owned();
                    self.prompt = Some(prompt);
                },
                None => {},
            }
        } else {
            self.dismiss();
        }
        Some((target, window_id))
    }

    /// Remove a dismissed card once its exit animation has finished.
    pub fn settle(&mut self, animation_running: bool)
        ensures
            (old(self).closing && !old(self).quitting && !animation_running) ==> {
                &&& final(self).prompt is None
                &&& !final(self).closing
                &&& !final(self).focused_confirm
                &&& final(self).visible == old(self).visible
                &&& !final(self).quitting
            },
            !(old(self).closing && !old(self).quitting && !animation_running) ==> *final(self)
                == *old(self),
    {
        if self.closing && !self.quitting && !animation_running {
            self.prompt = None;
            self.closing = false;
            self.focused_confirm = false;
        }
    }
}

impl Default for ConfirmState {
    fn default() -> (state: Self)
        ensures
            state.prompt is None,
            !state.visible,
            !state.closing,
            !state.focused_confirm,
            !state.quitting,
    {
        Self::new()
    }
}

/// Quitting asks first only when connections are open and prompting is allowed.
pub fn quit_needs_confirmation(never_prompt: bool, has_connections: bool) -> (ask: bool)
    ensures
        ask == (!never_prompt && has_connections),
{
    !never_prompt && has_connections
}

/// "`count` `singular`", with an "s" unless the count is one.
pub open spec fn count_label_spec(count: nat, singular: Seq<char>) -> Seq<char> {
    decimal(count) + seq![' '] + singular + if count == 1 {
        Seq::<char>::empty()
    } else {
        seq!['s']
    }
}

pub fn count_label(count: usize, singular: &str) -> (label: String)
    ensures
        label@ == count_label_spec(count as nat, singular@),
{
    let mut chars = decimal_chars(count as u64);
    chars.push(' ');
    let word = chars_of(singular);
    append_chars(&mut chars, word.as_slice());
    if count != 1 {
        chars.push('s');
    }
    string_of(chars.as_slice())
}

/// Whether `target` still exists where it was when the card opened.
pub open spec fn target_is_current_spec(
    target: CloseTarget,
    expected_window: usize,
    current_window: usize,
    tabs: Seq<(usize, Vec<usize>)>,
) -> bool {
    match target {
        CloseTarget::Application => true,
        CloseTarget::Window => expected_window == current_window,
        CloseTarget::Tab(tab_id) => expected_window == current_window && exists|i: int|
            0 <= i < tabs.len() && #[trigger] tabs[i].0 == tab_id,
        CloseTarget::Pane { tab_id, pane_id } => expected_window == current_window && exists|i: int|
            0 <= i < tabs.len() && #[trigger] tabs[i].0 == tab_id && tabs[i].1@.contains(pane_id),
    }
}

/// Checking the whole ownership chain also rejects a pane moved into another
/// tab of this window, or a tab moved to a different window while the card is up.
pub fn target_is_current(
    target: CloseTarget,
    expected_window: usize,
    current_window: usize,
    tabs: &[(usize, Vec<usize>)],
) -> (current: bool)
    ensures
        current == target_is_current_spec(target, expected_window, current_window, tabs@),
{
    if target == CloseTarget::Application {
        return true;
    }
    if expected_window != current_window {
        return false;
    }
    match target {
        CloseTarget::Pane { tab_id, pane_id } => {
            let mut i: usize = 0;
            while i < tabs.len()
                invariant
                    i <= tabs.len(),
                    expected_window == current_window,
                    target == (CloseTarget::Pane { tab_id, pane_id }),
                    forall|k: int|
                        0 <= k < i ==> !(#[trigger] tabs@[k].0 == tab_id && tabs@[k].1@.contains(
                            pane_id,
                        )),
                decreases tabs.len() - i,
            {
                if tabs[i].0 == tab_id && crate::id_set::contains_id(&tabs[i].1, pane_id) {
                    assert(tabs@[i as int].0 == tab_id && tabs@[i as int].1@.contains(pane_id));
                    return true;
                }
                i = i + 1;
            }
            false
        },
        CloseTarget::Tab(tab_id) => {
            let mut i: usize = 0;
            while i < tabs.len()
                invariant
                    i <= tabs.len(),
                    expected_window == current_window,
                    target == CloseTarget::Tab(tab_id),
                    forall|k: int| 0 <= k < i ==> #[trigger] tabs@[k].0 != tab_id,
                decreases tabs.len() - i,
            {
                if tabs[i].0 == tab_id {
                    assert(tabs@[i as int].0 == tab_id);
                    return true;
                }
                i = i + 1;
            }
            false
        },
        _ => true,
    }
}

/// The texts of the card that asks before closing `target`. `label` names
/// the pane or tab; `connections` counts the connections that would close,
/// and `containers` the tabs of the window or the windows of the application.
pub open spec fn prompt_texts(target: CloseTarget, label: Seq<char>, connections: nat, containers: nat) -> (
    Seq<char>,
    Seq<char>,
    Seq<char>,
    Seq<char>,
) {
    match target {
        CloseTarget::Pane { .. } => (
            "Disconnect terminal?"@,
            "This terminal connection will be closed."@,
            "1 connection · "@ + label,
            "Disconnect"@,
        ),
        CloseTarget::Tab(_) => if connections > 1 {
            (
                "Close tab group?"@,
                "All connections in this group will be disconnected."@,
                count_label_spec(connections, "connection"@) + " · "@ + label,
                "Disconnect all"@,
            )
        } else {
            (
                "Close tab?"@,
                "The connection in this tab will be disconnected."@,
                count_label_spec(connections, "connection"@) + " · "@ + label,
                "Disconnect"@,
            )
        },
        CloseTarget::Window => (
            "Close window?"@,
            "All connections in this window will be disconnected."@,
            count_label_spec(connections, "connection"@) + " in "@ + count_label_spec(containers, "tab"@),
            "Close window"@,
        ),
        CloseTarget::Application => (
            "Quit TermViAI?"@,
            "All windows and connections will close."@,
            count_label_spec(connections, "connection"@) + " in "@ + count_label_spec(containers, "window"@),
            "Quit TermViAI"@,
        ),
    }
}

fn text(s: &str) -> (t: String)
    ensures
        t@ == s@,
{
    string_of(chars_of(s).as_slice())
}

fn joined(a: &str, b: &str, c: &str) -> (t: String)
    ensures
        t@ == a@ + b@ + c@,
{
    let mut out = chars_of(a);
    append_chars(&mut out, chars_of(b).as_slice());
    append_chars(&mut out, chars_of(c).as_slice());
    string_of(out.as_slice())
}

/// The card that asks before closing `target` in window `window_id`.
pub fn close_prompt(target: CloseTarget, window_id: usize, label: &str, connections: usize, containers: usize) -> (prompt: ClosePrompt)
    ensures
        ({
            let (title, detail, summary, confirm) = prompt_texts(target, label@, connections as nat, containers as nat);
            &&& prompt.title@ == title
            &&& prompt.detail@ == detail
            &&& prompt.summary@ == summary
            &&& prompt.confirm_label@ == confirm
            &&& prompt.target == target
            &&& prompt.window_id == window_id
        }),
{
    let (title, detail, summary, confirm_label) = match target {
        CloseTarget::Pane { .. } => (
            text("Disconnect terminal?"),
            text("This terminal connection will be closed."),
            joined("1 connection · ", label, ""),
            text("Disconnect"),
        ),
        CloseTarget::Tab(_) => {
            let count = count_label(connections, "connection");
            let summary = joined(count.as_str(), " · ", label);
            if connections > 1 {
                (
                    text("Close tab group?"),
                    text("All connections in this group will be disconnected."),
                    summary,
                    text("Disconnect all"),
                )
            } else {
                (
                    text("Close tab?"),
                    text("The connection in this tab will be disconnected."),
                    summary,
                    text("Disconnect"),
                )
            }
        },
        CloseTarget::Window => {
            let count = count_label(connections, "connection");
            let tabs = count_label(containers, "tab");
            (
                text("Close window?"),
                text("All connections in this window will be disconnected."),
                joined(count.as_str(), " in ", tabs.as_str()),
                text("Close window"),
            )
        },
        CloseTarget::Application => {
            let count = count_label(connections, "connection");
            let windows = count_label(containers, "window");
            (
                text("Quit TermViAI?"),
                text("All windows and connections will close."),
                joined(count.as_str(), " in ", windows.as_str()),
                text("Quit TermViAI"),
            )
        },
    };
    proof {
        reveal_strlit("");
        assert(label@ + ""@ =~= label@);
    }
    ClosePrompt { title, detail, summary, confirm_label, target, window_id }
}

} // verus!
