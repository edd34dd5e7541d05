//! The library pages and drawer forms of the interface: text fields, form
//! scrolling, hover hints and dialog text wrapping.
use vstd::prelude::*;
use crate::broadcast::BroadcastState;
use crate::hosts::{
    answers, ipv6_consulted, key_consulted, unbracketed, validated, Host, HostError, HostFields, HostStore,
    KeyFile,
};
use crate::text::{
    append_chars, char_is_control, char_is_space, chars_of, decimal, decimal_chars, is_control, is_space, parse_u16,
    parse_u16_spec, same_chars, slice_chars, string_of, trim_chars, trimmed,
};
use crate::workspaces::{first_index, lemma_first_index_at, lemma_first_index_bounds};

verus! {

broadcast use vstd::string::group_string_axioms;

pub const MIN_WINDOW_WIDTH: usize = 720;
pub const MIN_WINDOW_HEIGHT: usize = 480;
/// The most characters a text field holds.
pub const MAX_FIELD_CHARS: usize = 4096;

/// The smallest window, in logical pixels, that keeps the toolbar usable.
pub fn minimum_window_size() -> (size: (usize, usize))
    ensures
        size == (MIN_WINDOW_WIDTH, MIN_WINDOW_HEIGHT),
{
    (MIN_WINDOW_WIDTH, MIN_WINDOW_HEIGHT)
}

/// What the main area shows.
#[derive(Clone, Copy, Debug, PartialEq, Eq, Structural)]
pub enum Page {
    Hosts,
    Keys,
    NewTab,
    Terminal,
}

/// A library page covers the terminals while the interface is on.
pub fn termviai_library_active(ui_enabled: bool, page: Page) -> (active: bool)
    ensures
        active == (ui_enabled && page != Page::Terminal),
{
    ui_enabled && page != Page::Terminal
}

/// A single-line text field: its text, the cursor as a character index, and
/// whether the whole text is selected (typing then replaces it).
pub struct Input {
    pub value: String,
    pub cursor: usize,
    pub selected: bool,
}

impl Default for Input {
    fn default() -> (input: Self)
        ensures
            input.value@ == Seq::<char>::empty(),
            input.cursor == 0,
            !input.selected,
    {
        Input { value: String::new(), cursor: 0, selected: false }
    }
}

/// The characters of `text` that a field accepts: all but control characters.
pub open spec fn typed(text: Seq<char>) -> Seq<char> {
    text.filter(|c: char| !is_control(c))
}

/// The text a field holds before typing: nothing when all of it is selected.
pub open spec fn base_text(input: Input) -> Seq<char> {
    if input.selected { Seq::empty() } else { input.value@ }
}

pub open spec fn base_cursor(input: Input) -> int {
    if input.selected { 0 } else { input.cursor as int }
}

/// The typed characters that still fit into the field.
pub open spec fn accepted(input: Input, text: Seq<char>) -> Seq<char> {
    let room = if base_text(input).len() < MAX_FIELD_CHARS { MAX_FIELD_CHARS - base_text(input).len() } else { 0 };
    typed(text).take(if typed(text).len() < room { typed(text).len() as int } else { room as int })
}

/// What a focused or unfocused field shows in `capacity` characters: the
/// text scrolled to keep the cursor in view, with a bar at the cursor.
pub open spec fn shown(value: Seq<char>, cursor: int, focused: bool, capacity: int) -> Seq<char> {
    let keep = if capacity >= 2 { capacity - 2 } else { 0 };
    let start = if focused && cursor > keep { cursor - keep } else { 0 };
    let rest = if start < value.len() { value.skip(start) } else { Seq::empty() };
    let text = if rest.len() <= capacity { rest } else { rest.take(capacity) };
    if focused {
        let at = if cursor - start < text.len() { cursor - start } else { text.len() as int };
        text.take(at).push('│') + text.skip(at)
    } else {
        text
    }
}

impl Input {
    /// A field holding `value`, with the cursor after its last character.
    pub fn new(value: String) -> (input: Self)
        ensures
            input.value == value,
            input.cursor == value@.len(),
            !input.selected,
    {
        let chars = chars_of(value.as_str());
        let cursor = chars.len();
        Input { value, cursor, selected: false }
    }

    /// Type `text` at the cursor. Control characters are dropped, and the
    /// field keeps at most 4096 characters; a selection is replaced.
    pub fn insert(&mut self, text: &str)
        requires
            old(self).selected || old(self).cursor <= old(self).value@.len(),
        ensures
            final(self).value@ == base_text(*old(self)).take(base_cursor(*old(self))) + accepted(*old(self), text@)
                + base_text(*old(self)).skip(base_cursor(*old(self))),
            final(self).cursor == base_cursor(*old(self)) + accepted(*old(self), text@).len(),
            !final(self).selected,
    {
        if self.selected {
            self.value = String::new();
            self.cursor = 0;
            self.selected = false;
        }
        let chars = chars_of(self.value.as_str());
        let room: usize = if chars.len() < MAX_FIELD_CHARS { MAX_FIELD_CHARS - chars.len() } else { 0 };
        let incoming = chars_of(text);
        let ghost wanted = typed(text@);
        let ghost pred = |c: char| !is_control(c);
        let mut added: Vec<char> = Vec::new();
        let mut i: usize = 0;
        while i < incoming.len() && added.len() < room
            invariant
                i <= incoming.len(),
                incoming@ == text@,
                pred == (|c: char| !is_control(c)),
                added@ == incoming@.subrange(0, i as int).filter(pred),
                added.len() <= room,
            decreases incoming.len() - i,
        {
            let c = incoming[i];
            proof {
                assert(incoming@.subrange(0, i + 1) =~= incoming@.subrange(0, i as int).push(c));
                incoming@.subrange(0, i as int).lemma_filter_push(c, pred);
            }
            if !char_is_control(c) {
                added.push(c);
            }
            i = i + 1;
        }
        proof {
            lemma_filter_prefix(incoming@, pred, i as int);
            if i < incoming.len() {
                assert(added.len() == room);
            } else {
                assert(incoming@.subrange(0, i as int) =~= incoming@);
            }
            assert(added@ =~= wanted.take(added@.len() as int));
        }
        let n = added.len();
        let mut next = slice_chars(chars.as_slice(), 0, self.cursor);
        append_chars(&mut next, added.as_slice());
        let tail = slice_chars(chars.as_slice(), self.cursor, chars.len());
        append_chars(&mut next, tail.as_slice());
        self.value = string_of(next.as_slice());
        self.cursor = self.cursor + n;
    }

    /// Delete the character before (`back`) or after the cursor; with a
    /// selection, clear the field.
    pub fn delete(&mut self, back: bool)
        requires
            old(self).selected || old(self).cursor <= old(self).value@.len(),
        ensures
            old(self).selected ==> final(self).value@ == Seq::<char>::empty() && final(self).cursor == 0,
            !old(self).selected && back && old(self).cursor > 0 ==> {
                &&& final(self).value@ == old(self).value@.remove(old(self).cursor - 1)
                &&& final(self).cursor == old(self).cursor - 1
            },
            !old(self).selected && !back && old(self).cursor < old(self).value@.len() ==> {
                &&& final(self).value@ == old(self).value@.remove(old(self).cursor as int)
                &&& final(self).cursor == old(self).cursor
            },
            !old(self).selected && (if back { old(self).cursor == 0 } else { old(self).cursor == old(self).value@.len() })
                ==> final(self).value@ == old(self).value@ && final(self).cursor == old(self).cursor,
            !final(self).selected,
    {
        if self.selected {
            self.value = String::new();
            self.cursor = 0;
            self.selected = false;
            return;
        }
        let mut chars = chars_of(self.value.as_str());
        if back && self.cursor > 0 {
            self.cursor = self.cursor - 1;
            chars.remove(self.cursor);
        } else if !back && self.cursor < chars.len() {
            chars.remove(self.cursor);
        }
        self.value = string_of(chars.as_slice());
    }

    /// Move the cursor one character left, ending the selection.
    pub fn move_left(&mut self)
        ensures
            final(self).value == old(self).value,
            final(self).cursor == if old(self).cursor > 0 { old(self).cursor - 1 } else { 0 },
            !final(self).selected,
    {
        self.cursor = self.cursor.saturating_sub(1);
        self.selected = false;
    }

    /// Move the cursor one character right, at most past the last one,
    /// ending the selection.
    pub fn move_right(&mut self)
        ensures
            final(self).value == old(self).value,
            final(self).cursor == if old(self).cursor + 1 <= old(self).value@.len() {
                old(self).cursor + 1
            } else {
                old(self).value@.len() as int
            },
            !final(self).selected,
    {
        let count = chars_of(self.value.as_str()).len();
        self.cursor = if self.cursor < count { self.cursor + 1 } else { count };
        self.selected = false;
    }

    /// Move the cursor before the first character (`end` false) or after the
    /// last one, ending the selection.
    pub fn move_to_edge(&mut self, end: bool)
        ensures
            final(self).value == old(self).value,
            final(self).cursor == if end { old(self).value@.len() as int } else { 0 },
            !final(self).selected,
    {
        self.cursor = if end { chars_of(self.value.as_str()).len() } else { 0 };
        self.selected = false;
    }

    /// The text to draw in `capacity` characters; focused fields scroll to
    /// the cursor and show it as a bar.
    pub fn display(&self, focused: bool, capacity: usize) -> (text: String)
        ensures
            text@ == shown(self.value@, self.cursor as int, focused, capacity as int),
    {
        let chars = chars_of(self.value.as_str());
        let keep: usize = if capacity >= 2 { capacity - 2 } else { 0 };
        let start: usize = if focused && self.cursor > keep { self.cursor - keep } else { 0 };
        let rest = if start < chars.len() { slice_chars(chars.as_slice(), start, chars.len()) } else { Vec::new() };
        let text = if rest.len() <= capacity { rest } else { slice_chars(rest.as_slice(), 0, capacity) };
        proof {
            if start < chars@.len() {
                assert(rest@ =~= chars@.skip(start as int));
            }
            if rest@.len() > capacity {
                assert(text@ =~= rest@.take(capacity as int));
            }
        }
        if focused {
            let at: usize = if self.cursor - start < text.len() { self.cursor - start } else { text.len() };
            let mut out = slice_chars(text.as_slice(), 0, at);
            out.push('│');
            let after = slice_chars(text.as_slice(), at, text.len());
            append_chars(&mut out, after.as_slice());
            proof {
                assert(after@ =~= text@.skip(at as int));
                assert(out@ =~= text@.take(at as int).push('│') + text@.skip(at as int));
            }
            string_of(out.as_slice())
        } else {
            string_of(text.as_slice())
        }
    }
}

/// Filtering a prefix keeps a prefix of the filtered sequence.
proof fn lemma_filter_prefix(s: Seq<char>, pred: spec_fn(char) -> bool, i: int)
    requires
        0 <= i <= s.len(),
    ensures
        s.subrange(0, i).filter(pred) =~= s.filter(pred).take(s.subrange(0, i).filter(pred).len() as int),
        s.subrange(0, i).filter(pred).len() <= s.filter(pred).len(),
    decreases s.len() - i,
{
    if i < s.len() {
        lemma_filter_prefix(s, pred, i + 1);
        assert(s.subrange(0, i + 1) =~= s.subrange(0, i).push(s[i]));
        s.subrange(0, i).lemma_filter_push(s[i], pred);
    } else {
        assert(s.subrange(0, i) =~= s);
    }
}

/// A drawer form: its fields, the focused field, and the first field row in
/// view. `reveal_focus` asks the next layout to scroll the focus into view.
pub struct Form {
    pub fields: Vec<Input>,
    pub focus: usize,
    pub key: bool,
    pub original: Option<Host>,
    pub rename_tab: Option<usize>,
    pub settings: bool,
    pub first_row: usize,
    pub reveal_focus: bool,
}

/// The first row in view after scrolling `focus` into a view of `count` rows
/// that starts at `first`.
pub open spec fn revealed(first: int, focus: int, count: int) -> int {
    if focus < first {
        focus
    } else if focus >= first + count {
        focus + 1 - count
    } else {
        first
    }
}

/// The first row of a view of `count` rows over `len` fields: `first`, or the
/// last full view.
pub open spec fn clamped_first(first: int, len: int, count: int) -> int {
    let max = if len > count { len - count } else { 0 };
    if first < max { first } else { max }
}

impl Form {
    /// Focus the next field, or the previous one, going round at the ends;
    /// the next layout scrolls it into view.
    pub fn focus_step(&mut self, backwards: bool)
        requires
            old(self).fields.len() > 0,
            old(self).focus < old(self).fields.len(),
        ensures
            final(self).focus == if backwards {
                (old(self).focus + old(self).fields.len() - 1) % (old(self).fields.len() as int)
            } else {
                (old(self).focus + 1) % (old(self).fields.len() as int)
            },
            final(self).reveal_focus,
            final(self).fields == old(self).fields,
            final(self).first_row == old(self).first_row,
    {
        let n = self.fields.len();
        let focus = self.focus;
        self.focus = if backwards {
            if focus == 0 { n - 1 } else { focus - 1 }
        } else {
            (focus + 1) % n
        };
        proof {
            if backwards {
                if focus == 0 {
                    assert((focus + n - 1) % (n as int) == n - 1) by (nonlinear_arith)
                        requires
                            focus == 0,
                            n > 0,
                    ;
                } else {
                    assert((focus + n - 1) % (n as int) == focus - 1) by (nonlinear_arith)
                        requires
                            0 < focus < n,
                    ;
                }
            }
        }
        self.reveal_focus = true;
    }

    /// The field rows shown in a view of `count` rows (at least one). The
    /// focused field is scrolled into view once after it changes, and the
    /// view never starts past the last full page.
    pub fn visible_rows(&mut self, count: usize) -> (rows: std::ops::Range<usize>)
        requires
            old(self).reveal_focus ==> old(self).focus < usize::MAX,
            old(self).reveal_focus ==> old(self).first_row + (if count == 0 { 1 } else { count as int }) <= usize::MAX,
        ensures
            ({
                let count = if count == 0 { 1 } else { count as int };
                let first = if old(self).reveal_focus {
                    revealed(old(self).first_row as int, old(self).focus as int, count)
                } else {
                    old(self).first_row as int
                };
                let start = clamped_first(first, old(self).fields@.len() as int, count);
                &&& final(self).first_row == start
                &&& rows.start == start
                &&& rows.end == if start + count < old(self).fields@.len() { start + count } else { old(self).fields@.len() as int }
            }),
            !final(self).reveal_focus,
            final(self).fields == old(self).fields,
            final(self).focus == old(self).focus,
            final(self).key == old(self).key,
            final(self).original == old(self).original,
            final(self).rename_tab == old(self).rename_tab,
            final(self).settings == old(self).settings,
    {
        let count: usize = if count == 0 { 1 } else { count };
        let max: usize = if self.fields.len() > count { self.fields.len() - count } else { 0 };
        if self.reveal_focus {
            if self.focus < self.first_row {
                self.first_row = self.focus;
            } else if self.focus >= self.first_row + count {
                self.first_row = self.focus + 1 - count;
            }
            self.reveal_focus = false;
        }
        if self.first_row > max {
            self.first_row = max;
        }
        let end: usize = if self.first_row + count < self.fields.len() { self.first_row + count } else { self.fields.len() };
        self.first_row..end
    }
}

/// What a click on an element of the interface does.
#[derive(Clone, Debug, PartialEq, Eq, Hash)]
pub enum Action {
    ToggleSidebar,
    Hosts,
    Keys,
    Settings,
    NewTab,
    CloseNewTab,
    TabBroadcast(usize),
    ToggleTray,
    PrevMember,
    NextMember,
    RenameTab(usize),
    SaveWorkspace(usize),
    OpenSaved(String),
    OpenHistory(String),
    ConnectRecent(usize),
    DismissMenu,
    ConfirmDismiss,
    ConfirmCard,
    ConfirmCancel,
    ConfirmAccept,
    AddHost,
    AddKey,
    Cancel,
    Save,
    Connect(usize),
    QuickConnect,
    Edit(usize),
    Field(usize),
    Search,
    Group(String),
    UseKey(usize),
    Tab(usize),
    CloseTab(usize),
    PrevTab,
    NextTab,
    PrevGroup,
    NextGroup,
    Minimize,
    Maximize,
    Close,
    Drag,
    Drawer,
    AddSsh(bool),
    CancelSplit,
    Broadcast,
    BroadcastAll,
    BroadcastNone,
    Member(usize),
    ReconnectPane(usize),
    ReconnectGroup(usize),
    RemovePane(usize),
    FocusPane(usize),
}

/// The hover hint of an action; broadcast hints depend on the tab's group.
pub open spec fn hint_text(action: Action, group: Option<BroadcastState<usize>>) -> Option<Seq<char>> {
    match action {
        Action::Edit(_) => Some("Edit host"@),
        Action::Member(id) => Some(
            match group {
                Some(state) => if state.is_on() && state.member_set().contains(id) {
                    "Broadcast ON · Click to use independent input"@
                } else if state.is_on() {
                    "Independent input · Click to join broadcast"@
                } else if state.member_set().contains(id) {
                    "Broadcast OFF · Selected for the next broadcast"@
                } else {
                    "Broadcast OFF · Click to select this session"@
                },
                None => "Broadcast OFF · Click to select this session"@,
            },
        ),
        Action::TabBroadcast(_) => Some("Turn broadcast on / off for every session in this tab"@),
        Action::ToggleTray => Some("Show / hide broadcast controls"@),
        Action::Broadcast => Some(
            match group {
                Some(state) => if state.is_on() {
                    "Pause broadcast · Keep selected hosts"@
                } else if state.member_set().len() == 0 {
                    "Select hosts to enable broadcast"@
                } else {
                    "Start broadcast to selected hosts"@
                },
                None => "Start broadcast to selected hosts"@,
            },
        ),
        Action::ReconnectPane(_) => Some("Reconnect this SSH session"@),
        Action::ReconnectGroup(_) => Some("Reconnect all SSH sessions in this tab"@),
        _ => None,
    }
}

/// The hover hint of `action`, if it has one.
pub fn action_hint(action: &Action, broadcast: Option<&BroadcastState<usize>>) -> (hint: Option<&'static str>)
    requires
        broadcast matches Some(state) ==> state.wf(),
    ensures
        match hint_text(*action, match broadcast { Some(state) => Some(*state), None => None }) {
            Some(text) => hint matches Some(h) && h@ == text,
            None => hint is None,
        },
{
    match action {
        Action::Edit(_) => Some("Edit host"),
        Action::Member(id) => Some(
            match broadcast {
                Some(state) => if state.enabled() && state.is_member(*id) {
                    "Broadcast ON · Click to use independent input"
                } else if state.enabled() {
                    "Independent input · Click to join broadcast"
                } else if state.is_member(*id) {
                    "Broadcast OFF · Selected for the next broadcast"
                } else {
                    "Broadcast OFF · Click to select this session"
                },
                None => "Broadcast OFF · Click to select this session",
            },
        ),
        Action::TabBroadcast(_) => Some("Turn broadcast on / off for every session in this tab"),
        Action::ToggleTray => Some("Show / hide broadcast controls"),
        Action::Broadcast => Some(
            match broadcast {
                Some(state) => if state.enabled() {
                    "Pause broadcast · Keep selected hosts"
                } else if state.member_count() == 0 {
                    "Select hosts to enable broadcast"
                } else {
                    "Start broadcast to selected hosts"
                },
                None => "Start broadcast to selected hosts",
            },
        ),
        Action::ReconnectPane(_) => Some("Reconnect this SSH session"),
        Action::ReconnectGroup(_) => Some("Reconnect all SSH sessions in this tab"),
        _ => None,
    }
}

/// Reading `s` left to right: the words finished so far and the word being
/// read. A word is a maximal run of characters that are not white space.
pub open spec fn scan_words(s: Seq<char>) -> (Seq<Seq<char>>, Seq<char>)
    decreases s.len(),
{
    if s.len() == 0 {
        (Seq::empty(), Seq::empty())
    } else {
        let (done, current) = scan_words(s.drop_last());
        let c = s.last();
        if !is_space(c) {
            (done, current.push(c))
        } else if current.len() > 0 {
            (done.push(current), Seq::empty())
        } else {
            (done, current)
        }
    }
}

/// The words of `s`, as `str::split_whitespace` gives them.
pub open spec fn words(s: Seq<char>) -> Seq<Seq<char>> {
    let (done, current) = scan_words(s);
    if current.len() > 0 { done.push(current) } else { done }
}

/// Filling lines of at most `columns` characters with `words`, separated by
/// one space: the full lines and the line being filled. A word longer than a
/// line gets a line of its own.
pub open spec fn fill_lines(words: Seq<Seq<char>>, columns: int) -> (Seq<Seq<char>>, Seq<char>)
    decreases words.len(),
{
    if words.len() == 0 {
        (Seq::empty(), Seq::empty())
    } else {
        let (lines, line) = fill_lines(words.drop_last(), columns);
        let word = words.last();
        let (lines, line) = if line.len() > 0 && line.len() + word.len() + 1 > columns {
            (lines.push(line), Seq::<char>::empty())
        } else {
            (lines, line)
        };
        let line = if line.len() > 0 { line.push(' ') } else { line };
        (lines, line + word)
    }
}

/// The lines of a dialog text wrapped to `columns` characters.
pub open spec fn wrapped(text: Seq<char>, columns: int) -> Seq<Seq<char>> {
    let (lines, line) = fill_lines(words(text), columns);
    if line.len() > 0 { lines.push(line) } else { lines }
}

fn split_words(s: &[char]) -> (found: Vec<Vec<char>>)
    ensures
        found@.len() == words(s@).len(),
        forall|k: int| 0 <= k < found@.len() ==> (#[trigger] found@[k])@ == words(s@)[k],
        forall|k: int| 0 <= k < found@.len() ==> (#[trigger] found@[k])@.len() <= s@.len(),
{
    let mut done: Vec<Vec<char>> = Vec::new();
    let mut current: Vec<char> = Vec::new();
    let mut i: usize = 0;
    while i < s.len()
        invariant
            i <= s.len(),
            done@.len() == scan_words(s@.subrange(0, i as int)).0.len(),
            forall|k: int| 0 <= k < done@.len() ==> (#[trigger] done@[k])@ == scan_words(s@.subrange(0, i as int)).0[k],
            forall|k: int| 0 <= k < done@.len() ==> (#[trigger] done@[k])@.len() <= i,
            current@ == scan_words(s@.subrange(0, i as int)).1,
            current@.len() <= i,
        decreases s.len() - i,
    {
        let ghost next = s@.subrange(0, i + 1);
        assert(next.drop_last() =~= s@.subrange(0, i as int));
        let c = s[i];
        if !char_is_space(c) {
            current.push(c);
        } else if current.len() > 0 {
            let word = current;
            current = Vec::new();
            done.push(word);
        }
        i = i + 1;
    }
    assert(s@.subrange(0, s.len() as int) =~= s@);
    if current.len() > 0 {
        done.push(current);
    }
    done
}

/// `text` wrapped into lines of at most `columns` characters, breaking
/// between words; a longer word takes a line of its own.
pub fn dialog_lines(text: &str, columns: usize) -> (lines: Vec<String>)
    ensures
        lines@.len() == wrapped(text@, columns as int).len(),
        forall|k: int| 0 <= k < lines@.len() ==> (#[trigger] lines@[k])@ == wrapped(text@, columns as int)[k],
{
    let chars = chars_of(text);
    let all = split_words(chars.as_slice());
    let ghost ws = words(text@);
    let mut lines: Vec<String> = Vec::new();
    let mut line: Vec<char> = Vec::new();
    let mut i: usize = 0;
    while i < all.len()
        invariant
            i <= all.len(),
            chars@ == text@,
            ws == words(text@),
            all@.len() == ws.len(),
            forall|k: int| 0 <= k < all@.len() ==> (#[trigger] all@[k])@ == ws[k],
            forall|k: int| 0 <= k < all@.len() ==> (#[trigger] all@[k])@.len() <= text@.len(),
            lines@.len() == fill_lines(ws.subrange(0, i as int), columns as int).0.len(),
            forall|k: int| 0 <= k < lines@.len() ==> (#[trigger] lines@[k])@ == fill_lines(ws.subrange(0, i as int), columns as int).0[k],
            line@ == fill_lines(ws.subrange(0, i as int), columns as int).1,
        decreases all.len() - i,
    {
        let ghost next = ws.subrange(0, i + 1);
        assert(next.drop_last() =~= ws.subrange(0, i as int));
        let word = &all[i];
        assert(word@ == next.last());
        if line.len() > 0 && (line.len() >= columns || word.len() >= columns - line.len()) {
            let full = string_of(line.as_slice());
            lines.push(full);
            line = Vec::new();
        }
        if line.len() > 0 {
            line.push(' ');
        }
        append_chars(&mut line, word.as_slice());
        i = i + 1;
    }
    assert(ws.subrange(0, all.len() as int) =~= ws);
    if line.len() > 0 {
        lines.push(string_of(line.as_slice()));
    }
    lines
}

/// A key of the keyboard, as far as the interface tells keys apart.
#[derive(Clone, Debug, PartialEq, Eq)]
pub enum KeyCode {
    Char(char),
    /// Text composed by an input method.
    Composed(String),
    LeftArrow,
    RightArrow,
    Home,
    End,
    /// Any other key, by a number of the platform's.
    Other(u32),
}

/// The modifier keys held with a key.
#[derive(Clone, Copy, Debug, PartialEq, Eq, Structural)]
pub struct Modifiers {
    pub shift: bool,
    pub ctrl: bool,
    pub alt: bool,
    pub super_key: bool,
}

impl Modifiers {
    pub fn none() -> (mods: Self)
        ensures
            !mods.shift && !mods.ctrl && !mods.alt && !mods.super_key,
    {
        Modifiers { shift: false, ctrl: false, alt: false, super_key: false }
    }
}

pub open spec fn no_modifiers(mods: Modifiers) -> bool {
    !mods.shift && !mods.ctrl && !mods.alt && !mods.super_key
}

/// Control, Alt or the platform key is held.
pub open spec fn command_modifiers(mods: Modifiers) -> bool {
    mods.ctrl || mods.alt || mods.super_key
}

/// Whether two keys are the same key.
pub open spec fn same_key(a: KeyCode, b: KeyCode) -> bool {
    match (a, b) {
        (KeyCode::Char(x), KeyCode::Char(y)) => x == y,
        (KeyCode::Composed(x), KeyCode::Composed(y)) => x@ == y@,
        (KeyCode::LeftArrow, KeyCode::LeftArrow) => true,
        (KeyCode::RightArrow, KeyCode::RightArrow) => true,
        (KeyCode::Home, KeyCode::Home) => true,
        (KeyCode::End, KeyCode::End) => true,
        (KeyCode::Other(x), KeyCode::Other(y)) => x == y,
        _ => false,
    }
}

pub fn keys_match(a: &KeyCode, b: &KeyCode) -> (same: bool)
    ensures
        same == same_key(*a, *b),
{
    match (a, b) {
        (KeyCode::Char(x), KeyCode::Char(y)) => *x == *y,
        (KeyCode::Composed(x), KeyCode::Composed(y)) => *x == *y,
        (KeyCode::LeftArrow, KeyCode::LeftArrow) => true,
        (KeyCode::RightArrow, KeyCode::RightArrow) => true,
        (KeyCode::Home, KeyCode::Home) => true,
        (KeyCode::End, KeyCode::End) => true,
        (KeyCode::Other(x), KeyCode::Other(y)) => *x == *y,
        _ => false,
    }
}

fn copy_key(key: &KeyCode) -> (copy: KeyCode)
    ensures
        same_key(copy, *key),
{
    match key {
        KeyCode::Char(c) => KeyCode::Char(*c),
        KeyCode::Composed(s) => KeyCode::Composed(s.clone()),
        KeyCode::LeftArrow => KeyCode::LeftArrow,
        KeyCode::RightArrow => KeyCode::RightArrow,
        KeyCode::Home => KeyCode::Home,
        KeyCode::End => KeyCode::End,
        KeyCode::Other(n) => KeyCode::Other(*n),
    }
}

/// What a key does to an open close confirmation.
#[derive(Clone, Copy, Debug, PartialEq, Eq, Structural)]
pub enum CloseKeyAction {
    Cancel,
    Accept,
    /// Focus the confirm button (`true`) or the cancel button.
    Focus(bool),
}

/// Escape cancels; Tab moves the focus to the other button and the arrows to
/// the button on their side; Return and Space press the focused button, so
/// a destructive confirmation needs the focus moved to it first.
pub open spec fn close_key_spec(key: KeyCode, mods: Modifiers, focused_confirm: bool) -> Option<CloseKeyAction> {
    match key {
        KeyCode::Char(c) => if c == '\u{1b}' {
            Some(CloseKeyAction::Cancel)
        } else if c == '\t' && !command_modifiers(mods) {
            Some(CloseKeyAction::Focus(!focused_confirm))
        } else if (c == '\r' || c == ' ') && !command_modifiers(mods) {
            Some(if focused_confirm { CloseKeyAction::Accept } else { CloseKeyAction::Cancel })
        } else {
            None
        },
        KeyCode::LeftArrow => if no_modifiers(mods) { Some(CloseKeyAction::Focus(false)) } else { None },
        KeyCode::RightArrow => if no_modifiers(mods) { Some(CloseKeyAction::Focus(true)) } else { None },
        _ => None,
    }
}

pub fn close_key_action(key: &KeyCode, mods: Modifiers, focused_confirm: bool) -> (action: Option<CloseKeyAction>)
    ensures
        action == close_key_spec(*key, mods, focused_confirm),
{
    let command = mods.ctrl || mods.alt || mods.super_key;
    let none = !mods.shift && !mods.ctrl && !mods.alt && !mods.super_key;
    match key {
        KeyCode::Char(c) => {
            let c = *c;
            if c == '\u{1b}' {
                Some(CloseKeyAction::Cancel)
            } else if c == '\t' && !command {
                Some(CloseKeyAction::Focus(!focused_confirm))
            } else if (c == '\r' || c == ' ') && !command {
                Some(if focused_confirm { CloseKeyAction::Accept } else { CloseKeyAction::Cancel })
            } else {
                None
            }
        },
        KeyCode::LeftArrow => if none { Some(CloseKeyAction::Focus(false)) } else { None },
        KeyCode::RightArrow => if none { Some(CloseKeyAction::Focus(true)) } else { None },
        _ => None,
    }
}

/// Holds a pressed Return or Escape until that same key is released, so a
/// key held down, or a press that began before the card opened, never acts
/// twice or by accident.
pub struct CloseKeyLatch {
    pub pending: Option<(KeyCode, CloseKeyAction)>,
}

impl Default for CloseKeyLatch {
    fn default() -> (latch: Self)
        ensures
            latch.pending is None,
    {
        CloseKeyLatch { pending: None }
    }
}

impl CloseKeyLatch {
    /// A key going down (`down`) or up. Accepting and cancelling happen on
    /// the release of the key that was pressed; focus moves at once.
    pub fn event(&mut self, key: &KeyCode, mods: Modifiers, down: bool, focus: bool) -> (action: Option<CloseKeyAction>)
        ensures
            down && old(self).pending is Some ==> action is None && final(self).pending == old(self).pending,
            down && old(self).pending is None ==> match close_key_spec(*key, mods, focus) {
                Some(CloseKeyAction::Accept) => action is None && (final(self).pending matches Some((k, a)) && same_key(k, *key) && a == CloseKeyAction::Accept),
                Some(CloseKeyAction::Cancel) => action is None && (final(self).pending matches Some((k, a)) && same_key(k, *key) && a == CloseKeyAction::Cancel),
                other => action == other && final(self).pending is None,
            },
            !down ==> match old(self).pending {
                Some((held, pressed)) => if same_key(held, *key) {
                    action == Some(pressed) && final(self).pending is None
                } else {
                    action is None && final(self).pending == old(self).pending
                },
                None => action is None && final(self).pending is None,
            },
    {
        if down {
            if self.pending.is_none() {
                match close_key_action(key, mods, focus) {
                    Some(CloseKeyAction::Accept) => {
                        self.pending = Some((copy_key(key), CloseKeyAction::Accept));
                    },
                    Some(CloseKeyAction::Cancel) => {
                        self.pending = Some((copy_key(key), CloseKeyAction::Cancel));
                    },
                    other => {
                        return other;
                    },
                }
            }
            None
        } else {
            let matched = match &self.pending {
                Some((held, _)) => keys_match(held, key),
                None => false,
            };
            if matched {
                match self.pending.take() {
                    Some((_, action)) => Some(action),
                    None => None,
                }
            } else {
                None
            }
        }
    }
}

/// Why a host or key form could not be saved.
#[derive(Debug, Clone, Copy, PartialEq, Eq, Structural)]
pub enum FormError {
    /// A rename or settings form has its own save action.
    WrongForm,
    KeyName,
    KeyFile,
    KeyExists,
    Port,
    Host(HostError),
    /// The host being edited was changed in another window.
    Changed,
}

impl FormError {
    /// The explanation shown to the user, as text.
    pub open spec fn explanation(&self) -> Seq<char> {
        match self {
            FormError::WrongForm => "Use the form-specific save action."@,
            FormError::KeyName => "Enter a key name."@,
            FormError::KeyFile => "Enter an existing private key file path."@,
            FormError::KeyExists => "A key with this name already exists."@,
            FormError::Port => "Port must be between 1 and 65535."@,
            FormError::Host(e) => e.explanation(),
            FormError::Changed => "This host changed in another window. Reopen it and try again."@,
        }
    }

    /// The explanation shown to the user.
    pub fn message(&self) -> (text: &'static str)
        ensures
            text@ == self.explanation(),
    {
        match self {
            FormError::WrongForm => "Use the form-specific save action.",
            FormError::KeyName => "Enter a key name.",
            FormError::KeyFile => "Enter an existing private key file path.",
            FormError::KeyExists => "A key with this name already exists.",
            FormError::Port => "Port must be between 1 and 65535.",
            FormError::Host(e) => e.message(),
            FormError::Changed => "This host changed in another window. Reopen it and try again.",
        }
    }
}

pub open spec fn host_views(hosts: Seq<Host>) -> Seq<HostFields> {
    hosts.map_values(|h: Host| h@)
}

pub open spec fn key_views(keys: Seq<KeyFile>) -> Seq<(Seq<char>, Seq<char>)> {
    keys.map_values(|k: KeyFile| (k.label@, k.path@))
}

/// Whether a key is labelled `label`.
pub open spec fn labelled(label: Seq<char>) -> spec_fn((Seq<char>, Seq<char>)) -> bool {
    |k: (Seq<char>, Seq<char>)| k.0 == label
}

/// Whether a host has the fields `fields`.
pub open spec fn same_fields(fields: HostFields) -> spec_fn(HostFields) -> bool {
    |h: HostFields| h == fields
}

/// The host a host form describes, before it is checked.
pub open spec fn form_host(values: Seq<Seq<char>>, port: u16) -> HostFields {
    HostFields {
        label: values[0],
        address: values[1],
        port,
        username: values[3],
        group: values[4],
        identity_file: values[5],
    }
}

pub open spec fn field_values(form: Form) -> Seq<Seq<char>> {
    form.fields@.map_values(|f: Input| f.value@)
}

/// What saving `form` into a library with `hosts` and `keys` gives: the
/// new hosts and keys, or why not. `key_ok` answers whether the key file of a
/// key form exists; `ipv6_ok` and `host_key_ok` answer the checks of a host.
pub open spec fn form_outcome(
    form: Form,
    hosts: Seq<HostFields>,
    keys: Seq<(Seq<char>, Seq<char>)>,
    key_ok: bool,
    ipv6_ok: bool,
    host_key_ok: bool,
) -> Result<(Seq<HostFields>, Seq<(Seq<char>, Seq<char>)>), FormError> {
    let values = field_values(form);
    if form.rename_tab is Some || form.settings {
        Err(FormError::WrongForm)
    } else if form.key {
        let label = trimmed(values[0]);
        let path = trimmed(values[1]);
        if label.len() == 0 {
            Err(FormError::KeyName)
        } else if !key_ok {
            Err(FormError::KeyFile)
        } else if first_index(keys, labelled(label)) >= 0 {
            Err(FormError::KeyExists)
        } else {
            Ok((hosts, keys.push((label, path))))
        }
    } else {
        match parse_u16_spec(trimmed(values[2])) {
            None => Err(FormError::Port),
            Some(port) => match validated(form_host(values, port), ipv6_ok, host_key_ok) {
                (_, Err(e)) => Err(FormError::Host(e)),
                (host, Ok(())) => match form.original {
                    None => Ok((hosts.push(host), keys)),
                    Some(original) => {
                        let at = first_index(hosts, same_fields(original@));
                        if at < 0 {
                            Err(FormError::Changed)
                        } else {
                            Ok((hosts.update(at, host), keys))
                        }
                    },
                },
            },
        }
    }
}

fn key_exists(keys: &Vec<KeyFile>, label: &Vec<char>) -> (found: bool)
    ensures
        found == (first_index(key_views(keys@), labelled(label@)) >= 0),
{
    let ghost views = key_views(keys@);
    let ghost p = labelled(label@);
    let mut i: usize = 0;
    while i < keys.len()
        invariant
            i <= keys.len(),
            views == key_views(keys@),
            p == labelled(label@),
            forall|k: int| 0 <= k < i ==> !p(#[trigger] views[k]),
        decreases keys.len() - i,
    {
        assert(views[i as int] == (keys@[i as int].label@, keys@[i as int].path@));
        let here = chars_of(keys[i].label.as_str());
        if same_chars(here.as_slice(), label.as_slice()) {
            proof {
                lemma_first_index_at(views, p, i as int);
            }
            return true;
        }
        i = i + 1;
    }
    proof {
        lemma_first_index_at(views, p, i as int);
    }
    false
}

fn same_host_fields(a: &Host, b: &Host) -> (same: bool)
    ensures
        same == (a@ == b@),
{
    a.port == b.port && a.label == b.label && a.address == b.address && a.username == b.username && a.group == b.group
        && a.identity_file == b.identity_file
}

fn find_host(hosts: &Vec<Host>, original: &Host) -> (found: Option<usize>)
    ensures
        match found {
            Some(k) => k == first_index(host_views(hosts@), same_fields(original@)),
            None => first_index(host_views(hosts@), same_fields(original@)) == -1,
        },
{
    let ghost views = host_views(hosts@);
    let ghost p = same_fields(original@);
    let mut i: usize = 0;
    while i < hosts.len()
        invariant
            i <= hosts.len(),
            views == host_views(hosts@),
            p == same_fields(original@),
            forall|k: int| 0 <= k < i ==> !p(#[trigger] views[k]),
        decreases hosts.len() - i,
    {
        assert(views[i as int] == hosts@[i as int]@);
        if same_host_fields(&hosts[i], original) {
            proof {
                lemma_first_index_at(views, p, i as int);
            }
            return Some(i);
        }
        i = i + 1;
    }
    proof {
        lemma_first_index_at(views, p, i as int);
    }
    None
}

/// Save a host or key form into `store`, the library as it is on disk now.
/// A key needs a name that no other key has and an existing file; a host's
/// port must be a number, and the host must pass its checks. An edited host
/// replaces the first host that still equals the one the form was opened
/// with.
pub fn save_form<V: Fn(&[char]) -> bool, K: Fn(&[char]) -> bool>(
    store: &mut HostStore,
    form: &Form,
    ipv6_parses: &V,
    is_key_file: &K,
) -> (result: Result<(), FormError>)
    requires
        forall|x: &[char]| call_requires(*ipv6_parses, (x,)),
        forall|x: &[char]| call_requires(*is_key_file, (x,)),
        form.rename_tab is None && !form.settings ==> form.fields@.len() >= if form.key { 2nat } else { 6nat },
    ensures
        exists|key_ok: bool, ipv6_ok: bool, host_key_ok: bool|
            {
                let values = field_values(*form);
                &&& (form.key && form.rename_tab is None && !form.settings && trimmed(values[0]).len() > 0) ==> answers(
                    *is_key_file,
                    trimmed(values[1]),
                    key_ok,
                )
                &&& (!form.key && form.rename_tab is None && !form.settings) ==> match parse_u16_spec(trimmed(values[2])) {
                    Some(port) => {
                        &&& ipv6_consulted(form_host(values, port)) ==> answers(
                            *ipv6_parses,
                            unbracketed(trimmed(form_host(values, port).address)),
                            ipv6_ok,
                        )
                        &&& key_consulted(form_host(values, port), ipv6_ok) ==> answers(
                            *is_key_file,
                            trimmed(form_host(values, port).identity_file),
                            host_key_ok,
                        )
                    },
                    None => true,
                }
                &&& match #[trigger] form_outcome(*form, host_views(old(store).hosts@), key_views(old(store).keys@), key_ok, ipv6_ok, host_key_ok) {
                    Err(e) => result == Err::<(), FormError>(e) && host_views(final(store).hosts@) == host_views(old(store).hosts@)
                        && key_views(final(store).keys@) == key_views(old(store).keys@),
                    Ok((hosts, keys)) => result is Ok && host_views(final(store).hosts@) == hosts && key_views(final(store).keys@) == keys,
                }
            },
{
    if form.rename_tab.is_some() || form.settings {
        assert(form_outcome(*form, host_views(store.hosts@), key_views(store.keys@), true, true, true) == Err::<(Seq<HostFields>, Seq<(Seq<char>, Seq<char>)>), FormError>(FormError::WrongForm));
        return Err(FormError::WrongForm);
    }
    let ghost values = field_values(*form);
    if form.key {
        assert(values[0] == form.fields@[0].value@);
        assert(values[1] == form.fields@[1].value@);
        let label = trim_chars(chars_of(form.fields[0].value.as_str()).as_slice());
        let path = trim_chars(chars_of(form.fields[1].value.as_str()).as_slice());
        if label.len() == 0 {
            assert(form_outcome(*form, host_views(store.hosts@), key_views(store.keys@), true, true, true) == Err::<(Seq<HostFields>, Seq<(Seq<char>, Seq<char>)>), FormError>(FormError::KeyName));
            return Err(FormError::KeyName);
        }
        let exists = is_key_file(path.as_slice());
        assert(answers(*is_key_file, trimmed(values[1]), exists));
        if !exists {
            assert(form_outcome(*form, host_views(store.hosts@), key_views(store.keys@), exists, true, true) == Err::<(Seq<HostFields>, Seq<(Seq<char>, Seq<char>)>), FormError>(FormError::KeyFile));
            return Err(FormError::KeyFile);
        }
        if key_exists(&store.keys, &label) {
            assert(form_outcome(*form, host_views(store.hosts@), key_views(store.keys@), exists, true, true) == Err::<(Seq<HostFields>, Seq<(Seq<char>, Seq<char>)>), FormError>(FormError::KeyExists));
            return Err(FormError::KeyExists);
        }
        let ghost before = store.keys@;
        store.keys.push(KeyFile { label: string_of(label.as_slice()), path: string_of(path.as_slice()) });
        assert(key_views(store.keys@) =~= key_views(before).push((label@, path@)));
        assert(form_outcome(*form, host_views(store.hosts@), key_views(before), exists, true, true) == Ok::<(Seq<HostFields>, Seq<(Seq<char>, Seq<char>)>), FormError>((host_views(store.hosts@), key_views(before).push((label@, path@)))));
        return Ok(());
    }
    assert(values[2] == form.fields@[2].value@);
    let digits = trim_chars(chars_of(form.fields[2].value.as_str()).as_slice());
    let port = match parse_u16(digits.as_slice()) {
        Some(p) => p,
        None => {
            assert(form_outcome(*form, host_views(store.hosts@), key_views(store.keys@), true, true, true) == Err::<(Seq<HostFields>, Seq<(Seq<char>, Seq<char>)>), FormError>(FormError::Port));
            return Err(FormError::Port);
        },
    };
    let mut host = Host {
        label: form.fields[0].value.clone(),
        address: form.fields[1].value.clone(),
        port,
        username: form.fields[3].value.clone(),
        group: form.fields[4].value.clone(),
        identity_file: form.fields[5].value.clone(),
    };
    assert(host@ == form_host(values, port));
    let checked = host.validate(ipv6_parses, is_key_file);
    let ghost answer = choose|ipv6_ok: bool, key_ok: bool|
        {
            &&& ipv6_consulted(form_host(values, port)) ==> answers(*ipv6_parses, unbracketed(trimmed(form_host(values, port).address)), ipv6_ok)
            &&& key_consulted(form_host(values, port), ipv6_ok) ==> answers(*is_key_file, trimmed(form_host(values, port).identity_file), key_ok)
            &&& #[trigger] validated(form_host(values, port), ipv6_ok, key_ok) == (host@, checked)
        };
    let ghost ipv6_ok = answer.0;
    let ghost host_key_ok = answer.1;
    match checked {
        Err(e) => {
            assert(form_outcome(*form, host_views(store.hosts@), key_views(store.keys@), true, ipv6_ok, host_key_ok) == Err::<(Seq<HostFields>, Seq<(Seq<char>, Seq<char>)>), FormError>(FormError::Host(e)));
            return Err(FormError::Host(e));
        },
        Ok(()) => {},
    }
    let ghost before = store.hosts@;
    match &form.original {
        None => {
            store.hosts.push(host);
            assert(host_views(store.hosts@) =~= host_views(before).push(host@));
            assert(form_outcome(*form, host_views(before), key_views(store.keys@), true, ipv6_ok, host_key_ok) == Ok::<(Seq<HostFields>, Seq<(Seq<char>, Seq<char>)>), FormError>((host_views(before).push(host@), key_views(store.keys@))));
            Ok(())
        },
        Some(original) => {
            match find_host(&store.hosts, original) {
                None => {
                    assert(form_outcome(*form, host_views(before), key_views(store.keys@), true, ipv6_ok, host_key_ok) == Err::<(Seq<HostFields>, Seq<(Seq<char>, Seq<char>)>), FormError>(FormError::Changed));
                    Err(FormError::Changed)
                },
                Some(at) => {
                    proof {
                        lemma_first_index_bounds(host_views(before), same_fields(original@));
                    }
                    let ghost fields = host@;
                    store.hosts.set(at, host);
                    assert(host_views(store.hosts@) =~= host_views(before).update(at as int, fields));
                    assert(form_outcome(*form, host_views(before), key_views(store.keys@), true, ipv6_ok, host_key_ok) == Ok::<(Seq<HostFields>, Seq<(Seq<char>, Seq<char>)>), FormError>((host_views(before).update(at as int, fields), key_views(store.keys@))));
                    Ok(())
                },
            }
        },
    }
}

/// The form that edits `host`, or adds a host (port 22) or, with `key`, a key.
pub fn host_form(key: bool, host: Option<Host>) -> (form: Form)
    ensures
        form.key == key,
        form.original == host,
        form.focus == 0,
        form.first_row == 0,
        form.reveal_focus,
        form.rename_tab is None,
        !form.settings,
        key ==> form.fields@.len() == 2 && field_values(form) == seq![Seq::<char>::empty(), Seq::<char>::empty()],
        !key ==> form.fields@.len() == 6 && field_values(form) == match host {
            Some(h) => seq![h.label@, h.address@, decimal(h.port as nat), h.username@, h.group@, h.identity_file@],
            None => seq![Seq::<char>::empty(), Seq::<char>::empty(), decimal(22), Seq::<char>::empty(), Seq::<char>::empty(), Seq::<char>::empty()],
        },
        forall|k: int| 0 <= k < form.fields@.len() ==> #[trigger] form.fields@[k].cursor == form.fields@[k].value@.len() && !form.fields@[k].selected,
{
    let mut fields: Vec<Input> = Vec::new();
    if key {
        fields.push(Input::new(String::new()));
        fields.push(Input::new(String::new()));
    } else {
        let (label, address, port, username, group, identity_file) = match &host {
            Some(h) => (h.label.clone(), h.address.clone(), h.port, h.username.clone(), h.group.clone(), h.identity_file.clone()),
            None => (String::new(), String::new(), 22u16, String::new(), String::new(), String::new()),
        };
        fields.push(Input::new(label));
        fields.push(Input::new(address));
        fields.push(Input::new(string_of(decimal_chars(port as u64).as_slice())));
        fields.push(Input::new(username));
        fields.push(Input::new(group));
        fields.push(Input::new(identity_file));
    }
    let form = Form { fields, focus: 0, key, original: host, rename_tab: None, settings: false, first_row: 0, reveal_focus: true };
    assert(field_values(form) =~= if key {
        seq![Seq::<char>::empty(), Seq::<char>::empty()]
    } else {
        match form.original {
            Some(h) => seq![h.label@, h.address@, decimal(h.port as nat), h.username@, h.group@, h.identity_file@],
            None => seq![Seq::<char>::empty(), Seq::<char>::empty(), decimal(22), Seq::<char>::empty(), Seq::<char>::empty(), Seq::<char>::empty()],
        }
    });
    form
}

/// The form that renames tab `tab_id`, its name selected for replacing.
pub fn rename_form(tab_id: usize, name: String) -> (form: Form)
    ensures
        form.fields@.len() == 1,
        form.fields@[0].value == name,
        form.fields@[0].selected,
        form.rename_tab == Some(tab_id),
        !form.settings && !form.key && form.original is None,
        form.focus == 0 && form.first_row == 0 && form.reveal_focus,
{
    let mut field = Input::new(name);
    field.selected = true;
    let mut fields: Vec<Input> = Vec::new();
    fields.push(field);
    Form { fields, focus: 0, key: false, original: None, rename_tab: Some(tab_id), settings: false, first_row: 0, reveal_focus: true }
}

} // verus!
