//! What a wheel turn or a right click over the interface changes, once the
//! window has found what lies under the pointer.
use vstd::prelude::*;
use crate::ui::{Action, Form, Page};
use crate::ui_state::UiState;

verus! {

/// How many rows a wheel turn of `amount` notches moves: at least one.
pub open spec fn wheel_step(amount: i16) -> int {
    if amount == 0 {
        1
    } else if amount < 0 {
        -(amount as int)
    } else {
        amount as int
    }
}

/// The first row in view after a wheel turn of `amount` notches from
/// `first`: up (positive) stops at the top, down stops at `last`.
pub open spec fn scrolled(first: int, amount: i16, last: int) -> int {
    if amount > 0 {
        if first >= wheel_step(amount) {
            first - wheel_step(amount)
        } else {
            0
        }
    } else if first + wheel_step(amount) <= last {
        first + wheel_step(amount)
    } else {
        last
    }
}

/// `first` moved by a wheel turn, as `scrolled` says.
pub fn scroll_by(first: usize, amount: i16, last: usize) -> (next: usize)
    ensures
        next == scrolled(first as int, amount, last as int),
{
    let step: usize = if amount == 0 {
        1
    } else if amount < 0 {
        (0i32 - amount as i32) as usize
    } else {
        amount as usize
    };
    if amount > 0 {
        if first >= step {
            first - step
        } else {
            0
        }
    } else if last >= step && first <= last - step {
        first + step
    } else {
        last
    }
}

/// A wheel turn over the broadcast tray scrolls its member list: on the
/// terminal page with no drawer open.
pub open spec fn scrolls_tray(s: UiState, over_tray: bool) -> bool {
    s.page == Page::Terminal && s.form is None && over_tray
}

/// The interface after a wheel turn of `amount` notches. `over_tray` and
/// `over_form_rows` say whether the pointer is over the shown broadcast tray
/// and over the rows of the open drawer, which show `form_rows` fields;
/// `max_scroll` is the last first row of the library page.
pub open spec fn wheeled(
    s: UiState,
    amount: i16,
    over_tray: bool,
    over_form_rows: bool,
    form_rows: usize,
    max_scroll: usize,
) -> UiState {
    if s.closing_form is Some {
        s
    } else if scrolls_tray(s, over_tray) {
        UiState { pane_scroll: scrolled(s.pane_scroll as int, amount, usize::MAX as int) as usize, ..s }
    } else {
        match s.form {
            Some(form) => if over_form_rows {
                let last = if form.fields.len() >= form_rows {
                    form.fields.len() - form_rows
                } else {
                    0
                };
                UiState {
                    form: Some(
                        Form {
                            first_row: scrolled(form.first_row as int, amount, last) as usize,
                            reveal_focus: false,
                            ..form
                        },
                    ),
                    ..s
                }
            } else {
                s
            },
            None => if s.page != Page::Terminal {
                UiState { scroll: scrolled(s.scroll as int, amount, max_scroll as int) as usize, ..s }
            } else {
                s
            },
        }
    }
}

/// Whether a wheel turn moves anything, so the window redraws.
pub open spec fn wheel_moves(s: UiState, over_tray: bool, over_form_rows: bool) -> bool {
    &&& s.closing_form is None
    &&& scrolls_tray(s, over_tray) || (s.form is Some && over_form_rows) || (s.form is None
        && s.page != Page::Terminal)
}

/// The tab whose menu a right click over `over` opens.
pub open spec fn menu_tab(over: Option<Action>) -> Option<usize> {
    match over {
        Some(Action::Tab(id)) => Some(id),
        Some(Action::CloseTab(id)) => Some(id),
        Some(Action::TabBroadcast(id)) => Some(id),
        Some(Action::ReconnectGroup(id)) => Some(id),
        _ => None,
    }
}

impl UiState {
    /// Take a wheel turn over the interface (see `wheeled`); the result says
    /// whether to redraw.
    pub fn wheel(
        &mut self,
        amount: i16,
        over_tray: bool,
        over_form_rows: bool,
        form_rows: usize,
        max_scroll: usize,
    ) -> (redraw: bool)
        ensures
            *final(self) == wheeled(*old(self), amount, over_tray, over_form_rows, form_rows, max_scroll),
            redraw == wheel_moves(*old(self), over_tray, over_form_rows),
    {
        if self.closing_form.is_some() {
            return false;
        }
        if self.page == Page::Terminal && self.form.is_none() && over_tray {
            self.pane_scroll = scroll_by(self.pane_scroll, amount, usize::MAX);
            return true;
        }
        match &mut self.form {
            Some(form) => {
                if over_form_rows {
                    let count = form.fields.len();
                    let last = if count >= form_rows {
                        count - form_rows
                    } else {
                        0
                    };
                    form.first_row = scroll_by(form.first_row, amount, last);
                    form.reveal_focus = false;
                    true
                } else {
                    false
                }
            },
            None => {
                if self.page != Page::Terminal {
                    self.scroll = scroll_by(self.scroll, amount, max_scroll);
                    true
                } else {
                    false
                }
            },
        }
    }

    /// Take a right click over `over`: over a tab's parts it opens that tab's
    /// menu, which changes where input goes.
    pub fn right_press(&mut self, over: &Option<Action>) -> (opened: bool)
        requires
            old(self).generation < u64::MAX,
        ensures
            opened == (menu_tab(*over) is Some),
            *final(self) == match menu_tab(*over) {
                Some(id) => UiState {
                    tab_menu: Some(id),
                    generation: (old(self).generation + 1) as u64,
                    ..*old(self)
                },
                None => *old(self),
            },
    {
        let id = match over {
            Some(Action::Tab(id)) => *id,
            Some(Action::CloseTab(id)) => *id,
            Some(Action::TabBroadcast(id)) => *id,
            Some(Action::ReconnectGroup(id)) => *id,
            _ => return false,
        };
        self.tab_menu = Some(id);
        self.generation = self.generation + 1;
        true
    }
}

} // verus!
