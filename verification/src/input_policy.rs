//! Where one user input goes: consumed, encoded for its own pane only, or
//! captured and routed to a broadcast group, and what the user is told when
//! a broadcast does not reach every target.
use vstd::prelude::*;
use crate::router::DeliveryReport;
use crate::text::{append_chars, chars_of, decimal, decimal_chars, string_of};

verus! {

#[derive(Clone, Copy, Debug, PartialEq, Eq, Structural)]
pub enum InputGate {
    /// Swallow the input: nothing is written anywhere.
    Consume,
    /// Encode the input for its own pane, as without broadcast.
    Encode,
    /// Look up the pane's broadcast group.
    Route,
}

/// What the interface knows about an input before routing it.
#[derive(Clone, Copy, Debug)]
pub struct InputContext {
    /// A close confirmation is up; it takes all user input.
    pub confirmation_active: bool,
    pub ui_enabled: bool,
    pub library_active: bool,
    pub modal_open: bool,
    /// The pane is a local or SSH pane of this process.
    pub local_pane: bool,
    /// The pane is alive and its SSH session is not waiting to reconnect.
    pub accepts_input: bool,
    /// The pane belongs to a tab of this window.
    pub in_window: bool,
    /// The multiplexer still maps the pane's id to this very pane.
    pub same_pane: bool,
}

pub open spec fn gate_of(c: InputContext) -> InputGate {
    if c.confirmation_active {
        InputGate::Consume
    } else if !c.ui_enabled || c.library_active || c.modal_open || !c.local_pane {
        InputGate::Encode
    } else if !c.accepts_input {
        InputGate::Consume
    } else if !c.in_window || !c.same_pane {
        InputGate::Encode
    } else {
        InputGate::Route
    }
}

/// The first decision about an input. A confirmation consumes it; so does a
/// disconnected SSH pane, so that a key typed while it waits is neither sent
/// to the ended transport nor replayed after a reconnect.
pub fn input_gate(context: InputContext) -> (gate: InputGate)
    ensures
        gate == gate_of(context),
{
    if context.confirmation_active {
        InputGate::Consume
    } else if !context.ui_enabled || context.library_active || context.modal_open || !context.local_pane {
        InputGate::Encode
    } else if !context.accepts_input {
        InputGate::Consume
    } else if !context.in_window || !context.same_pane {
        InputGate::Encode
    } else {
        InputGate::Route
    }
}

/// What the first decision about an input promises:
/// - a close confirmation takes every input;
/// - otherwise, with the interface switched off, on a library page, behind a
///   modal or in a pane of another process, input goes to its own pane as in
///   a plain terminal;
/// - input is routed to a broadcast group only from a live local pane of this
///   window that the multiplexer still maps, with the interface on and nothing
///   in front of it;
/// - input is swallowed only by a confirmation or by a pane that cannot take
///   input, and a pane that cannot take input never gets it encoded while the
///   interface routes.
pub proof fn lemma_gate_rules(c: InputContext)
    ensures
        c.confirmation_active ==> gate_of(c) == InputGate::Consume,
        !c.confirmation_active && !c.ui_enabled ==> gate_of(c) == InputGate::Encode,
        !c.confirmation_active && (c.library_active || c.modal_open || !c.local_pane) ==> gate_of(c)
            == InputGate::Encode,
        gate_of(c) == InputGate::Route ==> {
            &&& !c.confirmation_active
            &&& c.ui_enabled && !c.library_active && !c.modal_open
            &&& c.local_pane && c.accepts_input && c.in_window && c.same_pane
        },
        gate_of(c) == InputGate::Consume ==> c.confirmation_active || !c.accepts_input,
        c.ui_enabled && !c.library_active && !c.modal_open && c.local_pane && !c.accepts_input
            ==> gate_of(c) == InputGate::Consume,
        !c.confirmation_active && c.ui_enabled && !c.library_active && !c.modal_open && c.local_pane
            && c.accepts_input && c.in_window && c.same_pane ==> gate_of(c) == InputGate::Route,
{
}

/// Whether input typed into `source` goes anywhere but `source` itself.
pub fn shares_input(source: usize, targets: &[usize]) -> (shared: bool)
    ensures
        shared == (targets@ != seq![source]),
{
    if targets.len() == 1 && targets[0] == source {
        assert(targets@ =~= seq![source]);
        false
    } else {
        true
    }
}

/// The message shown when a broadcast missed a target; `None` when every
/// target got the input.
pub open spec fn missed_message(delivered: nat, disconnected: nat, failed: nat) -> Option<Seq<char>> {
    if disconnected == 0 && failed == 0 {
        None
    } else {
        Some(
            "Broadcast: "@ + decimal(delivered) + " sent, "@ + decimal(disconnected) + " disconnected, "@
                + decimal(failed) + " failed. Input was not replayed."@,
        )
    }
}

pub fn broadcast_message<E>(report: &DeliveryReport<usize, E>) -> (message: Option<String>)
    ensures
        match missed_message(report.delivered@.len(), report.disconnected@.len(), report.failures@.len()) {
            Some(m) => message matches Some(s) && s@ == m,
            None => message is None,
        },
{
    if report.disconnected.len() == 0 && report.failures.len() == 0 {
        return None;
    }
    let mut out = chars_of("Broadcast: ");
    append_chars(&mut out, decimal_chars(report.delivered.len() as u64).as_slice());
    append_chars(&mut out, chars_of(" sent, ").as_slice());
    append_chars(&mut out, decimal_chars(report.disconnected.len() as u64).as_slice());
    append_chars(&mut out, chars_of(" disconnected, ").as_slice());
    append_chars(&mut out, decimal_chars(report.failures.len() as u64).as_slice());
    append_chars(&mut out, chars_of(" failed. Input was not replayed.").as_slice());
    Some(string_of(out.as_slice()))
}

} // verus!
