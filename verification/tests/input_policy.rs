use termviai::input_policy::{broadcast_message, input_gate, shares_input, InputContext, InputGate};
use termviai::router::DeliveryReport;

fn ready() -> InputContext {
    InputContext {
        confirmation_active: false,
        ui_enabled: true,
        library_active: false,
        modal_open: false,
        local_pane: true,
        accepts_input: true,
        in_window: true,
        same_pane: true,
    }
}

#[test]
fn inputs_are_consumed_encoded_or_routed() {
    assert_eq!(input_gate(ready()), InputGate::Route);
    assert_eq!(input_gate(InputContext { confirmation_active: true, ..ready() }), InputGate::Consume);
    assert_eq!(input_gate(InputContext { accepts_input: false, ..ready() }), InputGate::Consume);
    assert_eq!(input_gate(InputContext { library_active: true, accepts_input: false, ..ready() }), InputGate::Encode);
    assert_eq!(input_gate(InputContext { modal_open: true, ..ready() }), InputGate::Encode);
    assert_eq!(input_gate(InputContext { same_pane: false, ..ready() }), InputGate::Encode);
    assert_eq!(input_gate(InputContext { in_window: false, ..ready() }), InputGate::Encode);
}

#[test]
fn a_lone_target_is_no_broadcast() {
    assert!(!shares_input(3, &[3]));
    assert!(shares_input(3, &[1, 3]));
}

#[test]
fn incomplete_broadcasts_are_reported() {
    let complete: DeliveryReport<usize, ()> = DeliveryReport { delivered: vec![1, 2], disconnected: vec![], failures: vec![] };
    assert_eq!(broadcast_message(&complete), None);
    let partial: DeliveryReport<usize, &str> =
        DeliveryReport { delivered: vec![1], disconnected: vec![2], failures: vec![(3, "broken pipe")] };
    assert_eq!(
        broadcast_message(&partial).unwrap(),
        "Broadcast: 1 sent, 1 disconnected, 1 failed. Input was not replayed."
    );
}
