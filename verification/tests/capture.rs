use termviai::capture::{active, begin_capture, capture, finish_capture, CaptureError, CaptureFailure, CaptureSlot, MAX_INPUT};

#[test]
fn only_writes_for_the_captured_pane_are_taken() {
    let mut slot = CaptureSlot::new();
    assert!(termviai::capture::write(&mut slot, 7, b"early").is_none());
    let bytes = capture(&mut slot, 7, |mut slot: CaptureSlot| -> (CaptureSlot, Result<(), ()>) {
        assert!(active(&slot, 7));
        assert!(!active(&slot, 8));
        assert_eq!(termviai::capture::write(&mut slot, 7, b"\x1b[200~hello"), Some(Ok(11)));
        assert!(termviai::capture::write(&mut slot, 8, b"other").is_none());
        assert_eq!(termviai::capture::write(&mut slot, 7, b"\x1b[201~"), Some(Ok(6)));
        (slot, Ok(()))
    })
    .unwrap();
    assert_eq!(bytes, b"\x1b[200~hello\x1b[201~");
    assert!(!active(&slot, 7));
}

#[test]
fn captures_never_nest_and_always_end() {
    let mut slot = CaptureSlot::new();
    let result = capture(&mut slot, 1, |mut slot: CaptureSlot| {
        let answer = match capture(&mut slot, 2, |s: CaptureSlot| (s, Ok::<(), ()>(()))) {
            Err(CaptureFailure::Capture(CaptureError::Nested)) => Err("nested"),
            _ => Ok(()),
        };
        (slot, answer)
    });
    assert!(matches!(result, Err(CaptureFailure::Encode("nested"))));
    assert!(slot.current.is_none());
}

#[test]
fn input_beyond_8_mib_is_refused() {
    let mut slot = CaptureSlot::new();
    let big = vec![b'x'; MAX_INPUT];
    let result = capture(&mut slot, 3, |mut slot: CaptureSlot| -> (CaptureSlot, Result<(), CaptureError>) {
        assert_eq!(termviai::capture::write(&mut slot, 3, &big), Some(Ok(MAX_INPUT)));
        let answer = match termviai::capture::write(&mut slot, 3, b"y") {
            Some(Err(e)) => Err(e),
            _ => Ok(()),
        };
        (slot, answer)
    });
    assert!(matches!(result, Err(CaptureFailure::Encode(CaptureError::TooLarge))));
    assert_eq!(
        CaptureError::TooLarge.message(),
        "Broadcast input exceeds 8 MiB; paste smaller chunks"
    );
}

#[test]
fn a_capture_begins_once_and_finishes_with_its_bytes_or_the_error() {
    let mut slot = CaptureSlot::new();
    assert_eq!(begin_capture(&mut slot, 7), Ok(()));
    assert_eq!(begin_capture(&mut slot, 8), Err(CaptureError::Nested));
    assert!(active(&slot, 7));
    assert_eq!(termviai::capture::write(&mut slot, 7, b"ls\r"), Some(Ok(3)));
    assert_eq!(finish_capture::<()>(&mut slot, Ok(())).unwrap(), b"ls\r");
    assert!(slot.current.is_none());
    begin_capture(&mut slot, 7).unwrap();
    assert!(matches!(finish_capture(&mut slot, Err("encode failed")), Err(CaptureFailure::Encode("encode failed"))));
    assert!(!active(&slot, 7));
}
