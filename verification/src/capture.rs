//! Capturing the bytes that encoding one user input produces for one pane,
//! so that they can be shared with the other panes of a broadcast group.
//! Only writes for the captured pane are taken; parser replies and writes
//! for other panes go to their transports as usual.
use vstd::prelude::*;

verus! {

/// The most bytes one captured input may hold: 8 MiB.
pub const MAX_INPUT: usize = 8388608;

#[derive(Debug, Clone, Copy, PartialEq, Eq, Structural)]
pub enum CaptureError {
    /// A capture was started while another one was running.
    Nested,
    /// The captured input would exceed 8 MiB.
    TooLarge,
}

impl CaptureError {
    /// The explanation shown to the user, as text.
    pub open spec fn explanation(&self) -> Seq<char> {
        match self {
            CaptureError::Nested => "nested user input capture"@,
            CaptureError::TooLarge => "Broadcast input exceeds 8 MiB; paste smaller chunks"@,
        }
    }

    /// The explanation shown to the user.
    pub fn message(&self) -> (text: &'static str)
        ensures
            text@ == self.explanation(),
    {
        match self {
            CaptureError::Nested => "nested user input capture",
            CaptureError::TooLarge => "Broadcast input exceeds 8 MiB; paste smaller chunks",
        }
    }
}

/// Why a capture produced no bytes: the capture itself, or the encoding.
#[derive(Debug)]
pub enum CaptureFailure<E> {
    Capture(CaptureError),
    Encode(E),
}

/// The running capture: its pane and the bytes written for it so far.
pub struct Capture {
    pub pane: usize,
    pub bytes: Vec<u8>,
}

/// The capture of one thread: none, or the one running.
pub struct CaptureSlot {
    pub current: Option<Capture>,
}

impl CaptureSlot {
    pub fn new() -> (slot: Self)
        ensures
            slot.current is None,
    {
        CaptureSlot { current: None }
    }

    pub open spec fn capturing(&self, pane: usize) -> bool {
        self.current matches Some(c) && c.pane == pane
    }
}

/// Whether input for `pane` is being captured.
pub fn active(slot: &CaptureSlot, pane: usize) -> (on: bool)
    ensures
        on == slot.capturing(pane),
{
    match &slot.current {
        Some(c) => c.pane == pane,
        None => false,
    }
}

/// Offer `bytes` written for `pane` to the capture. `None`: not captured, the
/// caller writes them to the transport. Otherwise they are appended, unless
/// the capture would then exceed 8 MiB.
pub fn write(slot: &mut CaptureSlot, pane: usize, bytes: &[u8]) -> (taken: Option<Result<usize, CaptureError>>)
    ensures
        !old(slot).capturing(pane) ==> taken is None && *final(slot) == *old(slot),
        old(slot).capturing(pane) ==> {
            let before = old(slot).current->0.bytes@;
            let room = if before.len() < MAX_INPUT { MAX_INPUT - before.len() } else { 0 };
            if bytes@.len() > room {
                &&& taken == Some(Err::<usize, CaptureError>(CaptureError::TooLarge))
                &&& *final(slot) == *old(slot)
            } else {
                &&& taken == Some(Ok::<usize, CaptureError>(bytes@.len() as usize))
                &&& final(slot).current is Some
                &&& final(slot).current->0.pane == pane
                &&& final(slot).current->0.bytes@ == before + bytes@
            }
        },
{
    let mut c = match slot.current.take() {
        Some(c) => c,
        None => {
            return None;
        },
    };
    if c.pane != pane {
        slot.current = Some(c);
        return None;
    }
    let room: usize = if c.bytes.len() < MAX_INPUT { MAX_INPUT - c.bytes.len() } else { 0 };
    if bytes.len() > room {
        slot.current = Some(c);
        return Some(Err(CaptureError::TooLarge));
    }
    let mut i: usize = 0;
    let ghost before = c.bytes@;
    while i < bytes.len()
        invariant
            i <= bytes.len(),
            c.bytes@ == before + bytes@.subrange(0, i as int),
            c.pane == pane,
        decreases bytes.len() - i,
    {
        c.bytes.push(bytes[i]);
        assert(bytes@.subrange(0, i + 1) =~= bytes@.subrange(0, i as int).push(bytes@[i as int]));
        i = i + 1;
    }
    assert(bytes@.subrange(0, bytes.len() as int) =~= bytes@);
    slot.current = Some(c);
    Some(Ok(bytes.len()))
}

/// The slot holds a capture for `pane` with no bytes yet.
pub open spec fn fresh(slot: CaptureSlot, pane: usize) -> bool {
    slot.current matches Some(c) && c.pane == pane && c.bytes@.len() == 0
}

/// What ending a capture of `slot` gives after the encoding answered
/// `encoded`: its error, or the bytes the capture holds (none when the
/// capture is gone).
pub open spec fn finished<E>(slot: CaptureSlot, encoded: Result<(), E>, result: Result<Vec<u8>, CaptureFailure<E>>) -> bool {
    match encoded {
        Err(e) => result matches Err(CaptureFailure::Encode(e2)) && e2 == e,
        Ok(()) => result matches Ok(bytes) && bytes@ == match slot.current {
            Some(c) => c.bytes@,
            None => Seq::<u8>::empty(),
        },
    }
}

/// Start capturing input for `pane`; refused while a capture is running.
pub fn begin_capture(slot: &mut CaptureSlot, pane: usize) -> (result: Result<(), CaptureError>)
    ensures
        old(slot).current is Some ==> result == Err::<(), CaptureError>(CaptureError::Nested)
            && *final(slot) == *old(slot),
        old(slot).current is None ==> result is Ok && fresh(*final(slot), pane),
{
    if slot.current.is_some() {
        return Err(CaptureError::Nested);
    }
    slot.current = Some(Capture { pane, bytes: Vec::new() });
    Ok(())
}

/// End the running capture, whatever the encoding did: the slot is empty
/// again. Gives the encoding's error, or the bytes captured.
pub fn finish_capture<E>(slot: &mut CaptureSlot, encoded: Result<(), E>) -> (result: Result<Vec<u8>, CaptureFailure<E>>)
    ensures
        final(slot).current is None,
        finished(*old(slot), encoded, result),
{
    let taken = slot.current.take();
    match encoded {
        Err(e) => Err(CaptureFailure::Encode(e)),
        Ok(()) => match taken {
            Some(c) => Ok(c.bytes),
            None => Ok(Vec::new()),
        },
    }
}

/// Run `encode` with input for `pane` captured, and return the bytes it
/// wrote for `pane`. `encode` is handed the slot with a fresh capture for
/// `pane` and hands it back with its answer. A capture never nests, and the
/// slot is empty again when this returns, whatever `encode` did.
pub fn capture<E, F: FnOnce(CaptureSlot) -> (CaptureSlot, Result<(), E>)>(slot: &mut CaptureSlot, pane: usize, encode: F) -> (result: Result<Vec<u8>, CaptureFailure<E>>)
    requires
        forall|s: CaptureSlot| call_requires(encode, (s,)),
    ensures
        old(slot).current is Some ==> (result matches Err(CaptureFailure::Capture(CaptureError::Nested))) && *final(slot) == *old(slot),
        old(slot).current is None ==> {
            &&& final(slot).current is None
            &&& exists|lent: CaptureSlot, back: CaptureSlot, encoded: Result<(), E>| {
                &&& fresh(lent, pane)
                &&& #[trigger] call_ensures(encode, (lent,), (back, encoded))
                &&& finished(back, encoded, result)
            }
        },
{
    match begin_capture(slot, pane) {
        Err(e) => {
            return Err(CaptureFailure::Capture(e));
        },
        Ok(()) => {},
    }
    let mut lent = CaptureSlot::new();
    std::mem::swap(&mut lent, slot);
    let ghost handed = lent;
    let (back, encoded) = encode(lent);
    *slot = back;
    let ghost returned = *slot;
    let result = finish_capture(slot, encoded);
    assert(call_ensures(encode, (handed,), (returned, encoded)));
    result
}

} // verus!
