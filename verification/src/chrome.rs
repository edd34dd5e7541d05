//! Window chrome around the terminals: the rows a pane header reserves and
//! the pace of interface animations.
use vstd::prelude::*;
use core::time::Duration;

verus! {

/// The rows a pane header takes from a pane of `rows` rows: as many as
/// `requested`, but never the last terminal row.
pub fn content_inset(rows: usize, requested: usize) -> (inset: usize)
    ensures
        inset == if requested < rows - 1 { requested as int } else if rows > 0 { rows - 1 } else { 0 },
{
    let available: usize = if rows > 0 { rows - 1 } else { 0 };
    if requested < available { requested } else { available }
}

/// The highest frame rate interface motion uses.
pub const MAX_MOTION_FPS: u64 = 60;

/// The frame rate motion runs at for a window limit of `max_fps` frames per
/// second: the limit kept within 1 to 60.
pub open spec fn motion_fps(max_fps: u64) -> u64 {
    if max_fps < 1 { 1 } else if max_fps > MAX_MOTION_FPS { MAX_MOTION_FPS } else { max_fps }
}

/// One frame at `fps` frames per second, in nanoseconds rounded to the
/// nearest.
pub open spec fn frame_nanos(fps: u64) -> u64
    recommends
        fps > 0,
{
    ((2_000_000_000 + fps as int) / (2 * fps as int)) as u64
}

pub fn frame_interval_nanos(max_fps: u64) -> (nanos: u64)
    ensures
        nanos == frame_nanos(motion_fps(max_fps)),
        16_666_666 <= nanos <= 1_000_000_000,
{
    let fps: u64 = if max_fps < 1 { 1 } else if max_fps > MAX_MOTION_FPS { MAX_MOTION_FPS } else { max_fps };
    assert(16_666_666 <= (2_000_000_000 + fps as int) / (2 * fps as int) <= 1_000_000_000) by (nonlinear_arith)
        requires
            1 <= fps <= 60,
    ;
    (2_000_000_000 + fps) / (2 * fps)
}

/// The `Duration` of `nanos` nanoseconds.
pub uninterp spec fn duration_of_nanos(nanos: u64) -> Duration;

/// `Duration::from_nanos`: the duration of the given number of nanoseconds.
#[verifier::external_body]
fn duration_from_nanos(nanos: u64) -> (d: Duration)
    ensures
        d == duration_of_nanos(nanos),
{
    Duration::from_nanos(nanos)
}

/// The interval between frames of interface motion: the window's frame
/// limit, kept within 1 to 60 frames per second.
pub fn frame_interval(max_fps: u64) -> (interval: Duration)
    ensures
        interval == duration_of_nanos(frame_nanos(motion_fps(max_fps))),
{
    duration_from_nanos(frame_interval_nanos(max_fps))
}

} // verus!
