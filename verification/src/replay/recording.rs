//! The telemetry recording kept for persistence and export: the live loop runs at 20 Hz and
//! keeps one frame in four, up to a fixed number of frames.

use vstd::prelude::*;

verus! {

/// How many simulation ticks pass between two recorded frames.
pub const RECORD_EVERY_TICKS: u64 = 4;

/// The most frames one recording holds.
pub const MAX_RECORDED_FRAMES: usize = 5000;

/// Whether the frame of tick `tick_count` joins a recording that holds `recorded` frames:
/// on every fourth tick, while the recording has room.
pub open spec fn frame_recorded(tick_count: u64, recorded: nat) -> bool {
    tick_count % RECORD_EVERY_TICKS == 0 && recorded < MAX_RECORDED_FRAMES
}

/// Offers the frame of tick `tick_count` to a recording; returns whether it was kept.
pub fn record_frame<S>(frames: &mut Vec<S>, tick_count: u64, frame: S) -> (kept: bool)
    ensures
        kept == frame_recorded(tick_count, old(frames)@.len()),
        final(frames)@ == (if kept {
            old(frames)@.push(frame)
        } else {
            old(frames)@
        }),
        old(frames)@.len() <= MAX_RECORDED_FRAMES ==> final(frames)@.len() <= MAX_RECORDED_FRAMES,
{
    if tick_count % RECORD_EVERY_TICKS == 0 && frames.len() < MAX_RECORDED_FRAMES {
        frames.push(frame);
        true
    } else {
        false
    }
}

} // verus!
