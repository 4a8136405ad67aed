use vstd::prelude::*;

verus! {

/// What the logic of a frame asks of the loop that runs it.
#[derive(Debug, Clone, Copy, PartialEq, Eq)]
pub enum ProcessReturn {
    /// Go on with the next frame.
    Continue,
    /// Stop after this frame.
    End,
}

/// What a loop that is held to a number of frames in a second does next.
#[derive(Debug, Clone, Copy, PartialEq, Eq)]
pub enum Pace {
    /// It is too early for a frame: sleep for so many nanoseconds, then ask
    /// again.
    Wait { nanos: u64 },
    /// It is time: run the logic and show the buffer.
    Frame,
}

/// The nanoseconds in a second.
pub const SECOND: u64 = 1_000_000_000;

/// What is due when `elapsed` nanoseconds have passed since the last frame
/// and no more than `fps_cap` frames are to be shown in a second.
///
/// A frame is due as soon as the `fps_cap`-th part of a second has passed.
/// Until then the rest of that time is to be waited, counted in whole
/// nanoseconds.
pub open spec fn pace_at(elapsed: int, fps_cap: int) -> Pace
    recommends
        0 <= elapsed,
        0 < fps_cap,
{
    if elapsed * fps_cap < SECOND {
        Pace::Wait { nanos: ((SECOND - elapsed * fps_cap) / fps_cap) as u64 }
    } else {
        Pace::Frame
    }
}

/// Decides whether a frame is due; see [`pace_at`].
pub fn pace(elapsed_nanos: u64, fps_cap: usize) -> (next: Pace)
    requires
        fps_cap > 0,
    ensures
        next == pace_at(elapsed_nanos as int, fps_cap as int),
        next matches Pace::Wait { nanos } ==> nanos <= SECOND,
{
    assert(0 <= elapsed_nanos * fps_cap <= 0xffff_ffff_ffff_ffff * 0xffff_ffff_ffff_ffff)
        by (nonlinear_arith)
        requires
            0 <= elapsed_nanos <= 0xffff_ffff_ffff_ffff,
            0 <= fps_cap <= 0xffff_ffff_ffff_ffff,
    ;
    let used: u128 = (elapsed_nanos as u128) * (fps_cap as u128);
    if used < SECOND as u128 {
        let left: u128 = (SECOND as u128 - used) / (fps_cap as u128);
        assert(left <= SECOND) by (nonlinear_arith)
            requires
                left == (SECOND - used) / (fps_cap as int),
                0 <= used < SECOND,
                fps_cap >= 1,
        ;
        Pace::Wait { nanos: left as u64 }
    } else {
        Pace::Frame
    }
}

} // verus!
