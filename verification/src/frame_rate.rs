//! How many frames were shown since the last report of the frame rate.

use vstd::prelude::*;

verus! {

/// How many seconds pass between two reports, at least.
pub const REPORT_SECONDS: u64 = 60;

/// Counts frames between reports.
#[derive(Debug)]
pub struct FrameCounter {
    frames: u64,
}

/// What a frame adds to the frames counted so far, and the report that is due
/// with it, `seconds` after the last one.
pub open spec fn counted(frames: nat, seconds: u64) -> (nat, Option<nat>) {
    if seconds >= REPORT_SECONDS {
        (0, Some(frames + 1))
    } else {
        (frames + 1, None)
    }
}

/// The sum of all reports that come with the frames recorded at the given
/// times, each counted in seconds since the last report.
pub open spec fn reported(times: Seq<u64>) -> nat
    decreases times.len(),
{
    if times.len() == 0 {
        0
    } else {
        let earlier = times.drop_last();
        reported(earlier) + match counted(unreported(earlier), times.last()).1 {
            Some(frames) => frames,
            None => 0,
        }
    }
}

/// The frames counted since the last report, after frames were recorded at the
/// given times.
pub open spec fn unreported(times: Seq<u64>) -> nat
    decreases times.len(),
{
    if times.len() == 0 {
        0
    } else {
        counted(unreported(times.drop_last()), times.last()).0
    }
}

impl View for FrameCounter {
    type V = nat;

    /// The frames counted since the last report.
    closed spec fn view(&self) -> nat {
        self.frames as nat
    }
}

impl FrameCounter {
    /// A counter that starts at zero.
    pub fn new() -> (counter: Self)
        ensures
            counter@ == 0,
    {
        FrameCounter { frames: 0 }
    }

    /// Whether no further frame can be counted before the next report.
    pub fn is_full(&self) -> (full: bool)
        ensures
            full == (self@ == u64::MAX),
    {
        self.frames == u64::MAX
    }

    /// Counts one frame, `since_last` whole seconds after the last report. If a
    /// report is due, returns the frames to report, this one among them, and
    /// starts over.
    pub fn record(&mut self, since_last: u64) -> (report: Option<u64>)
        requires
            old(self)@ < u64::MAX,
        ensures
            final(self)@ == counted(old(self)@, since_last).0,
            report is Some <==> since_last >= REPORT_SECONDS,
            report is Some ==> Some(report->0 as nat) == counted(old(self)@, since_last).1,
    {
        self.frames += 1;
        if since_last >= REPORT_SECONDS {
            let frames: u64 = self.frames;
            self.frames = 0;
            Some(frames)
        } else {
            None
        }
    }
}

/// Every frame is in exactly one report, or still to be reported.
pub proof fn law_every_frame_is_counted_once(times: Seq<u64>)
    ensures
        reported(times) + unreported(times) == times.len(),
    decreases times.len(),
{
    if times.len() > 0 {
        law_every_frame_is_counted_once(times.drop_last());
    }
}

} // verus!
