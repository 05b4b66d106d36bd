//! Counting frames.

use crate::binary32::Binary32;
use vstd::prelude::*;

verus! {

/// How long frames are counted before the rate is worked out: 0.5 seconds.
pub const COUNTING_TIME: u32 = 0x3f00_0000;

#[derive(Debug, Clone, Copy, PartialEq, Eq, Structural)]
pub struct FpsCounter {
    pub accum_time: Binary32,
    pub accum_frames: u32,
    pub fps: Binary32,
}

impl FpsCounter {
    /// The counter after one more frame: once enough time has been counted the
    /// rate is worked out and counting starts anew.
    pub open spec fn counted(self, delta_secs: Binary32) -> FpsCounter {
        let time = self.accum_time.sum(delta_secs);
        let frames = (self.accum_frames + 1) as u32;
        if (Binary32 { bits: COUNTING_TIME }).at_most(time) {
            FpsCounter {
                accum_time: Binary32 { bits: 0 },
                accum_frames: 0,
                fps: Binary32::of_int(frames as int).quotient(time),
            }
        } else {
            FpsCounter { accum_time: time, accum_frames: frames, fps: self.fps }
        }
    }

    pub fn new() -> (counter: FpsCounter)
        ensures
            counter == (FpsCounter {
                accum_time: Binary32 { bits: 0 },
                accum_frames: 0,
                fps: Binary32 { bits: 0 },
            }),
    {
        FpsCounter {
            accum_time: Binary32 { bits: 0 },
            accum_frames: 0,
            fps: Binary32 { bits: 0 },
        }
    }

    pub fn count_frame(&mut self, delta_secs: Binary32)
        requires
            old(self).accum_frames < u32::MAX,
        ensures
            *final(self) == old(self).counted(delta_secs),
    {
        self.accum_time = self.accum_time.plus(delta_secs);
        self.accum_frames = self.accum_frames + 1;
        if (Binary32 { bits: COUNTING_TIME }).le(self.accum_time) {
            self.fps = Binary32::from_u32(self.accum_frames).over(self.accum_time);
            self.accum_time = Binary32 { bits: 0 };
            self.accum_frames = 0;
        }
    }
}

} // verus!
