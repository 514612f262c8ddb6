use vstd::prelude::*;

verus! {

/// An epoch: a run of `duration` consecutive block heights.
#[derive(Clone, Copy, Debug, PartialEq, Eq, Structural)]
pub struct Epoch {
    pub index: u64,
    pub duration: u64,
}

/// Whether `height` is the last height of its epoch, for epochs of `duration` blocks.
pub open spec fn is_epoch_end(height: int, duration: int) -> bool {
    (height / duration + 1) * duration - 1 == height
}

impl Epoch {
    /// The epoch that holds `height`.
    pub fn from_height(height: u64, duration: u64) -> (r: Epoch)
        requires
            duration > 0,
        ensures
            r.index == height / duration,
            r.duration == duration,
    {
        Epoch { index: height / duration, duration }
    }

    /// Whether `height` is the last height of this epoch.
    pub fn is_end_height(&self, height: u64) -> (r: bool)
        requires
            self.duration > 0,
            self.index == height / self.duration,
        ensures
            r == is_epoch_end(height as int, self.duration as int),
    {
        let d = self.duration;
        proof {
            let h = height as int;
            let di = d as int;
            assert(h == di * (h / di) + h % di) by (nonlinear_arith) requires di > 0;
            assert((h / di + 1) * di == di * (h / di) + di) by (nonlinear_arith);
        }
        height % d == d - 1
    }
}

} // verus!
