//! When a part is measured, and when it is closed.
//!
//! Before a line is written, the driver asks whether exactly
//! `CHECKPOINT_LINES` lines have gone to the current part since the last
//! measurement (or since the part was opened). If so, the part is measured
//! first, and it is closed when its size has reached the target; the line
//! then goes to the part that is open. A part thus never ends on a
//! measurement with no line after it, and an input of exactly a multiple of
//! `CHECKPOINT_LINES` lines leaves no empty last part.

use vstd::prelude::*;

verus! {

/// Lines written to a part between two measurements of its size.
pub const CHECKPOINT_LINES: u64 = 10_000;

/// Whether a part of `measured` bytes is closed under target `target`.
pub fn should_roll_over(measured: u64, target: u64) -> (r: bool)
    ensures
        r == (measured >= target),
{
    measured >= target
}

/// What the driver stands for.
pub struct DriverState {
    /// The index of the open part.
    pub part: nat,
    /// Lines written to the open part since its last measurement.
    pub since_check: nat,
    /// The size at which a measured part is closed.
    pub target: nat,
}

/// The decision to take on a measurement.
#[derive(Debug, Clone, Copy, PartialEq, Eq, Structural)]
pub enum Decision {
    /// The part stays open.
    Keep,
    /// The part is closed and the next index is opened.
    RollOver,
    /// The part would be closed, but the next index does not fit in `u32`.
    OutOfIndices,
}

pub struct Driver {
    part: u32,
    since_check: u64,
    target: u64,
}

impl View for Driver {
    type V = DriverState;

    closed spec fn view(&self) -> DriverState {
        DriverState {
            part: self.part as nat,
            since_check: self.since_check as nat,
            target: self.target as nat,
        }
    }
}

impl Driver {
    /// At most a checkpoint's worth of lines go unmeasured.
    pub open spec fn wf(&self) -> bool {
        self@.since_check <= CHECKPOINT_LINES && self@.part <= u32::MAX
    }

    /// Starts at part 0 with no line written.
    pub fn new(target: u64) -> (r: Driver)
        ensures
            r.wf(),
            r@ == (DriverState { part: 0, since_check: 0, target: target as nat }),
    {
        Driver { part: 0, since_check: 0, target }
    }

    pub fn part_index(&self) -> (r: u32)
        ensures
            r as nat == self@.part,
    {
        self.part
    }

    pub fn target(&self) -> (r: u64)
        ensures
            r as nat == self@.target,
    {
        self.target
    }

    /// Whether the open part is to be measured before the next line goes in.
    pub fn check_due(&self) -> (r: bool)
        ensures
            r == (self@.since_check == CHECKPOINT_LINES),
    {
        self.since_check == CHECKPOINT_LINES
    }

    /// Takes the open part's measured size at a checkpoint: the count starts
    /// over, and the part is closed when the size has reached the target.
    pub fn on_measured(&mut self, measured: u64) -> (r: Decision)
        requires
            old(self)@.since_check == CHECKPOINT_LINES,
        ensures
            final(self).wf(),
            final(self)@.since_check == 0,
            final(self)@.target == old(self)@.target,
            r == (if measured < old(self)@.target {
                Decision::Keep
            } else if old(self)@.part < u32::MAX {
                Decision::RollOver
            } else {
                Decision::OutOfIndices
            }),
            final(self)@.part == if r == Decision::RollOver {
                old(self)@.part + 1
            } else {
                old(self)@.part
            },
    {
        self.since_check = 0;
        if !should_roll_over(measured, self.target) {
            Decision::Keep
        } else if self.part < u32::MAX {
            self.part = self.part + 1;
            Decision::RollOver
        } else {
            Decision::OutOfIndices
        }
    }

    /// Counts a line written to the open part.
    pub fn on_line_written(&mut self)
        requires
            old(self)@.since_check < CHECKPOINT_LINES,
        ensures
            final(self).wf(),
            final(self)@ == (DriverState { since_check: old(self)@.since_check + 1, ..old(self)@ }),
    {
        self.since_check = self.since_check + 1;
    }
}

} // verus!
