//! Processes and their lifecycle states.

use vstd::prelude::*;

verus! {

/// Lifecycle state of a process, declared from most to least urgent.
#[derive(Debug, PartialEq, Eq, Structural, Clone, Copy, PartialOrd, Ord)]
pub enum ProcessState {
    NeedRam,
    Dying,
    Crying,
    Angry,
    Annoyed,
    Satisfied,
    Happy,
    Finished,
    Waiting,
}

impl ProcessState {
    /// Place of the state in the urgency order: 0 is the most urgent.
    pub open spec fn rank(self) -> nat {
        match self {
            ProcessState::NeedRam => 0,
            ProcessState::Dying => 1,
            ProcessState::Crying => 2,
            ProcessState::Angry => 3,
            ProcessState::Annoyed => 4,
            ProcessState::Satisfied => 5,
            ProcessState::Happy => 6,
            ProcessState::Finished => 7,
            ProcessState::Waiting => 8,
        }
    }

    /// The states in which a process has no more use for its CPU.
    pub open spec fn is_done_with_cpu(self) -> bool {
        self == ProcessState::Finished || self == ProcessState::Happy || self
            == ProcessState::Waiting
    }

    /// The rank as a machine integer.
    pub fn urgency(self) -> (r: u8)
        ensures
            r == self.rank(),
    {
        match self {
            ProcessState::NeedRam => 0,
            ProcessState::Dying => 1,
            ProcessState::Crying => 2,
            ProcessState::Angry => 3,
            ProcessState::Annoyed => 4,
            ProcessState::Satisfied => 5,
            ProcessState::Happy => 6,
            ProcessState::Finished => 7,
            ProcessState::Waiting => 8,
        }
    }

    /// Whether a process in this state should keep (or be given) a CPU.
    pub fn should_be_on_cpu(self) -> (r: bool)
        ensures
            r == !self.is_done_with_cpu(),
    {
        !matches!(self, ProcessState::Finished | ProcessState::Happy | ProcessState::Waiting)
    }
}

/// A process that occupies a CPU slot.
#[derive(Debug, PartialEq, Eq, Structural, Clone, Copy)]
pub struct CpuProcess {
    pub state: ProcessState,
    /// Index of the CPU slot.
    pub pos: u32,
}

/// A process that waits in the idle queue.
#[derive(Debug, PartialEq, Eq, Structural, Clone, Copy, PartialOrd, Ord)]
pub struct IdleProcess {
    pub state: ProcessState,
    /// Index of the idle-queue cell.
    pub pos: u32,
}

impl IdleProcess {
    /// The scheduling order: by urgency of the state, then by cell index.
    pub open spec fn precedes(self, other: IdleProcess) -> bool {
        self.state.rank() < other.state.rank() || (self.state.rank() == other.state.rank()
            && self.pos <= other.pos)
    }

    /// Decides [`IdleProcess::precedes`].
    pub fn comes_before(&self, other: &IdleProcess) -> (r: bool)
        ensures
            r == self.precedes(*other),
    {
        let a: u8 = self.state.urgency();
        let b: u8 = other.state.urgency();
        a < b || (a == b && self.pos <= other.pos)
    }
}

} // verus!
