//! The phases that one extraction goes through.
//!
//! `Opened`, then `Materialized` once every entry is read and placed, then
//! `Dispatched` once the writes are handed out, then `Succeeded`. A failure
//! in any phase leads to `Failed`, where the extraction stays: what was
//! written before is not taken back.

use vstd::prelude::*;

verus! {

/// Where an extraction stands.
#[derive(Debug, Clone, Copy, PartialEq, Eq, Structural)]
pub enum Phase {
    /// The archive is open; nothing was read from it.
    Opened,
    /// Every entry was read into memory and given its path.
    Materialized,
    /// The writes were handed out.
    Dispatched,
    /// Every write ended well.
    Succeeded,
    /// A step failed.
    Failed,
}

impl Phase {
    /// Whether the extraction has ended.
    pub open spec fn is_terminal(self) -> bool {
        self == Phase::Succeeded || self == Phase::Failed
    }

    /// How many phases lie behind an extraction that has not failed.
    pub open spec fn progress(self) -> nat {
        match self {
            Phase::Opened => 0,
            Phase::Materialized => 1,
            Phase::Dispatched => 2,
            Phase::Succeeded => 3,
            Phase::Failed => 3,
        }
    }

    /// The phase that follows `self` when its work ended well (`ok`) or
    /// failed. An ended extraction stays where it is.
    pub open spec fn spec_advance(self, ok: bool) -> Phase {
        match self {
            Phase::Succeeded => Phase::Succeeded,
            Phase::Failed => Phase::Failed,
            Phase::Opened => if ok {
                Phase::Materialized
            } else {
                Phase::Failed
            },
            Phase::Materialized => if ok {
                Phase::Dispatched
            } else {
                Phase::Failed
            },
            Phase::Dispatched => if ok {
                Phase::Succeeded
            } else {
                Phase::Failed
            },
        }
    }

    /// The phase in which every extraction starts.
    pub fn start() -> (phase: Phase)
        ensures
            phase == Phase::Opened,
    {
        Phase::Opened
    }

    /// Whether the extraction has ended.
    pub fn has_ended(self) -> (b: bool)
        ensures
            b == self.is_terminal(),
    {
        match self {
            Phase::Succeeded => true,
            Phase::Failed => true,
            _ => false,
        }
    }

    /// Moves on after the work of the current phase ended well (`ok`) or
    /// failed.
    #[verifier::when_used_as_spec(spec_advance)]
    pub fn advance(self, ok: bool) -> (next: Phase)
        ensures
            next == self.spec_advance(ok),
    {
        match self {
            Phase::Succeeded => Phase::Succeeded,
            Phase::Failed => Phase::Failed,
            Phase::Opened => if ok {
                Phase::Materialized
            } else {
                Phase::Failed
            },
            Phase::Materialized => if ok {
                Phase::Dispatched
            } else {
                Phase::Failed
            },
            Phase::Dispatched => if ok {
                Phase::Succeeded
            } else {
                Phase::Failed
            },
        }
    }
}

/// No phase is skipped: work that ends well moves an extraction that has
/// not ended exactly one phase on.
pub proof fn lemma_no_phase_is_skipped(phase: Phase)
    requires
        !phase.is_terminal(),
    ensures
        phase.spec_advance(true).progress() == phase.progress() + 1,
        phase.spec_advance(true) != Phase::Failed,
{
}

/// A failure ends the extraction, and an ended extraction does not move:
/// `Failed` and `Succeeded` are left by no step.
pub proof fn lemma_ended_is_final(phase: Phase, ok: bool)
    ensures
        !phase.is_terminal() ==> phase.spec_advance(false) == Phase::Failed,
        phase.is_terminal() ==> phase.spec_advance(ok) == phase,
{
}

/// `Succeeded` is reached from `Opened` by three steps that end well, and
/// by no fewer.
pub proof fn lemma_success_takes_every_phase()
    ensures
        Phase::Opened.spec_advance(true).spec_advance(true).spec_advance(true) == Phase::Succeeded,
        Phase::Opened.spec_advance(true) != Phase::Succeeded,
        Phase::Opened.spec_advance(true).spec_advance(true) != Phase::Succeeded,
{
}

} // verus!
