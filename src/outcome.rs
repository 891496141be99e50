use vstd::prelude::*;

verus! {

/// Why a synchronization ended without adding anything.
#[derive(Clone, Copy, Debug, PartialEq, Eq, Structural)]
pub enum FailReason {
    /// Every candidate was already present in the collection.
    NothingToAdd,
    /// The remote "add items" call failed.
    WriteFailure,
    /// A paginated read of the collection failed (network, auth, provider error).
    ReadFailure,
}

/// The three-way result of one synchronization.
#[derive(Clone, Copy, Debug, PartialEq, Eq, Structural)]
pub enum SyncOutcome {
    /// All candidates were new and were added.
    Added,
    /// Some candidates were already present and were dropped; the rest were added.
    AddedWithDuplicates,
    /// Nothing was added.
    Failed(FailReason),
}

impl FailReason {
    /// A short diagnostic text for the reason.
    pub fn description(&self) -> (r: &'static str)
        ensures
            *self == FailReason::NothingToAdd ==> r@ == "empty after filtering"@,
            *self == FailReason::WriteFailure ==> r@ == "remote add call failed"@,
            *self == FailReason::ReadFailure ==> r@ == "remote read/auth failed"@,
    {
        match self {
            FailReason::NothingToAdd => "empty after filtering",
            FailReason::WriteFailure => "remote add call failed",
            FailReason::ReadFailure => "remote read/auth failed",
        }
    }
}

impl SyncOutcome {
    /// The emoji put as a reaction on the message that triggered the synchronization.
    pub fn reaction(&self) -> (r: &'static str)
        ensures
            *self == SyncOutcome::Added ==> r@ == "\u{1F50A}"@,
            *self == SyncOutcome::AddedWithDuplicates ==> r@ == "\u{2049}\u{FE0F}"@,
            *self is Failed ==> r@ == "\u{1F507}"@,
    {
        match self {
            SyncOutcome::Added => "\u{1F50A}",
            SyncOutcome::AddedWithDuplicates => "\u{2049}\u{FE0F}",
            SyncOutcome::Failed(_) => "\u{1F507}",
        }
    }

    /// Whether anything was added to the collection.
    pub fn is_success(&self) -> (r: bool)
        ensures
            r == !(*self is Failed),
    {
        !matches!(self, SyncOutcome::Failed(_))
    }
}

} // verus!
