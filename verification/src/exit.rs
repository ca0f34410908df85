//! Distinct exit codes for retry-aware callers.
use vstd::prelude::*;

verus! {

/// A condition that callers branch on by exit code.
#[derive(Debug, Clone, Copy, PartialEq, Eq, Structural)]
pub enum ExitKind {
    /// Every candidate slot's init mutex is held by another live acquire.
    Contended,
    /// Every slot in the requested group is held.
    Capacity,
    /// The requested lease is already held.
    LeaseHeld,
}

/// The exit code of a kind. 1 is the generic failure, 2 a usage error; 5 is
/// retired and stays unassigned.
pub open spec fn exit_code(k: ExitKind) -> i32 {
    match k {
        ExitKind::Contended => 3,
        ExitKind::Capacity => 4,
        ExitKind::LeaseHeld => 6,
    }
}

/// The name of a kind in messages.
pub open spec fn exit_label(k: ExitKind) -> Seq<char> {
    match k {
        ExitKind::Contended => "contended"@,
        ExitKind::Capacity => "capacity"@,
        ExitKind::LeaseHeld => "lease-held"@,
    }
}

impl ExitKind {
    /// The process exit code.
    pub fn code(self) -> (r: i32)
        ensures
            r == exit_code(self),
    {
        match self {
            ExitKind::Contended => 3,
            ExitKind::Capacity => 4,
            ExitKind::LeaseHeld => 6,
        }
    }

    /// The name in messages.
    pub fn label(self) -> (r: &'static str)
        ensures
            r@ == exit_label(self),
    {
        match self {
            ExitKind::Contended => "contended",
            ExitKind::Capacity => "capacity",
            ExitKind::LeaseHeld => "lease-held",
        }
    }
}

/// Two kinds never share a code, and none takes the code of success (0), of a
/// generic failure (1), of a usage error (2) or the retired 5.
pub proof fn exit_codes_are_distinct(a: ExitKind, b: ExitKind)
    ensures
        exit_code(a) == exit_code(b) ==> a == b,
        exit_code(a) >= 3,
        exit_code(a) != 5,
{
}

} // verus!
