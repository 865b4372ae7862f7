//! What an invocation reports.
use vstd::prelude::*;

pub mod trace;

verus! {

/// How much of the session a ranking could see.
#[derive(Clone, Copy, Debug, PartialEq, Eq, Structural)]
pub enum ContextQuality {
    Complete,
    Partial,
    PromptOnly,
    Insufficient,
}

/// The kind under which a failure is reported.
#[derive(Clone, Copy, Debug, PartialEq, Eq, Structural)]
pub enum ErrorKind {
    InvalidUsage,
    MissingSession,
    ProviderFailure,
    RequestBudget,
    ProviderCooldown,
    BudgetState,
    EmptyRoster,
    Timeout,
    MalformedInput,
    OversizedInput,
    NetworkDenied,
    StorageFailure,
    InvalidProviderResponse,
    CacheMiss,
}

/// The kind of a failure that only its exit code tells apart.
pub open spec fn kind_of_code(code: u8) -> ErrorKind {
    if code == 3 {
        ErrorKind::MissingSession
    } else if code == 4 {
        ErrorKind::ProviderFailure
    } else if code == 5 {
        ErrorKind::EmptyRoster
    } else if code == 6 {
        ErrorKind::Timeout
    } else if code == 7 {
        ErrorKind::MalformedInput
    } else if code == 8 {
        ErrorKind::NetworkDenied
    } else if code == 9 {
        ErrorKind::StorageFailure
    } else if code == 10 {
        ErrorKind::InvalidProviderResponse
    } else if code == 11 {
        ErrorKind::CacheMiss
    } else {
        ErrorKind::InvalidUsage
    }
}

/// The kind to report for an exit code whose failure names no known kind.
pub fn fallback_kind(code: u8) -> (kind: ErrorKind)
    ensures
        kind == kind_of_code(code),
{
    match code {
        3 => ErrorKind::MissingSession,
        4 => ErrorKind::ProviderFailure,
        5 => ErrorKind::EmptyRoster,
        6 => ErrorKind::Timeout,
        7 => ErrorKind::MalformedInput,
        8 => ErrorKind::NetworkDenied,
        9 => ErrorKind::StorageFailure,
        10 => ErrorKind::InvalidProviderResponse,
        11 => ErrorKind::CacheMiss,
        _ => ErrorKind::InvalidUsage,
    }
}

} // verus!
