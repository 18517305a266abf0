//! Deferred-panic bookkeeping for grouped checks.
//!
//! A scope groups several checks: while at least one scope is registered, a
//! failed check only records that a panic is owed, and the panic is raised
//! when the outermost scope closes.  The per-thread storage and the panic
//! itself live in the embedding binary; this module holds the state machine
//! over an explicit [`CheckStatus`] value.

use vstd::prelude::*;

verus! {

/// The per-thread check bookkeeping: how many scopes are open and whether a
/// deferred panic is owed.
#[derive(Clone, Copy, PartialEq, Eq, Structural, Debug)]
pub struct CheckStatus {
    pub scopes_registered: usize,
    pub panic: bool,
}

impl CheckStatus {
    /// The initial state: no scopes, no panic owed.
    pub fn new() -> (r: CheckStatus)
        ensures
            r == (CheckStatus { scopes_registered: 0, panic: false }),
    {
        CheckStatus { scopes_registered: 0, panic: false }
    }
}

impl Default for CheckStatus {
    /// The initial state: no scopes, no panic owed.
    fn default() -> (r: CheckStatus)
        ensures
            r == (CheckStatus { scopes_registered: 0, panic: false }),
    {
        CheckStatus { scopes_registered: 0, panic: false }
    }
}

/// Open one check scope.
pub fn register_check_scope(status: &mut CheckStatus)
    requires
        old(status).scopes_registered < usize::MAX,
    ensures
        *final(status) == (CheckStatus {
            scopes_registered: (old(status).scopes_registered + 1) as usize,
            ..*old(status)
        }),
{
    status.scopes_registered = status.scopes_registered + 1;
}

/// Close one check scope; the result says whether a deferred panic must now
/// be raised.  The panic flag is consumed either way.
pub fn close_check_scope(status: &mut CheckStatus) -> (should_panic: bool)
    requires
        old(status).scopes_registered > 0,
    ensures
        *final(status) == (CheckStatus {
            scopes_registered: (old(status).scopes_registered - 1) as usize,
            panic: false,
        }),
        should_panic == old(status).panic,
{
    status.scopes_registered = status.scopes_registered - 1;
    let should_panic = status.panic;
    status.panic = false;
    should_panic
}

/// Record a failed check: inside a scope the panic is deferred (the result is
/// true and the panic flag is set), outside any scope the state is untouched
/// and the caller must panic itself, after printing.
pub fn check_failed(status: &mut CheckStatus) -> (deferred: bool)
    ensures
        deferred == (old(status).scopes_registered > 0),
        deferred ==> *final(status) == (CheckStatus { panic: true, ..*old(status) }),
        !deferred ==> *final(status) == *old(status),
{
    if status.scopes_registered > 0 {
        status.panic = true;
        true
    } else {
        false
    }
}

} // verus!
