//! The presence gate: whether the user approves what the protocol engine is
//! about to do.

use vstd::prelude::*;
use crate::error::Error;

verus! {

/// A presence gate that approves every request. The caller waits for
/// `approval_delay_millis` before it asks, as a person would take time to
/// answer.
#[derive(Clone, Copy, Debug)]
pub struct AutoApproveUserPresence;

impl AutoApproveUserPresence {
    /// How long the caller waits before an approval, in milliseconds.
    pub fn approval_delay_millis(&self) -> (r: u64)
        ensures
            r == 200,
    {
        200
    }

    /// Whether `application` may register a credential: always.
    pub fn approve_registration(&self, application: &[u8; 32]) -> (r: Result<bool, Error>)
        ensures
            r.is_ok(),
            r.unwrap(),
    {
        Ok(true)
    }

    /// Whether `application` may authenticate: always.
    pub fn approve_authentication(&self, application: &[u8; 32]) -> (r: Result<bool, Error>)
        ensures
            r.is_ok(),
            r.unwrap(),
    {
        Ok(true)
    }

    /// Asks for the user's attention. This gate has nothing to show, and
    /// never fails.
    pub fn wink(&self) -> (r: Result<(), Error>)
        ensures
            r.is_ok(),
    {
        Ok(())
    }
}

} // verus!
