//! The request/response correlator's decision: a query's outcome is the
//! response that arrived in time, or a timeout error, and always exactly one
//! of the two. The host races the response channel against the deadline and
//! hands the outcome here.

use vstd::prelude::*;

use crate::events::ResponseEvent;

verus! {

/// How long a correlated query waits for its response, in milliseconds.
pub const REQUEST_TIMEOUT_MS: u64 = 100;

/// How many not-yet-dispatched requests and responses a channel admits.
pub const CHANNEL_CAPACITY: usize = 5;

/// The single answer a query resolves to: the response, when one arrived
/// within the deadline, and otherwise exactly one timeout error.
pub fn resolve_query(received: Option<ResponseEvent>) -> (r: ResponseEvent)
    ensures
        received matches Some(resp) ==> r == resp,
        received is None ==> (r matches ResponseEvent::Error(m) && m@ == "TIMEOUT"@),
{
    match received {
        Some(resp) => resp,
        None => ResponseEvent::Error("TIMEOUT".to_owned()),
    }
}

} // verus!
