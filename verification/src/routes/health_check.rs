//! `GET /health_check`: the service is up.

use crate::pipeline::OK;
use vstd::prelude::*;

verus! {

/// Answers a health check: success, with nothing to say and nothing to
/// store.
pub fn health_check() -> (status: u16)
    ensures
        status == OK,
{
    OK
}

} // verus!
