//! `GET /v1/health`: the liveness probe. It needs no authentication and
//! answers `ok` as plain text, telling nothing of the host or containers.

use vstd::prelude::*;

verus! {

/// The body of the health answer.
pub open spec fn health_body() -> Seq<char> {
    "ok"@
}

/// The health answer is the two letters `ok`.
pub proof fn lemma_health_body_is_ok()
    ensures
        health_body() == seq!['o', 'k'],
{
    reveal_strlit("ok");
    assert(health_body() =~= seq!['o', 'k']);
}

/// The answer to `GET /v1/health`.
pub fn health() -> (res: &'static str)
    ensures
        res@ == health_body(),
{
    "ok"
}

} // verus!
