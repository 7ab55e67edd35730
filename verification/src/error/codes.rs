//! The error codes of PengAgent Protocol v1.

use vstd::prelude::*;

verus! {

/// 401: the token is missing or wrong.
pub const UNAUTHORIZED: &'static str = "unauthorized";

/// 403: the token lacks the capability.
pub const FORBIDDEN: &'static str = "forbidden";

/// 404: no such resource.
pub const NOT_FOUND: &'static str = "not_found";

/// 400: the request is malformed.
pub const VALIDATION_FAILED: &'static str = "validation_failed";

/// 403: the container is not on the restart whitelist.
pub const RESTART_NOT_WHITELISTED: &'static str = "restart_not_whitelisted";

/// 500: the agent failed.
pub const AGENT_INTERNAL_ERROR: &'static str = "agent_internal_error";

/// 503: the agent is restarting or busy.
pub const AGENT_BUSY: &'static str = "agent_busy";

} // verus!
