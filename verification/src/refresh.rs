//! Auto-refresh token management.
//!
//! Tracks whether an authenticated session should refresh its token
//! before it expires, and when a refresh is due.

use vstd::prelude::*;
use crate::jwt::{get_token_payload, jwt_payload_section, payload_expired};

verus! {

/// Configuration for auto-refresh behavior.
#[derive(Debug, Clone)]
pub struct AutoRefreshConfig {
    /// Seconds before token expiration at which a refresh triggers.
    pub threshold: u64,
}

impl Default for AutoRefreshConfig {
    /// Five minutes before expiration.
    fn default() -> (r: Self)
        ensures
            r.threshold == 300,
    {
        AutoRefreshConfig { threshold: 300 }
    }
}

/// Auto-refresh state holder.
#[derive(Debug, Clone)]
pub struct AutoRefreshState {
    /// Original model id that was authenticated.
    pub original_model_id: Option<String>,
    /// Original collection id.
    pub original_collection_id: Option<String>,
    /// Whether auto-refresh is active.
    pub is_active: bool,
}

impl Default for AutoRefreshState {
    /// Inactive, with no remembered identity.
    fn default() -> (r: Self)
        ensures
            !r.is_active,
            r.original_model_id is None,
            r.original_collection_id is None,
    {
        AutoRefreshState {
            original_model_id: Option::None,
            original_collection_id: Option::None,
            is_active: false,
        }
    }
}

/// Resets any previous auto-refresh registration.
pub fn reset_auto_refresh(state: &mut AutoRefreshState)
    ensures
        !final(state).is_active,
        final(state).original_model_id is None,
        final(state).original_collection_id is None,
{
    state.is_active = false;
    state.original_model_id = Option::None;
    state.original_collection_id = Option::None;
}

/// Whether the token is still valid but will expire within the
/// threshold, so a refresh is due: for one clock reading, the token is
/// not yet expired but is expired once the threshold is applied.  An
/// empty or shapeless token never needs one.
pub fn needs_refresh(token: &str, threshold: u64) -> (r: bool)
    ensures
        token@.len() == 0 ==> !r,
        jwt_payload_section(token@) is None ==> !r,
{
    if token.is_empty() {
        return false;
    }
    let payload = get_token_payload(token);
    let now = crate::jwt::now_unix_secs();
    let is_valid = !payload_expired(&payload, 0, now);
    let expires_soon = payload_expired(&payload, threshold, now);
    is_valid && expires_soon
}

} // verus!
