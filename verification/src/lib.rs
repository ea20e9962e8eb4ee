use vstd::prelude::*;

pub mod channel;
pub mod codec;
pub mod error;
pub mod hexnum;
pub mod lifecycle;
pub mod validate;

verus! {

/// Largest aggregate channel size: UTF-8 bytes of the text plus the decoded
/// bytes of every attached file.
pub const MAX_CHANNEL_BYTES: usize = 100 * 1024 * 1024;

/// Channel lifetime used when the deployment does not configure one.
pub const DEFAULT_CHANNEL_TTL_SECONDS: u64 = 900;

/// Liveness probe answer for the service boundary.
pub fn health_check() -> (r: &'static str)
    ensures
        r@ == "ok"@,
{
    "ok"
}

} // verus!
