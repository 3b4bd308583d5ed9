//! Process-wide configuration, built once at startup and passed by reference
//! into the codec, the resolver and the digest routines.

use vstd::prelude::*;

verus! {

/// The environment-provided configuration: connection target, digest salt,
/// token-signing secret, and the flag that test deployments set to widen
/// expiry leeway. The codec here checks structure and signature only and
/// leaves expiry to the resolver's strict comparison, so an expired
/// credential is always classified as expired and the flag changes nothing;
/// it is kept so that existing deployments' environments remain valid.
pub struct Env {
    pub database_url: String,
    pub digest_salt: String,
    pub jwt_secret: String,
    pub test_expired_token: bool,
}

} // verus!
