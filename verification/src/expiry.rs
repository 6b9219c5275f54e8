//! Expiration instants: milliseconds since the Unix epoch, with one reserved
//! value for records that never expire.

use vstd::prelude::*;

verus! {

/// The expiration of a record that never expires: the largest `u128`, which
/// no instant lies beyond.
pub const NEVER_EXPIRE: u128 = 0xffff_ffff_ffff_ffff_ffff_ffff_ffff_ffff;

/// Milliseconds in one second of time-to-live.
pub const MILLIS_PER_SECOND: u128 = 1000;

/// A record is expired at `now` when it carries an expiration other than
/// `NEVER_EXPIRE` that lies strictly before `now`.
pub open spec fn spec_is_expired(expiration: u128, now: u128) -> bool {
    expiration != NEVER_EXPIRE && expiration < now
}

/// The expiration of a record written at `now` to live `ttl_seconds` more:
/// `now + ttl_seconds * 1000`, or `NEVER_EXPIRE` where that instant lies at
/// or beyond the largest `u128`.
pub open spec fn spec_expiration_after(now: u128, ttl_seconds: u128) -> u128 {
    if now + ttl_seconds * MILLIS_PER_SECOND < NEVER_EXPIRE {
        (now + ttl_seconds * MILLIS_PER_SECOND) as u128
    } else {
        NEVER_EXPIRE
    }
}

/// Whether a record with this expiration is expired at `now`.
#[verifier::when_used_as_spec(spec_is_expired)]
pub fn is_expired(expiration: u128, now: u128) -> (expired: bool)
    ensures
        expired == spec_is_expired(expiration, now),
{
    expiration != NEVER_EXPIRE && expiration < now
}

/// The expiration of a record written at `now` with a time-to-live of
/// `ttl_seconds` whole seconds.
#[verifier::when_used_as_spec(spec_expiration_after)]
pub fn expiration_after(now: u128, ttl_seconds: u128) -> (expiration: u128)
    ensures
        expiration == spec_expiration_after(now, ttl_seconds),
{
    match ttl_seconds.checked_mul(MILLIS_PER_SECOND) {
        Some(ttl_millis) => match now.checked_add(ttl_millis) {
            Some(at) => at,
            None => NEVER_EXPIRE,
        },
        None => NEVER_EXPIRE,
    }
}

/// A record written at `now` with a time-to-live is expired at `later`
/// exactly when `later` lies beyond `now + ttl_seconds * 1000`, however
/// large that sum is.
pub proof fn lemma_expired_after(now: u128, ttl_seconds: u128, later: u128)
    ensures
        spec_is_expired(spec_expiration_after(now, ttl_seconds), later) <==> later > now
            + ttl_seconds * MILLIS_PER_SECOND,
{
}

/// A record that never expires is expired at no instant.
pub proof fn lemma_never_expired(now: u128)
    ensures
        !spec_is_expired(NEVER_EXPIRE, now),
{
}

} // verus!
