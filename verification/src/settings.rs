//! The limits that the connections to archive.org are held to.

use vstd::prelude::*;

verus! {

/// How long a connection may take to come about. Reading has no limit, so that
/// large files can take their time.
pub const CONNECTION_TIMEOUT_SECS: u64 = 600;

/// How long an unused connection is kept.
pub const POOL_IDLE_TIMEOUT_SECS: u64 = 90;

/// How many unused connections to one host are kept.
pub const POOL_MAX_IDLE_PER_HOST: usize = 1;

/// How often an open connection is probed.
pub const TCP_KEEPALIVE_SECS: u64 = 60;

/// How long the check that a URL can be reached may take.
pub const ACCESS_CHECK_TIMEOUT_SECS: u64 = 60;

/// A check of a URL, or a pause between two probes, is shorter than the wait for
/// a connection, and an unused connection outlives the check that opened it.
pub proof fn law_checks_are_shorter_than_connections()
    ensures
        CONNECTION_TIMEOUT_SECS == 10 * ACCESS_CHECK_TIMEOUT_SECS,
        ACCESS_CHECK_TIMEOUT_SECS == 60,
        TCP_KEEPALIVE_SECS == 60,
        POOL_IDLE_TIMEOUT_SECS == 90,
        POOL_MAX_IDLE_PER_HOST == 1,
{
}

} // verus!
