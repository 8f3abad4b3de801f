pub mod assoc;
pub mod bytes_codec;
pub mod common;
pub mod compress;
pub mod config;
pub mod encrypt;
pub mod peer;
pub mod protocol;
pub mod rendezvous_server;
pub mod socket_client;

use vstd::prelude::*;

verus! {

/// Timestamps are modelled as whole seconds since an arbitrary process-local
/// origin; the I/O shell supplies the current value on each call.
pub type Secs = u64;

/// The point one hour before `now`, clamped at the origin.
pub open spec fn spec_expired_time(now: Secs) -> Secs {
    if now >= 3600 {
        (now - 3600) as u64
    } else {
        0
    }
}

/// The point in time one hour before `now`, clamped at the origin; newly
/// created peer records use it so that their rate-limit windows start expired.
pub fn get_expired_time(now: Secs) -> (r: Secs)
    ensures
        r == spec_expired_time(now),
{
    if now >= 3600 {
        now - 3600
    } else {
        0
    }
}

/// Whether two byte vectors hold the same bytes.
pub fn bytes_eq(a: &Vec<u8>, b: &Vec<u8>) -> (r: bool)
    ensures
        r == (a@ == b@),
{
    if a.len() != b.len() {
        return false;
    }
    let n = a.len();
    let mut i: usize = 0;
    while i < n
        invariant
            n == a@.len() == b@.len(),
            i <= n,
            forall|j: int| 0 <= j < i ==> a@[j] == b@[j],
        decreases n - i,
    {
        if a[i] != b[i] {
            return false;
        }
        i += 1;
    }
    proof {
        assert(a@ =~= b@);
    }
    true
}

} // verus!
