//! Client-side NAT classification decisions.
//!
//! The probing itself is I/O: the shell opens two stream connections from
//! one local endpoint to the probe ports and collects the reported external
//! ports. What the two reports mean, and how long to wait before another
//! attempt, is decided here.

use vstd::prelude::*;

use crate::config::{NAT_TYPE_ASYMMETRIC, NAT_TYPE_SYMMETRIC};

verus! {

/// Longest pause between NAT-test attempts, in seconds.
pub const MAX_NAT_RETEST_INTERVAL: u64 = 300;

/// What two probe reports say about the NAT, if anything: ports must be
/// present and positive to count; equal reports mean the NAT preserves the
/// local port across destinations (asymmetric-friendly), different reports
/// mean it does not (symmetric), and anything else is inconclusive.
pub fn classify_nat(port1: Option<i32>, port2: Option<i32>) -> (r: Option<i32>)
    ensures
        r == (match (port1, port2) {
            (Some(p1), Some(p2)) => {
                if p1 > 0 && p2 > 0 {
                    if p1 == p2 {
                        Some(NAT_TYPE_ASYMMETRIC)
                    } else {
                        Some(NAT_TYPE_SYMMETRIC)
                    }
                } else {
                    None::<i32>
                }
            },
            _ => None::<i32>,
        }),
{
    match (port1, port2) {
        (Some(p1), Some(p2)) => {
            if p1 > 0 && p2 > 0 {
                if p1 == p2 {
                    Some(NAT_TYPE_ASYMMETRIC)
                } else {
                    Some(NAT_TYPE_SYMMETRIC)
                }
            } else {
                None
            }
        },
        _ => None,
    }
}

/// A connection through a SOCKS5 proxy defeats hole-punching outright, so a
/// proxied client classifies as symmetric without probing; a direct client
/// has to probe.
pub fn proxied_nat_type(is_direct: bool) -> (r: Option<i32>)
    ensures
        r == if is_direct {
            None::<i32>
        } else {
            Some(NAT_TYPE_SYMMETRIC)
        },
{
    if is_direct {
        None
    } else {
        Some(NAT_TYPE_SYMMETRIC)
    }
}

/// The probe targets sit one port apart, so the classifier derives its
/// second target by shifting the first one's port.
pub fn increase_port(host: &str, offset: i32) -> (r: String)
    ensures
        r@ == crate::socket_client::spec_increase_port(host@, offset as int),
{
    crate::socket_client::increase_port(host, offset)
}

/// The pause before the next NAT-test attempt: doubling plus one, capped.
pub fn next_retest_interval(cur: u64) -> (r: u64)
    ensures
        r as nat == if 2 * cur + 1 > MAX_NAT_RETEST_INTERVAL {
            MAX_NAT_RETEST_INTERVAL as nat
        } else {
            (2 * cur + 1) as nat
        },
{
    if cur >= (MAX_NAT_RETEST_INTERVAL - 1) / 2 + 1 {
        MAX_NAT_RETEST_INTERVAL
    } else {
        2 * cur + 1
    }
}

} // verus!
