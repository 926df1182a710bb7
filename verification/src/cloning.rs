//! Fresh vectors with the same contents: the small copies the finalizers
//! and snapshots need, each stated by its view.

use vstd::prelude::*;

use crate::net::Ipv4Cidr;
use crate::protocol::{IpsEntry, ModeEntry};
use crate::server_core::FlowRule;

verus! {

/// A fresh vector with the same bytes.
pub fn clone_bytes(v: &Vec<u8>) -> (r: Vec<u8>)
    ensures
        r@ == v@,
{
    let mut out: Vec<u8> = Vec::new();
    let n = v.len();
    let mut i: usize = 0;
    while i < n
        invariant
            n == v@.len(),
            i <= n,
            out@ == v@.take(i as int),
        decreases n - i,
    {
        out.push(v[i]);
        proof {
            vstd::assert_seqs_equal!(out@ == v@.take(i + 1int));
        }
        i += 1;
    }
    proof {
        vstd::assert_seqs_equal!(out@ == v@);
    }
    out
}

/// A fresh vector of the same CIDR blocks.
pub fn clone_cidrs(v: &Vec<Ipv4Cidr>) -> (r: Vec<Ipv4Cidr>)
    ensures
        r@ == v@,
{
    let mut out: Vec<Ipv4Cidr> = Vec::new();
    let n = v.len();
    let mut i: usize = 0;
    while i < n
        invariant
            n == v@.len(),
            i <= n,
            out@ == v@.take(i as int),
        decreases n - i,
    {
        out.push(v[i]);
        proof {
            vstd::assert_seqs_equal!(out@ == v@.take(i + 1int));
        }
        i += 1;
    }
    proof {
        vstd::assert_seqs_equal!(out@ == v@);
    }
    out
}

/// A fresh vector of the same per-peer overrides.
pub fn clone_mode_entries(v: &Vec<ModeEntry>) -> (r: Vec<ModeEntry>)
    ensures
        r@ == v@,
{
    let mut out: Vec<ModeEntry> = Vec::new();
    let n = v.len();
    let mut i: usize = 0;
    while i < n
        invariant
            n == v@.len(),
            i <= n,
            out@ == v@.take(i as int),
        decreases n - i,
    {
        out.push(v[i]);
        proof {
            vstd::assert_seqs_equal!(out@ == v@.take(i + 1int));
        }
        i += 1;
    }
    proof {
        vstd::assert_seqs_equal!(out@ == v@);
    }
    out
}

/// A fresh vector of entries with the same owners and blocks.
pub fn clone_ips_entries(v: &Vec<IpsEntry>) -> (r: Vec<IpsEntry>)
    ensures
        r@.map_values(|e: IpsEntry| e@) == v@.map_values(|e: IpsEntry| e@),
{
    let mut out: Vec<IpsEntry> = Vec::new();
    let n = v.len();
    let mut i: usize = 0;
    while i < n
        invariant
            n == v@.len(),
            i <= n,
            out@.len() == i,
            forall|j: int| 0 <= j < i ==> (#[trigger] out@[j])@ == v@[j]@,
        decreases n - i,
    {
        let e = IpsEntry { owner: v[i].owner, cidrs: clone_cidrs(&v[i].cidrs) };
        out.push(e);
        i += 1;
    }
    proof {
        vstd::assert_seqs_equal!(out@.map_values(|e: IpsEntry| e@) ==
            v@.map_values(|e: IpsEntry| e@));
    }
    out
}

/// A fresh vector of the same flow rules.
pub fn clone_flow_rules(v: &Vec<FlowRule>) -> (r: Vec<FlowRule>)
    ensures
        r@ == v@,
{
    let mut out: Vec<FlowRule> = Vec::new();
    let n = v.len();
    let mut i: usize = 0;
    while i < n
        invariant
            n == v@.len(),
            i <= n,
            out@ == v@.take(i as int),
        decreases n - i,
    {
        out.push(v[i]);
        proof {
            vstd::assert_seqs_equal!(out@ == v@.take(i + 1int));
        }
        i += 1;
    }
    proof {
        vstd::assert_seqs_equal!(out@ == v@);
    }
    out
}

} // verus!
