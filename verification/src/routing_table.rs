//! The longest-prefix routing table that steers TUN packets: IPv4 CIDR to
//! next-hop lookup over an array kept sorted by descending prefix length, so
//! that the first containing entry is a most-specific match. Ties within an
//! equal prefix go to the earlier-inserted entry.

use vstd::prelude::*;

use crate::net::Ipv4Cidr;

verus! {

/// Why a route entry exists: the group's own virtual range, a CIDR owned by
/// one peer, or an allowed-IPs rule.
#[derive(Clone, Copy, Debug, PartialEq, Eq, Structural)]
pub enum ItemKind {
    VirtualRange,
    IpsRange,
    AllowedIpsRange,
}

/// Room for route metadata beyond the kind.
#[derive(Clone, Copy, Debug, PartialEq, Eq, Structural)]
pub struct Extend {
    pub item_kind: Option<ItemKind>,
}

/// One route: a destination block, the peer to send through, and the local
/// interface it belongs to.
#[derive(Clone, Copy, Debug, PartialEq, Eq, Structural)]
pub struct Item {
    pub cidr: Ipv4Cidr,
    pub gateway: u32,
    pub interface_index: usize,
    pub extend: Extend,
}

/// The built-in array backend.
#[derive(Clone, Debug)]
pub struct ArrayRoutingTable {
    inner: Vec<Item>,
}

impl ArrayRoutingTable {
    pub closed spec fn view(self) -> Seq<Item> {
        self.inner@
    }

    /// Entries are ordered by descending prefix length, and every block is a
    /// real one.
    pub open spec fn wf(self) -> bool {
        &&& forall|i: int, j: int|
            0 <= i < j < self@.len() ==> (#[trigger] self@[i]).cidr.prefix >= (
            #[trigger] self@[j]).cidr.prefix
        &&& forall|i: int| 0 <= i < self@.len() ==> (#[trigger] self@[i]).cidr.wf()
    }

    pub fn new() -> (r: ArrayRoutingTable)
        ensures
            r@ =~= Seq::<Item>::empty(),
            r.wf(),
    {
        ArrayRoutingTable { inner: Vec::new() }
    }

    pub fn len(&self) -> (r: usize)
        ensures
            r == self@.len(),
    {
        self.inner.len()
    }

    pub fn get(&self, i: usize) -> (r: Item)
        requires
            i < self@.len(),
        ensures
            r == self@[i as int],
    {
        self.inner[i]
    }

    /// Insert before the first entry with a strictly smaller prefix, keeping
    /// the descending order; among equal prefixes the new entry comes last.
    pub fn add(&mut self, item: Item)
        requires
            old(self).wf(),
            item.cidr.wf(),
            old(self)@.len() < usize::MAX,
        ensures
            final(self).wf(),
            exists|k: int|
                0 <= k <= old(self)@.len() && final(self)@ == #[trigger] old(self)@.insert(
                    k,
                    item,
                ) && (forall|j: int| 0 <= j < k ==> (#[trigger] old(self)@[j]).cidr.prefix >= item.cidr.prefix)
                    && (k < old(self)@.len() ==> old(self)@[k].cidr.prefix < item.cidr.prefix),
    {
        let n = self.inner.len();
        let mut i: usize = 0;
        while i < n && self.inner[i].cidr.prefix >= item.cidr.prefix
            invariant
                n == self@.len(),
                i <= n,
                self@ == old(self)@,
                old(self).wf(),
                forall|j: int| 0 <= j < i ==> (#[trigger] self@[j]).cidr.prefix >= item.cidr.prefix,
            decreases n - i,
        {
            i += 1;
        }
        let ghost pre = self@;
        let ghost k = i as int;
        proof {
            assert(k < pre.len() ==> pre[k].cidr.prefix < item.cidr.prefix);
        }
        self.inner.insert(i, item);
        proof {
            assert(self@ == pre.insert(k, item));
            assert forall|a: int, b: int| 0 <= a < b < self@.len() implies (
            #[trigger] self@[a]).cidr.prefix >= (#[trigger] self@[b]).cidr.prefix by {
                let s = self@;
                if a < k {
                    assert(s[a] == pre[a]);
                } else if a == k {
                    assert(s[a] == item);
                } else {
                    assert(s[a] == pre[a - 1]);
                }
                if b < k {
                    assert(s[b] == pre[b]);
                } else if b == k {
                    assert(s[b] == item);
                } else {
                    assert(s[b] == pre[b - 1]);
                }
            }
            assert forall|j: int| 0 <= j < self@.len() implies (#[trigger] self@[j]).cidr.wf() by {
                if j < k {
                    assert(self@[j] == pre[j]);
                } else if j > k {
                    assert(self@[j] == pre[j - 1]);
                }
            }
        }
    }

    /// Remove the first entry whose block equals `cidr`, handing it back.
    pub fn remove(&mut self, cidr: &Ipv4Cidr) -> (r: Option<Item>)
        requires
            old(self).wf(),
        ensures
            final(self).wf(),
            match r {
                None => final(self)@ == old(self)@ && (forall|i: int|
                    0 <= i < old(self)@.len() ==> (#[trigger] old(self)@[i]).cidr != *cidr),
                Some(item) => exists|k: int|
                    0 <= k < old(self)@.len() && #[trigger] old(self)@[k] == item && item.cidr
                        == *cidr && final(self)@ == old(self)@.remove(k) && (forall|j: int|
                        0 <= j < k ==> (#[trigger] old(self)@[j]).cidr != *cidr),
            },
    {
        let n = self.inner.len();
        let mut i: usize = 0;
        while i < n
            invariant
                n == self@.len(),
                i <= n,
                self@ == old(self)@,
                old(self).wf(),
                forall|j: int| 0 <= j < i ==> (#[trigger] self@[j]).cidr != *cidr,
            decreases n - i,
        {
            if self.inner[i].cidr.addr == cidr.addr && self.inner[i].cidr.prefix == cidr.prefix {
                let item = self.inner.remove(i);
                return Some(item);
            }
            i += 1;
        }
        None
    }

    /// Longest-prefix lookup: the first containing entry. When it returns an
    /// item, no entry with a strictly longer prefix contains the address.
    pub fn find(&self, to: u32) -> (r: Option<Item>)
        requires
            self.wf(),
        ensures
            match r {
                None => forall|i: int|
                    0 <= i < self@.len() ==> !(#[trigger] self@[i]).cidr.spec_contains(to),
                Some(item) => exists|k: int|
                    0 <= k < self@.len() && #[trigger] self@[k] == item && item.cidr.spec_contains(
                        to,
                    ) && (forall|j: int| 0 <= j < k ==> !(#[trigger] self@[j]).cidr.spec_contains(to)),
            },
            r is Some ==> forall|i: int|
                0 <= i < self@.len() && (#[trigger] self@[i]).cidr.spec_contains(to)
                    ==> self@[i].cidr.prefix <= r->Some_0.cidr.prefix,
    {
        let n = self.inner.len();
        let mut i: usize = 0;
        while i < n
            invariant
                n == self@.len(),
                i <= n,
                self.wf(),
                forall|j: int| 0 <= j < i ==> !(#[trigger] self@[j]).cidr.spec_contains(to),
            decreases n - i,
        {
            let item = self.inner[i];
            if item.cidr.contains(to) {
                return Some(item);
            }
            i += 1;
        }
        None
    }
}

impl Default for ArrayRoutingTable {
    fn default() -> (r: ArrayRoutingTable)
        ensures
            r@ =~= Seq::<Item>::empty(),
            r.wf(),
    {
        ArrayRoutingTable::new()
    }
}

/// A fresh, empty table.
pub fn create() -> (r: ArrayRoutingTable)
    ensures
        r@ =~= Seq::<Item>::empty(),
        r.wf(),
{
    ArrayRoutingTable::new()
}

} // verus!
