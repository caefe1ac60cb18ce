//! The IP address pool: per-subnet IPv4 and IPv6 allocation with collision
//! avoidance. IPv4 tries bounded random probing and falls back to a
//! sequential scan, so allocation fails exactly when the usable range is
//! spent; IPv6 relies on random probing alone inside the prefix.

use vstd::prelude::*;
use vstd::hash_set::HashSetWithView;
use crate::dhcp::{DhcpError, Subnet};
use crate::net::{IpAddress, Ipv4, Ipv4Prefix, Ipv6, Ipv6Prefix};

verus! {

broadcast use vstd::std_specs::hash::group_hash_axioms;

/// Relies on `rand::random_range` over `lo..=hi`: the sample lies in the
/// given inclusive range, which must not be empty.
#[verifier::external_body]
fn random_in_range(lo: u32, hi: u32) -> (r: u32)
    requires
        lo <= hi,
    ensures
        lo <= r <= hi,
{
    rand::random_range(lo..=hi)
}

/// Relies on `rand::random`: a uniformly random 128-bit value; nothing is
/// promised of it.
#[verifier::external_body]
fn random_u128() -> u128 {
    rand::random::<u128>()
}

/// One IPv4 allocation bucket: a prefix, the subnet it serves, and the set
/// of addresses currently allocated from it.
pub struct Ipv4Pool {
    network: Ipv4Prefix,
    subnet_id: i32,
    allocated: HashSetWithView<u32>,
}

/// One IPv6 allocation bucket.
pub struct Ipv6Pool {
    network: Ipv6Prefix,
    subnet_id: i32,
    allocated: HashSetWithView<u128>,
}

impl Ipv4Pool {
    /// The prefix this bucket allocates from.
    pub closed spec fn prefix(&self) -> Ipv4Prefix {
        self.network
    }

    /// The subnet this bucket serves.
    pub closed spec fn subnet(&self) -> i32 {
        self.subnet_id
    }

    /// The addresses currently allocated from this bucket.
    pub closed spec fn allocated_set(&self) -> Set<u32> {
        self.allocated@
    }

    /// The bucket is well formed: its prefix length is valid, and it only
    /// ever holds addresses its own prefix covers.
    pub open spec fn wf(&self) -> bool {
        &&& self.prefix().wf()
        &&& forall|a: u32|
            #[trigger] self.allocated_set().contains(a) ==> self.prefix().spec_contains(a)
    }

    /// An address this bucket may hand out: inside the prefix, and neither
    /// the network nor the broadcast address.
    pub open spec fn usable(&self, ip: u32) -> bool {
        self.prefix().spec_network() < ip < self.prefix().spec_broadcast()
    }

    /// A fresh bucket over a prefix, with nothing allocated.
    pub fn new(network: Ipv4Prefix, subnet_id: i32) -> (r: Ipv4Pool)
        requires
            network.wf(),
        ensures
            r.wf(),
            r.prefix() == network,
            r.subnet() == subnet_id,
            r.allocated_set() == Set::<u32>::empty(),
    {
        Ipv4Pool { network, subnet_id, allocated: HashSetWithView::new() }
    }

    /// Allocates a free usable address: up to 100 random probes, then a
    /// sequential scan. Returns nothing exactly when every usable address
    /// is already allocated.
    pub fn allocate(&mut self) -> (r: Option<Ipv4>)
        requires
            old(self).wf(),
        ensures
            final(self).wf(),
            final(self).prefix() == old(self).prefix(),
            final(self).subnet() == old(self).subnet(),
            match r {
                Some(ip) => old(self).usable(ip.0) && !old(self).allocated_set().contains(ip.0)
                    && final(self).allocated_set() == old(self).allocated_set().insert(ip.0),
                None => final(self).allocated_set() == old(self).allocated_set() && forall|a: u32|
                    old(self).usable(a) ==> old(self).allocated_set().contains(a),
            },
    {
        proof {
            crate::net::lemma_v4_range(self.network);
        }
        let network_addr = self.network.network();
        let broadcast_addr = self.network.broadcast();
        if broadcast_addr - network_addr < 2 {
            return None;
        }
        let start = network_addr + 1;
        let end = broadcast_addr - 1;
        let mut tries: usize = 0;
        while tries < 100
            invariant
                self == old(self),
                start == old(self).prefix().spec_network() + 1,
                end == old(self).prefix().spec_broadcast() - 1,
                start <= end,
                old(self).wf(),
            decreases 100 - tries,
        {
            let candidate = random_in_range(start, end);
            if !self.allocated.contains(&candidate) {
                self.allocated.insert(candidate);
                proof {
                    crate::net::lemma_v4_usable_in_prefix(old(self).prefix(), candidate);
                    assert forall|a: u32| #[trigger] self.allocated_set().contains(
                        a,
                    ) implies self.prefix().spec_contains(a) by {
                        if a != candidate {
                            assert(old(self).allocated_set().contains(a));
                        }
                    }
                }
                return Some(Ipv4(candidate));
            }
            tries += 1;
        }
        let mut cur = start;
        loop
            invariant
                self == old(self),
                start == old(self).prefix().spec_network() + 1,
                end == old(self).prefix().spec_broadcast() - 1,
                start <= cur <= end,
                old(self).wf(),
                forall|a: u32| start <= a < cur ==> old(self).allocated_set().contains(a),
            decreases end - cur,
        {
            if !self.allocated.contains(&cur) {
                self.allocated.insert(cur);
                proof {
                    crate::net::lemma_v4_usable_in_prefix(old(self).prefix(), cur);
                    assert forall|a: u32| #[trigger] self.allocated_set().contains(
                        a,
                    ) implies self.prefix().spec_contains(a) by {
                        if a != cur {
                            assert(old(self).allocated_set().contains(a));
                        }
                    }
                }
                return Some(Ipv4(cur));
            }
            if cur == end {
                return None;
            }
            cur = cur + 1;
        }
    }

    /// Returns an address to the bucket.
    pub fn release(&mut self, ip: Ipv4)
        requires
            old(self).wf(),
        ensures
            final(self).wf(),
            final(self).prefix() == old(self).prefix(),
            final(self).subnet() == old(self).subnet(),
            final(self).allocated_set() == old(self).allocated_set().remove(ip.0),
    {
        self.allocated.remove(&ip.0);
        proof {
            assert forall|a: u32| #[trigger] self.allocated_set().contains(
                a,
            ) implies self.prefix().spec_contains(a) by {
                assert(old(self).allocated_set().contains(a));
            }
        }
    }

    /// Records an address the bucket's prefix covers as allocated,
    /// wherever it came from.
    pub fn mark_used(&mut self, ip: Ipv4)
        requires
            old(self).wf(),
            old(self).prefix().spec_contains(ip.0),
        ensures
            final(self).wf(),
            final(self).prefix() == old(self).prefix(),
            final(self).subnet() == old(self).subnet(),
            final(self).allocated_set() == old(self).allocated_set().insert(ip.0),
    {
        self.allocated.insert(ip.0);
        proof {
            assert forall|a: u32| #[trigger] self.allocated_set().contains(
                a,
            ) implies self.prefix().spec_contains(a) by {
                if a != ip.0 {
                    assert(old(self).allocated_set().contains(a));
                }
            }
        }
    }

    /// Whether an address is currently allocated from this bucket.
    pub fn is_allocated(&self, ip: Ipv4) -> (r: bool)
        ensures
            r == self.allocated_set().contains(ip.0),
    {
        self.allocated.contains(&ip.0)
    }

    /// Whether this bucket's prefix covers an address.
    pub fn covers(&self, ip: Ipv4) -> (r: bool)
        requires
            self.wf(),
        ensures
            r == self.prefix().spec_contains(ip.0),
    {
        self.network.contains(ip.0)
    }

    /// Whether this bucket counts the address usable: strictly between the
    /// network and broadcast addresses.
    pub fn usable_here(&self, ip: Ipv4) -> (r: bool)
        requires
            self.wf(),
        ensures
            r == self.usable(ip.0),
    {
        let lo = self.network.network();
        let hi = self.network.broadcast();
        lo < ip.0 && ip.0 < hi
    }
}

impl Ipv6Pool {
    /// The prefix this bucket allocates from.
    pub closed spec fn prefix(&self) -> Ipv6Prefix {
        self.network
    }

    /// The subnet this bucket serves.
    pub closed spec fn subnet(&self) -> i32 {
        self.subnet_id
    }

    /// The addresses currently allocated from this bucket.
    pub closed spec fn allocated_set(&self) -> Set<u128> {
        self.allocated@
    }

    pub open spec fn wf(&self) -> bool {
        self.prefix().wf()
    }

    /// A fresh bucket over a prefix, with nothing allocated.
    pub fn new(network: Ipv6Prefix, subnet_id: i32) -> (r: Ipv6Pool)
        requires
            network.wf(),
        ensures
            r.wf(),
            r.prefix() == network,
            r.subnet() == subnet_id,
            r.allocated_set() == Set::<u128>::empty(),
    {
        Ipv6Pool { network, subnet_id, allocated: HashSetWithView::new() }
    }

    /// Allocates a free address inside the prefix by random probing: the
    /// host bits are drawn at random up to 1,000 times; a prefix without
    /// host bits, or persistent collisions, yield nothing.
    pub fn allocate(&mut self) -> (r: Option<Ipv6>)
        requires
            old(self).wf(),
        ensures
            final(self).wf(),
            final(self).prefix() == old(self).prefix(),
            final(self).subnet() == old(self).subnet(),
            match r {
                Some(ip) => old(self).prefix().spec_contains(ip.0) && !old(self).allocated_set().contains(ip.0) && final(self).allocated_set() == old(self).allocated_set().insert(ip.0),
                None => final(self).allocated_set() == old(self).allocated_set(),
            },
            old(self).prefix().len >= 128 ==> r is None,
    {
        if self.network.len >= 128 {
            return None;
        }
        let net = self.network.network();
        let mask = self.network.host_mask();
        let mut tries: usize = 0;
        while tries < 1000
            invariant
                self == old(self),
                old(self).wf(),
                old(self).prefix().len < 128,
                net == old(self).prefix().spec_network(),
                mask == crate::net::spec_host_mask6(old(self).prefix().len),
            decreases 1000 - tries,
        {
            let draw = random_u128();
            let candidate = net | (draw & mask);
            if self.network.contains(candidate) && !self.allocated.contains(&candidate) {
                self.allocated.insert(candidate);
                return Some(Ipv6(candidate));
            }
            tries += 1;
        }
        None
    }

    /// Returns an address to the bucket.
    pub fn release(&mut self, ip: Ipv6)
        requires
            old(self).wf(),
        ensures
            final(self).wf(),
            final(self).prefix() == old(self).prefix(),
            final(self).subnet() == old(self).subnet(),
            final(self).allocated_set() == old(self).allocated_set().remove(ip.0),
    {
        self.allocated.remove(&ip.0);
    }

    /// Records an address as allocated.
    pub fn mark_used(&mut self, ip: Ipv6)
        requires
            old(self).wf(),
        ensures
            final(self).wf(),
            final(self).prefix() == old(self).prefix(),
            final(self).subnet() == old(self).subnet(),
            final(self).allocated_set() == old(self).allocated_set().insert(ip.0),
    {
        self.allocated.insert(ip.0);
    }

    /// Whether an address is currently allocated from this bucket.
    pub fn is_allocated(&self, ip: Ipv6) -> (r: bool)
        ensures
            r == self.allocated_set().contains(ip.0),
    {
        self.allocated.contains(&ip.0)
    }

    /// Whether this bucket's prefix covers an address.
    pub fn covers(&self, ip: Ipv6) -> (r: bool)
        requires
            self.wf(),
        ensures
            r == self.prefix().spec_contains(ip.0),
    {
        self.network.contains(ip.0)
    }
}

/// The pool: one IPv4 and one IPv6 bucket per registered subnet prefix.
pub struct IpPool {
    ipv4_pools: Vec<Ipv4Pool>,
    ipv6_pools: Vec<Ipv6Pool>,
}

/// The IPv4 buckets keep their prefixes, subnets and allocated sets,
/// except that bucket `k` gained address `ip`.
pub open spec fn v4_updated(s: Seq<Ipv4Pool>, t: Seq<Ipv4Pool>, k: int, ip: u32) -> bool {
    &&& t.len() == s.len()
    &&& forall|j: int|
        0 <= j < s.len() ==> (#[trigger] t[j]).prefix() == s[j].prefix() && t[j].subnet()
            == s[j].subnet()
    &&& forall|j: int|
        0 <= j < s.len() && j != k ==> (#[trigger] t[j]).allocated_set() == s[j].allocated_set()
    &&& t[k].allocated_set() == s[k].allocated_set().insert(ip)
}

/// The IPv6 buckets keep their prefixes, subnets and allocated sets,
/// except that bucket `k` gained address `ip`.
pub open spec fn v6_updated(s: Seq<Ipv6Pool>, t: Seq<Ipv6Pool>, k: int, ip: u128) -> bool {
    &&& t.len() == s.len()
    &&& forall|j: int|
        0 <= j < s.len() ==> (#[trigger] t[j]).prefix() == s[j].prefix() && t[j].subnet()
            == s[j].subnet()
    &&& forall|j: int|
        0 <= j < s.len() && j != k ==> (#[trigger] t[j]).allocated_set() == s[j].allocated_set()
    &&& t[k].allocated_set() == s[k].allocated_set().insert(ip)
}

/// Bucket lists with the same prefixes, subnets and allocated sets.
pub open spec fn v4_equiv(s: Seq<Ipv4Pool>, t: Seq<Ipv4Pool>) -> bool {
    &&& t.len() == s.len()
    &&& forall|j: int|
        0 <= j < s.len() ==> (#[trigger] t[j]).prefix() == s[j].prefix() && t[j].subnet()
            == s[j].subnet() && t[j].allocated_set() == s[j].allocated_set()
}

/// Bucket lists with the same prefixes, subnets and allocated sets.
pub open spec fn v6_equiv(s: Seq<Ipv6Pool>, t: Seq<Ipv6Pool>) -> bool {
    &&& t.len() == s.len()
    &&& forall|j: int|
        0 <= j < s.len() ==> (#[trigger] t[j]).prefix() == s[j].prefix() && t[j].subnet()
            == s[j].subnet() && t[j].allocated_set() == s[j].allocated_set()
}

/// Every usable address of the bucket is taken.
pub open spec fn v4_exhausted(p: Ipv4Pool) -> bool {
    forall|a: u32| p.usable(a) ==> p.allocated_set().contains(a)
}

/// What holding an address does to the IPv4 buckets: the first bucket
/// whose prefix covers it gains it, and buckets stay untouched when none
/// covers it.
pub open spec fn v4_mark_used_effect(s: Seq<Ipv4Pool>, t: Seq<Ipv4Pool>, ip: u32) -> bool {
    if exists|k: int| 0 <= k < s.len() && (#[trigger] s[k]).prefix().spec_contains(ip) {
        exists|k: int|
            {
                &&& 0 <= k < s.len()
                &&& (#[trigger] s[k]).prefix().spec_contains(ip)
                &&& forall|j: int| 0 <= j < k ==> !(#[trigger] s[j]).prefix().spec_contains(ip)
                &&& v4_updated(s, t, k, ip)
            }
    } else {
        t == s
    }
}

/// What holding an address does to the IPv6 buckets.
pub open spec fn v6_mark_used_effect(s: Seq<Ipv6Pool>, t: Seq<Ipv6Pool>, ip: u128) -> bool {
    if exists|k: int| 0 <= k < s.len() && (#[trigger] s[k]).prefix().spec_contains(ip) {
        exists|k: int|
            {
                &&& 0 <= k < s.len()
                &&& (#[trigger] s[k]).prefix().spec_contains(ip)
                &&& forall|j: int| 0 <= j < k ==> !(#[trigger] s[j]).prefix().spec_contains(ip)
                &&& v6_updated(s, t, k, ip)
            }
    } else {
        t == s
    }
}

/// Two IPv4 prefixes share no address.
pub open spec fn v4_prefixes_disjoint(p: crate::net::Ipv4Prefix, q: crate::net::Ipv4Prefix) -> bool {
    forall|a: u32| !(#[trigger] p.spec_contains(a) && #[trigger] q.spec_contains(a))
}

/// No address lies inside two buckets' prefixes.
pub open spec fn v4_buckets_disjoint(s: Seq<Ipv4Pool>) -> bool {
    forall|k1: int, k2: int|
        0 <= k1 < k2 < s.len() ==> v4_prefixes_disjoint(
            (#[trigger] s[k1]).prefix(),
            (#[trigger] s[k2]).prefix(),
        )
}

/// An address is held in at most one bucket: when the registered prefixes
/// are pairwise disjoint, the one bucket whose prefix covers an address is
/// the only bucket whose allocated set can hold it, since a well-formed
/// bucket only holds addresses its own prefix covers.
pub proof fn lemma_one_bucket_holds(s: Seq<Ipv4Pool>, k: int, ip: u32)
    requires
        forall|j: int| 0 <= j < s.len() ==> (#[trigger] s[j]).wf(),
        v4_buckets_disjoint(s),
        0 <= k < s.len(),
        s[k].prefix().spec_contains(ip),
    ensures
        forall|j: int|
            0 <= j < s.len() && j != k ==> !(#[trigger] s[j]).allocated_set().contains(ip),
{
    assert forall|j: int|
        0 <= j < s.len() && j != k implies !(#[trigger] s[j]).allocated_set().contains(ip) by {
        if s[j].allocated_set().contains(ip) {
            assert(s[j].prefix().spec_contains(ip));
            if j < k {
                assert(v4_prefixes_disjoint(s[j].prefix(), s[k].prefix()));
            } else {
                assert(v4_prefixes_disjoint(s[k].prefix(), s[j].prefix()));
            }
        }
    }
}

/// An address the pool could hand out by allocation: its first covering
/// bucket exists and counts it usable, neither network nor broadcast.
pub open spec fn spec_v4_usable(s: Seq<Ipv4Pool>, ip: u32) -> bool {
    exists|k: int|
        {
            &&& 0 <= k < s.len()
            &&& (#[trigger] s[k]).prefix().spec_contains(ip)
            &&& forall|j: int| 0 <= j < k ==> !(#[trigger] s[j]).prefix().spec_contains(ip)
            &&& s[k].usable(ip)
        }
}

impl IpPool {
    /// The IPv4 buckets, in registration order.
    pub closed spec fn v4(&self) -> Seq<Ipv4Pool> {
        self.ipv4_pools@
    }

    /// The IPv6 buckets, in registration order.
    pub closed spec fn v6(&self) -> Seq<Ipv6Pool> {
        self.ipv6_pools@
    }

    pub open spec fn wf(&self) -> bool {
        &&& forall|j: int| 0 <= j < self.v4().len() ==> (#[trigger] self.v4()[j]).wf()
        &&& forall|j: int| 0 <= j < self.v6().len() ==> (#[trigger] self.v6()[j]).wf()
    }

    /// An empty pool with no buckets.
    pub fn new() -> (r: IpPool)
        ensures
            r.wf(),
            r.v4() == Seq::<Ipv4Pool>::empty(),
            r.v6() == Seq::<Ipv6Pool>::empty(),
    {
        let r = IpPool { ipv4_pools: Vec::new(), ipv6_pools: Vec::new() };
        proof {
            assert(r.v4() =~= Seq::<Ipv4Pool>::empty());
            assert(r.v6() =~= Seq::<Ipv6Pool>::empty());
        }
        r
    }

    /// Registers a bucket for each prefix the subnet carries; a subnet
    /// without an identifier is filed under 0.
    pub fn add_subnet(&mut self, subnet: &Subnet) -> (r: Result<(), DhcpError>)
        requires
            old(self).wf(),
            subnet.network_ipv4 matches Some(p) ==> p.wf(),
            subnet.network_ipv6 matches Some(p) ==> p.wf(),
        ensures
            final(self).wf(),
            r is Ok,
            match subnet.network_ipv4 {
                Some(p) => {
                    &&& final(self).v4().len() == old(self).v4().len() + 1
                    &&& final(self).v4().take(old(self).v4().len() as int) == old(self).v4()
                    &&& final(self).v4().last().prefix() == p
                    &&& final(self).v4().last().subnet() == spec_subnet_key(subnet.id)
                    &&& final(self).v4().last().allocated_set() == Set::<u32>::empty()
                },
                None => final(self).v4() == old(self).v4(),
            },
            match subnet.network_ipv6 {
                Some(p) => {
                    &&& final(self).v6().len() == old(self).v6().len() + 1
                    &&& final(self).v6().take(old(self).v6().len() as int) == old(self).v6()
                    &&& final(self).v6().last().prefix() == p
                    &&& final(self).v6().last().subnet() == spec_subnet_key(subnet.id)
                    &&& final(self).v6().last().allocated_set() == Set::<u128>::empty()
                },
                None => final(self).v6() == old(self).v6(),
            },
    {
        let id = match subnet.id {
            Some(id) => id,
            None => 0,
        };
        match &subnet.network_ipv4 {
            Some(p) => {
                self.ipv4_pools.push(Ipv4Pool::new(*p, id));
                proof {
                    assert(self.v4().take(old(self).v4().len() as int) =~= old(self).v4());
                }
            },
            None => {},
        }
        match &subnet.network_ipv6 {
            Some(p) => {
                self.ipv6_pools.push(Ipv6Pool::new(*p, id));
                proof {
                    assert(self.v6().take(old(self).v6().len() as int) =~= old(self).v6());
                }
            },
            None => {},
        }
        proof {
            assert forall|j: int| 0 <= j < self.v4().len() implies (#[trigger] self.v4()[j]).wf()
            by {
                if j < old(self).v4().len() {
                    assert(self.v4()[j] == old(self).v4()[j]);
                }
            }
            assert forall|j: int| 0 <= j < self.v6().len() implies (#[trigger] self.v6()[j]).wf()
            by {
                if j < old(self).v6().len() {
                    assert(self.v6()[j] == old(self).v6()[j]);
                }
            }
        }
        Ok(())
    }
}

/// The bucket key a subnet identifier maps to: the identifier itself, or 0
/// when the subnet has none.
pub open spec fn spec_subnet_key(id: Option<i32>) -> i32 {
    match id {
        Some(v) => v,
        None => 0,
    }
}

/// The position of the first IPv4 bucket serving a subnet.
pub open spec fn first_v4_with(s: Seq<Ipv4Pool>, id: i32) -> Option<int>
    decreases s.len(),
{
    if s.len() == 0 {
        None
    } else if s[0].subnet() == id {
        Some(0)
    } else {
        match first_v4_with(s.skip(1), id) {
            Some(i) => Some(i + 1),
            None => None,
        }
    }
}

pub proof fn lemma_first_v4_with(s: Seq<Ipv4Pool>, id: i32)
    ensures
        match first_v4_with(s, id) {
            Some(k) => 0 <= k < s.len() && s[k].subnet() == id && forall|j: int|
                0 <= j < k ==> (#[trigger] s[j]).subnet() != id,
            None => forall|j: int| 0 <= j < s.len() ==> (#[trigger] s[j]).subnet() != id,
        },
    decreases s.len(),
{
    if s.len() > 0 && s[0].subnet() != id {
        lemma_first_v4_with(s.skip(1), id);
        match first_v4_with(s.skip(1), id) {
            Some(i) => {
                assert(s[i + 1] == s.skip(1)[i]);
                assert forall|j: int| 0 <= j < i + 1 implies (#[trigger] s[j]).subnet() != id by {
                    if j > 0 {
                        assert(s[j] == s.skip(1)[j - 1]);
                    }
                }
            },
            None => {
                assert forall|j: int| 0 <= j < s.len() implies (#[trigger] s[j]).subnet() != id
                by {
                    if j > 0 {
                        assert(s[j] == s.skip(1)[j - 1]);
                    }
                }
            },
        }
    }
}

/// The position of the first IPv6 bucket serving a subnet.
pub open spec fn first_v6_with(s: Seq<Ipv6Pool>, id: i32) -> Option<int>
    decreases s.len(),
{
    if s.len() == 0 {
        None
    } else if s[0].subnet() == id {
        Some(0)
    } else {
        match first_v6_with(s.skip(1), id) {
            Some(i) => Some(i + 1),
            None => None,
        }
    }
}

pub proof fn lemma_first_v6_with(s: Seq<Ipv6Pool>, id: i32)
    ensures
        match first_v6_with(s, id) {
            Some(k) => 0 <= k < s.len() && s[k].subnet() == id && forall|j: int|
                0 <= j < k ==> (#[trigger] s[j]).subnet() != id,
            None => forall|j: int| 0 <= j < s.len() ==> (#[trigger] s[j]).subnet() != id,
        },
    decreases s.len(),
{
    if s.len() > 0 && s[0].subnet() != id {
        lemma_first_v6_with(s.skip(1), id);
        match first_v6_with(s.skip(1), id) {
            Some(i) => {
                assert(s[i + 1] == s.skip(1)[i]);
                assert forall|j: int| 0 <= j < i + 1 implies (#[trigger] s[j]).subnet() != id by {
                    if j > 0 {
                        assert(s[j] == s.skip(1)[j - 1]);
                    }
                }
            },
            None => {
                assert forall|j: int| 0 <= j < s.len() implies (#[trigger] s[j]).subnet() != id
                by {
                    if j > 0 {
                        assert(s[j] == s.skip(1)[j - 1]);
                    }
                }
            },
        }
    }
}

impl IpPool {
    /// Allocates an IPv4 address: from the first bucket of the named
    /// subnet, or, with no subnet named, from the first bucket that still
    /// has room. Returns nothing exactly when the tried buckets are spent.
    #[verifier::loop_isolation(false)]
    pub fn allocate_ipv4(&mut self, subnet_id: Option<i32>) -> (r: Option<Ipv4>)
        requires
            old(self).wf(),
        ensures
            final(self).wf(),
            final(self).v6() == old(self).v6(),
            subnet_id matches Some(id) ==> match first_v4_with(old(self).v4(), id) {
                Some(k) => match r {
                    Some(ip) => old(self).v4()[k].usable(ip.0) && !old(self).v4()[k].allocated_set().contains(ip.0) && v4_updated(
                        old(self).v4(),
                        final(self).v4(),
                        k,
                        ip.0,
                    ),
                    None => v4_equiv(old(self).v4(), final(self).v4()) && v4_exhausted(
                        old(self).v4()[k],
                    ),
                },
                None => r is None && v4_equiv(old(self).v4(), final(self).v4()),
            },
            subnet_id is None ==> match r {
                Some(ip) => exists|k: int|
                    {
                        &&& 0 <= k < old(self).v4().len()
                        &&& (#[trigger] old(self).v4()[k]).usable(ip.0)
                        &&& !old(self).v4()[k].allocated_set().contains(ip.0)
                        &&& v4_updated(old(self).v4(), final(self).v4(), k, ip.0)
                        &&& forall|j: int|
                            0 <= j < k ==> v4_exhausted(#[trigger] old(self).v4()[j])
                    },
                None => v4_equiv(old(self).v4(), final(self).v4()) && forall|j: int|
                    0 <= j < old(self).v4().len() ==> v4_exhausted(#[trigger] old(self).v4()[j]),
            },
    {
        let n = self.ipv4_pools.len();
        match subnet_id {
            Some(id) => {
                proof {
                    lemma_first_v4_with(old(self).v4(), id);
                }
                let mut i: usize = 0;
                while i < n
                    invariant
                        self == old(self),
                        old(self).wf(),
                        n == self.v4().len(),
                        i <= n,
                        forall|j: int| 0 <= j < i ==> (#[trigger] self.v4()[j]).subnet() != id,
                    decreases n - i,
                {
                    if self.ipv4_pools[i].subnet_matches(id) {
                        proof {
                            lemma_first_v4_with(old(self).v4(), id);
                            assert(first_v4_with(old(self).v4(), id) == Some(i as int));
                        }
                        let r = self.ipv4_pools[i].allocate();
                        proof {
                            match r {
                                Some(ip) => {
                                    assert(old(self).v4()[i as int].usable(ip.0));
                                    assert(!old(self).v4()[i as int].allocated_set().contains(
                                        ip.0,
                                    ));
                                    assert(v4_updated(
                                        old(self).v4(),
                                        self.v4(),
                                        i as int,
                                        ip.0,
                                    ));
                                },
                                None => {
                                    assert(v4_equiv(old(self).v4(), self.v4()));
                                    assert(v4_exhausted(old(self).v4()[i as int]));
                                },
                            }
                            assert forall|j: int|
                                0 <= j < self.v4().len() implies (#[trigger] self.v4()[j]).wf()
                            by {
                                if j != i {
                                    assert(self.v4()[j] == old(self).v4()[j]);
                                } else {
                                    assert(self.v4()[j].prefix() == old(self).v4()[j].prefix());
                                }
                            }
                        }
                        return r;
                    }
                    i += 1;
                }
                proof {
                    assert(first_v4_with(old(self).v4(), id) is None);
                    assert(v4_equiv(old(self).v4(), self.v4()));
                }
                None
            },
            None => {
                let mut i: usize = 0;
                while i < n
                    invariant
                        old(self).wf(),
                        n == self.v4().len(),
                        i <= n,
                        v4_equiv(old(self).v4(), self.v4()),
                        self.v6() == old(self).v6(),
                        self.wf(),
                        forall|j: int| 0 <= j < i ==> v4_exhausted(#[trigger] old(self).v4()[j]),
                    decreases n - i,
                {
                    let ghost pre = self.v4();
                    let r = self.ipv4_pools[i].allocate();
                    proof {
                        assert forall|j: int|
                            0 <= j < self.v4().len() implies (#[trigger] self.v4()[j]).wf() by {
                            if j != i {
                                assert(self.v4()[j] == pre[j]);
                            } else {
                                assert(self.v4()[j].prefix() == pre[j].prefix());
                            }
                        }
                    }
                    match r {
                        Some(ip) => {
                            proof {
                                assert(pre[i as int].prefix() == old(self).v4()[i as int].prefix());
                                assert(old(self).v4()[i as int].usable(ip.0));
                                assert(!old(self).v4()[i as int].allocated_set().contains(
                                    ip.0,
                                ));
                                assert(v4_updated(old(self).v4(), self.v4(), i as int, ip.0));
                            }
                            return Some(ip);
                        },
                        None => {
                            proof {
                                assert forall|a: u32|
                                    old(self).v4()[i as int].usable(a) implies old(self).v4()[i as int].allocated_set().contains(a) by {
                                    assert(pre[i as int].prefix() == old(self).v4()[i as int].prefix());
                                    assert(pre[i as int].usable(a));
                                }
                                assert(v4_exhausted(old(self).v4()[i as int]));
                                assert(v4_equiv(old(self).v4(), self.v4()));
                            }
                        },
                    }
                    i += 1;
                }
                None
            },
        }
    }

    /// Allocates an IPv6 address: from the first bucket of the named
    /// subnet, or, with no subnet named, from the first bucket whose random
    /// probing finds room.
    #[verifier::loop_isolation(false)]
    pub fn allocate_ipv6(&mut self, subnet_id: Option<i32>) -> (r: Option<Ipv6>)
        requires
            old(self).wf(),
        ensures
            final(self).wf(),
            final(self).v4() == old(self).v4(),
            subnet_id matches Some(id) ==> match first_v6_with(old(self).v6(), id) {
                Some(k) => match r {
                    Some(ip) => old(self).v6()[k].prefix().spec_contains(ip.0) && !old(self).v6()[k].allocated_set().contains(ip.0) && v6_updated(
                        old(self).v6(),
                        final(self).v6(),
                        k,
                        ip.0,
                    ),
                    None => v6_equiv(old(self).v6(), final(self).v6()),
                },
                None => r is None && v6_equiv(old(self).v6(), final(self).v6()),
            },
            subnet_id is None ==> match r {
                Some(ip) => exists|k: int|
                    {
                        &&& 0 <= k < old(self).v6().len()
                        &&& (#[trigger] old(self).v6()[k]).prefix().spec_contains(ip.0)
                        &&& !old(self).v6()[k].allocated_set().contains(ip.0)
                        &&& v6_updated(old(self).v6(), final(self).v6(), k, ip.0)
                    },
                None => v6_equiv(old(self).v6(), final(self).v6()),
            },
    {
        let n = self.ipv6_pools.len();
        match subnet_id {
            Some(id) => {
                proof {
                    lemma_first_v6_with(old(self).v6(), id);
                }
                let mut i: usize = 0;
                while i < n
                    invariant
                        self == old(self),
                        old(self).wf(),
                        n == self.v6().len(),
                        i <= n,
                        forall|j: int| 0 <= j < i ==> (#[trigger] self.v6()[j]).subnet() != id,
                    decreases n - i,
                {
                    if self.ipv6_pools[i].subnet_matches(id) {
                        proof {
                            lemma_first_v6_with(old(self).v6(), id);
                            assert(first_v6_with(old(self).v6(), id) == Some(i as int));
                        }
                        let r = self.ipv6_pools[i].allocate();
                        proof {
                            match r {
                                Some(ip) => {
                                    assert(old(self).v6()[i as int].prefix().spec_contains(
                                        ip.0,
                                    ));
                                    assert(!old(self).v6()[i as int].allocated_set().contains(
                                        ip.0,
                                    ));
                                    assert(v6_updated(
                                        old(self).v6(),
                                        self.v6(),
                                        i as int,
                                        ip.0,
                                    ));
                                },
                                None => {
                                    assert(v6_equiv(old(self).v6(), self.v6()));
                                },
                            }
                            assert forall|j: int|
                                0 <= j < self.v6().len() implies (#[trigger] self.v6()[j]).wf()
                            by {
                                if j != i {
                                    assert(self.v6()[j] == old(self).v6()[j]);
                                } else {
                                    assert(self.v6()[j].prefix() == old(self).v6()[j].prefix());
                                }
                            }
                        }
                        return r;
                    }
                    i += 1;
                }
                proof {
                    assert(first_v6_with(old(self).v6(), id) is None);
                    assert(v6_equiv(old(self).v6(), self.v6()));
                }
                None
            },
            None => {
                let mut i: usize = 0;
                while i < n
                    invariant
                        old(self).wf(),
                        n == self.v6().len(),
                        i <= n,
                        v6_equiv(old(self).v6(), self.v6()),
                        self.v4() == old(self).v4(),
                        self.wf(),
                    decreases n - i,
                {
                    let ghost pre = self.v6();
                    let r = self.ipv6_pools[i].allocate();
                    proof {
                        assert forall|j: int|
                            0 <= j < self.v6().len() implies (#[trigger] self.v6()[j]).wf() by {
                            if j != i {
                                assert(self.v6()[j] == pre[j]);
                            } else {
                                assert(self.v6()[j].prefix() == pre[j].prefix());
                            }
                        }
                    }
                    match r {
                        Some(ip) => {
                            proof {
                                assert(pre[i as int].prefix() == old(self).v6()[i as int].prefix());
                                assert(old(self).v6()[i as int].prefix().spec_contains(ip.0));
                                assert(!old(self).v6()[i as int].allocated_set().contains(
                                    ip.0,
                                ));
                                assert(v6_updated(old(self).v6(), self.v6(), i as int, ip.0));
                            }
                            return Some(ip);
                        },
                        None => {
                            proof {
                                assert(v6_equiv(old(self).v6(), self.v6()));
                            }
                        },
                    }
                    i += 1;
                }
                None
            },
        }
    }
    /// Returns an address to every bucket of its family.
    #[verifier::loop_isolation(false)]
    pub fn release_ip(&mut self, ip: IpAddress)
        requires
            old(self).wf(),
        ensures
            final(self).wf(),
            match ip {
                IpAddress::V4(v) => {
                    &&& final(self).v6() == old(self).v6()
                    &&& final(self).v4().len() == old(self).v4().len()
                    &&& forall|j: int|
                        0 <= j < old(self).v4().len() ==> (#[trigger] final(self).v4()[j]).prefix() == old(self).v4()[j].prefix() && final(self).v4()[j].subnet()
                            == old(self).v4()[j].subnet() && final(self).v4()[j].allocated_set()
                            == old(self).v4()[j].allocated_set().remove(v.0)
                },
                IpAddress::V6(v) => {
                    &&& final(self).v4() == old(self).v4()
                    &&& final(self).v6().len() == old(self).v6().len()
                    &&& forall|j: int|
                        0 <= j < old(self).v6().len() ==> (#[trigger] final(self).v6()[j]).prefix() == old(self).v6()[j].prefix() && final(self).v6()[j].subnet()
                            == old(self).v6()[j].subnet() && final(self).v6()[j].allocated_set()
                            == old(self).v6()[j].allocated_set().remove(v.0)
                },
            },
    {
        match ip {
            IpAddress::V4(v) => {
                let n = self.ipv4_pools.len();
                let mut i: usize = 0;
                while i < n
                    invariant
                        old(self).wf(),
                        n == self.v4().len(),
                        i <= n,
                        self.wf(),
                        self.v6() == old(self).v6(),
                        self.v4().len() == old(self).v4().len(),
                        forall|j: int|
                            0 <= j < i ==> (#[trigger] self.v4()[j]).prefix() == old(self).v4()[j].prefix() && self.v4()[j].subnet() == old(self).v4()[j].subnet()
                                && self.v4()[j].allocated_set() == old(self).v4()[j].allocated_set().remove(v.0),
                        forall|j: int| i <= j < n ==> self.v4()[j] == old(self).v4()[j],
                    decreases n - i,
                {
                    let ghost pre = self.v4();
                    self.ipv4_pools[i].release(v);
                    proof {
                        assert forall|j: int|
                            0 <= j < self.v4().len() implies (#[trigger] self.v4()[j]).wf() by {
                            if j != i {
                                assert(self.v4()[j] == pre[j]);
                            }
                        }
                    }
                    i += 1;
                }
            },
            IpAddress::V6(v) => {
                let n = self.ipv6_pools.len();
                let mut i: usize = 0;
                while i < n
                    invariant
                        old(self).wf(),
                        n == self.v6().len(),
                        i <= n,
                        self.wf(),
                        self.v4() == old(self).v4(),
                        self.v6().len() == old(self).v6().len(),
                        forall|j: int|
                            0 <= j < i ==> (#[trigger] self.v6()[j]).prefix() == old(self).v6()[j].prefix() && self.v6()[j].subnet() == old(self).v6()[j].subnet()
                                && self.v6()[j].allocated_set() == old(self).v6()[j].allocated_set().remove(v.0),
                        forall|j: int| i <= j < n ==> self.v6()[j] == old(self).v6()[j],
                    decreases n - i,
                {
                    let ghost pre = self.v6();
                    self.ipv6_pools[i].release(v);
                    proof {
                        assert forall|j: int|
                            0 <= j < self.v6().len() implies (#[trigger] self.v6()[j]).wf() by {
                            if j != i {
                                assert(self.v6()[j] == pre[j]);
                            }
                        }
                    }
                    i += 1;
                }
            },
        }
    }

    /// Records an address as allocated in the first bucket whose prefix
    /// covers it; an address no bucket covers is ignored.
    #[verifier::loop_isolation(false)]
    #[verifier::rlimit(60)]
    pub fn mark_used(&mut self, ip: IpAddress)
        requires
            old(self).wf(),
        ensures
            final(self).wf(),
            match ip {
                IpAddress::V4(v) => final(self).v6() == old(self).v6() && v4_mark_used_effect(
                    old(self).v4(),
                    final(self).v4(),
                    v.0,
                ) && !spec_v4_available(final(self).v4(), v.0),
                IpAddress::V6(v) => final(self).v4() == old(self).v4() && v6_mark_used_effect(
                    old(self).v6(),
                    final(self).v6(),
                    v.0,
                ),
            },
    {
        match ip {
            IpAddress::V4(v) => {
                let n = self.ipv4_pools.len();
                let mut i: usize = 0;
                while i < n
                    invariant
                        self == old(self),
                        old(self).wf(),
                        n == self.v4().len(),
                        i <= n,
                        forall|j: int|
                            0 <= j < i ==> !(#[trigger] self.v4()[j]).prefix().spec_contains(
                                v.0,
                            ),
                    decreases n - i,
                {
                    if self.ipv4_pools[i].covers(v) {
                        self.ipv4_pools[i].mark_used(v);
                        proof {
                            assert(v4_updated(old(self).v4(), self.v4(), i as int, v.0));
                            assert forall|j: int|
                                0 <= j < self.v4().len() implies (#[trigger] self.v4()[j]).wf()
                            by {
                                if j != i {
                                    assert(self.v4()[j] == old(self).v4()[j]);
                                }
                            }
                            assert forall|j: int|
                                0 <= j < self.v6().len() implies (#[trigger] self.v6()[j]).wf()
                            by {
                                assert(self.v6()[j] == old(self).v6()[j]);
                            }
                            assert(!spec_v4_available(self.v4(), v.0)) by {
                                if spec_v4_available(self.v4(), v.0) {
                                    let k2 = choose|k2: int|
                                        {
                                            &&& 0 <= k2 < self.v4().len()
                                            &&& (#[trigger] self.v4()[k2]).prefix().spec_contains(v.0)
                                            &&& forall|j: int|
                                                0 <= j < k2 ==> !(#[trigger] self.v4()[j]).prefix().spec_contains(v.0)
                                            &&& !self.v4()[k2].allocated_set().contains(v.0)
                                        };
                                    assert(self.v4()[k2].prefix() == old(self).v4()[k2].prefix());
                                    if k2 < i {
                                        assert(!old(self).v4()[k2].prefix().spec_contains(v.0));
                                    }
                                    if k2 > i {
                                        assert(self.v4()[i as int].prefix() == old(self).v4()[i as int].prefix());
                                        assert(!self.v4()[i as int].prefix().spec_contains(
                                            v.0,
                                        ));
                                    }
                                    assert(k2 == i as int);
                                    assert(self.v4()[k2].allocated_set().contains(v.0));
                                }
                            }
                        }
                        return ;
                    }
                    i += 1;
                }
                proof {
                    if spec_v4_available(self.v4(), v.0) {
                        let k2 = choose|k2: int|
                            {
                                &&& 0 <= k2 < self.v4().len()
                                &&& (#[trigger] self.v4()[k2]).prefix().spec_contains(v.0)
                                &&& forall|j: int|
                                    0 <= j < k2 ==> !(#[trigger] self.v4()[j]).prefix().spec_contains(v.0)
                                &&& !self.v4()[k2].allocated_set().contains(v.0)
                            };
                        assert(false);
                    }
                }
            },
            IpAddress::V6(v) => {
                let n = self.ipv6_pools.len();
                let mut i: usize = 0;
                while i < n
                    invariant
                        self == old(self),
                        old(self).wf(),
                        n == self.v6().len(),
                        i <= n,
                        forall|j: int|
                            0 <= j < i ==> !(#[trigger] self.v6()[j]).prefix().spec_contains(
                                v.0,
                            ),
                    decreases n - i,
                {
                    if self.ipv6_pools[i].covers(v) {
                        self.ipv6_pools[i].mark_used(v);
                        proof {
                            assert(v6_updated(old(self).v6(), self.v6(), i as int, v.0));
                            assert forall|j: int|
                                0 <= j < self.v6().len() implies (#[trigger] self.v6()[j]).wf()
                            by {
                                if j != i {
                                    assert(self.v6()[j] == old(self).v6()[j]);
                                }
                            }
                            assert forall|j: int|
                                0 <= j < self.v4().len() implies (#[trigger] self.v4()[j]).wf()
                            by {
                                assert(self.v4()[j] == old(self).v4()[j]);
                            }
                        }
                        return ;
                    }
                    i += 1;
                }
            },
        }
    }

    /// Whether the pool could in principle hand out the address: its first
    /// covering bucket counts it usable, neither network nor broadcast.
    #[verifier::loop_isolation(false)]
    pub fn usable_v4(&self, ip: Ipv4) -> (r: bool)
        requires
            self.wf(),
        ensures
            r == spec_v4_usable(self.v4(), ip.0),
    {
        let n = self.ipv4_pools.len();
        let mut i: usize = 0;
        while i < n
            invariant
                i <= n,
                n == self.v4().len(),
                forall|j: int|
                    0 <= j < i ==> !(#[trigger] self.v4()[j]).prefix().spec_contains(ip.0),
            decreases n - i,
        {
            if self.ipv4_pools[i].covers(ip) {
                let u = self.ipv4_pools[i].usable_here(ip);
                return u;
            }
            i += 1;
        }
        false
    }

    /// Whether an address could be handed out now: some bucket's prefix
    /// covers it, and the first such bucket does not hold it allocated.
    #[verifier::loop_isolation(false)]
    pub fn is_available(&self, ip: IpAddress) -> (r: bool)
        requires
            self.wf(),
        ensures
            match ip {
                IpAddress::V4(v) => r == spec_v4_available(self.v4(), v.0),
                IpAddress::V6(v) => r == spec_v6_available(self.v6(), v.0),
            },
    {
        match ip {
            IpAddress::V4(v) => {
                let n = self.ipv4_pools.len();
                let mut i: usize = 0;
                while i < n
                    invariant
                        self.wf(),
                        n == self.v4().len(),
                        i <= n,
                        forall|j: int|
                            0 <= j < i ==> !(#[trigger] self.v4()[j]).prefix().spec_contains(
                                v.0,
                            ),
                    decreases n - i,
                {
                    if self.ipv4_pools[i].covers(v) {
                        let taken = self.ipv4_pools[i].is_allocated(v);
                        return !taken;
                    }
                    i += 1;
                }
                false
            },
            IpAddress::V6(v) => {
                let n = self.ipv6_pools.len();
                let mut i: usize = 0;
                while i < n
                    invariant
                        self.wf(),
                        n == self.v6().len(),
                        i <= n,
                        forall|j: int|
                            0 <= j < i ==> !(#[trigger] self.v6()[j]).prefix().spec_contains(
                                v.0,
                            ),
                    decreases n - i,
                {
                    if self.ipv6_pools[i].covers(v) {
                        let taken = self.ipv6_pools[i].is_allocated(v);
                        return !taken;
                    }
                    i += 1;
                }
                false
            },
        }
    }
}

impl Ipv4Pool {
    /// Whether this bucket serves the given subnet.
    fn subnet_matches(&self, id: i32) -> (r: bool)
        ensures
            r == (self.subnet() == id),
    {
        self.subnet_id == id
    }
}

impl Ipv6Pool {
    /// Whether this bucket serves the given subnet.
    fn subnet_matches(&self, id: i32) -> (r: bool)
        ensures
            r == (self.subnet() == id),
    {
        self.subnet_id == id
    }
}

/// One allocator operation against a bucket, with the address it touched.
pub enum PoolOp {
    Allocate(u32),
    Release(u32),
}

/// The allocated set after one operation.
pub open spec fn apply_op(s: Set<u32>, op: PoolOp) -> Set<u32> {
    match op {
        PoolOp::Allocate(ip) => s.insert(ip),
        PoolOp::Release(ip) => s.remove(ip),
    }
}

/// The allocated set after a sequence of operations.
pub open spec fn apply_ops(s: Set<u32>, ops: Seq<PoolOp>) -> Set<u32>
    decreases ops.len(),
{
    if ops.len() == 0 {
        s
    } else {
        apply_ops(apply_op(s, ops[0]), ops.skip(1))
    }
}

/// For any sequence of allocations and releases against one bucket, the
/// allocated set is exactly the starting set with every allocated address
/// added and every released address taken away, in order: `states` is the
/// trace of allocated sets, each step obeying the bucket's contracts.
pub proof fn lemma_allocated_set_tracks_ops(states: Seq<Set<u32>>, ops: Seq<PoolOp>)
    requires
        states.len() == ops.len() + 1,
        forall|i: int| 0 <= i < ops.len() ==> states[i + 1] == apply_op(states[i], #[trigger] ops[i]),
    ensures
        states.last() == apply_ops(states[0], ops),
    decreases ops.len(),
{
    if ops.len() > 0 {
        let states2 = states.skip(1);
        let ops2 = ops.skip(1);
        assert(forall|i: int|
            0 <= i < ops2.len() ==> states2[i + 1] == apply_op(states2[i], #[trigger] ops2[i]))
            by {
            assert(forall|i: int| 0 <= i < ops2.len() ==> ops2[i] == ops[i + 1]);
            assert(forall|i: int| 0 <= i <= ops2.len() ==> states2[i] == states[i + 1]);
        }
        lemma_allocated_set_tracks_ops(states2, ops2);
        assert(states2.last() == states.last());
        assert(states2[0] == apply_op(states[0], ops[0]));
    }
}


/// An address the pool would still hand out: the first bucket whose prefix
/// covers it exists and does not hold it allocated.
pub open spec fn spec_v4_available(s: Seq<Ipv4Pool>, ip: u32) -> bool {
    exists|k: int|
        {
            &&& 0 <= k < s.len()
            &&& (#[trigger] s[k]).prefix().spec_contains(ip)
            &&& forall|j: int| 0 <= j < k ==> !(#[trigger] s[j]).prefix().spec_contains(ip)
            &&& !s[k].allocated_set().contains(ip)
        }
}

/// An address the pool would still hand out, IPv6 side.
pub open spec fn spec_v6_available(s: Seq<Ipv6Pool>, ip: u128) -> bool {
    exists|k: int|
        {
            &&& 0 <= k < s.len()
            &&& (#[trigger] s[k]).prefix().spec_contains(ip)
            &&& forall|j: int| 0 <= j < k ==> !(#[trigger] s[j]).prefix().spec_contains(ip)
            &&& !s[k].allocated_set().contains(ip)
        }
}

} // verus!
