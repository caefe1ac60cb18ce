//! Plain-value IP addresses and prefixes: an IPv4 address is its 32-bit
//! value, an IPv6 address its 128-bit value, and a prefix an address with a
//! length. All the arithmetic the allocator needs is defined here.

use vstd::prelude::*;

verus! {

/// An IPv4 address as its 32-bit value, big-endian `a.b.c.d` reading.
#[derive(Debug, PartialEq, Eq, Structural, Clone, Copy, Hash, PartialOrd, Ord)]
pub struct Ipv4(pub u32);

/// An IPv6 address as its 128-bit value.
#[derive(Debug, PartialEq, Eq, Structural, Clone, Copy, Hash, PartialOrd, Ord)]
pub struct Ipv6(pub u128);

/// An IPv4 or IPv6 address.
#[derive(Debug, PartialEq, Eq, Structural, Clone, Copy)]
pub enum IpAddress {
    V4(Ipv4),
    V6(Ipv6),
}

/// An IPv4 network prefix: an address and a prefix length of at most 32.
#[derive(Debug, PartialEq, Eq, Structural, Clone, Copy)]
pub struct Ipv4Prefix {
    pub addr: u32,
    pub len: u8,
}

/// An IPv6 network prefix: an address and a prefix length of at most 128.
#[derive(Debug, PartialEq, Eq, Structural, Clone, Copy)]
pub struct Ipv6Prefix {
    pub addr: u128,
    pub len: u8,
}

/// The network part of a 32-bit address under a prefix length: the top
/// `len` bits, with the host bits cleared.
pub open spec fn spec_network4(addr: u32, len: u8) -> u32
    recommends
        len <= 32,
{
    if len == 0 {
        0
    } else {
        ((addr >> (32 - len) as u32) << (32 - len) as u32) as u32
    }
}

/// The all-ones host mask of an IPv4 prefix length.
pub open spec fn spec_host_mask4(len: u8) -> u32
    recommends
        len <= 32,
{
    if len == 0 {
        0xFFFF_FFFFu32
    } else {
        ((1u32 << (32 - len) as u32) - 1) as u32
    }
}

/// The network part of a 128-bit address under a prefix length.
pub open spec fn spec_network6(addr: u128, len: u8) -> u128
    recommends
        len <= 128,
{
    if len == 0 {
        0
    } else {
        ((addr >> (128 - len) as u128) << (128 - len) as u128) as u128
    }
}

/// The all-ones host mask of an IPv6 prefix length.
pub open spec fn spec_host_mask6(len: u8) -> u128
    recommends
        len <= 128,
{
    if len == 0 {
        0xFFFF_FFFF_FFFF_FFFF_FFFF_FFFF_FFFF_FFFFu128
    } else {
        ((1u128 << (128 - len) as u128) - 1) as u128
    }
}

impl Ipv4Prefix {
    /// A prefix is well formed when its length is at most 32.
    pub open spec fn wf(&self) -> bool {
        self.len <= 32
    }

    /// The lowest address of the prefix: the network address.
    pub open spec fn spec_network(&self) -> u32 {
        spec_network4(self.addr, self.len)
    }

    /// The highest address of the prefix: the broadcast address.
    pub open spec fn spec_broadcast(&self) -> u32 {
        (spec_network4(self.addr, self.len) | spec_host_mask4(self.len)) as u32
    }

    /// Whether `ip` lies inside the prefix.
    pub open spec fn spec_contains(&self, ip: u32) -> bool {
        spec_network4(ip, self.len) == self.spec_network()
    }

    /// The network address.
    pub fn network(&self) -> (r: u32)
        requires
            self.wf(),
        ensures
            r == self.spec_network(),
    {
        if self.len == 0 {
            0
        } else {
            (self.addr >> (32 - self.len) as u32) << (32 - self.len) as u32
        }
    }

    /// The broadcast address.
    pub fn broadcast(&self) -> (r: u32)
        requires
            self.wf(),
        ensures
            r == self.spec_broadcast(),
    {
        self.network() | self.host_mask()
    }

    /// The host mask: ones exactly on the host bits.
    pub fn host_mask(&self) -> (r: u32)
        requires
            self.wf(),
        ensures
            r == spec_host_mask4(self.len),
    {
        if self.len == 0 {
            0xFFFF_FFFFu32
        } else {
            let k: u32 = (32 - self.len) as u32;
            proof {
                assert(1u32 << k >= 1) by (bit_vector)
                    requires
                        k < 32,
                ;
            }
            (1u32 << k) - 1
        }
    }

    /// The subnet mask: ones exactly on the network bits.
    pub fn netmask(&self) -> (r: u32)
        requires
            self.wf(),
        ensures
            r == !spec_host_mask4(self.len),
    {
        !self.host_mask()
    }

    /// Whether `ip` lies inside the prefix.
    pub fn contains(&self, ip: u32) -> (r: bool)
        requires
            self.wf(),
        ensures
            r == self.spec_contains(ip),
    {
        let other = Ipv4Prefix { addr: ip, len: self.len };
        other.network() == self.network()
    }
}

/// Every address strictly between the network and broadcast addresses
/// lies inside the prefix.
pub proof fn lemma_v4_usable_in_prefix(p: Ipv4Prefix, a: u32)
    requires
        p.wf(),
        p.spec_network() < a < p.spec_broadcast(),
    ensures
        p.spec_contains(a),
{
    if p.len == 0 {
        assert(spec_network4(a, 0) == 0);
    } else {
        let h: u32 = (32 - p.len) as u32;
        let x: u32 = p.addr;
        let n = p.spec_network();
        let m = spec_host_mask4(p.len);
        assert(n == ((x >> h) << h));
        assert(m == (((1u32 << h) - 1) as u32)) by {
            assert(p.len >= 1);
        }
        assert((((x >> h) << h) <= a && a <= (((x >> h) << h) | (((1u32 << h) - 1) as u32)) && h
            < 32) ==> ((a >> h) << h) == ((x >> h) << h)) by (bit_vector);
    }
}

/// The broadcast address never lies below the network address.
pub proof fn lemma_v4_range(p: Ipv4Prefix)
    requires
        p.wf(),
    ensures
        p.spec_network() <= p.spec_broadcast(),
{
    let n = p.spec_network();
    let m = spec_host_mask4(p.len);
    assert(n <= (n | m)) by (bit_vector);
}

impl Ipv6Prefix {
    /// A prefix is well formed when its length is at most 128.
    pub open spec fn wf(&self) -> bool {
        self.len <= 128
    }

    /// The lowest address of the prefix: the network address.
    pub open spec fn spec_network(&self) -> u128 {
        spec_network6(self.addr, self.len)
    }

    /// Whether `ip` lies inside the prefix.
    pub open spec fn spec_contains(&self, ip: u128) -> bool {
        spec_network6(ip, self.len) == self.spec_network()
    }

    /// The network address.
    pub fn network(&self) -> (r: u128)
        requires
            self.wf(),
        ensures
            r == self.spec_network(),
    {
        if self.len == 0 {
            0
        } else {
            (self.addr >> (128 - self.len) as u128) << (128 - self.len) as u128
        }
    }

    /// The host mask: ones exactly on the host bits.
    pub fn host_mask(&self) -> (r: u128)
        requires
            self.wf(),
        ensures
            r == spec_host_mask6(self.len),
    {
        if self.len == 0 {
            0xFFFF_FFFF_FFFF_FFFF_FFFF_FFFF_FFFF_FFFFu128
        } else {
            let k: u128 = (128 - self.len) as u128;
            proof {
                assert(1u128 << k >= 1) by (bit_vector)
                    requires
                        k < 128,
                ;
            }
            (1u128 << k) - 1
        }
    }

    /// Whether `ip` lies inside the prefix.
    pub fn contains(&self, ip: u128) -> (r: bool)
        requires
            self.wf(),
        ensures
            r == self.spec_contains(ip),
    {
        let other = Ipv6Prefix { addr: ip, len: self.len };
        other.network() == self.network()
    }
}

} // verus!
