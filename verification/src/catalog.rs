//! The in-memory catalog the DHCP responder works against: device
//! interfaces keyed by MAC address, and address leases. The embedding
//! program mirrors every change into its durable store.

use vstd::prelude::*;
use crate::dhcp::{DhcpLease, Interface};
use crate::mac::MacAddress;
use crate::net::{IpAddress, Ipv4, Ipv6};

verus! {

/// No two interfaces share a MAC address.
pub open spec fn macs_unique(s: Seq<Interface>) -> bool {
    forall|i: int, j: int|
        0 <= i < j < s.len() ==> (#[trigger] s[i]).mac_address@ != (#[trigger] s[j]).mac_address@
}

/// At most one lease is active per address.
pub open spec fn leases_ok(s: Seq<DhcpLease>) -> bool {
    forall|i: int, j: int|
        0 <= i < j < s.len() && (#[trigger] s[i]).is_active && (#[trigger] s[j]).is_active ==> s[i].ip_address != s[j].ip_address
}

/// Every interface carries an identifier below the next free one, and no
/// two carry the same.
pub open spec fn ids_ok(s: Seq<Interface>, next: i32) -> bool {
    &&& forall|i: int|
        0 <= i < s.len() ==> ((#[trigger] s[i]).id matches Some(v) && v < next)
    &&& forall|i: int, j: int| 0 <= i < j < s.len() ==> (#[trigger] s[i]).id != (#[trigger] s[j]).id
}

/// A lease with its activity withdrawn when it covers `ip`.
pub open spec fn deactivated_on(l: DhcpLease, ip: IpAddress) -> DhcpLease {
    if l.ip_address == ip {
        DhcpLease { is_active: false, ..l }
    } else {
        l
    }
}

/// A lease with its activity withdrawn when it belongs to interface `iid`
/// and covers `ip`.
pub open spec fn deactivated_for(l: DhcpLease, iid: i32, ip: IpAddress) -> DhcpLease {
    if l.interface_id == iid && l.ip_address == ip {
        DhcpLease { is_active: false, ..l }
    } else {
        l
    }
}

/// The interfaces and leases the responder knows.
pub struct CatalogState {
    interfaces: Vec<Interface>,
    leases: Vec<DhcpLease>,
    next_interface_id: i32,
}

impl CatalogState {
    /// The interfaces on record, in creation order.
    pub closed spec fn interfaces(&self) -> Seq<Interface> {
        self.interfaces@
    }

    /// The leases on record, in creation order.
    pub closed spec fn leases(&self) -> Seq<DhcpLease> {
        self.leases@
    }

    pub closed spec fn next_id(&self) -> i32 {
        self.next_interface_id
    }

    pub open spec fn wf(&self) -> bool {
        &&& macs_unique(self.interfaces())
        &&& leases_ok(self.leases())
        &&& ids_ok(self.interfaces(), self.next_id())
    }

    /// An empty catalog.
    pub fn new() -> (r: CatalogState)
        ensures
            r.wf(),
            r.interfaces() == Seq::<Interface>::empty(),
            r.leases() == Seq::<DhcpLease>::empty(),
    {
        let r = CatalogState { interfaces: Vec::new(), leases: Vec::new(), next_interface_id: 1 };
        proof {
            assert(r.interfaces() =~= Seq::<Interface>::empty());
            assert(r.leases() =~= Seq::<DhcpLease>::empty());
        }
        r
    }

    /// The position of the interface carrying a MAC address.
    pub fn find_interface_by_mac(&self, mac: &MacAddress) -> (r: Option<usize>)
        ensures
            match r {
                Some(i) => i < self.interfaces().len() && self.interfaces()[i as int].mac_address@
                    == mac@,
                None => forall|i: int|
                    0 <= i < self.interfaces().len() ==> (#[trigger] self.interfaces()[i]).mac_address@ != mac@,
            },
    {
        let n = self.interfaces.len();
        let mut i: usize = 0;
        while i < n
            invariant
                n == self.interfaces().len(),
                i <= n,
                forall|j: int|
                    0 <= j < i ==> (#[trigger] self.interfaces()[j]).mac_address@ != mac@,
            decreases n - i,
        {
            if self.interfaces[i].mac_address.same_as(mac) {
                return Some(i);
            }
            i += 1;
        }
        None
    }

    /// How many interfaces are on record.
    pub fn interface_count(&self) -> (r: usize)
        ensures
            r == self.interfaces().len(),
    {
        self.interfaces.len()
    }

    /// How many leases are on record.
    pub fn lease_count(&self) -> (r: usize)
        ensures
            r == self.leases().len(),
    {
        self.leases.len()
    }

    /// The lease at a position.
    pub fn lease_at(&self, i: usize) -> (r: &DhcpLease)
        requires
            i < self.leases().len(),
        ensures
            *r == self.leases()[i as int],
    {
        &self.leases[i]
    }

    /// Whether a fresh interface identifier is still available.
    pub fn can_create(&self) -> (r: bool)
        ensures
            r == (self.next_id() < i32::MAX),
    {
        self.next_interface_id < i32::MAX
    }

    /// The interface at a position.
    pub fn interface_at(&self, i: usize) -> (r: &Interface)
        requires
            i < self.interfaces().len(),
        ensures
            *r == self.interfaces()[i as int],
    {
        &self.interfaces[i]
    }

    /// Records a newly sighted interface and hands back its fresh
    /// identifier.
    pub fn create_interface(
        &mut self,
        device_id: i32,
        mac: MacAddress,
        is_bmc: bool,
        rack_identifier: Option<String>,
        rack_port: Option<String>,
        subnet_id: Option<i32>,
    ) -> (id: i32)
        requires
            old(self).wf(),
            old(self).next_id() < i32::MAX,
            forall|i: int|
                0 <= i < old(self).interfaces().len() ==> (#[trigger] old(self).interfaces()[i]).mac_address@ != mac@,
        ensures
            final(self).wf(),
            final(self).leases() == old(self).leases(),
            final(self).interfaces().len() == old(self).interfaces().len() + 1,
            final(self).interfaces().take(old(self).interfaces().len() as int) == old(self).interfaces(),
            final(self).interfaces().last().id == Some(id),
            final(self).interfaces().last().device_id == device_id,
            final(self).interfaces().last().mac_address@ == mac@,
            final(self).interfaces().last().ipv4_address is None,
            final(self).interfaces().last().ipv6_address is None,
            final(self).interfaces().last().is_bmc == is_bmc,
            final(self).interfaces().last().subnet_id == subnet_id,
    {
        let id = self.next_interface_id;
        self.next_interface_id = self.next_interface_id + 1;
        let intf = Interface {
            id: Some(id),
            device_id,
            mac_address: mac,
            ipv4_address: None,
            ipv6_address: None,
            is_bmc,
            rack_identifier,
            rack_port,
            subnet_id,
        };
        self.interfaces.push(intf);
        proof {
            assert(self.interfaces().take(old(self).interfaces().len() as int) =~= old(self).interfaces());
            assert forall|i: int, j: int|
                0 <= i < j < self.interfaces().len() implies (#[trigger] self.interfaces()[i]).mac_address@ != (#[trigger] self.interfaces()[j]).mac_address@ by {
                if j < old(self).interfaces().len() {
                    assert(self.interfaces()[i] == old(self).interfaces()[i]);
                    assert(self.interfaces()[j] == old(self).interfaces()[j]);
                } else {
                    assert(self.interfaces()[i] == old(self).interfaces()[i]);
                }
            }
            assert forall|i: int, j: int|
                0 <= i < j < self.interfaces().len() implies (#[trigger] self.interfaces()[i]).id
                != (#[trigger] self.interfaces()[j]).id by {
                if j < old(self).interfaces().len() {
                    assert(self.interfaces()[i] == old(self).interfaces()[i]);
                    assert(self.interfaces()[j] == old(self).interfaces()[j]);
                } else {
                    assert(self.interfaces()[i] == old(self).interfaces()[i]);
                }
            }
        }
        id
    }

    /// Updates the addresses of the interface at a position.
    pub fn update_interface_ip(&mut self, i: usize, ipv4: Option<Ipv4>, ipv6: Option<Ipv6>)
        requires
            old(self).wf(),
            i < old(self).interfaces().len(),
        ensures
            final(self).wf(),
            final(self).leases() == old(self).leases(),
            final(self).next_id() == old(self).next_id(),
            final(self).interfaces().len() == old(self).interfaces().len(),
            forall|j: int|
                0 <= j < old(self).interfaces().len() && j != i ==> final(self).interfaces()[j]
                    == (#[trigger] old(self).interfaces()[j]),
            final(self).interfaces()[i as int].ipv4_address == ipv4,
            final(self).interfaces()[i as int].ipv6_address == ipv6,
            final(self).interfaces()[i as int].id == old(self).interfaces()[i as int].id,
            final(self).interfaces()[i as int].device_id == old(self).interfaces()[i as int].device_id,
            final(self).interfaces()[i as int].mac_address@ == old(self).interfaces()[i as int].mac_address@,
            final(self).interfaces()[i as int].is_bmc == old(self).interfaces()[i as int].is_bmc,
            final(self).interfaces()[i as int].subnet_id == old(self).interfaces()[i as int].subnet_id,
            final(self).interfaces()[i as int].rack_identifier == old(self).interfaces()[
                i as int
            ].rack_identifier,
            final(self).interfaces()[i as int].rack_port == old(self).interfaces()[
                i as int
            ].rack_port,
        decreases
    {
        self.interfaces[i].ipv4_address = ipv4;
        self.interfaces[i].ipv6_address = ipv6;
        proof {
            assert forall|a: int, b: int|
                0 <= a < b < self.interfaces().len() implies (#[trigger] self.interfaces()[a]).mac_address@ != (#[trigger] self.interfaces()[b]).mac_address@ by {
                assert(self.interfaces()[a].mac_address@ == old(self).interfaces()[a].mac_address@);
                assert(self.interfaces()[b].mac_address@ == old(self).interfaces()[b].mac_address@);
            }
            assert forall|a: int, b: int|
                0 <= a < b < self.interfaces().len() implies (#[trigger] self.interfaces()[a]).id
                != (#[trigger] self.interfaces()[b]).id by {
                assert(self.interfaces()[a].id == old(self).interfaces()[a].id);
                assert(self.interfaces()[b].id == old(self).interfaces()[b].id);
            }
            assert forall|a: int|
                0 <= a < self.interfaces().len() implies ((#[trigger] self.interfaces()[a]).id
                matches Some(v) && v < self.next_id()) by {
                assert(self.interfaces()[a].id == old(self).interfaces()[a].id);
            }
        }
    }

    /// Updates the rack provenance of the interface at a position.
    pub fn update_interface_rack(&mut self, i: usize, rack_identifier: String, rack_port: String)
        requires
            old(self).wf(),
            i < old(self).interfaces().len(),
        ensures
            final(self).wf(),
            final(self).leases() == old(self).leases(),
            final(self).next_id() == old(self).next_id(),
            final(self).interfaces().len() == old(self).interfaces().len(),
            forall|j: int|
                0 <= j < old(self).interfaces().len() && j != i ==> final(self).interfaces()[j]
                    == (#[trigger] old(self).interfaces()[j]),
            final(self).interfaces()[i as int].rack_identifier matches Some(s) && s@
                == rack_identifier@,
            final(self).interfaces()[i as int].rack_port matches Some(s) && s@ == rack_port@,
            final(self).interfaces()[i as int].id == old(self).interfaces()[i as int].id,
            final(self).interfaces()[i as int].mac_address@ == old(self).interfaces()[i as int].mac_address@,
            final(self).interfaces()[i as int].ipv4_address == old(self).interfaces()[i as int].ipv4_address,
            final(self).interfaces()[i as int].subnet_id == old(self).interfaces()[i as int].subnet_id,
    {
        self.interfaces[i].rack_identifier = Some(rack_identifier);
        self.interfaces[i].rack_port = Some(rack_port);
        proof {
            assert forall|a: int, b: int|
                0 <= a < b < self.interfaces().len() implies (#[trigger] self.interfaces()[a]).mac_address@ != (#[trigger] self.interfaces()[b]).mac_address@ by {
                assert(self.interfaces()[a].mac_address@ == old(self).interfaces()[a].mac_address@);
                assert(self.interfaces()[b].mac_address@ == old(self).interfaces()[b].mac_address@);
            }
            assert forall|a: int, b: int|
                0 <= a < b < self.interfaces().len() implies (#[trigger] self.interfaces()[a]).id
                != (#[trigger] self.interfaces()[b]).id by {
                assert(self.interfaces()[a].id == old(self).interfaces()[a].id);
                assert(self.interfaces()[b].id == old(self).interfaces()[b].id);
            }
            assert forall|a: int|
                0 <= a < self.interfaces().len() implies ((#[trigger] self.interfaces()[a]).id
                matches Some(v) && v < self.next_id()) by {
                assert(self.interfaces()[a].id == old(self).interfaces()[a].id);
            }
        }
    }

    /// Records a fresh active lease; any active lease on the same address
    /// is deactivated first, so the address keeps a single active lease.
    pub fn create_lease(
        &mut self,
        interface_id: i32,
        subnet_id: i32,
        ip: IpAddress,
        start: u64,
        end: u64,
    )
        requires
            old(self).wf(),
        ensures
            final(self).wf(),
            final(self).interfaces() == old(self).interfaces(),
            final(self).next_id() == old(self).next_id(),
            final(self).leases() == old(self).leases().map_values(
                |l: DhcpLease| deactivated_on(l, ip),
            ).push(
                DhcpLease {
                    id: None,
                    interface_id,
                    subnet_id,
                    ip_address: ip,
                    lease_start: start,
                    lease_end: end,
                    is_active: true,
                },
            ),
    {
        let ghost orig = self.leases();
        let n = self.leases.len();
        let mut i: usize = 0;
        while i < n
            invariant
                n == self.leases().len(),
                orig == old(self).leases(),
                orig.len() == n,
                i <= n,
                self.interfaces() == old(self).interfaces(),
                self.next_id() == old(self).next_id(),
                forall|j: int|
                    0 <= j < i ==> self.leases()[j] == deactivated_on(#[trigger] orig[j], ip),
                forall|j: int| i <= j < n ==> self.leases()[j] == orig[j],
            decreases n - i,
        {
            if same_ip(&self.leases[i].ip_address, &ip) {
                self.leases[i].is_active = false;
            }
            i += 1;
        }
        self.leases.push(
            DhcpLease {
                id: None,
                interface_id,
                subnet_id,
                ip_address: ip,
                lease_start: start,
                lease_end: end,
                is_active: true,
            },
        );
        proof {
            assert(self.leases() =~= old(self).leases().map_values(
                |l: DhcpLease| deactivated_on(l, ip),
            ).push(
                DhcpLease {
                    id: None,
                    interface_id,
                    subnet_id,
                    ip_address: ip,
                    lease_start: start,
                    lease_end: end,
                    is_active: true,
                },
            ));
            assert forall|a: int, b: int|
                0 <= a < b < self.leases().len() && (#[trigger] self.leases()[a]).is_active && (
            #[trigger] self.leases()[b]).is_active implies self.leases()[a].ip_address
                != self.leases()[b].ip_address by {}
        }
    }

    /// Withdraws the activity of the leases an interface holds on an
    /// address.
    pub fn deactivate_lease(&mut self, interface_id: i32, ip: IpAddress)
        requires
            old(self).wf(),
        ensures
            final(self).wf(),
            final(self).interfaces() == old(self).interfaces(),
            final(self).next_id() == old(self).next_id(),
            final(self).leases() == old(self).leases().map_values(
                |l: DhcpLease| deactivated_for(l, interface_id, ip),
            ),
    {
        let ghost orig = self.leases();
        let n = self.leases.len();
        let mut i: usize = 0;
        while i < n
            invariant
                n == self.leases().len(),
                orig == old(self).leases(),
                orig.len() == n,
                i <= n,
                self.interfaces() == old(self).interfaces(),
                self.next_id() == old(self).next_id(),
                forall|j: int|
                    0 <= j < i ==> self.leases()[j] == deactivated_for(
                        #[trigger] orig[j],
                        interface_id,
                        ip,
                    ),
                forall|j: int| i <= j < n ==> self.leases()[j] == orig[j],
            decreases n - i,
        {
            if self.leases[i].interface_id == interface_id && same_ip(
                &self.leases[i].ip_address,
                &ip,
            ) {
                self.leases[i].is_active = false;
            }
            i += 1;
        }
        proof {
            assert(self.leases() =~= old(self).leases().map_values(
                |l: DhcpLease| deactivated_for(l, interface_id, ip),
            ));
            assert forall|a: int, b: int|
                0 <= a < b < self.leases().len() && (#[trigger] self.leases()[a]).is_active && (
            #[trigger] self.leases()[b]).is_active implies self.leases()[a].ip_address
                != self.leases()[b].ip_address by {}
        }
    }

    /// Takes a known interface on record at startup; a repeated MAC address
    /// or a missing or oversized identifier is refused.
    pub fn load_interface(&mut self, intf: Interface) -> (r: bool)
        requires
            old(self).wf(),
        ensures
            final(self).wf(),
            final(self).leases() == old(self).leases(),
            r ==> final(self).interfaces().len() == old(self).interfaces().len() + 1 && final(self).interfaces().take(old(self).interfaces().len() as int) == old(self).interfaces()
                && final(self).interfaces().last() == intf,
            !r ==> final(self).interfaces() == old(self).interfaces(),
            r == ((intf.id matches Some(v) && v < i32::MAX - 1) && (forall|i: int|
                0 <= i < old(self).interfaces().len() ==> (#[trigger] old(self).interfaces()[i]).mac_address@ != intf.mac_address@) && (forall|i: int|
                0 <= i < old(self).interfaces().len() ==> (#[trigger] old(self).interfaces()[i]).id != intf.id)),
    {
        let id = match intf.id {
            Some(v) => v,
            None => {
                return false;
            },
        };
        if id >= i32::MAX - 1 {
            return false;
        }
        match self.find_interface_by_mac(&intf.mac_address) {
            Some(_) => false,
            None => {
                let mut exists_id = false;
                let n = self.interfaces.len();
                let mut i: usize = 0;
                while i < n
                    invariant
                        n == self.interfaces().len(),
                        i <= n,
                        self == old(self),
                        exists_id == exists|j: int|
                            0 <= j < i && (#[trigger] self.interfaces()[j]).id == Some(id),
                    decreases n - i,
                {
                    let same = match self.interfaces[i].id {
                        Some(v) => v == id,
                        None => false,
                    };
                    if same {
                        exists_id = true;
                    }
                    proof {
                        if same {
                            assert(self.interfaces()[i as int].id == Some(id));
                        }
                    }
                    i += 1;
                }
                if exists_id {
                    return false;
                }
                if id >= self.next_interface_id {
                    self.next_interface_id = id + 1;
                }
                self.interfaces.push(intf);
                proof {
                    assert(self.interfaces().take(old(self).interfaces().len() as int) =~= old(self).interfaces());
                    assert forall|a: int, b: int|
                        0 <= a < b < self.interfaces().len() implies (#[trigger] self.interfaces()[a]).mac_address@ != (#[trigger] self.interfaces()[b]).mac_address@ by {
                        if b < old(self).interfaces().len() {
                            assert(self.interfaces()[a] == old(self).interfaces()[a]);
                            assert(self.interfaces()[b] == old(self).interfaces()[b]);
                        } else {
                            assert(self.interfaces()[a] == old(self).interfaces()[a]);
                        }
                    }
                    assert forall|a: int, b: int|
                        0 <= a < b < self.interfaces().len() implies (#[trigger] self.interfaces()[a]).id != (#[trigger] self.interfaces()[b]).id by {
                        if b < old(self).interfaces().len() {
                            assert(self.interfaces()[a] == old(self).interfaces()[a]);
                            assert(self.interfaces()[b] == old(self).interfaces()[b]);
                        } else {
                            assert(self.interfaces()[a] == old(self).interfaces()[a]);
                            assert(self.interfaces()[b].id == Some(id));
                        }
                    }
                    assert forall|a: int|
                        0 <= a < self.interfaces().len() implies (#[trigger] self.interfaces()[a]).id matches Some(v) && v < self.next_id() by {
                        if a < old(self).interfaces().len() {
                            assert(self.interfaces()[a] == old(self).interfaces()[a]);
                        }
                    }
                }
                true
            },
        }
    }

    /// Takes a lease on record at startup; an active lease on an address
    /// that already has one is taken inactive.
    pub fn load_lease(&mut self, lease: DhcpLease)
        requires
            old(self).wf(),
        ensures
            final(self).wf(),
            final(self).interfaces() == old(self).interfaces(),
            lease.is_active ==> final(self).leases() == old(self).leases().map_values(
                |l: DhcpLease| deactivated_on(l, lease.ip_address),
            ).push(
                DhcpLease {
                    id: None,
                    interface_id: lease.interface_id,
                    subnet_id: lease.subnet_id,
                    ip_address: lease.ip_address,
                    lease_start: lease.lease_start,
                    lease_end: lease.lease_end,
                    is_active: true,
                },
            ),
            !lease.is_active ==> final(self).leases() == old(self).leases().push(lease),
    {
        if lease.is_active {
            self.create_lease(
                lease.interface_id,
                lease.subnet_id,
                lease.ip_address,
                lease.lease_start,
                lease.lease_end,
            );
        } else {
            self.leases.push(lease);
            proof {
                assert(self.leases().take(old(self).leases().len() as int) =~= old(self).leases());
                assert forall|a: int, b: int|
                    0 <= a < b < self.leases().len() && (#[trigger] self.leases()[a]).is_active
                        && (#[trigger] self.leases()[b]).is_active implies self.leases()[a].ip_address != self.leases()[b].ip_address by {
                    if b < old(self).leases().len() {
                        assert(self.leases()[a] == old(self).leases()[a]);
                        assert(self.leases()[b] == old(self).leases()[b]);
                    } else {
                        assert(!self.leases()[b].is_active);
                    }
                }
            }
        }
    }
}

/// A catalog holds at most one interface per MAC address: any two
/// positions carrying the same address are the same position. Together
/// with the handlers' guarantee that an interface for the client's MAC
/// address exists after a DISCOVER or REQUEST, the catalog holds exactly
/// one interface for that address.
pub proof fn lemma_interface_unique_per_mac(c: CatalogState, mac: Seq<u8>, i: int, j: int)
    requires
        c.wf(),
        0 <= i < c.interfaces().len(),
        0 <= j < c.interfaces().len(),
        c.interfaces()[i].mac_address@ == mac,
        c.interfaces()[j].mac_address@ == mac,
    ensures
        i == j,
{
}

/// A catalog holds at most one active lease per address: any two positions
/// carrying active leases on the same address are the same position.
/// Together with the REQUEST handler's guarantee that an active lease for
/// the acknowledged address exists, the address holds exactly one active
/// lease.
pub proof fn lemma_active_lease_unique_per_ip(c: CatalogState, ip: IpAddress, i: int, j: int)
    requires
        c.wf(),
        0 <= i < c.leases().len(),
        0 <= j < c.leases().len(),
        c.leases()[i].is_active,
        c.leases()[j].is_active,
        c.leases()[i].ip_address == ip,
        c.leases()[j].ip_address == ip,
    ensures
        i == j,
{
}

/// Whether two addresses are the same.
pub fn same_ip(a: &IpAddress, b: &IpAddress) -> (r: bool)
    ensures
        r == (a == b),
{
    match (a, b) {
        (IpAddress::V4(x), IpAddress::V4(y)) => x.0 == y.0,
        (IpAddress::V6(x), IpAddress::V6(y)) => x.0 == y.0,
        _ => false,
    }
}

} // verus!
