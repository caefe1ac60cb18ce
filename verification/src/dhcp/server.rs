//! The DHCP responder: stateless per-datagram handlers that read and update
//! the catalog and the address pool, and build the reply packet. Sockets
//! and the durable store live outside; every catalog change is also queued
//! as an action for the embedding program to persist.

use vstd::prelude::*;
use crate::catalog::{CatalogState, deactivated_for, deactivated_on};
use crate::dhcp::{DhcpError, DhcpLease, Subnet};
use crate::dhcp::option82::Option82Parser;
use crate::dhcp::packet::{
    contains_code, lemma_spec_insert_found, lemma_spec_insert_other, spec_get_message_type,
    value_of_code, DhcpMessageType, DhcpOption, DhcpPacket, DhcpPacketModel, OptionModel,
};
use crate::dhcp::pool::{
    spec_subnet_key, spec_v4_available, v4_mark_used_effect, v4_updated, v6_mark_used_effect,
    IpPool, Ipv4Pool, Ipv6Pool,
};
use crate::mac::MacAddress;
use crate::net::{IpAddress, Ipv4, Ipv6};
use vstd::string::StringExecFns;

verus! {

/// A catalog change for the embedding program to mirror into its durable
/// store, in the order the changes were made.
#[derive(Debug, Clone)]
pub enum CatalogAction {
    CreateInterface {
        id: i32,
        device_id: i32,
        mac: MacAddress,
        is_bmc: bool,
        rack_identifier: Option<String>,
        rack_port: Option<String>,
        subnet_id: Option<i32>,
    },
    UpdateInterfaceIp { id: i32, ipv4: Option<Ipv4>, ipv6: Option<Ipv6> },
    UpdateInterfaceRack { id: i32, rack_identifier: String, rack_port: String },
    CreateLease { interface_id: i32, subnet_id: i32, ip: IpAddress, start: u64, end: u64 },
    DeactivateLease { interface_id: i32, ip: IpAddress },
}

/// A reply packet and the IPv4 address to send it to, on port 68; the
/// all-ones address means broadcast.
pub struct DhcpReply {
    pub packet: DhcpPacket,
    pub destination: Ipv4,
}

/// An interface of this MAC address already holds the address.
pub open spec fn spec_owned(s: Seq<crate::dhcp::Interface>, mac: Seq<u8>, ip: u32) -> bool {
    exists|i: int|
        0 <= i < s.len() && (#[trigger] s[i]).mac_address@ == mac && s[i].ipv4_address == Some(
            Ipv4(ip),
        )
}

/// An OFFER for this address is out to this MAC address.
pub open spec fn spec_offered(s: Seq<(MacAddress, Ipv4)>, mac: Seq<u8>, ip: u32) -> bool {
    exists|i: int| 0 <= i < s.len() && (#[trigger] s[i]).0@ == mac && s[i].1.0 == ip
}

/// The address a REQUEST asks for: option 50, else a nonzero `ciaddr`.
pub open spec fn spec_requested_ip(p: DhcpPacketModel) -> Option<u32> {
    if contains_code(p.options, 50) && value_of_code(p.options, 50) is RequestedIpAddress {
        Some(value_of_code(p.options, 50)->RequestedIpAddress_0)
    } else if p.ciaddr != 0 {
        Some(p.ciaddr)
    } else {
        None
    }
}

/// The IPv4 addresses among a list of DNS servers, in order.
pub open spec fn dns_v4(l: Seq<IpAddress>) -> Seq<u32>
    decreases l.len(),
{
    if l.len() == 0 {
        Seq::<u32>::empty()
    } else {
        (match l[0] {
            IpAddress::V4(a) => seq![a.0],
            IpAddress::V6(_) => Seq::<u32>::empty(),
        }) + dns_v4(l.skip(1))
    }
}

proof fn lemma_dns_v4_snoc(l: Seq<IpAddress>, i: int)
    requires
        0 <= i < l.len(),
    ensures
        dns_v4(l.take(i + 1)) == dns_v4(l.take(i)) + (match l[i] {
            IpAddress::V4(a) => seq![a.0],
            IpAddress::V6(_) => Seq::<u32>::empty(),
        }),
    decreases i,
{
    if i == 0 {
        assert(l.take(1)[0] == l[0]);
        assert(l.take(1).skip(1) =~= Seq::<IpAddress>::empty());
        assert(l.take(0) =~= Seq::<IpAddress>::empty());
        assert(dns_v4(l.take(1)) =~= dns_v4(l.take(0)) + (match l[0] {
            IpAddress::V4(a) => seq![a.0],
            IpAddress::V6(_) => Seq::<u32>::empty(),
        }));
    } else {
        lemma_dns_v4_snoc(l.skip(1), i - 1);
        assert(l.take(i + 1).skip(1) =~= l.skip(1).take(i));
        assert(l.take(i).skip(1) =~= l.skip(1).take(i - 1));
        assert(l.take(i + 1)[0] == l[0]);
        assert(l.take(i)[0] == l[0]);
        assert(l.skip(1)[i - 1] == l[i]);
        assert(dns_v4(l.take(i + 1)) =~= dns_v4(l.take(i)) + (match l[i] {
            IpAddress::V4(a) => seq![a.0],
            IpAddress::V6(_) => Seq::<u32>::empty(),
        }));
    }
}

/// The subnet-derived options a reply carries: the gateway as option 3,
/// the mask as option 1, the IPv4 DNS servers as option 6 when any exist,
/// and the lease time as option 51.
pub open spec fn subnet_options_ok(opts: Seq<(u8, OptionModel)>, s: Subnet) -> bool {
    &&& (s.gateway_ipv4 matches Some(gw) ==> contains_code(opts, 3) && value_of_code(opts, 3)
        == OptionModel::Router(seq![gw.0]))
    &&& (s.network_ipv4 matches Some(p) ==> contains_code(opts, 1) && value_of_code(opts, 1)
        == OptionModel::SubnetMask(!crate::net::spec_host_mask4(p.len)))
    &&& (dns_v4(s.dns_servers@).len() > 0 ==> contains_code(opts, 6) && value_of_code(opts, 6)
        == OptionModel::DnsServers(dns_v4(s.dns_servers@)))
    &&& contains_code(opts, 51) && value_of_code(opts, 51) == OptionModel::LeaseTime(s.lease_time)
}

/// A fresh allocation scoped to a subnet key: from the first bucket of the
/// named subnet, or, with no subnet named, from the first bucket that
/// still had room.
pub open spec fn scoped_allocation(
    s: Seq<Ipv4Pool>,
    t: Seq<Ipv4Pool>,
    subnet_key: Option<i32>,
    ip: u32,
) -> bool {
    match subnet_key {
        Some(id) => match crate::dhcp::pool::first_v4_with(s, id) {
            Some(k) => s[k].usable(ip) && !s[k].allocated_set().contains(ip) && v4_updated(
                s,
                t,
                k,
                ip,
            ),
            None => false,
        },
        None => exists|k: int|
            {
                &&& 0 <= k < s.len()
                &&& (#[trigger] s[k]).usable(ip)
                &&& !s[k].allocated_set().contains(ip)
                &&& v4_updated(s, t, k, ip)
                &&& forall|j: int|
                    0 <= j < k ==> crate::dhcp::pool::v4_exhausted(#[trigger] s[j])
            },
    }
}

/// The reply carries the option set of the first subnet the key names,
/// when any subnet carries that key.
pub open spec fn subnet_options_for(
    opts: Seq<(u8, OptionModel)>,
    subnets: Seq<Subnet>,
    key: Option<i32>,
) -> bool {
    match key {
        Some(k) => (exists|si: int|
            {
                &&& 0 <= si < subnets.len()
                &&& spec_subnet_key((#[trigger] subnets[si]).id) == k
                &&& forall|j: int| 0 <= j < si ==> spec_subnet_key((#[trigger] subnets[j]).id) != k
                &&& subnet_options_ok(opts, subnets[si])
            }) || (forall|si: int|
            0 <= si < subnets.len() ==> spec_subnet_key((#[trigger] subnets[si]).id) != k),
        None => true,
    }
}

/// Everything an OFFER settles, relating the responder before (`pre`) and
/// after (`post`): the echoed header fields, the message type and option
/// set, the freshly held usable address, the reuse rule, the
/// found-or-created interface, the recorded offer, and the queued catalog
/// change.
pub open spec fn discover_reply_ok(
    pre: DhcpServer,
    post: DhcpServer,
    packet: DhcpPacketModel,
    reply: DhcpPacketModel,
) -> bool {
    &&& reply.op == 2
    &&& reply.xid == packet.xid
    &&& reply.chaddr == packet.chaddr
    &&& reply.siaddr == pre.spec_server_ipv4().0
    &&& spec_get_message_type(reply.options) == Some(DhcpMessageType::Offer)
    &&& contains_code(reply.options, 54) && value_of_code(reply.options, 54)
        == OptionModel::ServerIdentifier(pre.spec_server_ipv4().0)
    &&& exists|k: int|
        0 <= k < pre.pool_v4().len() && (#[trigger] pre.pool_v4()[k]).usable(reply.yiaddr)
            && !pre.pool_v4()[k].allocated_set().contains(reply.yiaddr) && v4_updated(
            pre.pool_v4(),
            post.pool_v4(),
            k,
            reply.yiaddr,
        )
    &&& exists|i: int|
        {
            &&& 0 <= i < post.spec_catalog().interfaces().len()
            &&& (#[trigger] post.spec_catalog().interfaces()[i]).mac_address@ == packet.chaddr
            &&& (post.spec_catalog().interfaces()[i].ipv4_address matches Some(rec) ==> ((
            spec_v4_available(pre.pool_v4(), rec.0) && crate::dhcp::pool::spec_v4_usable(
                pre.pool_v4(),
                rec.0,
            ) ==> reply.yiaddr == rec.0) && (!(spec_v4_available(pre.pool_v4(), rec.0)
                && crate::dhcp::pool::spec_v4_usable(pre.pool_v4(), rec.0)) ==> scoped_allocation(
                pre.pool_v4(),
                post.pool_v4(),
                post.spec_catalog().interfaces()[i].subnet_id,
                reply.yiaddr,
            ))))
            &&& (post.spec_catalog().interfaces()[i].ipv4_address is None ==> scoped_allocation(
                pre.pool_v4(),
                post.pool_v4(),
                post.spec_catalog().interfaces()[i].subnet_id,
                reply.yiaddr,
            ))
            &&& subnet_options_for(
                reply.options,
                pre.spec_subnets(),
                post.spec_catalog().interfaces()[i].subnet_id,
            )
            &&& (post.spec_actions().len() == pre.spec_actions().len() + 1
                ==> catalog_action_for(
                post.spec_actions().last(),
                post.spec_catalog().interfaces()[i],
                packet.chaddr,
            ))
        }
    &&& spec_offered(post.spec_offers(), packet.chaddr, reply.yiaddr)
    &&& pre.spec_actions().len() <= post.spec_actions().len() <= pre.spec_actions().len() + 1
    &&& post.spec_actions().take(pre.spec_actions().len() as int) == pre.spec_actions()
}

/// The queued change that finding or creating an interface may leave
/// behind: a rack update of that interface, or its creation.
pub open spec fn catalog_action_for(
    a: CatalogAction,
    intf: crate::dhcp::Interface,
    mac: Seq<u8>,
) -> bool {
    match a {
        CatalogAction::UpdateInterfaceRack { id, .. } => Some(id) == intf.id,
        CatalogAction::CreateInterface { id, mac: amac, subnet_id, .. } => Some(id) == intf.id
            && amac@ == mac && subnet_id == intf.subnet_id,
        _ => false,
    }
}

/// What a failing DISCOVER settles: either the interface-identifier space
/// is spent, or the client's interface exists and its scoped pool is
/// spent.
pub open spec fn discover_err_ok(
    pre: DhcpServer,
    post: DhcpServer,
    packet: DhcpPacketModel,
) -> bool {
    pre.spec_catalog().next_id() == i32::MAX || exists|i: int|
        {
            &&& 0 <= i < post.spec_catalog().interfaces().len()
            &&& (#[trigger] post.spec_catalog().interfaces()[i]).mac_address@ == packet.chaddr
            &&& match post.spec_catalog().interfaces()[i].subnet_id {
                Some(id) => match crate::dhcp::pool::first_v4_with(pre.pool_v4(), id) {
                    Some(k) => crate::dhcp::pool::v4_exhausted(pre.pool_v4()[k]),
                    None => true,
                },
                None => forall|j: int|
                    0 <= j < pre.pool_v4().len() ==> crate::dhcp::pool::v4_exhausted(
                        #[trigger] pre.pool_v4()[j],
                    ),
            }
        }
}

/// Everything an ACK or NAK settles: the echoed header fields, the
/// acceptance rule as an equivalence, and on acceptance the held address,
/// the single active lease, the updated interface with its option set, and
/// the queued lease and interface changes.
pub open spec fn request_reply_ok(
    pre: DhcpServer,
    post: DhcpServer,
    packet: DhcpPacketModel,
    reply: DhcpPacketModel,
    now: u64,
) -> bool {
    &&& reply.op == 2
    &&& reply.xid == packet.xid
    &&& reply.chaddr == packet.chaddr
    &&& spec_requested_ip(packet) matches Some(req)
    &&& (spec_get_message_type(reply.options) == Some(DhcpMessageType::Ack)
        || spec_get_message_type(reply.options) == Some(DhcpMessageType::Nak))
    &&& contains_code(reply.options, 54) && value_of_code(reply.options, 54)
        == OptionModel::ServerIdentifier(pre.spec_server_ipv4().0)
    &&& (spec_get_message_type(reply.options) == Some(DhcpMessageType::Ack) <==> (
    spec_v4_available(pre.pool_v4(), spec_requested_ip(packet).unwrap()) || spec_owned(
        pre.spec_catalog().interfaces(),
        packet.chaddr,
        spec_requested_ip(packet).unwrap(),
    ) || spec_offered(pre.spec_offers(), packet.chaddr, spec_requested_ip(packet).unwrap())))
    &&& (spec_get_message_type(reply.options) == Some(DhcpMessageType::Ack) ==> {
        let req = spec_requested_ip(packet).unwrap();
        let n = post.spec_actions().len();
        &&& reply.yiaddr == req
        &&& exists|l: int|
            0 <= l < post.spec_catalog().leases().len() && (#[trigger] post.spec_catalog().leases()[
                l
            ]).is_active && post.spec_catalog().leases()[l].ip_address == IpAddress::V4(Ipv4(req))
        &&& exists|i: int|
            {
                &&& 0 <= i < post.spec_catalog().interfaces().len()
                &&& (#[trigger] post.spec_catalog().interfaces()[i]).mac_address@ == packet.chaddr
                &&& post.spec_catalog().interfaces()[i].ipv4_address == Some(Ipv4(req))
                &&& subnet_options_for(
                    reply.options,
                    pre.spec_subnets(),
                    post.spec_catalog().interfaces()[i].subnet_id,
                )
                &&& (post.spec_actions()[n - 2] matches CatalogAction::CreateLease {
                    interface_id,
                    ip,
                    start,
                    ..
                } && Some(interface_id) == post.spec_catalog().interfaces()[i].id && ip
                    == IpAddress::V4(Ipv4(req)) && start == now)
                &&& (post.spec_actions()[n - 1] matches CatalogAction::UpdateInterfaceIp {
                    id,
                    ipv4,
                    ipv6,
                } && Some(id) == post.spec_catalog().interfaces()[i].id && ipv4 == Some(Ipv4(req))
                    && ipv6 is None)
            }
        &&& pre.spec_actions().len() + 2 <= n <= pre.spec_actions().len() + 3
        &&& post.spec_actions().take(pre.spec_actions().len() as int) == pre.spec_actions()
    })
    &&& (spec_get_message_type(reply.options) == Some(DhcpMessageType::Nak) ==> {
        &&& post.spec_catalog().leases() == pre.spec_catalog().leases()
        &&& post.spec_pool() == pre.spec_pool()
        &&& pre.spec_actions().len() <= post.spec_actions().len() <= pre.spec_actions().len() + 1
        &&& post.spec_actions().take(pre.spec_actions().len() as int) == pre.spec_actions()
    })
}

/// Everything a RELEASE settles: when the client's interface is known and
/// holds an address, its lease goes inactive, the interface keeps every
/// other field but loses its addresses, the address returns to every
/// bucket, and the two changes are queued; otherwise nothing changes.
pub open spec fn release_ok(pre: DhcpServer, post: DhcpServer, packet: DhcpPacketModel) -> bool {
    &&& forall|j: int|
        (0 <= j < pre.spec_catalog().interfaces().len() && (#[trigger] pre.spec_catalog().interfaces()[
            j
        ]).mac_address@ == packet.chaddr) ==> (pre.spec_catalog().interfaces()[j].ipv4_address
            matches Some(ip) ==> {
            &&& (pre.spec_catalog().interfaces()[j].id matches Some(idv)
                ==> post.spec_catalog().leases() == pre.spec_catalog().leases().map_values(
                |l: DhcpLease| deactivated_for(l, idv, IpAddress::V4(ip)),
            ) && post.spec_actions() == pre.spec_actions().push(
                CatalogAction::DeactivateLease { interface_id: idv, ip: IpAddress::V4(ip) },
            ).push(CatalogAction::UpdateInterfaceIp { id: idv, ipv4: None, ipv6: None }))
            &&& post.spec_catalog().interfaces()[j].ipv4_address is None
            &&& post.spec_catalog().interfaces()[j].ipv6_address is None
            &&& post.spec_catalog().interfaces().len() == pre.spec_catalog().interfaces().len()
            &&& forall|j2: int|
                0 <= j2 < pre.spec_catalog().interfaces().len() && j2 != j ==> post.spec_catalog().interfaces()[j2]
                    == (#[trigger] pre.spec_catalog().interfaces()[j2])
            &&& post.spec_catalog().interfaces()[j].id == pre.spec_catalog().interfaces()[j].id
            &&& post.spec_catalog().interfaces()[j].device_id == pre.spec_catalog().interfaces()[
                j
            ].device_id
            &&& post.spec_catalog().interfaces()[j].mac_address@ == pre.spec_catalog().interfaces()[
                j
            ].mac_address@
            &&& post.spec_catalog().interfaces()[j].is_bmc == pre.spec_catalog().interfaces()[
                j
            ].is_bmc
            &&& post.spec_catalog().interfaces()[j].subnet_id == pre.spec_catalog().interfaces()[
                j
            ].subnet_id
            &&& post.spec_catalog().interfaces()[j].rack_identifier
                == pre.spec_catalog().interfaces()[j].rack_identifier
            &&& post.spec_catalog().interfaces()[j].rack_port == pre.spec_catalog().interfaces()[
                j
            ].rack_port
            &&& post.pool_v4().len() == pre.pool_v4().len()
            &&& forall|k: int|
                0 <= k < pre.pool_v4().len() ==> (#[trigger] post.pool_v4()[k]).allocated_set()
                    == pre.pool_v4()[k].allocated_set().remove(ip.0)
        })
    &&& (forall|j: int|
        0 <= j < pre.spec_catalog().interfaces().len() ==> !((#[trigger] pre.spec_catalog().interfaces()[
            j
        ]).mac_address@ == packet.chaddr && pre.spec_catalog().interfaces()[j].ipv4_address
            is Some)) ==> post.spec_catalog().interfaces() == pre.spec_catalog().interfaces()
        && post.spec_catalog().leases() == pre.spec_catalog().leases() && post.spec_pool()
        == pre.spec_pool() && post.spec_actions() == pre.spec_actions()
}

/// Everything a DECLINE settles: the reported address, when option 50
/// carries one, is held in the pool for the rest of the server's life; the
/// catalog and the queue are untouched.
pub open spec fn decline_ok(pre: DhcpServer, post: DhcpServer, packet: DhcpPacketModel) -> bool {
    &&& post.spec_catalog() == pre.spec_catalog()
    &&& post.spec_offers() == pre.spec_offers()
    &&& post.spec_actions() == pre.spec_actions()
    &&& post.pool_v6() == pre.pool_v6()
    &&& (!(contains_code(packet.options, 50) && value_of_code(packet.options, 50)
        is RequestedIpAddress) ==> post.spec_pool() == pre.spec_pool())
    &&& (contains_code(packet.options, 50) ==> (value_of_code(packet.options, 50)
        matches OptionModel::RequestedIpAddress(ip) ==> v4_mark_used_effect(
        pre.pool_v4(),
        post.pool_v4(),
        ip,
    ) && !spec_v4_available(post.pool_v4(), ip)))
}

/// The DHCP responder's whole state: the catalog, the address pool, the
/// subnet configuration, and the server's own addresses.
pub struct DhcpServer {
    catalog: CatalogState,
    ip_pool: IpPool,
    subnets: Vec<Subnet>,
    server_ipv4: Ipv4,
    server_ipv6: Option<Ipv6>,
    offers: Vec<(MacAddress, Ipv4)>,
    actions: Vec<CatalogAction>,
}

impl DhcpServer {
    /// The catalog as the responder sees it.
    pub closed spec fn spec_catalog(&self) -> CatalogState {
        self.catalog
    }

    /// The address pool.
    pub closed spec fn spec_pool(&self) -> IpPool {
        self.ip_pool
    }

    /// The IPv4 buckets of the pool.
    pub open spec fn pool_v4(&self) -> Seq<Ipv4Pool> {
        self.spec_pool().v4()
    }

    /// The IPv6 buckets of the pool.
    pub open spec fn pool_v6(&self) -> Seq<Ipv6Pool> {
        self.spec_pool().v6()
    }

    /// The configured subnets.
    pub closed spec fn spec_subnets(&self) -> Seq<Subnet> {
        self.subnets@
    }

    /// The server's own IPv4 address.
    pub closed spec fn spec_server_ipv4(&self) -> Ipv4 {
        self.server_ipv4
    }

    /// The offers currently out, by MAC address.
    pub closed spec fn spec_offers(&self) -> Seq<(MacAddress, Ipv4)> {
        self.offers@
    }

    /// The catalog changes queued for the embedding program, oldest first.
    pub closed spec fn spec_actions(&self) -> Seq<CatalogAction> {
        self.actions@
    }

    pub open spec fn wf(&self) -> bool {
        &&& self.spec_catalog().wf()
        &&& self.spec_pool().wf()
        &&& forall|i: int|
            0 <= i < self.spec_subnets().len() ==> ((#[trigger] self.spec_subnets()[i]).network_ipv4 matches Some(p) ==> p.wf())
        &&& forall|i: int|
            0 <= i < self.spec_subnets().len() ==> ((#[trigger] self.spec_subnets()[i]).network_ipv6 matches Some(p) ==> p.wf())
    }

    /// A responder with an empty catalog and pool.
    pub fn new(server_ipv4: Ipv4, server_ipv6: Option<Ipv6>) -> (r: DhcpServer)
        ensures
            r.wf(),
            r.spec_server_ipv4() == server_ipv4,
            r.spec_catalog().interfaces() == Seq::<crate::dhcp::Interface>::empty(),
            r.spec_catalog().leases() == Seq::<DhcpLease>::empty(),
            r.pool_v4() == Seq::<Ipv4Pool>::empty(),
            r.spec_subnets() == Seq::<Subnet>::empty(),
    {
        let r = DhcpServer {
            catalog: CatalogState::new(),
            ip_pool: IpPool::new(),
            subnets: Vec::new(),
            server_ipv4,
            server_ipv6,
            offers: Vec::new(),
            actions: Vec::new(),
        };
        proof {
            assert(r.spec_subnets() =~= Seq::<Subnet>::empty());
        }
        r
    }

    /// Registers a subnet: records its configuration and opens its pool
    /// buckets.
    pub fn add_subnet(&mut self, subnet: Subnet) -> (r: Result<(), DhcpError>)
        requires
            old(self).wf(),
            subnet.network_ipv4 matches Some(p) ==> p.wf(),
            subnet.network_ipv6 matches Some(p) ==> p.wf(),
        ensures
            final(self).wf(),
            r is Ok,
            final(self).spec_subnets() == old(self).spec_subnets().push(subnet),
            final(self).spec_catalog() == old(self).spec_catalog(),
            final(self).spec_server_ipv4() == old(self).spec_server_ipv4(),
            subnet.network_ipv4 matches Some(p) ==> final(self).pool_v4().len() == old(self).pool_v4().len() + 1 && final(self).pool_v4().last().prefix() == p && final(self).pool_v4().last().subnet() == spec_subnet_key(subnet.id) && final(self).pool_v4().last().allocated_set() == Set::<u32>::empty(),
            subnet.network_ipv4 is None ==> final(self).pool_v4() == old(self).pool_v4(),
    {
        let r = self.ip_pool.add_subnet(&subnet);
        self.subnets.push(subnet);
        proof {
            assert forall|i: int|
                0 <= i < self.spec_subnets().len() implies ((#[trigger] self.spec_subnets()[i]).network_ipv4 matches Some(p) ==> p.wf()) by {
                if i < old(self).spec_subnets().len() {
                    assert(self.spec_subnets()[i] == old(self).spec_subnets()[i]);
                }
            }
            assert forall|i: int|
                0 <= i < self.spec_subnets().len() implies ((#[trigger] self.spec_subnets()[i]).network_ipv6 matches Some(p) ==> p.wf()) by {
                if i < old(self).spec_subnets().len() {
                    assert(self.spec_subnets()[i] == old(self).spec_subnets()[i]);
                }
            }
        }
        r
    }

    /// Takes a known interface on record at startup: accepted exactly when
    /// it carries a usable identifier and neither its MAC address nor its
    /// identifier is on record yet.
    pub fn load_interface(&mut self, intf: crate::dhcp::Interface) -> (r: bool)
        requires
            old(self).wf(),
        ensures
            final(self).wf(),
            final(self).spec_subnets() == old(self).spec_subnets(),
            final(self).spec_pool() == old(self).spec_pool(),
            final(self).spec_server_ipv4() == old(self).spec_server_ipv4(),
            final(self).spec_offers() == old(self).spec_offers(),
            final(self).spec_actions() == old(self).spec_actions(),
            final(self).spec_catalog().leases() == old(self).spec_catalog().leases(),
            r ==> final(self).spec_catalog().interfaces().len() == old(self).spec_catalog().interfaces().len() + 1 && final(self).spec_catalog().interfaces().take(
                old(self).spec_catalog().interfaces().len() as int,
            ) == old(self).spec_catalog().interfaces() && final(self).spec_catalog().interfaces().last() == intf,
            !r ==> final(self).spec_catalog().interfaces() == old(self).spec_catalog().interfaces(),
            r == ((intf.id matches Some(v) && v < i32::MAX - 1) && (forall|i: int|
                0 <= i < old(self).spec_catalog().interfaces().len() ==> (#[trigger] old(self).spec_catalog().interfaces()[i]).mac_address@ != intf.mac_address@) && (forall|
                i: int,
            |
                0 <= i < old(self).spec_catalog().interfaces().len() ==> (#[trigger] old(self).spec_catalog().interfaces()[i]).id != intf.id)),
    {
        self.catalog.load_interface(intf)
    }

    /// Takes a lease on record at startup: the catalog gains it, and an
    /// active lease's address is marked used in the pool so it will not be
    /// offered again.
    pub fn load_lease(&mut self, lease: DhcpLease)
        requires
            old(self).wf(),
        ensures
            final(self).wf(),
            final(self).spec_subnets() == old(self).spec_subnets(),
            final(self).spec_server_ipv4() == old(self).spec_server_ipv4(),
            final(self).spec_offers() == old(self).spec_offers(),
            final(self).spec_actions() == old(self).spec_actions(),
            final(self).spec_catalog().interfaces() == old(self).spec_catalog().interfaces(),
            lease.is_active ==> final(self).spec_catalog().leases() == old(self).spec_catalog().leases().map_values(
                |l: DhcpLease| deactivated_on(l, lease.ip_address),
            ).push(
                DhcpLease {
                    id: None,
                    interface_id: lease.interface_id,
                    subnet_id: lease.subnet_id,
                    ip_address: lease.ip_address,
                    lease_start: lease.lease_start,
                    lease_end: lease.lease_end,
                    is_active: true,
                },
            ),
            !lease.is_active ==> final(self).spec_catalog().leases() == old(self).spec_catalog().leases().push(lease) && final(self).spec_pool() == old(self).spec_pool(),
            lease.is_active ==> match lease.ip_address {
                IpAddress::V4(v) => final(self).pool_v6() == old(self).pool_v6()
                    && v4_mark_used_effect(old(self).pool_v4(), final(self).pool_v4(), v.0)
                    && !spec_v4_available(final(self).pool_v4(), v.0),
                IpAddress::V6(v) => final(self).pool_v4() == old(self).pool_v4()
                    && v6_mark_used_effect(old(self).pool_v6(), final(self).pool_v6(), v.0),
            },
    {
        let active = lease.is_active;
        let ip = lease.ip_address;
        self.catalog.load_lease(lease);
        if active {
            self.ip_pool.mark_used(ip);
        }
    }

    /// Hands out the catalog changes queued since the last call, oldest
    /// first, clearing the queue.
    pub fn take_actions(&mut self) -> (r: Vec<CatalogAction>)
        ensures
            final(self).spec_catalog() == old(self).spec_catalog(),
            final(self).spec_pool() == old(self).spec_pool(),
            final(self).spec_subnets() == old(self).spec_subnets(),
            final(self).spec_server_ipv4() == old(self).spec_server_ipv4(),
            final(self).spec_offers() == old(self).spec_offers(),
            final(self).wf() == old(self).wf(),
            r@ == old(self).spec_actions(),
            final(self).spec_actions() == Seq::<CatalogAction>::empty(),
    {
        let mut out: Vec<CatalogAction> = Vec::new();
        core::mem::swap(&mut self.actions, &mut out);
        proof {
            assert(self.spec_actions() =~= Seq::<CatalogAction>::empty());
        }
        out
    }

    /// The catalog, for reading.
    pub fn catalog_state(&self) -> (r: &CatalogState)
        ensures
            *r == self.spec_catalog(),
    {
        &self.catalog
    }

    /// The pool, for reading.
    pub fn pool(&self) -> (r: &IpPool)
        ensures
            *r == self.spec_pool(),
    {
        &self.ip_pool
    }

    /// The position of the first subnet a pool bucket key names.
    #[verifier::loop_isolation(false)]
    fn find_subnet_index(&self, key: i32) -> (r: Option<usize>)
        ensures
            match r {
                Some(i) => i < self.spec_subnets().len() && spec_subnet_key(
                    self.spec_subnets()[i as int].id,
                ) == key && forall|j: int|
                    0 <= j < i ==> spec_subnet_key((#[trigger] self.spec_subnets()[j]).id) != key,
                None => forall|j: int|
                    0 <= j < self.spec_subnets().len() ==> spec_subnet_key(
                        (#[trigger] self.spec_subnets()[j]).id,
                    ) != key,
            },
    {
        let n = self.subnets.len();
        let mut i: usize = 0;
        while i < n
            invariant
                n == self.spec_subnets().len(),
                i <= n,
                forall|j: int|
                    0 <= j < i ==> spec_subnet_key((#[trigger] self.spec_subnets()[j]).id) != key,
            decreases n - i,
        {
            let k = match self.subnets[i].id {
                Some(v) => v,
                None => 0,
            };
            if k == key {
                return Some(i);
            }
            i += 1;
        }
        None
    }

    /// The pool bucket key for a newly seen interface: the first subnet
    /// whose IPv4 prefix holds the relay's `giaddr`, or the single
    /// configured subnet when the packet was not relayed and only one
    /// subnet exists.
    #[verifier::loop_isolation(false)]
    fn select_subnet(&self, giaddr: Ipv4) -> (r: Option<i32>)
        requires
            self.wf(),
        ensures
            giaddr.0 == 0 ==> r == (if self.spec_subnets().len() == 1 {
                Some(spec_subnet_key(self.spec_subnets()[0].id))
            } else {
                None
            }),
            giaddr.0 != 0 ==> match r {
                Some(k) => exists|i: int|
                    {
                        &&& 0 <= i < self.spec_subnets().len()
                        &&& (#[trigger] self.spec_subnets()[i]).network_ipv4 matches Some(p)
                            && p.spec_contains(giaddr.0)
                        &&& k == spec_subnet_key(self.spec_subnets()[i].id)
                        &&& forall|j: int|
                            0 <= j < i ==> !((#[trigger] self.spec_subnets()[j]).network_ipv4
                                matches Some(q) && q.spec_contains(giaddr.0))
                    },
                None => forall|i: int|
                    0 <= i < self.spec_subnets().len() ==> !((#[trigger] self.spec_subnets()[i]).network_ipv4 matches Some(p) && p.spec_contains(giaddr.0)),
            },
    {
        let n = self.subnets.len();
        if giaddr.0 != 0 {
            let mut i: usize = 0;
            while i < n
                invariant
                    i <= n,
                    forall|j: int|
                        0 <= j < i ==> !((#[trigger] self.spec_subnets()[j]).network_ipv4
                            matches Some(q) && q.spec_contains(giaddr.0)),
                decreases n - i,
            {
                match &self.subnets[i].network_ipv4 {
                    Some(p) => {
                        proof {
                            assert(self.spec_subnets()[i as int].network_ipv4 == Some(*p));
                        }
                        if p.contains(giaddr.0) {
                            let k = match self.subnets[i].id {
                                Some(v) => v,
                                None => 0,
                            };
                            return Some(k);
                        }
                    },
                    None => {},
                }
                i += 1;
            }
            None
        } else if n == 1 {
            let k = match self.subnets[0].id {
                Some(v) => v,
                None => 0,
            };
            Some(k)
        } else {
            None
        }
    }

    /// Builds a BOOTREPLY for a client: the transaction and hardware
    /// address echoed, the assigned address and server address when one is
    /// handed out, the server identifier, the subnet's mask, gateway, DNS
    /// and lease-time options when a subnet is known, and the message type.
    fn build_reply(
        &self,
        packet: &DhcpPacket,
        t: DhcpMessageType,
        addr: Option<Ipv4>,
        sidx: Option<usize>,
    ) -> (r: DhcpPacket)
        requires
            self.wf(),
            sidx matches Some(i) ==> i < self.spec_subnets().len(),
        ensures
            r@.op == 2,
            r@.xid == packet@.xid,
            r@.chaddr == packet@.chaddr,
            r@.yiaddr == (match addr {
                Some(a) => a.0,
                None => 0,
            }),
            r@.siaddr == (match addr {
                Some(_) => self.spec_server_ipv4().0,
                None => 0,
            }),
            spec_get_message_type(r@.options) == Some(t),
            contains_code(r@.options, 54) && value_of_code(r@.options, 54)
                == OptionModel::ServerIdentifier(self.spec_server_ipv4().0),
            sidx matches Some(i) ==> subnet_options_ok(r@.options, self.spec_subnets()[i as int]),
    {
        let mut reply = DhcpPacket::new();
        reply.op = 2;
        reply.xid = packet.xid;
        reply.chaddr = MacAddress::new(*packet.chaddr.bytes());
        match addr {
            Some(a) => {
                reply.yiaddr = a;
                reply.siaddr = self.server_ipv4;
            },
            None => {},
        }
        let ghost o0 = reply@.options;
        reply.options.insert(54, DhcpOption::ServerIdentifier(self.server_ipv4));
        proof {
            lemma_spec_insert_found(o0, 54, OptionModel::ServerIdentifier(self.server_ipv4.0));
        }
        match sidx {
            Some(i) => {
                proof {
                    assert((#[trigger] self.spec_subnets()[i as int]).network_ipv4 matches Some(
                        p,
                    ) ==> p.wf());
                }
                match &self.subnets[i].gateway_ipv4 {
                    Some(gw) => {
                        let mut routers: Vec<Ipv4> = Vec::new();
                        routers.push(*gw);
                        let ghost o = reply@.options;
                        let ghost v = OptionModel::Router(routers@.map_values(|a: Ipv4| a.0));
                        reply.options.insert(3, DhcpOption::Router(routers));
                        proof {
                            assert(routers@.map_values(|a: Ipv4| a.0) =~= seq![gw.0]);
                            lemma_spec_insert_found(o, 3, v);
                            lemma_spec_insert_other(o, 3, v, 54);
                        }
                    },
                    None => {},
                }
                match &self.subnets[i].network_ipv4 {
                    Some(p) => {
                        proof {
                            assert(self.spec_subnets()[i as int].network_ipv4 == Some(*p));
                        }
                        let mask = p.netmask();
                        let ghost o = reply@.options;
                        let ghost v = OptionModel::SubnetMask(mask);
                        reply.options.insert(1, DhcpOption::SubnetMask(Ipv4(mask)));
                        proof {
                            lemma_spec_insert_found(o, 1, v);
                            lemma_spec_insert_other(o, 1, v, 54);
                            lemma_spec_insert_other(o, 1, v, 3);
                        }
                    },
                    None => {},
                }
                let dns = self.dns_v4_of(i);
                if dns.len() > 0 {
                    let ghost o = reply@.options;
                    let ghost v = OptionModel::DnsServers(dns@.map_values(|a: Ipv4| a.0));
                    reply.options.insert(6, DhcpOption::DnsServers(dns));
                    proof {
                        lemma_spec_insert_found(o, 6, v);
                        lemma_spec_insert_other(o, 6, v, 54);
                        lemma_spec_insert_other(o, 6, v, 3);
                        lemma_spec_insert_other(o, 6, v, 1);
                    }
                }
                let lt = self.subnets[i].lease_time;
                let ghost o = reply@.options;
                let ghost v = OptionModel::LeaseTime(lt);
                reply.options.insert(51, DhcpOption::LeaseTime(lt));
                proof {
                    lemma_spec_insert_found(o, 51, v);
                    lemma_spec_insert_other(o, 51, v, 54);
                    lemma_spec_insert_other(o, 51, v, 3);
                    lemma_spec_insert_other(o, 51, v, 1);
                    lemma_spec_insert_other(o, 51, v, 6);
                }
            },
            None => {},
        }
        let ghost before = reply@.options;
        reply.set_message_type(t);
        proof {
            lemma_spec_insert_found(before, 53, OptionModel::MessageType(t));
            lemma_spec_insert_other(before, 53, OptionModel::MessageType(t), 54);
            lemma_spec_insert_other(before, 53, OptionModel::MessageType(t), 3);
            lemma_spec_insert_other(before, 53, OptionModel::MessageType(t), 1);
            lemma_spec_insert_other(before, 53, OptionModel::MessageType(t), 6);
            lemma_spec_insert_other(before, 53, OptionModel::MessageType(t), 51);
        }
        reply
    }

    /// The IPv4 addresses among a subnet's DNS servers.
    #[verifier::loop_isolation(false)]
    fn dns_v4_of(&self, i: usize) -> (r: Vec<Ipv4>)
        requires
            i < self.spec_subnets().len(),
        ensures
            r@.map_values(|a: Ipv4| a.0) == dns_v4(self.spec_subnets()[i as int].dns_servers@),
    {
        let servers = &self.subnets[i].dns_servers;
        let n = servers.len();
        let mut out: Vec<Ipv4> = Vec::new();
        let mut j: usize = 0;
        proof {
            assert(out@.map_values(|a: Ipv4| a.0) =~= dns_v4(servers@.take(0)));
        }
        while j < n
            invariant
                n == servers@.len(),
                j <= n,
                out@.map_values(|a: Ipv4| a.0) == dns_v4(servers@.take(j as int)),
            decreases n - j,
        {
            proof {
                lemma_dns_v4_snoc(servers@, j as int);
            }
            match servers[j] {
                IpAddress::V4(a) => {
                    out.push(a);
                    proof {
                        assert(out@.map_values(|a: Ipv4| a.0) =~= dns_v4(
                            servers@.take(j + 1),
                        ));
                    }
                },
                IpAddress::V6(_) => {
                    proof {
                        assert(out@.map_values(|a: Ipv4| a.0) =~= dns_v4(
                            servers@.take(j + 1),
                        ));
                    }
                },
            }
            j += 1;
        }
        proof {
            assert(servers@.take(n as int) =~= servers@);
        }
        out
    }

    /// Finds the interface a packet's hardware address names, creating one
    /// on first sighting; rack provenance carried in option 82 is stored
    /// either way.
    pub fn find_or_create_interface(&mut self, packet: &DhcpPacket) -> (r: Result<
        usize,
        DhcpError,
    >)
        requires
            old(self).wf(),
        ensures
            final(self).wf(),
            final(self).spec_pool() == old(self).spec_pool(),
            final(self).spec_subnets() == old(self).spec_subnets(),
            final(self).spec_server_ipv4() == old(self).spec_server_ipv4(),
            final(self).spec_offers() == old(self).spec_offers(),
            final(self).spec_catalog().leases() == old(self).spec_catalog().leases(),
            match r {
                Ok(i) => {
                    &&& i < final(self).spec_catalog().interfaces().len()
                    &&& final(self).spec_catalog().interfaces()[i as int].mac_address@
                        == packet@.chaddr
                    &&& final(self).spec_catalog().interfaces()[i as int].id matches Some(_)
                    &&& forall|j: int|
                        0 <= j < old(self).spec_catalog().interfaces().len() && (#[trigger] old(self).spec_catalog().interfaces()[j]).mac_address@ == packet@.chaddr ==> j == i
                            && final(self).spec_catalog().interfaces()[i as int].ipv4_address
                            == old(self).spec_catalog().interfaces()[j].ipv4_address && final(self).spec_catalog().interfaces()[i as int].id == old(self).spec_catalog().interfaces()[j].id && final(self).spec_catalog().interfaces()[i as int].subnet_id == old(self).spec_catalog().interfaces()[j].subnet_id
                    &&& (forall|j: int|
                        0 <= j < old(self).spec_catalog().interfaces().len() ==> (#[trigger] old(self).spec_catalog().interfaces()[j]).mac_address@ != packet@.chaddr) ==> final(self).spec_catalog().interfaces().len() == old(self).spec_catalog().interfaces().len() + 1 && i == old(self).spec_catalog().interfaces().len() && final(self).spec_catalog().interfaces()[i as int].ipv4_address is None
                    &&& old(self).spec_actions().len() <= final(self).spec_actions().len() <= old(self).spec_actions().len() + 1
                    &&& final(self).spec_actions().take(old(self).spec_actions().len() as int)
                        == old(self).spec_actions()
                    &&& (final(self).spec_actions().len() == old(self).spec_actions().len() + 1
                        ==> catalog_action_for(
                        final(self).spec_actions().last(),
                        final(self).spec_catalog().interfaces()[i as int],
                        packet@.chaddr,
                    ))
                },
                Err(_) => final(self).spec_catalog() == old(self).spec_catalog() && old(self).spec_catalog().next_id() == i32::MAX && final(self).spec_actions() == old(self).spec_actions(),
            },
    {
        let rack = match self.options_rack_info(packet) {
            Some(pair) => Some(pair),
            None => None,
        };
        match self.catalog.find_interface_by_mac(&packet.chaddr) {
            Some(i) => {
                match rack {
                    Some((rack_id, port_id)) => {
                        let id = match self.catalog.interface_at(i).id {
                            Some(v) => v,
                            None => {
                                proof {
                                    assert(false);
                                }
                                0
                            },
                        };
                        self.actions.push(
                            CatalogAction::UpdateInterfaceRack {
                                id,
                                rack_identifier: clone_string(&rack_id),
                                rack_port: clone_string(&port_id),
                            },
                        );
                        self.catalog.update_interface_rack(i, rack_id, port_id);
                    },
                    None => {},
                }
                proof {
                    assert forall|j: int|
                        0 <= j < old(self).spec_catalog().interfaces().len() && (#[trigger] old(self).spec_catalog().interfaces()[j]).mac_address@ == packet@.chaddr implies j
                        == i as int by {
                        if j != i as int {
                            assert(old(self).spec_catalog().interfaces()[j].mac_address@ != old(self).spec_catalog().interfaces()[i as int].mac_address@);
                        }
                    }
                }
                Ok(i)
            },
            None => {
                if !self.catalog.can_create() {
                    return Err(
                        DhcpError::DatabaseError(
                            String::from_str("interface identifiers exhausted"),
                        ),
                    );
                }
                let device_id: i32 = 1;
                let subnet_id = self.select_subnet(packet.giaddr);
                let (rack_id, port_id) = match rack {
                    Some((a, b)) => (Some(a), Some(b)),
                    None => (None, None),
                };
                let action_rack = match &rack_id {
                    Some(a) => Some(clone_string(a)),
                    None => None,
                };
                let action_port = match &port_id {
                    Some(b) => Some(clone_string(b)),
                    None => None,
                };
                let ghost pre = self.spec_catalog().interfaces();
                let mac = MacAddress::new(*packet.chaddr.bytes());
                let id = self.catalog.create_interface(
                    device_id,
                    mac,
                    false,
                    rack_id,
                    port_id,
                    subnet_id,
                );
                let i = self.catalog.interface_count() - 1;
                self.actions.push(
                    CatalogAction::CreateInterface {
                        id,
                        device_id,
                        mac: MacAddress::new(*packet.chaddr.bytes()),
                        is_bmc: false,
                        rack_identifier: action_rack,
                        rack_port: action_port,
                        subnet_id,
                    },
                );
                proof {
                    assert(self.spec_catalog().interfaces()[i as int]
                        == self.spec_catalog().interfaces().last());
                    assert forall|j: int|
                        0 <= j < pre.len() implies self.spec_catalog().interfaces()[j] == pre[j]
                    by {
                        assert(self.spec_catalog().interfaces().take(pre.len() as int)[j] == self
                            .spec_catalog().interfaces()[j]);
                    }
                }
                Ok(i)
            },
        }
    }

    /// The rack identifier and port carried in the packet's option 82, when
    /// both are readable.
    fn options_rack_info(&self, packet: &DhcpPacket) -> (r: Option<(String, String)>) {
        match packet.options.get(82) {
            Some(DhcpOption::Option82(o)) => {
                let data = crate::dhcp::packet::Option82Data {
                    circuit_id: match &o.circuit_id {
                        Some(c) => Some(clone_bytes_vec(c)),
                        None => None,
                    },
                    remote_id: match &o.remote_id {
                        Some(c) => Some(clone_bytes_vec(c)),
                        None => None,
                    },
                };
                Option82Parser::parse_rack_info(&data)
            },
            _ => None,
        }
    }
}

impl DhcpServer {
    /// Notes that an OFFER for `ip` is out to `mac`, superseding any
    /// earlier offer to the same MAC address.
    #[verifier::loop_isolation(false)]
    fn record_offer(&mut self, mac: &MacAddress, ip: Ipv4)
        ensures
            final(self).spec_catalog() == old(self).spec_catalog(),
            final(self).spec_pool() == old(self).spec_pool(),
            final(self).spec_subnets() == old(self).spec_subnets(),
            final(self).spec_server_ipv4() == old(self).spec_server_ipv4(),
            final(self).wf() == old(self).wf(),
            final(self).spec_actions() == old(self).spec_actions(),
            spec_offered(final(self).spec_offers(), mac@, ip.0),
    {
        let n = self.offers.len();
        let mut i: usize = 0;
        while i < n
            invariant
                self == old(self),
                n == self.spec_offers().len(),
                i <= n,
            decreases n - i,
        {
            if self.offers[i].0.same_as(mac) {
                self.offers.set(i, (MacAddress::new(*mac.bytes()), ip));
                proof {
                    assert(self.spec_offers()[i as int].0@ == mac@);
                    assert(self.spec_offers()[i as int].1.0 == ip.0);
                }
                return ;
            }
            i += 1;
        }
        self.offers.push((MacAddress::new(*mac.bytes()), ip));
        proof {
            let k = self.spec_offers().len() - 1;
            assert(self.spec_offers()[k].0@ == mac@);
            assert(self.spec_offers()[k].1.0 == ip.0);
        }
    }

    /// Whether an OFFER for `ip` is out to `mac`.
    #[verifier::loop_isolation(false)]
    fn find_offer(&self, mac: &MacAddress, ip: Ipv4) -> (r: bool)
        ensures
            r == spec_offered(self.spec_offers(), mac@, ip.0),
    {
        let n = self.offers.len();
        let mut i: usize = 0;
        while i < n
            invariant
                n == self.spec_offers().len(),
                i <= n,
                forall|j: int|
                    0 <= j < i ==> !((#[trigger] self.spec_offers()[j]).0@ == mac@
                        && self.spec_offers()[j].1.0 == ip.0),
            decreases n - i,
        {
            if self.offers[i].0.same_as(mac) && self.offers[i].1.0 == ip.0 {
                proof {
                    assert(self.spec_offers()[i as int].0@ == mac@);
                }
                return true;
            }
            i += 1;
        }
        false
    }

    /// Withdraws any offer out to `mac`, once the exchange it started is
    /// settled.
    #[verifier::loop_isolation(false)]
    fn clear_offer(&mut self, mac: &MacAddress)
        ensures
            final(self).spec_catalog() == old(self).spec_catalog(),
            final(self).spec_pool() == old(self).spec_pool(),
            final(self).spec_subnets() == old(self).spec_subnets(),
            final(self).spec_server_ipv4() == old(self).spec_server_ipv4(),
            final(self).wf() == old(self).wf(),
            final(self).spec_actions() == old(self).spec_actions(),
    {
        let mut kept: Vec<(MacAddress, Ipv4)> = Vec::new();
        loop
            invariant
                self.catalog == old(self).catalog,
                self.ip_pool == old(self).ip_pool,
                self.subnets == old(self).subnets,
                self.server_ipv4 == old(self).server_ipv4,
                self.server_ipv6 == old(self).server_ipv6,
                self.actions == old(self).actions,
            decreases self.offers@.len(),
        {
            match self.offers.pop() {
                Some(entry) => {
                    if !entry.0.same_as(mac) {
                        kept.push(entry);
                    }
                },
                None => {
                    break ;
                },
            }
        }
        core::mem::swap(&mut self.offers, &mut kept);
    }

    /// Chooses the address to offer: the interface's recorded address when
    /// the pool still counts it usable and free, otherwise a fresh
    /// allocation from the interface's subnet. Whatever is chosen is held
    /// in the pool at once.
    fn offer_address(&mut self, existing: Option<Ipv4>, subnet_key: Option<i32>) -> (r: Option<
        Ipv4,
    >)
        requires
            old(self).wf(),
        ensures
            final(self).wf(),
            final(self).spec_catalog() == old(self).spec_catalog(),
            final(self).spec_subnets() == old(self).spec_subnets(),
            final(self).spec_server_ipv4() == old(self).spec_server_ipv4(),
            final(self).spec_offers() == old(self).spec_offers(),
            final(self).spec_actions() == old(self).spec_actions(),
            final(self).pool_v6() == old(self).pool_v6(),
            existing matches Some(rec) ==> (spec_v4_available(old(self).pool_v4(), rec.0)
                && crate::dhcp::pool::spec_v4_usable(old(self).pool_v4(), rec.0) ==> r == Some(
                rec,
            )),
            (match existing {
                Some(rec) => !(spec_v4_available(old(self).pool_v4(), rec.0)
                    && crate::dhcp::pool::spec_v4_usable(old(self).pool_v4(), rec.0)),
                None => true,
            }) ==> match r {
                Some(ip) => scoped_allocation(
                    old(self).pool_v4(),
                    final(self).pool_v4(),
                    subnet_key,
                    ip.0,
                ),
                None => crate::dhcp::pool::v4_equiv(old(self).pool_v4(), final(self).pool_v4())
                    && (subnet_key matches Some(id) ==> match crate::dhcp::pool::first_v4_with(
                    old(self).pool_v4(),
                    id,
                ) {
                    Some(k) => crate::dhcp::pool::v4_exhausted(old(self).pool_v4()[k]),
                    None => true,
                }) && (subnet_key is None ==> forall|j: int|
                    0 <= j < old(self).pool_v4().len() ==> crate::dhcp::pool::v4_exhausted(
                        #[trigger] old(self).pool_v4()[j],
                    )),
            },
            match r {
                Some(ip) => exists|k: int|
                    {
                        &&& 0 <= k < old(self).pool_v4().len()
                        &&& (#[trigger] old(self).pool_v4()[k]).usable(ip.0)
                        &&& !old(self).pool_v4()[k].allocated_set().contains(ip.0)
                        &&& v4_updated(old(self).pool_v4(), final(self).pool_v4(), k, ip.0)
                    },
                None => crate::dhcp::pool::v4_equiv(old(self).pool_v4(), final(self).pool_v4()),
            },
    {
        let ghost s = old(self).pool_v4();
        match existing {
            Some(ip) => {
                let available = self.ip_pool.is_available(IpAddress::V4(ip));
                let usable = self.ip_pool.usable_v4(ip);
                if available && usable {
                    self.ip_pool.mark_used(IpAddress::V4(ip));
                    proof {
                        let ka = choose|k: int|
                            {
                                &&& 0 <= k < s.len()
                                &&& (#[trigger] s[k]).prefix().spec_contains(ip.0)
                                &&& forall|j: int|
                                    0 <= j < k ==> !(#[trigger] s[j]).prefix().spec_contains(ip.0)
                                &&& !s[k].allocated_set().contains(ip.0)
                            };
                        let ku = choose|k: int|
                            {
                                &&& 0 <= k < s.len()
                                &&& (#[trigger] s[k]).prefix().spec_contains(ip.0)
                                &&& forall|j: int|
                                    0 <= j < k ==> !(#[trigger] s[j]).prefix().spec_contains(ip.0)
                                &&& s[k].usable(ip.0)
                            };
                        assert(exists|k: int|
                            0 <= k < s.len() && (#[trigger] s[k]).prefix().spec_contains(ip.0));
                        let km = choose|k: int|
                            {
                                &&& 0 <= k < s.len()
                                &&& (#[trigger] s[k]).prefix().spec_contains(ip.0)
                                &&& forall|j: int|
                                    0 <= j < k ==> !(#[trigger] s[j]).prefix().spec_contains(ip.0)
                                &&& v4_updated(s, self.pool_v4(), k, ip.0)
                            };
                        assert(ka == km);
                        assert(ku == km);
                        assert(0 <= km < s.len() && s[km].usable(ip.0) && !s[
                            km
                        ].allocated_set().contains(ip.0) && v4_updated(
                            s,
                            self.pool_v4(),
                            km,
                            ip.0,
                        ));
                    }
                    return Some(ip);
                }
            },
            None => {},
        }
        let r = self.ip_pool.allocate_ipv4(subnet_key);
        proof {
            match r {
                Some(ip) => {
                    match subnet_key {
                        Some(id) => {
                            crate::dhcp::pool::lemma_first_v4_with(s, id);
                            match crate::dhcp::pool::first_v4_with(s, id) {
                                Some(k) => {
                                    assert(0 <= k < s.len() && s[k].usable(ip.0) && !s[
                                        k
                                    ].allocated_set().contains(ip.0) && v4_updated(
                                        s,
                                        self.pool_v4(),
                                        k,
                                        ip.0,
                                    ));
                                },
                                None => {
                                    assert(false);
                                },
                            }
                        },
                        None => {
                            let k = choose|k: int|
                                {
                                    &&& 0 <= k < s.len()
                                    &&& (#[trigger] s[k]).usable(ip.0)
                                    &&& !s[k].allocated_set().contains(ip.0)
                                    &&& v4_updated(s, self.pool_v4(), k, ip.0)
                                    &&& forall|j: int|
                                        0 <= j < k ==> crate::dhcp::pool::v4_exhausted(
                                            #[trigger] s[j],
                                        )
                                };
                            assert(0 <= k < s.len() && s[k].usable(ip.0) && !s[
                                k
                            ].allocated_set().contains(ip.0) && v4_updated(
                                s,
                                self.pool_v4(),
                                k,
                                ip.0,
                            ));
                        },
                    }
                },
                None => {},
            }
        }
        r
    }
    /// Answers a DISCOVER with an OFFER: the client's interface is found or
    /// created; the offer reuses the interface's recorded address when the
    /// pool still counts it usable and free, and otherwise allocates fresh
    /// from the interface's subnet; the chosen address is held in the pool
    /// at once -- so no later DISCOVER can be offered the same address --
    /// and the OFFER carries the server identifier and the subnet's mask,
    /// gateway, DNS and lease-time options. After the call the catalog
    /// holds exactly one interface with the client's MAC address.
    pub fn handle_discover(&mut self, packet: &DhcpPacket) -> (r: Result<
        Option<DhcpPacket>,
        DhcpError,
    >)
        requires
            old(self).wf(),
        ensures
            final(self).wf(),
            final(self).spec_subnets() == old(self).spec_subnets(),
            final(self).spec_server_ipv4() == old(self).spec_server_ipv4(),
            final(self).pool_v6() == old(self).pool_v6(),
            match r {
                Ok(Some(reply)) => discover_reply_ok(*old(self), *final(self), packet@, reply@),
                Ok(None) => false,
                Err(_) => discover_err_ok(*old(self), *final(self), packet@),
            },
    {
        let idx = match self.find_or_create_interface(packet) {
            Ok(i) => i,
            Err(e) => {
                return Err(e);
            },
        };
        let intf_ipv4 = self.catalog.interface_at(idx).ipv4_address;
        let intf_subnet = self.catalog.interface_at(idx).subnet_id;
        let ghost pre_pool = self.pool_v4();
        let offered = match self.offer_address(intf_ipv4, intf_subnet) {
            Some(ip) => ip,
            None => {
                proof {
                    assert(self.spec_catalog().interfaces()[idx as int].mac_address@
                        == packet@.chaddr);
                    assert(self.spec_catalog().interfaces()[idx as int].subnet_id
                        == intf_subnet);
                    assert(pre_pool == old(self).pool_v4());
                }
                return Err(
                    DhcpError::NetworkError(String::from_str("No available IP addresses")),
                );
            },
        };
        proof {
            assert(pre_pool == old(self).pool_v4());
            let k = choose|k: int|
                0 <= k < pre_pool.len() && (#[trigger] pre_pool[k]).usable(offered.0)
                    && !pre_pool[k].allocated_set().contains(offered.0) && v4_updated(
                    pre_pool,
                    self.pool_v4(),
                    k,
                    offered.0,
                );
            assert(0 <= k < old(self).pool_v4().len() && old(self).pool_v4()[k].usable(
                offered.0,
            ) && !old(self).pool_v4()[k].allocated_set().contains(offered.0) && v4_updated(
                old(self).pool_v4(),
                self.pool_v4(),
                k,
                offered.0,
            ));
        }
        let ghost post_offer = *self;
        let offeree = MacAddress::new(*packet.chaddr.bytes());
        self.record_offer(&offeree, offered);
        let sidx = match intf_subnet {
            Some(k) => self.find_subnet_index(k),
            None => None,
        };
        let reply = self.build_reply(packet, DhcpMessageType::Offer, Some(offered), sidx);
        proof {
            assert(self.spec_catalog().interfaces()[idx as int].mac_address@ == packet@.chaddr);
            assert(self.spec_catalog().interfaces()[idx as int].ipv4_address == intf_ipv4);
            assert(self.spec_catalog().interfaces()[idx as int].subnet_id == intf_subnet);
            assert(self.pool_v4() == post_offer.pool_v4());
            assert(subnet_options_for(reply@.options, old(self).spec_subnets(), intf_subnet))
                by {
                match intf_subnet {
                    Some(key) => {
                        match sidx {
                            Some(si) => {
                                assert(spec_subnet_key(
                                    old(self).spec_subnets()[si as int].id,
                                ) == key);
                                assert(subnet_options_ok(
                                    reply@.options,
                                    old(self).spec_subnets()[si as int],
                                ));
                            },
                            None => {},
                        }
                    },
                    None => {},
                }
            }
        }
        Ok(Some(reply))
    }
    /// Answers a REQUEST with an ACK when the address is acceptable -- the
    /// pool still has it free, or the client's interface already holds it
    /// -- and a NAK otherwise. On acceptance the address is held in the
    /// pool, an active lease is written -- leaving the address exactly one
    /// active lease -- and the interface's address is updated. A REQUEST
    /// naming no address is dropped.
    #[verifier::rlimit(100)]
    #[verifier::spinoff_prover]
    pub fn handle_request(&mut self, packet: &DhcpPacket, now: u64) -> (r: Result<
        Option<DhcpPacket>,
        DhcpError,
    >)
        requires
            old(self).wf(),
            now <= u64::MAX - 0xFFFF_FFFFu64,
        ensures
            final(self).wf(),
            final(self).spec_subnets() == old(self).spec_subnets(),
            final(self).spec_server_ipv4() == old(self).spec_server_ipv4(),
            final(self).pool_v6() == old(self).pool_v6(),
            match r {
                Ok(Some(reply)) => request_reply_ok(
                    *old(self),
                    *final(self),
                    packet@,
                    reply@,
                    now,
                ),
                Ok(None) => spec_requested_ip(packet@) is None,
                Err(_) => old(self).spec_catalog().next_id() == i32::MAX,
            },
    {
        let requested: Ipv4 = {
            let mut req: Option<Ipv4> = None;
            match packet.options.get(50) {
                Some(DhcpOption::RequestedIpAddress(ip)) => {
                    req = Some(*ip);
                },
                _ => {},
            }
            match req {
                Some(ip) => ip,
                None => {
                    if packet.ciaddr.0 != 0 {
                        packet.ciaddr
                    } else {
                        return Ok(None);
                    }
                },
            }
        };
        proof {
            assert(spec_requested_ip(packet@) == Some(requested.0));
        }
        let idx = match self.find_or_create_interface(packet) {
            Ok(i) => i,
            Err(e) => {
                return Err(e);
            },
        };
        let ghost after_foc_actions = self.spec_actions();
        let intf_ipv4 = self.catalog.interface_at(idx).ipv4_address;
        let own = match intf_ipv4 {
            Some(ip) => ip.0 == requested.0,
            None => false,
        };
        let offeree = MacAddress::new(*packet.chaddr.bytes());
        let offered_here = self.find_offer(&offeree, requested);
        let avail = self.ip_pool.is_available(IpAddress::V4(requested));
        proof {
            if own {
                if forall|j: int|
                    0 <= j < old(self).spec_catalog().interfaces().len() ==> (#[trigger] old(self).spec_catalog().interfaces()[j]).mac_address@ != packet@.chaddr {
                    assert(self.spec_catalog().interfaces()[idx as int].ipv4_address is None);
                    assert(false);
                }
                let j = choose|j: int|
                    0 <= j < old(self).spec_catalog().interfaces().len() && (#[trigger] old(self).spec_catalog().interfaces()[j]).mac_address@ == packet@.chaddr;
                assert(old(self).spec_catalog().interfaces()[j].ipv4_address == Some(requested));
                assert(spec_owned(
                    old(self).spec_catalog().interfaces(),
                    packet@.chaddr,
                    requested.0,
                ));
            } else {
                if spec_owned(
                    old(self).spec_catalog().interfaces(),
                    packet@.chaddr,
                    requested.0,
                ) {
                    let j = choose|j: int|
                        0 <= j < old(self).spec_catalog().interfaces().len() && (#[trigger] old(self).spec_catalog().interfaces()[j]).mac_address@ == packet@.chaddr && old(self).spec_catalog().interfaces()[j].ipv4_address == Some(Ipv4(requested.0));
                    assert(self.spec_catalog().interfaces()[idx as int].ipv4_address == Some(
                        Ipv4(requested.0),
                    ));
                    assert(false);
                }
            }
        }
        if !avail && !own && !offered_here {
            let nak = self.build_reply(packet, DhcpMessageType::Nak, None, None);
            return Ok(Some(nak));
        }
        self.ip_pool.mark_used(IpAddress::V4(requested));
        self.clear_offer(&offeree);
        let intf_id = match self.catalog.interface_at(idx).id {
            Some(v) => v,
            None => {
                proof {
                    assert(false);
                }
                0
            },
        };
        let intf_subnet = self.catalog.interface_at(idx).subnet_id;
        let skey: i32 = match intf_subnet {
            Some(k) => k,
            None => 0,
        };
        let sidx = match intf_subnet {
            Some(k) => self.find_subnet_index(k),
            None => None,
        };
        let lease_time: u32 = match sidx {
            Some(i) => self.subnets[i].lease_time,
            None => 3600,
        };
        let lease_end = now + lease_time as u64;
        self.catalog.create_lease(intf_id, skey, IpAddress::V4(requested), now, lease_end);
        self.actions.push(
            CatalogAction::CreateLease {
                interface_id: intf_id,
                subnet_id: skey,
                ip: IpAddress::V4(requested),
                start: now,
                end: lease_end,
            },
        );
        self.catalog.update_interface_ip(idx, Some(requested), None);
        self.actions.push(
            CatalogAction::UpdateInterfaceIp { id: intf_id, ipv4: Some(requested), ipv6: None },
        );
        let ack = self.build_reply(packet, DhcpMessageType::Ack, Some(requested), sidx);
        proof {
            let leases = self.spec_catalog().leases();
            assert(leases[leases.len() - 1].is_active && leases[leases.len() - 1].ip_address
                == IpAddress::V4(Ipv4(requested.0)));
            assert(self.spec_catalog().interfaces()[idx as int].ipv4_address == Some(
                Ipv4(requested.0),
            ));
            assert(self.spec_catalog().interfaces()[idx as int].mac_address@ == packet@.chaddr);
            assert(self.spec_catalog().interfaces()[idx as int].subnet_id == intf_subnet);
            assert(subnet_options_for(ack@.options, old(self).spec_subnets(), intf_subnet)) by {
                match intf_subnet {
                    Some(key) => {
                        match sidx {
                            Some(si) => {
                                assert(spec_subnet_key(
                                    old(self).spec_subnets()[si as int].id,
                                ) == key);
                                assert(subnet_options_ok(
                                    ack@.options,
                                    old(self).spec_subnets()[si as int],
                                ));
                            },
                            None => {},
                        }
                    },
                    None => {},
                }
            }
            let m = old(self).spec_actions().len() as int;
            let n = self.spec_actions().len() as int;
            assert(after_foc_actions.take(m) == old(self).spec_actions());
            assert(n == after_foc_actions.len() + 2);
            assert(self.spec_actions().take(m) =~= old(self).spec_actions());
            assert(self.spec_catalog().interfaces()[idx as int].id == Some(intf_id));
            assert(self.spec_actions()[n - 2] matches CatalogAction::CreateLease {
                interface_id,
                ip,
                start,
                ..
            } && Some(interface_id) == self.spec_catalog().interfaces()[idx as int].id && ip
                == IpAddress::V4(Ipv4(requested.0)) && start == now);
            assert(self.spec_actions()[n - 1] matches CatalogAction::UpdateInterfaceIp {
                id,
                ipv4,
                ipv6,
            } && Some(id) == self.spec_catalog().interfaces()[idx as int].id && ipv4 == Some(
                Ipv4(requested.0),
            ) && ipv6 is None);
        }
        Ok(Some(ack))
    }

    /// Honors a RELEASE, idempotently: when the client's interface is known
    /// and holds an address, the matching lease goes inactive, the
    /// interface's address is cleared, and the address returns to the pool.
    /// No reply is sent.
    pub fn handle_release(&mut self, packet: &DhcpPacket) -> (r: Result<(), DhcpError>)
        requires
            old(self).wf(),
        ensures
            final(self).wf(),
            final(self).spec_subnets() == old(self).spec_subnets(),
            final(self).spec_server_ipv4() == old(self).spec_server_ipv4(),
            final(self).pool_v6() == old(self).pool_v6(),
            r is Ok,
            release_ok(*old(self), *final(self), packet@),
    {
        match self.catalog.find_interface_by_mac(&packet.chaddr) {
            Some(i) => {
                let intf_ipv4 = self.catalog.interface_at(i).ipv4_address;
                match intf_ipv4 {
                    Some(ip) => {
                        let intf_id = match self.catalog.interface_at(i).id {
                            Some(v) => v,
                            None => {
                                proof {
                                    assert(false);
                                }
                                0
                            },
                        };
                        self.catalog.deactivate_lease(intf_id, IpAddress::V4(ip));
                        self.actions.push(
                            CatalogAction::DeactivateLease {
                                interface_id: intf_id,
                                ip: IpAddress::V4(ip),
                            },
                        );
                        self.catalog.update_interface_ip(i, None, None);
                        self.actions.push(
                            CatalogAction::UpdateInterfaceIp {
                                id: intf_id,
                                ipv4: None,
                                ipv6: None,
                            },
                        );
                        self.ip_pool.release_ip(IpAddress::V4(ip));
                        proof {
                            assert forall|j: int|
                                (0 <= j < old(self).spec_catalog().interfaces().len() && (
                                #[trigger] old(self).spec_catalog().interfaces()[j]).mac_address@
                                    == packet@.chaddr && old(self).spec_catalog().interfaces()[j].ipv4_address is Some) implies j == i as int by {
                                if j != i as int {
                                    assert(old(self).spec_catalog().interfaces()[j].mac_address@
                                        != old(self).spec_catalog().interfaces()[i as int].mac_address@);
                                }
                            }
                        }
                        Ok(())
                    },
                    None => Ok(()),
                }
            },
            None => Ok(()),
        }
    }

    /// Honors a DECLINE: the address the client reports unusable, named in
    /// option 50, is held in the pool for the rest of this server's life.
    /// No reply is sent.
    pub fn handle_decline(&mut self, packet: &DhcpPacket) -> (r: Result<(), DhcpError>)
        requires
            old(self).wf(),
        ensures
            final(self).wf(),
            final(self).spec_subnets() == old(self).spec_subnets(),
            final(self).spec_server_ipv4() == old(self).spec_server_ipv4(),
            r is Ok,
            decline_ok(*old(self), *final(self), packet@),
    {
        match packet.options.get(50) {
            Some(DhcpOption::RequestedIpAddress(ip)) => {
                self.ip_pool.mark_used(IpAddress::V4(*ip));
                Ok(())
            },
            _ => Ok(()),
        }
    }

    /// Handles one inbound datagram's packet: dispatches on the message
    /// type -- a packet without one is rejected -- and decides the reply's
    /// destination: the relay when `giaddr` is set, else unicast to
    /// `ciaddr` when the client has an address, else broadcast. DISCOVER
    /// and REQUEST may reply; RELEASE, DECLINE and every other message
    /// type never do.
    pub fn handle_packet(&mut self, packet: &DhcpPacket, now: u64) -> (r: Result<
        Option<DhcpReply>,
        DhcpError,
    >)
        requires
            old(self).wf(),
            now <= u64::MAX - 0xFFFF_FFFFu64,
        ensures
            final(self).wf(),
            final(self).spec_subnets() == old(self).spec_subnets(),
            final(self).spec_server_ipv4() == old(self).spec_server_ipv4(),
            match r {
                Ok(Some(reply)) => reply.destination.0 == (if packet@.giaddr != 0 {
                    packet@.giaddr
                } else if packet@.ciaddr != 0 {
                    packet@.ciaddr
                } else {
                    0xFFFF_FFFFu32
                }),
                _ => true,
            },
            match spec_get_message_type(packet@.options) {
                None => r is Err && final(self).spec_catalog() == old(self).spec_catalog()
                    && final(self).spec_pool() == old(self).spec_pool() && final(self).spec_actions() == old(self).spec_actions() && final(self).spec_offers() == old(self).spec_offers(),
                Some(t) => {
                    &&& (t == DhcpMessageType::Discover ==> match r {
                        Ok(Some(reply)) => discover_reply_ok(
                            *old(self),
                            *final(self),
                            packet@,
                            reply.packet@,
                        ),
                        Ok(None) => false,
                        Err(_) => discover_err_ok(*old(self), *final(self), packet@),
                    })
                    &&& (t == DhcpMessageType::Request ==> match r {
                        Ok(Some(reply)) => request_reply_ok(
                            *old(self),
                            *final(self),
                            packet@,
                            reply.packet@,
                            now,
                        ),
                        Ok(None) => spec_requested_ip(packet@) is None,
                        Err(_) => old(self).spec_catalog().next_id() == i32::MAX,
                    })
                    &&& (t == DhcpMessageType::Release ==> (r matches Ok(None)) && release_ok(
                        *old(self),
                        *final(self),
                        packet@,
                    ))
                    &&& (t == DhcpMessageType::Decline ==> (r matches Ok(None)) && decline_ok(
                        *old(self),
                        *final(self),
                        packet@,
                    ))
                    &&& (t != DhcpMessageType::Discover && t != DhcpMessageType::Request && t
                        != DhcpMessageType::Release && t != DhcpMessageType::Decline ==> (r matches
                        Ok(None)) && final(self).spec_catalog() == old(self).spec_catalog()
                        && final(self).spec_pool() == old(self).spec_pool() && final(self).spec_actions() == old(self).spec_actions() && final(self).spec_offers()
                        == old(self).spec_offers())
                },
            },
    {
        let t = match packet.get_message_type() {
            Some(t) => t,
            None => {
                return Err(
                    DhcpError::ParseError(
                        String::from_str("No message type in DHCP packet"),
                    ),
                );
            },
        };
        let reply = match t {
            DhcpMessageType::Discover => {
                match self.handle_discover(packet) {
                    Ok(p) => p,
                    Err(e) => {
                        return Err(e);
                    },
                }
            },
            DhcpMessageType::Request => {
                match self.handle_request(packet, now) {
                    Ok(p) => p,
                    Err(e) => {
                        return Err(e);
                    },
                }
            },
            DhcpMessageType::Release => {
                match self.handle_release(packet) {
                    Ok(_) => None,
                    Err(e) => {
                        return Err(e);
                    },
                }
            },
            DhcpMessageType::Decline => {
                match self.handle_decline(packet) {
                    Ok(_) => None,
                    Err(e) => {
                        return Err(e);
                    },
                }
            },
            _ => None,
        };
        match reply {
            Some(p) => {
                let destination = if packet.giaddr.0 != 0 {
                    packet.giaddr
                } else if packet.ciaddr.0 != 0 {
                    packet.ciaddr
                } else {
                    Ipv4(0xFFFF_FFFFu32)
                };
                Ok(Some(DhcpReply { packet: p, destination }))
            },
            None => Ok(None),
        }
    }
}

/// Copies a string.
fn clone_string(s: &String) -> (r: String)
    ensures
        r@ == s@,
{
    String::from_str(s.as_str())
}

/// Copies a byte vector.
fn clone_bytes_vec(v: &Vec<u8>) -> (r: Vec<u8>)
    ensures
        r@ == v@,
{
    let mut r: Vec<u8> = Vec::new();
    crate::wire::append_bytes(&mut r, v.as_slice());
    proof {
        assert(r@ =~= v@);
    }
    r
}

} // verus!
