use rack_director::dhcp::packet::{DhcpMessageType, DhcpOption, DhcpPacket};
use rack_director::dhcp::server::DhcpServer;
use rack_director::dhcp::{DhcpLease, Interface, Subnet};
use rack_director::mac::MacAddress;
use rack_director::net::{IpAddress, Ipv4, Ipv4Prefix};

const NOW: u64 = 1_700_000_000;

fn test_subnet() -> Subnet {
    Subnet {
        id: Some(1),
        name: "rack".to_string(),
        network_ipv4: Some(Ipv4Prefix {
            addr: u32::from_be_bytes([192, 168, 1, 0]),
            len: 24,
        }),
        network_ipv6: None,
        gateway_ipv4: Some(Ipv4(u32::from_be_bytes([192, 168, 1, 1]))),
        gateway_ipv6: None,
        dns_servers: vec![IpAddress::V4(Ipv4(u32::from_be_bytes([8, 8, 8, 8])))],
        lease_time: 3600,
    }
}

fn test_server() -> DhcpServer {
    let mut server = DhcpServer::new(Ipv4(u32::from_be_bytes([192, 168, 1, 1])), None);
    server.add_subnet(test_subnet()).unwrap();
    server
}

fn discover(mac: &str, xid: u32) -> DhcpPacket {
    let mut p = DhcpPacket::new();
    p.op = 1;
    p.xid = xid;
    p.chaddr = MacAddress::from_string(mac).unwrap();
    p.set_message_type(DhcpMessageType::Discover);
    p
}

fn request(mac: &str, xid: u32, requested: Ipv4) -> DhcpPacket {
    let mut p = DhcpPacket::new();
    p.op = 1;
    p.xid = xid;
    p.chaddr = MacAddress::from_string(mac).unwrap();
    p.set_message_type(DhcpMessageType::Request);
    p.options
        .insert(50, DhcpOption::RequestedIpAddress(requested));
    p
}

fn interfaces_with_mac(server: &DhcpServer, mac: &str) -> usize {
    let catalog = server.catalog_state();
    let mut count = 0;
    for i in 0..catalog.interface_count() {
        if catalog.interface_at(i).mac_address.to_string() == mac {
            count += 1;
        }
    }
    count
}

fn active_leases_with_ip(server: &DhcpServer, ip: Ipv4) -> usize {
    let catalog = server.catalog_state();
    let mut count = 0;
    for i in 0..catalog.lease_count() {
        let lease = catalog.lease_at(i);
        if lease.is_active && lease.ip_address == IpAddress::V4(ip) {
            count += 1;
        }
    }
    count
}

#[test]
fn test_dhcp_server_creation() {
    let db_less = DhcpServer::new(Ipv4(u32::from_be_bytes([192, 168, 1, 1])), None);

    // Should not panic - just test creation
    let _ = db_less;
    assert!(true);
}

#[test]
fn test_dhcp_new_client_happy_path() {
    let mac = "aa:bb:cc:dd:ee:01";
    let mut server = test_server();

    let reply = server
        .handle_packet(&discover(mac, 0x1111), NOW)
        .unwrap()
        .expect("DISCOVER should be answered");
    assert_eq!(
        reply.packet.get_message_type(),
        Some(DhcpMessageType::Offer)
    );
    assert_eq!(reply.packet.op, 2);
    assert_eq!(reply.packet.xid, 0x1111);
    // Broadcast: the client has no address yet.
    assert_eq!(reply.destination, Ipv4(0xFFFF_FFFF));
    let offered = reply.packet.yiaddr;
    let lo = u32::from_be_bytes([192, 168, 1, 2]);
    let hi = u32::from_be_bytes([192, 168, 1, 254]);
    assert!(offered.0 >= lo && offered.0 <= hi);

    // Subnet-derived options are attached.
    assert!(matches!(
        reply.packet.options.get(1),
        Some(DhcpOption::SubnetMask(m)) if *m == Ipv4(0xFFFF_FF00)
    ));
    assert!(matches!(
        reply.packet.options.get(3),
        Some(DhcpOption::Router(l)) if l == &vec![Ipv4(u32::from_be_bytes([192, 168, 1, 1]))]
    ));
    assert!(matches!(
        reply.packet.options.get(6),
        Some(DhcpOption::DnsServers(l)) if l == &vec![Ipv4(u32::from_be_bytes([8, 8, 8, 8]))]
    ));
    assert!(matches!(
        reply.packet.options.get(51),
        Some(DhcpOption::LeaseTime(3600))
    ));
    assert!(matches!(
        reply.packet.options.get(54),
        Some(DhcpOption::ServerIdentifier(s)) if *s == Ipv4(u32::from_be_bytes([192, 168, 1, 1]))
    ));

    let ack = server
        .handle_packet(&request(mac, 0x1112, offered), NOW)
        .unwrap()
        .expect("REQUEST should be answered");
    assert_eq!(ack.packet.get_message_type(), Some(DhcpMessageType::Ack));
    assert_eq!(ack.packet.yiaddr, offered);

    // The catalog now holds exactly one interface for the MAC and exactly
    // one active lease for the address.
    assert_eq!(interfaces_with_mac(&server, mac), 1);
    assert_eq!(active_leases_with_ip(&server, offered), 1);
}

#[test]
fn test_dhcp_conflict_never_offers_same_address_twice() {
    let mut server = test_server();

    let offer_a = server
        .handle_packet(&discover("aa:bb:cc:dd:ee:0a", 0xA), NOW)
        .unwrap()
        .unwrap();
    // Before A acknowledges, B asks.
    let offer_b = server
        .handle_packet(&discover("aa:bb:cc:dd:ee:0b", 0xB), NOW)
        .unwrap()
        .unwrap();
    assert_ne!(offer_a.packet.yiaddr, offer_b.packet.yiaddr);
}

#[test]
fn test_dhcp_request_unavailable_address_gets_nak() {
    let mut server = test_server();
    // An address outside every configured prefix is never acceptable.
    let outside = Ipv4(u32::from_be_bytes([10, 9, 9, 9]));
    let reply = server
        .handle_packet(&request("aa:bb:cc:dd:ee:02", 0x2222, outside), NOW)
        .unwrap()
        .expect("REQUEST should be answered");
    assert_eq!(reply.packet.get_message_type(), Some(DhcpMessageType::Nak));
    assert_eq!(active_leases_with_ip(&server, outside), 0);
}

#[test]
fn test_dhcp_request_own_address_is_acked_again() {
    let mac = "aa:bb:cc:dd:ee:03";
    let mut server = test_server();
    let offered = server
        .handle_packet(&discover(mac, 1), NOW)
        .unwrap()
        .unwrap()
        .packet
        .yiaddr;
    server
        .handle_packet(&request(mac, 2, offered), NOW)
        .unwrap()
        .unwrap();
    // The same client renews the same address: the pool holds it, but the
    // interface owns it, so the server acknowledges again.
    let renewal = server
        .handle_packet(&request(mac, 3, offered), NOW + 100)
        .unwrap()
        .unwrap();
    assert_eq!(
        renewal.packet.get_message_type(),
        Some(DhcpMessageType::Ack)
    );
    assert_eq!(active_leases_with_ip(&server, offered), 1);
}

#[test]
fn test_dhcp_release_frees_address() {
    let mac = "aa:bb:cc:dd:ee:04";
    let mut server = test_server();
    let offered = server
        .handle_packet(&discover(mac, 1), NOW)
        .unwrap()
        .unwrap()
        .packet
        .yiaddr;
    server
        .handle_packet(&request(mac, 2, offered), NOW)
        .unwrap()
        .unwrap();
    assert!(!server.pool().is_available(IpAddress::V4(offered)));

    let mut release = DhcpPacket::new();
    release.op = 1;
    release.xid = 3;
    release.chaddr = MacAddress::from_string(mac).unwrap();
    release.set_message_type(DhcpMessageType::Release);
    let reply = server.handle_packet(&release, NOW + 10).unwrap();
    assert!(reply.is_none());
    assert!(server.pool().is_available(IpAddress::V4(offered)));
    assert_eq!(active_leases_with_ip(&server, offered), 0);
}

#[test]
fn test_dhcp_decline_blocks_address() {
    let mut server = test_server();
    let declined = Ipv4(u32::from_be_bytes([192, 168, 1, 42]));
    assert!(server.pool().is_available(IpAddress::V4(declined)));

    let mut decline = DhcpPacket::new();
    decline.op = 1;
    decline.xid = 4;
    decline.chaddr = MacAddress::from_string("aa:bb:cc:dd:ee:05").unwrap();
    decline.set_message_type(DhcpMessageType::Decline);
    decline
        .options
        .insert(50, DhcpOption::RequestedIpAddress(declined));
    let reply = server.handle_packet(&decline, NOW).unwrap();
    assert!(reply.is_none());
    assert!(!server.pool().is_available(IpAddress::V4(declined)));
}

#[test]
fn test_dhcp_packet_without_message_type_rejected() {
    let mut server = test_server();
    let mut p = DhcpPacket::new();
    p.op = 1;
    assert!(server.handle_packet(&p, NOW).is_err());
}

#[test]
fn test_dhcp_inform_is_ignored() {
    let mut server = test_server();
    let mut p = DhcpPacket::new();
    p.op = 1;
    p.chaddr = MacAddress::from_string("aa:bb:cc:dd:ee:06").unwrap();
    p.set_message_type(DhcpMessageType::Inform);
    let reply = server.handle_packet(&p, NOW).unwrap();
    assert!(reply.is_none());
}

#[test]
fn test_dhcp_unicast_destination_when_client_has_address() {
    let mac = "aa:bb:cc:dd:ee:07";
    let mut server = test_server();
    let offered = server
        .handle_packet(&discover(mac, 1), NOW)
        .unwrap()
        .unwrap()
        .packet
        .yiaddr;
    let mut renew = request(mac, 2, offered);
    renew.ciaddr = offered;
    let reply = server.handle_packet(&renew, NOW).unwrap().unwrap();
    assert_eq!(reply.destination, offered);
}

#[test]
fn test_dhcp_discover_fails_when_pool_is_spent() {
    let mut server = DhcpServer::new(Ipv4(u32::from_be_bytes([10, 0, 0, 1])), None);
    server
        .add_subnet(Subnet {
            id: Some(1),
            name: "tiny".to_string(),
            network_ipv4: Some(Ipv4Prefix {
                addr: u32::from_be_bytes([10, 0, 0, 0]),
                len: 30,
            }),
            network_ipv6: None,
            gateway_ipv4: None,
            gateway_ipv6: None,
            dns_servers: Vec::new(),
            lease_time: 60,
        })
        .unwrap();
    // Two usable addresses, then the pool is spent.
    server
        .handle_packet(&discover("aa:bb:cc:dd:ee:10", 1), NOW)
        .unwrap()
        .unwrap();
    server
        .handle_packet(&discover("aa:bb:cc:dd:ee:11", 2), NOW)
        .unwrap()
        .unwrap();
    assert!(server
        .handle_packet(&discover("aa:bb:cc:dd:ee:12", 3), NOW)
        .is_err());
}

#[test]
fn test_dhcp_offeree_can_request_reserved_address() {
    let mac = "aa:bb:cc:dd:ee:13";
    let mut server = test_server();
    let offered = server
        .handle_packet(&discover(mac, 1), NOW)
        .unwrap()
        .unwrap()
        .packet
        .yiaddr;
    // The offer reserved the address in the pool, yet the offeree's own
    // REQUEST is still acknowledged.
    assert!(!server.pool().is_available(IpAddress::V4(offered)));
    let ack = server
        .handle_packet(&request(mac, 2, offered), NOW)
        .unwrap()
        .unwrap();
    assert_eq!(ack.packet.get_message_type(), Some(DhcpMessageType::Ack));
}

#[test]
fn test_dhcp_relayed_reply_goes_to_giaddr() {
    let mut server = test_server();
    let relay = Ipv4(u32::from_be_bytes([192, 168, 1, 9]));
    let mut p = discover("aa:bb:cc:dd:ee:14", 5);
    p.giaddr = relay;
    let reply = server.handle_packet(&p, NOW).unwrap().unwrap();
    assert_eq!(reply.destination, relay);
}

#[test]
fn test_dhcp_seeded_lease_blocks_address() {
    let mut server = test_server();
    let held = Ipv4(u32::from_be_bytes([192, 168, 1, 60]));
    server.load_lease(DhcpLease {
        id: Some(7),
        interface_id: 3,
        subnet_id: 1,
        ip_address: IpAddress::V4(held),
        lease_start: NOW,
        lease_end: NOW + 3600,
        is_active: true,
    });
    assert!(!server.pool().is_available(IpAddress::V4(held)));

    // An inactive lease does not hold its address.
    let idle = Ipv4(u32::from_be_bytes([192, 168, 1, 61]));
    server.load_lease(DhcpLease {
        id: Some(8),
        interface_id: 3,
        subnet_id: 1,
        ip_address: IpAddress::V4(idle),
        lease_start: NOW,
        lease_end: NOW + 3600,
        is_active: false,
    });
    assert!(server.pool().is_available(IpAddress::V4(idle)));
}

#[test]
fn test_dhcp_seeded_interface_address_is_reused() {
    let mac = "aa:bb:cc:dd:ee:20";
    let mut server = test_server();
    let recorded = Ipv4(u32::from_be_bytes([192, 168, 1, 50]));
    let accepted = server.load_interface(Interface {
        id: Some(9),
        device_id: 1,
        mac_address: MacAddress::from_string(mac).unwrap(),
        ipv4_address: Some(recorded),
        ipv6_address: None,
        is_bmc: false,
        rack_identifier: None,
        rack_port: None,
        subnet_id: Some(1),
    });
    assert!(accepted);

    // The recorded address is still free, so the OFFER reuses it.
    let offer = server
        .handle_packet(&discover(mac, 9), NOW)
        .unwrap()
        .unwrap();
    assert_eq!(offer.packet.yiaddr, recorded);

    // A second interface with the same MAC address is refused.
    let duplicate = server.load_interface(Interface {
        id: Some(10),
        device_id: 1,
        mac_address: MacAddress::from_string(mac).unwrap(),
        ipv4_address: None,
        ipv6_address: None,
        is_bmc: false,
        rack_identifier: None,
        rack_port: None,
        subnet_id: Some(1),
    });
    assert!(!duplicate);
}

#[test]
fn test_dhcp_seeded_interface_with_held_address_gets_fresh_offer() {
    let mac = "aa:bb:cc:dd:ee:21";
    let mut server = test_server();
    let recorded = Ipv4(u32::from_be_bytes([192, 168, 1, 51]));
    // Another client already holds the recorded address.
    server.load_lease(DhcpLease {
        id: Some(11),
        interface_id: 12,
        subnet_id: 1,
        ip_address: IpAddress::V4(recorded),
        lease_start: NOW,
        lease_end: NOW + 3600,
        is_active: true,
    });
    assert!(server.load_interface(Interface {
        id: Some(13),
        device_id: 1,
        mac_address: MacAddress::from_string(mac).unwrap(),
        ipv4_address: Some(recorded),
        ipv6_address: None,
        is_bmc: false,
        rack_identifier: None,
        rack_port: None,
        subnet_id: Some(1),
    }));
    let offer = server
        .handle_packet(&discover(mac, 10), NOW)
        .unwrap()
        .unwrap();
    assert_ne!(offer.packet.yiaddr, recorded);
}
