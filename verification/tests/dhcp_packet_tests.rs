use rack_director::dhcp::packet::{DhcpMessageType, DhcpOption, DhcpPacket, Option82Data};
use rack_director::mac::MacAddress;
use rack_director::net::Ipv4;

#[test]
fn test_mac_address_from_string() {
    let mac = MacAddress::from_string("00:11:22:33:44:55").unwrap();
    assert_eq!(mac.bytes(), &[0x00, 0x11, 0x22, 0x33, 0x44, 0x55]);
    assert_eq!(mac.to_string(), "00:11:22:33:44:55");
}

#[test]
fn test_packet_creation() {
    let mut packet = DhcpPacket::new();
    packet.set_message_type(DhcpMessageType::Discover);

    assert_eq!(packet.get_message_type(), Some(DhcpMessageType::Discover));
}

#[test]
fn test_packet_serialization() {
    let mut packet = DhcpPacket::new();
    packet.op = 1;
    packet.xid = 0x12345678;
    packet.set_message_type(DhcpMessageType::Discover);

    let serialized = packet.serialize();
    assert!(serialized.len() > 240);

    let parsed = DhcpPacket::parse(&serialized).unwrap();
    assert_eq!(parsed.op, 1);
    assert_eq!(parsed.xid, 0x12345678);
    assert_eq!(parsed.get_message_type(), Some(DhcpMessageType::Discover));
}

#[test]
fn test_dhcp_packet_parsing() {
    let mut packet = DhcpPacket::new();
    packet.op = 1; // BOOTREQUEST
    packet.xid = 0x12345678;
    packet.chaddr = MacAddress::from_string("00:11:22:33:44:55").unwrap();

    let serialized = packet.serialize();
    let parsed = DhcpPacket::parse(&serialized).unwrap();

    assert_eq!(parsed.op, 1);
    assert_eq!(parsed.xid, 0x12345678);
    assert_eq!(parsed.chaddr.to_string(), "00:11:22:33:44:55");
}

#[test]
fn test_dhcp_options_round_trip() {
    let mut packet = DhcpPacket::new();
    packet.op = 2;
    packet.xid = 0xDEADBEEF;
    packet.yiaddr = Ipv4(0xC0A80142);
    packet.set_message_type(DhcpMessageType::Offer);
    packet.options.insert(1, DhcpOption::SubnetMask(Ipv4(0xFFFFFF00)));
    packet
        .options
        .insert(3, DhcpOption::Router(vec![Ipv4(0xC0A80101)]));
    packet.options.insert(
        6,
        DhcpOption::DnsServers(vec![Ipv4(0x08080808), Ipv4(0x08080404)]),
    );
    packet
        .options
        .insert(15, DhcpOption::DomainName("rack.example".to_string()));
    packet.options.insert(51, DhcpOption::LeaseTime(3600));
    packet
        .options
        .insert(54, DhcpOption::ServerIdentifier(Ipv4(0xC0A80101)));
    packet
        .options
        .insert(61, DhcpOption::ClientIdentifier(vec![1, 0, 17, 34, 51, 68, 85]));
    packet.options.insert(
        82,
        DhcpOption::Option82(Option82Data {
            circuit_id: Some(b"rack-01:port-24".to_vec()),
            remote_id: Some(b"switch-01".to_vec()),
        }),
    );
    packet.options.insert(99, DhcpOption::Other(99, vec![9, 9]));

    let bytes = packet.serialize();
    let parsed = DhcpPacket::parse(&bytes).unwrap();

    assert_eq!(parsed.op, 2);
    assert_eq!(parsed.xid, 0xDEADBEEF);
    assert_eq!(parsed.yiaddr, Ipv4(0xC0A80142));
    assert_eq!(parsed.get_message_type(), Some(DhcpMessageType::Offer));
    match parsed.options.get(1) {
        Some(DhcpOption::SubnetMask(a)) => assert_eq!(*a, Ipv4(0xFFFFFF00)),
        other => panic!("bad subnet mask option {other:?}"),
    }
    match parsed.options.get(3) {
        Some(DhcpOption::Router(l)) => assert_eq!(l, &vec![Ipv4(0xC0A80101)]),
        other => panic!("bad router option {other:?}"),
    }
    match parsed.options.get(6) {
        Some(DhcpOption::DnsServers(l)) => {
            assert_eq!(l, &vec![Ipv4(0x08080808), Ipv4(0x08080404)])
        }
        other => panic!("bad dns option {other:?}"),
    }
    match parsed.options.get(15) {
        Some(DhcpOption::DomainName(s)) => assert_eq!(s, "rack.example"),
        other => panic!("bad domain option {other:?}"),
    }
    match parsed.options.get(51) {
        Some(DhcpOption::LeaseTime(t)) => assert_eq!(*t, 3600),
        other => panic!("bad lease option {other:?}"),
    }
    match parsed.options.get(61) {
        Some(DhcpOption::ClientIdentifier(d)) => {
            assert_eq!(d, &vec![1, 0, 17, 34, 51, 68, 85])
        }
        other => panic!("bad client id option {other:?}"),
    }
    match parsed.options.get(82) {
        Some(DhcpOption::Option82(o)) => {
            assert_eq!(o.circuit_id.as_deref(), Some(&b"rack-01:port-24"[..]));
            assert_eq!(o.remote_id.as_deref(), Some(&b"switch-01"[..]));
        }
        other => panic!("bad relay option {other:?}"),
    }
    match parsed.options.get(99) {
        Some(DhcpOption::Other(c, d)) => {
            assert_eq!(*c, 99);
            assert_eq!(d, &vec![9, 9]);
        }
        other => panic!("bad unknown option {other:?}"),
    }

    // The reserialized buffer parses to the same packet again.
    let bytes2 = parsed.serialize();
    let reparsed = DhcpPacket::parse(&bytes2).unwrap();
    assert_eq!(reparsed.xid, parsed.xid);
    assert_eq!(
        reparsed.get_message_type(),
        Some(DhcpMessageType::Offer)
    );
}

#[test]
fn test_dhcp_short_packet_rejected() {
    let bytes = [0u8; 100];
    assert!(DhcpPacket::parse(&bytes).is_err());
}

#[test]
fn test_dhcp_broken_cookie_keeps_header_drops_options() {
    let mut packet = DhcpPacket::new();
    packet.op = 1;
    packet.xid = 7;
    packet.set_message_type(DhcpMessageType::Discover);
    let mut bytes = packet.serialize();
    bytes[236] = 0; // break the magic cookie
    let parsed = DhcpPacket::parse(&bytes).unwrap();
    assert_eq!(parsed.op, 1);
    assert_eq!(parsed.xid, 7);
    assert_eq!(parsed.get_message_type(), None);
    assert_eq!(parsed.options.len(), 0);
}

#[test]
fn test_dhcp_overrunning_option_rejected() {
    let packet = DhcpPacket::new();
    let mut bytes = packet.serialize();
    // Replace the end marker with an option whose length overruns.
    let n = bytes.len();
    bytes[n - 1] = 51;
    bytes.push(200);
    assert!(DhcpPacket::parse(&bytes).is_err());
}

#[test]
fn test_message_type_codes() {
    assert_eq!(DhcpMessageType::from_code(1), Some(DhcpMessageType::Discover));
    assert_eq!(DhcpMessageType::from_code(2), Some(DhcpMessageType::Offer));
    assert_eq!(DhcpMessageType::from_code(3), Some(DhcpMessageType::Request));
    assert_eq!(DhcpMessageType::from_code(4), Some(DhcpMessageType::Decline));
    assert_eq!(DhcpMessageType::from_code(5), Some(DhcpMessageType::Ack));
    assert_eq!(DhcpMessageType::from_code(6), Some(DhcpMessageType::Nak));
    assert_eq!(DhcpMessageType::from_code(7), Some(DhcpMessageType::Release));
    assert_eq!(DhcpMessageType::from_code(8), Some(DhcpMessageType::Inform));
    assert_eq!(DhcpMessageType::from_code(9), None);
    assert_eq!(DhcpMessageType::from_code(0), None);
    assert_eq!(DhcpMessageType::Discover.code(), 1);
    assert_eq!(DhcpMessageType::Inform.code(), 8);
}

#[test]
fn test_dhcp_malformed_option_lengths_rejected() {
    let base = DhcpPacket::new().serialize();
    // Option 53 must be exactly one byte long.
    let mut bytes = base.clone();
    let n = bytes.len();
    bytes[n - 1] = 53;
    bytes.extend_from_slice(&[2, 1, 1, 255]);
    assert!(DhcpPacket::parse(&bytes).is_err());
    // Options 1, 50 and 54 must be exactly four bytes long.
    for code in [1u8, 50, 54] {
        let mut bytes = base.clone();
        let n = bytes.len();
        bytes[n - 1] = code;
        bytes.extend_from_slice(&[3, 9, 9, 9, 255]);
        assert!(DhcpPacket::parse(&bytes).is_err());
    }
    // Option 51 with an odd length is kept verbatim instead.
    let mut bytes = base.clone();
    let n = bytes.len();
    bytes[n - 1] = 51;
    bytes.extend_from_slice(&[2, 1, 1, 255]);
    let parsed = DhcpPacket::parse(&bytes).unwrap();
    assert!(matches!(
        parsed.options.get(51),
        Some(DhcpOption::Other(51, d)) if d == &vec![1, 1]
    ));
}
