use ipnet::{Ipv4Net, Ipv6Net};
use rack_director::dhcp::pool::{IpPool, Ipv4Pool, Ipv6Pool};
use rack_director::dhcp::Subnet;
use rack_director::net::{IpAddress, Ipv4, Ipv4Prefix, Ipv6Prefix};

fn v4_prefix(s: &str) -> Ipv4Prefix {
    let net: Ipv4Net = s.parse().unwrap();
    Ipv4Prefix {
        addr: u32::from(net.network()),
        len: net.prefix_len(),
    }
}

fn v6_prefix(s: &str) -> Ipv6Prefix {
    let net: Ipv6Net = s.parse().unwrap();
    Ipv6Prefix {
        addr: u128::from(net.network()),
        len: net.prefix_len(),
    }
}

#[test]
fn test_ipv4_pool_allocation() {
    let network = v4_prefix("192.168.1.0/24");
    let mut pool = Ipv4Pool::new(network, 1);

    let ip1 = pool.allocate();
    assert!(ip1.is_some());

    let ip2 = pool.allocate();
    assert!(ip2.is_some());
    assert_ne!(ip1, ip2);

    // Release and reallocate
    pool.release(ip1.unwrap());
    let ip3 = pool.allocate();
    assert!(ip3.is_some());
}

#[test]
fn test_ipv6_pool_allocation() {
    let network = v6_prefix("2001:db8::/64");
    let mut pool = Ipv6Pool::new(network, 1);

    let ip1 = pool.allocate();
    assert!(ip1.is_some());

    let ip2 = pool.allocate();
    assert!(ip2.is_some());
    assert_ne!(ip1, ip2);

    // Check that allocated IPs are in the correct subnet
    assert!(network.contains(ip1.unwrap().0));
    assert!(network.contains(ip2.unwrap().0));
}

#[test]
fn test_ip_pool_management() {
    let mut pool = IpPool::new();

    let subnet = Subnet {
        id: Some(1),
        name: "test".to_string(),
        network_ipv4: Some(v4_prefix("192.168.1.0/24")),
        network_ipv6: Some(v6_prefix("2001:db8::/64")),
        gateway_ipv4: None,
        gateway_ipv6: None,
        dns_servers: Vec::new(),
        lease_time: 3600,
    };

    pool.add_subnet(&subnet).unwrap();

    let ipv4 = pool.allocate_ipv4(Some(1));
    assert!(ipv4.is_some());

    let ipv6 = pool.allocate_ipv6(Some(1));
    assert!(ipv6.is_some());

    // Test release
    pool.release_ip(IpAddress::V4(ipv4.unwrap()));
    assert!(pool.is_available(IpAddress::V4(ipv4.unwrap())));
}

#[test]
fn test_ip_pool_allocation() {
    let mut pool = IpPool::new();

    let subnet = Subnet {
        id: Some(1),
        name: "test".to_string(),
        network_ipv4: Some(v4_prefix("192.168.1.0/24")),
        network_ipv6: None,
        gateway_ipv4: Some(Ipv4(u32::from_be_bytes([192, 168, 1, 1]))),
        gateway_ipv6: None,
        dns_servers: Vec::new(),
        lease_time: 3600,
    };

    pool.add_subnet(&subnet).unwrap();

    let ip1 = pool.allocate_ipv4(Some(1));
    assert!(ip1.is_some());

    let ip2 = pool.allocate_ipv4(Some(1));
    assert!(ip2.is_some());
    assert_ne!(ip1, ip2);
}

#[test]
fn test_ipv4_pool_skips_network_and_broadcast() {
    let network = v4_prefix("10.0.0.0/24");
    let mut pool = Ipv4Pool::new(network, 1);
    for _ in 0..254 {
        match pool.allocate() {
            Some(ip) => {
                assert_ne!(ip.0, u32::from_be_bytes([10, 0, 0, 0]));
                assert_ne!(ip.0, u32::from_be_bytes([10, 0, 0, 255]));
            }
            None => break,
        }
    }
}

#[test]
fn test_ipv4_pool_exhaustion_and_reuse() {
    // A /30 has exactly two usable addresses.
    let network = v4_prefix("10.0.0.0/30");
    let mut pool = Ipv4Pool::new(network, 1);
    let a = pool.allocate().unwrap();
    let b = pool.allocate().unwrap();
    assert_ne!(a, b);
    assert!(pool.allocate().is_none());
    pool.release(a);
    let c = pool.allocate().unwrap();
    assert_eq!(c, a);
    assert!(pool.allocate().is_none());
}

#[test]
fn test_ipv4_pool_tiny_prefixes_have_no_room() {
    let mut p31 = Ipv4Pool::new(v4_prefix("10.0.0.0/31"), 1);
    assert!(p31.allocate().is_none());
    let mut p32 = Ipv4Pool::new(v4_prefix("10.0.0.1/32"), 1);
    assert!(p32.allocate().is_none());
}

#[test]
fn test_mark_used_blocks_allocation() {
    let mut pool = IpPool::new();
    let subnet = Subnet {
        id: Some(1),
        name: "small".to_string(),
        network_ipv4: Some(v4_prefix("10.0.0.0/30")),
        network_ipv6: None,
        gateway_ipv4: None,
        gateway_ipv6: None,
        dns_servers: Vec::new(),
        lease_time: 60,
    };
    pool.add_subnet(&subnet).unwrap();
    let one = Ipv4(u32::from_be_bytes([10, 0, 0, 1]));
    pool.mark_used(IpAddress::V4(one));
    assert!(!pool.is_available(IpAddress::V4(one)));
    let other = pool.allocate_ipv4(Some(1)).unwrap();
    assert_ne!(other, one);
    assert!(pool.allocate_ipv4(Some(1)).is_none());
}
