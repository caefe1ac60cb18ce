//! The DHCP responder: wire codec, relay-agent information, the IP address
//! pool, and the catalog-backed message handlers.

use vstd::prelude::*;
use crate::mac::MacAddress;
use crate::net::{IpAddress, Ipv4, Ipv4Prefix, Ipv6, Ipv6Prefix};

pub mod option82;
pub mod packet;
pub mod pool;
pub mod server;

verus! {

/// A network interface of a device, keyed by its MAC address.
#[derive(Debug, Clone)]
pub struct Interface {
    pub id: Option<i32>,
    pub device_id: i32,
    pub mac_address: MacAddress,
    pub ipv4_address: Option<Ipv4>,
    pub ipv6_address: Option<Ipv6>,
    pub is_bmc: bool,
    pub rack_identifier: Option<String>,
    pub rack_port: Option<String>,
    pub subnet_id: Option<i32>,
}

/// An immutable subnet configuration record.
#[derive(Debug, Clone)]
pub struct Subnet {
    pub id: Option<i32>,
    pub name: String,
    pub network_ipv4: Option<Ipv4Prefix>,
    pub network_ipv6: Option<Ipv6Prefix>,
    pub gateway_ipv4: Option<Ipv4>,
    pub gateway_ipv6: Option<Ipv6>,
    pub dns_servers: Vec<IpAddress>,
    pub lease_time: u32,
}

/// An address lease, with times in whole seconds of the Unix epoch.
#[derive(Debug, Clone)]
pub struct DhcpLease {
    pub id: Option<i32>,
    pub interface_id: i32,
    pub subnet_id: i32,
    pub ip_address: IpAddress,
    pub lease_start: u64,
    pub lease_end: u64,
    pub is_active: bool,
}

/// What went wrong while serving DHCP.
#[derive(Debug)]
pub enum DhcpError {
    ParseError(String),
    DatabaseError(String),
    NetworkError(String),
    ConfigError(String),
}

} // verus!
