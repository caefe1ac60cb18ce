//! Network boot services for bare-metal racks: wire codecs for TFTP and DHCP,
//! an IP address pool, the TFTP transfer state machine, and the DHCP responder
//! logic, all with verified contracts.

pub mod catalog;
pub mod dhcp;
pub mod director;
pub mod ipxe;
pub mod migrate;
pub mod mac;
pub mod net;
pub mod text;
pub mod tftp;
pub mod wire;
