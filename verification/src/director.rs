//! What the director decides per device: chain-load the local disk, or
//! fetch an installer kernel over the network.

use vstd::prelude::*;
use crate::text::str_eq;

verus! {

/// The next boot a device should perform.
#[derive(Debug, Clone)]
pub enum BootTarget {
    LocalDisk,
    NetBoot { ramdisk: String, kernel: String, cmdline: String },
}

/// Whether a TFTP filename is one of the firmware images this service
/// serves: exactly `ipxe.efi` and `undionly.kpxe`.
pub fn is_served_firmware(filename: &str) -> (r: bool)
    ensures
        r == (filename@ == "ipxe.efi"@ || filename@ == "undionly.kpxe"@),
{
    str_eq(filename, "ipxe.efi") || str_eq(filename, "undionly.kpxe")
}

/// The boot target for a device with no outstanding installation: the
/// local disk.
pub fn default_boot_target() -> (r: BootTarget)
    ensures
        r is LocalDisk,
{
    BootTarget::LocalDisk
}

} // verus!
