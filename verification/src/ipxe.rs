//! The plain-text iPXE scripts the HTTP endpoint serves: boot the local
//! disk, boot an installer kernel, or chain-load to report a UUID.

use vstd::prelude::*;
use vstd::string::StringExecFns;
use crate::director::BootTarget;

verus! {

/// The script that boots a known device from its local disk.
pub fn generate_boot_local_script() -> (r: String)
    ensures
        r@ == "#!ipxe\n# Boot to local disk for known device\nsanboot --no-describe --drive 0x80\n"@,
{
    String::from_str(
        "#!ipxe\n# Boot to local disk for known device\nsanboot --no-describe --drive 0x80\n",
    )
}

/// The script that boots an installer kernel and ramdisk served under the
/// given root URL.
pub fn generate_kernel_script(root_url: &str, ramdisk: &str, kernel: &str, cmdline: &str) -> (r:
    String)
    ensures
        r@ == "#!ipxe\n# Boot custom linux image for new device intake\nkernel "@ + root_url@
            + "/cnc/images/"@ + kernel@ + " "@ + cmdline@ + "\ninitrd "@ + root_url@
            + "/cnc/images/"@ + ramdisk@ + "\nboot\n"@,
{
    let mut s = String::from_str(
        "#!ipxe\n# Boot custom linux image for new device intake\nkernel ",
    );
    s.append(root_url);
    s.append("/cnc/images/");
    s.append(kernel);
    s.append(" ");
    s.append(cmdline);
    s.append("\ninitrd ");
    s.append(root_url);
    s.append("/cnc/images/");
    s.append(ramdisk);
    s.append("\nboot\n");
    s
}

/// The script that chain-loads back to the endpoint with the device's UUID
/// filled in by the iPXE client.
pub fn generate_uuid_script(root_url: &str) -> (r: String)
    ensures
        r@ == "#!ipxe\n# Chain boot to send uuid\nchain "@ + root_url@
            + "/cnc/ipxe?uuid={uuid}\n"@,
{
    let mut s = String::from_str("#!ipxe\n# Chain boot to send uuid\nchain ");
    s.append(root_url);
    s.append("/cnc/ipxe?uuid={uuid}\n");
    s
}

/// The script a boot target calls for, with installer files served under
/// the given root URL.
pub fn script_for_target(target: &BootTarget, root_url: &str) -> (r: String)
    ensures
        match target {
            BootTarget::LocalDisk => r@
                == "#!ipxe\n# Boot to local disk for known device\nsanboot --no-describe --drive 0x80\n"@,
            BootTarget::NetBoot { ramdisk, kernel, cmdline } => r@
                == "#!ipxe\n# Boot custom linux image for new device intake\nkernel "@ + root_url@
                + "/cnc/images/"@ + kernel@ + " "@ + cmdline@ + "\ninitrd "@ + root_url@
                + "/cnc/images/"@ + ramdisk@ + "\nboot\n"@,
        },
{
    match target {
        BootTarget::LocalDisk => generate_boot_local_script(),
        BootTarget::NetBoot { ramdisk, kernel, cmdline } => generate_kernel_script(
            root_url,
            ramdisk.as_str(),
            kernel.as_str(),
            cmdline.as_str(),
        ),
    }
}

} // verus!
