use rack_director::dhcp::option82::Option82Parser;
use rack_director::dhcp::packet::Option82Data;
use rack_director::director::BootTarget;
use rack_director::ipxe::{
    generate_boot_local_script, generate_kernel_script, generate_uuid_script, script_for_target,
};
use rack_director::mac::MacAddress;
use rack_director::migrate::pending_migrations;

#[test]
fn test_parse_rack_info() {
    let option82 = Option82Data {
        circuit_id: Some(b"rack-01:port-24".to_vec()),
        remote_id: Some(b"switch-01".to_vec()),
    };

    let result = Option82Parser::parse_rack_info(&option82);
    assert_eq!(result, Some(("rack-01".to_string(), "port-24".to_string())));
}

#[test]
fn test_extract_switch_info() {
    let option82 = Option82Data {
        circuit_id: Some(b"switch-01:ge-0/0/24".to_vec()),
        remote_id: Some(b"remote-switch".to_vec()),
    };

    let result = Option82Parser::extract_switch_info(&option82);
    assert!(result.is_some());

    let switch_info = result.unwrap();
    assert_eq!(switch_info.switch_identifier, "switch-01");
    assert_eq!(switch_info.port_identifier, "ge-0/0/24");
}

#[test]
fn test_option82_parsing() {
    let option82 = Option82Data {
        circuit_id: Some(b"rack-01:port-24".to_vec()),
        remote_id: Some(b"switch-01".to_vec()),
    };

    let result = Option82Parser::parse_rack_info(&option82);
    assert_eq!(result, Some(("rack-01".to_string(), "port-24".to_string())));
}

#[test]
fn test_mac_address_parsing() {
    let mac = MacAddress::from_string("AA:BB:CC:DD:EE:FF").unwrap();
    assert_eq!(mac.to_string(), "aa:bb:cc:dd:ee:ff");

    let invalid_mac = MacAddress::from_string("invalid");
    assert!(invalid_mac.is_err());
}

#[test]
fn test_rack_info_falls_back_to_remote_id() {
    let option82 = Option82Data {
        circuit_id: Some(b"no-colon-here".to_vec()),
        remote_id: Some(b"rack-09:port-3".to_vec()),
    };
    let result = Option82Parser::parse_rack_info(&option82);
    assert_eq!(result, Some(("rack-09".to_string(), "port-3".to_string())));
}

#[test]
fn test_rack_info_needs_both_identifiers() {
    let option82 = Option82Data {
        circuit_id: Some(b"rack-01:port-24".to_vec()),
        remote_id: None,
    };
    assert_eq!(Option82Parser::parse_rack_info(&option82), None);
}

#[test]
fn test_parse_vlan_port() {
    assert_eq!(
        Option82Parser::parse_vlan_port("100:ge-0/0/3"),
        Some((100, "ge-0/0/3".to_string()))
    );
    assert_eq!(Option82Parser::parse_vlan_port("host:port"), None);
    assert_eq!(Option82Parser::parse_vlan_port("nocolon"), None);
    assert_eq!(Option82Parser::parse_vlan_port("70000:port"), None);
}

#[test]
fn test_ipxe_scripts() {
    let local = generate_boot_local_script();
    assert!(local.contains("#!ipxe"));
    assert!(local.contains("sanboot --no-describe --drive 0x80"));

    let uuid = generate_uuid_script("http://localhost");
    assert!(uuid.contains("chain http://localhost/cnc/ipxe?uuid={uuid}"));

    let kernel = generate_kernel_script("http://localhost", "initrd.img", "vmlinuz", "quiet");
    assert!(kernel.contains("kernel http://localhost/cnc/images/vmlinuz quiet"));
    assert!(kernel.contains("initrd http://localhost/cnc/images/initrd.img"));
    assert!(kernel.contains("boot"));

    assert_eq!(script_for_target(&BootTarget::LocalDisk, "http://x"), local);
    let net = BootTarget::NetBoot {
        ramdisk: "initrd.img".to_string(),
        kernel: "vmlinuz".to_string(),
        cmdline: "quiet".to_string(),
    };
    assert_eq!(script_for_target(&net, "http://localhost"), kernel);
}

#[test]
fn test_pending_migrations_ascend_from_current() {
    assert_eq!(pending_migrations(0, 2), vec![1, 2]);
    assert_eq!(pending_migrations(1, 2), vec![2]);
    assert_eq!(pending_migrations(2, 2), Vec::<u32>::new());
    assert_eq!(pending_migrations(5, 2), Vec::<u32>::new());
}
