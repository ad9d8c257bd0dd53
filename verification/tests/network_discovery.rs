use wmde_files::network_discovery::fold_avahi;
use wmde_files::network_discovery::kind_for_service;
use wmde_files::network_discovery::merge_devices;
use wmde_files::network_discovery::netbios_name;
use wmde_files::network_discovery::netbios_query;
use wmde_files::network_discovery::parse_avahi_output;
use wmde_files::network_discovery::unescape_avahi;
use wmde_files::network_discovery::unnamed_devices;
use wmde_files::network_discovery::AvahiRecord;
use wmde_files::network_discovery::Device;
use wmde_files::network_discovery::DeviceKind;

fn device(name: &str, addr: &str, kind: DeviceKind) -> Device {
    Device { name: name.to_string(), addr: addr.to_string(), kind }
}

#[test]
fn service_types_map_to_kinds() {
    assert_eq!(kind_for_service("_smb._tcp"), DeviceKind::Computer);
    assert_eq!(kind_for_service("_SSH._TCP"), DeviceKind::Computer);
    assert_eq!(kind_for_service("_sftp-ssh._tcp"), DeviceKind::Computer);
    assert_eq!(kind_for_service("_ipp._tcp"), DeviceKind::Printer);
    assert_eq!(kind_for_service("_pdl-datastream._tcp"), DeviceKind::Printer);
    assert_eq!(kind_for_service("_uscan._tcp"), DeviceKind::Scanner);
    assert_eq!(kind_for_service("_scanner._tcp"), DeviceKind::Scanner);
    assert_eq!(kind_for_service("_http._tcp"), DeviceKind::Other);
}

#[test]
fn avahi_escapes_are_bytes_of_one_utf8_text() {
    assert_eq!(unescape_avahi("Caf\\195\\169"), "Café");
    assert_eq!(unescape_avahi("\\208\\159\\208\\154"), "ПК");
    assert_eq!(unescape_avahi("Office\\032PC"), "Office PC");
    assert_eq!(unescape_avahi("a\\.b"), "a.b");
    assert_eq!(unescape_avahi("plain"), "plain");
}

#[test]
fn avahi_escape_edge_cases() {
    // More than a byte: the backslash only quotes the next character.
    assert_eq!(unescape_avahi("\\256"), "256");
    // Fewer than three digits.
    assert_eq!(unescape_avahi("\\12"), "12");
    // A trailing backslash is dropped.
    assert_eq!(unescape_avahi("x\\"), "x");
    // A lone byte that is not UTF-8 becomes the replacement character.
    assert_eq!(unescape_avahi("\\255"), "\u{FFFD}");
}

#[test]
fn avahi_output_yields_resolved_ipv4_records() {
    let stdout = b"+;eth0;IPv4;Office\\032PC;_smb._tcp;local\n\
=;eth0;IPv4;Office\\032PC;_smb._tcp;local;office-pc.local;192.168.1.10;445;\n\
=;eth0;IPv6;Office\\032PC;_smb._tcp;local;office-pc.local;fe80::1;445;\n\
=;eth0;IPv4;Printer;_ipp._tcp;local;printer.local.;192.168.1.20;631;\"txtvers=1\"\r\n\
=;eth0;IPv4;short;_ipp._tcp;local\n\
=;eth0;IPv4;nohost;_ipp._tcp;local;...;192.168.1.30;631;\n";
    let records = parse_avahi_output(stdout);
    assert_eq!(records.len(), 2);
    assert_eq!(records[0].name, "Office PC");
    assert_eq!(records[0].service_type, "_smb._tcp");
    assert_eq!(records[0].host, "office-pc.local");
    assert_eq!(records[0].addr, "192.168.1.10");
    assert_eq!(records[1].name, "Printer");
    assert_eq!(records[1].host, "printer.local");
    assert_eq!(records[1].addr, "192.168.1.20");
}

fn record(name: &str, service_type: &str, host: &str, addr: &str) -> AvahiRecord {
    AvahiRecord {
        name: name.to_string(),
        service_type: service_type.to_string(),
        host: host.to_string(),
        addr: addr.to_string(),
    }
}

#[test]
fn one_device_per_host_with_its_best_service() {
    let records = vec![
        record("NAS web", "_http._tcp", "nas.local", "192.168.1.5"),
        record("NAS files", "_smb._tcp", "nas.local", "192.168.1.5"),
        record("Laser", "_ipp._tcp", "a.local", "192.168.1.7"),
    ];
    let devices = fold_avahi(&records);
    assert_eq!(devices.len(), 2);
    // In the order of host names.
    assert_eq!(devices[0].name, "Laser");
    assert_eq!(devices[0].kind, DeviceKind::Printer);
    assert_eq!(devices[1].name, "NAS files");
    assert_eq!(devices[1].addr, "192.168.1.5");
    assert_eq!(devices[1].kind, DeviceKind::Computer);
}

#[test]
fn a_lower_priority_service_keeps_the_name() {
    let records = vec![
        record("Files", "_smb._tcp", "pc.local", "10.0.0.2"),
        record("Web", "_http._tcp", "pc.local", "10.0.0.2"),
    ];
    let devices = fold_avahi(&records);
    assert_eq!(devices.len(), 1);
    assert_eq!(devices[0].name, "Files");
    assert_eq!(devices[0].kind, DeviceKind::Computer);
}

#[test]
fn sources_merge_into_one_device_per_address() {
    let found = vec![
        (device("192.168.1.5", "192.168.1.5", DeviceKind::Computer), true),
        (device("NAS", "192.168.1.5", DeviceKind::Printer), false),
        (device("ghost", "", DeviceKind::Other), false),
        (device("pc", "10.0.0.2", DeviceKind::Other), false),
    ];
    let devices = merge_devices(found);
    assert_eq!(devices.len(), 2);
    assert_eq!(devices[0].addr, "10.0.0.2");
    assert_eq!(devices[0].name, "pc");
    assert_eq!(devices[1].addr, "192.168.1.5");
    assert_eq!(devices[1].name, "NAS");
    assert_eq!(devices[1].kind, DeviceKind::Computer);
}

#[test]
fn an_address_label_does_not_replace_a_name() {
    let found = vec![
        (device("printer", "10.0.0.9", DeviceKind::Printer), false),
        (device("10.0.0.9", "10.0.0.9", DeviceKind::Computer), true),
        (device("", "10.0.0.3", DeviceKind::Other), false),
        (device("later", "10.0.0.3", DeviceKind::Other), false),
    ];
    let devices = merge_devices(found);
    assert_eq!(devices.len(), 2);
    assert_eq!(devices[0].addr, "10.0.0.3");
    assert_eq!(devices[0].name, "later");
    assert_eq!(devices[1].name, "printer");
    assert_eq!(devices[1].kind, DeviceKind::Computer);
}

#[test]
fn devices_named_by_address_are_picked_out() {
    assert_eq!(unnamed_devices(&vec![true, false, true]), vec![0, 2]);
    assert!(unnamed_devices(&vec![false, false]).is_empty());
}

#[test]
fn the_nbstat_query_asks_for_the_wildcard_name() {
    let mut expected = vec![0x13u8, 0x37, 0, 0, 0, 1, 0, 0, 0, 0, 0, 0, 0x20, 0x43, 0x4b];
    expected.extend(std::iter::repeat(0x41u8).take(30));
    expected.extend([0x00, 0x00, 0x21, 0x00, 0x01]);
    assert_eq!(netbios_query(), expected);
}

fn entry(name: &str, suffix: u8, flags: u8) -> Vec<u8> {
    let mut e: Vec<u8> = format!("{name:<15}").into_bytes();
    e.push(suffix);
    e.push(flags);
    e.push(0x00);
    e
}

fn nbstat_answer(entries: &[Vec<u8>], count: u8) -> Vec<u8> {
    let mut d = vec![0x13u8, 0x37, 0x84, 0x00, 0, 0, 0, 1, 0, 0, 0, 0, 0x20];
    d.extend(std::iter::repeat(0x41u8).take(32));
    d.extend([0x00, 0x00, 0x21, 0x00, 0x01]);
    d.extend([0, 0, 0, 0]); // TTL
    d.extend([0x00, 0x41]); // RDLENGTH
    d.push(count);
    for e in entries {
        d.extend(e);
    }
    d
}

#[test]
fn the_computer_name_is_the_unique_name_with_suffix_zero() {
    let data = nbstat_answer(
        &[entry("WORKGROUP", 0x00, 0x84), entry("MYPC", 0x20, 0x04), entry("MYPC", 0x00, 0x04)],
        3,
    );
    assert_eq!(netbios_name(&data), Some("MYPC".to_string()));
}

#[test]
fn a_truncated_name_table_gives_no_name() {
    let data = nbstat_answer(&[entry("MYPC", 0x00, 0x04)], 2);
    assert_eq!(netbios_name(&data), None);
    let none = nbstat_answer(&[entry("MYPC", 0x00, 0x04)], 0);
    assert_eq!(netbios_name(&none), None);
    assert_eq!(netbios_name(&[0x00, 0x21, 0x00]), None);
}
