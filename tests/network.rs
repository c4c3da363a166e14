use arp_scan::device::Device;
use arp_scan::error::Error;
use arp_scan::mac::valid_mac_address;
use arp_scan::network::Network;
use arp_scan::snapshot::{parse_devices, split_lines};
use std::cell::Cell;

const ONE_LINE: &str = "? (192.168.1.1) at aa:bb:cc:dd:ee:ff [ether] on eth0";

const THREE_LINES: &str = "? (192.168.1.1) at aa:bb:cc:dd:ee:ff [ether] on eth0\n\
? (192.168.1.20) at 00:11:22:33:44:55 [ether] on eth0\n\
? (10.0.0.7) at 0a:1b:2c:3d:4e:5f [ether] on wlan0\n";

fn source(text: &str) -> impl FnOnce() -> Result<String, Error> + '_ {
    move || Ok(text.to_string())
}

fn device(ip: &str, mac: &str) -> Device {
    Device::new(ip.to_string(), mac.to_string())
}

#[test]
fn single_line_gives_one_device() {
    let mut net = Network::new();
    let all = net.get_all_devices_in_network(source(ONE_LINE)).unwrap();
    assert_eq!(all, vec![device("192.168.1.1", "aa:bb:cc:dd:ee:ff")]);
    assert!(net.is_discovered());
    assert_eq!(net.raw_snapshot(), ONE_LINE);
}

#[test]
fn one_device_per_line_in_order() {
    let mut net = Network::new();
    let all = net.get_all_devices_in_network(source(THREE_LINES)).unwrap();
    assert_eq!(
        all,
        vec![
            device("192.168.1.1", "aa:bb:cc:dd:ee:ff"),
            device("192.168.1.20", "00:11:22:33:44:55"),
            device("10.0.0.7", "0a:1b:2c:3d:4e:5f"),
        ]
    );
}

#[test]
fn columns_in_any_order() {
    let devices = parse_devices("aa:bb:cc:dd:ee:ff is at 10.1.2.3").unwrap();
    assert_eq!(devices, vec![device("10.1.2.3", "aa:bb:cc:dd:ee:ff")]);
}

#[test]
fn blank_lines_are_skipped() {
    let text = "\n? (192.168.1.1) at aa:bb:cc:dd:ee:ff\n   \r\n? (192.168.1.2) at aa:bb:cc:dd:ee:00\n\n";
    let devices = parse_devices(text).unwrap();
    assert_eq!(
        devices,
        vec![
            device("192.168.1.1", "aa:bb:cc:dd:ee:ff"),
            device("192.168.1.2", "aa:bb:cc:dd:ee:00"),
        ]
    );
}

#[test]
fn empty_table_discovers_nothing_once() {
    let calls = Cell::new(0);
    let mut net = Network::new();
    let fetch = || {
        calls.set(calls.get() + 1);
        Ok(String::new())
    };
    assert_eq!(net.get_all_devices_in_network(fetch).unwrap(), vec![]);
    assert!(net.is_discovered());
    let again = net.get_all_devices_in_network(|| -> Result<String, Error> { panic!("asked twice") });
    assert_eq!(again.unwrap(), vec![]);
    assert_eq!(calls.get(), 1);
}

#[test]
fn permissive_extraction_keeps_out_of_range_address() {
    let devices = parse_devices("host (999.999.999.999) at zz:yy:xx:ww:vv:uu").unwrap();
    assert_eq!(devices, vec![device("999.999.999.999", "zz:yy:xx:ww:vv:uu")]);
}

#[test]
fn short_octets_are_extracted_verbatim() {
    let devices = parse_devices("? (192.168.0.9) at 0:1b:2c:3:4e:5f on en0").unwrap();
    assert_eq!(devices, vec![device("192.168.0.9", "0:1b:2c:3:4e:5f")]);
}

#[test]
fn enumerate_twice_runs_discovery_once() {
    let calls = Cell::new(0);
    let mut net = Network::new();
    let first = net
        .get_all_devices_in_network(|| {
            calls.set(calls.get() + 1);
            Ok(THREE_LINES.to_string())
        })
        .unwrap();
    let second = net
        .get_all_devices_in_network(|| {
            calls.set(calls.get() + 1);
            Ok(String::from("? (1.1.1.1) at 11:11:11:11:11:11"))
        })
        .unwrap();
    assert_eq!(first, second);
    assert_eq!(first.len(), 3);
    assert_eq!(calls.get(), 1);
}

#[test]
fn line_without_mac_fails_whole_discovery() {
    let text = "? (192.168.1.1) at aa:bb:cc:dd:ee:ff\n? (192.168.1.2) at (incomplete) on eth0";
    let mut net = Network::new();
    let r = net.get_all_devices_in_network(source(text));
    assert_eq!(r, Err(Error::NotFoundMACAddress));
    assert!(!net.is_discovered());
    assert_eq!(net.raw_snapshot(), "");
    let retried = net.get_all_devices_in_network(source(ONE_LINE)).unwrap();
    assert_eq!(retried, vec![device("192.168.1.1", "aa:bb:cc:dd:ee:ff")]);
}

#[test]
fn line_without_ip_fails() {
    let r = parse_devices("gateway at aa:bb:cc:dd:ee:ff");
    assert_eq!(r, Err(Error::NotFoundIPAddress));
}

#[test]
fn ip_is_reported_before_mac() {
    let r = parse_devices("nothing here");
    assert_eq!(r, Err(Error::NotFoundIPAddress));
}

#[test]
fn failed_source_is_reported_and_retried() {
    let mut net = Network::new();
    let r = net.get_all_devices_in_network(|| Err(Error::FailedRunARPCommand));
    assert_eq!(r, Err(Error::FailedRunARPCommand));
    assert!(!net.is_discovered());
    let again = net.find_device_with_ip("192.168.1.1".to_string(), source(ONE_LINE));
    assert_eq!(again, Ok(device("192.168.1.1", "aa:bb:cc:dd:ee:ff")));
}

#[test]
fn find_by_mac_ignores_format() {
    let mut net = Network::new();
    let expected = device("192.168.1.1", "aa:bb:cc:dd:ee:ff");
    for query in ["AA:BB:CC:DD:EE:FF", "aa-bb-cc-dd-ee-ff", "aabbccddeeff", "aa:bb:cc:dd:ee:ff"] {
        let found = net.find_device_with_mac_address(query.to_string(), source(ONE_LINE));
        assert_eq!(found, Ok(expected.clone()));
    }
}

#[test]
fn find_by_mac_returns_first_of_duplicates() {
    let text = "? (10.0.0.1) at aa:bb:cc:dd:ee:ff\n? (10.0.0.2) at AA:BB:CC:DD:EE:FF";
    let mut net = Network::new();
    let found = net.find_device_with_mac_address("aabbccddeeff".to_string(), source(text));
    assert_eq!(found, Ok(device("10.0.0.1", "aa:bb:cc:dd:ee:ff")));
}

#[test]
fn invalid_mac_query_does_not_discover() {
    let mut net = Network::new();
    let r = net.find_device_with_mac_address("not-a-mac".to_string(), || -> Result<String, Error> {
        panic!("discovery must not run")
    });
    assert_eq!(r, Err(Error::InvalidMACAddress));
    assert!(!net.is_discovered());
}

#[test]
fn unknown_addresses_are_not_found() {
    let mut net = Network::new();
    let by_mac = net.find_device_with_mac_address("11:22:33:44:55:66".to_string(), source(THREE_LINES));
    assert_eq!(by_mac, Err(Error::NotFindDevice));
    let by_ip = net.find_device_with_ip("192.168.1.99".to_string(), source(THREE_LINES));
    assert_eq!(by_ip, Err(Error::NotFindDevice));
}

#[test]
fn find_by_ip_matches_exact_text() {
    let mut net = Network::new();
    let found = net.find_device_with_ip("10.0.0.7".to_string(), source(THREE_LINES));
    assert_eq!(found, Ok(device("10.0.0.7", "0a:1b:2c:3d:4e:5f")));
}

#[test]
fn mac_canonical_form_is_upper_case_with_colons() {
    assert_eq!(valid_mac_address("0a-1b-2c-3d-4e-5f"), Ok("0A:1B:2C:3D:4E:5F".to_string()));
    assert_eq!(valid_mac_address("aabb.ccdd.eeff"), Ok("AA:BB:CC:DD:EE:FF".to_string()));
}

#[test]
fn mac_validation_errors() {
    assert_eq!(valid_mac_address("0A-1B-2C-3D-4x-5F"), Err(Error::InvalidMACAddress));
    assert_eq!(valid_mac_address("0A-1B-2C-3D-4E"), Err(Error::InvalidMACAddress));
    assert_eq!(valid_mac_address("0A-1B-2C-3D-4E-5"), Err(Error::InvalidMACAddress));
    assert_eq!(valid_mac_address(""), Err(Error::InvalidMACAddress));
}

#[test]
fn lines_are_split_at_newlines() {
    let lines = split_lines("ab\n\ncd");
    assert_eq!(lines, vec![vec!['a', 'b'], vec![], vec!['c', 'd']]);
    assert_eq!(split_lines(""), vec![Vec::<char>::new()]);
}

#[test]
fn devices_compare_by_fields() {
    let a = device("1.2.3.4", "aa:bb:cc:dd:ee:ff");
    assert_eq!(a, a.clone());
    assert_ne!(a, device("1.2.3.5", "aa:bb:cc:dd:ee:ff"));
    assert_ne!(a, device("1.2.3.4", "aa:bb:cc:dd:ee:00"));
    assert_eq!(a.ip, "1.2.3.4");
    assert_eq!(a.mac_address, "aa:bb:cc:dd:ee:ff");
}

#[test]
fn map_all_takes_fetched_text() {
    let mut net = Network::new();
    assert_eq!(net.map_all_device_in_network(Ok(THREE_LINES.to_string())), Ok(()));
    assert_eq!(net.get_all_devices_in_network(|| Ok(String::new())).unwrap().len(), 3);
    assert_eq!(net.map_all_device_in_network(Err(Error::FailedRunARPCommand)), Ok(()));
}
