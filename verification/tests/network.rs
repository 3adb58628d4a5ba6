use seaki::ip::IpAddress;
use seaki::network::{
    admit_request, client_ip_from_headers, device_from_probe, device_from_service, is_same_network,
    scan_targets, status_is_success, status_url, Device, ScanTarget, StatusProbe,
};

fn is_v4_uuid(s: &str) -> bool {
    let b: Vec<char> = s.chars().collect();
    b.len() == 36
        && b.iter().enumerate().all(|(i, c)| {
            if i == 8 || i == 13 || i == 18 || i == 23 {
                *c == '-'
            } else {
                c.is_ascii_digit() || ('a'..='f').contains(c)
            }
        })
        && b[14] == '4'
        && "89ab".contains(b[19])
}

const LOCAL: IpAddress = IpAddress::V4([192, 168, 1, 20]);

#[test]
fn same_subnet_clients_are_on_the_network() {
    assert!(is_same_network("192.168.1.1", &LOCAL));
    assert!(is_same_network("192.168.1.254", &LOCAL));
    assert!(is_same_network("192.168.1.20", &LOCAL));
    assert!(!is_same_network("192.168.2.1", &LOCAL));
    assert!(!is_same_network("10.0.0.1", &LOCAL));
}

#[test]
fn loopback_clients_are_on_the_network() {
    assert!(is_same_network("127.0.0.1", &LOCAL));
    assert!(is_same_network("127.8.9.10", &LOCAL));
    assert!(is_same_network("::1", &LOCAL));
    let local6 = IpAddress::V6([0x2001, 0xdb8, 1, 2, 0, 0, 0, 5]);
    assert!(is_same_network("127.0.0.1", &local6));
}

#[test]
fn unparsable_or_mixed_clients_are_refused() {
    assert!(!is_same_network("", &LOCAL));
    assert!(!is_same_network("localhost", &LOCAL));
    assert!(!is_same_network("192.168.1.1, 10.0.0.1", &LOCAL));
    assert!(!is_same_network("fe80::1", &LOCAL));
    let local6 = IpAddress::V6([0x2001, 0xdb8, 1, 2, 0, 0, 0, 5]);
    assert!(!is_same_network("192.168.1.1", &local6));
}

#[test]
fn ipv6_clients_share_the_64_bit_prefix() {
    let local6 = IpAddress::V6([0x2001, 0xdb8, 1, 2, 0, 0, 0, 5]);
    assert!(is_same_network("2001:db8:1:2::99", &local6));
    assert!(is_same_network("2001:DB8:1:2:ffff:0:0:1", &local6));
    assert!(!is_same_network("2001:db8:1:3::99", &local6));
}

#[test]
fn client_ip_prefers_forwarded_header() {
    assert_eq!(
        client_ip_from_headers(
            Some("10.0.0.1".to_string()),
            Some("10.0.0.2".to_string()),
            "10.0.0.3"
        ),
        "10.0.0.1"
    );
    assert_eq!(client_ip_from_headers(None, Some("10.0.0.2".to_string()), "10.0.0.3"), "10.0.0.2");
    assert_eq!(client_ip_from_headers(None, None, "10.0.0.3"), "10.0.0.3");
}

#[test]
fn requests_without_headers_are_judged_by_remote_address() {
    assert!(admit_request(None, None, "192.168.1.77", &LOCAL));
    assert!(admit_request(None, None, "127.0.0.1", &LOCAL));
    assert!(!admit_request(None, None, "8.8.8.8", &LOCAL));
    assert!(!admit_request(None, None, "192.168.2.77", &LOCAL));
    assert!(!admit_request(None, None, "", &LOCAL));
    assert!(!admit_request(None, None, "10.0.0.1", &IpAddress::V6([0xfe80, 0, 0, 0, 0, 0, 0, 1])));
}

#[test]
fn requests_are_admitted_by_forwarded_address() {
    assert!(admit_request(Some("192.168.1.77".to_string()), None, "8.8.8.8", &LOCAL));
    assert!(!admit_request(
        Some("8.8.8.8".to_string()),
        Some("192.168.1.77".to_string()),
        "192.168.1.78",
        &LOCAL
    ));
    assert!(admit_request(None, Some("192.168.1.77".to_string()), "8.8.8.8", &LOCAL));
}

#[test]
fn scan_covers_five_ports_and_254_hosts() {
    let ts = scan_targets(&LOCAL);
    assert_eq!(ts.len(), 5 * 254);
    assert_eq!(ts[0], ScanTarget { octets: [192, 168, 1, 1], port: 8080 });
    assert_eq!(ts[253], ScanTarget { octets: [192, 168, 1, 254], port: 8080 });
    assert_eq!(ts[254], ScanTarget { octets: [192, 168, 1, 1], port: 8081 });
    assert_eq!(ts[3 * 254 + 9], ScanTarget { octets: [192, 168, 1, 10], port: 3000 });
    assert_eq!(ts[5 * 254 - 1], ScanTarget { octets: [192, 168, 1, 254], port: 5000 });
}

#[test]
fn scan_targets_are_on_the_network() {
    for t in scan_targets(&LOCAL) {
        let text = format!("{}.{}.{}.{}", t.octets[0], t.octets[1], t.octets[2], t.octets[3]);
        assert!(is_same_network(&text, &LOCAL));
    }
}

#[test]
fn no_scan_from_an_ipv6_address() {
    assert!(scan_targets(&IpAddress::V6([0xfe80, 0, 0, 0, 0, 0, 0, 1])).is_empty());
}

#[test]
fn status_url_names_address_and_port() {
    let t = ScanTarget { octets: [10, 0, 0, 7], port: 3000 };
    assert_eq!(status_url(&t), "http://10.0.0.7:3000/api/status");
}

#[test]
fn success_codes() {
    assert!(status_is_success(200));
    assert!(status_is_success(299));
    assert!(!status_is_success(199));
    assert!(!status_is_success(300));
    assert!(!status_is_success(404));
}

#[test]
fn probed_device_takes_reported_name() {
    let t = ScanTarget { octets: [192, 168, 1, 9], port: 8081 };
    let d = device_from_probe(&t, Some(StatusProbe { name: Some("laptop".to_string()) })).unwrap();
    assert_eq!(d.name, "laptop");
    assert_eq!(d.ip, "192.168.1.9");
    assert_eq!(d.port, 8081);
    assert!(is_v4_uuid(&d.id));
}

#[test]
fn probed_device_without_name_is_unknown() {
    let t = ScanTarget { octets: [192, 168, 1, 9], port: 8080 };
    let d = device_from_probe(&t, Some(StatusProbe { name: None })).unwrap();
    assert_eq!(d.name, "Unknown Device");
    assert!(device_from_probe(&t, None).is_none());
}

#[test]
fn announced_service_uses_first_ipv4_address() {
    let d = device_from_service("phone".to_string(), &vec![[10, 1, 2, 3], [10, 9, 9, 9]], 8082)
        .unwrap();
    assert_eq!(d.name, "phone");
    assert_eq!(d.ip, "10.1.2.3");
    assert_eq!(d.port, 8082);
    assert!(device_from_service("phone".to_string(), &vec![], 8082).is_none());
}

#[test]
fn new_device_has_random_id_and_current_time() {
    let a = Device::new("a".to_string(), "10.0.0.1".to_string(), 8080);
    let b = Device::new("a".to_string(), "10.0.0.1".to_string(), 8080);
    assert!(is_v4_uuid(&a.id));
    assert!(is_v4_uuid(&b.id));
    assert_ne!(a.id, b.id);
    assert!(a.last_seen.secs > 1_600_000_000);
    assert!(a.last_seen.nanos < 1_000_000_000);
    assert_eq!(a.name, "a");
    assert_eq!(a.ip, "10.0.0.1");
    assert_eq!(a.port, 8080);
}

#[test]
fn same_network_goes_both_ways() {
    let pairs = [([192, 168, 1, 20], [192, 168, 1, 5]), ([10, 0, 0, 1], [10, 0, 1, 1])];
    for (a, b) in pairs {
        let ta = format!("{}.{}.{}.{}", a[0], a[1], a[2], a[3]);
        let tb = format!("{}.{}.{}.{}", b[0], b[1], b[2], b[3]);
        assert_eq!(
            is_same_network(&ta, &IpAddress::V4(b)),
            is_same_network(&tb, &IpAddress::V4(a))
        );
    }
}
