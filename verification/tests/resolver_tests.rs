use captif::resolver::{get_hostname_for_ip, get_mac_impl, ip_to_mac, parse_ipleases};

const TEST_IP_OUTPUT: &'static str = "192.168.8.1 dev enp0s20u1 lladdr \
                                      DE:AD:BE:EF:00:11 REACHABLE\n\
                                      192.168.8.2 dev enp0s20u2 lladdr \
                                      DE:AD:BE:EF:00:22 REACHABLE";

const TEST_INVALID_IP_OUTPUT: &'static str = "192.168.8.1 dev enp0s20u1 lladdr \
                                              DE:AD:BE:EF:00:11";

#[test]
fn test_get_mac() {
    let test_ip_addresses = [
        ("192.168.8.1", Some(String::from("DE:AD:BE:EF:00:11"))),
        ("192.168.8.2", Some(String::from("DE:AD:BE:EF:00:22"))),
        ("192.168.8.3", None),
    ];

    for &(ref test_ip, ref test_result) in &test_ip_addresses {
        assert_eq!(*test_result, get_mac_impl(&test_ip, &TEST_IP_OUTPUT));
    }
}

#[test]
fn test_get_mac_invalid_output() {
    assert_eq!(None, get_mac_impl("192.168.8.1", &TEST_INVALID_IP_OUTPUT));
}

#[test]
fn test_ip_to_mac_absent_table() {
    assert_eq!(None, ip_to_mac("192.168.8.1", None));
    assert_eq!(
        Some(String::from("DE:AD:BE:EF:00:11")),
        ip_to_mac("192.168.8.1", Some(TEST_IP_OUTPUT))
    );
}

const UBUS_IPLEASES_OUTPUT: &'static str = r#"
{
    "device": {
            "br-private": {
                    "leases": [

                    ]
            },
            "br-public": {
                    "leases": [
                            {
                                    "mac": "macmacmac",
                                    "hostname": "nixos",
                                    "ip": "192.168.44.200",
                                    "valid": -43175
                            },
                            {
                                    "mac": "macmacmac",
                                    "hostname": "android-b4283b7e2ffccd8",
                                    "ip": "192.168.44.230",
                                    "valid": -42406
                            }
                    ]
            }
    }
}"#;

#[test]
fn test_parse_ipleaeases() {
    let hostnames = parse_ipleases(&UBUS_IPLEASES_OUTPUT);
    assert!(hostnames.contains(&(String::from("192.168.44.200"), String::from("nixos"))));
    assert!(hostnames.contains(&(
        String::from("192.168.44.230"),
        String::from("android-b4283b7e2ffccd8")
    )));
}

#[test]
fn test_parse_ipleases_other_shapes_yield_nothing() {
    assert!(parse_ipleases("not json at all").is_empty());
    assert!(parse_ipleases("{}").is_empty());
    assert!(parse_ipleases(r#"{"device": {"br-private": {"leases": [{"ip": "10.0.0.1", "hostname": "x"}]}}}"#).is_empty());
    assert!(parse_ipleases(r#"{"device": {"br-public": {"leases": "no-array"}}}"#).is_empty());
    assert!(parse_ipleases(r#"{"device": {"br-public": {}}}"#).is_empty());
}

#[test]
fn test_hostname_lookup() {
    let v4 = UBUS_IPLEASES_OUTPUT;
    let v6 = r#"{"device": {"br-public": {"leases": [{"ip": "fd00::1", "hostname": "six"}]}}}"#;
    assert_eq!(
        Some(String::from("nixos")),
        get_hostname_for_ip("192.168.44.200", Some(v4), Some(v6))
    );
    assert_eq!(
        Some(String::from("six")),
        get_hostname_for_ip("fd00::1", Some(v4), Some(v6))
    );
    assert_eq!(None, get_hostname_for_ip("10.9.9.9", Some(v4), Some(v6)));
    assert_eq!(None, get_hostname_for_ip("192.168.44.200", None, None));
}

#[test]
fn test_lease_entry_missing_fields_skipped() {
    let doc = r#"{"device": {"br-public": {"leases": [
        {"ip": "10.0.0.1"},
        {"hostname": "nameonly"},
        {"ip": 5, "hostname": "badip"},
        {"ip": "10.0.0.2", "hostname": "good"}
    ]}}}"#;
    let pairs = parse_ipleases(doc);
    assert_eq!(pairs, vec![(String::from("10.0.0.2"), String::from("good"))]);
}
