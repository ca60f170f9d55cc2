use captif::wifi::{
    get_current_requested_wifi_status, is_pub_wifi_enabled_impl, weekday_to_index, wifi_status_arg,
    TimeControl, Weekday,
};

const UCI_SHOW_NO_DISABLED: &str = r#"
    wireless.wpublicg=wifi-iface
    wireless.wpublicg.device='radio1'
    wireless.wpublicg.ifname='w-public-g'
    wireless.wpublicg.mode='ap'
    wireless.wpublicg.network='public'
    wireless.wpublicg.country='DE'
    wireless.wpublicg.ssid='spm-test Free'
    wireless.wpublicg.encryption='none'
"#;

#[test]
fn uci_show_no_disabled_parse() {
    assert!(is_pub_wifi_enabled_impl(UCI_SHOW_NO_DISABLED));
}

const UCI_SHOW_ENABLED: &str = r#"
    wireless.wpublicg=wifi-iface
    wireless.wpublicg.device='radio1'
    wireless.wpublicg.ifname='w-public-g'
    wireless.wpublicg.mode='ap'
    wireless.wpublicg.network='public'
    wireless.wpublicg.country='DE'
    wireless.wpublicg.ssid='spm-test Free'
    wireless.wpublicg.encryption='none'
    wireless.wpublicg.disabled='0'
"#;

#[test]
fn uci_show_enabled_parse() {
    assert!(is_pub_wifi_enabled_impl(UCI_SHOW_ENABLED));
}

const UCI_SHOW_DISABLED: &str = r#"
    wireless.wpublicg=wifi-iface
    wireless.wpublicg.device='radio1'
    wireless.wpublicg.ifname='w-public-g'
    wireless.wpublicg.mode='ap'
    wireless.wpublicg.network='public'
    wireless.wpublicg.country='DE'
    wireless.wpublicg.ssid='spm-test Free'
    wireless.wpublicg.encryption='none'
    wireless.wpublicg.disabled='1'
"#;

#[test]
fn uci_show_disabled_parse() {
    assert!(!is_pub_wifi_enabled_impl(UCI_SHOW_DISABLED));
}

#[test]
fn test_weekday_indexes() {
    assert_eq!(weekday_to_index(Weekday::Mon), 0);
    assert_eq!(weekday_to_index(Weekday::Wed), 2);
    assert_eq!(weekday_to_index(Weekday::Sun), 6);
}

#[test]
fn test_requested_status() {
    let tc = TimeControl {
        up_time: vec![vec![8, 9, 10], vec![], vec![23]],
        timezone: String::from("Europe/Berlin"),
    };
    assert!(get_current_requested_wifi_status(&tc, Weekday::Mon, 9));
    assert!(!get_current_requested_wifi_status(&tc, Weekday::Mon, 11));
    assert!(get_current_requested_wifi_status(&tc, Weekday::Tue, 3));
    assert!(get_current_requested_wifi_status(&tc, Weekday::Wed, 23));
    assert!(!get_current_requested_wifi_status(&tc, Weekday::Wed, 22));
    assert!(get_current_requested_wifi_status(&tc, Weekday::Sun, 12));
}

#[test]
fn test_default_time_control() {
    let tc = TimeControl::default();
    assert!(tc.up_time.is_empty());
    assert_eq!(tc.timezone.as_str(), "Europe/Berlin");
}

#[test]
fn test_wifi_status_arg() {
    assert_eq!(wifi_status_arg(true, "g").as_str(), "wireless.wpublicg.disabled=0");
    assert_eq!(wifi_status_arg(false, "a").as_str(), "wireless.wpublica.disabled=1");
}
