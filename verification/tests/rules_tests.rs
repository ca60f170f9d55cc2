use captif::rules::{bypass_rule_body, parse_i64, sweep_targets, valid_time_from_config, Rule};

#[test]
fn test_rule_parse() {
    let expected_rule = Rule {
        mac_source: String::from("DE:AD:BE:EF:DE:AD"),
        timestamp: 233445,
    };

    let rule = Rule::parse(
        "-A prerouting_public_rule -m mac --mac-source DE:AD:BE:EF:DE:AD
                     -m comment --comment \"timestamp=233445\" -j ACCEPT",
    ).expect("Error parsing the rule");

    assert_eq!(expected_rule, rule);
}

#[test]
fn test_rule_parse_fail() {
    assert!(
        Rule::parse(
            "-A prerouting_public_rule -m mac
                     -m comment --comment \"timestamp=233445\" -j ACCEPT"
        ).is_none()
    );
}

#[test]
fn test_rule_parse_fail_mac_wrong() {
    assert!(
        Rule::parse(
            "-A prerouting_public_rule -m mac  --mac-source DE:AD:BE:EG:DE:AD
                     -m comment --comment \"timestamp=233445\" -j ACCEPT"
        ).is_none()
    );

    assert!(
        Rule::parse(
            "-A prerouting_public_rule -m mac  --mac-source DE:AD:BE:DE:AD
                     -m comment --comment \"timestamp=233445\" -j ACCEPT"
        ).is_none()
    );
}

#[test]
fn test_rule_parse_fail_timestamp_wrong() {
    assert!(
        Rule::parse(
            "-A prerouting_public_rule -m mac  --mac-source DE:AD:BE:DE:AD:DE
                     -m comment --comment \"timestamp=hi\" -j ACCEPT"
        ).is_none()
    );
}

#[test]
fn test_rule_expired() {
    let duration = chrono::Duration::hours(1);
    let time = chrono::Utc::now().timestamp();
    let mut rule = Rule {
        mac_source: String::new(),
        timestamp: time - duration.num_seconds() - 10,
    };

    assert!(rule.is_expired(duration.num_seconds(), time));

    rule = Rule {
        mac_source: String::new(),
        timestamp: time,
    };

    assert!(!rule.is_expired(duration.num_seconds(), time));
}

#[test]
fn test_rule_to_string() {
    let rule = Rule {
        mac_source: String::from("DE:AD:BE:DE:AD:DE"),
        timestamp: 3456,
    };

    let expected_result = "-m mac --mac-source DE:AD:BE:DE:AD:DE -m comment --comment \
                           timestamp=3456 -j ACCEPT";

    assert_eq!(expected_result, rule.to_string().as_str());
}

#[test]
fn test_rule_parse_mixed_case_mac() {
    let rule = Rule::parse(
        "-A prerouting_public_rule -m mac --mac-source dE:aD:Be:ef:00:11 \
         -m comment --comment \"timestamp=7\" -j ACCEPT",
    ).expect("mixed-case MACs must parse");
    assert_eq!(rule.mac_source.as_str(), "dE:aD:Be:ef:00:11");
    assert_eq!(rule.timestamp, 7);
}

#[test]
fn test_rule_parse_negative_timestamp_rejected() {
    assert!(
        Rule::parse(
            "-A prerouting_public_rule -m mac --mac-source DE:AD:BE:DE:AD:DE \
             -m comment --comment \"timestamp=-1\" -j ACCEPT"
        ).is_none()
    );
}

#[test]
fn test_rule_parse_unquoted_timestamp_rejected() {
    assert!(
        Rule::parse(
            "-m mac --mac-source DE:AD:BE:DE:AD:DE -m comment --comment timestamp=3456 -j ACCEPT"
        ).is_none()
    );
}

#[test]
fn test_rule_parse_timestamp_overflow_rejected() {
    assert!(
        Rule::parse(
            "-A c -m mac --mac-source DE:AD:BE:DE:AD:DE \
             -m comment --comment \"timestamp=99999999999999999999\" -j ACCEPT"
        ).is_none()
    );
}

#[test]
fn test_round_trip_through_listing() {
    let rule = Rule {
        mac_source: String::from("DE:AD:BE:DE:AD:DE"),
        timestamp: 3456,
    };
    let listed = format!(
        "-A prerouting_public_rule {}",
        rule.to_string().replace("timestamp=3456", "\"timestamp=3456\"")
    );
    let parsed = Rule::parse(&listed).expect("listing of an encoded rule must parse");
    assert_eq!(parsed, rule);
}

#[test]
fn test_sweep_targets_deletes_only_expired() {
    let now: i64 = 1_000_000;
    let window: i64 = 3600;
    let lines = vec![
        String::from(
            "-A prerouting_public_rule -m mac --mac-source AA:AA:AA:AA:AA:AA \
             -m comment --comment \"timestamp=100\" -j ACCEPT",
        ),
        String::from("-A prerouting_public_rule -j RETURN"),
        String::from(
            "-A prerouting_public_rule -m mac --mac-source BB:BB:BB:BB:BB:BB \
             -m comment --comment \"timestamp=999999\" -j ACCEPT",
        ),
    ];
    let targets = sweep_targets(&lines, window, now);
    assert_eq!(targets.len(), 1);
    assert_eq!(
        targets[0].as_str(),
        "-m mac --mac-source AA:AA:AA:AA:AA:AA -m comment --comment timestamp=100 -j ACCEPT"
    );
}

#[test]
fn test_expiry_boundary() {
    let now: i64 = 500_000;
    let rule = Rule {
        mac_source: String::from("AA:AA:AA:AA:AA:AA"),
        timestamp: now - 3600,
    };
    assert!(!rule.is_expired(3600, now));
    let older = Rule {
        mac_source: String::from("AA:AA:AA:AA:AA:AA"),
        timestamp: now - 3601,
    };
    assert!(older.is_expired(3600, now));
}

#[test]
fn test_valid_time_from_config() {
    assert_eq!(valid_time_from_config(Some("3600")), 3600);
    assert_eq!(valid_time_from_config(Some("-5")), -5);
    assert_eq!(valid_time_from_config(Some("+7")), 7);
    assert_eq!(valid_time_from_config(Some("3600\n")), 86400);
    assert_eq!(valid_time_from_config(Some("abc")), 86400);
    assert_eq!(valid_time_from_config(None), 86400);
}

#[test]
fn test_parse_i64_bounds() {
    assert_eq!(parse_i64("9223372036854775807"), Some(i64::MAX));
    assert_eq!(parse_i64("-9223372036854775808"), Some(i64::MIN));
    assert_eq!(parse_i64("9223372036854775808"), None);
    assert_eq!(parse_i64("-9223372036854775809"), None);
    assert_eq!(parse_i64(""), None);
    assert_eq!(parse_i64("1 2"), None);
}

#[test]
fn test_bypass_rule_body() {
    assert_eq!(
        bypass_rule_body().as_str(),
        "-j ACCEPT -m comment --comment timestamp=0"
    );
}
