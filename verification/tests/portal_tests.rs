use captif::bus::accept_event_payload;
use captif::portal::{add_extra_headers, filter_headers, force_connection_close};

#[test]
fn test_attribution_headers() {
    let mut headers: Vec<(String, String)> = vec![(
        String::from("Host"),
        String::from("127.0.0.1:8080"),
    )];
    add_extra_headers(
        &mut headers,
        "secret",
        "pylon!",
        "127.0.0.1",
        "DE:AD:BE:EF:DE:AD",
        &Some(String::from("testmachine")),
    );
    assert_eq!(
        headers,
        vec![
            (String::from("Host"), String::from("127.0.0.1:8080")),
            (String::from("X-SC-Sentry-Connected-Ip"), String::from("127.0.0.1")),
            (String::from("X-SC-Sentry-Connected-Mac"), String::from("DE:AD:BE:EF:DE:AD")),
            (String::from("X-SC-Sentry-Connected-Hostname"), String::from("testmachine")),
            (String::from("X-SC-Sentry-Secret"), String::from("secret")),
            (String::from("X-SC-Sentry-Identity"), String::from("pylon!")),
        ]
    );
}

#[test]
fn test_attribution_headers_without_hostname() {
    let mut headers: Vec<(String, String)> = Vec::new();
    add_extra_headers(&mut headers, "s", "i", "10.0.0.1", "AA:BB:CC:DD:EE:FF", &None);
    let names: Vec<&str> = headers.iter().map(|h| h.0.as_str()).collect();
    assert_eq!(
        names,
        vec![
            "X-SC-Sentry-Connected-Ip",
            "X-SC-Sentry-Connected-Mac",
            "X-SC-Sentry-Secret",
            "X-SC-Sentry-Identity"
        ]
    );
}

#[test]
fn test_filter_headers_drops_ignored() {
    let headers = vec![
        (String::from("Host"), String::from("a")),
        (String::from("Referer"), String::from("http://portal/")),
        (String::from("Accept"), String::from("*/*")),
    ];
    let ignore = vec![String::from("Referer")];
    let out = filter_headers(&headers, &ignore);
    assert_eq!(
        out,
        vec![
            (String::from("Host"), String::from("a")),
            (String::from("Accept"), String::from("*/*")),
        ]
    );
}

#[test]
fn test_force_connection_close() {
    let headers = vec![
        (String::from("Connection"), String::from("keep-alive")),
        (String::from("Content-Type"), String::from("text/html")),
    ];
    let out = force_connection_close(&headers);
    assert_eq!(
        out,
        vec![
            (String::from("Content-Type"), String::from("text/html")),
            (String::from("Connection"), String::from("close")),
        ]
    );
}

#[test]
fn test_accept_event_payload() {
    assert_eq!(
        accept_event_payload("127.0.0.1", "DE:AD:BE:EF:DE:AD", 3456).as_str(),
        "{\"ip\":\"127.0.0.1\",\"mac\":\"DE:AD:BE:EF:DE:AD\",\"timestamp\":\"3456\"}"
    );
}

#[test]
fn test_accept_event_payload_escapes() {
    let payload = accept_event_payload("a\"b", "c\\d", -1);
    assert_eq!(
        payload.as_str(),
        "{\"ip\":\"a\\\"b\",\"mac\":\"c\\\\d\",\"timestamp\":\"-1\"}"
    );
    let with_ctrl = accept_event_payload("x\u{1f}y", "m", 0);
    assert_eq!(
        with_ctrl.as_str(),
        "{\"ip\":\"x\\u001Fy\",\"mac\":\"m\",\"timestamp\":\"0\"}"
    );
}
