use captif::service::{
    create_secret, get_redirect_host, host_name_of, query_of, Classification, Decision,
    RequestInfo, Sentry, Service,
};

fn make_service() -> Service {
    let sentry = Sentry::new(String::from("s3cr3t"), String::from("pylon!"));
    let redirect_url = String::from(
        "https://portal.example.com/landing?url={{origin}}&id={{identity}}&ip={{client_ip_addr}}&mac={{client_mac_addr}}&host={{client_hostname}}",
    );
    let redirect_host = get_redirect_host(redirect_url.as_str()).expect("redirect host");
    Service::new(redirect_url, redirect_host, sentry)
}

fn req(host: Option<&str>, referer: Option<&str>, uri: &str) -> RequestInfo {
    RequestInfo {
        host: host.map(String::from),
        referer: referer.map(String::from),
        uri: String::from(uri),
        remote_ip: String::from("10.0.0.5"),
    }
}

#[test]
fn test_redirect_host_extraction() {
    let service = make_service();
    assert_eq!(service.redirect_host.as_str(), "portal.example.com");
}

#[test]
fn test_classify_portal_host() {
    let service = make_service();
    let c: Classification = service.classify(&req(
        Some("portal.example.com:8080"),
        None,
        "/index.html",
    ));
    assert!(!c.authorize);
    match c.decision {
        Decision::Portal { target } => {
            assert_eq!(target.as_str(), "http://portal.example.com:8080/index.html")
        },
        _ => panic!("expected the portal branch"),
    }
}

#[test]
fn test_classify_portal_referred() {
    let service = make_service();
    let c = service.classify(&req(
        Some("other.example.net"),
        Some("http://portal.example.com/landing"),
        "/style.css",
    ));
    match c.decision {
        Decision::Referred { target } => {
            assert_eq!(target.as_str(), "http://other.example.net/style.css")
        },
        _ => panic!("expected the referred branch"),
    }
}

#[test]
fn test_classify_missing_host_redirects() {
    let service = make_service();
    let c = service.classify(&req(None, Some("http://portal.example.com/landing"), "/"));
    assert!(matches!(c.decision, Decision::Redirect));
}

#[test]
fn test_classify_missing_referer_redirects() {
    let service = make_service();
    let c = service.classify(&req(Some("other.example.net"), None, "/"));
    assert!(matches!(c.decision, Decision::Redirect));
}

#[test]
fn test_classify_foreign_referer_redirects() {
    let service = make_service();
    let c = service.classify(&req(
        Some("other.example.net"),
        Some("http://elsewhere.example.org/x"),
        "/",
    ));
    assert!(matches!(c.decision, Decision::Redirect));
}

#[test]
fn test_acceptance_probe() {
    let service = make_service();
    assert!(service.classify(&req(None, None, "/?tos_accepted=true")).authorize);
    assert!(service.classify(&req(None, None, "/page?x=1&k=s3cr3t&y=2")).authorize);
    assert!(!service.classify(&req(None, None, "/page?x=1")).authorize);
    assert!(!service.classify(&req(None, None, "/tos_accepted=true")).authorize);
}

#[test]
fn test_contains_secret() {
    let sentry = Sentry::new(String::from("abc123"), String::from("id"));
    assert!(sentry.contains_secret("foo&tos_accepted=true&bar"));
    assert!(sentry.contains_secret("xabc123y"));
    assert!(!sentry.contains_secret("tos_accepted=false"));
}

#[test]
fn test_redirect_location_rendering() {
    let sentry = Sentry::new(String::from("s"), String::from("pylon!"));
    let service = Service::new(
        String::from("{{origin}}|{{identity}}|{{client_ip_addr}}|{{client_mac_addr}}|{{client_hostname}}"),
        String::from("portal.example.com"),
        sentry,
    );
    let r = req(Some("example.org"), None, "/a b");
    let loc = service.redirect_location(
        &r,
        &Some(String::from("DE:AD:BE:EF:00:11")),
        &Some(String::from("my host")),
    );
    assert_eq!(
        loc.as_str(),
        "http%3A%2F%2Fexample%2Eorg%2Fa%20b|pylon!|10.0.0.5|DE:AD:BE:EF:00:11|my%20host"
    );
}

#[test]
fn test_redirect_location_missing_host_and_resolvers() {
    let sentry = Sentry::new(String::from("s"), String::from("id"));
    let service = Service::new(
        String::from("u={{origin}}&m={{client_mac_addr}}&h={{client_hostname}}"),
        String::from("portal.example.com"),
        sentry,
    );
    let r = req(None, None, "/");
    let loc = service.redirect_location(&r, &None, &None);
    assert_eq!(loc.as_str(), "u=http%3A%2F%2F%2F&m=&h=");
}

#[test]
fn test_host_name_of() {
    assert_eq!(host_name_of("example.org:8080").as_str(), "example.org");
    assert_eq!(host_name_of("example.org").as_str(), "example.org");
    assert_eq!(host_name_of("[fd00::1]:443").as_str(), "[fd00::1]");
}

#[test]
fn test_query_of() {
    assert_eq!(query_of("/a?b=c"), Some(String::from("b=c")));
    assert_eq!(query_of("/a"), None);
    assert_eq!(query_of("/a?"), Some(String::new()));
}

#[test]
fn test_create_secret_shape() {
    let s = create_secret();
    assert_eq!(s.len(), 16);
    assert!(s.chars().all(|c| c.is_ascii_alphanumeric()));
    let t = create_secret();
    assert_eq!(t.len(), 16);
}
