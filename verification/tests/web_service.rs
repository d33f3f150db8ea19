use loom::config::{SubRule, WebServer};
use loom::ip_addr::IpAddr;
use loom::ip_filter::{IpEntry, IpFilter};
use loom::web_service::{
    backend_url, build_routes, find_route, handle_request, host_name, is_sub_rule_key, on_accept,
    plan, proxy_step, redirect_to_https, start_backend, start_request, tls_paths, AcceptAction,
    Accepted, CertWatch, MissingPath, ProxyAction, ProxyEvent, ProxyState, Reply, RouteEntry,
    RouteTable, WATCH_INTERVAL_SECS,
};

fn rule(name: &str, enable: bool, front: &str, port: u16) -> (String, SubRule) {
    (
        name.to_string(),
        SubRule {
            name: "site".to_string(),
            enable,
            front_web: front.to_string(),
            backend_address: "127.0.0.1".to_string(),
            backend_port: port,
        },
    )
}

fn server(rules: Vec<(String, SubRule)>) -> WebServer {
    WebServer {
        enable: true,
        listen_port: 443,
        tls_enable: true,
        crt_path: Some("/c".to_string()),
        key_path: Some("/k".to_string()),
        sub_rules: rules,
    }
}

fn routes() -> RouteTable {
    build_routes(&server(vec![
        rule("sub-rule1", true, "A.Example.com", 8001),
        rule("sub-rule2", false, "b.example.com", 8002),
        rule("enable", true, "c.example.com", 8003),
        rule("sub-rule3", true, "B\u{dc}CHER.example", 8004),
    ]))
}

fn port(routes: &RouteTable, host: &str) -> Option<u16> {
    find_route(routes, host).map(|r| r.backend_port)
}

fn reply(r: (ProxyState, ProxyAction)) -> Reply {
    assert!(matches!(r.0, ProxyState::Done));
    match r.1 {
        ProxyAction::Answer(reply) => reply,
        other => panic!("not an answer: {:?}", other),
    }
}

#[test]
fn routes_by_host() {
    let r = routes();
    assert_eq!(port(&r, "a.example.com"), Some(8001));
    assert_eq!(port(&r, "A.Example.com"), None);
    assert_eq!(port(&r, "b.example.com"), None);
    assert_eq!(port(&r, "c.example.com"), None);
    assert_eq!(port(&r, "b\u{fc}cher.example"), Some(8004));
    assert_eq!(port(&r, ""), None);
}

#[test]
fn later_rules_for_a_host_hold() {
    let r = build_routes(&server(vec![
        rule("one", true, "a.example.com", 1),
        rule("two", true, "A.EXAMPLE.COM", 2),
        rule("three", false, "a.example.com", 3),
    ]));
    assert_eq!(port(&r, "a.example.com"), Some(2));
}

#[test]
fn rule_names() {
    assert!(is_sub_rule_key("sub-rule1"));
    for key in ["enable", "listen_port", "tls_enable", "crt_path", "key_path"] {
        assert!(!is_sub_rule_key(key));
    }
}

#[test]
fn host_names() {
    assert_eq!(host_name("a.example.com:8443"), "a.example.com");
    assert_eq!(host_name("a.example.com"), "a.example.com");
    assert_eq!(host_name(":80"), "");
    assert_eq!(host_name("[::1]:80"), "[::1]");
    assert_eq!(host_name("[::1]"), "[::1]");
    assert_eq!(host_name("[]:80"), "[]");
    assert_eq!(host_name("[a:80"), "[a");
    assert_eq!(host_name("a]:80"), "a]");
    assert_eq!(host_name("[a]b"), "[a]b");
    assert_eq!(host_name("[a]b:80"), "[a]b");
    assert_eq!(host_name("[a:b]c:80"), "[a");
    assert_eq!(host_name(""), "");
}

#[test]
fn redirects() {
    let r = redirect_to_https(Some("a.example.com:80"), Some("/x?y=1"));
    assert_eq!(r.status, 301);
    assert_eq!(r.location.as_deref(), Some("https://a.example.com/x?y=1"));
    assert_eq!(r.body, "");
    let r = redirect_to_https(Some("[::1]:80"), Some("/"));
    assert_eq!((r.status, r.location.as_deref()), (301, Some("https://[::1]/")));
    let r = redirect_to_https(None, None);
    assert_eq!(r.location.as_deref(), Some("https://localhost/"));
}

#[test]
fn requests_without_a_host_are_bad() {
    let r = reply(handle_request(None, Some("/"), &routes()));
    assert_eq!((r.status, r.body.as_str(), r.location), (400, "Missing Host header", None));
}

#[test]
fn unknown_hosts_are_not_found() {
    let r = reply(handle_request(Some("B.Example.com:443"), Some("/"), &routes()));
    assert_eq!(r.status, 404);
    assert_eq!(r.body, "No backend configured for host: b.example.com");
    let r = reply(handle_request(Some("[2001:DB8::1]:443"), Some("/"), &routes()));
    assert_eq!(r.body, "No backend configured for host: [2001:db8::1]");
}

#[test]
fn host_names_match_in_any_case() {
    for host in ["a.example.com", "A.EXAMPLE.COM", "a.Example.Com:443"] {
        let (state, action) = handle_request(Some(host), Some("/p?q"), &routes());
        assert!(matches!(action, ProxyAction::ReadBody));
        match state {
            ProxyState::ReadingBody(b) => {
                assert_eq!(b.addr, "127.0.0.1:8001");
                assert_eq!(b.uri.to_string(), "http://127.0.0.1:8001/p?q");
                assert_eq!(b.uri.path(), "/p");
                assert_eq!(b.uri.port_u16(), Some(8001));
            }
            other => panic!("{:?}", other),
        }
    }
    let (state, _) = handle_request(Some("B\u{dc}cher.example"), None, &routes());
    assert!(matches!(state, ProxyState::ReadingBody(b) if b.uri.path() == "/"));
}

#[test]
fn lowered_hosts_are_looked_up_as_they_are() {
    let r = reply(start_request(Some("A.example.com".to_string()), None, &routes()));
    assert_eq!(r.status, 404);
    let (_, action) = start_request(Some("a.example.com".to_string()), None, &routes());
    assert!(matches!(action, ProxyAction::ReadBody));
    assert_eq!(reply(start_request(None, None, &routes())).status, 400);
}

#[test]
fn bad_backend_addresses_are_answered() {
    let r = build_routes(&server(vec![(
        "r".to_string(),
        SubRule {
            name: "x".to_string(),
            enable: true,
            front_web: "a".to_string(),
            backend_address: "not a host".to_string(),
            backend_port: 1,
        },
    )]));
    let r = reply(handle_request(Some("a"), Some("/"), &r));
    assert_eq!((r.status, r.body.as_str()), (500, "Bad backend URI"));
    let route = RouteEntry { backend_address: "h".to_string(), backend_port: 5 };
    assert_eq!(reply(start_backend(&route, None)).status, 500);
    assert_eq!(backend_url(&route, Some("/a?b")), "http://h:5/a?b");
    assert_eq!(backend_url(&route, None), "http://h:5/");
}

fn started() -> ProxyState {
    handle_request(Some("a.example.com"), Some("/x"), &routes()).0
}

fn connected() -> ProxyState {
    proxy_step(proxy_step(started(), ProxyEvent::BodyRead(true)).0, ProxyEvent::Connected(Ok(())))
        .0
}

fn sending() -> ProxyState {
    proxy_step(connected(), ProxyEvent::HandsShaken(true)).0
}

#[test]
fn requests_that_succeed_are_relayed() {
    let (state, action) = proxy_step(started(), ProxyEvent::BodyRead(true));
    assert!(matches!(action, ProxyAction::Connect(addr) if addr == "127.0.0.1:8001"));
    let (state, action) = proxy_step(state, ProxyEvent::Connected(Ok(())));
    assert!(matches!(action, ProxyAction::ShakeHands));
    let (state, action) = proxy_step(state, ProxyEvent::HandsShaken(true));
    assert!(matches!(action, ProxyAction::Send(uri) if uri == "http://127.0.0.1:8001/x"));
    let (state, action) = proxy_step(state, ProxyEvent::Answered(Ok(())));
    assert!(matches!(action, ProxyAction::ReadResponse));
    let (state, action) = proxy_step(state, ProxyEvent::ResponseRead(true));
    assert!(matches!(action, ProxyAction::Relay));
    assert!(matches!(state, ProxyState::Done));
}

#[test]
fn failures_are_answered_with_bad_gateway() {
    let refused = || Err("refused".to_string());
    let replies = [
        reply(proxy_step(started(), ProxyEvent::BodyRead(false))),
        reply(proxy_step(
            proxy_step(started(), ProxyEvent::BodyRead(true)).0,
            ProxyEvent::Connected(refused()),
        )),
        reply(proxy_step(connected(), ProxyEvent::HandsShaken(false))),
        reply(proxy_step(sending(), ProxyEvent::Answered(refused()))),
        reply(proxy_step(
            proxy_step(sending(), ProxyEvent::Answered(Ok(()))).0,
            ProxyEvent::ResponseRead(false),
        )),
    ];
    let bodies: Vec<&str> = replies.iter().map(|r| r.body.as_str()).collect();
    assert_eq!(
        bodies,
        vec![
            "Failed to read request body",
            "Cannot connect to backend: refused",
            "Backend handshake failed",
            "Backend error: refused",
            "Failed to read backend response",
        ]
    );
    assert!(replies.iter().all(|r| r.status == 502 && r.location.is_none()));
}

#[test]
fn blocked_peers_are_dropped() {
    let filter = IpFilter {
        enabled: true,
        whitelist: false,
        entries: vec![IpEntry::Single(IpAddr::V4(7))],
    };
    assert_eq!(on_accept(&filter, Accepted::Peer(IpAddr::V4(7))), AcceptAction::Block);
    assert_eq!(on_accept(&filter, Accepted::Peer(IpAddr::V4(8))), AcceptAction::Serve);
    assert_eq!(on_accept(&filter, Accepted::Failed), AcceptAction::Report);
}

#[test]
fn port_80_is_redirected_for_tls_on_443_only() {
    for (tls, listen, redirect) in
        [(true, 443, true), (true, 8443, false), (false, 443, false), (false, 80, false)]
    {
        let p = plan(&WebServer { tls_enable: tls, listen_port: listen, ..server(vec![]) });
        assert_eq!((p.tls, p.redirect), (tls, redirect));
        assert_eq!(p.listen_addr, format!("0.0.0.0:{}", listen));
    }
}

#[test]
fn tls_servers_need_both_paths() {
    assert_eq!(tls_paths(&server(vec![])), Ok(("/c".to_string(), "/k".to_string())));
    let no_crt = WebServer { crt_path: None, key_path: None, ..server(vec![]) };
    assert_eq!(tls_paths(&no_crt), Err(MissingPath::Certificate));
    let no_key = WebServer { key_path: None, ..server(vec![]) };
    assert_eq!(tls_paths(&no_key), Err(MissingPath::Key));
    assert_eq!(
        MissingPath::Certificate.message("web"),
        "crt_path missing for TLS server [web]"
    );
    assert_eq!(MissingPath::Key.message("web"), "key_path missing for TLS server [web]");
}

#[test]
fn changed_certificates_are_loaded_again() {
    let mut watch = CertWatch::new(Some(1));
    assert!(!watch.needs_reload(Some(1)));
    assert!(watch.needs_reload(Some(2)));
    watch.reloaded(Some(2), false);
    assert!(watch.needs_reload(Some(2)));
    watch.reloaded(Some(2), true);
    assert!(!watch.needs_reload(Some(2)));
    assert!(watch.needs_reload(Some(1)));
    assert!(watch.needs_reload(None));
    let unread = CertWatch::new(None);
    assert!(!unread.needs_reload(None));
    assert!(unread.needs_reload(Some(0)));
    assert_eq!(WATCH_INTERVAL_SECS, 60);
}
