use loom::config::{
    is_reserved_name, Config, FieldValue, MissingField, PortForwardServer, SubRule, WebServer,
};
use loom::logger::{
    default_log_level, filter_text, level_or_default, log_directory, log_file, log_file_name,
    safe_filter,
};

fn rule(front: &str, port: u16) -> SubRule {
    SubRule {
        name: "site".to_string(),
        enable: true,
        front_web: front.to_string(),
        backend_address: "127.0.0.1".to_string(),
        backend_port: port,
    }
}

fn field(name: &str, value: FieldValue) -> (String, FieldValue) {
    (name.to_string(), value)
}

fn section() -> Vec<(String, FieldValue)> {
    vec![
        field("enable", FieldValue::Bool(true)),
        field("listen_port", FieldValue::Uint(443)),
        field("tls_enable", FieldValue::Bool(true)),
        field("crt_path", FieldValue::Text("/c".to_string())),
        field("key_path", FieldValue::Text("/k".to_string())),
        field("sub-rule1", FieldValue::Rule(rule("a.example.com", 8001))),
        field("note", FieldValue::Text("not a route".to_string())),
        field("sub-rule2", FieldValue::Rule(rule("b.example.com", 8002))),
    ]
}

fn without(name: &str) -> Vec<(String, FieldValue)> {
    section().into_iter().filter(|f| f.0 != name).collect()
}

#[test]
fn sections_are_read() {
    let w = WebServer::from_fields(&section()).unwrap();
    assert!(w.enable && w.tls_enable);
    assert_eq!(w.listen_port, 443);
    assert_eq!(w.crt_path.as_deref(), Some("/c"));
    assert_eq!(w.key_path.as_deref(), Some("/k"));
    let rules: Vec<(&str, u16)> =
        w.sub_rules.iter().map(|(n, r)| (n.as_str(), r.backend_port)).collect();
    assert_eq!(rules, vec![("sub-rule1", 8001), ("sub-rule2", 8002)]);
}

#[test]
fn ports_keep_their_lowest_bits() {
    let mut fields = without("listen_port");
    fields.push(field("listen_port", FieldValue::Uint(65536 + 80)));
    assert_eq!(WebServer::from_fields(&fields).unwrap().listen_port, 80);
    let mut fields = without("listen_port");
    fields.push(field("listen_port", FieldValue::Uint(u64::MAX)));
    assert_eq!(WebServer::from_fields(&fields).unwrap().listen_port, 65535);
}

#[test]
fn missing_fields_are_named() {
    let missing = |name: &str| WebServer::from_fields(&without(name)).unwrap_err();
    assert_eq!(missing("enable"), MissingField::Enable);
    assert_eq!(missing("listen_port"), MissingField::ListenPort);
    assert_eq!(missing("tls_enable"), MissingField::TlsEnable);
    assert_eq!(missing("enable").name(), "enable");
    assert_eq!(missing("listen_port").name(), "listen_port");
    assert_eq!(missing("tls_enable").name(), "tls_enable");
    assert_eq!(WebServer::from_fields(&vec![]).unwrap_err(), MissingField::Enable);
}

#[test]
fn fields_of_the_wrong_kind_are_missing() {
    let mut fields = without("enable");
    fields.push(field("enable", FieldValue::Text("true".to_string())));
    assert_eq!(WebServer::from_fields(&fields).unwrap_err(), MissingField::Enable);
    let mut fields = without("listen_port");
    fields.push(field("listen_port", FieldValue::Other));
    assert_eq!(WebServer::from_fields(&fields).unwrap_err(), MissingField::ListenPort);
    let mut fields = without("tls_enable");
    fields.push(field("tls_enable", FieldValue::Rule(rule("x", 1))));
    assert_eq!(WebServer::from_fields(&fields).unwrap_err(), MissingField::TlsEnable);
}

#[test]
fn paths_may_be_absent() {
    let fields: Vec<(String, FieldValue)> =
        without("crt_path").into_iter().filter(|f| f.0 != "key_path").collect();
    let w = WebServer::from_fields(&fields).unwrap();
    assert_eq!(w.crt_path, None);
    assert_eq!(w.key_path, None);
    let mut fields = without("crt_path");
    fields.push(field("crt_path", FieldValue::Bool(true)));
    assert_eq!(WebServer::from_fields(&fields).unwrap().crt_path, None);
}

#[test]
fn reserved_names_are_no_routes() {
    let mut fields = without("crt_path");
    fields.push(field("crt_path", FieldValue::Rule(rule("c.example.com", 3))));
    let w = WebServer::from_fields(&fields).unwrap();
    assert!(w.sub_rules.iter().all(|(n, _)| n != "crt_path"));
    assert_eq!(w.sub_rules.len(), 2);
    for name in ["enable", "listen_port", "tls_enable", "crt_path", "key_path"] {
        assert!(is_reserved_name(name));
    }
    for name in ["", "Enable", "enable ", "sub-rule1", "name"] {
        assert!(!is_reserved_name(name));
    }
}

fn empty_config() -> Config {
    Config { log_level: None, log_file: None, ssl: None, port_forward: None, web_services: None }
}

#[test]
fn log_settings_have_defaults() {
    let c = empty_config();
    assert_eq!(default_log_level(), "info");
    assert_eq!(log_file(&c), "/tmp/loom.log");
    let c = Config {
        log_level: Some("debug".to_string()),
        log_file: Some("/var/log/loom.log".to_string()),
        ..empty_config()
    };
    assert_eq!(filter_text(&c), "debug");
    assert_eq!(log_file(&c), "/var/log/loom.log");
}

#[test]
fn levels_that_are_no_filter_give_way() {
    let text = |level: &str| {
        let c = Config { log_level: Some(level.to_string()), ..empty_config() };
        filter_text(&c).to_string()
    };
    assert_eq!(filter_text(&empty_config()), "info");
    assert_eq!(text("debug"), "debug");
    assert_eq!(text("loom=trace,warn"), "loom=trace,warn");
    assert_eq!(text(""), "");
    assert_eq!(text("loom=loud"), "info");
    assert_eq!(text("a=b=c"), "info");
    assert_eq!(level_or_default("x", true), "x");
    assert_eq!(level_or_default("x", false), "info");
}

#[test]
fn levels_that_the_parser_cannot_cut_give_way() {
    let text = |level: &str| {
        let c = Config { log_level: Some(level.to_string()), ..empty_config() };
        filter_text(&c).to_string()
    };
    for level in [" \u{e9}\u{e9}=info", "\u{3000}a=info", "info, \u{e9}[x]", "\t{\u{e9}"] {
        assert!(!safe_filter(level));
        assert_eq!(text(level), "info");
    }
    // Each of these lacks one of the things that it takes.
    for level in ["\u{e9}\u{e9}=info", " a=info", " \u{e9}\u{e9}", "", ",", "warn,\u{e9}=info"] {
        assert!(safe_filter(level));
        text(level);
    }
    assert_eq!(text("\u{e9}\u{e9}=info"), "\u{e9}\u{e9}=info");
    assert_eq!(text(" \u{e9}\u{e9}"), " \u{e9}\u{e9}");
}

#[test]
fn log_paths_have_defaults() {
    assert_eq!(log_directory(Some("/var/log")), "/var/log");
    assert_eq!(log_directory(Some("")), "");
    assert_eq!(log_directory(None), "/tmp");
    assert_eq!(log_file_name(Some("x.log")), "x.log");
    assert_eq!(log_file_name(None), "loom.log");
}

#[test]
fn only_enabled_sections_are_started() {
    let forward = |enable: bool, port: u16| PortForwardServer {
        enable,
        listen_port: port,
        forward_address: "h".to_string(),
        forward_port: 1,
    };
    let web = |enable: bool| WebServer {
        enable,
        ..WebServer::from_fields(&section()).unwrap()
    };
    let c = Config {
        port_forward: Some(vec![
            ("a".to_string(), forward(true, 1)),
            ("b".to_string(), forward(false, 2)),
            ("c".to_string(), forward(true, 3)),
        ]),
        web_services: Some(vec![("x".to_string(), web(false)), ("y".to_string(), web(true))]),
        ..empty_config()
    };
    let ports: Vec<u16> = c.enabled_forwards().iter().map(|f| f.1.listen_port).collect();
    assert_eq!(ports, vec![1, 3]);
    let names: Vec<&str> = c.enabled_services().iter().map(|s| s.0.as_str()).collect();
    assert_eq!(names, vec!["y"]);
    assert!(empty_config().enabled_forwards().is_empty());
    assert!(empty_config().enabled_services().is_empty());
}
