use loom::config::PortForwardServer;
use loom::port_forward::{listen_addr, on_accept, socket_text, target, Accepted, ForwardAction};
use loom::text::{
    chars_of, decimal_text, find, is_whitespace, parse_number, parse_unsigned, same_text, split,
    string_of, sub_chars, trim, trim_chars,
};

#[test]
fn white_space_is_that_of_unicode() {
    for n in 0..=0x10_ffffu32 {
        if let Some(c) = char::from_u32(n) {
            assert_eq!(is_whitespace(c), c.is_whitespace(), "{:x}", n);
        }
    }
}

#[test]
fn trimming() {
    for s in ["", " ", "a", " a ", "\u{3000}a b\u{85}\n", "\t\r\n", "a\u{feff} "] {
        assert_eq!(trim(s), s.trim());
        assert_eq!(trim(trim(s)), trim(s));
        assert_eq!(string_of(&trim_chars(&chars_of(s))), s.trim());
    }
}

#[test]
fn pieces_between_separators() {
    for s in ["", ".", "a", "a.b", ".a..b.", "\u{e9}.\u{1f980}"] {
        let got: Vec<String> = split(&chars_of(s), '.').iter().map(string_of).collect();
        let want: Vec<&str> = s.split('.').collect();
        assert_eq!(got, want);
    }
}

#[test]
fn searching_and_comparing() {
    assert_eq!(find(&chars_of("a:b:c"), ':'), 1);
    assert_eq!(find(&chars_of("abc"), ':'), 3);
    assert_eq!(find(&chars_of(""), ':'), 0);
    assert!(same_text("a\u{e9}", "a\u{e9}"));
    assert!(!same_text("a", "ab"));
    assert!(!same_text("ab", "aB"));
    assert!(same_text("", ""));
    assert_eq!(sub_chars(&chars_of("hello"), 1, 3), vec!['e', 'l']);
}

#[test]
fn numerals() {
    for s in [
        "0", "7", "007", "+5", "4294967295", "4294967296", "99999999999999999999", "", "+", "-1",
        "1a", "++1", " 1", "1_0",
    ] {
        assert_eq!(parse_unsigned(&chars_of(s)), s.parse::<u32>().ok(), "{}", s);
    }
    assert_eq!(parse_number(&chars_of("xfF"), 1, 16, 255), Some(255));
    assert_eq!(parse_number(&chars_of("100"), 0, 16, 255), None);
    assert_eq!(parse_number(&chars_of("g"), 0, 16, 255), None);
    assert_eq!(parse_number(&chars_of("8"), 0, 8, 255), None);
    assert_eq!(parse_number(&chars_of("x"), 1, 10, 255), None);
}

#[test]
fn decimals() {
    for n in [0u64, 1, 9, 10, 99, 100, 65535, 1234567890, u64::MAX] {
        assert_eq!(decimal_text(n), n.to_string());
    }
}

fn server() -> PortForwardServer {
    PortForwardServer {
        enable: true,
        listen_port: 8080,
        forward_address: "127.0.0.1".to_string(),
        forward_port: 9090,
    }
}

#[test]
fn socket_addresses() {
    assert_eq!(socket_text("localhost", 0), "localhost:0");
    assert_eq!(listen_addr(8080), "0.0.0.0:8080");
    assert_eq!(target(&server()), "127.0.0.1:9090");
}

#[test]
fn connections_are_forwarded() {
    assert!(matches!(
        on_accept(&server(), Accepted::Connection),
        ForwardAction::Forward(to) if to == "127.0.0.1:9090"
    ));
    assert!(matches!(on_accept(&server(), Accepted::Failed), ForwardAction::Report));
}
