use loom::config::IpFilterConfig;
use loom::ip_addr::IpAddr;
use loom::ip_filter::{
    make_block, parse_entry, parse_mode, read_list, EntryFault, IpEntry, IpFilter, IpFilterError,
};

fn v4(a: u8, b: u8, c: u8, d: u8) -> IpAddr {
    IpAddr::V4(u32::from_be_bytes([a, b, c, d]))
}

fn config(enable: bool, mode: &str) -> IpFilterConfig {
    IpFilterConfig {
        enable,
        mode: mode.to_string(),
        iplist_path: "/etc/loom/ips".to_string(),
    }
}

fn fault(line: &str) -> EntryFault {
    parse_entry(line).unwrap_err().fault
}

#[test]
fn single_addresses() {
    assert_eq!(parse_entry(" 10.0.0.1\t").unwrap(), IpEntry::Single(v4(10, 0, 0, 1)));
    assert_eq!(parse_entry("::1").unwrap(), IpEntry::Single(IpAddr::V6(1)));
    let e = parse_entry("10.0.0.1").unwrap();
    assert!(e.matches(&v4(10, 0, 0, 1)));
    assert!(!e.matches(&v4(10, 0, 0, 2)));
    assert!(!e.matches(&IpAddr::V6(0x0a00_0001)));
}

#[test]
fn v4_blocks() {
    assert_eq!(
        parse_entry("192.168.17.5/16").unwrap(),
        IpEntry::Cidr { base: 0xc0a8_0000, mask: 0xffff_0000, is_v6: false }
    );
    let e = parse_entry("192.168.17.5/16").unwrap();
    assert!(e.matches(&v4(192, 168, 0, 0)));
    assert!(e.matches(&v4(192, 168, 255, 255)));
    assert!(!e.matches(&v4(192, 169, 0, 0)));
    assert!(!e.matches(&IpAddr::V6(0xc0a8_0000)));
    let one = parse_entry("10.0.0.1/32").unwrap();
    assert_eq!(one, IpEntry::Cidr { base: 0x0a00_0001, mask: 0xffff_ffff, is_v6: false });
    let half = parse_entry("200.0.0.0/+1").unwrap();
    assert_eq!(half, IpEntry::Cidr { base: 0x8000_0000, mask: 0x8000_0000, is_v6: false });
}

#[test]
fn v6_blocks() {
    let e = parse_entry("2001:db8::1/32").unwrap();
    assert_eq!(
        e,
        IpEntry::Cidr {
            base: 0x2001_0db8u128 << 96,
            mask: 0xffff_ffffu128 << 96,
            is_v6: true
        }
    );
    assert!(e.matches(&IpAddr::V6((0x2001_0db8u128 << 96) + 77)));
    assert!(!e.matches(&IpAddr::V6(0x2001_0db9u128 << 96)));
    let all = parse_entry("::/0").unwrap();
    assert_eq!(all, IpEntry::Cidr { base: 0, mask: 0, is_v6: true });
    assert!(all.matches(&IpAddr::V6(u128::MAX)));
    assert!(!all.matches(&v4(1, 2, 3, 4)));
    let one = parse_entry("::5/128").unwrap();
    assert_eq!(one, IpEntry::Cidr { base: 5, mask: u128::MAX, is_v6: true });
}

#[test]
fn blocks_share_a_prefix() {
    for len in 0..=32u32 {
        let e = make_block(IpAddr::V4(0xabcd_ef01), len);
        for x in [0xabcd_ef01u32, 0xabcd_ef00, 0xabcd_0000, 0xab00_0000, 0x8000_0000, 0, u32::MAX] {
            let shared = (x ^ 0xabcd_ef01).leading_zeros() >= len;
            assert_eq!(e.matches(&IpAddr::V4(x)), shared);
        }
    }
    for len in [0u32, 1, 63, 64, 65, 127, 128] {
        let a = 0x2001_0db8_0000_0000_8000_0000_0000_0001u128;
        let e = make_block(IpAddr::V6(a), len);
        for x in [a, a ^ 1, a ^ 2, a ^ (1 << 63), a ^ (1 << 64), a ^ (1 << 127), 0] {
            assert_eq!(e.matches(&IpAddr::V6(x)), (x ^ a).leading_zeros() >= len);
        }
    }
}

#[test]
fn line_faults() {
    assert_eq!(fault("10.0.0.1/x"), EntryFault::PrefixLength);
    assert_eq!(fault("10.0.0.1/"), EntryFault::PrefixLength);
    assert_eq!(fault("10.0.0.1/8/8"), EntryFault::PrefixLength);
    assert_eq!(fault("10.0.0.1/-1"), EntryFault::PrefixLength);
    assert_eq!(fault("10.0.0.1/4294967296"), EntryFault::PrefixLength);
    assert_eq!(fault("bad/x"), EntryFault::PrefixLength);
    assert_eq!(fault("10.0.0/8"), EntryFault::CidrAddress);
    assert_eq!(fault("10.0.0.1 /8"), EntryFault::CidrAddress);
    assert_eq!(fault("10.0.0.1/33"), EntryFault::V4PrefixTooLong);
    assert_eq!(fault("::/129"), EntryFault::V6PrefixTooLong);
    assert_eq!(fault("example.com"), EntryFault::Address);
    assert_eq!(fault(""), EntryFault::Address);
}

#[test]
fn line_fault_messages() {
    let message = |line: &str| parse_entry(line).unwrap_err().message();
    assert_eq!(message(" 1.2.3.4/x "), "invalid prefix length in '1.2.3.4/x'");
    assert_eq!(message("nope/8"), "invalid IP in CIDR 'nope/8'");
    assert_eq!(message("1.2.3.4/33"), "IPv4 prefix length > 32 in '1.2.3.4/33'");
    assert_eq!(message("::/200"), "IPv6 prefix length > 128 in '::/200'");
    assert_eq!(message("h\u{e9}"), "invalid IP address 'h\u{e9}'");
}

#[test]
fn lists_are_read_line_by_line() {
    let list = "# comment\r\n10.0.0.1\r\n\r\n  # indented\nnope\n 192.168.0.0/24 \n\u{3000}\n::1/x";
    let r = read_list(list);
    assert_eq!(
        r.entries,
        vec![
            IpEntry::Single(v4(10, 0, 0, 1)),
            IpEntry::Cidr { base: 0xc0a8_0000, mask: 0xffff_ff00, is_v6: false },
        ]
    );
    let skipped: Vec<(usize, EntryFault, String)> =
        r.skipped.into_iter().map(|l| (l.number, l.error.fault, l.error.text)).collect();
    assert_eq!(
        skipped,
        vec![
            (5, EntryFault::Address, "nope".to_string()),
            (8, EntryFault::PrefixLength, "::1/x".to_string()),
        ]
    );
}

#[test]
fn empty_lists() {
    for list in ["", "\n", "\n\n", "#", "   "] {
        let r = read_list(list);
        assert!(r.entries.is_empty());
        assert!(r.skipped.is_empty());
    }
}

#[test]
fn comments_and_blank_lines_change_nothing() {
    let a = read_list("10.0.0.1\nbad");
    let b = read_list("10.0.0.1\nbad\n# more\n\n");
    assert_eq!(a.entries, b.entries);
    assert_eq!(a.skipped.len(), b.skipped.len());
    assert_eq!(a.entries.len() + a.skipped.len(), 2);
}

#[test]
fn v4_blocks_of_length_zero_cover_all_v4() {
    for line in ["0.0.0.0/0", " 1.2.3.4/+00 "] {
        let e = parse_entry(line).unwrap();
        assert_eq!(e, IpEntry::Cidr { base: 0, mask: 0, is_v6: false });
        assert!(e.matches(&v4(255, 255, 255, 255)));
        assert!(e.matches(&v4(0, 0, 0, 0)));
        assert!(!e.matches(&IpAddr::V6(0)));
    }
    let list = Ok("0.0.0.0/0\n".to_string());
    let f = IpFilter::load(&config(true, "black"), list).unwrap();
    assert!(!f.is_allowed(&v4(8, 8, 8, 8)));
    assert!(f.is_allowed(&IpAddr::V6(1)));
}

#[test]
fn lines_without_an_entry_do_not_matter() {
    let load = |list: &str| IpFilter::load(&config(true, "white"), Ok(list.to_string())).unwrap();
    let a = load("10.0.0.1\n::/0");
    let b = load("# first\n10.0.0.1\nnope\n\n 1.2.3.4/99\n::/0\n#\n");
    assert_eq!(a.entries, b.entries);
    assert_eq!((a.enabled, a.whitelist), (b.enabled, b.whitelist));
}

#[test]
fn order_and_repetition_of_entries_do_not_matter() {
    let white = IpFilter::load(&config(true, "white"), Ok("::1\n1.2.3.4".to_string())).unwrap();
    let black =
        IpFilter::load(&config(true, "black"), Ok("1.2.3.4\n::1\n::1".to_string())).unwrap();
    for ip in [v4(1, 2, 3, 4), v4(1, 2, 3, 5), IpAddr::V6(1), IpAddr::V6(2)] {
        assert_eq!(white.is_allowed(&ip), !black.is_allowed(&ip));
    }
}

#[test]
fn mode_words() {
    assert_eq!(parse_mode("white"), Some(true));
    assert_eq!(parse_mode("black"), Some(false));
    assert_eq!(parse_mode("White"), None);
    assert_eq!(parse_mode(""), None);
}

#[test]
fn whitelists_let_in_what_is_listed() {
    let list = Ok("10.0.0.0/8\n::1\n".to_string());
    let f = IpFilter::load(&config(true, "white"), list).unwrap();
    assert!(f.enabled && f.whitelist);
    assert!(f.is_allowed(&v4(10, 9, 8, 7)));
    assert!(f.is_allowed(&IpAddr::V6(1)));
    assert!(!f.is_allowed(&v4(11, 0, 0, 0)));
    assert!(!f.is_allowed(&IpAddr::V6(2)));
}

#[test]
fn blacklists_are_the_opposite() {
    let white = IpFilter::load(&config(true, "white"), Ok("10.0.0.0/8".to_string())).unwrap();
    let black = IpFilter::load(&config(true, "black"), Ok("10.0.0.0/8".to_string())).unwrap();
    assert!(!black.whitelist);
    for ip in [v4(10, 0, 0, 1), v4(1, 1, 1, 1), IpAddr::V6(0x0a00_0001)] {
        assert_eq!(white.is_allowed(&ip), !black.is_allowed(&ip));
    }
}

#[test]
fn modes_are_trimmed_and_lowered() {
    let f = IpFilter::load(&config(true, "  WHITE\n"), Ok(String::new())).unwrap();
    assert!(f.whitelist);
    let f = IpFilter::load(&config(true, "\tBlAcK "), Ok(String::new())).unwrap();
    assert!(!f.whitelist);
    // The Kelvin sign is a capital of the letter k.
    let f = IpFilter::load(&config(true, "BLAC\u{212a}"), Ok(String::new())).unwrap();
    assert!(!f.whitelist);
}

#[test]
fn wrong_modes_are_refused() {
    let e = IpFilter::load(&config(true, " GRAY "), Ok(String::new())).unwrap_err();
    assert!(matches!(&e, IpFilterError::Mode(m) if m == "gray"));
    assert_eq!(e.message(), "IPFilter.mode must be 'white' or 'black', got 'gray'");
    // The mode is looked at before the list.
    let e = IpFilter::load(&config(true, "gray"), Err("gone".to_string())).unwrap_err();
    assert!(matches!(e, IpFilterError::Mode(_)));
}

#[test]
fn unreadable_lists_are_refused() {
    let e = IpFilter::load(&config(true, "white"), Err("no such file".to_string())).unwrap_err();
    assert_eq!(e.message(), "failed to read iplist '/etc/loom/ips': no such file");
}

#[test]
fn disabled_filters_let_everyone_in() {
    let f = IpFilter::load(&config(false, "gray"), Err("gone".to_string())).unwrap();
    assert!(!f.enabled && f.whitelist && f.entries.is_empty());
    assert!(f.is_allowed(&v4(1, 2, 3, 4)));
    let d = IpFilter::default();
    assert!(!d.enabled && d.whitelist && d.entries.is_empty());
    assert!(d.is_allowed(&IpAddr::V6(0)));
}

#[test]
fn lists_are_wanted_for_good_modes_only() {
    assert!(IpFilter::wants_list(&config(true, "White")));
    assert!(IpFilter::wants_list(&config(true, "black")));
    assert!(!IpFilter::wants_list(&config(true, "gray")));
    assert!(!IpFilter::wants_list(&config(false, "white")));
}
