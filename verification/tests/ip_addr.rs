use loom::ip_addr::{parse_ip, IpAddr};

fn ip(s: &str) -> Option<IpAddr> {
    let chars: Vec<char> = s.chars().collect();
    parse_ip(&chars)
}

/// The same text read by another parser of addresses.
fn reference(s: &str) -> Option<IpAddr> {
    match rustls::pki_types::IpAddr::try_from(s) {
        Ok(rustls::pki_types::IpAddr::V4(a)) => {
            let octets: &[u8; 4] = a.as_ref();
            Some(IpAddr::V4(u32::from_be_bytes(*octets)))
        }
        Ok(rustls::pki_types::IpAddr::V6(a)) => {
            let octets: &[u8; 16] = a.as_ref();
            Some(IpAddr::V6(u128::from_be_bytes(*octets)))
        }
        Err(_) => None,
    }
}

#[test]
fn dotted_decimal() {
    assert_eq!(ip("192.168.1.10"), Some(IpAddr::V4(0xc0a8_010a)));
    assert_eq!(ip("0.0.0.0"), Some(IpAddr::V4(0)));
    assert_eq!(ip("255.255.255.255"), Some(IpAddr::V4(0xffff_ffff)));
}

#[test]
fn dotted_decimal_faults() {
    for s in [
        "", "1", "1.2.3", "1.2.3.4.5", "1.2.3.256", "01.2.3.4", "1.2.3.04", "1..3.4", "1.2.3.",
        ".1.2.3", "+1.2.3.4", "1.2.3.4 ", " 1.2.3.4", "a.b.c.d", "1.2.3.0001", "1,2,3,4",
    ] {
        assert_eq!(ip(s), None, "{}", s);
    }
}

#[test]
fn colon_groups() {
    assert_eq!(ip("::"), Some(IpAddr::V6(0)));
    assert_eq!(ip("::1"), Some(IpAddr::V6(1)));
    assert_eq!(ip("1::"), Some(IpAddr::V6(1u128 << 112)));
    assert_eq!(
        ip("2001:db8::ff00:42:8329"),
        Some(IpAddr::V6(0x2001_0db8_0000_0000_0000_ff00_0042_8329))
    );
    assert_eq!(
        ip("2001:DB8:0:0:0:FF00:42:8329"),
        Some(IpAddr::V6(0x2001_0db8_0000_0000_0000_ff00_0042_8329))
    );
    assert_eq!(ip("::ffff:1.2.3.4"), Some(IpAddr::V6(0xffff_0102_0304)));
    assert_eq!(
        ip("1:2:3:4:5:6:7.8.9.10"),
        Some(IpAddr::V6(0x0001_0002_0003_0004_0005_0006_0708_090a))
    );
}

#[test]
fn agrees_with_another_parser() {
    for s in [
        "1.2.3.4",
        "0.0.0.0",
        "00.0.0.0",
        "1.2.3.4.",
        "256.1.1.1",
        "999.1.1.1",
        "::",
        ":::",
        "::1::",
        "1::2::3",
        ":1",
        "1:",
        ":",
        "1:2:3:4:5:6:7:8",
        "1:2:3:4:5:6:7",
        "1:2:3:4:5:6:7:8:9",
        "1:2:3:4:5:6:7::",
        "::2:3:4:5:6:7:8",
        "1:2:3:4::5:6:7:8",
        "1:2:3:4::5:6:7",
        "12345::",
        "0000::",
        "00000::",
        "g::",
        "::1.2.3.4",
        "1::1.2.3.4",
        "1:2:3:4:5:6:1.2.3.4",
        "1:2:3:4:5:6:7:1.2.3.4",
        "1.2.3.4::",
        "::1.2.3.4:5",
        "1:2:3:4:5:1.2.3.4",
        "::1.2.3",
        "::01.2.3.4",
        "::1.2.3.4.5",
        "1:2:3:4:5:6:7:",
        "fe80::1%eth0",
        "[::1]",
        "::ffff:255.255.255.255",
        "ABCD:EF01:2345:6789:ABCD:EF01:2345:6789",
        "::\u{661}",
        "\u{661}.2.3.4",
        "1::2:3:4:5:6:1.2.3.4",
        "::3:4:5:6:7:1.2.3.4",
        "1:2::1.2.3.4",
        "1:2:3:4:5::1.2.3.4",
        "1:2:3:4:5:6::1.2.3.4",
        "1:2:3:4:5:6:7::8",
        "",
        " ",
        "::1 ",
    ] {
        assert_eq!(ip(s), reference(s), "{}", s);
    }
}
