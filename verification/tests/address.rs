//! Internet addresses and how they are written.
use meridian_relay::daemon::address::TcpAddress;

fn v4(text: &str) -> Option<(u32, u16)> {
    match TcpAddress::parse(text) {
        Some(TcpAddress::V4 { bits, port }) => Some((bits, port)),
        _ => None,
    }
}

fn v6(text: &str) -> Option<(u128, u16, u32)> {
    match TcpAddress::parse(text) {
        Some(TcpAddress::V6 { bits, port, scope_id }) => Some((bits, port, scope_id)),
        _ => None,
    }
}

fn host(text: &str) -> Option<u128> {
    v6(&format!("[{text}]:0")).map(|(bits, _, _)| bits)
}

fn shown(bits: u128) -> String {
    let text = TcpAddress::V6 { bits, port: 0, scope_id: 0 }.to_text();
    text.strip_prefix('[').unwrap().strip_suffix("]:0").unwrap().to_string()
}

#[test]
fn dotted_addresses_are_read() {
    assert_eq!(v4("127.0.0.1:27015"), Some((0x7F00_0001, 27015)));
    assert_eq!(v4("255.254.1.0:65535"), Some((0xFFFE_0100, 65535)));
    assert_eq!(v4("0.0.0.0:0"), Some((0, 0)));
    assert_eq!(v4("1.2.3.4:0080"), Some((0x0102_0304, 80)));
}

#[test]
fn other_dotted_texts_are_refused() {
    for text in [
        "", ":", "1.2.3.4", "1.2.3.4:", "1.2.3:80", "1.2.3.4.5:80", "1.2.3.256:80", "1.2.3.04:80",
        "1.2.3.1000:80", "1.2.3.4:65536", "1.2.3.4:+80", "1.2.3.4:8o", "+1.2.3.4:80", "1..3.4:80",
        " 1.2.3.4:80", "1.2.3.4:80 ", "localhost:80", "1.2.3.4:80:1", "1.2.3.4:99999999999999",
    ] {
        assert_eq!(TcpAddress::parse(text), None, "{text}");
    }
}

#[test]
fn groups_are_read() {
    assert_eq!(host("::"), Some(0));
    assert_eq!(host("::1"), Some(1));
    assert_eq!(host("0:0:0:0:0:0:0:1"), Some(1));
    assert_eq!(host("1::"), Some(1 << 112));
    assert_eq!(host("2001:DB8::ff00:42:8329"), Some(0x2001_0db8_0000_0000_0000_ff00_0042_8329));
    assert_eq!(host("1:2:3:4:5:6:7::"), Some(0x0001_0002_0003_0004_0005_0006_0007_0000));
    assert_eq!(host("::2:3:4:5:6:7:8"), Some(0x0000_0002_0003_0004_0005_0006_0007_0008));
    assert_eq!(host("::ffff:192.0.2.128"), Some(0xFFFF_C000_0280));
    assert_eq!(host("1:2:3:4:5:6:7.8.9.10"), Some(0x0001_0002_0003_0004_0005_0006_0708_090A));
    assert_eq!(host("::1.2.3.4"), Some(0x0102_0304));
}

#[test]
fn other_groups_are_refused() {
    for text in [
        "", ":", ":::", "1", "1:2:3:4:5:6:7", "1:2:3:4:5:6:7:8:9", "1:2:3:4:5:6:7:8::", "1::2::3",
        "12345::", "::g", "1.2.3.4::", "1.2.3.4", "::1.2.3", "::1.2.3.4:5", "::01.2.3.4", ":1::",
        "1::2:", "1:2:3:4:5:6:7:1.2.3.4", "::1 ",
    ] {
        assert_eq!(host(text), None, "{text}");
    }
}

#[test]
fn scopes_and_ports_are_read() {
    assert_eq!(v6("[fe80::1%3]:62078"), Some((0xfe80 << 112 | 1, 62078, 3)));
    assert_eq!(v6("[::1%4294967295]:1"), Some((1, 1, u32::MAX)));
    assert_eq!(v6("[::1]:1"), Some((1, 1, 0)));
    for text in [
        "[::1%]:1", "[::1%4294967296]:1", "[::1%eth0]:1", "[::1]", "[::1]:", "::1:1", "[::1:1",
        "[::1]1", "[::1]:65536", "[::1]:1]", "[[::1]]:1", "[1.2.3.4]:1",
    ] {
        assert_eq!(TcpAddress::parse(text), None, "{text}");
    }
}

#[test]
fn addresses_are_written_short() {
    assert_eq!(shown(0), "::");
    assert_eq!(shown(1), "::1");
    assert_eq!(shown(1 << 112), "1::");
    assert_eq!(shown(0x2001_0db8_0000_0000_0001_0000_0000_0001), "2001:db8::1:0:0:1");
    assert_eq!(shown(0x2001_0db8_0000_0001_0001_0001_0001_0001), "2001:db8:0:1:1:1:1:1");
    assert_eq!(shown(0x2001_0000_0000_0001_0000_0000_0000_0001), "2001:0:0:1::1");
    assert_eq!(shown(0xFFFF_C000_0280), "::ffff:192.0.2.128");
    assert_eq!(shown(u128::MAX), "ffff:ffff:ffff:ffff:ffff:ffff:ffff:ffff");
    let scoped = TcpAddress::V6 { bits: 1, port: 9, scope_id: 3 };
    assert_eq!(scoped.to_text(), "[::1%3]:9");
    assert_eq!(TcpAddress::V4 { bits: 0x0A00_00FE, port: 80 }.to_text(), "10.0.0.254:80");
}

#[test]
fn written_addresses_read_back() {
    for bits in [0, 1, 0xFFFF, 0x1_0000, 0xFFFF_0000_0000, 0xFFFF_7F00_0001, 1 << 64, u128::MAX] {
        for scope_id in [0, 1, u32::MAX] {
            let a = TcpAddress::V6 { bits, port: 443, scope_id };
            assert_eq!(TcpAddress::parse(&a.to_text()), Some(a));
        }
    }
    for bits in [0, 1, 0x0A0B_0C0D, 0x7F00_0001, u32::MAX] {
        for port in [0, 9, 10, 65535] {
            let a = TcpAddress::V4 { bits, port };
            assert_eq!(TcpAddress::parse(&a.to_text()), Some(a));
        }
    }
}
