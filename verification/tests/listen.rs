use repeater::addr::{IpAddr, Ipv4Addr, Ipv6Addr, SocketAddr, SocketAddrV4, SocketAddrV6};
use repeater::listen::{get_listen_sockaddr, ListenError};
use repeater::parse::{characters, read_ip_addr, read_port, read_socket_addr};
use repeater::text::decimal_text;
use repeater::uri::{authority_text, dotted_text};

fn v4(a: u8, b: u8, c: u8, d: u8, port: u16) -> SocketAddr {
    SocketAddr::V4(SocketAddrV4 { ip: Ipv4Addr { a, b, c, d }, port })
}

fn v6(bits: u128, port: u16, scope_id: u32) -> SocketAddr {
    SocketAddr::V6(SocketAddrV6 { ip: Ipv6Addr { bits }, port, flowinfo: 0, scope_id })
}

fn ip(text: &str) -> Option<IpAddr> {
    read_ip_addr(&characters(text))
}

fn bits(text: &str) -> Option<u128> {
    match ip(text) {
        Some(IpAddr::V6(ip)) => Some(ip.bits),
        _ => None,
    }
}

#[test]
fn the_default_is_any_address() {
    assert_eq!(get_listen_sockaddr(None), Ok(v4(0, 0, 0, 0, 7368)));
}

#[test]
fn an_address_with_a_port_is_taken_as_it_is() {
    assert_eq!(get_listen_sockaddr(Some("127.0.0.1:80")), Ok(v4(127, 0, 0, 1, 80)));
    assert_eq!(get_listen_sockaddr(Some("127.0.0.1:00080")), Ok(v4(127, 0, 0, 1, 80)));
    assert_eq!(get_listen_sockaddr(Some("[::1]:80")), Ok(v6(1, 80, 0)));
    assert_eq!(get_listen_sockaddr(Some("[fe80::1%5]:1")), Ok(v6(0xfe80 << 112 | 1, 1, 5)));
}

#[test]
fn an_address_alone_gets_the_default_port() {
    assert_eq!(get_listen_sockaddr(Some("10.1.2.3")), Ok(v4(10, 1, 2, 3, 7368)));
    assert_eq!(get_listen_sockaddr(Some("::")), Ok(v6(0, 7368, 0)));
}

#[test]
fn a_port_alone_gets_the_default_address() {
    assert_eq!(get_listen_sockaddr(Some("80")), Ok(v4(0, 0, 0, 0, 80)));
    assert_eq!(get_listen_sockaddr(Some("+80")), Ok(v4(0, 0, 0, 0, 80)));
    assert_eq!(get_listen_sockaddr(Some("0")), Ok(v4(0, 0, 0, 0, 0)));
    assert_eq!(get_listen_sockaddr(Some("65535")), Ok(v4(0, 0, 0, 0, 65535)));
}

#[test]
fn anything_else_is_refused() {
    for text in [
        "", " ", "65536", "-1", "+", "++1", "8 0", "localhost", "localhost:80", "127.0.0.1:", ":80",
        "127.0.0.1:65536", "127.0.0.1:+80", "127.0.0", "127.0.0.1.1", "127.0.0.256", "127.0.0.01",
        "127.0.0.1:80:80", "[::1]", "[::1]:", "::1]:80", "[::1:80", "[127.0.0.1]:80", "[::1%]:80",
        "[::1%x]:80", "[::1%1%2]:80", "::1%1", "\u{661}",
    ] {
        assert_eq!(get_listen_sockaddr(Some(text)), Err(ListenError::Unparsable), "{}", text);
    }
    assert_eq!(ListenError::Unparsable.description(), "unable to parse listen-addr");
}

#[test]
fn ipv4_addresses_are_read() {
    let read = |s: &str| ip(s);
    let v4 = |a, b, c, d| Some(IpAddr::V4(Ipv4Addr { a, b, c, d }));
    assert_eq!(read("0.0.0.0"), v4(0, 0, 0, 0));
    assert_eq!(read("255.255.255.255"), v4(255, 255, 255, 255));
    assert_eq!(read("1.20.3.100"), v4(1, 20, 3, 100));
    for text in ["1.2.3", "1.2.3.", ".1.2.3", "1..2.3", "1.2.3.4 ", "1.2.3.0x4", "00.0.0.0", "1.2.3.1000"] {
        assert_eq!(read(text), None, "{}", text);
    }
}

#[test]
fn ipv6_addresses_are_read() {
    assert_eq!(bits("::"), Some(0));
    assert_eq!(bits("::1"), Some(1));
    assert_eq!(bits("1::"), Some(1 << 112));
    assert_eq!(bits("1:2:3:4:5:6:7:8"), Some(0x0001_0002_0003_0004_0005_0006_0007_0008));
    assert_eq!(bits("FFff:0:0:0:0:0:0:000a"), Some(0xffff << 112 | 0xa));
    assert_eq!(bits("1:2:3:4:5:6:7::"), Some(0x0001_0002_0003_0004_0005_0006_0007_0000));
    assert_eq!(bits("::2:3:4:5:6:7:8"), Some(0x0002_0003_0004_0005_0006_0007_0008));
    assert_eq!(bits("::ffff:1.2.3.4"), Some(0xffff_0102_0304));
    assert_eq!(bits("::1.2.3.4"), Some(0x0102_0304));
    assert_eq!(bits("1:2:3:4:5:6:1.2.3.4"), Some(0x0001_0002_0003_0004_0005_0006_0102_0304));
    assert_eq!(bits("1::4:1.2.3.4"), Some(1 << 112 | 0x0004_0102_0304));
}

#[test]
fn bad_ipv6_addresses_are_not() {
    for text in [
        ":", ":::", "1", "1:", ":1", "1:2:3:4:5:6:7", "1:2:3:4:5:6:7:8:9", "1:2:3:4:5:6:7:8::",
        "::1:2:3:4:5:6:7:8", "1::2::3", "1:::2", "12345::", "g::", "1.2.3.4::", "::1.2.3.4:5",
        "1:2:3:4:5:6:7:1.2.3.4", "1:2:3:4:5:6::1.2.3.4", "::1.2.3", "::1.2.3.04", "[::]", "::%1",
    ] {
        assert_eq!(ip(text), None, "{}", text);
    }
}

#[test]
fn what_is_written_reads_back() {
    for (a, port) in [(0u8, 0u16), (9, 9), (10, 10), (99, 100), (255, 65535)] {
        let addr = SocketAddrV4 { ip: Ipv4Addr { a, b: 0, c: 255, d: 1 }, port };
        let text = authority_text(addr);
        assert_eq!(read_socket_addr(&characters(&text)), Some(SocketAddr::V4(addr)));
        assert_eq!(ip(&dotted_text(addr.ip)), Some(IpAddr::V4(addr.ip)));
        assert_eq!(read_port(&characters(&decimal_text(port))), Some(port));
    }
    assert_eq!(decimal_text(40960), "40960");
}

#[test]
fn no_text_reads_in_two_ways() {
    for text in ["1.2.3.4", "1.2.3.4:5", "::1", "[::1]:5", "80", "+80", "1:2:3:4:5:6:7:8"] {
        let chars = characters(text);
        let ways = [
            read_socket_addr(&chars).is_some(),
            read_ip_addr(&chars).is_some(),
            read_port(&chars).is_some(),
        ];
        assert_eq!(ways.iter().filter(|way| **way).count(), 1, "{}", text);
    }
}

#[test]
fn ipv6_addresses_read_back() {
    for (text, bits) in [
        ("::", 0),
        ("::1", 1),
        ("2001:db8::1", 0x2001_0db8_0000_0000_0000_0000_0000_0001),
        ("1:0:0:2::3", 0x0001_0000_0000_0002_0000_0000_0000_0003),
        ("1:0:2:3:4:5:6:7", 0x0001_0000_0002_0003_0004_0005_0006_0007),
        ("::ffff:192.168.0.10", 0xffff_c0a8_000a),
        ("ffff:ffff:ffff:ffff:ffff:ffff:ffff:ffff", u128::MAX),
        ("fe80::", 0xfe80 << 112),
    ] {
        assert_eq!(get_listen_sockaddr(Some(text)), Ok(v6(bits, 7368, 0)));
        let alone = format!("[{}]:65535", text);
        assert_eq!(get_listen_sockaddr(Some(&alone)), Ok(v6(bits, 65535, 0)));
        let scoped = format!("[{}%4294967295]:0", text);
        assert_eq!(get_listen_sockaddr(Some(&scoped)), Ok(v6(bits, 0, u32::MAX)));
    }
}
