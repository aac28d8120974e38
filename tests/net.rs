use mullvad_management_interface::net::{
    parse_ip, parse_ipv4, parse_ipv6, parse_network, parse_socket, push_ip, push_ipv4, push_ipv6,
    push_network, push_socket, IpAddr, IpNetwork, Ipv4Addr, Ipv6Addr, SocketAddr,
};

fn chars(s: &str) -> Vec<char> {
    s.chars().collect()
}

fn v6(s: [u16; 8]) -> Ipv6Addr {
    Ipv6Addr { s0: s[0], s1: s[1], s2: s[2], s3: s[3], s4: s[4], s5: s[5], s6: s[6], s7: s[7] }
}

fn v6_text(s: [u16; 8]) -> String {
    let mut out = Vec::new();
    push_ipv6(v6(s), &mut out);
    out.into_iter().collect()
}

#[test]
fn ipv4_text() {
    let mut out = Vec::new();
    push_ipv4(Ipv4Addr { a: 255, b: 0, c: 10, d: 7 }, &mut out);
    assert_eq!(out.iter().collect::<String>(), "255.0.10.7");
    assert_eq!(parse_ipv4(&chars("255.0.10.7")), Some(Ipv4Addr { a: 255, b: 0, c: 10, d: 7 }));
    assert_eq!(parse_ipv4(&chars("256.0.0.1")), None);
    assert_eq!(parse_ipv4(&chars("1.2.3.04")), None);
    assert_eq!(parse_ipv4(&chars("")), None);
}

#[test]
fn ipv6_compression() {
    assert_eq!(v6_text([0; 8]), "::");
    assert_eq!(v6_text([0, 0, 0, 0, 0, 0, 0, 1]), "::1");
    assert_eq!(v6_text([1, 0, 0, 0, 0, 0, 0, 0]), "1::");
    assert_eq!(v6_text([0x2001, 0xdb8, 0, 0, 0, 0, 0, 1]), "2001:db8::1");
    assert_eq!(v6_text([1, 0, 2, 3, 4, 5, 6, 7]), "1:0:2:3:4:5:6:7");
    assert_eq!(v6_text([1, 0, 0, 2, 0, 0, 3, 4]), "1::2:0:0:3:4");
    assert_eq!(v6_text([1, 0, 0, 2, 0, 0, 0, 4]), "1:0:0:2::4");
    assert_eq!(v6_text([0xffff, 0xabcd, 0x10, 0, 0, 0, 0, 0]), "ffff:abcd:10::");
}

#[test]
fn ipv6_parse() {
    for s in [[0u16; 8], [0, 0, 0, 0, 0, 0, 0, 1], [1, 0, 0, 0, 0, 0, 0, 0], [1, 0, 2, 3, 4, 5, 6, 7], [1, 0, 0, 2, 0, 0, 3, 4]] {
        assert_eq!(parse_ipv6(&chars(&v6_text(s))), Some(v6(s)));
    }
    assert_eq!(parse_ipv6(&chars("2001:db8::1")), Some(v6([0x2001, 0xdb8, 0, 0, 0, 0, 0, 1])));
    assert_eq!(parse_ipv6(&chars(":::")), None);
    assert_eq!(parse_ipv6(&chars("1::2::3")), None);
    assert_eq!(parse_ipv6(&chars("1:2:3:4:5:6:7")), None);
    assert_eq!(parse_ipv6(&chars("10000::")), None);
    assert_eq!(parse_ipv6(&chars("0:0::1")), None);
}

#[test]
fn address_families() {
    assert_eq!(parse_ip(&chars("10.0.0.1")), Some(IpAddr::V4(Ipv4Addr { a: 10, b: 0, c: 0, d: 1 })));
    assert_eq!(parse_ip(&chars("::1")), Some(IpAddr::V6(v6([0, 0, 0, 0, 0, 0, 0, 1]))));
    assert_eq!(parse_ip(&chars("localhost")), None);
    let mut out = Vec::new();
    push_ip(IpAddr::V6(v6([0xfe80, 0, 0, 0, 0, 0, 0, 1])), &mut out);
    assert_eq!(out.iter().collect::<String>(), "fe80::1");
}

#[test]
fn socket_text() {
    let a = SocketAddr { ip: IpAddr::V4(Ipv4Addr { a: 198, b: 51, c: 100, d: 1 }), port: 51820 };
    let b = SocketAddr { ip: IpAddr::V6(v6([0x2001, 0xdb8, 0, 0, 0, 0, 0, 1])), port: 51820 };
    let mut out = Vec::new();
    push_socket(a, &mut out);
    assert_eq!(out.iter().collect::<String>(), "198.51.100.1:51820");
    let mut out = Vec::new();
    push_socket(b, &mut out);
    assert_eq!(out.iter().collect::<String>(), "[2001:db8::1]:51820");
    assert_eq!(parse_socket(&chars("198.51.100.1:51820")), Some(a));
    assert_eq!(parse_socket(&chars("[2001:db8::1]:51820")), Some(b));
    assert_eq!(parse_socket(&chars("[2001:db8::1]:65536")), None);
    assert_eq!(parse_socket(&chars("2001:db8::1:51820")), None);
    assert_eq!(parse_socket(&chars("198.51.100.1:051820")), None);
    assert_eq!(
        parse_socket(&chars("0.0.0.0:65535")),
        Some(SocketAddr { ip: IpAddr::V4(Ipv4Addr { a: 0, b: 0, c: 0, d: 0 }), port: 65535 })
    );
}

#[test]
fn network_text() {
    let n = IpNetwork { ip: IpAddr::V4(Ipv4Addr { a: 10, b: 0, c: 0, d: 0 }), prefix: 8 };
    let mut out = Vec::new();
    push_network(n, &mut out);
    assert_eq!(out.iter().collect::<String>(), "10.0.0.0/8");
    assert_eq!(parse_network(&chars("10.0.0.0/8")), Some(n));
    assert_eq!(
        parse_network(&chars("::/128")),
        Some(IpNetwork { ip: IpAddr::V6(v6([0; 8])), prefix: 128 })
    );
    assert_eq!(parse_network(&chars("::/129")), None);
    assert_eq!(parse_network(&chars("10.0.0.0/33")), None);
    assert_eq!(parse_network(&chars("10.0.0.0")), None);
}
