use mullvad_management_interface::bridge::{
    config_from_wire, config_to_wire, decode_optional, encode_optional, protocol_constraint_from_wire,
    protocol_constraint_to_wire, protocol_from_number, protocol_to_wire, version_info_from_wire,
    version_info_to_wire, ConversionError, Field,
};
use mullvad_management_interface::domain::{
    AppVersionInfo, ConnectionConfig, Endpoint, OpenVpnConfig, PeerConfig, PrivateKey, PublicKey,
    TransportProtocol, TunnelConfig, WireguardConfig,
};
use mullvad_management_interface::net::{
    IpAddr, IpNetwork, Ipv4Addr, Ipv6Addr, SocketAddr,
};
use mullvad_management_interface::wire;

fn v4(a: u8, b: u8, c: u8, d: u8) -> Ipv4Addr {
    Ipv4Addr { a, b, c, d }
}

fn v6(s: [u16; 8]) -> Ipv6Addr {
    Ipv6Addr { s0: s[0], s1: s[1], s2: s[2], s3: s[3], s4: s[4], s5: s[5], s6: s[6], s7: s[7] }
}

fn openvpn_config() -> ConnectionConfig {
    ConnectionConfig::OpenVpn(OpenVpnConfig {
        endpoint: Endpoint {
            address: SocketAddr { ip: IpAddr::V4(v4(198, 51, 100, 1)), port: 1194 },
            protocol: TransportProtocol::Tcp,
        },
        username: "user".to_string(),
        password: "secret".to_string(),
    })
}

fn wireguard_config() -> WireguardConfig {
    WireguardConfig {
        tunnel: TunnelConfig {
            private_key: PrivateKey { bytes: vec![7u8; 32] },
            addresses: vec![IpAddr::V4(v4(10, 0, 0, 1)), IpAddr::V4(v4(10, 0, 0, 2))],
        },
        peer: PeerConfig {
            public_key: PublicKey { bytes: (0u8..32).collect() },
            allowed_ips: vec![
                IpNetwork { ip: IpAddr::V4(v4(0, 0, 0, 0)), prefix: 0 },
                IpNetwork { ip: IpAddr::V6(v6([0; 8])), prefix: 0 },
            ],
            endpoint: SocketAddr { ip: IpAddr::V6(v6([0x2001, 0xdb8, 0, 0, 0, 0, 0, 1])), port: 51820 },
            protocol: TransportProtocol::Udp,
        },
        ipv4_gateway: v4(10, 64, 0, 1),
        ipv6_gateway: Some(v6([0xfc00, 0xbbbb, 0xbbbb, 0xbb01, 0, 0, 0, 1])),
    }
}

fn wireguard_wire() -> wire::ConnectionConfig {
    config_to_wire(&ConnectionConfig::Wireguard(wireguard_config()))
}

fn reject(w: &wire::ConnectionConfig) -> ConversionError {
    match config_from_wire(w) {
        Ok(_) => panic!("accepted an invalid message"),
        Err(e) => e,
    }
}

#[test]
fn version_info_round_trip() {
    let v = AppVersionInfo {
        supported: true,
        latest_stable: "2024.1".to_string(),
        latest_beta: "2024.2-beta1".to_string(),
        suggested_upgrade: Some("2024.1".to_string()),
    };
    let w = version_info_to_wire(v.clone());
    assert_eq!(w.suggested_upgrade, "2024.1");
    assert_eq!(w.latest_beta, "2024.2-beta1");
    assert_eq!(version_info_from_wire(w), v);
}

#[test]
fn version_info_absent_upgrade_is_empty() {
    let v = AppVersionInfo {
        supported: false,
        latest_stable: "2023.6".to_string(),
        latest_beta: "2023.6".to_string(),
        suggested_upgrade: None,
    };
    let w = version_info_to_wire(v.clone());
    assert_eq!(w.suggested_upgrade, "");
    assert!(!w.supported);
    assert_eq!(version_info_from_wire(w), v);
}

#[test]
fn version_info_empty_upgrade_comes_back_absent() {
    let v = AppVersionInfo {
        supported: true,
        latest_stable: "2024.1".to_string(),
        latest_beta: "2024.1".to_string(),
        suggested_upgrade: Some(String::new()),
    };
    let back = version_info_from_wire(version_info_to_wire(v));
    assert_eq!(back.suggested_upgrade, None);
}

#[test]
fn optional_strings() {
    assert_eq!(encode_optional(None), "");
    assert_eq!(encode_optional(Some("x".to_string())), "x");
    assert_eq!(decode_optional(String::new()), None);
    assert_eq!(decode_optional("x".to_string()), Some("x".to_string()));
}

#[test]
fn protocol_numbers() {
    assert_eq!(protocol_to_wire(TransportProtocol::Udp).as_i32(), 0);
    assert_eq!(protocol_to_wire(TransportProtocol::Tcp).as_i32(), 1);
    assert_eq!(protocol_constraint_to_wire(wire::TransportProtocol::Tcp).protocol, 1);
    assert_eq!(protocol_constraint_to_wire(wire::TransportProtocol::Udp).protocol, 0);
    assert_eq!(protocol_from_number(0), Ok(TransportProtocol::Udp));
    assert_eq!(protocol_from_number(1), Ok(TransportProtocol::Tcp));
    assert_eq!(protocol_from_number(2), Err(ConversionError::UnknownProtocolDiscriminant));
    assert_eq!(protocol_from_number(-1), Err(ConversionError::UnknownProtocolDiscriminant));
    assert_eq!(
        protocol_constraint_from_wire(wire::TransportProtocolConstraint { protocol: 1 }),
        Ok(TransportProtocol::Tcp)
    );
}

#[test]
fn openvpn_to_wire_sets_only_openvpn() {
    let w = config_to_wire(&openvpn_config());
    assert!(w.wireguard.is_none());
    let o = w.openvpn.clone().unwrap();
    assert_eq!(o.address, "198.51.100.1:1194");
    assert_eq!(o.protocol, 1);
    assert_eq!(o.username, "user");
    assert_eq!(o.password, "secret");
    assert_eq!(config_from_wire(&w), Ok(openvpn_config()));
}

#[test]
fn wireguard_to_wire_sets_only_wireguard() {
    let w = wireguard_wire();
    assert!(w.openvpn.is_none());
    let g = w.wireguard.clone().unwrap();
    let t = g.tunnel.unwrap();
    let p = g.peer.unwrap();
    assert_eq!(t.private_key, vec![7u8; 32]);
    assert_eq!(p.public_key, (0u8..32).collect::<Vec<u8>>());
    assert_eq!(p.allowed_ips, vec!["0.0.0.0/0".to_string(), "::/0".to_string()]);
    assert_eq!(p.endpoint, "[2001:db8::1]:51820");
    assert_eq!(p.protocol, 0);
    assert_eq!(g.ipv4_gateway, "10.64.0.1");
    assert_eq!(g.ipv6_gateway, "fc00:bbbb:bbbb:bb01::1");
}

#[test]
fn wireguard_round_trip() {
    let c = ConnectionConfig::Wireguard(wireguard_config());
    assert_eq!(config_from_wire(&config_to_wire(&c)), Ok(c));
}

#[test]
fn wireguard_without_ipv6_gateway() {
    let mut c = wireguard_config();
    c.ipv6_gateway = None;
    let c = ConnectionConfig::Wireguard(c);
    let w = config_to_wire(&c);
    assert_eq!(w.wireguard.clone().unwrap().ipv6_gateway, "");
    assert_eq!(config_from_wire(&w), Ok(c));
}

#[test]
fn interface_addresses_keep_their_order() {
    let w = wireguard_wire();
    let t = w.wireguard.unwrap().tunnel.unwrap();
    assert_eq!(t.addresses, vec!["10.0.0.1".to_string(), "10.0.0.2".to_string()]);

    let mut c = wireguard_config();
    c.tunnel.addresses = vec![IpAddr::V4(v4(10, 0, 0, 2)), IpAddr::V4(v4(10, 0, 0, 1)), IpAddr::V4(v4(10, 0, 0, 2))];
    let w = config_to_wire(&ConnectionConfig::Wireguard(c));
    let t = w.wireguard.unwrap().tunnel.unwrap();
    assert_eq!(
        t.addresses,
        vec!["10.0.0.2".to_string(), "10.0.0.1".to_string(), "10.0.0.2".to_string()]
    );
}

#[test]
fn endpoint_text_ipv4_and_ipv6() {
    let mut c = wireguard_config();
    c.peer.endpoint = SocketAddr { ip: IpAddr::V4(v4(198, 51, 100, 1)), port: 51820 };
    let w = config_to_wire(&ConnectionConfig::Wireguard(c.clone()));
    assert_eq!(w.wireguard.clone().unwrap().peer.unwrap().endpoint, "198.51.100.1:51820");
    assert_eq!(config_from_wire(&w), Ok(ConnectionConfig::Wireguard(c)));

    let w = wireguard_wire();
    assert_eq!(w.wireguard.unwrap().peer.unwrap().endpoint, "[2001:db8::1]:51820");
}

#[test]
fn both_or_neither_backend_is_rejected() {
    let mut both = wireguard_wire();
    both.openvpn = config_to_wire(&openvpn_config()).openvpn;
    assert_eq!(reject(&both), ConversionError::MissingOrAmbiguousVariant);
    let neither = wire::ConnectionConfig { openvpn: None, wireguard: None };
    assert_eq!(reject(&neither), ConversionError::MissingOrAmbiguousVariant);
}

#[test]
fn missing_sub_message_is_rejected() {
    let mut w = wireguard_wire();
    w.wireguard.as_mut().unwrap().peer = None;
    assert_eq!(reject(&w), ConversionError::MissingOrAmbiguousVariant);
    let mut w = wireguard_wire();
    w.wireguard.as_mut().unwrap().tunnel = None;
    assert_eq!(reject(&w), ConversionError::MissingOrAmbiguousVariant);
}

#[test]
fn key_length_is_checked() {
    for len in [0usize, 31, 33] {
        let mut w = wireguard_wire();
        w.wireguard.as_mut().unwrap().peer.as_mut().unwrap().public_key = vec![1u8; len];
        assert_eq!(reject(&w), ConversionError::InvalidKeyLength);
        let mut w = wireguard_wire();
        w.wireguard.as_mut().unwrap().tunnel.as_mut().unwrap().private_key = vec![1u8; len];
        assert_eq!(reject(&w), ConversionError::InvalidKeyLength);
    }
}

#[test]
fn unknown_protocol_is_rejected() {
    let mut w = wireguard_wire();
    w.wireguard.as_mut().unwrap().peer.as_mut().unwrap().protocol = 2;
    assert_eq!(reject(&w), ConversionError::UnknownProtocolDiscriminant);
    let mut w = config_to_wire(&openvpn_config());
    w.openvpn.as_mut().unwrap().protocol = 7;
    assert_eq!(reject(&w), ConversionError::UnknownProtocolDiscriminant);
}

#[test]
fn invalid_texts_name_their_field() {
    let mut w = config_to_wire(&openvpn_config());
    w.openvpn.as_mut().unwrap().address = "198.51.100.1".to_string();
    assert_eq!(reject(&w), ConversionError::InvalidAddressOrEndpoint(Field::OpenVpnEndpoint));

    let mut w = wireguard_wire();
    w.wireguard.as_mut().unwrap().tunnel.as_mut().unwrap().addresses[1] = "10.0.0.256".to_string();
    assert_eq!(reject(&w), ConversionError::InvalidAddressOrEndpoint(Field::TunnelAddress));

    let mut w = wireguard_wire();
    w.wireguard.as_mut().unwrap().peer.as_mut().unwrap().allowed_ips[0] = "10.0.0.0/33".to_string();
    assert_eq!(reject(&w), ConversionError::InvalidAddressOrEndpoint(Field::PeerAllowedIp));

    let mut w = wireguard_wire();
    w.wireguard.as_mut().unwrap().peer.as_mut().unwrap().endpoint = "[2001:db8::1]".to_string();
    assert_eq!(reject(&w), ConversionError::InvalidAddressOrEndpoint(Field::PeerEndpoint));

    let mut w = wireguard_wire();
    w.wireguard.as_mut().unwrap().ipv4_gateway = "::1".to_string();
    assert_eq!(reject(&w), ConversionError::InvalidAddressOrEndpoint(Field::Ipv4Gateway));

    let mut w = wireguard_wire();
    w.wireguard.as_mut().unwrap().ipv6_gateway = "10.64.0.1".to_string();
    assert_eq!(reject(&w), ConversionError::InvalidAddressOrEndpoint(Field::Ipv6Gateway));
}

#[test]
fn non_canonical_texts_are_rejected() {
    for bad in ["010.0.0.1", "10.0.0", "10.0.0.1.2", " 10.0.0.1", "2001:DB8::1", "1:0:0:0:0:0:0:1", "1::0:1"] {
        let mut w = wireguard_wire();
        w.wireguard.as_mut().unwrap().tunnel.as_mut().unwrap().addresses[0] = bad.to_string();
        assert_eq!(reject(&w), ConversionError::InvalidAddressOrEndpoint(Field::TunnelAddress), "{}", bad);
    }
}
