//! Conversions between the daemon's values and the interface's messages.
//!
//! Towards the interface every conversion is total. From the interface every
//! conversion checks what it reads and says which check failed.

use vstd::prelude::*;
use crate::domain;
use crate::domain::{
    AppVersionInfoView, ConnectionConfigView, Endpoint, OpenVpnView, WireguardView, KEY_LEN,
};
use crate::net::{
    ip_text, ipv4_text, ipv6_text, network_text, parse_ip, parse_ip_spec, parse_ipv4,
    parse_ipv4_spec, parse_ipv6, parse_ipv6_spec, parse_network, parse_network_spec,
    parse_socket, parse_socket_spec, push_ip, push_ipv4, push_ipv6, push_network, push_socket,
    socket_text, IpAddr, IpNetwork, Ipv4Addr, Ipv6Addr, SocketAddr,
};
use crate::text::{chars_of, string_of};
use crate::wire;
use crate::wire::{
    protocol_number, AppVersionInfoWire, ConnectionConfigWire, OpenvpnWire, PeerWire, TunnelWire,
    WireguardWire,
};

verus! {

/// The field whose text did not parse.
#[derive(Clone, Copy, Debug, PartialEq, Eq)]
pub enum Field {
    OpenVpnEndpoint,
    TunnelAddress,
    PeerAllowedIp,
    PeerEndpoint,
    Ipv4Gateway,
    Ipv6Gateway,
}

/// Why a message was rejected.
#[derive(Clone, Copy, Debug, PartialEq, Eq)]
pub enum ConversionError {
    /// None or both of the backends are set, or a required sub-message is missing.
    MissingOrAmbiguousVariant,
    /// A protocol number outside the known protocols.
    UnknownProtocolDiscriminant,
    /// A text that is not the canonical text of an address, endpoint or network.
    InvalidAddressOrEndpoint(Field),
    /// A key whose length is not the key length.
    InvalidKeyLength,
}

// ---- optional strings ----

pub open spec fn opt_chars(o: Option<String>) -> Option<Seq<char>> {
    match o {
        Some(s) => Some(s@),
        None => None,
    }
}

/// Absence is written as the empty string.
pub open spec fn encode_optional_spec(o: Option<Seq<char>>) -> Seq<char> {
    match o {
        Some(s) => s,
        None => Seq::empty(),
    }
}

/// The empty string is read as absence.
pub open spec fn decode_optional_spec(s: Seq<char>) -> Option<Seq<char>> {
    if s.len() == 0 {
        None
    } else {
        Some(s)
    }
}

/// Writes an optional string, absence as the empty string.
pub fn encode_optional(o: Option<String>) -> (r: String)
    ensures
        r@ == encode_optional_spec(opt_chars(o)),
{
    match o {
        Some(s) => s,
        None => String::new(),
    }
}

/// Reads an optional string, the empty string as absence.
pub fn decode_optional(s: String) -> (r: Option<String>)
    ensures
        opt_chars(r) == decode_optional_spec(s@),
{
    if s.as_str().unicode_len() == 0 {
        None
    } else {
        Some(s)
    }
}

/// An optional string survives writing and reading unless it is present and empty.
pub proof fn lemma_optional_round_trip(o: Option<Seq<char>>)
    requires
        o != Some(Seq::<char>::empty()),
    ensures
        decode_optional_spec(encode_optional_spec(o)) == o,
{
    if let Some(s) = o {
        if s.len() == 0 {
            assert(s =~= Seq::<char>::empty());
        }
    }
}

/// A present but empty string is read back as absent.
pub proof fn lemma_optional_empty_lost()
    ensures
        decode_optional_spec(encode_optional_spec(Some(Seq::<char>::empty()))) is None,
{
}

// ---- version information ----

pub open spec fn version_info_to_wire_spec(v: AppVersionInfoView) -> AppVersionInfoWire {
    AppVersionInfoWire {
        supported: v.supported,
        latest_stable: v.latest_stable,
        latest_beta: v.latest_beta,
        suggested_upgrade: encode_optional_spec(v.suggested_upgrade),
    }
}

pub open spec fn version_info_from_wire_spec(w: AppVersionInfoWire) -> AppVersionInfoView {
    AppVersionInfoView {
        supported: w.supported,
        latest_stable: w.latest_stable,
        latest_beta: w.latest_beta,
        suggested_upgrade: decode_optional_spec(w.suggested_upgrade),
    }
}

/// Version information as a message: the fields copied, no suggested upgrade as "".
pub fn version_info_to_wire(v: domain::AppVersionInfo) -> (r: wire::AppVersionInfo)
    ensures
        r@ == version_info_to_wire_spec(v@),
{
    let ghost up = v.suggested_upgrade;
    let suggested_upgrade = encode_optional(v.suggested_upgrade);
    proof {
        assert(opt_chars(up) == v@.suggested_upgrade);
    }
    wire::AppVersionInfo {
        supported: v.supported,
        latest_stable: v.latest_stable,
        latest_beta: v.latest_beta,
        suggested_upgrade,
    }
}

/// Version information from a message: "" as no suggested upgrade.
pub fn version_info_from_wire(w: wire::AppVersionInfo) -> (r: domain::AppVersionInfo)
    ensures
        r@ == version_info_from_wire_spec(w@),
{
    let suggested_upgrade = decode_optional(w.suggested_upgrade);
    let r = domain::AppVersionInfo {
        supported: w.supported,
        latest_stable: w.latest_stable,
        latest_beta: w.latest_beta,
        suggested_upgrade,
    };
    assert(r@.suggested_upgrade == opt_chars(suggested_upgrade));
    r
}

/// Version information survives a round trip through a message, unless its
/// suggested upgrade is present and empty.
pub proof fn lemma_version_info_round_trip(v: AppVersionInfoView)
    requires
        v.suggested_upgrade != Some(Seq::<char>::empty()),
    ensures
        version_info_from_wire_spec(version_info_to_wire_spec(v)) == v,
{
    lemma_optional_round_trip(v.suggested_upgrade);
}

/// A present but empty suggested upgrade comes back absent.
pub proof fn lemma_version_info_empty_upgrade_lost(v: AppVersionInfoView)
    requires
        v.suggested_upgrade == Some(Seq::<char>::empty()),
    ensures
        version_info_from_wire_spec(version_info_to_wire_spec(v)).suggested_upgrade is None,
{
}

// ---- transport protocol ----

pub open spec fn protocol_to_wire_spec(p: domain::TransportProtocol) -> wire::TransportProtocol {
    match p {
        domain::TransportProtocol::Udp => wire::TransportProtocol::Udp,
        domain::TransportProtocol::Tcp => wire::TransportProtocol::Tcp,
    }
}

/// The number that stands for a protocol in a message.
pub open spec fn domain_protocol_number(p: domain::TransportProtocol) -> i32 {
    protocol_number(protocol_to_wire_spec(p))
}

/// The protocol that a number in a message stands for.
pub open spec fn protocol_from_number_spec(n: i32) -> Result<domain::TransportProtocol, ConversionError> {
    if n == 0 {
        Ok(domain::TransportProtocol::Udp)
    } else if n == 1 {
        Ok(domain::TransportProtocol::Tcp)
    } else {
        Err(ConversionError::UnknownProtocolDiscriminant)
    }
}

/// The interface's protocol for the daemon's.
pub fn protocol_to_wire(p: domain::TransportProtocol) -> (r: wire::TransportProtocol)
    ensures
        r == protocol_to_wire_spec(p),
{
    match p {
        domain::TransportProtocol::Udp => wire::TransportProtocol::Udp,
        domain::TransportProtocol::Tcp => wire::TransportProtocol::Tcp,
    }
}

/// The daemon's protocol for the interface's.
pub fn protocol_from_wire(p: wire::TransportProtocol) -> (r: domain::TransportProtocol)
    ensures
        protocol_to_wire_spec(r) == p,
{
    match p {
        wire::TransportProtocol::Udp => domain::TransportProtocol::Udp,
        wire::TransportProtocol::Tcp => domain::TransportProtocol::Tcp,
    }
}

/// The daemon's protocol for a number in a message.
pub fn protocol_from_number(n: i32) -> (r: Result<domain::TransportProtocol, ConversionError>)
    ensures
        r == protocol_from_number_spec(n),
{
    match wire::TransportProtocol::from_i32(n) {
        Some(p) => Ok(protocol_from_wire(p)),
        None => Err(ConversionError::UnknownProtocolDiscriminant),
    }
}

/// A protocol as a constraint: the same number, wrapped.
pub fn protocol_constraint_to_wire(p: wire::TransportProtocol) -> (r: wire::TransportProtocolConstraint)
    ensures
        r.protocol == protocol_number(p),
{
    wire::TransportProtocolConstraint { protocol: p.as_i32() }
}

/// The protocol that a constraint asks for.
pub fn protocol_constraint_from_wire(c: wire::TransportProtocolConstraint) -> (r: Result<
    domain::TransportProtocol,
    ConversionError,
>)
    ensures
        r == protocol_from_number_spec(c.protocol),
{
    protocol_from_number(c.protocol)
}

/// A protocol's number reads back as the protocol.
pub proof fn lemma_protocol_round_trip(p: domain::TransportProtocol)
    ensures
        protocol_from_number_spec(domain_protocol_number(p)) == Ok::<
            domain::TransportProtocol,
            ConversionError,
        >(p),
{
}


// ---- text of addresses ----

fn socket_string(a: SocketAddr) -> (r: String)
    ensures
        r@ == socket_text(a),
{
    let mut v: Vec<char> = Vec::new();
    push_socket(a, &mut v);
    assert(v@ =~= socket_text(a));
    string_of(&v)
}

fn ip_string(a: IpAddr) -> (r: String)
    ensures
        r@ == ip_text(a),
{
    let mut v: Vec<char> = Vec::new();
    push_ip(a, &mut v);
    assert(v@ =~= ip_text(a));
    string_of(&v)
}

fn ipv4_string(a: Ipv4Addr) -> (r: String)
    ensures
        r@ == ipv4_text(a),
{
    let mut v: Vec<char> = Vec::new();
    push_ipv4(a, &mut v);
    assert(v@ =~= ipv4_text(a));
    string_of(&v)
}

fn ipv6_string(a: Ipv6Addr) -> (r: String)
    ensures
        r@ == ipv6_text(a),
{
    let mut v: Vec<char> = Vec::new();
    push_ipv6(a, &mut v);
    assert(v@ =~= ipv6_text(a));
    string_of(&v)
}

fn network_string(n: IpNetwork) -> (r: String)
    ensures
        r@ == network_text(n),
{
    let mut v: Vec<char> = Vec::new();
    push_network(n, &mut v);
    assert(v@ =~= network_text(n));
    string_of(&v)
}

fn copy_bytes(b: &Vec<u8>) -> (r: Vec<u8>)
    ensures
        r@ == b@,
{
    let mut r: Vec<u8> = Vec::new();
    let mut i: usize = 0;
    while i < b.len()
        invariant
            i <= b@.len(),
            r@ == b@.subrange(0, i as int),
        decreases b.len() - i,
    {
        r.push(b[i]);
        assert(b@.subrange(0, i + 1) =~= b@.subrange(0, i as int).push(b@[i as int]));
        i = i + 1;
    }
    assert(b@.subrange(0, i as int) =~= b@);
    r
}

pub open spec fn ip_texts(a: Seq<IpAddr>) -> Seq<Seq<char>> {
    a.map_values(|x: IpAddr| ip_text(x))
}

pub open spec fn network_texts(a: Seq<IpNetwork>) -> Seq<Seq<char>> {
    a.map_values(|x: IpNetwork| network_text(x))
}

/// Each text is the text of an address.
pub open spec fn all_ips(s: Seq<Seq<char>>) -> bool {
    forall|i: int| 0 <= i < s.len() ==> (#[trigger] parse_ip_spec(s[i])) is Some
}

pub open spec fn ips_of(s: Seq<Seq<char>>) -> Seq<IpAddr> {
    s.map_values(|x: Seq<char>| parse_ip_spec(x)->0)
}

/// Each text is the text of a valid network.
pub open spec fn all_networks(s: Seq<Seq<char>>) -> bool {
    forall|i: int| 0 <= i < s.len() ==> (#[trigger] parse_network_spec(s[i])) is Some
}

pub open spec fn networks_of(s: Seq<Seq<char>>) -> Seq<IpNetwork> {
    s.map_values(|x: Seq<char>| parse_network_spec(x)->0)
}

fn ip_strings(a: &Vec<IpAddr>) -> (r: Vec<String>)
    ensures
        r.deep_view() == ip_texts(a@),
{
    let mut r: Vec<String> = Vec::new();
    let mut i: usize = 0;
    while i < a.len()
        invariant
            i <= a@.len(),
            r@.len() == i,
            forall|j: int| 0 <= j < i ==> (#[trigger] r@[j])@ == ip_text(a@[j]),
        decreases a.len() - i,
    {
        let s = ip_string(a[i]);
        r.push(s);
        i = i + 1;
    }
    assert(r.deep_view() =~= ip_texts(a@));
    r
}

fn network_strings(a: &Vec<IpNetwork>) -> (r: Vec<String>)
    ensures
        r.deep_view() == network_texts(a@),
{
    let mut r: Vec<String> = Vec::new();
    let mut i: usize = 0;
    while i < a.len()
        invariant
            i <= a@.len(),
            r@.len() == i,
            forall|j: int| 0 <= j < i ==> (#[trigger] r@[j])@ == network_text(a@[j]),
        decreases a.len() - i,
    {
        let s = network_string(a[i]);
        r.push(s);
        i = i + 1;
    }
    assert(r.deep_view() =~= network_texts(a@));
    r
}

fn read_ips(s: &Vec<String>) -> (r: Option<Vec<IpAddr>>)
    ensures
        r is Some <==> all_ips(s.deep_view()),
        r matches Some(v) ==> v@ == ips_of(s.deep_view()),
{
    let ghost sv = s.deep_view();
    let mut r: Vec<IpAddr> = Vec::new();
    let mut i: usize = 0;
    while i < s.len()
        invariant
            i <= s@.len(),
            sv == s.deep_view(),
            r@.len() == i,
            forall|j: int| 0 <= j < i ==> (#[trigger] parse_ip_spec(sv[j])) == Some(r@[j]),
        decreases s.len() - i,
    {
        let c = chars_of(s[i].as_str());
        match parse_ip(&c) {
            Some(a) => r.push(a),
            None => {
                assert(!(parse_ip_spec(sv[i as int]) is Some));
                return None;
            },
        }
        i = i + 1;
    }
    assert(r@ =~= ips_of(sv));
    Some(r)
}

fn read_networks(s: &Vec<String>) -> (r: Option<Vec<IpNetwork>>)
    ensures
        r is Some <==> all_networks(s.deep_view()),
        r matches Some(v) ==> v@ == networks_of(s.deep_view()),
{
    let ghost sv = s.deep_view();
    let mut r: Vec<IpNetwork> = Vec::new();
    let mut i: usize = 0;
    while i < s.len()
        invariant
            i <= s@.len(),
            sv == s.deep_view(),
            r@.len() == i,
            forall|j: int| 0 <= j < i ==> (#[trigger] parse_network_spec(sv[j])) == Some(r@[j]),
        decreases s.len() - i,
    {
        let c = chars_of(s[i].as_str());
        match parse_network(&c) {
            Some(a) => r.push(a),
            None => {
                assert(!(parse_network_spec(sv[i as int]) is Some));
                return None;
            },
        }
        i = i + 1;
    }
    assert(r@ =~= networks_of(sv));
    Some(r)
}


// ---- connection configuration ----

pub open spec fn openvpn_to_wire_spec(o: OpenVpnView) -> OpenvpnWire {
    OpenvpnWire {
        address: socket_text(o.endpoint.address),
        protocol: domain_protocol_number(o.endpoint.protocol),
        username: o.username,
        password: o.password,
    }
}

pub open spec fn wireguard_to_wire_spec(w: WireguardView) -> WireguardWire {
    WireguardWire {
        tunnel: Some(TunnelWire { private_key: w.private_key, addresses: ip_texts(w.addresses) }),
        peer: Some(
            PeerWire {
                public_key: w.public_key,
                allowed_ips: network_texts(w.allowed_ips),
                endpoint: socket_text(w.endpoint),
                protocol: domain_protocol_number(w.protocol),
            },
        ),
        ipv4_gateway: ipv4_text(w.ipv4_gateway),
        ipv6_gateway: match w.ipv6_gateway {
            Some(g) => ipv6_text(g),
            None => Seq::empty(),
        },
    }
}

/// The message for a configuration: exactly the backend's sub-message is set.
pub open spec fn config_to_wire_spec(c: ConnectionConfigView) -> ConnectionConfigWire {
    match c {
        ConnectionConfigView::OpenVpn(o) => ConnectionConfigWire {
            openvpn: Some(openvpn_to_wire_spec(o)),
            wireguard: None,
        },
        ConnectionConfigView::Wireguard(w) => ConnectionConfigWire {
            openvpn: None,
            wireguard: Some(wireguard_to_wire_spec(w)),
        },
    }
}

pub open spec fn openvpn_from_wire_spec(o: OpenvpnWire) -> Result<OpenVpnView, ConversionError> {
    match parse_socket_spec(o.address) {
        None => Err(ConversionError::InvalidAddressOrEndpoint(Field::OpenVpnEndpoint)),
        Some(address) => match protocol_from_number_spec(o.protocol) {
            Err(e) => Err(e),
            Ok(protocol) => Ok(
                OpenVpnView {
                    endpoint: Endpoint { address, protocol },
                    username: o.username,
                    password: o.password,
                },
            ),
        },
    }
}

/// Reads WireGuard settings; the checks come in this order: sub-messages
/// present, key lengths, tunnel addresses, allowed networks, peer endpoint,
/// peer protocol, IPv4 gateway, IPv6 gateway ("" for none).
pub open spec fn wireguard_from_wire_spec(w: WireguardWire) -> Result<WireguardView, ConversionError> {
    if w.tunnel is None || w.peer is None {
        Err(ConversionError::MissingOrAmbiguousVariant)
    } else {
        let t = w.tunnel->0;
        let p = w.peer->0;
        if t.private_key.len() != KEY_LEN || p.public_key.len() != KEY_LEN {
            Err(ConversionError::InvalidKeyLength)
        } else if !all_ips(t.addresses) {
            Err(ConversionError::InvalidAddressOrEndpoint(Field::TunnelAddress))
        } else if !all_networks(p.allowed_ips) {
            Err(ConversionError::InvalidAddressOrEndpoint(Field::PeerAllowedIp))
        } else if parse_socket_spec(p.endpoint) is None {
            Err(ConversionError::InvalidAddressOrEndpoint(Field::PeerEndpoint))
        } else if protocol_from_number_spec(p.protocol) is Err {
            Err(ConversionError::UnknownProtocolDiscriminant)
        } else if parse_ipv4_spec(w.ipv4_gateway) is None {
            Err(ConversionError::InvalidAddressOrEndpoint(Field::Ipv4Gateway))
        } else if w.ipv6_gateway.len() != 0 && parse_ipv6_spec(w.ipv6_gateway) is None {
            Err(ConversionError::InvalidAddressOrEndpoint(Field::Ipv6Gateway))
        } else {
            Ok(
                WireguardView {
                    private_key: t.private_key,
                    addresses: ips_of(t.addresses),
                    public_key: p.public_key,
                    allowed_ips: networks_of(p.allowed_ips),
                    endpoint: parse_socket_spec(p.endpoint)->0,
                    protocol: protocol_from_number_spec(p.protocol)->Ok_0,
                    ipv4_gateway: parse_ipv4_spec(w.ipv4_gateway)->0,
                    ipv6_gateway: if w.ipv6_gateway.len() == 0 {
                        None
                    } else {
                        parse_ipv6_spec(w.ipv6_gateway)
                    },
                },
            )
        }
    }
}

/// The configuration a message stands for: exactly one backend must be set.
pub open spec fn config_from_wire_spec(w: ConnectionConfigWire) -> Result<ConnectionConfigView, ConversionError> {
    match (w.openvpn, w.wireguard) {
        (Some(o), None) => match openvpn_from_wire_spec(o) {
            Ok(v) => Ok(ConnectionConfigView::OpenVpn(v)),
            Err(e) => Err(e),
        },
        (None, Some(g)) => match wireguard_from_wire_spec(g) {
            Ok(v) => Ok(ConnectionConfigView::Wireguard(v)),
            Err(e) => Err(e),
        },
        _ => Err(ConversionError::MissingOrAmbiguousVariant),
    }
}

fn openvpn_to_wire(o: &domain::OpenVpnConfig) -> (r: wire::OpenvpnConfig)
    ensures
        r@ == openvpn_to_wire_spec(o@),
{
    wire::OpenvpnConfig {
        address: socket_string(o.endpoint.address),
        protocol: protocol_to_wire(o.endpoint.protocol).as_i32(),
        username: o.username.clone(),
        password: o.password.clone(),
    }
}

fn wireguard_to_wire(w: &domain::WireguardConfig) -> (r: wire::WireguardConfig)
    ensures
        r@ == wireguard_to_wire_spec(w@),
{
    let tunnel = wire::TunnelConfig {
        private_key: copy_bytes(&w.tunnel.private_key.bytes),
        addresses: ip_strings(&w.tunnel.addresses),
    };
    let peer = wire::PeerConfig {
        public_key: copy_bytes(&w.peer.public_key.bytes),
        allowed_ips: network_strings(&w.peer.allowed_ips),
        endpoint: socket_string(w.peer.endpoint),
        protocol: protocol_to_wire(w.peer.protocol).as_i32(),
    };
    let ipv6_gateway = match w.ipv6_gateway {
        Some(g) => ipv6_string(g),
        None => String::new(),
    };
    wire::WireguardConfig {
        tunnel: Some(tunnel),
        peer: Some(peer),
        ipv4_gateway: ipv4_string(w.ipv4_gateway),
        ipv6_gateway,
    }
}

/// The message for a configuration.
pub fn config_to_wire(c: &domain::ConnectionConfig) -> (r: wire::ConnectionConfig)
    ensures
        r@ == config_to_wire_spec(c@),
{
    match c {
        domain::ConnectionConfig::OpenVpn(o) => wire::ConnectionConfig {
            openvpn: Some(openvpn_to_wire(o)),
            wireguard: None,
        },
        domain::ConnectionConfig::Wireguard(w) => wire::ConnectionConfig {
            openvpn: None,
            wireguard: Some(wireguard_to_wire(w)),
        },
    }
}

fn openvpn_from_wire(o: &wire::OpenvpnConfig) -> (r: Result<domain::OpenVpnConfig, ConversionError>)
    ensures
        match r {
            Ok(v) => openvpn_from_wire_spec(o@) == Ok::<OpenVpnView, ConversionError>(v@),
            Err(e) => openvpn_from_wire_spec(o@) == Err::<OpenVpnView, ConversionError>(e),
        },
{
    let address = match parse_socket(&chars_of(o.address.as_str())) {
        Some(a) => a,
        None => {
            return Err(ConversionError::InvalidAddressOrEndpoint(Field::OpenVpnEndpoint));
        },
    };
    let protocol = match protocol_from_number(o.protocol) {
        Ok(p) => p,
        Err(e) => {
            return Err(e);
        },
    };
    Ok(
        domain::OpenVpnConfig {
            endpoint: Endpoint { address, protocol },
            username: o.username.clone(),
            password: o.password.clone(),
        },
    )
}

fn wireguard_from_wire(w: &wire::WireguardConfig) -> (r: Result<domain::WireguardConfig, ConversionError>)
    ensures
        match r {
            Ok(v) => wireguard_from_wire_spec(w@) == Ok::<WireguardView, ConversionError>(v@),
            Err(e) => wireguard_from_wire_spec(w@) == Err::<WireguardView, ConversionError>(e),
        },
{
    let (t, p) = match (&w.tunnel, &w.peer) {
        (Some(t), Some(p)) => (t, p),
        _ => {
            return Err(ConversionError::MissingOrAmbiguousVariant);
        },
    };
    if t.private_key.len() != KEY_LEN || p.public_key.len() != KEY_LEN {
        return Err(ConversionError::InvalidKeyLength);
    }
    let addresses = match read_ips(&t.addresses) {
        Some(a) => a,
        None => {
            return Err(ConversionError::InvalidAddressOrEndpoint(Field::TunnelAddress));
        },
    };
    let allowed_ips = match read_networks(&p.allowed_ips) {
        Some(a) => a,
        None => {
            return Err(ConversionError::InvalidAddressOrEndpoint(Field::PeerAllowedIp));
        },
    };
    let endpoint = match parse_socket(&chars_of(p.endpoint.as_str())) {
        Some(a) => a,
        None => {
            return Err(ConversionError::InvalidAddressOrEndpoint(Field::PeerEndpoint));
        },
    };
    let protocol = match protocol_from_number(p.protocol) {
        Ok(x) => x,
        Err(e) => {
            return Err(e);
        },
    };
    let ipv4_gateway = match parse_ipv4(&chars_of(w.ipv4_gateway.as_str())) {
        Some(a) => a,
        None => {
            return Err(ConversionError::InvalidAddressOrEndpoint(Field::Ipv4Gateway));
        },
    };
    let g6 = chars_of(w.ipv6_gateway.as_str());
    let ipv6_gateway = if g6.len() == 0 {
        None
    } else {
        match parse_ipv6(&g6) {
            Some(a) => Some(a),
            None => {
                return Err(ConversionError::InvalidAddressOrEndpoint(Field::Ipv6Gateway));
            },
        }
    };
    Ok(
        domain::WireguardConfig {
            tunnel: domain::TunnelConfig {
                private_key: domain::PrivateKey { bytes: copy_bytes(&t.private_key) },
                addresses,
            },
            peer: domain::PeerConfig {
                public_key: domain::PublicKey { bytes: copy_bytes(&p.public_key) },
                allowed_ips,
                endpoint,
                protocol,
            },
            ipv4_gateway,
            ipv6_gateway,
        },
    )
}

/// The configuration that a message stands for, or why it stands for none.
pub fn config_from_wire(w: &wire::ConnectionConfig) -> (r: Result<domain::ConnectionConfig, ConversionError>)
    ensures
        match r {
            Ok(c) => config_from_wire_spec(w@) == Ok::<ConnectionConfigView, ConversionError>(c@),
            Err(e) => config_from_wire_spec(w@) == Err::<ConnectionConfigView, ConversionError>(e),
        },
{
    match (&w.openvpn, &w.wireguard) {
        (Some(o), None) => match openvpn_from_wire(o) {
            Ok(v) => Ok(domain::ConnectionConfig::OpenVpn(v)),
            Err(e) => Err(e),
        },
        (None, Some(g)) => match wireguard_from_wire(g) {
            Ok(v) => Ok(domain::ConnectionConfig::Wireguard(v)),
            Err(e) => Err(e),
        },
        _ => Err(ConversionError::MissingOrAmbiguousVariant),
    }
}


// ---- laws ----

proof fn lemma_ips_round_trip(a: Seq<IpAddr>)
    ensures
        all_ips(ip_texts(a)),
        ips_of(ip_texts(a)) == a,
{
    assert forall|i: int| 0 <= i < a.len() implies #[trigger] parse_ip_spec(ip_texts(a)[i]) == Some(
        a[i],
    ) by {
        crate::net::lemma_ip_parse_text(a[i]);
    }
    assert(ips_of(ip_texts(a)) =~= a);
}

proof fn lemma_networks_round_trip(a: Seq<IpNetwork>)
    requires
        forall|i: int| 0 <= i < a.len() ==> (#[trigger] a[i]).wf(),
    ensures
        all_networks(network_texts(a)),
        networks_of(network_texts(a)) == a,
{
    assert forall|i: int| 0 <= i < a.len() implies #[trigger] parse_network_spec(
        network_texts(a)[i],
    ) == Some(a[i]) by {
        crate::net::lemma_network_parse_text(a[i]);
    }
    assert(networks_of(network_texts(a)) =~= a);
}

/// Every valid configuration survives a round trip through a message.
pub proof fn lemma_config_round_trip(c: ConnectionConfigView)
    requires
        c.wf(),
    ensures
        config_from_wire_spec(config_to_wire_spec(c)) == Ok::<ConnectionConfigView, ConversionError>(c),
{
    match c {
        ConnectionConfigView::OpenVpn(o) => {
            crate::net::lemma_socket_parse_text(o.endpoint.address);
            lemma_protocol_round_trip(o.endpoint.protocol);
        },
        ConnectionConfigView::Wireguard(w) => {
            lemma_ips_round_trip(w.addresses);
            lemma_networks_round_trip(w.allowed_ips);
            crate::net::lemma_socket_parse_text(w.endpoint);
            lemma_protocol_round_trip(w.protocol);
            crate::net::lemma_ipv4_parse_text(w.ipv4_gateway);
            if let Some(g) = w.ipv6_gateway {
                crate::net::lemma_ipv6_parse_text(g);
                crate::net::lemma_ipv6_text_chars(g);
                assert(ipv6_text(g).len() != 0) by {
                    let p = crate::net::ipv6_pieces(g);
                    if ipv6_text(g).len() == 0 {
                        crate::text::lemma_join_unique(p, seq![Seq::<char>::empty()], ':');
                        crate::net::lemma_ipv6_text_nonempty(g);
                    }
                }
            }
        },
    }
}

/// The message for a configuration sets exactly the sub-message of its backend.
pub proof fn lemma_config_to_wire_one_variant(c: ConnectionConfigView)
    ensures
        (config_to_wire_spec(c).openvpn is Some) == (c is OpenVpn),
        (config_to_wire_spec(c).wireguard is Some) == (c is Wireguard),
{
}

/// A message with both backends or with neither is rejected as ambiguous.
pub proof fn lemma_config_from_wire_needs_one_variant(w: ConnectionConfigWire)
    requires
        (w.openvpn is Some) == (w.wireguard is Some),
    ensures
        config_from_wire_spec(w) == Err::<ConnectionConfigView, ConversionError>(
            ConversionError::MissingOrAmbiguousVariant,
        ),
{
}

/// A WireGuard message whose public key is not of the key length is rejected
/// for its key length.
pub proof fn lemma_config_from_wire_key_length(w: ConnectionConfigWire)
    requires
        w.openvpn is None,
        w.wireguard matches Some(g) && g.tunnel is Some && (g.peer matches Some(p)
            && p.public_key.len() != KEY_LEN),
    ensures
        config_from_wire_spec(w) == Err::<ConnectionConfigView, ConversionError>(
            ConversionError::InvalidKeyLength,
        ),
{
}

} // verus!
