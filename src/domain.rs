//! The daemon's typed values: version information, transport protocols and
//! per-backend connection configurations.

use vstd::prelude::*;
use crate::net::{IpAddr, IpNetwork, Ipv4Addr, Ipv6Addr, SocketAddr};

verus! {

/// Length in bytes of a WireGuard key.
pub const KEY_LEN: usize = 32;

/// Transport protocol of a tunnel endpoint.
#[derive(Clone, Copy, Debug, PartialEq, Eq)]
pub enum TransportProtocol {
    Udp,
    Tcp,
}

/// An address and the protocol to reach it by.
#[derive(Clone, Copy, Debug, PartialEq, Eq)]
pub struct Endpoint {
    pub address: SocketAddr,
    pub protocol: TransportProtocol,
}

/// Whether this version of the app is supported, and which versions exist.
#[derive(Clone, Debug, PartialEq, Eq)]
pub struct AppVersionInfo {
    pub supported: bool,
    pub latest_stable: String,
    pub latest_beta: String,
    pub suggested_upgrade: Option<String>,
}

/// The value of an `AppVersionInfo`.
pub struct AppVersionInfoView {
    pub supported: bool,
    pub latest_stable: Seq<char>,
    pub latest_beta: Seq<char>,
    pub suggested_upgrade: Option<Seq<char>>,
}

impl View for AppVersionInfo {
    type V = AppVersionInfoView;

    open spec fn view(&self) -> AppVersionInfoView {
        AppVersionInfoView {
            supported: self.supported,
            latest_stable: self.latest_stable@,
            latest_beta: self.latest_beta@,
            suggested_upgrade: match self.suggested_upgrade {
                Some(s) => Some(s@),
                None => None,
            },
        }
    }
}

/// A WireGuard private key.
#[derive(Clone, Debug, PartialEq, Eq)]
pub struct PrivateKey {
    pub bytes: Vec<u8>,
}

/// A WireGuard public key.
#[derive(Clone, Debug, PartialEq, Eq)]
pub struct PublicKey {
    pub bytes: Vec<u8>,
}

/// Configuration of an OpenVPN tunnel.
#[derive(Clone, Debug, PartialEq, Eq)]
pub struct OpenVpnConfig {
    pub endpoint: Endpoint,
    pub username: String,
    pub password: String,
}

/// The local side of a WireGuard tunnel.
#[derive(Clone, Debug, PartialEq, Eq)]
pub struct TunnelConfig {
    pub private_key: PrivateKey,
    pub addresses: Vec<IpAddr>,
}

/// The remote side of a WireGuard tunnel.
#[derive(Clone, Debug, PartialEq, Eq)]
pub struct PeerConfig {
    pub public_key: PublicKey,
    pub allowed_ips: Vec<IpNetwork>,
    pub endpoint: SocketAddr,
    pub protocol: TransportProtocol,
}

/// Configuration of a WireGuard tunnel.
#[derive(Clone, Debug, PartialEq, Eq)]
pub struct WireguardConfig {
    pub tunnel: TunnelConfig,
    pub peer: PeerConfig,
    pub ipv4_gateway: Ipv4Addr,
    pub ipv6_gateway: Option<Ipv6Addr>,
}

/// The configuration of a tunnel: one backend or the other.
#[derive(Clone, Debug, PartialEq, Eq)]
pub enum ConnectionConfig {
    OpenVpn(OpenVpnConfig),
    Wireguard(WireguardConfig),
}

/// The value of an `OpenVpnConfig`.
pub struct OpenVpnView {
    pub endpoint: Endpoint,
    pub username: Seq<char>,
    pub password: Seq<char>,
}

/// The value of a `WireguardConfig`, its tunnel and peer side by side.
pub struct WireguardView {
    pub private_key: Seq<u8>,
    pub addresses: Seq<IpAddr>,
    pub public_key: Seq<u8>,
    pub allowed_ips: Seq<IpNetwork>,
    pub endpoint: SocketAddr,
    pub protocol: TransportProtocol,
    pub ipv4_gateway: Ipv4Addr,
    pub ipv6_gateway: Option<Ipv6Addr>,
}

/// The value of a `ConnectionConfig`.
pub enum ConnectionConfigView {
    OpenVpn(OpenVpnView),
    Wireguard(WireguardView),
}

impl View for OpenVpnConfig {
    type V = OpenVpnView;

    open spec fn view(&self) -> OpenVpnView {
        OpenVpnView { endpoint: self.endpoint, username: self.username@, password: self.password@ }
    }
}

impl View for WireguardConfig {
    type V = WireguardView;

    open spec fn view(&self) -> WireguardView {
        WireguardView {
            private_key: self.tunnel.private_key.bytes@,
            addresses: self.tunnel.addresses@,
            public_key: self.peer.public_key.bytes@,
            allowed_ips: self.peer.allowed_ips@,
            endpoint: self.peer.endpoint,
            protocol: self.peer.protocol,
            ipv4_gateway: self.ipv4_gateway,
            ipv6_gateway: self.ipv6_gateway,
        }
    }
}

impl View for ConnectionConfig {
    type V = ConnectionConfigView;

    open spec fn view(&self) -> ConnectionConfigView {
        match self {
            ConnectionConfig::OpenVpn(c) => ConnectionConfigView::OpenVpn(c@),
            ConnectionConfig::Wireguard(c) => ConnectionConfigView::Wireguard(c@),
        }
    }
}

impl WireguardView {
    /// Keys have their fixed length and each network's prefix fits its family.
    pub open spec fn wf(&self) -> bool {
        &&& self.private_key.len() == KEY_LEN
        &&& self.public_key.len() == KEY_LEN
        &&& forall|i: int| 0 <= i < self.allowed_ips.len() ==> (#[trigger] self.allowed_ips[i]).wf()
    }
}

impl ConnectionConfigView {
    pub open spec fn wf(&self) -> bool {
        match self {
            ConnectionConfigView::OpenVpn(_) => true,
            ConnectionConfigView::Wireguard(w) => w.wf(),
        }
    }
}

} // verus!
