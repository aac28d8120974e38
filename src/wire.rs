//! The messages of the management interface: strings, bytes, integers and
//! optional sub-messages only.

use vstd::prelude::*;

verus! {

/// Transport protocol as the interface numbers it.
#[derive(Clone, Copy, Debug, PartialEq, Eq)]
pub enum TransportProtocol {
    Udp,
    Tcp,
}

/// The number that stands for a protocol in a message.
pub open spec fn protocol_number(p: TransportProtocol) -> i32 {
    match p {
        TransportProtocol::Udp => 0,
        TransportProtocol::Tcp => 1,
    }
}

impl TransportProtocol {
    /// The number that stands for this protocol in a message.
    pub fn as_i32(self) -> (r: i32)
        ensures
            r == protocol_number(self),
    {
        match self {
            TransportProtocol::Udp => 0,
            TransportProtocol::Tcp => 1,
        }
    }

    /// The protocol that a number stands for, if any.
    pub fn from_i32(n: i32) -> (r: Option<TransportProtocol>)
        ensures
            r matches Some(p) ==> protocol_number(p) == n,
            r is None ==> n != 0 && n != 1,
    {
        if n == 0 {
            Some(TransportProtocol::Udp)
        } else if n == 1 {
            Some(TransportProtocol::Tcp)
        } else {
            None
        }
    }
}

/// A protocol that the user asks for, as opposed to one in use.
#[derive(Clone, Copy, Debug, PartialEq, Eq)]
pub struct TransportProtocolConstraint {
    pub protocol: i32,
}

/// Version information; an empty `suggested_upgrade` means none.
#[derive(Clone, Debug, PartialEq, Eq)]
pub struct AppVersionInfo {
    pub supported: bool,
    pub latest_stable: String,
    pub latest_beta: String,
    pub suggested_upgrade: String,
}

/// The content of an `AppVersionInfo` message.
pub struct AppVersionInfoWire {
    pub supported: bool,
    pub latest_stable: Seq<char>,
    pub latest_beta: Seq<char>,
    pub suggested_upgrade: Seq<char>,
}

impl View for AppVersionInfo {
    type V = AppVersionInfoWire;

    open spec fn view(&self) -> AppVersionInfoWire {
        AppVersionInfoWire {
            supported: self.supported,
            latest_stable: self.latest_stable@,
            latest_beta: self.latest_beta@,
            suggested_upgrade: self.suggested_upgrade@,
        }
    }
}

/// OpenVPN settings; the endpoint as `host:port` text.
#[derive(Clone, Debug, PartialEq, Eq)]
pub struct OpenvpnConfig {
    pub address: String,
    pub protocol: i32,
    pub username: String,
    pub password: String,
}

/// The local side of a WireGuard tunnel; addresses as text, in order.
#[derive(Clone, Debug, PartialEq, Eq)]
pub struct TunnelConfig {
    pub private_key: Vec<u8>,
    pub addresses: Vec<String>,
}

/// The remote side of a WireGuard tunnel; networks and endpoint as text.
#[derive(Clone, Debug, PartialEq, Eq)]
pub struct PeerConfig {
    pub public_key: Vec<u8>,
    pub allowed_ips: Vec<String>,
    pub endpoint: String,
    pub protocol: i32,
}

/// WireGuard settings; an empty `ipv6_gateway` means none.
#[derive(Clone, Debug, PartialEq, Eq)]
pub struct WireguardConfig {
    pub tunnel: Option<TunnelConfig>,
    pub peer: Option<PeerConfig>,
    pub ipv4_gateway: String,
    pub ipv6_gateway: String,
}

/// A connection configuration: valid when exactly one backend is set.
#[derive(Clone, Debug, PartialEq, Eq)]
pub struct ConnectionConfig {
    pub openvpn: Option<OpenvpnConfig>,
    pub wireguard: Option<WireguardConfig>,
}

/// The content of an `OpenvpnConfig` message.
pub struct OpenvpnWire {
    pub address: Seq<char>,
    pub protocol: i32,
    pub username: Seq<char>,
    pub password: Seq<char>,
}

/// The content of a `TunnelConfig` message.
pub struct TunnelWire {
    pub private_key: Seq<u8>,
    pub addresses: Seq<Seq<char>>,
}

/// The content of a `PeerConfig` message.
pub struct PeerWire {
    pub public_key: Seq<u8>,
    pub allowed_ips: Seq<Seq<char>>,
    pub endpoint: Seq<char>,
    pub protocol: i32,
}

/// The content of a `WireguardConfig` message.
pub struct WireguardWire {
    pub tunnel: Option<TunnelWire>,
    pub peer: Option<PeerWire>,
    pub ipv4_gateway: Seq<char>,
    pub ipv6_gateway: Seq<char>,
}

/// The content of a `ConnectionConfig` message.
pub struct ConnectionConfigWire {
    pub openvpn: Option<OpenvpnWire>,
    pub wireguard: Option<WireguardWire>,
}

impl View for OpenvpnConfig {
    type V = OpenvpnWire;

    open spec fn view(&self) -> OpenvpnWire {
        OpenvpnWire {
            address: self.address@,
            protocol: self.protocol,
            username: self.username@,
            password: self.password@,
        }
    }
}

impl View for TunnelConfig {
    type V = TunnelWire;

    open spec fn view(&self) -> TunnelWire {
        TunnelWire { private_key: self.private_key@, addresses: self.addresses.deep_view() }
    }
}

impl View for PeerConfig {
    type V = PeerWire;

    open spec fn view(&self) -> PeerWire {
        PeerWire {
            public_key: self.public_key@,
            allowed_ips: self.allowed_ips.deep_view(),
            endpoint: self.endpoint@,
            protocol: self.protocol,
        }
    }
}

impl View for WireguardConfig {
    type V = WireguardWire;

    open spec fn view(&self) -> WireguardWire {
        WireguardWire {
            tunnel: match self.tunnel {
                Some(t) => Some(t@),
                None => None,
            },
            peer: match self.peer {
                Some(p) => Some(p@),
                None => None,
            },
            ipv4_gateway: self.ipv4_gateway@,
            ipv6_gateway: self.ipv6_gateway@,
        }
    }
}

impl View for ConnectionConfig {
    type V = ConnectionConfigWire;

    open spec fn view(&self) -> ConnectionConfigWire {
        ConnectionConfigWire {
            openvpn: match self.openvpn {
                Some(o) => Some(o@),
                None => None,
            },
            wireguard: match self.wireguard {
                Some(w) => Some(w@),
                None => None,
            },
        }
    }
}

} // verus!
