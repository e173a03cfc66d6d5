//! The settings of the default network that the console starts on a machine.

use vstd::prelude::*;
use vstd::string::*;

use crate::cache::NetworkIdentity;
use crate::discovery::PeerConfig;
use crate::uuids::new_instance_id;

verus! {

/// The proxy that speeds up the default network.
#[derive(Clone, Copy, Debug, PartialEq, Eq, Structural)]
pub enum QuickTunnel {
    Quic,
    Kcp,
}

/// What a request for the default network carries.
#[derive(Debug)]
pub struct IceWhaleNetworkConfig {
    pub identity: NetworkIdentity,
    pub listeners: Vec<String>,
    pub peers: Vec<PeerConfig>,
    pub tld_dns_zone: Option<String>,
    pub quick_tunnel: QuickTunnel,
}

/// The settings of the default network.
#[derive(Debug)]
pub struct DefaultNetworkSettings {
    pub instance_id: [u8; 16],
    pub dhcp: bool,
    pub identity: NetworkIdentity,
    pub latency_first: bool,
    pub tld_dns_zone: String,
    pub accept_dns: bool,
    pub multi_thread: bool,
    pub multi_thread_count: u32,
    pub enable_quic_proxy: bool,
    pub enable_kcp_proxy: bool,
    pub proxy_cidr: String,
    pub listeners: Vec<String>,
    pub peers: Vec<PeerConfig>,
}

/// All but the instance id of the default network's settings, as described below.
pub open spec fn settings_for(
    r: DefaultNetworkSettings,
    config: IceWhaleNetworkConfig,
    parallelism: Option<usize>,
    proxy_cidr: Seq<char>,
) -> bool {
    &&& r.dhcp
    &&& r.identity == config.identity
    &&& r.latency_first
    &&& r.tld_dns_zone@ == match config.tld_dns_zone {
        Some(z) => z@,
        None => ".ice-whale.io."@,
    }
    &&& r.accept_dns
    &&& r.multi_thread
    &&& r.multi_thread_count == match parallelism {
        Some(p) => p as u32,
        None => 4u32,
    }
    &&& r.enable_quic_proxy == (config.quick_tunnel == QuickTunnel::Quic)
    &&& r.enable_kcp_proxy == (config.quick_tunnel == QuickTunnel::Kcp)
    &&& r.proxy_cidr@ == proxy_cidr
    &&& r.listeners == config.listeners
    &&& r.peers == config.peers
}

/// The settings of the default network with the given instance id: DHCP, the request's
/// identity, listeners and peers, latency first, the request's DNS zone or `.ice-whale.io.`,
/// DNS accepted, one thread per available core (four where that is unknown, the count kept
/// as `as u32` keeps it), the requested proxy, and the network of the default gateway as the
/// proxied CIDR.
pub fn default_network_settings(
    config: IceWhaleNetworkConfig,
    instance_id: [u8; 16],
    parallelism: Option<usize>,
    proxy_cidr: String,
) -> (r: DefaultNetworkSettings)
    ensures
        r.instance_id == instance_id,
        settings_for(r, config, parallelism, proxy_cidr@),
{
    let tld = match config.tld_dns_zone {
        Some(z) => z,
        None => String::from_str(".ice-whale.io."),
    };
    let count: u32 = match parallelism {
        Some(p) => #[verifier::truncate] (p as u32),
        None => 4,
    };
    let quic = match config.quick_tunnel {
        QuickTunnel::Quic => true,
        QuickTunnel::Kcp => false,
    };
    DefaultNetworkSettings {
        instance_id,
        dhcp: true,
        identity: config.identity,
        latency_first: true,
        tld_dns_zone: tld,
        accept_dns: true,
        multi_thread: true,
        multi_thread_count: count,
        enable_quic_proxy: quic,
        enable_kcp_proxy: !quic,
        proxy_cidr,
        listeners: config.listeners,
        peers: config.peers,
    }
}

/// The settings of the default network under a fresh random instance id.
pub fn new_default_network_settings(
    config: IceWhaleNetworkConfig,
    parallelism: Option<usize>,
    proxy_cidr: String,
) -> (r: DefaultNetworkSettings)
    ensures
        settings_for(r, config, parallelism, proxy_cidr@),
{
    let id = new_instance_id();
    default_network_settings(config, id, parallelism, proxy_cidr)
}

/// Settings made for a request turn on exactly the quick tunnel that it asks for: the KCP
/// proxy for KCP, the QUIC proxy for QUIC, and never both or neither.
pub proof fn law_requested_proxy_enabled(
    r: DefaultNetworkSettings,
    config: IceWhaleNetworkConfig,
    parallelism: Option<usize>,
    proxy_cidr: Seq<char>,
)
    requires
        settings_for(r, config, parallelism, proxy_cidr),
    ensures
        r.enable_kcp_proxy <==> config.quick_tunnel is Kcp,
        r.enable_quic_proxy <==> config.quick_tunnel is Quic,
        r.enable_kcp_proxy != r.enable_quic_proxy,
{
}

} // verus!
