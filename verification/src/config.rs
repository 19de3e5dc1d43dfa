//! Shared constants and the proxy configuration.

use vstd::prelude::*;

verus! {

/// Local TCP relay port: marked TCP packets are redirected here.
pub const LOCAL_PROXY_PORT: u16 = 34010;

/// Local UDP relay port: marked UDP packets are redirected here.
pub const LOCAL_UDP_RELAY_PORT: u16 = 34011;

/// NFQUEUE queue number.
pub const NFQUEUE_NUM: u16 = 0;

/// Packet mark for TCP traffic to be proxied.
pub const TCP_MARK: u32 = 1;

/// Packet mark for UDP traffic to be proxied.
pub const UDP_MARK: u32 = 2;

/// PID cache time-to-live in milliseconds.
pub const PID_CACHE_TTL_MS: u64 = 10_000;

/// Stale connection timeout in milliseconds.
pub const CONNECTION_TIMEOUT_MS: u64 = 60_000;

/// Stale connection cleanup interval in seconds.
pub const CLEANUP_INTERVAL_SECS: u64 = 30;

/// How long the TCP relay waits for a connection before it looks whether to stop, in
/// seconds.
pub const ACCEPT_WAIT_SECS: u64 = 1;

/// How long the UDP relay waits for a client, in seconds.
pub const CLIENT_WAIT_SECS: u64 = 1;

/// How long the UDP relay waits for the proxy, in milliseconds.
pub const PROXY_WAIT_MS: u64 = 10;

/// How long the UDP relay pauses after a failed association, in seconds.
pub const ASSOCIATE_PAUSE_SECS: u64 = 5;

/// How long an answer of the socket diagnostics is waited for, in microseconds.
pub const SOCK_DIAG_WAIT_US: u32 = 100_000;

/// SOCKS protocol version.
pub const SOCKS5_VERSION: u8 = 0x05;

/// SOCKS5 method: no authentication.
pub const SOCKS5_AUTH_NONE: u8 = 0x00;

/// SOCKS5 method: username and password.
pub const SOCKS5_AUTH_PASSWORD: u8 = 0x02;

/// SOCKS5 command: CONNECT.
pub const SOCKS5_CMD_CONNECT: u8 = 0x01;

/// SOCKS5 command: UDP ASSOCIATE.
pub const SOCKS5_CMD_UDP_ASSOCIATE: u8 = 0x03;

/// SOCKS5 address type: IPv4.
pub const SOCKS5_ATYP_IPV4: u8 = 0x01;

/// SOCKS5 address type: domain name, behind a byte with its length.
pub const SOCKS5_ATYP_DOMAIN: u8 = 0x03;

/// SOCKS5 address type: IPv6.
pub const SOCKS5_ATYP_IPV6: u8 = 0x04;

/// IP protocol number of TCP.
pub const IPPROTO_TCP: u8 = 6;

/// IP protocol number of UDP.
pub const IPPROTO_UDP: u8 = 17;

/// Kind of upstream proxy.
#[derive(Debug, Clone, Copy, PartialEq, Eq, Structural)]
pub enum ProxyType {
    Http,
    Socks5,
}

/// What to do with matching traffic.
#[derive(Debug, Clone, Copy, PartialEq, Eq, Structural)]
pub enum RuleAction {
    /// Forward through the proxy.
    Proxy,
    /// Allow a direct connection.
    Direct,
    /// Drop the packet.
    Block,
}

/// Which transport protocols a rule covers.
#[derive(Debug, Clone, Copy, PartialEq, Eq, Structural)]
pub enum RuleProtocol {
    Tcp,
    Udp,
    Both,
}

/// Proxy server configuration.
#[derive(Debug, Clone)]
pub struct ProxyConfig {
    pub proxy_type: ProxyType,
    pub host: String,
    pub port: u16,
    pub username: Option<String>,
    pub password: Option<String>,
    /// Resolved IPv4 address of the host, first octet in the lowest byte.
    pub resolved_ip: Option<u32>,
}

impl ProxyConfig {
    /// A configuration without credentials, whose host is not resolved yet.
    pub fn new(proxy_type: ProxyType, host: String, port: u16) -> (r: Self)
        ensures
            r.proxy_type == proxy_type,
            r.host == host,
            r.port == port,
            r.username is None,
            r.password is None,
            r.resolved_ip is None,
    {
        Self { proxy_type, host, port, username: None, password: None, resolved_ip: None }
    }

    /// Whether both a username and a password are set.
    pub fn has_auth(&self) -> (r: bool)
        ensures
            r == (self.username is Some && self.password is Some),
    {
        self.username.is_some() && self.password.is_some()
    }
}

impl Default for ProxyConfig {
    /// A SOCKS5 proxy on the local host.
    fn default() -> (r: Self)
        ensures
            r.proxy_type == ProxyType::Socks5,
            r.host@ == "127.0.0.1"@,
            r.port == 4444,
            r.username is None,
            r.password is None,
            r.resolved_ip is None,
    {
        Self::new(ProxyType::Socks5, "127.0.0.1".to_owned(), 4444)
    }
}

} // verus!
