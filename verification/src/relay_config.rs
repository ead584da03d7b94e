//! Relay configuration and its defaults, the relay server facade, and how
//! the relay's HTTP endpoints read their request.

use vstd::prelude::*;
use crate::caps::Caps;
use crate::proto::{IpAddress, ServerId};

verus! {

/// Where the relay listens.
#[derive(Clone, Copy, Debug, PartialEq, Eq, Structural)]
pub struct ListenConfig {
    pub addr: IpAddress,
    pub port: u16,
}

impl Default for ListenConfig {
    /// All interfaces, port 8080.
    fn default() -> (r: Self)
        ensures
            r == (ListenConfig { addr: IpAddress::V4(0, 0, 0, 0), port: 8080 }),
    {
        ListenConfig { addr: IpAddress::V4(0, 0, 0, 0), port: 8080 }
    }
}

/// Capacity limits (`max_servers` daemons registered at once).
#[derive(Clone, Copy, Debug, PartialEq, Eq, Structural)]
pub struct CapsConfig {
    pub max_servers: usize,
    pub max_pairs: usize,
    pub max_bytes_per_sec: u64,
    pub max_queued_bytes: usize,
}

impl Default for CapsConfig {
    /// 256 hosts, 2048 pairs, 4 MiB/s per pair, 8 MiB queued per pair.
    fn default() -> (r: Self)
        ensures
            r == (CapsConfig {
                max_servers: 256,
                max_pairs: 2048,
                max_bytes_per_sec: 4194304,
                max_queued_bytes: 8388608,
            }),
    {
        CapsConfig { max_servers: 256, max_pairs: 2048, max_bytes_per_sec: 4194304, max_queued_bytes: 8388608 }
    }
}

/// The stuck-pair sweeper.
#[derive(Clone, Copy, Debug, PartialEq, Eq, Structural)]
pub struct GuillotineConfig {
    pub idle_seconds: u64,
}

impl Default for GuillotineConfig {
    /// Two minutes without progress.
    fn default() -> (r: Self)
        ensures
            r.idle_seconds == 120,
    {
        GuillotineConfig { idle_seconds: 120 }
    }
}

/// Bearer tokens that hosts and clients must present, when set.
#[derive(Clone, Debug, PartialEq, Eq)]
pub struct AuthConfig {
    pub host_token: Option<String>,
    pub client_token: Option<String>,
}

impl Default for AuthConfig {
    fn default() -> (r: Self)
        ensures
            r.host_token is None,
            r.client_token is None,
    {
        AuthConfig { host_token: None, client_token: None }
    }
}

/// The whole relay configuration.
#[derive(Clone, Debug, PartialEq, Eq)]
pub struct RelayConfig {
    pub listen: ListenConfig,
    pub caps: CapsConfig,
    pub guillotine: GuillotineConfig,
    pub auth: AuthConfig,
}

impl Default for RelayConfig {
    fn default() -> (r: Self)
        ensures
            r.listen == (ListenConfig { addr: IpAddress::V4(0, 0, 0, 0), port: 8080 }),
            r.caps == (CapsConfig {
                max_servers: 256,
                max_pairs: 2048,
                max_bytes_per_sec: 4194304,
                max_queued_bytes: 8388608,
            }),
            r.guillotine.idle_seconds == 120,
            r.auth.host_token is None,
            r.auth.client_token is None,
    {
        RelayConfig {
            listen: ListenConfig::default(),
            caps: CapsConfig::default(),
            guillotine: GuillotineConfig::default(),
            auth: AuthConfig::default(),
        }
    }
}

impl RelayConfig {
    /// The capacity counters for this configuration.
    pub fn new_caps(&self) -> (r: Caps)
        ensures
            r.spec_max_hosts() == self.caps.max_servers,
            r.spec_max_pairs() == self.caps.max_pairs,
            r.spec_max_bytes_per_sec() == self.caps.max_bytes_per_sec,
            r.spec_max_queued_bytes() == self.caps.max_queued_bytes,
    {
        Caps::new(self.caps.max_servers, self.caps.max_pairs, self.caps.max_bytes_per_sec, self.caps.max_queued_bytes)
    }
}

/// The relay, configured and not yet serving.
#[derive(Clone, Debug)]
pub struct RelayServer {
    config: RelayConfig,
}

impl RelayServer {
    pub closed spec fn spec_config(&self) -> RelayConfig {
        self.config
    }

    pub fn new(config: RelayConfig) -> (r: Self)
        ensures
            r.spec_config() == config,
    {
        RelayServer { config }
    }

    pub fn config(&self) -> (r: &RelayConfig)
        ensures
            *r == self.spec_config(),
    {
        &self.config
    }
}

/// The relay's banner.
pub fn version_banner() -> (r: &'static str)
    ensures
        r@ == "cli-pocket-relay (scaffold)"@,
{
    "cli-pocket-relay (scaffold)"
}

/// What the `uuid` crate's `Uuid::parse_str` accepts and the 128 bits it
/// reads.
pub uninterp spec fn parsed_uuid(s: Seq<char>) -> Option<u128>;

/// `uuid::Uuid::parse_str`, as its 128 bits.
#[verifier::external_body]
fn parse_uuid(s: &str) -> (r: Option<u128>)
    ensures
        r == parsed_uuid(s@),
{
    uuid::Uuid::parse_str(s).ok().map(|u| u.as_u128())
}

/// The server a client connection asks for (its `server` query value), or
/// the HTTP status and body that refuse it.
pub fn client_target(server: &str) -> (r: Result<ServerId, (u16, &'static str)>)
    ensures
        parsed_uuid(server@) is Some ==> r == Ok::<ServerId, (u16, &'static str)>(ServerId(parsed_uuid(server@)->0)),
        parsed_uuid(server@) is None ==> r is Err && r->Err_0.0 == 400 && r->Err_0.1@ == "invalid server"@,
{
    match parse_uuid(server) {
        Some(id) => Ok(ServerId(id)),
        None => Err((400, "invalid server")),
    }
}

/// The relay's health answer.
pub fn health() -> (r: (u16, &'static str))
    ensures
        r.0 == 200,
        r.1@ == "ok"@,
{
    (200, "ok")
}

} // verus!
