//! What a gateway config declares.

use crate::strmap::StrMap;
use vstd::prelude::*;
use vstd::string::*;

verus! {

/// A whole config.
pub struct GatewayConfig {
    pub listen: ListenConfig,
    pub registration: RegistrationConfig,
    pub proxy: ProxyConfig,
    pub testing: TestingConfig,
    pub plugins: Option<Vec<PluginConfig>>,
    pub services: Option<Vec<ServiceConfig>>,
    pub routes: Vec<RouteConfig>,
}

/// Where the gateway listens.
pub struct ListenConfig {
    pub host: String,
    pub proxy_port: u16,
    pub registration_port: u16,
}

impl Default for ListenConfig {
    fn default() -> (r: Self)
        ensures
            r.host@ == "0.0.0.0"@,
            r.proxy_port == 8080,
            r.registration_port == 8081,
    {
        Self {
            host: default_host(),
            proxy_port: default_proxy_port(),
            registration_port: default_registration_port(),
        }
    }
}

/// How long a registered instance lives without a heartbeat, and how often the dead
/// are looked for.
pub struct RegistrationConfig {
    pub heartbeat_ttl_seconds: u64,
    pub reap_interval_seconds: u64,
}

impl Default for RegistrationConfig {
    fn default() -> (r: Self)
        ensures
            r.heartbeat_ttl_seconds == 30,
            r.reap_interval_seconds == 10,
    {
        Self {
            heartbeat_ttl_seconds: default_heartbeat_ttl_seconds(),
            reap_interval_seconds: default_reap_interval_seconds(),
        }
    }
}

/// The limits on a proxied request.
pub struct ProxyConfig {
    pub timeout_seconds: u64,
    pub connect_timeout_seconds: u64,
    pub websocket_max_frame_bytes: usize,
}

impl Default for ProxyConfig {
    fn default() -> (r: Self)
        ensures
            r.timeout_seconds == 30,
            r.connect_timeout_seconds == 5,
            r.websocket_max_frame_bytes == 65536,
    {
        Self {
            timeout_seconds: default_proxy_timeout_seconds(),
            connect_timeout_seconds: default_connect_timeout_seconds(),
            websocket_max_frame_bytes: default_websocket_max_frame_bytes(),
        }
    }
}

/// Off unless a config says otherwise: this flag is all that stands between the
/// testing endpoints and the public listener.
pub struct TestingConfig {
    pub userinfo_overrides: bool,
}

impl Default for TestingConfig {
    fn default() -> (r: Self)
        ensures
            !r.userinfo_overrides,
    {
        Self { userinfo_overrides: false }
    }
}

/// The largest websocket frame where a config names none.
pub fn default_websocket_max_frame_bytes() -> (r: usize)
    ensures
        r == 65536,
{
    64 * 1024
}

/// The time an upstream is given where a config names none.
pub fn default_proxy_timeout_seconds() -> (r: u64)
    ensures
        r == 30,
{
    30
}

/// The time a connection is given where a config names none.
pub fn default_connect_timeout_seconds() -> (r: u64)
    ensures
        r == 5,
{
    5
}

/// The address listened on where a config names none.
pub fn default_host() -> (r: String)
    ensures
        r@ == "0.0.0.0"@,
{
    "0.0.0.0".to_owned()
}

/// The proxy's port where a config names none.
pub fn default_proxy_port() -> (r: u16)
    ensures
        r == 8080,
{
    8080
}

/// The registration port where a config names none.
pub fn default_registration_port() -> (r: u16)
    ensures
        r == 8081,
{
    8081
}

/// The life of an instance without a heartbeat where a config names none.
pub fn default_heartbeat_ttl_seconds() -> (r: u64)
    ensures
        r == 30,
{
    30
}

/// The time between two searches for dead instances where a config names none.
pub fn default_reap_interval_seconds() -> (r: u64)
    ensures
        r == 10,
{
    10
}

/// One entry of `plugins:`.
pub struct PluginConfig {
    pub name: String,
    pub plugin_id: String,
    pub params: StrMap<yaml_serde::Value>,
}

/// One entry of `services:`.
pub struct ServiceConfig {
    pub name: String,
    pub url: String,
}

/// One entry of `routes:`.
pub struct RouteConfig {
    pub name: String,
    pub url: String,
    pub paths: Vec<String>,
    pub match_type: MatchType,
    pub strip_path: bool,
    /// Whether the credential a caller presented is relayed upstream. Off by default:
    /// a backend has no need of a credential it could replay elsewhere.
    pub forward_token: bool,
    pub plugins: Option<Vec<PluginReference>>,
}

/// How the paths of a route are compared.
#[derive(Clone, Copy, Debug, PartialEq, Eq, Structural)]
pub enum MatchType {
    EXACT,
    PREFIX,
    REGEX,
}

impl Default for MatchType {
    fn default() -> (r: Self)
        ensures
            r == MatchType::PREFIX,
    {
        MatchType::PREFIX
    }
}

/// A route's reference to a plugin, with what the route binds it to.
pub struct PluginReference {
    pub name: String,
    pub params: Option<StrMap<yaml_serde::Value>>,
}

} // verus!
