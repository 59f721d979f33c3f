//! `oauth2-plugin`: the authorization provider is asked about every token.

use crate::clock::Moment;
use crate::config::PluginConfig;
use crate::digest;
use crate::plugins;
use crate::plugins::session;
use crate::plugins::session::{CookieView, SessionCookie};
use crate::plugins::{AuthPlugin, Credential};
use crate::provider;
use crate::provider::{CacheEntry, Provider, ProviderCache, ProviderView, Step};
use crate::strmap::StrMap;
use crate::text;
use crate::yaml;
use crate::yaml::YamlView;
use vstd::prelude::*;
use vstd::string::*;

verus! {

/// The `type:` a config declares one of these with.
pub const KIND: &'static str = "oauth2-plugin";

/// A provider, what it said, and the session that remembers it.
pub struct OAuth2Plugin {
    pub name: String,
    pub header_keys: Vec<String>,
    pub provider: Provider,
    pub roles_claim: String,
    pub session: Option<SessionCookie>,
    pub cache: ProviderCache,
}

/// What a plugin is made of, and what its provider said.
pub struct OAuth2View {
    pub name: Seq<char>,
    pub header_keys: Seq<Seq<char>>,
    pub provider: ProviderView,
    pub roles_claim: Seq<char>,
    pub session: Option<CookieView>,
    pub cache: Map<Seq<char>, CacheEntry>,
    pub cache_bound: usize,
}

impl View for OAuth2Plugin {
    type V = OAuth2View;

    open spec fn view(&self) -> OAuth2View {
        OAuth2View {
            name: self.name@,
            header_keys: text::texts(self.header_keys@),
            provider: self.provider@,
            roles_claim: self.roles_claim@,
            session: match self.session {
                Some(cookie) => Some(cookie@),
                None => None,
            },
            cache: self.cache@,
            cache_bound: self.cache.max_entries,
        }
    }
}

/// Where the provider is asked, and as whom.
pub struct Standing {
    pub introspection_url: String,
    pub client_id: String,
    pub client_secret: String,
}

/// The texts of a standing.
pub open spec fn standing_view(s: Standing) -> (Seq<char>, Seq<char>, Seq<char>) {
    (s.introspection_url@, s.client_id@, s.client_secret@)
}

/// A parameter that must be given.
pub open spec fn required_spec(
    params: Map<Seq<char>, YamlView>,
    key: Seq<char>,
    env: Map<Seq<char>, String>,
) -> Result<Seq<char>, Seq<char>> {
    match plugins::string_spec(params, key, env) {
        Err(e) => Err(e),
        Ok(Some(s)) => Ok(s),
        Ok(None) => Err(KIND@ + " requires '"@ + key + "'"@),
    }
}

/// Reads a parameter that must be given.
fn required(params: &StrMap<yaml_serde::Value>, key: &str, env: &StrMap<String>) -> (r: Result<
    String,
    String,
>)
    ensures
        text::result_of(r) == required_spec(yaml::block_view(*params), key@, env@),
{
    match plugins::string(params, key, env) {
        Err(e) => Err(e),
        Ok(Some(s)) => Ok(s),
        Ok(None) => {
            let mut message = text::cat3(KIND, " requires '", key);
            message.append("'");
            Err(message)
        },
    }
}

/// The standing a config declares.
pub open spec fn standing_spec(
    params: Map<Seq<char>, YamlView>,
    env: Map<Seq<char>, String>,
) -> Result<(Seq<char>, Seq<char>, Seq<char>), Seq<char>> {
    match required_spec(params, "introspection-url"@, env) {
        Err(e) => Err(e),
        Ok(url) => match required_spec(params, "client-id"@, env) {
            Err(e) => Err(e),
            Ok(id) => match required_spec(params, "client-secret"@, env) {
                Err(e) => Err(e),
                Ok(secret) => Ok((url, id, secret)),
            },
        },
    }
}

/// Reads the standing a config declares.
pub fn read_standing(params: &StrMap<yaml_serde::Value>, env: &StrMap<String>) -> (r: Result<
    Standing,
    String,
>)
    ensures
        (match r {
            Ok(s) => Ok(standing_view(s)),
            Err(e) => Err(e@),
        }) == standing_spec(yaml::block_view(*params), env@),
{
    let introspection_url = match required(params, "introspection-url", env) {
        Ok(s) => s,
        Err(e) => {
            return Err(e);
        },
    };
    let client_id = match required(params, "client-id", env) {
        Ok(s) => s,
        Err(e) => {
            return Err(e);
        },
    };
    let client_secret = match required(params, "client-secret", env) {
        Ok(s) => s,
        Err(e) => {
            return Err(e);
        },
    };
    Ok(Standing { introspection_url, client_id, client_secret })
}

/// The header that shows the provider who asks.
pub open spec fn basic_spec(id: Seq<char>, secret: Seq<char>) -> Seq<char> {
    "Basic "@ + digest::base64_standard(vstd::utf8::encode_utf8(id + ":"@ + secret))
}

/// The rest of a provider's parameters, and the claim that holds roles: the provider's
/// scope where a config does not say.
pub open spec fn provider_spec(
    params: Map<Seq<char>, YamlView>,
    env: Map<Seq<char>, String>,
    standing: (Seq<char>, Seq<char>, Seq<char>),
) -> Result<(ProviderView, Seq<char>), Seq<char>> {
    match plugins::string_spec(params, "userinfo-url"@, env) {
        Err(e) => Err(e),
        Ok(userinfo_url) => match plugins::string_spec(params, "roles-claim"@, env) {
            Err(e) => Err(e),
            Ok(claim) => match plugins::number_spec(params, "timeout-seconds"@, 5) {
                Err(e) => Err(e),
                Ok(timeout) => match plugins::number_spec(params, "cache-max-seconds"@, 60) {
                    Err(e) => Err(e),
                    Ok(cache_max) => match plugins::number_spec(
                        params,
                        "cache-negative-seconds"@,
                        5,
                    ) {
                        Err(e) => Err(e),
                        Ok(cache_negative) => match plugins::number_spec(
                            params,
                            "cache-max-entries"@,
                            10_000,
                        ) {
                            Err(e) => Err(e),
                            Ok(entries) => Ok(
                                (
                                    ProviderView {
                                        introspection_url: standing.0,
                                        userinfo_url,
                                        authorization: basic_spec(standing.1, standing.2),
                                        timeout,
                                        cache_max,
                                        cache_negative,
                                        cache_max_entries: entries as usize,
                                    },
                                    session::or_else(claim, "scope"@),
                                ),
                            ),
                        },
                    },
                },
            },
        },
    }
}

/// Reads the rest of a provider's parameters, and the claim that holds roles.
pub fn read_provider(
    params: &StrMap<yaml_serde::Value>,
    env: &StrMap<String>,
    standing: Standing,
) -> (r: Result<(Provider, String), String>)
    ensures
        (match r {
            Ok(p) => Ok((p.0@, p.1@)),
            Err(e) => Err(e@),
        }) == provider_spec(yaml::block_view(*params), env@, standing_view(standing)),
{
    let userinfo_url = match plugins::string(params, "userinfo-url", env) {
        Ok(s) => s,
        Err(e) => {
            return Err(e);
        },
    };
    let pair = text::cat3(standing.client_id.as_str(), ":", standing.client_secret.as_str());
    let encoded = digest::base64_text(pair.as_str());
    let authorization = text::cat2("Basic ", encoded.as_str());
    // Authorization is scope-based unless a config says otherwise.
    let roles_claim = match plugins::string(params, "roles-claim", env) {
        Ok(Some(claim)) => claim,
        Ok(None) => "scope".to_owned(),
        Err(e) => {
            return Err(e);
        },
    };
    let timeout = match plugins::number(params, "timeout-seconds", 5) {
        Ok(n) => n,
        Err(e) => {
            return Err(e);
        },
    };
    let cache_max = match plugins::number(params, "cache-max-seconds", 60) {
        Ok(n) => n,
        Err(e) => {
            return Err(e);
        },
    };
    let cache_negative = match plugins::number(params, "cache-negative-seconds", 5) {
        Ok(n) => n,
        Err(e) => {
            return Err(e);
        },
    };
    let entries = match plugins::number(params, "cache-max-entries", 10_000) {
        Ok(n) => n,
        Err(e) => {
            return Err(e);
        },
    };
    let provider = Provider {
        introspection_url: standing.introspection_url,
        userinfo_url,
        authorization,
        timeout,
        cache_max,
        cache_negative,
        cache_max_entries: entries as usize,
    };
    Ok((provider, roles_claim))
}

/// The plugin a config declares, before its provider has said anything.
pub open spec fn build_spec(
    name: Seq<char>,
    params: Map<Seq<char>, YamlView>,
    env: Map<Seq<char>, String>,
) -> Result<OAuth2View, Seq<char>> {
    match standing_spec(params, env) {
        Err(e) => Err(e),
        Ok(standing) => match plugins::string_list_spec(params, "keys"@, env) {
            Err(e) => Err(e),
            Ok(header_keys) => match provider_spec(params, env, standing) {
                Err(e) => Err(e),
                Ok((provider, roles_claim)) => match session::session_spec(params, KIND@, env) {
                    Err(e) => Err(e),
                    Ok(session) => Ok(
                        OAuth2View {
                            name,
                            header_keys,
                            provider,
                            roles_claim,
                            session,
                            cache: Map::empty(),
                            cache_bound: provider.cache_max_entries,
                        },
                    ),
                },
            },
        },
    }
}

/// Builds the plugin a config declares.
pub fn build(config: &PluginConfig, env: &StrMap<String>) -> (r: Result<OAuth2Plugin, String>)
    ensures
        (match r {
            Ok(p) => Ok(p@),
            Err(e) => Err(e@),
        }) == build_spec(config.name@, yaml::block_view(config.params), env@),
        r matches Ok(p) ==> p.cache@ == Map::<Seq<char>, CacheEntry>::empty()
            && p.cache.max_entries == p@.provider.cache_max_entries,
{
    let standing = match read_standing(&config.params, env) {
        Ok(s) => s,
        Err(e) => {
            return Err(e);
        },
    };
    let header_keys = match plugins::string_list(&config.params, "keys", env) {
        Ok(header_keys) => header_keys,
        Err(e) => {
            return Err(e);
        },
    };
    let (provider, roles_claim) = match read_provider(&config.params, env, standing) {
        Ok(p) => p,
        Err(e) => {
            return Err(e);
        },
    };
    let session = match session::build(&config.params, KIND, env) {
        Ok(session) => session,
        Err(e) => {
            return Err(e);
        },
    };
    let cache = provider.new_cache();
    Ok(
        OAuth2Plugin {
            name: config.name.clone(),
            header_keys,
            provider,
            roles_claim,
            session,
            cache,
        },
    )
}

impl AuthPlugin for OAuth2Plugin {
    open spec fn kind_spec(&self) -> Seq<char> {
        KIND@
    }

    open spec fn name_spec(&self) -> Seq<char> {
        self@.name
    }

    open spec fn header_keys_spec(&self) -> Seq<Seq<char>> {
        self@.header_keys
    }

    open spec fn cookie_keys_spec(&self) -> Seq<Seq<char>> {
        Seq::empty()
    }

    open spec fn cookie_spec(&self) -> Option<CookieView> {
        self@.session
    }

    open spec fn roles_claim_spec(&self) -> Option<Seq<char>> {
        Some(self@.roles_claim)
    }

    open spec fn endpoint_spec(&self) -> Option<Seq<char>> {
        None
    }

    open spec fn answers(&self, credential: Credential, at: Moment, step: Step) -> bool {
        provider::begins(self@.provider, self.cache, credential.token@, at.nanos, step)
    }

    fn kind(&self) -> (r: &'static str) {
        KIND
    }

    fn name(&self) -> (r: &str) {
        self.name.as_str()
    }

    fn header_keys(&self) -> (r: &Vec<String>) {
        &self.header_keys
    }

    fn cookie_keys(&self) -> (r: Vec<String>) {
        let none: Vec<String> = Vec::new();
        proof {
            assert(text::texts(none@) =~= self.cookie_keys_spec());
        }
        none
    }

    fn session_cookie(&self) -> (r: Option<&SessionCookie>) {
        match &self.session {
            Some(cookie) => Some(cookie),
            None => None,
        }
    }

    fn roles_claim(&self) -> (r: Option<&str>) {
        Some(self.roles_claim.as_str())
    }

    fn endpoint(&self) -> (r: Option<plugins::Endpoint>) {
        None
    }

    fn authenticate(&self, credential: Credential<'_>, at: Moment) -> (r: Step) {
        self.provider.begin(&self.cache, credential.token, at.nanos)
    }
}

} // verus!
