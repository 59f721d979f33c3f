//! `jwt-plugin`: HS256 tokens verified against a shared secret.
//!
//! Nothing is asked of a provider, so nothing can be unavailable and nothing is cached.
//! A token stays valid until it expires: there is no revocation.

use crate::auth::AuthOutcome;
use crate::clock::Moment;
use crate::config::PluginConfig;
use crate::json;
use crate::json::Json;
use crate::plugins;
use crate::plugins::session;
use crate::plugins::session::{CookieView, SessionCookie};
use crate::plugins::{AuthPlugin, Credential};
use crate::provider::Step;
use crate::signed::TokenKey;
use crate::strmap::StrMap;
use crate::text;
use crate::yaml;
use crate::yaml::YamlView;
use std::sync::Arc;
use vstd::prelude::*;
use vstd::string::*;

verus! {

/// The `type:` a config declares one of these with.
pub const KIND: &'static str = "jwt-plugin";

/// A shared secret and what its tokens must name.
pub struct JwtPlugin {
    pub name: String,
    pub header_keys: Vec<String>,
    pub cookie_keys: Vec<String>,
    pub key: TokenKey,
    pub roles_claim: String,
}

/// What a token key is made of.
pub struct KeyView {
    pub secret: Seq<char>,
    pub issuer: Option<Seq<char>>,
    pub audience: Option<Seq<char>>,
}

/// What a token key is made of.
pub open spec fn key_view(key: TokenKey) -> KeyView {
    KeyView {
        secret: key.secret@,
        issuer: text::opt_of(key.issuer),
        audience: text::opt_of(key.audience),
    }
}

/// What a plugin is made of.
pub struct JwtView {
    pub name: Seq<char>,
    pub header_keys: Seq<Seq<char>>,
    pub cookie_keys: Seq<Seq<char>>,
    pub key: KeyView,
    pub roles_claim: Seq<char>,
}

impl View for JwtPlugin {
    type V = JwtView;

    open spec fn view(&self) -> JwtView {
        JwtView {
            name: self.name@,
            header_keys: text::texts(self.header_keys@),
            cookie_keys: text::texts(self.cookie_keys@),
            key: key_view(self.key),
            roles_claim: self.roles_claim@,
        }
    }
}

/// The key a config declares: a secret that is not empty, and the issuer and audience
/// its tokens must name.
pub open spec fn key_spec(params: Map<Seq<char>, YamlView>, env: Map<Seq<char>, String>) -> Result<
    KeyView,
    Seq<char>,
> {
    match plugins::string_spec(params, "secret"@, env) {
        Err(e) => Err(e),
        Ok(None) => Err(KIND@ + " requires 'secret'"@),
        Ok(Some(secret)) => if secret.len() == 0 {
            Err(KIND@ + " 'secret' must not be empty"@)
        } else {
            match plugins::string_spec(params, "issuer"@, env) {
                Err(e) => Err(e),
                Ok(issuer) => match plugins::string_spec(params, "audience"@, env) {
                    Err(e) => Err(e),
                    Ok(audience) => Ok(KeyView { secret, issuer, audience }),
                },
            }
        },
    }
}

/// Reads the key a config declares.
pub fn read_key(params: &StrMap<yaml_serde::Value>, env: &StrMap<String>) -> (r: Result<
    TokenKey,
    String,
>)
    ensures
        (match r {
            Ok(k) => Ok(key_view(k)),
            Err(e) => Err(e@),
        }) == key_spec(yaml::block_view(*params), env@),
{
    let secret = match plugins::string(params, "secret", env) {
        Ok(Some(secret)) => secret,
        Ok(None) => {
            return Err(text::cat2(KIND, " requires 'secret'"));
        },
        Err(e) => {
            return Err(e);
        },
    };
    proof {
        reveal_strlit("");
        assert(secret@.len() == 0 ==> secret@ =~= ""@);
    }
    if text::same(secret.as_str(), "") {
        return Err(text::cat2(KIND, " 'secret' must not be empty"));
    }
    let issuer = match plugins::string(params, "issuer", env) {
        Ok(issuer) => issuer,
        Err(e) => {
            return Err(e);
        },
    };
    let audience = match plugins::string(params, "audience", env) {
        Ok(audience) => audience,
        Err(e) => {
            return Err(e);
        },
    };
    Ok(TokenKey { secret, issuer, audience })
}

/// The plugin a config declares.
pub open spec fn build_spec(
    name: Seq<char>,
    params: Map<Seq<char>, YamlView>,
    env: Map<Seq<char>, String>,
) -> Result<JwtView, Seq<char>> {
    match key_spec(params, env) {
        Err(e) => Err(e),
        Ok(key) => match plugins::string_list_spec(params, "keys"@, env) {
            Err(e) => Err(e),
            Ok(header_keys) => match plugins::string_list_spec(params, "cookie-keys"@, env) {
                Err(e) => Err(e),
                Ok(cookie_keys) => match plugins::string_spec(params, "roles-claim"@, env) {
                    Err(e) => Err(e),
                    Ok(claim) => Ok(
                        JwtView {
                            name,
                            header_keys,
                            cookie_keys,
                            key,
                            roles_claim: session::or_else(claim, "roles"@),
                        },
                    ),
                },
            },
        },
    }
}

/// Builds the plugin a config declares.
pub fn build(config: &PluginConfig, env: &StrMap<String>) -> (r: Result<JwtPlugin, String>)
    ensures
        (match r {
            Ok(p) => Ok(p@),
            Err(e) => Err(e@),
        }) == build_spec(config.name@, yaml::block_view(config.params), env@),
{
    let key = match read_key(&config.params, env) {
        Ok(key) => key,
        Err(e) => {
            return Err(e);
        },
    };
    let header_keys = match plugins::string_list(&config.params, "keys", env) {
        Ok(header_keys) => header_keys,
        Err(e) => {
            return Err(e);
        },
    };
    // A session that another plugin minted is a token like any other.
    let cookie_keys = match plugins::string_list(&config.params, "cookie-keys", env) {
        Ok(cookie_keys) => cookie_keys,
        Err(e) => {
            return Err(e);
        },
    };
    let roles_claim = match plugins::string(&config.params, "roles-claim", env) {
        Ok(Some(claim)) => claim,
        Ok(None) => "roles".to_owned(),
        Err(e) => {
            return Err(e);
        },
    };
    Ok(JwtPlugin { name: config.name.clone(), header_keys, cookie_keys, key, roles_claim })
}

/// The refusal of a token that did not verify.
pub open spec fn refusal(name: Seq<char>, kind: Seq<char>) -> Seq<char> {
    "invalid token for '"@ + name + "': "@ + kind
}

/// What a token's verification means for the plugin `name`.
pub fn verdict(name: &str, verified: Result<StrMap<Json>, String>) -> (r: Result<
    Arc<StrMap<Json>>,
    AuthOutcome,
>)
    ensures
        match verified {
            Ok(claims) => r matches Ok(c) && *c == claims,
            Err(kind) => r matches Err(AuthOutcome::Unauthorized(m)) && m@ == refusal(name@, kind@),
        },
{
    match verified {
        Ok(claims) => Ok(Arc::new(claims)),
        Err(kind) => {
            let mut message = text::cat3("invalid token for '", name, "': ");
            message.append(kind.as_str());
            Err(AuthOutcome::Unauthorized(message))
        },
    }
}

/// Whether a step is what verifying a token comes to: the claims the key vouches for,
/// or a refusal that names the plugin and what is wrong with the token.
pub open spec fn verifies(key: TokenKey, name: Seq<char>, token: Seq<char>, step: Step) -> bool {
    match step {
        Step::Done(Ok(claims)) => key.vouches(token, json::fields(*claims)),
        Step::Done(Err(AuthOutcome::Unauthorized(m))) => exists|kind: Seq<char>|
            key.refuses(token, kind) && m@ == #[trigger] refusal(name, kind),
        _ => false,
    }
}

impl AuthPlugin for JwtPlugin {
    open spec fn kind_spec(&self) -> Seq<char> {
        KIND@
    }

    open spec fn name_spec(&self) -> Seq<char> {
        self@.name
    }

    open spec fn header_keys_spec(&self) -> Seq<Seq<char>> {
        self@.header_keys
    }

    open spec fn cookie_keys_spec(&self) -> Seq<Seq<char>> {
        self@.cookie_keys
    }

    open spec fn cookie_spec(&self) -> Option<CookieView> {
        None
    }

    open spec fn roles_claim_spec(&self) -> Option<Seq<char>> {
        Some(self@.roles_claim)
    }

    open spec fn endpoint_spec(&self) -> Option<Seq<char>> {
        None
    }

    open spec fn answers(&self, credential: Credential, at: Moment, step: Step) -> bool {
        verifies(self.key, self@.name, credential.token@, step)
    }

    fn kind(&self) -> (r: &'static str) {
        KIND
    }

    fn name(&self) -> (r: &str) {
        self.name.as_str()
    }

    fn header_keys(&self) -> (r: &Vec<String>) {
        &self.header_keys
    }

    fn cookie_keys(&self) -> (r: Vec<String>) {
        text::copy_texts(&self.cookie_keys)
    }

    fn session_cookie(&self) -> (r: Option<&SessionCookie>) {
        None
    }

    fn roles_claim(&self) -> (r: Option<&str>) {
        Some(self.roles_claim.as_str())
    }

    fn endpoint(&self) -> (r: Option<plugins::Endpoint>) {
        None
    }

    fn authenticate(&self, credential: Credential<'_>, at: Moment) -> (r: Step) {
        Step::Done(verdict(self.name.as_str(), self.key.verify(credential.token)))
    }
}

} // verus!
