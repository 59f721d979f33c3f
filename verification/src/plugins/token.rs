//! `token-plugin`: a fixed list of shared secrets.
//!
//! A shared secret says that a caller knows it and nothing of who they are: this plugin
//! has no roles claim, and a route cannot require roles of it.

use crate::auth::AuthOutcome;
use crate::clock::Moment;
use crate::config::PluginConfig;
use crate::json;
use crate::json::JsonView;
use crate::plugins;
use crate::plugins::session::{CookieView, SessionCookie};
use crate::plugins::{AuthPlugin, Credential};
use crate::provider::Step;
use crate::strmap::StrMap;
use crate::text;
use crate::yaml;
use crate::yaml::YamlView;
use std::sync::Arc;
use vstd::prelude::*;
use vstd::string::*;

verus! {

/// The `type:` a config declares one of these with.
pub const KIND: &'static str = "token-plugin";

/// A list of shared secrets.
pub struct TokenPlugin {
    pub name: String,
    pub header_keys: Vec<String>,
    pub tokens: Vec<String>,
}

/// What a list of shared secrets is made of.
pub struct TokenView {
    pub name: Seq<char>,
    pub header_keys: Seq<Seq<char>>,
    pub tokens: Seq<Seq<char>>,
}

impl View for TokenPlugin {
    type V = TokenView;

    open spec fn view(&self) -> TokenView {
        TokenView {
            name: self.name@,
            header_keys: text::texts(self.header_keys@),
            tokens: text::texts(self.tokens@),
        }
    }
}

/// The secrets a config lists: at least one, and none empty.
pub open spec fn tokens_spec(
    params: Map<Seq<char>, YamlView>,
    env: Map<Seq<char>, String>,
) -> Result<Seq<Seq<char>>, Seq<char>> {
    match plugins::string_list_spec(params, "tokens"@, env) {
        Err(e) => Err(e),
        Ok(tokens) => if tokens.len() == 0 {
            Err(KIND@ + " requires a non-empty 'tokens' list"@)
        } else if tokens.contains(Seq::empty()) {
            Err(KIND@ + " 'tokens' must not contain empty values"@)
        } else {
            Ok(tokens)
        },
    }
}

/// Reads the secrets a config lists.
pub fn read_tokens(params: &StrMap<yaml_serde::Value>, env: &StrMap<String>) -> (r: Result<
    Vec<String>,
    String,
>)
    ensures
        text::list_result_of(r) == tokens_spec(yaml::block_view(*params), env@),
{
    let tokens = match plugins::string_list(params, "tokens", env) {
        Ok(tokens) => tokens,
        Err(e) => {
            return Err(e);
        },
    };
    if tokens.len() == 0 {
        return Err(text::cat2(KIND, " requires a non-empty 'tokens' list"));
    }
    // An empty entry would match a caller that sent an empty value.
    proof {
        reveal_strlit("");
        assert(""@ =~= Seq::<char>::empty());
    }
    if text::contains_text(&tokens, "") {
        return Err(text::cat2(KIND, " 'tokens' must not contain empty values"));
    }
    Ok(tokens)
}

/// The plugin a config declares.
pub open spec fn build_spec(
    name: Seq<char>,
    params: Map<Seq<char>, YamlView>,
    env: Map<Seq<char>, String>,
) -> Result<TokenView, Seq<char>> {
    match tokens_spec(params, env) {
        Err(e) => Err(e),
        Ok(tokens) => match plugins::string_list_spec(params, "keys"@, env) {
            Err(e) => Err(e),
            Ok(header_keys) => Ok(TokenView { name, header_keys, tokens }),
        },
    }
}

/// Builds the plugin a config declares.
pub fn build(config: &PluginConfig, env: &StrMap<String>) -> (r: Result<TokenPlugin, String>)
    ensures
        (match r {
            Ok(p) => Ok(p@),
            Err(e) => Err(e@),
        }) == build_spec(config.name@, yaml::block_view(config.params), env@),
{
    let tokens = match read_tokens(&config.params, env) {
        Ok(tokens) => tokens,
        Err(e) => {
            return Err(e);
        },
    };
    let header_keys = match plugins::string_list(&config.params, "keys", env) {
        Ok(header_keys) => header_keys,
        Err(e) => {
            return Err(e);
        },
    };
    Ok(TokenPlugin { name: config.name.clone(), header_keys, tokens })
}

/// Compares without an early exit, so that the time taken tells a caller nothing of
/// the right prefix.
pub fn constant_time_eq(a: &[u8], b: &[u8]) -> (r: bool)
    ensures
        r == (a@ == b@),
{
    if a.len() != b.len() {
        return false;
    }
    let mut difference: u8 = 0;
    let mut i: usize = 0;
    while i < a.len()
        invariant
            i <= a@.len(),
            a@.len() == b@.len(),
            difference == 0 <==> (forall|k: int| 0 <= k < i ==> a@[k] == b@[k]),
        decreases a@.len() - i,
    {
        let left: u8 = a[i];
        let right: u8 = b[i];
        let before: u8 = difference;
        difference = difference | (left ^ right);
        proof {
            assert((before | (left ^ right)) == 0 <==> (before == 0 && left == right)) by (bit_vector);
        }
        i = i + 1;
    }
    proof {
        if difference == 0 {
            assert(a@ =~= b@);
        }
    }
    difference == 0
}

/// Tests whether a token is one of the secrets, each comparison made in full.
pub fn is_listed(tokens: &Vec<String>, token: &str) -> (r: bool)
    ensures
        r == text::texts(tokens@).contains(token@),
{
    let mut i: usize = 0;
    proof {
        vstd::utf8::encode_utf8_decode_utf8(token@);
    }
    while i < tokens.len()
        invariant
            i <= tokens@.len(),
            forall|k: int| 0 <= k < i ==> text::texts(tokens@)[k] != token@,
            vstd::utf8::decode_utf8(vstd::utf8::encode_utf8(token@)) == token@,
        decreases tokens@.len() - i,
    {
        proof {
            vstd::utf8::encode_utf8_decode_utf8(tokens@[i as int]@);
        }
        if constant_time_eq(tokens[i].as_str().as_bytes(), token.as_bytes()) {
            proof {
                assert(text::texts(tokens@)[i as int] == token@);
            }
            return true;
        }
        i = i + 1;
    }
    proof {
        assert forall|k: int| 0 <= k < text::texts(tokens@).len() implies text::texts(tokens@)[k]
            != token@ by {}
    }
    false
}

impl AuthPlugin for TokenPlugin {
    open spec fn kind_spec(&self) -> Seq<char> {
        KIND@
    }

    open spec fn name_spec(&self) -> Seq<char> {
        self@.name
    }

    open spec fn header_keys_spec(&self) -> Seq<Seq<char>> {
        self@.header_keys
    }

    open spec fn cookie_keys_spec(&self) -> Seq<Seq<char>> {
        Seq::empty()
    }

    open spec fn cookie_spec(&self) -> Option<CookieView> {
        None
    }

    open spec fn roles_claim_spec(&self) -> Option<Seq<char>> {
        None
    }

    open spec fn endpoint_spec(&self) -> Option<Seq<char>> {
        None
    }

    /// A token on the list vouches for no claims; any other is refused.
    open spec fn answers(&self, credential: Credential, at: Moment, step: Step) -> bool {
        if self@.tokens.contains(credential.token@) {
            step matches Step::Done(Ok(claims)) && json::fields(*claims) == Map::<
                Seq<char>,
                JsonView,
            >::empty()
        } else {
            step matches Step::Done(Err(AuthOutcome::Unauthorized(m))) && m@
                == "invalid credentials for '"@ + self@.name + "'"@
        }
    }

    fn kind(&self) -> (r: &'static str) {
        KIND
    }

    fn name(&self) -> (r: &str) {
        self.name.as_str()
    }

    fn header_keys(&self) -> (r: &Vec<String>) {
        &self.header_keys
    }

    fn cookie_keys(&self) -> (r: Vec<String>) {
        let none: Vec<String> = Vec::new();
        proof {
            assert(text::texts(none@) =~= self.cookie_keys_spec());
        }
        none
    }

    fn session_cookie(&self) -> (r: Option<&SessionCookie>) {
        None
    }

    fn roles_claim(&self) -> (r: Option<&str>) {
        None
    }

    fn endpoint(&self) -> (r: Option<plugins::Endpoint>) {
        None
    }

    fn authenticate(&self, credential: Credential<'_>, at: Moment) -> (r: Step) {
        if is_listed(&self.tokens, credential.token) {
            // Verified, but there is no identity to hand on.
            Step::Done(Ok(Arc::new(json::empty_object())))
        } else {
            Step::Done(
                Err(
                    AuthOutcome::Unauthorized(
                        text::cat3("invalid credentials for '", self.name.as_str(), "'"),
                    ),
                ),
            )
        }
    }
}

} // verus!
