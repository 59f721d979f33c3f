//! Authentication and authorization: the policies a config declares, and the guards
//! that bind them to routes.

use crate::clock;
use crate::clock::Moment;
use crate::cookies;
use crate::config::{PluginConfig, PluginReference};
use crate::headers;
use crate::headers::HeaderList;
use crate::json;
use crate::json::{Json, JsonView, Numeric};
use crate::plugins;
use crate::plugins::jwt;
use crate::plugins::jwt::KeyView;
use crate::plugins::oauth2;
use crate::plugins::session;
use crate::plugins::session::{CookieView, SessionCookie};
use crate::plugins::testing::{TestingPlugin, TestingView};
use crate::plugins::token;
use crate::provider;
use crate::provider::{Provider, ProviderCache, ProviderReply, ProviderRequest, ProviderView, Step};
use crate::signed::TokenKey;
use crate::strmap::StrMap;
use crate::testing;
use crate::testing::ClaimOverrides;
use crate::text;
use crate::yaml;
use crate::yaml::{YamlLevel, YamlView};
use std::sync::Arc;
use vstd::prelude::*;
use vstd::string::*;

verus! {

/// How a request for a route ends with its guards.
pub enum AuthOutcome {
    Allowed(Vec<(String, String)>),
    Unauthorized(String),
    Forbidden(String),
    Unavailable(String),
}

/// What an outcome says.
pub enum OutcomeView {
    Allowed(Seq<(Seq<char>, Seq<char>)>),
    Unauthorized(Seq<char>),
    Forbidden(Seq<char>),
    Unavailable(Seq<char>),
}

impl View for AuthOutcome {
    type V = OutcomeView;

    open spec fn view(&self) -> OutcomeView {
        match self {
            AuthOutcome::Allowed(v) => OutcomeView::Allowed(text::pairs_view(v@)),
            AuthOutcome::Unauthorized(m) => OutcomeView::Unauthorized(m@),
            AuthOutcome::Forbidden(m) => OutcomeView::Forbidden(m@),
            AuthOutcome::Unavailable(m) => OutcomeView::Unavailable(m@),
        }
    }
}

/// What a credential is held against.
pub enum AuthPolicy {
    StaticToken { header_keys: Vec<String>, tokens: Vec<String> },
    JwtHs256 {
        header_keys: Vec<String>,
        /// The cookies a token may stand in, tried after every header.
        cookie_keys: Vec<String>,
        key: TokenKey,
        roles_claim: String,
    },
    OAuth2(OAuth2Policy),
    /// Claim sets that stand in for a provider.
    Testing(TestingPlugin),
}

/// A policy that asks an authorization provider.
pub struct OAuth2Policy {
    pub header_keys: Vec<String>,
    pub provider: Provider,
    pub roles_claim: String,
    /// The session that a caller it lets pass is given. It is never taken back as a
    /// credential: only the provider says whether a token is still good.
    pub session: Option<SessionCookie>,
}

/// What a policy is made of.
pub enum PolicyView {
    StaticToken { header_keys: Seq<Seq<char>>, tokens: Seq<Seq<char>> },
    JwtHs256 {
        header_keys: Seq<Seq<char>>,
        cookie_keys: Seq<Seq<char>>,
        key: KeyView,
        roles_claim: Seq<char>,
    },
    OAuth2 {
        header_keys: Seq<Seq<char>>,
        provider: ProviderView,
        roles_claim: Seq<char>,
        session: Option<CookieView>,
    },
    Testing(TestingView),
}

impl View for AuthPolicy {
    type V = PolicyView;

    open spec fn view(&self) -> PolicyView {
        match self {
            AuthPolicy::StaticToken { header_keys, tokens } => PolicyView::StaticToken {
                header_keys: text::texts(header_keys@),
                tokens: text::texts(tokens@),
            },
            AuthPolicy::JwtHs256 { header_keys, cookie_keys, key, roles_claim } =>
            PolicyView::JwtHs256 {
                header_keys: text::texts(header_keys@),
                cookie_keys: text::texts(cookie_keys@),
                key: jwt::key_view(*key),
                roles_claim: roles_claim@,
            },
            AuthPolicy::OAuth2(p) => PolicyView::OAuth2 {
                header_keys: text::texts(p.header_keys@),
                provider: p.provider@,
                roles_claim: p.roles_claim@,
                session: match p.session {
                    Some(cookie) => Some(cookie@),
                    None => None,
                },
            },
            AuthPolicy::Testing(p) => PolicyView::Testing(p@),
        }
    }
}

/// The headers a policy reads a credential out of, beyond `Authorization`.
pub open spec fn policy_keys(p: PolicyView) -> Seq<Seq<char>> {
    match p {
        PolicyView::StaticToken { header_keys, .. } => header_keys,
        PolicyView::JwtHs256 { header_keys, .. } => header_keys,
        PolicyView::OAuth2 { header_keys, .. } => header_keys,
        PolicyView::Testing(p) => p.header_keys,
    }
}

/// The cookies a policy reads a credential out of, after every header.
pub open spec fn policy_cookie_keys(p: PolicyView) -> Seq<Seq<char>> {
    match p {
        PolicyView::JwtHs256 { cookie_keys, .. } => cookie_keys,
        _ => Seq::empty(),
    }
}

/// The session cookie a policy mints, where it does.
pub open spec fn policy_session(p: PolicyView) -> Option<CookieView> {
    match p {
        PolicyView::OAuth2 { session, .. } => session,
        _ => None,
    }
}

/// The session cookie that a policy looks at in what a caller sends, where it does: to
/// see whether one has to be minted, or for claims that others are laid over.
pub open spec fn policy_read_session(p: PolicyView) -> Option<CookieView> {
    match p {
        PolicyView::OAuth2 { session, .. } => session,
        PolicyView::Testing(plugin) => plugin.session,
        _ => None,
    }
}

/// The `type:` a policy was declared with.
pub open spec fn policy_kind_spec(p: PolicyView) -> Seq<char> {
    match p {
        PolicyView::StaticToken { .. } => token::KIND@,
        PolicyView::JwtHs256 { .. } => jwt::KIND@,
        PolicyView::OAuth2 { .. } => oauth2::KIND@,
        PolicyView::Testing(_) => plugins::testing::KIND@,
    }
}

/// The policy a config declares, once the headers it reads are known.
pub open spec fn policy_of(
    kind: Seq<char>,
    params: Map<Seq<char>, YamlView>,
    env: Map<Seq<char>, String>,
    header_keys: Seq<Seq<char>>,
) -> Result<PolicyView, Seq<char>> {
    if kind == token::KIND@ {
        match token::tokens_spec(params, env) {
            Err(e) => Err(e),
            Ok(tokens) => Ok(PolicyView::StaticToken { header_keys, tokens }),
        }
    } else if kind == jwt::KIND@ {
        match jwt::key_spec(params, env) {
            Err(e) => Err(e),
            Ok(key) => match plugins::string_list_spec(params, "cookie-keys"@, env) {
                Err(e) => Err(e),
                Ok(cookie_keys) => match plugins::string_spec(params, "roles-claim"@, env) {
                    Err(e) => Err(e),
                    Ok(claim) => Ok(
                        PolicyView::JwtHs256 {
                            header_keys,
                            cookie_keys,
                            key,
                            roles_claim: session::or_else(claim, "roles"@),
                        },
                    ),
                },
            },
        }
    } else if kind == oauth2::KIND@ {
        match oauth2::standing_spec(params, env) {
            Err(e) => Err(e),
            Ok(standing) => match oauth2::provider_spec(params, env, standing) {
                Err(e) => Err(e),
                Ok((provider, roles_claim)) => match session::session_spec(
                    params,
                    oauth2::KIND@,
                    env,
                ) {
                    Err(e) => Err(e),
                    Ok(session) => Ok(
                        PolicyView::OAuth2 { header_keys, provider, roles_claim, session },
                    ),
                },
            },
        }
    } else {
        Err(
            "unknown plugin type '"@ + kind + "' (expected "@ + plugins::either_of(
                plugins::quoted(plugins::kinds_spec()),
            ) + ")"@,
        )
    }
}

/// The policy a config declares, or the first thing wrong with it.
pub open spec fn policy_spec(
    kind: Seq<char>,
    name: Seq<char>,
    params: Map<Seq<char>, YamlView>,
    env: Map<Seq<char>, String>,
) -> Result<PolicyView, Seq<char>> {
    if kind == plugins::testing::KIND@ {
        match plugins::testing::build_spec(name, params, env) {
            Err(e) => Err(e),
            Ok(plugin) => Ok(PolicyView::Testing(plugin)),
        }
    } else {
        listed_policy_spec(kind, params, env)
    }
}

/// The policy of a type that may name headers to read before anything else.
pub open spec fn listed_policy_spec(
    kind: Seq<char>,
    params: Map<Seq<char>, YamlView>,
    env: Map<Seq<char>, String>,
) -> Result<PolicyView, Seq<char>> {
    match plugins::string_list_spec(params, "keys"@, env) {
        Err(e) => Err(e),
        Ok(header_keys) => policy_of(kind, params, env, header_keys),
    }
}

/// What a policy is made of, or the text of an error.
pub open spec fn policy_result_of(r: Result<AuthPolicy, String>) -> Result<PolicyView, Seq<char>> {
    match r {
        Ok(p) => Ok(p@),
        Err(e) => Err(e@),
    }
}

impl AuthPolicy {
    /// Builds the policy an entry of `plugins:` declares.
    pub fn from_config(config: &PluginConfig, env: &StrMap<String>) -> (r: Result<Self, String>)
        ensures
            policy_result_of(r) == policy_spec(
                config.plugin_id@,
                config.name@,
                yaml::block_view(config.params),
                env@,
            ),
            r matches Ok(AuthPolicy::Testing(p)) ==> p.overrides@ == Map::<
                Seq<char>,
                Map<Seq<char>, JsonView>,
            >::empty(),
    {
        let kind = config.plugin_id.as_str();
        if text::same(kind, plugins::testing::KIND) {
            return match plugins::testing::build(config, env) {
                Ok(plugin) => Ok(AuthPolicy::Testing(plugin)),
                Err(e) => Err(e),
            };
        }
        let header_keys = match plugins::string_list(&config.params, "keys", env) {
            Ok(header_keys) => header_keys,
            Err(e) => {
                return Err(e);
            },
        };
        if text::same(kind, token::KIND) {
            match token::read_tokens(&config.params, env) {
                Ok(tokens) => Ok(AuthPolicy::StaticToken { header_keys, tokens }),
                Err(e) => Err(e),
            }
        } else if text::same(kind, jwt::KIND) {
            let key = match jwt::read_key(&config.params, env) {
                Ok(key) => key,
                Err(e) => {
                    return Err(e);
                },
            };
            let cookie_keys = match plugins::string_list(&config.params, "cookie-keys", env) {
                Ok(cookie_keys) => cookie_keys,
                Err(e) => {
                    return Err(e);
                },
            };
            let roles_claim = match plugins::string(&config.params, "roles-claim", env) {
                Ok(Some(claim)) => claim,
                Ok(None) => "roles".to_owned(),
                Err(e) => {
                    return Err(e);
                },
            };
            Ok(AuthPolicy::JwtHs256 { header_keys, cookie_keys, key, roles_claim })
        } else if text::same(kind, oauth2::KIND) {
            let standing = match oauth2::read_standing(&config.params, env) {
                Ok(standing) => standing,
                Err(e) => {
                    return Err(e);
                },
            };
            let (provider, roles_claim) = match oauth2::read_provider(
                &config.params,
                env,
                standing,
            ) {
                Ok(p) => p,
                Err(e) => {
                    return Err(e);
                },
            };
            match session::build(&config.params, oauth2::KIND, env) {
                Ok(session) => Ok(
                    AuthPolicy::OAuth2(
                        OAuth2Policy { header_keys, provider, roles_claim, session },
                    ),
                ),
                Err(e) => Err(e),
            }
        } else {
            let known = plugins::known_kinds();
            Err(text::cat5("unknown plugin type '", kind, "' (expected ", known.as_str(), ")"))
        }
    }

    /// The `type:` the policy was declared with.
    pub fn kind(&self) -> (r: &'static str)
        ensures
            r@ == policy_kind_spec(self@),
    {
        match self {
            AuthPolicy::StaticToken { .. } => token::KIND,
            AuthPolicy::JwtHs256 { .. } => jwt::KIND,
            AuthPolicy::OAuth2(_) => oauth2::KIND,
            AuthPolicy::Testing(_) => plugins::testing::KIND,
        }
    }

    /// The headers the policy reads a credential out of, beyond `Authorization`.
    pub fn header_keys(&self) -> (r: &Vec<String>)
        ensures
            text::texts(r@) == policy_keys(self@),
    {
        match self {
            AuthPolicy::StaticToken { header_keys, .. } => header_keys,
            AuthPolicy::JwtHs256 { header_keys, .. } => header_keys,
            AuthPolicy::OAuth2(policy) => &policy.header_keys,
            AuthPolicy::Testing(plugin) => &plugin.header_keys,
        }
    }

    /// The cookies the policy reads a credential out of, after every header.
    pub fn cookie_keys(&self) -> (r: Vec<String>)
        ensures
            text::texts(r@) == policy_cookie_keys(self@),
    {
        match self {
            AuthPolicy::JwtHs256 { cookie_keys, .. } => text::copy_texts(cookie_keys),
            _ => {
                let none: Vec<String> = Vec::new();
                proof {
                    assert(text::texts(none@) =~= Seq::empty());
                }
                none
            },
        }
    }

    /// The session cookie the policy mints, where it does.
    pub fn session_cookie(&self) -> (r: Option<&SessionCookie>)
        ensures
            plugins::opt_cookie(r) == policy_session(self@),
    {
        match self {
            AuthPolicy::OAuth2(policy) => match &policy.session {
                Some(cookie) => Some(cookie),
                None => None,
            },
            _ => None,
        }
    }

    /// The session cookie that the policy looks at in what a caller sends, where it does.
    pub fn read_session_cookie(&self) -> (r: Option<&SessionCookie>)
        ensures
            plugins::opt_cookie(r) == policy_read_session(self@),
    {
        let held = match self {
            AuthPolicy::OAuth2(policy) => &policy.session,
            AuthPolicy::Testing(plugin) => &plugin.session,
            _ => {
                return None;
            },
        };
        match held {
            Some(cookie) => Some(cookie),
            None => None,
        }
    }

    /// The credential of a request: what a header holds and, where none does, what the
    /// first of the policy's cookies holds.
    pub fn credential(&self, fields: &HeaderList) -> (r: Option<String>)
        ensures
            text::opt_of(r) == credential_spec(fields@, self@),
    {
        match extract_token(fields, self.header_keys()) {
            Some(token) => Some(token),
            None => cookies::first(fields, &self.cookie_keys()),
        }
    }

    /// The response headers for a caller whom the policy lets pass: the session it mints,
    /// unless the request carries one that still verifies.
    pub fn issue(&self, fields: &HeaderList, claims: &StrMap<Json>, now: i64) -> (r: Vec<
        (String, String),
    >)
        ensures
            issues(self@, fields@, json::fields(*claims), now, text::pairs_view(r@)),
    {
        match self.session_cookie() {
            None => {
                let none: Vec<(String, String)> = Vec::new();
                proof {
                    assert(text::pairs_view(none@) =~= Seq::empty());
                }
                none
            },
            Some(cookie) => {
                let presented = cookies::held(fields, cookie.name.as_str());
                let carried = match &presented {
                    Some(session) => cookie.claims(session.as_str()).is_some(),
                    None => false,
                };
                proof {
                    assert(session::carries(cookie@, text::opt_of(presented), carried));
                }
                cookie.issue_at(carried, claims, now)
            },
        }
    }
}

/// Whether response headers are right for a caller whom a policy lets pass: those of the
/// session it mints, where it mints one and the request carries none that may verify.
pub open spec fn issues(
    p: PolicyView,
    fields: Seq<(Seq<char>, Seq<u8>)>,
    claims: Map<Seq<char>, JsonView>,
    now: i64,
    issued: Seq<(Seq<char>, Seq<char>)>,
) -> bool {
    match policy_session(p) {
        None => issued == Seq::<(Seq<char>, Seq<char>)>::empty(),
        Some(cookie) => exists|carried: bool| #[trigger]
            session::carries(cookie, cookies::held_spec(fields, cookie.name), carried) && issued
                == session::issue_spec(cookie, carried, claims, now),
    }
}

/// The credential of a request for a policy.
pub open spec fn credential_spec(fields: Seq<(Seq<char>, Seq<u8>)>, p: PolicyView) -> Option<
    Seq<char>,
> {
    match token_spec(fields, policy_keys(p)) {
        Some(token) => Some(token),
        None => cookies::first_spec(fields, policy_cookie_keys(p)),
    }
}

/// A text without the white space around it, where anything is left.
pub open spec fn filled(s: Seq<char>) -> Option<Seq<char>> {
    if text::trim_spec(s).len() == 0 {
        None
    } else {
        Some(text::trim_spec(s))
    }
}

/// The token of an `Authorization` header of the bearer scheme.
pub open spec fn bearer_spec(authorization: Option<Seq<char>>) -> Option<Seq<char>> {
    match authorization {
        Some(value) => if "Bearer "@.is_prefix_of(value) || "bearer "@.is_prefix_of(value) {
            filled(value.skip(7))
        } else {
            None
        },
        None => None,
    }
}

/// The token in the first of some headers that holds one.
pub open spec fn keyed_spec(
    fields: Seq<(Seq<char>, Seq<u8>)>,
    keys: Seq<Seq<char>>,
) -> Option<Seq<char>>
    decreases keys.len(),
{
    if keys.len() == 0 {
        None
    } else {
        match headers::text_spec(fields, keys[0]) {
            Some(value) if text::trim_spec(value).len() > 0 => Some(text::trim_spec(value)),
            _ => keyed_spec(fields, keys.drop_first()),
        }
    }
}

/// The credential of a request: a bearer token, or what the first of a policy's own
/// headers holds.
pub open spec fn token_spec(
    fields: Seq<(Seq<char>, Seq<u8>)>,
    keys: Seq<Seq<char>>,
) -> Option<Seq<char>> {
    match bearer_spec(headers::text_spec(fields, "authorization"@)) {
        Some(token) => Some(token),
        None => keyed_spec(fields, keys),
    }
}

/// A text without the white space around it, where anything is left.
fn fill(s: &str) -> (r: Option<String>)
    ensures
        text::opt_of(r) == filled(s@),
{
    proof {
        reveal_strlit("");
    }
    let t = text::trim(s);
    proof {
        assert(t@.len() == 0 ==> t@ =~= ""@);
    }
    if text::same(t, "") {
        None
    } else {
        Some(t.to_owned())
    }
}

/// The token of an `Authorization` header of the bearer scheme.
fn bearer(authorization: &Option<String>) -> (r: Option<String>)
    ensures
        text::opt_of(r) == bearer_spec(text::opt_of(*authorization)),
{
    match authorization {
        Some(value) => {
            if text::starts_with(value.as_str(), "Bearer ") || text::starts_with(
                value.as_str(),
                "bearer ",
            ) {
                proof {
                    reveal_strlit("Bearer ");
                    reveal_strlit("bearer ");
                }
                let v = text::chars_of(value.as_str());
                let rest = value.as_str().substring_char(7, v.len());
                proof {
                    assert(rest@ =~= value@.skip(7));
                }
                fill(rest)
            } else {
                None
            }
        },
        None => None,
    }
}

/// The credential of a request.
pub fn extract_token(fields: &HeaderList, header_keys: &Vec<String>) -> (r: Option<String>)
    ensures
        text::opt_of(r) == token_spec(fields@, text::texts(header_keys@)),
{
    if let Some(token) = bearer(&fields.text("authorization")) {
        return Some(token);
    }
    let ghost keys = text::texts(header_keys@);
    let mut i: usize = 0;
    proof {
        assert(keys.skip(0) =~= keys);
    }
    while i < header_keys.len()
        invariant
            i <= header_keys@.len(),
            keys == text::texts(header_keys@),
            token_spec(fields@, keys) == keyed_spec(fields@, keys.skip(i as int)),
        decreases header_keys@.len() - i,
    {
        proof {
            assert(keys.skip(i as int)[0] == header_keys@[i as int]@);
            assert(keys.skip(i as int).drop_first() =~= keys.skip(i + 1));
        }
        if let Some(value) = fields.text(header_keys[i].as_str()) {
            if let Some(token) = fill(value.as_str()) {
                return Some(token);
            }
        }
        i = i + 1;
    }
    None
}

/// The texts of the values of a list that are texts.
pub open spec fn text_items(v: Seq<JsonView>) -> Seq<Seq<char>>
    decreases v.len(),
{
    if v.len() == 0 {
        Seq::empty()
    } else {
        match v.last() {
            JsonView::Text(s) => text_items(v.drop_last()).push(s),
            _ => text_items(v.drop_last()),
        }
    }
}

/// The roles that claims grant: the texts of a list, or the words of a text.
pub open spec fn roles_spec(
    claims: Map<Seq<char>, JsonView>,
    roles_claim: Seq<char>,
) -> Seq<Seq<char>> {
    if !claims.contains_key(roles_claim) {
        Seq::empty()
    } else {
        match claims[roles_claim] {
            JsonView::Array(values) => text_items(values),
            JsonView::Text(value) => text::words_spec(value),
            _ => Seq::empty(),
        }
    }
}

/// The roles that claims grant.
pub fn roles(claims: &StrMap<Json>, roles_claim: &str) -> (r: Vec<String>)
    ensures
        text::texts(r@) == roles_spec(json::fields(*claims), roles_claim@),
{
    let mut out: Vec<String> = Vec::new();
    proof {
        assert(text::texts(out@) =~= Seq::empty());
    }
    match json::get_field(claims, roles_claim) {
        Some(Json::Array(values)) => {
            let ghost all = json::list_view(values@);
            proof {
                json::lemma_list_view(values@);
                assert(all.take(0) =~= Seq::empty());
            }
            let mut i: usize = 0;
            while i < values.len()
                invariant
                    i <= values@.len(),
                    all == json::list_view(values@),
                    all.len() == values@.len(),
                    forall|k: int|
                        0 <= k < values@.len() ==> #[trigger] json::list_view(values@)[k]
                            == json::json_view(values@[k]),
                    text::texts(out@) == text_items(all.take(i as int)),
                decreases values@.len() - i,
            {
                proof {
                    assert(all.take(i + 1).drop_last() =~= all.take(i as int));
                    assert(all.take(i + 1).last() == json::json_view(values@[i as int]));
                }
                if let Json::Text(s) = &values[i] {
                    let ghost front = text::texts(out@);
                    out.push(s.clone());
                    proof {
                        assert(text::texts(out@) =~= front.push(s@));
                    }
                }
                i = i + 1;
            }
            proof {
                assert(all.take(i as int) =~= all);
            }
            out
        },
        // The scope of a token is words in a text rather than a list.
        Some(Json::Text(value)) => text::words(value.as_str()),
        _ => out,
    }
}

/// How a claim is written into a header.
pub open spec fn claim_text(v: JsonView) -> Option<Seq<char>> {
    match v {
        JsonView::Text(s) => Some(s),
        JsonView::Int(n) => Some(text::signed_decimal(n)),
        JsonView::Real(s) => Some(s),
        JsonView::Bool(b) => Some(
            if b {
                "true"@
            } else {
                "false"@
            },
        ),
        _ => None,
    }
}

/// Writes a claim for a header.
pub fn claim_to_string(value: &Json) -> (r: Option<String>)
    ensures
        text::opt_of(r) == claim_text(value@),
{
    match value {
        Json::Text(s) => Some(s.clone()),
        Json::Numeric(Numeric::Pos(n)) => Some(text::u64_text(*n)),
        Json::Numeric(Numeric::Neg(n)) => Some(text::i64_text(*n)),
        Json::Numeric(Numeric::Real(n)) => Some(n.text()),
        Json::Bool(b) => Some(
            if *b {
                "true".to_owned()
            } else {
                "false".to_owned()
            },
        ),
        _ => None,
    }
}

/// A template with each `{claim}` replaced by what the claim says; `None` where a brace
/// is not closed, or a claim is missing or cannot be written.
pub open spec fn render_spec(template: Seq<char>, claims: Map<Seq<char>, JsonView>) -> Option<
    Seq<char>,
>
    decreases template.len(),
{
    proof {
        text::lemma_find(template, '{');
        text::lemma_find(template.skip(text::find_spec(template, '{')), '}');
    }
    let start = text::find_spec(template, '{');
    let rest = template.skip(start);
    let end = text::find_spec(rest, '}');
    if start >= template.len() {
        Some(template)
    } else if end >= rest.len() || end < 1 {
        None
    } else {
        let claim = rest.subrange(1, end);
        if !claims.contains_key(claim) {
            None
        } else {
            match (claim_text(claims[claim]), render_spec(rest.skip(end + 1), claims)) {
                (Some(value), Some(tail)) => Some(template.take(start) + value + tail),
                _ => None,
            }
        }
    }
}

/// Something in front of an optional text.
pub open spec fn in_front(head: Seq<char>, tail: Option<Seq<char>>) -> Option<Seq<char>> {
    match tail {
        Some(tail) => Some(head + tail),
        None => None,
    }
}

/// Renders a template.
pub fn render(template: &str, claims: &StrMap<Json>) -> (r: Option<String>)
    ensures
        text::opt_of(r) == render_spec(template@, json::fields(*claims)),
{
    let v = text::chars_of(template);
    let ghost said = json::fields(*claims);
    let mut out = String::new();
    let mut i: usize = 0;
    proof {
        assert(template@.skip(0) =~= template@);
        let whole = render_spec(template@, said);
        if whole is Some {
            assert(Seq::<char>::empty() + whole->Some_0 =~= whole->Some_0);
        }
    }
    loop
        invariant
            v@ == template@,
            i <= v@.len(),
            said == json::fields(*claims),
            render_spec(template@, said) == in_front(
                out@,
                render_spec(template@.skip(i as int), said),
            ),
        decreases v@.len() - i,
    {
        let ghost t = template@.skip(i as int);
        let ghost done = out@;
        let start = text::find_from(&v, i, '{');
        if start == v.len() {
            out.append(template.substring_char(i, start));
            proof {
                assert(template@.subrange(i as int, start as int) =~= t);
            }
            return Some(out);
        }
        let end = text::find_from(&v, start, '}');
        let ghost rest = t.skip(start - i);
        proof {
            assert(rest =~= template@.skip(start as int));
        }
        if end == v.len() {
            return None;
        }
        proof {
            assert(end > start);
        }
        let claim = template.substring_char(start + 1, end);
        proof {
            assert(claim@ =~= rest.subrange(1, end - start));
            assert(rest.skip(end - start + 1) =~= template@.skip(end + 1));
        }
        let value = match json::get_field(claims, claim) {
            Some(value) => value,
            None => {
                return None;
            },
        };
        let written = match claim_to_string(value) {
            Some(written) => written,
            None => {
                return None;
            },
        };
        let head = template.substring_char(i, start);
        out.append(head);
        out.append(written.as_str());
        proof {
            assert(head@ =~= t.take(start - i));
            let tail = render_spec(template@.skip(end + 1), said);
            if tail is Some {
                assert(done + (t.take(start - i) + written@ + tail->Some_0) =~= (done + head@
                    + written@) + tail->Some_0);
            }
        }
        i = end + 1;
    }
}

/// The first required role that is not granted.
pub open spec fn missing_role(required: Seq<Seq<char>>, granted: Seq<Seq<char>>) -> Option<
    Seq<char>,
>
    decreases required.len(),
{
    if required.len() == 0 {
        None
    } else if !granted.contains(required[0]) {
        Some(required[0])
    } else {
        missing_role(required.drop_first(), granted)
    }
}

/// The headers rendered from claims: a template that cannot be rendered gives none, and
/// a value that cannot stand in a header is an error.
pub open spec fn identity_spec(
    insert: Seq<(Seq<char>, Seq<char>)>,
    claims: Map<Seq<char>, JsonView>,
) -> Result<Seq<(Seq<char>, Seq<char>)>, Seq<char>>
    decreases insert.len(),
{
    if insert.len() == 0 {
        Ok(Seq::empty())
    } else {
        match identity_spec(insert.drop_last(), claims) {
            Err(e) => Err(e),
            Ok(front) => {
                let (header, template) = insert.last();
                match render_spec(template, claims) {
                    None => Ok(front),
                    Some(value) => if headers::valid_value(value) {
                        Ok(front.push((header, value)))
                    } else {
                        Err(
                            "claim value for header '"@ + header
                                + "' is not a valid header value"@,
                        )
                    },
                }
            },
        }
    }
}

/// Where the front of a list has an error, the whole list has the same one.
proof fn lemma_identity_error(
    insert: Seq<(Seq<char>, Seq<char>)>,
    n: int,
    claims: Map<Seq<char>, JsonView>,
)
    requires
        0 <= n <= insert.len(),
        identity_spec(insert.take(n), claims) is Err,
    ensures
        identity_spec(insert, claims) == identity_spec(insert.take(n), claims),
    decreases insert.len(),
{
    if n == insert.len() {
        assert(insert.take(n) =~= insert);
    } else {
        assert(insert.drop_last().take(n) =~= insert.take(n));
        lemma_identity_error(insert.drop_last(), n, claims);
    }
}

/// How a guard ends for a caller with verified claims: every required role must be
/// granted, and every rendered header must be legal.
pub open spec fn admits(
    required: Seq<Seq<char>>,
    insert: Seq<(Seq<char>, Seq<char>)>,
    roles_claim: Seq<char>,
    claims: Map<Seq<char>, JsonView>,
) -> OutcomeView {
    match missing_role(required, roles_spec(claims, roles_claim)) {
        Some(missing) => OutcomeView::Forbidden("token lacks required role '"@ + missing + "'"@),
        None => match identity_spec(insert, claims) {
            Ok(rendered) => OutcomeView::Allowed(rendered),
            Err(e) => OutcomeView::Forbidden(e),
        },
    }
}

/// A policy bound to a route: the roles the route requires of a caller, and the headers
/// it sets from what was verified.
pub struct RouteGuard {
    pub policy: Arc<AuthPolicy>,
    pub name: String,
    pub required_roles: Vec<String>,
    pub insert_headers: Vec<(String, String)>,
}

/// What a guard is made of.
pub struct BoundView {
    pub policy: AuthPolicy,
    pub name: Seq<char>,
    pub required_roles: Seq<Seq<char>>,
    pub insert_headers: Seq<(Seq<char>, Seq<char>)>,
}

impl View for RouteGuard {
    type V = BoundView;

    open spec fn view(&self) -> BoundView {
        BoundView {
            policy: *self.policy,
            name: self.name@,
            required_roles: text::texts(self.required_roles@),
            insert_headers: text::pairs_view(self.insert_headers@),
        }
    }
}

/// What some guards are made of.
pub open spec fn guards_view(v: Seq<RouteGuard>) -> Seq<BoundView> {
    v.map_values(|g: RouteGuard| g@)
}

/// Whether a text cannot stand as the name of an inserted header.
pub open spec fn bad_header(header: Seq<char>) -> bool {
    !headers::valid_value(header) || text::trim_spec(header).len() == 0
}

/// The first of some headers whose name cannot stand.
pub open spec fn first_bad(insert: Seq<(Seq<char>, Seq<char>)>) -> Option<Seq<char>>
    decreases insert.len(),
{
    if insert.len() == 0 {
        None
    } else if bad_header(insert[0].0) {
        Some(insert[0].0)
    } else {
        first_bad(insert.drop_first())
    }
}

/// The guard that binds a policy, or what is wrong with the binding.
pub open spec fn guard_spec(
    name: Seq<char>,
    policy: AuthPolicy,
    required_roles: Seq<Seq<char>>,
    insert_headers: Seq<(Seq<char>, Seq<char>)>,
) -> Result<BoundView, Seq<char>> {
    if required_roles.len() > 0 && policy is StaticToken {
        Err(
            "plugin '"@ + name
                + "' is a token-plugin and carries no claims, so it cannot require roles"@,
        )
    } else {
        match first_bad(insert_headers) {
            Some(header) => Err(
                "plugin '"@ + name + "' has an invalid header name '"@ + header + "'"@,
            ),
            None => Ok(BoundView { policy, name, required_roles, insert_headers }),
        }
    }
}

/// What a guard is made of, or the text of an error.
pub open spec fn guard_result_of(r: Result<RouteGuard, String>) -> Result<BoundView, Seq<char>> {
    match r {
        Ok(g) => Ok(g@),
        Err(e) => Err(e@),
    }
}

/// The headers a route inserts, as it declares them.
pub open spec fn insert_entries(entries: Seq<(YamlView, YamlView)>) -> Result<
    Seq<(Seq<char>, Seq<char>)>,
    Seq<char>,
>
    decreases entries.len(),
{
    if entries.len() == 0 {
        Ok(Seq::empty())
    } else {
        match insert_entries(entries.drop_last()) {
            Err(e) => Err(e),
            Ok(front) => match (
                yaml::as_str_spec(entries.last().0),
                yaml::as_str_spec(entries.last().1),
            ) {
                (Some(key), Some(value)) => Ok(front.push((key, value))),
                _ => Err("'insert-headers' entries must be strings"@),
            },
        }
    }
}

/// Where the front of a list has an error, the whole list has the same one.
proof fn lemma_insert_error(entries: Seq<(YamlView, YamlView)>, n: int)
    requires
        0 <= n <= entries.len(),
        insert_entries(entries.take(n)) is Err,
    ensures
        insert_entries(entries) == insert_entries(entries.take(n)),
    decreases entries.len(),
{
    if n == entries.len() {
        assert(entries.take(n) =~= entries);
    } else {
        assert(entries.drop_last().take(n) =~= entries.take(n));
        lemma_insert_error(entries.drop_last(), n);
    }
}

/// The headers a route's parameters insert.
pub open spec fn insert_spec(params: Map<Seq<char>, YamlView>) -> Result<
    Seq<(Seq<char>, Seq<char>)>,
    Seq<char>,
> {
    if !params.contains_key("insert-headers"@) {
        Ok(Seq::empty())
    } else {
        match params["insert-headers"@] {
            YamlView::Mapping(entries) => insert_entries(entries),
            _ => Err("'insert-headers' must be a mapping"@),
        }
    }
}

/// The guard a route's reference declares.
pub open spec fn reference_spec(
    name: Seq<char>,
    params: Map<Seq<char>, YamlView>,
    policy: AuthPolicy,
    env: Map<Seq<char>, String>,
) -> Result<BoundView, Seq<char>> {
    match plugins::string_list_spec(params, "roles"@, env) {
        Err(e) => Err(e),
        Ok(roles) => match insert_spec(params) {
            Err(e) => Err(e),
            Ok(insert) => guard_spec(name, policy, roles, insert),
        },
    }
}

/// The parameters of a reference; none where it has none.
pub open spec fn reference_params(reference: PluginReference) -> Map<Seq<char>, YamlView> {
    match reference.params {
        Some(params) => yaml::block_view(params),
        None => Map::empty(),
    }
}

/// The headers a route's parameters insert.
fn read_inserts(params: &StrMap<yaml_serde::Value>) -> (r: Result<Vec<(String, String)>, String>)
    ensures
        (match r {
            Ok(v) => Ok(text::pairs_view(v@)),
            Err(e) => Err(e@),
        }) == insert_spec(yaml::block_view(*params)),
{
    let mut out: Vec<(String, String)> = Vec::new();
    proof {
        assert(text::pairs_view(out@) =~= Seq::empty());
    }
    let value = match params.get("insert-headers") {
        Some(value) => value,
        None => {
            return Ok(out);
        },
    };
    match yaml::open_yaml(value) {
        YamlLevel::Mapping(values) => {
            let ghost entries = yaml::yaml_view(*value)->Mapping_0;
            let mut i: usize = 0;
            proof {
                assert(entries.take(0) =~= Seq::empty());
            }
            while i < values.len()
                invariant
                    i <= values@.len(),
                    yaml::block_view(*params).contains_key("insert-headers"@),
                    yaml::block_view(*params)["insert-headers"@] == YamlView::Mapping(entries),
                    entries == values@.map_values(
                        |x: (&yaml_serde::Value, &yaml_serde::Value)|
                            (yaml::yaml_view(*x.0), yaml::yaml_view(*x.1)),
                    ),
                    insert_entries(entries.take(i as int)) == Ok::<
                        Seq<(Seq<char>, Seq<char>)>,
                        Seq<char>,
                    >(text::pairs_view(out@)),
                decreases values@.len() - i,
            {
                let (key, value) = values[i];
                proof {
                    assert(entries.take(i + 1).drop_last() =~= entries.take(i as int));
                    assert(entries.take(i + 1).last() == (
                        yaml::yaml_view(*key),
                        yaml::yaml_view(*value),
                    ));
                }
                match (yaml::as_str(key), yaml::as_str(value)) {
                    (Some(key), Some(value)) => {
                        let ghost front = text::pairs_view(out@);
                        out.push((key.to_owned(), value.to_owned()));
                        proof {
                            assert(text::pairs_view(out@) =~= front.push((key@, value@)));
                        }
                    },
                    _ => {
                        proof {
                            lemma_insert_error(entries, i + 1);
                        }
                        return Err("'insert-headers' entries must be strings".to_owned());
                    },
                }
                i = i + 1;
            }
            proof {
                assert(entries.take(i as int) =~= entries);
            }
            Ok(out)
        },
        _ => Err("'insert-headers' must be a mapping".to_owned()),
    }
}

/// Copies some header fields.
pub fn copy_pairs(v: &Vec<(String, String)>) -> (r: Vec<(String, String)>)
    ensures
        r@ == v@,
{
    let mut out: Vec<(String, String)> = Vec::new();
    let mut i: usize = 0;
    while i < v.len()
        invariant
            i <= v@.len(),
            out@ == v@.take(i as int),
        decreases v@.len() - i,
    {
        out.push((v[i].0.clone(), v[i].1.clone()));
        proof {
            assert(v@.take(i + 1) =~= v@.take(i as int).push(v@[i as int]));
        }
        i = i + 1;
    }
    proof {
        assert(v@.take(v@.len() as int) =~= v@);
    }
    out
}

/// What a guard does next for a request.
pub enum GuardStep {
    /// The guard is passed, with headers to set upstream and headers to add to the
    /// response.
    Passed(Vec<(String, String)>, Vec<(String, String)>),
    Refused(AuthOutcome),
    /// The provider is to be asked about the token.
    Introspect(String, ProviderRequest),
    /// The provider is to be asked for the profile of the token's holder.
    Userinfo(String, ProviderRequest, StrMap<Json>),
}

/// How a guard ended, where it did.
pub open spec fn ended(step: GuardStep) -> Option<OutcomeView> {
    match step {
        GuardStep::Passed(v, _) => Some(OutcomeView::Allowed(text::pairs_view(v@))),
        GuardStep::Refused(o) => Some(o@),
        _ => None,
    }
}

/// The headers a guard adds to the response.
pub open spec fn handed(step: GuardStep) -> Seq<(Seq<char>, Seq<char>)> {
    match step {
        GuardStep::Passed(_, issued) => text::pairs_view(issued@),
        _ => Seq::empty(),
    }
}

/// Whether what a guard does for a request is what a step for its token comes to: where
/// it is passed, the response is handed the session that its policy mints.
pub open spec fn follows(
    g: BoundView,
    fields: Seq<(Seq<char>, Seq<u8>)>,
    roles_claim: Seq<char>,
    token: Seq<char>,
    now: i64,
    step: Step,
    r: GuardStep,
) -> bool {
    match step {
        Step::Done(Ok(claims)) => {
            &&& ended(r) == Some(
                admits(g.required_roles, g.insert_headers, roles_claim, json::fields(*claims)),
            )
            &&& r is Passed ==> issues(g.policy@, fields, json::fields(*claims), now, handed(r))
        },
        Step::Done(Err(o)) => r == GuardStep::Refused(o),
        Step::Introspect(request) => r matches GuardStep::Introspect(t, q) && t@ == token && q
            == request,
        Step::Userinfo(request, kept) => r matches GuardStep::Userinfo(t, q, k) && t@ == token && q
            == request && k == kept,
    }
}

/// Whether a step is right for a token at a policy that asks a provider, where claims
/// may stand in for the provider: they do for a token they are registered for.
pub open spec fn provider_step(
    p: ProviderView,
    cache: ProviderCache,
    overrides: Option<ClaimOverrides>,
    token: Seq<char>,
    at: Moment,
    step: Step,
) -> bool {
    match overrides {
        Some(o) if o@.contains_key(testing::id_of(token)) => plugins::testing::stands_in(
            o,
            Map::empty(),
            token,
            at.unix,
            step,
        ),
        _ => provider::begins(p, cache, token, at.nanos, step),
    }
}

/// Whether a guard does the right thing for a token under a shared secret.
pub open spec fn checks_signed(
    g: BoundView,
    fields: Seq<(Seq<char>, Seq<u8>)>,
    key: TokenKey,
    roles_claim: Seq<char>,
    token: Seq<char>,
    at: Moment,
    r: GuardStep,
) -> bool {
    exists|step: Step|
        #![trigger follows(g, fields, roles_claim, token, at.unix, step, r)]
        jwt::verifies(key, g.name, token, step) && follows(
            g,
            fields,
            roles_claim,
            token,
            at.unix,
            step,
            r,
        )
}

/// Whether a guard does the right thing for a token that a provider is asked about.
pub open spec fn checks_provided(
    g: BoundView,
    fields: Seq<(Seq<char>, Seq<u8>)>,
    policy: OAuth2Policy,
    cache: ProviderCache,
    overrides: Option<ClaimOverrides>,
    token: Seq<char>,
    at: Moment,
    r: GuardStep,
) -> bool {
    exists|step: Step|
        #![trigger follows(g, fields, policy.roles_claim@, token, at.unix, step, r)]
        provider_step(policy.provider@, cache, overrides, token, at, step) && follows(
            g,
            fields,
            policy.roles_claim@,
            token,
            at.unix,
            step,
            r,
        )
}

/// The session that a caller presents to a plugin whose claims are laid over it.
pub open spec fn carried_session(
    fields: Seq<(Seq<char>, Seq<u8>)>,
    cookie: Option<SessionCookie>,
) -> Option<Seq<char>> {
    match cookie {
        Some(cookie) => cookies::held_spec(fields, cookie.name@),
        None => None,
    }
}

/// Whether a guard does the right thing for a token that claims may be registered for:
/// the given ones, or those of the plugin itself, laid over those of the caller's session.
pub open spec fn checks_registered(
    g: BoundView,
    fields: Seq<(Seq<char>, Seq<u8>)>,
    plugin: TestingPlugin,
    overrides: Option<ClaimOverrides>,
    token: Seq<char>,
    at: Moment,
    r: GuardStep,
) -> bool {
    exists|base: Map<Seq<char>, JsonView>, step: Step|
        #![trigger plugins::testing::baseline(plugin.session, carried_session(fields, plugin.session), base),
            follows(g, fields, plugin.roles_claim@, token, at.unix, step, r)]
        plugins::testing::baseline(
            plugin.session,
            carried_session(fields, plugin.session),
            base,
        ) && plugins::testing::stands_in(
            match overrides {
                Some(o) => o,
                None => plugin.overrides,
            },
            base,
            token,
            at.unix,
            step,
        ) && follows(g, fields, plugin.roles_claim@, token, at.unix, step, r)
}

/// Whether a guard does the right thing for a request.
pub open spec fn checks(
    g: BoundView,
    fields: Seq<(Seq<char>, Seq<u8>)>,
    cache: ProviderCache,
    overrides: Option<ClaimOverrides>,
    at: Moment,
    r: GuardStep,
) -> bool {
    match credential_spec(fields, g.policy@) {
        None => ended(r) == Some(
            OutcomeView::Unauthorized("missing credentials for '"@ + g.name + "'"@),
        ),
        Some(token) => match g.policy {
            AuthPolicy::StaticToken { tokens, .. } => handed(r).len() == 0 && ended(r) == Some(
                if text::texts(tokens@).contains(token) {
                    OutcomeView::Allowed(Seq::empty())
                } else {
                    OutcomeView::Unauthorized("invalid credentials for '"@ + g.name + "'"@)
                },
            ),
            AuthPolicy::JwtHs256 { key, roles_claim, .. } => checks_signed(
                g,
                fields,
                key,
                roles_claim@,
                token,
                at,
                r,
            ),
            AuthPolicy::OAuth2(policy) => checks_provided(
                g,
                fields,
                policy,
                cache,
                overrides,
                token,
                at,
                r,
            ),
            AuthPolicy::Testing(plugin) => checks_registered(
                g,
                fields,
                plugin,
                overrides,
                token,
                at,
                r,
            ),
        },
    }
}

impl RouteGuard {
    /// Binds a policy to a route.
    pub fn build(
        name: &str,
        policy: Arc<AuthPolicy>,
        required_roles: Vec<String>,
        insert_headers: Vec<(String, String)>,
    ) -> (r: Result<Self, String>)
        ensures
            guard_result_of(r) == guard_spec(
                name@,
                *policy,
                text::texts(required_roles@),
                text::pairs_view(insert_headers@),
            ),
    {
        let tokens = match &*policy {
            AuthPolicy::StaticToken { .. } => true,
            _ => false,
        };
        if required_roles.len() > 0 && tokens {
            return Err(
                text::cat3(
                    "plugin '",
                    name,
                    "' is a token-plugin and carries no claims, so it cannot require roles",
                ),
            );
        }
        let ghost all = text::pairs_view(insert_headers@);
        let mut i: usize = 0;
        proof {
            assert(all.skip(0) =~= all);
            reveal_strlit("");
        }
        while i < insert_headers.len()
            invariant
                i <= insert_headers@.len(),
                all == text::pairs_view(insert_headers@),
                first_bad(all) == first_bad(all.skip(i as int)),
                !(required_roles@.len() > 0 && (*policy is StaticToken)),
                ""@ == Seq::<char>::empty(),
            decreases insert_headers@.len() - i,
        {
            proof {
                assert(all.skip(i as int)[0] == (
                    insert_headers@[i as int].0@,
                    insert_headers@[i as int].1@,
                ));
                assert(all.skip(i as int).drop_first() =~= all.skip(i + 1));
            }
            let header = insert_headers[i].0.as_str();
            let blank = text::trim(header);
            proof {
                assert(blank@.len() == 0 ==> blank@ =~= ""@);
            }
            if !headers::is_value(header) || text::same(blank, "") {
                return Err(
                    text::cat5("plugin '", name, "' has an invalid header name '", header, "'"),
                );
            }
            i = i + 1;
        }
        Ok(RouteGuard { policy, name: name.to_owned(), required_roles, insert_headers })
    }

    /// The plugin the guard binds.
    pub fn name(&self) -> (r: &str)
        ensures
            r@ == self@.name,
    {
        self.name.as_str()
    }

    /// The `type:` of the plugin the guard binds.
    pub fn policy_kind(&self) -> (r: &'static str)
        ensures
            r@ == policy_kind_spec(self@.policy@),
    {
        self.policy.kind()
    }

    /// The roles the route requires.
    pub fn required_roles(&self) -> (r: &Vec<String>)
        ensures
            text::texts(r@) == self@.required_roles,
    {
        &self.required_roles
    }

    /// The headers the route sets, with the templates they are rendered from.
    pub fn insert_headers(&self) -> (r: &Vec<(String, String)>)
        ensures
            text::pairs_view(r@) == self@.insert_headers,
    {
        &self.insert_headers
    }

    /// Copies a guard.
    pub fn copy(&self) -> (r: RouteGuard)
        ensures
            r@ == self@,
    {
        RouteGuard {
            policy: self.policy.clone(),
            name: self.name.clone(),
            required_roles: text::copy_texts(&self.required_roles),
            insert_headers: copy_pairs(&self.insert_headers),
        }
    }

    /// Builds the guard a route's reference declares.
    pub fn from_reference(
        reference: &PluginReference,
        policy: Arc<AuthPolicy>,
        env: &StrMap<String>,
    ) -> (r: Result<Self, String>)
        ensures
            guard_result_of(r) == reference_spec(
                reference.name@,
                reference_params(*reference),
                *policy,
                env@,
            ),
    {
        let none: StrMap<yaml_serde::Value> = StrMap::new();
        proof {
            assert(yaml::block_view(none) =~= Map::empty());
        }
        let params = match &reference.params {
            Some(params) => params,
            None => &none,
        };
        let roles = match plugins::string_list(params, "roles", env) {
            Ok(roles) => roles,
            Err(e) => {
                return Err(e);
            },
        };
        match read_inserts(params) {
            Ok(insert) => RouteGuard::build(reference.name.as_str(), policy, roles, insert),
            Err(e) => Err(e),
        }
    }

    /// Tests whether claims grant every role the route requires; the refusal names the
    /// first that is missing.
    pub fn authorize(&self, claims: &StrMap<Json>, roles_claim: &str) -> (r: Result<(), AuthOutcome>)
        ensures
            match missing_role(
                self@.required_roles,
                roles_spec(json::fields(*claims), roles_claim@),
            ) {
                Some(missing) => r matches Err(o) && o@ == OutcomeView::Forbidden(
                    "token lacks required role '"@ + missing + "'"@,
                ),
                None => r is Ok,
            },
    {
        let granted = roles(claims, roles_claim);
        let ghost required = self@.required_roles;
        let ghost have = text::texts(granted@);
        let mut i: usize = 0;
        proof {
            assert(required.skip(0) =~= required);
        }
        while i < self.required_roles.len()
            invariant
                i <= self.required_roles@.len(),
                required == self@.required_roles,
                have == text::texts(granted@),
                have == roles_spec(json::fields(*claims), roles_claim@),
                missing_role(required, have) == missing_role(required.skip(i as int), have),
            decreases self.required_roles@.len() - i,
        {
            proof {
                assert(required.skip(i as int)[0] == self.required_roles@[i as int]@);
                assert(required.skip(i as int).drop_first() =~= required.skip(i + 1));
            }
            if !text::contains_text(&granted, self.required_roles[i].as_str()) {
                return Err(
                    AuthOutcome::Forbidden(
                        text::cat3(
                            "token lacks required role '",
                            self.required_roles[i].as_str(),
                            "'",
                        ),
                    ),
                );
            }
            i = i + 1;
        }
        Ok(())
    }

    /// The headers the route sets for a caller with these claims.
    pub fn render_identity(&self, claims: &StrMap<Json>) -> (r: Result<
        Vec<(String, String)>,
        AuthOutcome,
    >)
        ensures
            match identity_spec(self@.insert_headers, json::fields(*claims)) {
                Ok(rendered) => r matches Ok(v) && text::pairs_view(v@) == rendered,
                Err(e) => r matches Err(o) && o@ == OutcomeView::Forbidden(e),
            },
    {
        let ghost all = self@.insert_headers;
        let ghost said = json::fields(*claims);
        let mut out: Vec<(String, String)> = Vec::new();
        let mut i: usize = 0;
        proof {
            assert(all.take(0) =~= Seq::empty());
            assert(text::pairs_view(out@) =~= Seq::empty());
        }
        while i < self.insert_headers.len()
            invariant
                i <= self.insert_headers@.len(),
                all == self@.insert_headers,
                said == json::fields(*claims),
                identity_spec(all.take(i as int), said) == Ok::<
                    Seq<(Seq<char>, Seq<char>)>,
                    Seq<char>,
                >(text::pairs_view(out@)),
            decreases self.insert_headers@.len() - i,
        {
            proof {
                assert(all.take(i + 1).drop_last() =~= all.take(i as int));
                assert(all.take(i + 1).last() == (
                    self.insert_headers@[i as int].0@,
                    self.insert_headers@[i as int].1@,
                ));
            }
            let header = self.insert_headers[i].0.as_str();
            if let Some(value) = render(self.insert_headers[i].1.as_str(), claims) {
                // A claim with a line break would otherwise splice headers downstream.
                if !headers::is_value(value.as_str()) {
                    proof {
                        lemma_identity_error(all, i + 1, said);
                    }
                    return Err(
                        AuthOutcome::Forbidden(
                            text::cat3(
                                "claim value for header '",
                                header,
                                "' is not a valid header value",
                            ),
                        ),
                    );
                }
                let ghost front = text::pairs_view(out@);
                out.push((header.to_owned(), value));
                proof {
                    assert(text::pairs_view(out@) =~= front.push((header@, value@)));
                }
            }
            i = i + 1;
        }
        proof {
            assert(all.take(i as int) =~= all);
        }
        Ok(out)
    }

    /// How the guard ends for a caller with verified claims, and what the response is
    /// handed where it is passed.
    pub fn conclude(
        &self,
        fields: &HeaderList,
        claims: &StrMap<Json>,
        roles_claim: &str,
        now: i64,
    ) -> (r: GuardStep)
        ensures
            r matches GuardStep::Refused(o) ==> !(o@ is Allowed),
            r is Passed ==> issues(
                self@.policy@,
                fields@,
                json::fields(*claims),
                now,
                handed(r),
            ),
            ended(r) == Some(
                admits(
                    self@.required_roles,
                    self@.insert_headers,
                    roles_claim@,
                    json::fields(*claims),
                ),
            ),
    {
        match self.authorize(claims, roles_claim) {
            Err(o) => GuardStep::Refused(o),
            Ok(()) => match self.render_identity(claims) {
                Ok(rendered) => GuardStep::Passed(
                    rendered,
                    self.policy.issue(fields, claims, now),
                ),
                Err(o) => GuardStep::Refused(o),
            },
        }
    }

    /// What the guard does for a step of its token.
    fn follow(
        &self,
        fields: &HeaderList,
        roles_claim: &str,
        token: String,
        now: i64,
        step: Step,
    ) -> (r: GuardStep)
        ensures
            follows(self@, fields@, roles_claim@, token@, now, step, r),
            step matches Step::Done(Ok(_)) ==> (r matches GuardStep::Refused(o) ==> !(
            o@ is Allowed)),
    {
        match step {
            Step::Done(Ok(claims)) => self.conclude(fields, &claims, roles_claim, now),
            Step::Done(Err(o)) => GuardStep::Refused(o),
            Step::Introspect(request) => GuardStep::Introspect(token, request),
            Step::Userinfo(request, kept) => GuardStep::Userinfo(token, request, kept),
        }
    }

    /// Holds a request against the guard. `cache` is what the policy's provider said,
    /// and `overrides` the claims that stand in for it where testing is on, or those
    /// registered with the plugin where it is one for testing.
    pub fn check(
        &self,
        fields: &HeaderList,
        cache: &ProviderCache,
        overrides: Option<&ClaimOverrides>,
        at: Moment,
    ) -> (r: GuardStep)
        ensures
            checks(
                self@,
                fields@,
                *cache,
                match overrides {
                    Some(o) => Some(*o),
                    None => None,
                },
                at,
                r,
            ),
            r matches GuardStep::Refused(o) ==> !(o@ is Allowed),
    {
        let token = match self.policy.credential(fields) {
            Some(token) => token,
            None => {
                return GuardStep::Refused(
                    AuthOutcome::Unauthorized(
                        text::cat3("missing credentials for '", self.name.as_str(), "'"),
                    ),
                );
            },
        };
        match &*self.policy {
            AuthPolicy::StaticToken { tokens, .. } => {
                if token::is_listed(tokens, token.as_str()) {
                    let none: Vec<(String, String)> = Vec::new();
                    proof {
                        assert(text::pairs_view(none@) =~= Seq::empty());
                    }
                    let nothing: Vec<(String, String)> = Vec::new();
                    proof {
                        assert(text::pairs_view(nothing@) =~= Seq::empty());
                    }
                    GuardStep::Passed(none, nothing)
                } else {
                    GuardStep::Refused(
                        AuthOutcome::Unauthorized(
                            text::cat3("invalid credentials for '", self.name.as_str(), "'"),
                        ),
                    )
                }
            },
            AuthPolicy::JwtHs256 { key, roles_claim, .. } => {
                let verified = key.verify(token.as_str());
                let step = Step::Done(jwt::verdict(self.name.as_str(), verified));
                proof {
                    assert(jwt::verifies(*key, self@.name, token@, step));
                }
                let r = self.follow(fields, roles_claim.as_str(), token, at.unix, step);
                assert(checks_signed(self@, fields@, *key, roles_claim@, token@, at, r));
                r
            },
            AuthPolicy::OAuth2(policy) => {
                let registered = match overrides {
                    Some(o) => o.get(token.as_str()),
                    None => None,
                };
                let step = match registered {
                    Some(claims) => {
                        if provider::expired_at(&claims, at.unix) {
                            Step::Done(Err(provider::rejected()))
                        } else {
                            Step::Done(Ok(claims))
                        }
                    },
                    None => policy.provider.begin(cache, token.as_str(), at.nanos),
                };
                proof {
                    if let Some(o) = overrides {
                        let said = o@[testing::id_of(token@)];
                        assert(provider::laid_over(said, Map::empty()) =~= said);
                    }
                    assert(provider_step(
                        policy.provider@,
                        *cache,
                        match overrides {
                            Some(o) => Some(*o),
                            None => None,
                        },
                        token@,
                        at,
                        step,
                    ));
                }
                self.follow(fields, policy.roles_claim.as_str(), token, at.unix, step)
            },
            AuthPolicy::Testing(plugin) => {
                let store = match overrides {
                    Some(o) => o,
                    None => &plugin.overrides,
                };
                let presented = match &plugin.session {
                    Some(cookie) => cookies::held(fields, cookie.name.as_str()),
                    None => None,
                };
                let base = plugins::testing::read_baseline(
                    &plugin.session,
                    match &presented {
                        Some(session) => Some(session.as_str()),
                        None => None,
                    },
                );
                proof {
                    assert(plugins::testing::baseline(
                        plugin.session,
                        carried_session(fields@, plugin.session),
                        json::fields(base),
                    ));
                }
                let step = plugins::testing::stand_in(store, base, token.as_str(), at.unix);
                self.follow(fields, plugin.roles_claim.as_str(), token, at.unix, step)
            },
        }
    }

    /// What the guard does for a request once the provider answered about its token.
    pub fn on_introspection(
        &self,
        fields: &HeaderList,
        cache: &mut ProviderCache,
        token: String,
        reply: ProviderReply,
        at: Moment,
    ) -> (r: GuardStep)
        requires
            self@.policy is OAuth2,
            at.nanos < clock::LATEST,
        ensures
            exists|step: Step|
                provider::after_introspection(
                    self@.policy->OAuth2_0.provider@,
                    *old(cache),
                    token@,
                    reply,
                    at,
                    step,
                    *final(cache),
                ) && #[trigger] follows(
                    self@,
                    fields@,
                    self@.policy->OAuth2_0.roles_claim@,
                    token@,
                    at.unix,
                    step,
                    r,
                ),
            final(cache).max_entries == old(cache).max_entries,
            r matches GuardStep::Refused(o) ==> !(o@ is Allowed),
    {
        match &*self.policy {
            AuthPolicy::OAuth2(policy) => {
                let step = policy.provider.on_introspection(cache, token.as_str(), reply, at);
                self.follow(fields, policy.roles_claim.as_str(), token, at.unix, step)
            },
            _ => GuardStep::Refused(provider::rejected()),
        }
    }

    /// What the guard does for a request once the provider answered with a profile.
    pub fn on_userinfo(
        &self,
        fields: &HeaderList,
        cache: &mut ProviderCache,
        token: String,
        introspection: StrMap<Json>,
        reply: ProviderReply,
        at: Moment,
    ) -> (r: GuardStep)
        requires
            self@.policy is OAuth2,
            at.nanos < clock::LATEST,
        ensures
            exists|step: Step|
                provider::after_userinfo(
                    self@.policy->OAuth2_0.provider@,
                    *old(cache),
                    token@,
                    json::fields(introspection),
                    reply,
                    at,
                    step,
                    *final(cache),
                ) && #[trigger] follows(
                    self@,
                    fields@,
                    self@.policy->OAuth2_0.roles_claim@,
                    token@,
                    at.unix,
                    step,
                    r,
                ),
            final(cache).max_entries == old(cache).max_entries,
            r matches GuardStep::Refused(o) ==> !(o@ is Allowed),
    {
        match &*self.policy {
            AuthPolicy::OAuth2(policy) => {
                let step = policy.provider.on_userinfo(
                    cache,
                    token.as_str(),
                    introspection,
                    reply,
                    at,
                );
                self.follow(fields, policy.roles_claim.as_str(), token, at.unix, step)
            },
            _ => GuardStep::Refused(provider::rejected()),
        }
    }
}

/// How a request ends with all of its guards: with the first that refuses, or with the
/// headers of all of them, in order.
pub open spec fn enforced(outcomes: Seq<OutcomeView>) -> OutcomeView
    decreases outcomes.len(),
{
    if outcomes.len() == 0 {
        OutcomeView::Allowed(Seq::empty())
    } else {
        match enforced(outcomes.drop_last()) {
            OutcomeView::Allowed(front) => match outcomes.last() {
                OutcomeView::Allowed(rest) => OutcomeView::Allowed(front + rest),
                refused => refused,
            },
            refused => refused,
        }
    }
}

/// What some guards add to a response, in order.
pub open spec fn gathered(issued: Seq<Seq<(Seq<char>, Seq<char>)>>) -> Seq<(Seq<char>, Seq<char>)>
    decreases issued.len(),
{
    if issued.len() == 0 {
        Seq::empty()
    } else {
        gathered(issued.drop_last()) + issued.last()
    }
}

/// The guards of a route that a request has passed, the headers they set upstream and
/// those they add to the response.
pub struct Enforcement {
    pub passed: usize,
    pub identity: Vec<(String, String)>,
    pub issued: Vec<(String, String)>,
}

/// Where a request stands with the guards of its route.
pub enum Progress {
    /// The next guard is to be held against it.
    Next(Enforcement),
    /// How it ended, and what is added to the response where it may pass.
    Finished(AuthOutcome, Vec<(String, String)>),
}

/// Whether a request that met these outcomes so far, each with what the guard adds to the
/// response, stands here with `total` guards.
pub open spec fn stands(
    outcomes: Seq<OutcomeView>,
    issued: Seq<Seq<(Seq<char>, Seq<char>)>>,
    total: int,
    p: Progress,
) -> bool {
    match p {
        Progress::Next(e) => {
            &&& e.passed == outcomes.len()
            &&& outcomes.len() < total
            &&& enforced(outcomes) == OutcomeView::Allowed(text::pairs_view(e.identity@))
            &&& text::pairs_view(e.issued@) == gathered(issued)
        },
        Progress::Finished(o, handed) => {
            &&& o@ == enforced(outcomes)
            &&& o@ is Allowed ==> outcomes.len() == total
            &&& text::pairs_view(handed@) == if o@ is Allowed {
                gathered(issued)
            } else {
                Seq::empty()
            }
        },
    }
}

impl Enforcement {
    /// Where a request stands before the first guard.
    pub fn begin(total: usize) -> (r: Progress)
        ensures
            stands(Seq::empty(), Seq::empty(), total as int, r),
            r is Finished <==> total == 0,
    {
        let identity: Vec<(String, String)> = Vec::new();
        let issued: Vec<(String, String)> = Vec::new();
        proof {
            assert(text::pairs_view(identity@) =~= Seq::empty());
            assert(text::pairs_view(issued@) =~= Seq::empty());
        }
        if total == 0 {
            Progress::Finished(AuthOutcome::Allowed(identity), issued)
        } else {
            Progress::Next(Enforcement { passed: 0, identity, issued })
        }
    }

    /// Where a request stands after the next guard: every guard must pass, and the
    /// headers of all of them are set. Nothing is added to the response to a request that
    /// one refuses.
    pub fn record(self, total: usize, outcome: AuthOutcome, handed: Vec<(String, String)>) -> (r:
        Progress)
        requires
            self.passed < total,
        ensures
            forall|before: Seq<OutcomeView>, issued: Seq<Seq<(Seq<char>, Seq<char>)>>|
                #[trigger] stands(before, issued, total as int, Progress::Next(self)) ==> stands(
                    before.push(outcome@),
                    issued.push(text::pairs_view(handed@)),
                    total as int,
                    r,
                ),
            r is Finished <==> (outcome@ !is Allowed || self.passed + 1 == total),
            outcome@ !is Allowed ==> (r matches Progress::Finished(o, given) && o@ == outcome@
                && given@.len() == 0),
            outcome@ matches OutcomeView::Allowed(told) ==> match r {
                Progress::Next(e) => e.passed == self.passed + 1 && text::pairs_view(e.identity@)
                    == text::pairs_view(self.identity@) + told && text::pairs_view(e.issued@)
                    == text::pairs_view(self.issued@) + text::pairs_view(handed@),
                Progress::Finished(o, given) => o@ == OutcomeView::Allowed(
                    text::pairs_view(self.identity@) + told,
                ) && text::pairs_view(given@) == text::pairs_view(self.issued@)
                    + text::pairs_view(handed@),
            },
    {
        let ghost had = text::pairs_view(self.identity@);
        let ghost gave = text::pairs_view(self.issued@);
        let ghost said = outcome@;
        let ghost more = text::pairs_view(handed@);
        let passed = self.passed;
        let mut identity = self.identity;
        let mut issued = self.issued;
        match outcome {
            AuthOutcome::Allowed(injected) => {
                let mut rest = injected;
                identity.append(&mut rest);
                let mut rest = handed;
                issued.append(&mut rest);
                proof {
                    assert(text::pairs_view(identity@) =~= had + said->Allowed_0);
                    assert(text::pairs_view(issued@) =~= gave + more);
                }
                let r = if passed + 1 == total {
                    Progress::Finished(AuthOutcome::Allowed(identity), issued)
                } else {
                    Progress::Next(Enforcement { passed: passed + 1, identity, issued })
                };
                proof {
                    assert forall|
                        before: Seq<OutcomeView>,
                        given: Seq<Seq<(Seq<char>, Seq<char>)>>,
                    |
                        #[trigger] stands(
                            before,
                            given,
                            total as int,
                            Progress::Next(self),
                        ) implies stands(
                        before.push(said),
                        given.push(more),
                        total as int,
                        r,
                    ) by {
                        assert(before.push(said).drop_last() =~= before);
                        assert(given.push(more).drop_last() =~= given);
                    }
                }
                r
            },
            refused => {
                let none: Vec<(String, String)> = Vec::new();
                proof {
                    assert(text::pairs_view(none@) =~= Seq::empty());
                    assert forall|
                        before: Seq<OutcomeView>,
                        given: Seq<Seq<(Seq<char>, Seq<char>)>>,
                    |
                        #[trigger] stands(
                            before,
                            given,
                            total as int,
                            Progress::Next(self),
                        ) implies stands(
                        before.push(said),
                        given.push(more),
                        total as int,
                        Progress::Finished(refused, none),
                    ) by {
                        assert(before.push(said).drop_last() =~= before);
                    }
                }
                Progress::Finished(refused, none)
            },
        }
    }
}

/// Every guard on a route must pass.
pub proof fn law_every_guard_must_pass(outcomes: Seq<OutcomeView>)
    ensures
        enforced(outcomes) is Allowed <==> forall|i: int|
            0 <= i < outcomes.len() ==> (#[trigger] outcomes[i]) is Allowed,
    decreases outcomes.len(),
{
    if outcomes.len() > 0 {
        let front = outcomes.drop_last();
        law_every_guard_must_pass(front);
        assert(forall|i: int| 0 <= i < front.len() ==> front[i] == outcomes[i]);
        if enforced(outcomes) is Allowed {
            assert forall|i: int| 0 <= i < outcomes.len() implies (
            #[trigger] outcomes[i]) is Allowed by {
                if i < front.len() {
                    assert(front[i] is Allowed);
                }
            }
        }
        if forall|i: int| 0 <= i < outcomes.len() ==> (#[trigger] outcomes[i]) is Allowed {
            assert forall|i: int| 0 <= i < front.len() implies (#[trigger] front[i]) is Allowed by {
                assert(outcomes[i] is Allowed);
            }
            assert(outcomes[outcomes.len() - 1] is Allowed);
        }
    }
}

/// A guard that asks a provider starts a session: a caller it lets pass, and who presents
/// none, is handed the session of its claims.
pub proof fn law_a_caller_who_passes_is_handed_a_session(
    g: BoundView,
    fields: Seq<(Seq<char>, Seq<u8>)>,
    roles_claim: Seq<char>,
    token: Seq<char>,
    now: i64,
    claims: Arc<StrMap<Json>>,
    r: GuardStep,
    cookie: CookieView,
)
    requires
        follows(g, fields, roles_claim, token, now, Step::Done(Ok(claims)), r),
        r is Passed,
        policy_session(g.policy@) == Some(cookie),
        cookies::held_spec(fields, cookie.name) is None,
    ensures
        handed(r) == session::issue_spec(cookie, false, json::fields(*claims), now),
{
}

/// A header comes before every cookie: where one holds a credential, no cookie is read.
pub proof fn law_headers_come_before_cookies(fields: Seq<(Seq<char>, Seq<u8>)>, p: PolicyView)
    ensures
        token_spec(fields, policy_keys(p)) is Some ==> credential_spec(fields, p) == token_spec(
            fields,
            policy_keys(p),
        ),
{
}

/// Only the provider says whether a token is still good: a policy that asks one never
/// takes a session it minted back as a credential.
pub proof fn law_a_minted_session_is_no_credential_here(
    fields: Seq<(Seq<char>, Seq<u8>)>,
    p: PolicyView,
)
    requires
        p is OAuth2,
    ensures
        credential_spec(fields, p) == token_spec(fields, policy_keys(p)),
{
}

/// A caller passes a guard only with every role the guard requires.
pub proof fn law_a_caller_needs_every_required_role(
    required: Seq<Seq<char>>,
    insert: Seq<(Seq<char>, Seq<char>)>,
    roles_claim: Seq<char>,
    claims: Map<Seq<char>, JsonView>,
    role: Seq<char>,
)
    requires
        admits(required, insert, roles_claim, claims) is Allowed,
        required.contains(role),
    ensures
        roles_spec(claims, roles_claim).contains(role),
{
    lemma_none_missing(required, roles_spec(claims, roles_claim), role);
}

/// Where no role is missing, each is granted.
proof fn lemma_none_missing(required: Seq<Seq<char>>, granted: Seq<Seq<char>>, role: Seq<char>)
    requires
        missing_role(required, granted) is None,
        required.contains(role),
    ensures
        granted.contains(role),
    decreases required.len(),
{
    let i = choose|i: int| 0 <= i < required.len() && required[i] == role;
    if i > 0 {
        assert(required.drop_first()[i - 1] == role);
        lemma_none_missing(required.drop_first(), granted, role);
    }
}

/// A header that a guard sets from claims can always stand in a header.
pub proof fn law_a_claim_cannot_splice_headers(
    insert: Seq<(Seq<char>, Seq<char>)>,
    claims: Map<Seq<char>, JsonView>,
    i: int,
)
    requires
        identity_spec(insert, claims) is Ok,
        0 <= i < identity_spec(insert, claims)->Ok_0.len(),
    ensures
        headers::valid_value(identity_spec(insert, claims)->Ok_0[i].1),
    decreases insert.len(),
{
    if insert.len() > 0 {
        let front = identity_spec(insert.drop_last(), claims)->Ok_0;
        if i < front.len() {
            law_a_claim_cannot_splice_headers(insert.drop_last(), claims, i);
        }
    }
}

/// A shared secret carries no identity: a route cannot require roles of one.
pub proof fn law_a_shared_secret_cannot_require_roles(
    name: Seq<char>,
    policy: AuthPolicy,
    required_roles: Seq<Seq<char>>,
    insert_headers: Seq<(Seq<char>, Seq<char>)>,
)
    requires
        policy is StaticToken,
        required_roles.len() > 0,
    ensures
        guard_spec(name, policy, required_roles, insert_headers) is Err,
{
}

/// Whether a header is one that some of the guards set.
pub open spec fn is_injected(guards: Seq<BoundView>, name: Seq<char>) -> bool {
    exists|i: int, j: int|
        0 <= i < guards.len() && 0 <= j < guards[i].insert_headers.len() && text::lower_spec(
            (#[trigger] guards[i].insert_headers[j]).0,
        ) == name
}

/// The names of the headers the gateway itself sets from verified claims. A client's
/// own copies are dropped before forwarding, or a caller could forge an identity.
pub fn injected_header_names(guards: &Vec<RouteGuard>) -> (r: Vec<String>)
    ensures
        forall|name: Seq<char>| #[trigger]
            text::texts(r@).contains(name) <==> is_injected(guards_view(guards@), name),
{
    let ghost all = guards_view(guards@);
    let mut out: Vec<String> = Vec::new();
    let mut i: usize = 0;
    while i < guards.len()
        invariant
            i <= guards@.len(),
            all == guards_view(guards@),
            forall|k: int|
                0 <= k < out@.len() ==> is_injected(all, (#[trigger] out@[k])@),
            forall|a: int, b: int|
                0 <= a < i && 0 <= b < all[a].insert_headers.len() ==> text::texts(out@).contains(
                    text::lower_spec((#[trigger] all[a].insert_headers[b]).0),
                ),
        decreases guards@.len() - i,
    {
        let insert = &guards[i].insert_headers;
        let mut j: usize = 0;
        while j < insert.len()
            invariant
                i < guards@.len(),
                j <= insert@.len(),
                all == guards_view(guards@),
                insert == guards@[i as int].insert_headers,
                forall|k: int|
                    0 <= k < out@.len() ==> is_injected(all, (#[trigger] out@[k])@),
                forall|a: int, b: int|
                    (0 <= a < i && 0 <= b < all[a].insert_headers.len()) || (a == i && 0 <= b < j)
                        ==> text::texts(out@).contains(
                        text::lower_spec((#[trigger] all[a].insert_headers[b]).0),
                    ),
            decreases insert@.len() - j,
        {
            let ghost before = text::texts(out@);
            let name = text::lower(insert[j].0.as_str());
            out.push(name);
            proof {
                assert(all[i as int].insert_headers[j as int].0 == insert@[j as int].0@);
                assert(is_injected(all, name@));
                assert(text::texts(out@) =~= before.push(name@));
                assert forall|a: int, b: int|
                    (0 <= a < i && 0 <= b < all[a].insert_headers.len()) || (a == i && 0 <= b < j
                        + 1) implies text::texts(out@).contains(
                    text::lower_spec((#[trigger] all[a].insert_headers[b]).0),
                ) by {
                    if a == i && b == j {
                        assert(text::texts(out@)[out@.len() - 1] == name@);
                    } else {
                        let want = text::lower_spec(all[a].insert_headers[b].0);
                        let k = choose|k: int| 0 <= k < before.len() && before[k] == want;
                        assert(text::texts(out@)[k] == want);
                    }
                }
            }
            j = j + 1;
        }
        i = i + 1;
    }
    proof {
        assert forall|name: Seq<char>| #[trigger]
            text::texts(out@).contains(name) <==> is_injected(all, name) by {
            if text::texts(out@).contains(name) {
                let k = choose|k: int|
                    0 <= k < text::texts(out@).len() && text::texts(out@)[k] == name;
                assert(out@[k]@ == name);
            }
            if is_injected(all, name) {
                let (a, b) = choose|a: int, b: int|
                    0 <= a < all.len() && 0 <= b < all[a].insert_headers.len() && text::lower_spec(
                        (#[trigger] all[a].insert_headers[b]).0,
                    ) == name;
                assert(text::texts(out@).contains(
                    text::lower_spec(all[a].insert_headers[b].0),
                ));
            }
        }
    }
    out
}

} // verus!
