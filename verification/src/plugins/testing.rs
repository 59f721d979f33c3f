//! `testing-plugin`: claim sets posted over HTTP stand in for a real provider.
//!
//! Declared in place of the plugin it impersonates, it turns a token into whatever
//! claims were registered for it. It bypasses authentication altogether: declaring it
//! is an explicit act, and nothing here is safe outside a test environment.

use crate::clock::Moment;
use crate::config::PluginConfig;
use crate::json;
use crate::json::{Json, JsonView};
use crate::plugins;
use crate::plugins::session;
use crate::plugins::session::{CookieView, SessionCookie};
use crate::plugins::{AuthPlugin, Credential};
use crate::provider;
use crate::provider::Step;
use crate::signed;
use crate::strmap::StrMap;
use crate::testing;
use crate::text;
use crate::yaml;
use crate::yaml::YamlView;
use std::sync::Arc;
use vstd::prelude::*;
use vstd::string::*;

pub use crate::testing::ClaimOverrides;

verus! {

/// The `type:` a config declares one of these with.
pub const KIND: &'static str = "testing-plugin";

/// Where claim sets are posted to where a config does not say.
pub const DEFAULT_ENDPOINT: &'static str = "/testing/userinfo";

/// A store of claim sets in place of a provider.
pub struct TestingPlugin {
    pub name: String,
    pub header_keys: Vec<String>,
    pub roles_claim: String,
    pub endpoint: String,
    /// The session that a caller may carry, whose claims those that are registered are
    /// laid over. It is not minted here.
    pub session: Option<SessionCookie>,
    pub overrides: ClaimOverrides,
}

/// What a plugin is made of, and what was registered with it.
pub struct TestingView {
    pub name: Seq<char>,
    pub header_keys: Seq<Seq<char>>,
    pub roles_claim: Seq<char>,
    pub endpoint: Seq<char>,
    pub session: Option<CookieView>,
    pub overrides: Map<Seq<char>, Map<Seq<char>, JsonView>>,
}

impl View for TestingPlugin {
    type V = TestingView;

    open spec fn view(&self) -> TestingView {
        TestingView {
            name: self.name@,
            header_keys: text::texts(self.header_keys@),
            roles_claim: self.roles_claim@,
            endpoint: self.endpoint@,
            session: match self.session {
                Some(cookie) => Some(cookie@),
                None => None,
            },
            overrides: self.overrides@,
        }
    }
}

/// The plugin a config declares, with nothing registered yet.
pub open spec fn build_spec(
    name: Seq<char>,
    params: Map<Seq<char>, YamlView>,
    env: Map<Seq<char>, String>,
) -> Result<TestingView, Seq<char>> {
    match plugins::string_spec(params, "endpoint"@, env) {
        Err(e) => Err(e),
        Ok(given) => {
            let endpoint = session::or_else(given, DEFAULT_ENDPOINT@);
            if !"/"@.is_prefix_of(endpoint) {
                Err(KIND@ + " 'endpoint' must start with '/'"@)
            } else {
                match plugins::string_list_spec(params, "keys"@, env) {
                    Err(e) => Err(e),
                    Ok(header_keys) => match plugins::string_spec(params, "roles-claim"@, env) {
                        Err(e) => Err(e),
                        Ok(claim) => match session::session_spec(params, KIND@, env) {
                            Err(e) => Err(e),
                            Ok(session) => Ok(
                                TestingView {
                                    name,
                                    header_keys,
                                    roles_claim: session::or_else(claim, "scope"@),
                                    endpoint,
                                    session,
                                    overrides: Map::empty(),
                                },
                            ),
                        },
                    },
                }
            }
        },
    }
}

/// Builds the plugin a config declares.
pub fn build(config: &PluginConfig, env: &StrMap<String>) -> (r: Result<TestingPlugin, String>)
    ensures
        (match r {
            Ok(p) => Ok(p@),
            Err(e) => Err(e@),
        }) == build_spec(config.name@, yaml::block_view(config.params), env@),
        r matches Ok(p) ==> p.overrides@ == Map::<
            Seq<char>,
            Map<Seq<char>, JsonView>,
        >::empty(),
{
    let endpoint = match plugins::string(&config.params, "endpoint", env) {
        Ok(Some(endpoint)) => endpoint,
        Ok(None) => DEFAULT_ENDPOINT.to_owned(),
        Err(e) => {
            return Err(e);
        },
    };
    if !text::starts_with(endpoint.as_str(), "/") {
        return Err(text::cat2(KIND, " 'endpoint' must start with '/'"));
    }
    let header_keys = match plugins::string_list(&config.params, "keys", env) {
        Ok(header_keys) => header_keys,
        Err(e) => {
            return Err(e);
        },
    };
    // The claim of the plugin that this one most often stands in for.
    let roles_claim = match plugins::string(&config.params, "roles-claim", env) {
        Ok(Some(claim)) => claim,
        Ok(None) => "scope".to_owned(),
        Err(e) => {
            return Err(e);
        },
    };
    let session = match session::build(&config.params, KIND, env) {
        Ok(session) => session,
        Err(e) => {
            return Err(e);
        },
    };
    Ok(
        TestingPlugin {
            name: config.name.clone(),
            header_keys,
            roles_claim,
            endpoint,
            session,
            overrides: ClaimOverrides::new(),
        },
    )
}

/// Whether claims may be those that the session a caller carries vouches for: none where
/// there is no session, or where it may fail to verify.
pub open spec fn baseline(
    cookie: Option<SessionCookie>,
    session: Option<Seq<char>>,
    base: Map<Seq<char>, JsonView>,
) -> bool {
    match (cookie, session) {
        (Some(cookie), Some(token)) => {
            ||| cookie.key.vouches(token, base)
            ||| base == Map::<Seq<char>, JsonView>::empty() && exists|kind: Seq<char>| #[trigger]
                cookie.key.refuses(token, kind)
        },
        _ => base == Map::<Seq<char>, JsonView>::empty(),
    }
}

/// The claims that the session a caller carries vouches for.
pub fn read_baseline(cookie: &Option<SessionCookie>, session: Option<&str>) -> (r: StrMap<Json>)
    ensures
        baseline(*cookie, signed::slice_of(session), json::fields(r)),
{
    if let (Some(cookie), Some(token)) = (cookie, session) {
        if let Some(claims) = cookie.claims(token) {
            return claims;
        }
    }
    json::empty_object()
}

/// Whether a step is right for a token of which claims may be registered: laid over those
/// of the session the caller carries, they are the identity until they expire, and a
/// token nobody registered is refused as a real provider would refuse it.
pub open spec fn stands_in(
    overrides: ClaimOverrides,
    base: Map<Seq<char>, JsonView>,
    token: Seq<char>,
    unix: i64,
    step: Step,
) -> bool {
    let id = testing::id_of(token);
    let claims = provider::laid_over(overrides@[id], base);
    if overrides@.contains_key(id) && !provider::expired_spec(claims, unix) {
        step matches Step::Done(Ok(c)) && json::fields(*c) == claims
    } else {
        step matches Step::Done(Err(o)) && provider::is_rejection(o)
    }
}

/// What a store of claims comes to for a token, with the claims of the session that the
/// caller carries.
pub fn stand_in(overrides: &ClaimOverrides, base: StrMap<Json>, token: &str, unix: i64) -> (r: Step)
    ensures
        stands_in(*overrides, json::fields(base), token@, unix, r),
{
    match overrides.get(token) {
        // A past expiry counts: that is how expiry is tested.
        Some(registered) => {
            let claims = provider::lay_over(&registered, base);
            if provider::expired_at(&claims, unix) {
                Step::Done(Err(provider::rejected()))
            } else {
                Step::Done(Ok(Arc::new(claims)))
            }
        },
        None => Step::Done(Err(provider::rejected())),
    }
}

/// Without a session the claims that are registered for a token are the identity as they
/// stand.
pub proof fn law_registered_claims_stand_alone(
    overrides: ClaimOverrides,
    token: Seq<char>,
    unix: i64,
    step: Step,
)
    requires
        overrides@.contains_key(testing::id_of(token)),
        !provider::expired_spec(overrides@[testing::id_of(token)], unix),
    ensures
        stands_in(overrides, Map::empty(), token, unix, step) <==> (step matches Step::Done(
            Ok(claims),
        ) && json::fields(*claims) == overrides@[testing::id_of(token)]),
{
    let said = overrides@[testing::id_of(token)];
    assert(provider::laid_over(said, Map::empty()) =~= said);
}

/// What is registered for a token counts where the session speaks of the same claim, and
/// the session counts where nothing is registered.
pub proof fn law_what_is_registered_counts_over_a_session(
    registered: Map<Seq<char>, JsonView>,
    base: Map<Seq<char>, JsonView>,
    claim: Seq<char>,
)
    ensures
        registered.contains_key(claim) ==> provider::laid_over(registered, base).contains_key(claim)
            && provider::laid_over(registered, base)[claim] == registered[claim],
        !registered.contains_key(claim) && base.contains_key(claim) ==> provider::laid_over(
            registered,
            base,
        ).contains_key(claim) && provider::laid_over(registered, base)[claim] == base[claim],
{
}

impl AuthPlugin for TestingPlugin {
    open spec fn kind_spec(&self) -> Seq<char> {
        KIND@
    }

    open spec fn name_spec(&self) -> Seq<char> {
        self@.name
    }

    open spec fn header_keys_spec(&self) -> Seq<Seq<char>> {
        self@.header_keys
    }

    open spec fn cookie_keys_spec(&self) -> Seq<Seq<char>> {
        Seq::empty()
    }

    open spec fn cookie_spec(&self) -> Option<CookieView> {
        None
    }

    open spec fn roles_claim_spec(&self) -> Option<Seq<char>> {
        Some(self@.roles_claim)
    }

    open spec fn endpoint_spec(&self) -> Option<Seq<char>> {
        Some(self@.endpoint)
    }

    open spec fn answers(&self, credential: Credential, at: Moment, step: Step) -> bool {
        exists|base: Map<Seq<char>, JsonView>| #[trigger]
            baseline(self.session, signed::slice_of(credential.session), base) && stands_in(
                self.overrides,
                base,
                credential.token@,
                at.unix,
                step,
            )
    }

    fn kind(&self) -> (r: &'static str) {
        KIND
    }

    fn name(&self) -> (r: &str) {
        self.name.as_str()
    }

    fn header_keys(&self) -> (r: &Vec<String>) {
        &self.header_keys
    }

    fn cookie_keys(&self) -> (r: Vec<String>) {
        let none: Vec<String> = Vec::new();
        proof {
            assert(text::texts(none@) =~= self.cookie_keys_spec());
        }
        none
    }

    fn session_cookie(&self) -> (r: Option<&SessionCookie>) {
        None
    }

    fn roles_claim(&self) -> (r: Option<&str>) {
        Some(self.roles_claim.as_str())
    }

    /// The claim sets have to be posted from somewhere, so this plugin alone asks the
    /// proxy listener to mount a scope for it.
    fn endpoint(&self) -> (r: Option<plugins::Endpoint>) {
        Some(plugins::Endpoint { plugin: self.name.clone(), path: self.endpoint.clone() })
    }

    fn authenticate(&self, credential: Credential<'_>, at: Moment) -> (r: Step) {
        let base = read_baseline(&self.session, credential.session);
        proof {
            assert(baseline(
                self.session,
                signed::slice_of(credential.session),
                json::fields(base),
            ));
        }
        stand_in(&self.overrides, base, credential.token, at.unix)
    }
}

} // verus!
