//! What the entries of a configuration declare.

use crate::auth::{AuthOutcome, AuthPolicy, GuardStep, OutcomeView, RouteGuard};
use crate::clock;
use crate::clock::Moment;
use crate::config::{PluginConfig, PluginReference};
use crate::digest;
use crate::headers::HeaderList;
use crate::json;
use crate::json::{Json, JsonView};
use crate::plugins;
use crate::plugins::session::SessionCookie;
use crate::plugins::testing::TestingPlugin;
use crate::plugins::{oauth2, session, token, wasm, AuthPlugin, Built, Credential};
use crate::provider::{Provider, ProviderCache, Step};
use crate::registry::Declared;
use crate::signed;
use crate::signed::TokenKey;
use crate::strmap::StrMap;
use crate::testing;
use crate::testing::ClaimOverrides;
use crate::text;
use crate::yaml;
use crate::yaml::YamlView;
use std::sync::Arc;
use vstd::prelude::*;
use vstd::string::*;

verus! {

/// The kinds that a plugin can be declared as, to the letter.
pub proof fn law_which_kinds_there_are(r: Vec<&'static str>)
    requires
        call_ensures(plugins::kinds, (), r),
    ensures
        r@.len() == 5,
        r@[0]@ == "token-plugin"@,
        r@[1]@ == "jwt-plugin"@,
        r@[2]@ == "oauth2-plugin"@,
        r@[3]@ == "testing-plugin"@,
        r@[4]@ == "wasm-plugin"@,
{
    let names = text::slices(r@);
    assert(names.len() == r@.len());
    assert(forall|i: int| 0 <= i < names.len() ==> #[trigger] names[i] == r@[i]@);
    assert(names[0] == token::KIND@ && names[1] == plugins::jwt::KIND@);
    assert(names[2] == oauth2::KIND@ && names[3] == plugins::testing::KIND@);
    assert(names[4] == wasm::KIND@);
}

/// Shared secrets are declared as a list that is not empty and holds no empty text.
pub proof fn law_which_secrets_can_be_declared(
    params: StrMap<yaml_serde::Value>,
    env: StrMap<String>,
    listed: Result<Vec<String>, String>,
    r: Result<Vec<String>, String>,
)
    requires
        call_ensures(plugins::string_list, (&params, "tokens", &env), listed),
        call_ensures(token::read_tokens, (&params, &env), r),
    ensures
        r is Ok <==> listed is Ok && listed->Ok_0@.len() > 0 && forall|i: int|
            0 <= i < listed->Ok_0@.len() ==> (#[trigger] listed->Ok_0@[i])@.len() > 0,
        r matches Ok(v) ==> text::texts(v@) == text::texts(listed->Ok_0@),
        listed matches Err(e) ==> (r matches Err(f) && f@ == e@),
        listed is Ok && listed->Ok_0@.len() == 0 ==> (r matches Err(e) && e@ == "token-plugin"@
            + " requires a non-empty 'tokens' list"@),
        listed is Ok && listed->Ok_0@.len() > 0 ==> (r matches Err(e) ==> e@ == "token-plugin"@
            + " 'tokens' must not contain empty values"@),
{
    if let Ok(v) = listed {
        let all = text::texts(v@);
        assert(all.len() == v@.len());
        if all.contains(Seq::empty()) {
            let i = choose|i: int| 0 <= i < all.len() && all[i] == Seq::<char>::empty();
            assert(v@[i]@.len() == 0);
        } else {
            assert forall|i: int| 0 <= i < v@.len() implies (#[trigger] v@[i])@.len() > 0 by {
                if v@[i]@.len() == 0 {
                    assert(v@[i]@ =~= Seq::empty());
                    assert(all[i] == Seq::<char>::empty());
                }
            }
        }
    }
}

/// A key for signed tokens is declared by a secret that is not empty, with an issuer and an
/// audience where they are given.
pub proof fn law_how_a_key_is_declared(
    params: StrMap<yaml_serde::Value>,
    env: StrMap<String>,
    secret: Option<String>,
    issuer: Option<String>,
    audience: Option<String>,
    r: Result<TokenKey, String>,
)
    requires
        call_ensures(plugins::string, (&params, "secret", &env), Ok(secret)),
        call_ensures(plugins::string, (&params, "issuer", &env), Ok(issuer)),
        call_ensures(plugins::string, (&params, "audience", &env), Ok(audience)),
        call_ensures(plugins::jwt::read_key, (&params, &env), r),
    ensures
        r is Ok <==> secret is Some && secret->Some_0@.len() > 0,
        secret is None ==> (r matches Err(e) && e@ == "jwt-plugin"@ + " requires 'secret'"@),
        secret is Some && secret->Some_0@.len() == 0 ==> (r matches Err(e) && e@ == "jwt-plugin"@
            + " 'secret' must not be empty"@),
        r matches Ok(key) ==> key.secret@ == secret->Some_0@ && text::opt_of(key.issuer)
            == text::opt_of(issuer) && text::opt_of(key.audience) == text::opt_of(audience),
{
}

/// A provider is declared by where it is asked and as whom; how long to wait and to remember
/// is as the entry says, or as usual where it does not. The scope holds the roles unless the
/// entry names another claim.
pub proof fn law_how_a_provider_is_declared(
    params: StrMap<yaml_serde::Value>,
    env: StrMap<String>,
    standing: oauth2::Standing,
    userinfo: Option<String>,
    claim: Option<String>,
    timeout: u64,
    cache_max: u64,
    cache_negative: u64,
    entries: u64,
    r: Result<(Provider, String), String>,
)
    requires
        call_ensures(plugins::string, (&params, "userinfo-url", &env), Ok(userinfo)),
        call_ensures(plugins::string, (&params, "roles-claim", &env), Ok(claim)),
        call_ensures(plugins::number, (&params, "timeout-seconds", 5), Ok(timeout)),
        call_ensures(plugins::number, (&params, "cache-max-seconds", 60), Ok(cache_max)),
        call_ensures(plugins::number, (&params, "cache-negative-seconds", 5), Ok(cache_negative)),
        call_ensures(plugins::number, (&params, "cache-max-entries", 10_000), Ok(entries)),
        call_ensures(oauth2::read_provider, (&params, &env, standing), r),
    ensures
        r matches Ok((p, roles)) && p.introspection_url@ == standing.introspection_url@
            && text::opt_of(p.userinfo_url) == text::opt_of(userinfo) && p.authorization@
            == "Basic "@ + digest::base64_standard(
            vstd::utf8::encode_utf8(
                standing.client_id@ + seq![':'] + standing.client_secret@,
            ),
        ) && p.timeout == timeout && p.cache_max == cache_max && p.cache_negative
            == cache_negative && p.cache_max_entries == entries as usize && roles@ == (
        if claim is Some {
            claim->Some_0@
        } else {
            "scope"@
        }),
{
    reveal_strlit(":");
    assert(":"@ =~= seq![':']);
}

/// Who asks a provider, and where, must be given in full.
pub proof fn law_what_a_provider_must_be_told(
    params: StrMap<yaml_serde::Value>,
    env: StrMap<String>,
    url: Option<String>,
    id: Option<String>,
    secret: Option<String>,
    r: Result<oauth2::Standing, String>,
)
    requires
        call_ensures(plugins::string, (&params, "introspection-url", &env), Ok(url)),
        call_ensures(plugins::string, (&params, "client-id", &env), Ok(id)),
        call_ensures(plugins::string, (&params, "client-secret", &env), Ok(secret)),
        call_ensures(oauth2::read_standing, (&params, &env), r),
    ensures
        r is Ok <==> url is Some && id is Some && secret is Some,
        r matches Ok(s) ==> s.introspection_url@ == url->Some_0@ && s.client_id@ == id->Some_0@
            && s.client_secret@ == secret->Some_0@,
        url is None ==> (r matches Err(e) && e@ == "oauth2-plugin"@ + " requires '"@
            + "introspection-url"@ + "'"@),
        url is Some && id is None ==> (r matches Err(e) && e@ == "oauth2-plugin"@ + " requires '"@
            + "client-id"@ + "'"@),
        url is Some && id is Some && secret is None ==> (r matches Err(e) && e@
            == "oauth2-plugin"@ + " requires '"@ + "client-secret"@ + "'"@),
{
}

/// An entry of a kind for shared secrets declares a policy of its secrets, and reads them out
/// of the headers that it names.
pub proof fn law_what_a_token_plugin_declares(
    config: PluginConfig,
    env: StrMap<String>,
    keys: Result<Vec<String>, String>,
    tokens: Result<Vec<String>, String>,
    r: Result<AuthPolicy, String>,
)
    requires
        config.plugin_id@ == "token-plugin"@,
        call_ensures(plugins::string_list, (&config.params, "keys", &env), keys),
        call_ensures(token::read_tokens, (&config.params, &env), tokens),
        call_ensures(AuthPolicy::from_config, (&config, &env), r),
    ensures
        r is Ok <==> keys is Ok && tokens is Ok,
        r matches Ok(p) ==> (p matches AuthPolicy::StaticToken { header_keys, tokens: listed }
            && text::texts(header_keys@) == text::texts(keys->Ok_0@) && text::texts(listed@)
            == text::texts(tokens->Ok_0@)),
{
    lemma_kinds();
}

proof fn lemma_kinds()
    ensures
        "token-plugin"@ != "jwt-plugin"@,
        "token-plugin"@ != "oauth2-plugin"@,
        "token-plugin"@ != "testing-plugin"@,
        "token-plugin"@ != "wasm-plugin"@,
        "jwt-plugin"@ != "oauth2-plugin"@,
        "jwt-plugin"@ != "testing-plugin"@,
        "oauth2-plugin"@ != "testing-plugin"@,
{
    reveal_strlit("token-plugin");
    reveal_strlit("jwt-plugin");
    reveal_strlit("oauth2-plugin");
    reveal_strlit("testing-plugin");
    reveal_strlit("wasm-plugin");
    assert("token-plugin"@.len() == 12 && "jwt-plugin"@.len() == 10);
    assert("oauth2-plugin"@.len() == 13 && "testing-plugin"@.len() == 14);
    assert("wasm-plugin"@.len() == 11);
}

/// An entry of the kind for signed tokens declares a policy of its key: tokens are read out of
/// the headers and the cookies that it names, and the roles out of its claim, or out of the
/// usual one.
pub proof fn law_what_a_jwt_plugin_declares(
    config: PluginConfig,
    env: StrMap<String>,
    keys: Result<Vec<String>, String>,
    cookies: Result<Vec<String>, String>,
    claim: Result<Option<String>, String>,
    key: Result<TokenKey, String>,
    r: Result<AuthPolicy, String>,
)
    requires
        config.plugin_id@ == "jwt-plugin"@,
        call_ensures(plugins::string_list, (&config.params, "keys", &env), keys),
        call_ensures(plugins::string_list, (&config.params, "cookie-keys", &env), cookies),
        call_ensures(plugins::string, (&config.params, "roles-claim", &env), claim),
        call_ensures(plugins::jwt::read_key, (&config.params, &env), key),
        call_ensures(AuthPolicy::from_config, (&config, &env), r),
    ensures
        r is Ok <==> keys is Ok && cookies is Ok && claim is Ok && key is Ok,
        r matches Ok(p) ==> (p matches AuthPolicy::JwtHs256 {
            header_keys,
            cookie_keys,
            key: made,
            roles_claim,
        } && text::texts(header_keys@) == text::texts(keys->Ok_0@) && text::texts(cookie_keys@)
            == text::texts(cookies->Ok_0@) && made.secret@ == key->Ok_0.secret@ && text::opt_of(
            made.issuer,
        ) == text::opt_of(key->Ok_0.issuer) && text::opt_of(made.audience) == text::opt_of(
            key->Ok_0.audience,
        ) && roles_claim@ == (if claim->Ok_0 is Some {
            claim->Ok_0->Some_0@
        } else {
            seq!['r', 'o', 'l', 'e', 's']
        })),
{
    lemma_kinds();
    reveal_strlit("roles");
    assert("roles"@ =~= seq!['r', 'o', 'l', 'e', 's']);
}

/// An entry of the kind for providers declares a policy that asks one: the provider, the claim
/// with the roles and the session are as the entry's other parts declare them.
pub proof fn law_what_an_oauth2_plugin_declares(
    config: PluginConfig,
    env: StrMap<String>,
    keys: Result<Vec<String>, String>,
    standing: oauth2::Standing,
    made: Result<(Provider, String), String>,
    cookie: Result<Option<SessionCookie>, String>,
    r: Result<AuthPolicy, String>,
)
    requires
        config.plugin_id@ == "oauth2-plugin"@,
        call_ensures(plugins::string_list, (&config.params, "keys", &env), keys),
        call_ensures(oauth2::read_standing, (&config.params, &env), Ok(standing)),
        call_ensures(oauth2::read_provider, (&config.params, &env, standing), made),
        call_ensures(session::build, (&config.params, "oauth2-plugin", &env), cookie),
        call_ensures(AuthPolicy::from_config, (&config, &env), r),
    ensures
        r is Ok <==> keys is Ok && made is Ok && cookie is Ok,
        r matches Ok(p) ==> (p matches AuthPolicy::OAuth2(o) && text::texts(o.header_keys@)
            == text::texts(keys->Ok_0@) && o.provider@ == made->Ok_0.0@ && o.roles_claim@
            == made->Ok_0.1@ && (o.session is Some <==> cookie->Ok_0 is Some) && (
        o.session is Some ==> o.session->Some_0@ == cookie->Ok_0->Some_0@)),
{
    lemma_kinds();
}

/// A kind that is none is refused, by its name.
pub proof fn law_an_unknown_kind_is_refused(
    config: PluginConfig,
    env: StrMap<String>,
    known: String,
    r: Result<Built, String>,
)
    requires
        config.plugin_id@ != "token-plugin"@,
        config.plugin_id@ != "jwt-plugin"@,
        config.plugin_id@ != "oauth2-plugin"@,
        config.plugin_id@ != "testing-plugin"@,
        call_ensures(plugins::known_kinds, (), known),
        call_ensures(plugins::build, (&config, &env), r),
    ensures
        r matches Err(e) && e@ == "unknown plugin type '"@ + config.plugin_id@ + "' (expected "@
            + known@ + ")"@,
{
}

/// A module is declared by where it lies, which must be a text and is expanded.
pub proof fn law_where_a_module_lies(
    config: PluginConfig,
    env: StrMap<String>,
    raw: &str,
    expanded: Result<String, String>,
    r: Result<String, String>,
)
    requires
        call_ensures(plugins::expand_env, (raw, &env), expanded),
        call_ensures(wasm::module_file, (&config, &env), r),
    ensures
        ({
            let given = yaml::block_view(config.params);
            &&& !given.contains_key("path"@) ==> (r matches Err(e) && e@ == "wasm-plugin"@
                + " requires 'path' to a .wasm module"@)
            &&& given.contains_key("path"@) && !(given["path"@] is Text) ==> (r matches Err(e)
                && e@ == "wasm-plugin"@ + " 'path' must be a string"@)
            &&& given.contains_key("path"@) && given["path"@] == YamlView::Text(raw@) ==> (
            match expanded {
                Ok(s) => r matches Ok(t) && t@ == s@,
                Err(e) => r matches Err(f) && f@ == e@,
            })
        }),
{
}

/// A token that verifies carries an expiry that is not past, as the calendar reads now, and
/// names no other issuer and no other audience than the key asks for, where it names one.
pub proof fn law_which_tokens_verify(key: TokenKey, token: &str, r: Result<StrMap<Json>, String>)
    requires
        call_ensures(TokenKey::verify, (&key, token), r),
    ensures
        r matches Ok(claims) ==> ({
            let said = json::fields(claims);
            &&& exists|unix: u64|
                clock::calendar_reads(unix) && #[trigger] signed::jwt_decoded(
                    token@,
                    key.secret@,
                    text::opt_of(key.issuer),
                    text::opt_of(key.audience),
                    key.audience is Some,
                    0,
                    unix,
                ) == Ok::<JsonView, Seq<char>>(JsonView::Object(said)) && (
                said["exp"@] matches JsonView::Int(exp) ==> unix <= exp)
            &&& said.contains_key("exp"@)
            &&& key.issuer is Some && said.contains_key("iss"@) ==> (
            said["iss"@] matches JsonView::Text(stamped) ==> stamped == key.issuer->Some_0@)
            &&& key.audience is Some && said.contains_key("aud"@) ==> (
            said["aud"@] matches JsonView::Text(stamped) ==> stamped == key.audience->Some_0@)
        }),
{
    if let Ok(claims) = r {
        let said = json::fields(claims);
        let unix = choose|unix: u64| #[trigger]
            signed::decoded(
                token@,
                key.secret@,
                text::opt_of(key.issuer),
                text::opt_of(key.audience),
                unix,
            ) == Ok::<JsonView, Seq<char>>(JsonView::Object(said)) && clock::calendar_reads(unix)
                && signed::timely(said, signed::LEEWAY, unix);
        assert(signed::jwt_decoded(
            token@,
            key.secret@,
            text::opt_of(key.issuer),
            text::opt_of(key.audience),
            key.audience is Some,
            0,
            unix,
        ) == Ok::<JsonView, Seq<char>>(JsonView::Object(said)));
    }
}

/// A guard with a key lets a caller pass only with claims that the key vouches for in the
/// credential, where those grant every required role; it hands out no session.
pub proof fn law_a_signed_token_must_verify(
    guard: RouteGuard,
    fields: HeaderList,
    cache: ProviderCache,
    overrides: Option<&ClaimOverrides>,
    at: Moment,
    credential: Option<String>,
    r: GuardStep,
)
    requires
        call_ensures(AuthPolicy::credential, (&*guard.policy, &fields), credential),
        credential is Some,
        *guard.policy is JwtHs256,
        call_ensures(RouteGuard::check, (&guard, &fields, &cache, overrides, at), r),
    ensures
        r is Passed || r is Refused,
        r matches GuardStep::Passed(told, handed) ==> handed@.len() == 0 && exists|
            claims: Map<Seq<char>, JsonView>,
        |
            #[trigger] guard.policy->JwtHs256_key.vouches(credential->Some_0@, claims)
                && crate::auth::admits(
                text::texts(guard.required_roles@),
                text::pairs_view(guard.insert_headers@),
                guard.policy->JwtHs256_roles_claim@,
                claims,
            ) == OutcomeView::Allowed(text::pairs_view(told@)),
{
    let key = guard@.policy->JwtHs256_key;
    let claim = guard@.policy->JwtHs256_roles_claim@;
    let token = credential->Some_0@;
    let step = choose|step: crate::provider::Step|
        #![trigger crate::auth::follows(guard@, fields@, claim, token, at.unix, step, r)]
        plugins::jwt::verifies(key, guard@.name, token, step) && crate::auth::follows(
            guard@,
            fields@,
            claim,
            token,
            at.unix,
            step,
            r,
        );
    if let GuardStep::Passed(told, handed) = r {
        assert(text::pairs_view(handed@).len() == handed@.len());
        if let crate::provider::Step::Done(Ok(claims)) = step {
            assert(key.vouches(token, json::fields(*claims)));
        }
    }
}

/// Where claims stand in for a provider, a token that they are registered for never reaches
/// the provider; any other is looked up as if there were none.
pub proof fn law_claims_keep_a_token_from_the_provider(
    guard: RouteGuard,
    fields: HeaderList,
    cache: ProviderCache,
    overrides: &ClaimOverrides,
    at: Moment,
    credential: Option<String>,
    r: GuardStep,
)
    requires
        call_ensures(AuthPolicy::credential, (&*guard.policy, &fields), credential),
        credential is Some,
        *guard.policy is OAuth2,
        call_ensures(RouteGuard::check, (&guard, &fields, &cache, Some(overrides), at), r),
    ensures
        ({
            let id = digest::hex_spec(digest::key_spec(credential->Some_0@));
            &&& overrides@.contains_key(id) ==> r is Passed || r is Refused
            &&& !overrides@.contains_key(id) ==> (r is Introspect <==> !(cache@.contains_key(id)
                && at.nanos < cache@[id].expires_at))
            &&& r matches GuardStep::Introspect(t, q) ==> t@ == credential->Some_0@ && q.url@
                == guard.policy->OAuth2_0.provider.introspection_url@
        }),
{
    let policy = guard@.policy->OAuth2_0;
    let token = credential->Some_0@;
    let step = choose|step: crate::provider::Step|
        #![trigger crate::auth::follows(guard@, fields@, policy.roles_claim@, token, at.unix, step, r)]
        crate::auth::provider_step(policy.provider@, cache, Some(*overrides), token, at, step)
            && crate::auth::follows(
            guard@,
            fields@,
            policy.roles_claim@,
            token,
            at.unix,
            step,
            r,
        );
    assert(crate::auth::follows(guard@, fields@, policy.roles_claim@, token, at.unix, step, r));
}

/// A route's reference to a guard gives the roles and headers it lists, in order.
pub proof fn law_what_a_reference_declares(
    reference: PluginReference,
    params: StrMap<yaml_serde::Value>,
    policy: Arc<AuthPolicy>,
    env: StrMap<String>,
    roles: Result<Vec<String>, String>,
    r: Result<RouteGuard, String>,
)
    requires
        reference.params == Some(params),
        call_ensures(plugins::string_list, (&params, "roles", &env), roles),
        call_ensures(RouteGuard::from_reference, (&reference, policy, &env), r),
    ensures
        roles matches Err(e) ==> (r matches Err(f) && f@ == e@),
        r matches Ok(g) ==> {
            &&& g.name@ == reference.name@
            &&& *g.policy == *policy
            &&& text::texts(g.required_roles@) == text::texts(roles->Ok_0@)
            &&& !yaml::block_view(params).contains_key("insert-headers"@)
                ==> g.insert_headers@.len() == 0
            &&& yaml::block_view(params).contains_key("insert-headers"@) ==> (yaml::block_view(
                params,
            )["insert-headers"@] matches YamlView::Mapping(entries) && entries.len()
                == g.insert_headers@.len() && forall|i: int|
                0 <= i < entries.len() ==> yaml::as_str_spec((#[trigger] entries[i]).0) == Some(
                    g.insert_headers@[i].0@,
                ) && yaml::as_str_spec(entries[i].1) == Some(g.insert_headers@[i].1@))
        },
{
    if let Ok(g) = r {
        let given = yaml::block_view(params);
        let told = text::pairs_view(g.insert_headers@);
        assert(told.len() == g.insert_headers@.len());
        if given.contains_key("insert-headers"@) {
            if let YamlView::Mapping(entries) = given["insert-headers"@] {
                lemma_inserts(entries);
                assert forall|i: int| 0 <= i < entries.len() implies yaml::as_str_spec(
                    (#[trigger] entries[i]).0,
                ) == Some(g.insert_headers@[i].0@) && yaml::as_str_spec(entries[i].1) == Some(
                    g.insert_headers@[i].1@,
                ) by {
                    assert(told[i] == (g.insert_headers@[i].0@, g.insert_headers@[i].1@));
                }
            }
        }
    }
}

proof fn lemma_inserts(entries: Seq<(YamlView, YamlView)>)
    ensures
        crate::auth::insert_entries(entries) matches Ok(v) ==> v.len() == entries.len() && forall|
            i: int,
        |
            0 <= i < entries.len() ==> yaml::as_str_spec((#[trigger] entries[i]).0) == Some(v[i].0)
                && yaml::as_str_spec(entries[i].1) == Some(v[i].1),
    decreases entries.len(),
{
    if entries.len() > 0 {
        let front = entries.drop_last();
        lemma_inserts(front);
        assert(entries[entries.len() - 1] == entries.last());
        if let Ok(v) = crate::auth::insert_entries(entries) {
            assert forall|i: int| 0 <= i < entries.len() implies yaml::as_str_spec(
                (#[trigger] entries[i]).0,
            ) == Some(v[i].0) && yaml::as_str_spec(entries[i].1) == Some(v[i].1) by {
                if i < front.len() {
                    assert(front[i] == entries[i]);
                }
            }
        }
    }
}

/// An entry of the kind for test claims declares where those are put, under the usual path
/// where it does not say, and which claim holds the roles; nothing is registered at first.
pub proof fn law_what_a_testing_plugin_declares(
    config: PluginConfig,
    env: StrMap<String>,
    endpoint: Result<Option<String>, String>,
    keys: Result<Vec<String>, String>,
    claim: Result<Option<String>, String>,
    cookie: Result<Option<SessionCookie>, String>,
    r: Result<TestingPlugin, String>,
    policy: Result<AuthPolicy, String>,
)
    requires
        config.plugin_id@ == "testing-plugin"@,
        call_ensures(plugins::string, (&config.params, "endpoint", &env), endpoint),
        call_ensures(plugins::string_list, (&config.params, "keys", &env), keys),
        call_ensures(plugins::string, (&config.params, "roles-claim", &env), claim),
        call_ensures(session::build, (&config.params, "testing-plugin", &env), cookie),
        call_ensures(plugins::testing::build, (&config, &env), r),
        call_ensures(AuthPolicy::from_config, (&config, &env), policy),
    ensures
        ({
            let path = if endpoint is Ok && endpoint->Ok_0 is Some {
                endpoint->Ok_0->Some_0@
            } else {
                "/testing/userinfo"@
            };
            &&& r is Ok <==> endpoint is Ok && path.len() > 0 && path[0] == '/' && keys is Ok
                && claim is Ok && cookie is Ok
            &&& r matches Ok(p) ==> {
                &&& p.name@ == config.name@
                &&& p.endpoint@ == path
                &&& text::texts(p.header_keys@) == text::texts(keys->Ok_0@)
                &&& p.roles_claim@ == (if claim->Ok_0 is Some {
                    claim->Ok_0->Some_0@
                } else {
                    "scope"@
                })
                &&& p.session is Some <==> cookie->Ok_0 is Some
                &&& p.session is Some ==> p.session->Some_0@ == cookie->Ok_0->Some_0@
                &&& p.overrides@.dom().is_empty()
            }
            &&& endpoint is Ok && (path.len() == 0 || path[0] != '/') ==> (r matches Err(e) && e@
                == "testing-plugin"@ + " 'endpoint' must start with '/'"@)
            &&& policy is Ok <==> r is Ok
            &&& policy matches Ok(p) ==> (p matches AuthPolicy::Testing(made) && made@
                == r->Ok_0@)
        }),
{
    lemma_kinds();
    reveal_strlit("/");
    reveal_strlit("/testing/userinfo");
    assert("/testing/userinfo"@[0] == '/');
    assert("/"@ =~= seq!['/']);
    if let Ok(given) = endpoint {
        let path = session::or_else(text::opt_of(given), "/testing/userinfo"@);
        text::lemma_prefix(path, "/"@);
        if path.len() > 0 {
            assert(path.take(1) =~= seq![path[0]]);
            assert(path.take(1)[0] == path[0]);
            assert(seq!['/'][0] == '/');
        }
    }
    if let Ok(p) = r {
        assert(p.overrides@.dom() =~= Set::empty());
    }
}

/// A plugin that is built of an entry is of the entry's kind and name.
pub proof fn law_what_is_built(config: PluginConfig, env: StrMap<String>, r: Result<Built, String>)
    requires
        call_ensures(plugins::build, (&config, &env), r),
    ensures
        r matches Ok(Built::Token(p)) ==> config.plugin_id@ == "token-plugin"@ && p.name@
            == config.name@,
        r matches Ok(Built::Jwt(p)) ==> config.plugin_id@ == "jwt-plugin"@ && p.name@
            == config.name@,
        r matches Ok(Built::OAuth2(p)) ==> config.plugin_id@ == "oauth2-plugin"@ && p.name@
            == config.name@ && p.cache@.dom().is_empty() && p.cache.max_entries
            == p.provider.cache_max_entries,
        r matches Ok(Built::Testing(p)) ==> config.plugin_id@ == "testing-plugin"@ && p.name@
            == config.name@ && p.overrides@.dom().is_empty(),
{
    if let Ok(Built::OAuth2(p)) = r {
        assert(p.cache@.dom() =~= Set::empty());
    }
    if let Ok(Built::Testing(p)) = r {
        assert(p.overrides@.dom() =~= Set::empty());
    }
}

/// A plugin that is built of an entry and the policy that the entry declares are made of the
/// same things.
pub proof fn law_a_plugin_and_its_policy_agree(
    config: PluginConfig,
    env: StrMap<String>,
    built: Result<Built, String>,
    policy: Result<AuthPolicy, String>,
)
    requires
        call_ensures(plugins::build, (&config, &env), built),
        call_ensures(AuthPolicy::from_config, (&config, &env), policy),
    ensures
        built is Ok <==> policy is Ok,
        built matches Ok(Built::Token(p)) ==> (policy matches Ok(
            AuthPolicy::StaticToken { header_keys, tokens },
        ) && text::texts(header_keys@) == text::texts(p.header_keys@) && text::texts(tokens@)
            == text::texts(p.tokens@)),
        built matches Ok(Built::Jwt(p)) ==> (policy matches Ok(
            AuthPolicy::JwtHs256 { header_keys, cookie_keys, key, roles_claim },
        ) && text::texts(header_keys@) == text::texts(p.header_keys@) && text::texts(cookie_keys@)
            == text::texts(p.cookie_keys@) && plugins::jwt::key_view(key)
            == plugins::jwt::key_view(p.key) && roles_claim@ == p.roles_claim@),
        built matches Ok(Built::OAuth2(p)) ==> (policy matches Ok(AuthPolicy::OAuth2(o))
            && text::texts(o.header_keys@) == text::texts(p.header_keys@) && o.provider@
            == p.provider@ && o.roles_claim@ == p.roles_claim@),
        built matches Ok(Built::Testing(p)) ==> (policy matches Ok(AuthPolicy::Testing(o)) && o@
            == p@),
{
    lemma_kinds();
}

/// What each plugin says of itself: its kind and name, where it looks for a credential, whether
/// it hands out a session, which claim holds the roles, and what it asks to have mounted.
pub proof fn law_what_a_plugin_says_of_itself(
    shared: token::TokenPlugin,
    jwt: plugins::jwt::JwtPlugin,
    provided: oauth2::OAuth2Plugin,
    tested: TestingPlugin,
)
    ensures
        shared.kind_spec() == "token-plugin"@,
        jwt.kind_spec() == "jwt-plugin"@,
        provided.kind_spec() == "oauth2-plugin"@,
        tested.kind_spec() == "testing-plugin"@,
        shared.name_spec() == shared.name@,
        jwt.name_spec() == jwt.name@,
        provided.name_spec() == provided.name@,
        tested.name_spec() == tested.name@,
        shared.header_keys_spec() == text::texts(shared.header_keys@),
        jwt.header_keys_spec() == text::texts(jwt.header_keys@),
        provided.header_keys_spec() == text::texts(provided.header_keys@),
        tested.header_keys_spec() == text::texts(tested.header_keys@),
        jwt.cookie_keys_spec() == text::texts(jwt.cookie_keys@),
        shared.cookie_keys_spec().len() == 0,
        provided.cookie_keys_spec().len() == 0,
        tested.cookie_keys_spec().len() == 0,
        shared.cookie_spec() is None,
        jwt.cookie_spec() is None,
        tested.cookie_spec() is None,
        provided.cookie_spec() is Some <==> provided.session is Some,
        provided.session matches Some(c) ==> provided.cookie_spec() == Some(c@),
        shared.roles_claim_spec() is None,
        jwt.roles_claim_spec() == Some(jwt.roles_claim@),
        provided.roles_claim_spec() == Some(provided.roles_claim@),
        tested.roles_claim_spec() == Some(tested.roles_claim@),
        shared.endpoint_spec() is None,
        jwt.endpoint_spec() is None,
        provided.endpoint_spec() is None,
        tested.endpoint_spec() == Some(tested.endpoint@),
{
}

/// What each plugin makes of a credential: a shared secret is good where it is listed; a signed
/// token where its key vouches for it; one of a provider as what is remembered of it says, or
/// else the provider is asked; and a test token as what is registered for it says.
pub proof fn law_what_a_plugin_makes_of_a_credential(
    shared: token::TokenPlugin,
    jwt: plugins::jwt::JwtPlugin,
    provided: oauth2::OAuth2Plugin,
    tested: TestingPlugin,
    credential: Credential,
    at: Moment,
    step: Step,
)
    ensures
        shared.answers(credential, at, step) ==> ({
            let listed = text::texts(shared.tokens@).contains(credential.token@);
            &&& listed ==> (step matches Step::Done(Ok(c)) && json::fields(*c).dom().is_empty())
            &&& !listed ==> (step matches Step::Done(Err(AuthOutcome::Unauthorized(m))) && m@
                == "invalid credentials for '"@ + shared.name@ + "'"@)
        }),
        jwt.answers(credential, at, step) ==> (step is Done && (step matches Step::Done(Ok(c))
            ==> jwt.key.vouches(credential.token@, json::fields(*c)))),
        provided.answers(credential, at, step) ==> (step is Introspect <==> ({
            let id = digest::hex_spec(digest::key_spec(credential.token@));
            !(provided.cache@.contains_key(id) && at.nanos < provided.cache@[id].expires_at)
        })),
        tested.answers(credential, at, step) ==> (step is Done && (
        !tested.overrides@.contains_key(testing::id_of(credential.token@)) ==> (
        step matches Step::Done(Err(_))))),
{
    if shared.answers(credential, at, step) {
        if text::texts(shared.tokens@).contains(credential.token@) {
            if let Step::Done(Ok(c)) = step {
                assert(json::fields(*c).dom() =~= Set::empty());
            }
        }
    }
}

/// A guard for test claims never asks a provider. Without claims registered for the token, with
/// the guard or handed in, the caller is refused; a caller who passes has claims that grant
/// every required role.
pub proof fn law_test_claims_decide(
    guard: RouteGuard,
    fields: HeaderList,
    cache: ProviderCache,
    overrides: Option<&ClaimOverrides>,
    at: Moment,
    credential: Option<String>,
    r: GuardStep,
)
    requires
        call_ensures(AuthPolicy::credential, (&*guard.policy, &fields), credential),
        credential is Some,
        *guard.policy is Testing,
        call_ensures(RouteGuard::check, (&guard, &fields, &cache, overrides, at), r),
    ensures
        r is Passed || r is Refused,
        ({
            let id = testing::id_of(credential->Some_0@);
            let known = match overrides {
                Some(o) => o@.contains_key(id),
                None => guard.policy->Testing_0.overrides@.contains_key(id),
            };
            &&& !known ==> (r matches GuardStep::Refused(AuthOutcome::Unauthorized(m)) && m@
                == "token rejected by the authorization provider"@)
            &&& r matches GuardStep::Passed(_, handed) ==> handed@.len() == 0
        }),
{
    let plugin = guard@.policy->Testing_0;
    let token = credential->Some_0@;
    let given = match overrides {
        Some(o) => Some(*o),
        None => None,
    };
    let (base, step) = choose|base: Map<Seq<char>, JsonView>, step: Step|
        #![trigger plugins::testing::baseline(plugin.session, crate::auth::carried_session(fields@, plugin.session), base),
            crate::auth::follows(guard@, fields@, plugin.roles_claim@, token, at.unix, step, r)]
        plugins::testing::baseline(
            plugin.session,
            crate::auth::carried_session(fields@, plugin.session),
            base,
        ) && plugins::testing::stands_in(
            match given {
                Some(o) => o,
                None => plugin.overrides,
            },
            base,
            token,
            at.unix,
            step,
        ) && crate::auth::follows(guard@, fields@, plugin.roles_claim@, token, at.unix, step, r);
    assert(crate::auth::follows(guard@, fields@, plugin.roles_claim@, token, at.unix, step, r));
    if let GuardStep::Passed(_, handed) = r {
        assert(text::pairs_view(handed@).len() == handed@.len());
    }
}

/// The kinds that an unknown one is held against, each in quotes.
pub proof fn law_how_kinds_are_listed(v: Seq<Seq<char>>, i: int)
    requires
        0 <= i < v.len(),
    ensures
        plugins::quoted(v).len() == v.len(),
        plugins::quoted(v)[i] == seq!['\''] + v[i] + seq!['\''],
        v.len() == 1 ==> plugins::either_of(v) == v[0],
        v.len() > 1 ==> plugins::either_of(v) == text::join_spec(
            v.take(v.len() - 1),
            seq![',', ' '],
        ) + seq![' ', 'o', 'r', ' '] + v[v.len() - 1],
{
    reveal_strlit("'");
    reveal_strlit(", ");
    reveal_strlit(" or ");
    assert("'"@ =~= seq!['\'']);
    assert(", "@ =~= seq![',', ' ']);
    assert(" or "@ =~= seq![' ', 'o', 'r', ' ']);
    assert(v.drop_last() =~= v.take(v.len() - 1));
}

/// An entry of the kind for modules declares a module, and any other a policy.
pub proof fn law_what_an_entry_declares(
    config: PluginConfig,
    env: StrMap<String>,
    module: Result<wasm::Declaration, String>,
    policy: Result<AuthPolicy, String>,
    r: Result<Declared, String>,
)
    requires
        call_ensures(wasm::declare, (&config, &env), module),
        call_ensures(AuthPolicy::from_config, (&config, &env), policy),
        call_ensures(Declared::from_config, (&config, &env), r),
    ensures
        config.plugin_id@ == "wasm-plugin"@ ==> (r is Ok <==> module is Ok) && (
        r matches Ok(d) ==> (d matches Declared::Module(m) && (*m)@ == module->Ok_0@)),
        config.plugin_id@ != "wasm-plugin"@ ==> (r is Ok <==> policy is Ok) && (
        r matches Ok(d) ==> (d matches Declared::Policy(p) && (*p)@ == policy->Ok_0@)),
{
}

/// What an entry declares of a module: the file it names, and what it sets.
pub proof fn law_what_a_module_entry_declares(
    config: PluginConfig,
    env: StrMap<String>,
    file: Result<String, String>,
    set: Result<wasm::Setup, String>,
    r: Result<wasm::Declaration, String>,
)
    requires
        call_ensures(wasm::module_file, (&config, &env), file),
        call_ensures(wasm::setup, (&config.params,), set),
        call_ensures(wasm::declare, (&config, &env), r),
    ensures
        r is Ok <==> file is Ok && set is Ok,
        r matches Ok(d) ==> d.file@ == file->Ok_0@ && d.setup@ == set->Ok_0@,
{
}

} // verus!
