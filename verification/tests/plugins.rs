use gillnet::auth::AuthOutcome;
use gillnet::clock::{from_secs, unix_now, Moment};
use gillnet::config::PluginConfig;
use gillnet::digest::{hex, key_for, key_from_id};
use gillnet::json::Json;
use gillnet::plugins::jwt::JwtPlugin;
use gillnet::plugins::oauth2::OAuth2Plugin;
use gillnet::plugins::testing::{ClaimOverrides, TestingPlugin, DEFAULT_ENDPOINT};
use gillnet::plugins::token::{constant_time_eq, TokenPlugin};
use gillnet::plugins::{
    build, expand_env, flag, jwt, kinds, number, oauth2, string_list, testing, token, AuthPlugin,
    Built, Credential,
};
use gillnet::provider::{expired, CachedOutcome, Step};
use gillnet::strmap::StrMap;
use gillnet::tree::{read_value, write_value};
use std::collections::HashMap;
use std::sync::Arc;

fn params(yaml: &str) -> StrMap<yaml_serde::Value> {
    let read: HashMap<String, yaml_serde::Value> =
        yaml_serde::from_str(yaml).expect("invalid test params");
    let mut block = StrMap::new();
    for (key, value) in read {
        block.insert(key, value);
    }
    block
}

fn config(name: &str, kind: &str, yaml: &str) -> PluginConfig {
    PluginConfig {
        name: name.to_owned(),
        plugin_id: kind.to_owned(),
        params: params(yaml),
    }
}

fn no_env() -> StrMap<String> {
    StrMap::new()
}

fn secret_env() -> StrMap<String> {
    let mut env = StrMap::new();
    env.insert("GILLNET_TEST_SECRET".to_owned(), "s3cret".to_owned());
    env
}

fn claims(text: &str) -> StrMap<Json> {
    let value: serde_json::Value = serde_json::from_str(text).expect("invalid test claims");
    match read_value(value) {
        Json::Object(claims) => claims,
        _ => panic!("test claims are an object"),
    }
}

fn said(claims: &StrMap<Json>, claim: &str) -> serde_json::Value {
    write_value(claims.get(claim).expect("the claim is there"))
}

fn now() -> Moment {
    Moment {
        nanos: 0,
        unix: unix_now(),
    }
}

fn far_future() -> i64 {
    unix_now() + 3600
}

fn verify<P: AuthPlugin>(plugin: &P, token: &str) -> Result<Arc<StrMap<Json>>, AuthOutcome> {
    let credential = Credential {
        token,
        session: None,
    };
    match plugin.authenticate(credential, now()) {
        Step::Done(outcome) => outcome,
        _ => panic!("verification is synchronous and must resolve immediately"),
    }
}

fn jwt_plugin(yaml: &str) -> Result<JwtPlugin, String> {
    jwt::build(&config("test-jwt", jwt::KIND, yaml), &no_env())
}

fn signed(text: &str) -> String {
    let claims: serde_json::Value = serde_json::from_str(text).expect("invalid test claims");
    jsonwebtoken::encode(
        &jsonwebtoken::Header::new(jsonwebtoken::Algorithm::HS256),
        &claims,
        &jsonwebtoken::EncodingKey::from_secret(b"shh"),
    )
    .expect("could not sign the test token")
}

fn token_plugin(yaml: &str) -> Result<TokenPlugin, String> {
    token::build(&config("test-token", token::KIND, yaml), &no_env())
}

fn oauth2_plugin(yaml: &str) -> Result<OAuth2Plugin, String> {
    oauth2::build(&config("test-oauth", oauth2::KIND, yaml), &no_env())
}

fn complete() -> &'static str {
    "{introspection-url: 'https://idp/introspect', client-id: gw, client-secret: shh}"
}

fn complete_with(more: &str) -> String {
    format!("{{{}, {more}}}", complete().trim_matches(['{', '}']))
}

fn testing_plugin(yaml: &str) -> Result<TestingPlugin, String> {
    testing::build(&config("stands-in-for-oauth", testing::KIND, yaml), &no_env())
}

#[test]
fn a_typo_names_every_type_the_gateway_understands() {
    let Err(error) = build(
        &PluginConfig {
            name: "oops".to_owned(),
            plugin_id: "jwt".to_owned(),
            params: StrMap::new(),
        },
        &no_env(),
    ) else {
        panic!("'jwt' is not a plugin type and must not build");
    };

    for kind in kinds() {
        assert!(error.contains(kind), "'{kind}' missing from: {error}");
    }
    assert_eq!(
        error,
        "unknown plugin type 'jwt' (expected 'token-plugin', 'jwt-plugin', 'oauth2-plugin', \
         'testing-plugin' or 'wasm-plugin')"
    );
}

#[test]
fn an_unset_variable_is_an_error_not_an_empty_secret() {
    let env = secret_env();

    assert_eq!(expand_env("$GILLNET_TEST_SECRET", &env).unwrap(), "s3cret");
    assert_eq!(
        expand_env("pre-${GILLNET_TEST_SECRET}-post", &env).unwrap(),
        "pre-s3cret-post"
    );
    assert!(expand_env("$GILLNET_TEST_DEFINITELY_UNSET", &env).is_err());
    assert_eq!(
        expand_env("a ${GILLNET_TEST_DEFINITELY_UNSET} b", &env),
        Err(
            "environment variable 'GILLNET_TEST_DEFINITELY_UNSET' referenced by config is not set"
                .to_owned()
        )
    );
}

#[test]
fn a_dollar_naming_nothing_is_left_alone() {
    let env = secret_env();
    // Only a `$` with no name after it is literal. `$5` names a variable
    // called `5`, and an unset one is an error like any other -- a config
    // value is never silently emptied.
    assert_eq!(expand_env("costs $ 5", &env).unwrap(), "costs $ 5");
    assert_eq!(expand_env("100%", &env).unwrap(), "100%");
    assert!(expand_env("costs $5", &env).is_err());
    assert!(expand_env("${GILLNET_TEST_SECRET", &env).is_err());
}

#[test]
fn a_single_string_reads_as_a_one_entry_list() {
    let env = no_env();
    assert_eq!(
        string_list(&params("keys: api-key"), "keys", &env).unwrap(),
        ["api-key"]
    );
    assert_eq!(
        string_list(&params("keys: [a, b]"), "keys", &env).unwrap(),
        ["a", "b"]
    );
    assert!(string_list(&params("keys: 7"), "keys", &env).is_err());
}

#[test]
fn a_missing_value_falls_back_to_the_default() {
    assert_eq!(number(&params("other: 1"), "fuel", 99).unwrap(), 99);
    assert_eq!(number(&params("fuel: 5"), "fuel", 99).unwrap(), 5);
    assert!(number(&params("fuel: nope"), "fuel", 99).is_err());
    assert!(!flag(&params("other: true"), "fail-open").unwrap());
    assert!(flag(&params("fail-open: true"), "fail-open").unwrap());
    assert!(flag(&params("fail-open: yes-ish"), "fail-open").is_err());
}

#[test]
fn each_type_builds_its_own_plugin() {
    let built = |kind: &str, yaml: &str| build(&config("p", kind, yaml), &no_env());
    assert!(matches!(built("token-plugin", "tokens: [a]"), Ok(Built::Token(_))));
    assert!(matches!(built("jwt-plugin", "secret: shh"), Ok(Built::Jwt(_))));
    assert!(matches!(built("oauth2-plugin", complete()), Ok(Built::OAuth2(_))));
    assert!(matches!(built("testing-plugin", "{}"), Ok(Built::Testing(_))));
    assert!(built("wasm-plugin", "path: x.wasm").is_err());
}

#[test]
fn a_plugin_with_no_usable_secret_is_refused() {
    assert!(jwt_plugin("issuer: https://auth.example.com").is_err());
    assert!(jwt_plugin("secret: ''").is_err());
    assert!(jwt_plugin("secret: shh").is_ok());
}

#[test]
fn roles_default_to_the_roles_claim() {
    assert_eq!(jwt_plugin("secret: shh").unwrap().roles_claim(), Some("roles"));
    assert_eq!(
        jwt_plugin("{secret: shh, roles-claim: groups}")
            .unwrap()
            .roles_claim(),
        Some("groups")
    );
}

#[test]
fn a_token_signed_with_the_configured_secret_verifies() {
    let plugin = jwt_plugin("secret: shh").unwrap();
    let token = signed(&format!(r#"{{"sub": "u1", "exp": {}}}"#, far_future()));
    let Ok(claims) = verify(&plugin, &token) else {
        panic!("a correctly signed token must verify");
    };

    assert_eq!(said(&claims, "sub"), "u1");
}

#[test]
fn a_token_signed_with_another_secret_is_refused() {
    let plugin = jwt_plugin("secret: different").unwrap();
    let token = signed(&format!(r#"{{"sub": "u1", "exp": {}}}"#, far_future()));
    let outcome = verify(&plugin, &token);

    assert!(matches!(outcome, Err(AuthOutcome::Unauthorized(_))));
}

#[test]
fn an_expired_token_is_refused() {
    let plugin = jwt_plugin("secret: shh").unwrap();
    let outcome = verify(&plugin, &signed(r#"{"sub": "u1", "exp": 1}"#));

    assert!(matches!(outcome, Err(AuthOutcome::Unauthorized(_))));
}

#[test]
fn an_audience_is_enforced_only_when_one_is_configured() {
    let stamped = signed(&format!(
        r#"{{"sub": "u1", "aud": "gillnet", "exp": {}}}"#,
        far_future()
    ));

    // Unconfigured: a token carrying an audience must still pass, or every
    // provider that stamps one would be rejected out of the box.
    assert!(verify(&jwt_plugin("secret: shh").unwrap(), &stamped).is_ok());

    let configured = jwt_plugin("{secret: shh, audience: gillnet}").unwrap();
    assert!(verify(&configured, &stamped).is_ok());

    let other = jwt_plugin("{secret: shh, audience: something-else}").unwrap();
    assert!(verify(&other, &stamped).is_err());
}

#[test]
fn an_issuer_is_enforced_when_configured() {
    let plugin = jwt_plugin("{secret: shh, issuer: 'https://auth.example.com'}").unwrap();

    let right = signed(&format!(
        r#"{{"iss": "https://auth.example.com", "exp": {}}}"#,
        far_future()
    ));
    let wrong = signed(&format!(
        r#"{{"iss": "https://evil.example.com", "exp": {}}}"#,
        far_future()
    ));

    assert!(verify(&plugin, &right).is_ok());
    assert!(verify(&plugin, &wrong).is_err());
}

#[test]
fn a_signed_payload_reads_back() {
    let plugin = jwt_plugin("secret: shh").unwrap();
    let text = format!(r#"{{"sub": "u1", "n": [1, -2], "exp": {}}}"#, far_future());
    let Ok(token) = plugin.key.sign(claims(&text)) else {
        panic!("a payload can be signed");
    };
    let Ok(read) = verify(&plugin, &token) else {
        panic!("a token of its own must verify");
    };
    assert_eq!(
        write_value(&Json::Object(gillnet::json::copy_object(&read))),
        serde_json::from_str::<serde_json::Value>(&text).unwrap()
    );
}

#[test]
fn a_plugin_with_nothing_to_check_against_is_refused() {
    assert!(token_plugin("keys: [api-key]").is_err());
    assert!(token_plugin("tokens: []").is_err());
    assert!(token_plugin("tokens: ['']").is_err());
    assert!(token_plugin("tokens: [good]").is_ok());
}

#[test]
fn a_shared_secret_carries_no_identity() {
    let plugin = token_plugin("tokens: [good]").unwrap();

    // No roles claim is what stops a route requiring roles of this plugin.
    assert_eq!(plugin.roles_claim(), None);
    assert_eq!(plugin.kind(), token::KIND);
    assert!(verify(&plugin, "good").is_ok());
    assert!(matches!(
        verify(&plugin, "goo"),
        Err(AuthOutcome::Unauthorized(_))
    ));
}

#[test]
fn comparison_does_not_exit_early() {
    assert!(constant_time_eq(b"secret", b"secret"));
    assert!(!constant_time_eq(b"secret", b"secreT"));
    // A shorter candidate sharing a prefix must not compare equal.
    assert!(!constant_time_eq(b"secret", b"sec"));
    assert!(constant_time_eq(b"", b""));
}

#[test]
fn every_credential_the_provider_needs_is_required() {
    assert!(oauth2_plugin("{client-id: gw, client-secret: shh}").is_err());
    assert!(oauth2_plugin("{introspection-url: 'https://idp/i', client-secret: shh}").is_err());
    assert!(oauth2_plugin("{introspection-url: 'https://idp/i', client-id: gw}").is_err());
    assert!(oauth2_plugin(complete()).is_ok());
}

#[test]
fn credentials_become_a_basic_header_and_are_not_otherwise_kept() {
    let plugin = oauth2_plugin(complete()).unwrap();

    // "gw:shh" base64-encoded.
    assert_eq!(plugin.provider.authorization, "Basic Z3c6c2ho");
}

#[test]
fn authorization_is_scope_based_unless_told_otherwise() {
    assert_eq!(oauth2_plugin(complete()).unwrap().roles_claim(), Some("scope"));

    let params = complete_with("roles-claim: roles");
    assert_eq!(oauth2_plugin(&params).unwrap().roles_claim(), Some("roles"));
}

#[test]
fn a_past_expiry_is_treated_as_expired() {
    assert!(expired(&claims(r#"{"exp": 1}"#)));
    assert!(!expired(&claims(&format!(
        r#"{{"exp": {}}}"#,
        unix_now() + 3600
    ))));
    // No `exp` at all means the provider did not bound the token; that is
    // its call to make, not a reason to reject.
    assert!(!expired(&claims(r#"{"sub": "u1"}"#)));
}

#[test]
fn a_cached_answer_is_returned_until_it_expires() {
    let mut plugin = oauth2_plugin(complete()).unwrap();
    let key = [7u8; 32];

    plugin.cache.store(&key, CachedOutcome::Inactive, from_secs(60), 5);
    assert!(matches!(
        plugin.cache.cached(&key, 5),
        Some(CachedOutcome::Inactive)
    ));
    assert!(plugin.cache.cached(&key, 5 + from_secs(60)).is_none());

    // A zero TTL is already past by the time it is read back.
    plugin.cache.store(&key, CachedOutcome::Inactive, 0, 5);
    assert!(plugin.cache.cached(&key, 5).is_none());
}

#[test]
fn the_cache_does_not_grow_past_its_bound() {
    let params = complete_with("cache-max-entries: 4");
    let mut plugin = oauth2_plugin(&params).unwrap();

    for index in 0..50u8 {
        plugin
            .cache
            .store(&[index; 32], CachedOutcome::Inactive, from_secs(60), 0);
    }

    assert!(plugin.cache.entries.len() <= 4);
}

#[test]
fn the_endpoint_defaults_to_the_documented_path() {
    assert_eq!(
        testing_plugin("{}").unwrap().endpoint().unwrap().path,
        DEFAULT_ENDPOINT
    );
    assert_eq!(
        testing_plugin("endpoint: /elsewhere").unwrap().endpoint,
        "/elsewhere"
    );
    // A path that is not a path would mount a scope nothing can reach.
    assert!(testing_plugin("endpoint: elsewhere").is_err());
}

#[test]
fn it_stands_in_for_the_oauth_plugin_by_default() {
    assert_eq!(testing_plugin("{}").unwrap().roles_claim(), Some("scope"));
    assert_eq!(
        testing_plugin("roles-claim: roles").unwrap().roles_claim(),
        Some("roles")
    );
}

#[test]
fn a_registered_claim_set_becomes_the_verified_identity() {
    let mut plugin = testing_plugin("{}").unwrap();
    plugin
        .overrides
        .put("t", claims(r#"{"sub": "u1", "scope": "admin"}"#));

    let Ok(verified) = verify(&plugin, "t") else {
        panic!("a registered token must verify");
    };
    assert_eq!(said(&verified, "sub"), "u1");
}

#[test]
fn a_token_nobody_registered_is_refused() {
    let plugin = testing_plugin("{}").unwrap();

    // No provider to fall back to: an unknown token is simply not valid.
    assert!(matches!(
        verify(&plugin, "unknown"),
        Err(AuthOutcome::Unauthorized(_))
    ));
}

#[test]
fn a_past_expiry_is_honoured_so_expiry_can_be_tested() {
    let mut plugin = testing_plugin("{}").unwrap();

    plugin
        .overrides
        .put("live", claims(&format!(r#"{{"exp": {}}}"#, far_future())));
    plugin.overrides.put("dead", claims(r#"{"exp": 1}"#));

    assert!(verify(&plugin, "live").is_ok());
    assert!(verify(&plugin, "dead").is_err());
}

#[test]
fn patching_replaces_present_claims_and_a_null_removes_one() {
    let mut overrides = ClaimOverrides::default();
    overrides.put("t", claims(r#"{"sub": "u1", "email": "a@b.c"}"#));

    let merged = overrides.merge("t", claims(r#"{"email": "new@b.c", "scope": "admin"}"#));
    assert_eq!(said(&merged, "sub"), "u1");
    assert_eq!(said(&merged, "email"), "new@b.c");
    assert_eq!(said(&merged, "scope"), "admin");

    let pruned = overrides.merge("t", claims(r#"{"email": null}"#));
    assert!(!pruned.contains_key("email"));
    assert_eq!(said(&pruned, "sub"), "u1");
}

#[test]
fn an_override_is_addressed_by_digest_never_by_the_token() {
    let mut overrides = ClaimOverrides::default();
    overrides.put("t", claims(r#"{"sub": "u1"}"#));

    let listed = overrides.list();
    assert_eq!(listed.len(), 1);

    let id = &listed[0].id;
    // The id is the token's SHA-256, so it can be pasted around safely.
    assert_eq!(id, &hex(&key_for("t")));
    assert_ne!(id, "t");

    assert!(overrides.show(id).is_some());
    assert!(overrides.remove(id));
    assert!(overrides.show(id).is_none());

    // An id that is not a digest addresses nothing.
    assert!(!overrides.remove("t"));
    assert!(overrides.show("nonsense").is_none());
}

#[test]
fn clearing_reports_how_many_it_dropped() {
    let mut overrides = ClaimOverrides::default();
    overrides.put("a", claims("{}"));
    overrides.put("b", claims("{}"));

    assert_eq!(overrides.clear(), 2);
    assert_eq!(overrides.clear(), 0);
}

#[test]
fn a_digest_is_the_sha_256_of_its_token() {
    // The digest of "abc" is given with the algorithm.
    let id = hex(&key_for("abc"));
    assert_eq!(
        id,
        "ba7816bf8f01cfea414140de5dae2223b00361a396177a9cb410ff61f20015ad"
    );
    assert_eq!(key_from_id(&id), Some(key_for("abc")));
    assert_eq!(key_from_id("ba78"), None);
    assert_eq!(key_from_id(&"+0".repeat(32)), None);
    assert_eq!(key_from_id(&"0F".repeat(32)), Some([15; 32]));
    assert_eq!(key_from_id(&id.replace('b', "g")), None);
}

#[test]
fn braces_that_name_nothing_are_left_alone() {
    assert_eq!(expand_env("a${}b", &secret_env()).unwrap(), "a${}b");
    assert_eq!(expand_env("${}", &no_env()).unwrap(), "${}");
}

#[test]
fn a_cache_without_room_keeps_nothing() {
    let params = complete_with("cache-max-entries: 0");
    let mut plugin = oauth2_plugin(&params).unwrap();
    plugin
        .cache
        .store(&[1; 32], CachedOutcome::Inactive, from_secs(60), 0);
    assert_eq!(plugin.cache.entries.len(), 0);
    assert!(plugin.cache.cached(&[1; 32], 0).is_none());
}

#[test]
fn a_token_is_refused_as_soon_as_it_expires() {
    let plugin = jwt_plugin("secret: shh").unwrap();
    let past = unix_now() - 10;
    assert!(verify(&plugin, &signed(&format!(r#"{{"sub": "u1", "exp": {past}}}"#))).is_err());
    let soon = unix_now() + 30;
    assert!(verify(&plugin, &signed(&format!(r#"{{"sub": "u1", "exp": {soon}}}"#))).is_ok());
}

#[test]
fn an_expiry_that_is_not_whole_counts() {
    let past = unix_now() - 1;
    assert!(expired(&claims(r#"{"exp": 1.5}"#)));
    assert!(expired(&claims(r#"{"exp": -0.5}"#)));
    assert!(expired(&claims(&format!(r#"{{"exp": {past}.0}}"#))));
    assert!(!expired(&claims(&format!(r#"{{"exp": {}.5}}"#, far_future()))));
    assert!(!expired(&claims(r#"{"exp": 1e300}"#)));
    assert!(!expired(&claims(r#"{"exp": "1"}"#)));
    assert!(!expired(&claims(r#"{"exp": 18446744073709551615}"#)));
}

#[test]
fn a_signed_token_may_stand_in_a_cookie() {
    assert!(jwt_plugin("secret: shh").unwrap().cookie_keys().is_empty());
    let plugin = jwt_plugin("{secret: shh, cookie-keys: [sid, old]}").unwrap();
    assert_eq!(plugin.cookie_keys(), ["sid", "old"]);
    assert!(plugin.session_cookie().is_none());
}

#[test]
fn registered_claims_are_laid_over_a_session() {
    let yaml = "session-cookie: {name: sid, secret: key}";
    let mut plugin = testing_plugin(yaml).unwrap();
    plugin.overrides.put("t", claims(r#"{"scope": "admin"}"#));
    let minted = match &plugin.session {
        Some(cookie) => cookie
            .mint_at(&claims(r#"{"sub": "u1", "scope": "read"}"#), unix_now())
            .unwrap(),
        None => panic!("the params declare a cookie"),
    };
    let token = minted.split(';').next().unwrap().split_once('=').unwrap().1;
    let ask = |token: &str, session: Option<&str>| {
        match plugin.authenticate(Credential { token, session }, now()) {
            Step::Done(outcome) => outcome,
            _ => panic!("verification is synchronous and must resolve immediately"),
        }
    };
    let Ok(layered) = ask("t", Some(token)) else {
        panic!("a registered token must verify");
    };
    assert_eq!(said(&layered, "sub"), "u1");
    assert_eq!(said(&layered, "scope"), "admin");

    // A session that does not verify says nothing, and none opens the door on its own.
    let Ok(alone) = ask("t", Some("x")) else {
        panic!("a registered token must verify");
    };
    assert_eq!(alone.len(), 1);
    assert!(ask("unknown", Some(token)).is_err());
    // It is looked at, and not minted.
    assert!(plugin.session_cookie().is_none());
    assert!(plugin.cookie_keys().is_empty());
}
