use gillnet::auth::{
    claim_to_string, extract_token, injected_header_names, render, roles, AuthOutcome, AuthPolicy,
    Enforcement, GuardStep, Progress, RouteGuard,
};
use gillnet::clock::{from_secs, Moment, SECOND};
use gillnet::config::{PluginConfig, PluginReference};
use gillnet::headers::{Header, HeaderList};
use gillnet::json::Json;
use gillnet::provider::{Provider, ProviderCache, ProviderReply, Step};
use gillnet::strmap::StrMap;
use gillnet::testing::{ClaimOverrides, OverrideReply};
use gillnet::tree::{read_value, write_value};
use std::collections::HashMap;
use std::sync::Arc;

fn params(yaml: &str) -> StrMap<yaml_serde::Value> {
    let read: HashMap<String, yaml_serde::Value> =
        yaml_serde::from_str(yaml).expect("invalid test params");
    let mut block = StrMap::new();
    for (key, value) in read {
        block.insert(key, value);
    }
    block
}

fn policy(kind: &str, yaml: &str) -> Result<AuthPolicy, String> {
    AuthPolicy::from_config(
        &PluginConfig {
            name: "p".to_owned(),
            plugin_id: kind.to_owned(),
            params: params(yaml),
        },
        &StrMap::new(),
    )
}

fn refused(result: Result<AuthPolicy, String>) -> String {
    match result {
        Ok(_) => panic!("the policy must not build"),
        Err(error) => error,
    }
}

fn guard(kind: &str, yaml: &str, reference: &str) -> Result<RouteGuard, String> {
    let reference = PluginReference {
        name: "p".to_owned(),
        params: Some(params(reference)),
    };
    RouteGuard::from_reference(&reference, Arc::new(policy(kind, yaml)?), &StrMap::new())
}

fn not_bound(result: Result<RouteGuard, String>) -> String {
    match result {
        Ok(_) => panic!("the guard must not build"),
        Err(error) => error,
    }
}

fn claims(text: &str) -> StrMap<Json> {
    let value: serde_json::Value = serde_json::from_str(text).expect("invalid test claims");
    match read_value(value) {
        Json::Object(claims) => claims,
        _ => panic!("test claims are an object"),
    }
}

fn fields(pairs: &[(&str, &str)]) -> HeaderList {
    HeaderList {
        fields: pairs
            .iter()
            .map(|(name, value)| Header {
                name: (*name).to_owned(),
                value: value.as_bytes().to_vec(),
            })
            .collect(),
    }
}

fn at(seconds: u64) -> Moment {
    Moment {
        nanos: from_secs(seconds),
        unix: seconds as i64,
    }
}

fn owned(pairs: &[(&str, &str)]) -> Vec<(String, String)> {
    pairs
        .iter()
        .map(|(name, value)| ((*name).to_owned(), (*value).to_owned()))
        .collect()
}

const IDP: &str =
    "{introspection-url: 'https://idp/i', client-id: gw, client-secret: shh, cache-max-seconds: 60}";

fn provider(yaml: &str) -> Provider {
    match policy("oauth2-plugin", yaml) {
        Ok(AuthPolicy::OAuth2(policy)) => policy.provider,
        _ => panic!("the provider should build"),
    }
}

fn said(text: &str) -> ProviderReply {
    ProviderReply::Claims(claims(text))
}

#[test]
fn a_policy_says_what_it_lacks() {
    assert_eq!(
        refused(policy("token-plugin", "{}")),
        "token-plugin requires a non-empty 'tokens' list"
    );
    assert_eq!(
        refused(policy("token-plugin", "tokens: [a, '']")),
        "token-plugin 'tokens' must not contain empty values"
    );
    assert_eq!(
        refused(policy("jwt-plugin", "{}")),
        "jwt-plugin requires 'secret'"
    );
    assert_eq!(
        refused(policy("jwt-plugin", "secret: ''")),
        "jwt-plugin 'secret' must not be empty"
    );
    assert_eq!(
        refused(policy("oauth2-plugin", "client-id: gw")),
        "oauth2-plugin requires 'introspection-url'"
    );
    assert_eq!(
        refused(policy("jwt-plugin", "secret: [a]")),
        "'secret' must be a string"
    );
    assert_eq!(
        refused(policy("jwt-plugin", "secret: $NOWHERE")),
        "environment variable 'NOWHERE' referenced by config is not set"
    );
    assert_eq!(
        refused(policy("oops", "{}")),
        "unknown plugin type 'oops' (expected 'token-plugin', 'jwt-plugin', 'oauth2-plugin', \
         'testing-plugin' or 'wasm-plugin')"
    );
}

#[test]
fn a_token_is_taken_from_the_bearer_or_a_named_header() {
    let keys = vec!["X-Api-Key".to_owned()];
    let token = |pairs: &[(&str, &str)]| extract_token(&fields(pairs), &keys);
    assert_eq!(
        token(&[("authorization", "Bearer  t1 "), ("x-api-key", "t2")]).as_deref(),
        Some("t1")
    );
    assert_eq!(token(&[("authorization", "bearer t1")]).as_deref(), Some("t1"));
    assert_eq!(token(&[("authorization", "BEARER t1")]), None);
    assert_eq!(
        token(&[("authorization", "Bearer  "), ("x-api-key", " t2 ")]).as_deref(),
        Some("t2")
    );
    assert_eq!(token(&[("x-api-key", "  ")]), None);
}

#[test]
fn roles_come_as_a_list_or_as_words() {
    assert_eq!(roles(&claims(r#"{"r": ["a", 1, "b"]}"#), "r"), ["a", "b"]);
    assert_eq!(roles(&claims(r#"{"r": " a  b\tc "}"#), "r"), ["a", "b", "c"]);
    assert!(roles(&claims(r#"{"r": 7}"#), "r").is_empty());
    assert!(roles(&claims("{}"), "r").is_empty());
}

#[test]
fn a_template_takes_its_values_from_claims() {
    let known = claims(r#"{"sub": "u1", "n": 1.5, "i": -3, "b": true, "l": [1]}"#);
    assert_eq!(
        render("<{sub}/{n}/{i}/{b}>", &known).as_deref(),
        Some("<u1/1.5/-3/true>")
    );
    assert_eq!(render("plain", &known).as_deref(), Some("plain"));
    assert_eq!(render("{absent}", &known), None);
    assert_eq!(render("{l}", &known), None);
    assert_eq!(render("{sub", &known), None);
    assert_eq!(claim_to_string(&Json::Null), None);
}

#[test]
fn a_guard_says_what_a_reference_may_not_ask() {
    assert_eq!(
        not_bound(guard("token-plugin", "tokens: [a]", "roles: [admin]")),
        "plugin 'p' is a token-plugin and carries no claims, so it cannot require roles"
    );
    assert_eq!(
        not_bound(guard("jwt-plugin", "secret: s", "insert-headers: {' ': x}")),
        "plugin 'p' has an invalid header name ' '"
    );
    assert_eq!(
        not_bound(guard("jwt-plugin", "secret: s", "insert-headers: [a]")),
        "'insert-headers' must be a mapping"
    );
    assert_eq!(
        not_bound(guard("jwt-plugin", "secret: s", "insert-headers: {a: 1}")),
        "'insert-headers' entries must be strings"
    );
}

#[test]
fn a_shared_secret_is_compared_whole() {
    let guard = guard("token-plugin", "{tokens: [good, $$], keys: k}", "{}").unwrap();
    let cache = ProviderCache::new(1);
    let step = |token: &str| guard.check(&fields(&[("k", token)]), &cache, None, at(1));
    assert!(matches!(step("good"), GuardStep::Passed(identity, issued)
        if identity.is_empty() && issued.is_empty()));
    assert!(matches!(
        step("goo"),
        GuardStep::Refused(AuthOutcome::Unauthorized(message))
            if message == "invalid credentials for 'p'"
    ));
    assert!(matches!(
        step(""),
        GuardStep::Refused(AuthOutcome::Unauthorized(message))
            if message == "missing credentials for 'p'"
    ));
}

#[test]
fn a_caller_needs_every_required_role() {
    let guard = guard(
        "jwt-plugin",
        "secret: s",
        "{roles: [a, b], insert-headers: {X-User: '{sub}', X-None: '{absent}'}}",
    )
    .unwrap();
    assert!(matches!(
        guard.authorize(&claims(r#"{"roles": ["a"]}"#), "roles"),
        Err(AuthOutcome::Forbidden(message)) if message == "token lacks required role 'b'"
    ));
    let known = claims(r#"{"sub": "u1", "roles": ["b", "a"]}"#);
    assert!(guard.authorize(&known, "roles").is_ok());
    assert!(matches!(
        guard.render_identity(&known),
        Ok(identity) if identity == owned(&[("X-User", "u1")])
    ));
    assert!(matches!(
        guard.render_identity(&claims(r#"{"sub": "a\r\nb: c"}"#)),
        Err(AuthOutcome::Forbidden(message))
            if message == "claim value for header 'X-User' is not a valid header value"
    ));
    assert_eq!(injected_header_names(&vec![guard]), ["x-user", "x-none"]);
}

#[test]
fn every_guard_must_pass() {
    let Progress::Next(first) = Enforcement::begin(2) else {
        panic!("two guards are to be held");
    };
    let passed = AuthOutcome::Allowed(owned(&[("a", "1")]));
    let Progress::Next(second) = first.record(2, passed, owned(&[("set-cookie", "s=1")])) else {
        panic!("one guard is left");
    };
    let passed = AuthOutcome::Allowed(owned(&[("b", "2")]));
    assert!(matches!(
        second.record(2, passed, owned(&[("set-cookie", "t=2")])),
        Progress::Finished(AuthOutcome::Allowed(identity), issued)
            if identity == owned(&[("a", "1"), ("b", "2")])
                && issued == owned(&[("set-cookie", "s=1"), ("set-cookie", "t=2")])
    ));

    let Progress::Next(first) = Enforcement::begin(2) else {
        panic!("two guards are to be held");
    };
    let passed = AuthOutcome::Allowed(Vec::new());
    let Progress::Next(second) = first.record(2, passed, owned(&[("set-cookie", "s=1")])) else {
        panic!("one guard is left");
    };
    assert!(matches!(
        second.record(2, AuthOutcome::Forbidden("no".to_owned()), Vec::new()),
        Progress::Finished(AuthOutcome::Forbidden(message), issued)
            if message == "no" && issued.is_empty()
    ));
    assert!(matches!(
        Enforcement::begin(0),
        Progress::Finished(AuthOutcome::Allowed(identity), issued)
            if identity.is_empty() && issued.is_empty()
    ));
}

#[test]
fn a_provider_is_asked_once_and_its_answer_kept() {
    let guard = guard("oauth2-plugin", IDP, "{roles: [read], insert-headers: {x-user: '{sub}'}}")
        .unwrap();
    let mut cache = ProviderCache::new(10);
    let caller = fields(&[("authorization", "Bearer t")]);

    let GuardStep::Introspect(token, request) = guard.check(&caller, &cache, None, at(100)) else {
        panic!("the provider is to be asked");
    };
    assert_eq!(token, "t");
    assert_eq!(request.url, "https://idp/i");
    assert_eq!(request.authorization, "Basic Z3c6c2ho");
    assert_eq!(
        request.form,
        Some(owned(&[("token", "t"), ("token_type_hint", "access_token")]))
    );
    assert_eq!(request.timeout, 5);

    let reply = said(r#"{"active": true, "scope": "read write", "sub": "u1", "exp": 120}"#);
    let step = guard.on_introspection(&caller, &mut cache, token, reply, at(100));
    assert!(matches!(step, GuardStep::Passed(identity, issued)
        if identity == owned(&[("x-user", "u1")]) && issued.is_empty()));
    assert_eq!(cache.max_entries, 10);

    // Until the token runs out the answer is at hand, and then it is not.
    assert!(matches!(
        guard.check(&caller, &cache, None, at(119)),
        GuardStep::Passed(..)
    ));
    assert!(matches!(
        guard.check(&caller, &cache, None, at(120)),
        GuardStep::Introspect(..)
    ));
}

#[test]
fn a_refusal_of_the_provider_is_kept_briefly() {
    let provider = provider(IDP);
    let mut cache = provider.new_cache();
    let step = provider.on_introspection(&mut cache, "t", said(r#"{"active": false}"#), at(10));
    assert!(matches!(
        step,
        Step::Done(Err(AuthOutcome::Unauthorized(message)))
            if message == "token rejected by the authorization provider"
    ));
    assert!(matches!(
        provider.begin(&cache, "t", from_secs(14)),
        Step::Done(Err(AuthOutcome::Unauthorized(_)))
    ));
    assert!(matches!(
        provider.begin(&cache, "t", from_secs(15)),
        Step::Introspect(_)
    ));
    // A token that has run out is refused though the provider calls it active.
    let step =
        provider.on_introspection(&mut cache, "u", said(r#"{"active": true, "exp": 10}"#), at(10));
    assert!(matches!(step, Step::Done(Err(AuthOutcome::Unauthorized(_)))));
}

#[test]
fn a_profile_lies_under_the_introspection() {
    let provider = provider(
        "{introspection-url: 'https://idp/i', userinfo-url: 'https://idp/u', client-id: gw, \
         client-secret: shh}",
    );
    let mut cache = provider.new_cache();
    let step = provider.on_introspection(
        &mut cache,
        "t",
        said(r#"{"active": true, "sub": "right"}"#),
        at(10),
    );
    let Step::Userinfo(request, introspection) = step else {
        panic!("the profile is to be fetched");
    };
    assert_eq!(request.url, "https://idp/u");
    assert_eq!(request.authorization, "Bearer t");
    assert_eq!(request.form, None);

    let step = provider.on_userinfo(
        &mut cache,
        "t",
        introspection,
        said(r#"{"sub": "wrong", "email": "a@b.c"}"#),
        at(10),
    );
    let Step::Done(Ok(known)) = step else {
        panic!("the caller is known");
    };
    assert_eq!(write_value(known.get("sub").unwrap()), "right");
    assert_eq!(write_value(known.get("email").unwrap()), "a@b.c");
}

#[test]
fn a_provider_that_does_not_answer_is_unavailable() {
    let provider = provider(IDP);
    let mut cache = provider.new_cache();
    let mut message = |reply: ProviderReply| {
        match provider.on_introspection(&mut cache, "t", reply, at(1)) {
            Step::Done(Err(AuthOutcome::Unavailable(message))) => message,
            _ => panic!("the provider is unavailable"),
        }
    };
    assert_eq!(
        message(ProviderReply::Unreachable),
        "authorization provider is unreachable"
    );
    assert_eq!(
        message(ProviderReply::Refused),
        "authorization provider returned an error"
    );
    assert_eq!(
        message(ProviderReply::Garbled),
        "authorization provider returned an invalid response"
    );
}

#[test]
fn an_override_stands_in_for_the_provider() {
    let guard = guard("oauth2-plugin", IDP, "insert-headers: {x-user: '{sub}'}").unwrap();
    let cache = ProviderCache::new(1);
    let caller = fields(&[("authorization", "Bearer t")]);
    let mut overrides = ClaimOverrides::new();
    assert!(matches!(
        guard.check(&caller, &cache, Some(&overrides), at(1)),
        GuardStep::Introspect(..)
    ));
    overrides.put("t", claims(r#"{"sub": "u9"}"#));
    assert!(matches!(
        guard.check(&caller, &cache, Some(&overrides), at(1)),
        GuardStep::Passed(identity, _) if identity == owned(&[("x-user", "u9")])
    ));
    overrides.put("t", claims(r#"{"sub": "u9", "exp": 1}"#));
    assert!(matches!(
        guard.check(&caller, &cache, Some(&overrides), at(1)),
        GuardStep::Refused(AuthOutcome::Unauthorized(_))
    ));
}

const DOOR: &str = "{introspection-url: 'https://idp/i', client-id: gw, client-secret: shh, \
                    session-cookie: {name: sid, secret: key, issuer: gw}}";

/// The value of a cookie that is set.
fn value_of(set_cookie: &str) -> &str {
    let pair = set_cookie.split(';').next().unwrap();
    pair.split_once('=').unwrap().1
}

#[test]
fn a_session_opens_the_routes_behind() {
    let door = guard("oauth2-plugin", DOOR, "{}").unwrap();
    let now = Moment {
        nanos: from_secs(1),
        unix: gillnet::clock::unix_now(),
    };
    let mut cache = ProviderCache::new(10);
    let caller = fields(&[("authorization", "Bearer t")]);
    let GuardStep::Introspect(token, _) = door.check(&caller, &cache, None, now) else {
        panic!("the provider is to be asked");
    };
    let reply = said(r#"{"active": true, "sub": "u1", "roles": ["admin"]}"#);
    let GuardStep::Passed(_, issued) =
        door.on_introspection(&caller, &mut cache, token, reply, now)
    else {
        panic!("the caller may pass");
    };
    assert_eq!(issued.len(), 1);
    assert_eq!(issued[0].0, "set-cookie");
    assert!(issued[0].1.starts_with("sid="));
    let jar = format!("theme=dark; sid={}", value_of(&issued[0].1));

    // A session that still verifies is not handed out anew, and one that does not is.
    let carrier = fields(&[("authorization", "Bearer t"), ("cookie", &jar)]);
    assert!(matches!(
        door.check(&carrier, &cache, None, now),
        GuardStep::Passed(_, issued) if issued.is_empty()
    ));
    let stale = fields(&[("authorization", "Bearer t"), ("cookie", "sid=x")]);
    assert!(matches!(
        door.check(&stale, &cache, None, now),
        GuardStep::Passed(_, issued) if issued.len() == 1
    ));

    // The plugin that mints it never takes it back.
    let visitor = fields(&[("cookie", &jar)]);
    assert!(matches!(
        door.check(&visitor, &cache, None, now),
        GuardStep::Refused(AuthOutcome::Unauthorized(message))
            if message == "missing credentials for 'p'"
    ));

    // A plugin for signed tokens does, where it was told to read the cookie.
    let bound = "{roles: [admin], insert-headers: {x-user: '{sub}'}}";
    let yaml = "{secret: key, issuer: gw, cookie-keys: [other, sid]}";
    let behind = guard("jwt-plugin", yaml, bound).unwrap();
    assert!(matches!(
        behind.check(&visitor, &cache, None, now),
        GuardStep::Passed(identity, issued)
            if identity == owned(&[("x-user", "u1")]) && issued.is_empty()
    ));
    let deaf = guard("jwt-plugin", "{secret: key, issuer: gw}", bound).unwrap();
    assert!(matches!(
        deaf.check(&visitor, &cache, None, now),
        GuardStep::Refused(AuthOutcome::Unauthorized(message))
            if message == "missing credentials for 'p'"
    ));
    let elsewhere = guard("jwt-plugin", "{secret: other, cookie-keys: sid}", bound).unwrap();
    assert!(matches!(
        elsewhere.check(&visitor, &cache, None, now),
        GuardStep::Refused(AuthOutcome::Unauthorized(message))
            if message == "invalid token for 'p': InvalidSignature"
    ));

    // A header comes before every cookie.
    let both = fields(&[("authorization", "Bearer x"), ("cookie", &jar)]);
    assert!(matches!(
        behind.check(&both, &cache, None, now),
        GuardStep::Refused(AuthOutcome::Unauthorized(_))
    ));
}

#[test]
fn a_stand_in_is_laid_over_the_session_a_caller_carries() {
    let yaml = "session-cookie: {name: sid, secret: key}";
    let mut policy = match policy("testing-plugin", yaml) {
        Ok(policy) => policy,
        Err(error) => panic!("{error}"),
    };
    let now = Moment {
        nanos: from_secs(1),
        unix: gillnet::clock::unix_now(),
    };
    let AuthPolicy::Testing(plugin) = &mut policy else {
        panic!("the policy is one for testing");
    };
    let minted = match &plugin.session {
        Some(cookie) => cookie.mint_at(&claims(r#"{"sub": "u1"}"#), now.unix).unwrap(),
        None => panic!("the params declare a cookie"),
    };
    plugin.overrides.put("t", claims(r#"{"scope": "read"}"#));
    let inserted = owned(&[("x-user", "{sub}"), ("x-scope", "{scope}")]);
    let guard = RouteGuard::build("p", Arc::new(policy), Vec::new(), inserted).unwrap();
    assert_eq!(gillnet::cookies::withheld(&vec![guard.copy()], false), ["sid"]);

    let jar = format!("sid={}", value_of(&minted));
    let cache = ProviderCache::new(1);
    let caller = fields(&[("authorization", "Bearer t"), ("cookie", &jar)]);
    assert!(matches!(
        guard.check(&caller, &cache, None, now),
        GuardStep::Passed(identity, issued)
            if identity == owned(&[("x-user", "u1"), ("x-scope", "read")]) && issued.is_empty()
    ));
    let visitor = fields(&[("authorization", "Bearer t")]);
    assert!(matches!(
        guard.check(&visitor, &cache, None, now),
        GuardStep::Passed(identity, _) if identity == owned(&[("x-scope", "read")])
    ));
}

#[test]
fn a_policy_says_what_is_wrong_with_its_cookies() {
    assert_eq!(
        refused(policy("jwt-plugin", "{secret: s, cookie-keys: {a: b}}")),
        refused(policy("jwt-plugin", "{secret: s, keys: {a: b}}")).replace("keys", "cookie-keys")
    );
    let unsigned = DOOR.replace("secret: key, ", "");
    assert_eq!(
        refused(policy("oauth2-plugin", &unsigned)),
        "oauth2-plugin 'session-cookie' requires a non-empty 'secret'"
    );
}

#[test]
fn registering_for_one_token_leaves_the_others() {
    let mut overrides = ClaimOverrides::new();
    overrides.put("t", claims(r#"{"a": 1}"#));
    overrides.put("u", claims(r#"{"b": 2}"#));
    overrides.merge("u", claims(r#"{"c": 3}"#));
    overrides.merge("v", claims(r#"{"d": 4}"#));
    let kept = overrides.get("t").unwrap();
    assert_eq!((kept.len(), kept.contains_key("a")), (1, true));
    assert_eq!(overrides.get("u").unwrap().len(), 2);
    assert!(overrides.get("w").is_none());
}

#[test]
fn the_override_endpoints_answer() {
    let mut overrides = ClaimOverrides::new();
    assert!(matches!(
        gillnet::testing::replace(&mut overrides, " ", claims("{}")),
        OverrideReply::BadRequest(error) if error == "token must not be empty"
    ));
    let OverrideReply::View(view) =
        gillnet::testing::replace(&mut overrides, "t", claims(r#"{"a": 1}"#))
    else {
        panic!("the override is stored");
    };
    assert!(matches!(
        gillnet::testing::patch(&mut overrides, "t", claims(r#"{"a": null, "b": 2}"#)),
        OverrideReply::View(view) if view.claims.len() == 1 && view.claims.contains_key("b")
    ));
    assert!(matches!(
        gillnet::testing::list(&overrides),
        OverrideReply::List(views) if views.len() == 1 && views[0].id == view.id
    ));
    assert!(matches!(
        gillnet::testing::show(&overrides, "x"),
        OverrideReply::NotFound(error) if error == "no claim override with id 'x'"
    ));
    assert!(matches!(
        gillnet::testing::remove(&mut overrides, &view.id),
        OverrideReply::NoContent
    ));
    assert!(matches!(
        gillnet::testing::clear(&mut overrides),
        OverrideReply::Removed(0)
    ));
}

#[test]
fn a_second_is_a_billion_nanoseconds() {
    assert_eq!(SECOND, 1_000_000_000);
    assert_eq!(from_secs(2), 2_000_000_000);
}
