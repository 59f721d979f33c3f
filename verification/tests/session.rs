use gillnet::clock::unix_now;
use gillnet::json::Json;
use gillnet::plugins::session::{build, from_jar, without, SessionCookie, DEFAULT_NAME};
use gillnet::plugins::Credential;
use gillnet::signed::TokenKey;
use gillnet::strmap::StrMap;
use gillnet::tree::{read_value, write_value};
use std::collections::HashMap;

fn cookie(params: &str) -> Result<Option<SessionCookie>, String> {
    let read: HashMap<String, yaml_serde::Value> =
        yaml_serde::from_str(params).expect("invalid test params");
    let mut block = StrMap::new();
    for (key, value) in read {
        block.insert(key, value);
    }
    build(&block, "test-plugin", &StrMap::new())
}

fn built(params: &str) -> SessionCookie {
    cookie(params)
        .expect("the test cookie should build")
        .expect("the test params declare a cookie")
}

fn claims(text: &str) -> StrMap<Json> {
    let value: serde_json::Value = serde_json::from_str(text).expect("invalid test claims");
    match read_value(value) {
        Json::Object(claims) => claims,
        _ => panic!("test claims are an object"),
    }
}

fn said(claims: &StrMap<Json>, claim: &str) -> serde_json::Value {
    write_value(claims.get(claim).expect("the claim is there"))
}

fn minted(cookie: &SessionCookie, claims: &StrMap<Json>) -> String {
    let issued = cookie.issue(
        Credential {
            token: "opaque",
            session: None,
        },
        claims,
    );
    assert_eq!(issued.len(), 1, "a verified identity mints a cookie");
    assert_eq!(issued[0].0, "set-cookie");
    issued[0].1.to_owned()
}

/// The `name=value` at the front of a `Set-Cookie`.
fn token_of(set_cookie: &str) -> &str {
    set_cookie
        .split(';')
        .next()
        .unwrap()
        .split_once('=')
        .unwrap()
        .1
}

fn far_future() -> i64 {
    unix_now() + 86_400
}

#[test]
fn a_plugin_without_the_block_mints_nothing() {
    assert!(cookie("other: true").unwrap().is_none());
}

#[test]
fn a_cookie_that_could_not_be_verified_later_is_refused_now() {
    assert!(cookie("session-cookie: {name: s}").is_err());
    assert!(cookie("session-cookie: {secret: ''}").is_err());
    assert!(cookie("session-cookie: {secret: shh}").is_ok());
    // A block that is not a block cannot be read for one.
    assert!(cookie("session-cookie: shh").is_err());
}

#[test]
fn the_defaults_are_the_hardened_ones() {
    let cookie = built("session-cookie: {secret: shh}");
    let set = minted(&cookie, &claims(r#"{"sub": "u1"}"#));

    assert!(set.starts_with(&format!("{DEFAULT_NAME}=")), "{set}");
    assert!(set.contains("; HttpOnly"), "{set}");
    assert!(set.contains("; Secure"), "{set}");
    assert!(set.contains("; SameSite=Lax"), "{set}");
    assert!(set.contains("; Path=/"), "{set}");
    assert!(!set.contains("Domain="), "{set}");
}

#[test]
fn attributes_follow_the_config_when_it_gives_them() {
    let cookie = built(
        "session-cookie: {secret: shh, name: sid, path: /app, domain: example.com, \
         secure: false, http-only: false, same-site: Strict}",
    );
    let set = minted(&cookie, &claims(r#"{"sub": "u1"}"#));

    assert!(set.starts_with("sid="), "{set}");
    assert!(set.contains("; Path=/app"), "{set}");
    assert!(set.contains("; Domain=example.com"), "{set}");
    assert!(set.contains("; SameSite=Strict"), "{set}");
    assert!(!set.contains("HttpOnly"), "{set}");
    assert!(!set.contains("Secure"), "{set}");
}

#[test]
fn a_cookie_a_browser_would_discard_is_refused_at_startup() {
    // `SameSite=None` without `Secure` is dropped outright, so the gateway
    // would hand out sessions that never come back.
    assert!(cookie("session-cookie: {secret: shh, same-site: None, secure: false}").is_err());
    assert!(cookie("session-cookie: {secret: shh, same-site: None}").is_ok());
    assert!(cookie("session-cookie: {secret: shh, same-site: sideways}").is_err());

    // Names and attributes that would splice the header.
    assert!(cookie("session-cookie: {secret: shh, name: 'bad name'}").is_err());
    assert!(cookie("session-cookie: {secret: shh, name: 'a=b'}").is_err());
    assert!(cookie("session-cookie: {secret: shh, path: '/a; Domain=evil.com'}").is_err());
    assert!(cookie("session-cookie: {secret: shh, ttl-seconds: 0}").is_err());
}

#[test]
fn a_minted_cookie_reads_back_as_the_identity_it_was_minted_from() {
    let cookie = built("session-cookie: {secret: shh}");
    let set = minted(&cookie, &claims(r#"{"sub": "u1", "scope": "admin"}"#));

    let read = cookie.claims(token_of(&set)).expect("its own cookie verifies");
    assert_eq!(said(&read, "sub"), "u1");
    assert_eq!(said(&read, "scope"), "admin");
    assert!(said(&read, "exp").as_i64().unwrap() > unix_now());
    assert!(read.contains_key("iat"));
}

#[test]
fn a_cookie_minted_with_another_secret_is_not_this_ones() {
    let mine = built("session-cookie: {secret: shh}");
    let theirs = built("session-cookie: {secret: different}");

    let set = minted(&theirs, &claims(r#"{"sub": "u1"}"#));
    assert!(mine.claims(token_of(&set)).is_none());
    assert!(mine.claims("not-a-token").is_none());
}

#[test]
fn a_session_never_outlives_the_credential_it_was_minted_from() {
    let cookie = built("session-cookie: {secret: shh, ttl-seconds: 86400}");

    // The provider said this token dies in a minute; the day-long ttl does
    // not get to extend it.
    let soon = unix_now() + 60;
    let set = minted(&cookie, &claims(&format!(r#"{{"sub": "u1", "exp": {soon}}}"#)));
    assert_eq!(said(&cookie.claims(token_of(&set)).unwrap(), "exp"), soon);

    // Without a provider expiry the ttl is the whole of it.
    let set = minted(&cookie, &claims(r#"{"sub": "u1"}"#));
    let exp = said(&cookie.claims(token_of(&set)).unwrap(), "exp").as_i64().unwrap();
    assert!(exp > unix_now() + 86_000, "the full ttl should apply");
}

#[test]
fn introspection_bookkeeping_does_not_become_an_identity_claim() {
    let cookie = built("session-cookie: {secret: shh}");
    let set = minted(
        &cookie,
        &claims(r#"{"sub": "u1", "active": true, "token_type": "Bearer"}"#),
    );

    let read = cookie.claims(token_of(&set)).unwrap();
    assert_eq!(said(&read, "sub"), "u1");
    // `active: true` was true of a lookup nothing is repeating.
    assert!(!read.contains_key("active"));
    assert!(!read.contains_key("token_type"));
}

#[test]
fn a_configured_issuer_and_audience_are_stamped_and_enforced() {
    let cookie = built("session-cookie: {secret: shh, issuer: 'https://gw', audience: gillnet}");
    let set = minted(&cookie, &claims(r#"{"sub": "u1"}"#));

    let read = cookie.claims(token_of(&set)).unwrap();
    assert_eq!(said(&read, "iss"), "https://gw");
    assert_eq!(said(&read, "aud"), "gillnet");

    // A cookie stamped for someone else does not verify here.
    let other = built("session-cookie: {secret: shh, issuer: 'https://other'}");
    let theirs = minted(&other, &claims(r#"{"sub": "u1"}"#));
    assert!(cookie.claims(token_of(&theirs)).is_none());
}

#[test]
fn a_live_session_is_not_re_stamped_on_every_response() {
    let cookie = built("session-cookie: {secret: shh}");
    let identity = claims(&format!(r#"{{"sub": "u1", "exp": {}}}"#, far_future()));
    let set = minted(&cookie, &identity);
    let carried = token_of(&set);

    // The caller already has this one; there is nothing to send back.
    assert!(cookie
        .issue(
            Credential {
                token: "opaque",
                session: Some(carried)
            },
            &identity
        )
        .is_empty());

    // One that no longer verifies is replaced.
    assert_eq!(
        cookie
            .issue(
                Credential {
                    token: "opaque",
                    session: Some("stale-or-forged")
                },
                &identity
            )
            .len(),
        1
    );
}

#[test]
fn a_named_cookie_is_found_among_the_others() {
    let jar = Some("theme=dark; gillnet-session=abc.def.ghi; cart=7");

    assert_eq!(from_jar(jar, DEFAULT_NAME), Some("abc.def.ghi"));
    assert_eq!(from_jar(jar, "theme"), Some("dark"));
    assert_eq!(from_jar(jar, "absent"), None);
    assert_eq!(from_jar(None, DEFAULT_NAME), None);
    // An empty cookie is no credential, exactly as an empty header is none.
    assert_eq!(from_jar(Some("gillnet-session=  "), DEFAULT_NAME), None);
}

#[test]
fn only_the_gateways_own_cookies_are_withheld_from_the_upstream() {
    let names = vec![DEFAULT_NAME.to_owned()];

    // The application's cookies are none of the gateway's business.
    assert_eq!(
        without("theme=dark; gillnet-session=abc; cart=7", &names).as_deref(),
        Some("theme=dark; cart=7")
    );
    // A jar holding nothing else is dropped rather than forwarded empty.
    assert_eq!(without("gillnet-session=abc", &names), None);
    assert_eq!(
        without("theme=dark", &names).as_deref(),
        Some("theme=dark")
    );
    assert_eq!(
        without("theme=dark", &Vec::new()).as_deref(),
        Some("theme=dark")
    );
}

#[test]
fn what_is_left_of_a_jar_reads_as_it_did() {
    let jar = " theme = dark ;; sid=1; flag; theme=light ;cart=7";
    let left = without(jar, &vec!["sid".to_owned(), "flag".to_owned()]).unwrap();

    assert_eq!(left, "theme = dark; theme=light; cart=7");
    assert_eq!(from_jar(Some(&left), "theme"), from_jar(Some(jar), "theme"));
    assert_eq!(from_jar(Some(&left), "cart"), Some("7"));
    assert_eq!(from_jar(Some(&left), "sid"), None);
}

#[test]
fn a_cookie_is_written_to_the_letter() {
    let cookie = built("session-cookie: {secret: shh, name: sid, ttl-seconds: 100}");
    let set = cookie
        .mint_at(&claims(r#"{"sub": "u1", "exp": 1040}"#), 1000)
        .unwrap();
    let token = token_of(&set).to_owned();
    assert_eq!(
        set,
        format!("sid={token}; Max-Age=40; Path=/; SameSite=Lax; HttpOnly; Secure")
    );
    assert_ne!(token, "");

    // A credential that has already ended leaves no time.
    let set = cookie.mint_at(&claims(r#"{"exp": 900}"#), 1000).unwrap();
    assert!(set.contains("; Max-Age=0;"), "{set}");
}

#[test]
fn each_complaint_about_a_cookie_names_its_plugin() {
    let said = |params: &str| match cookie(params) {
        Ok(_) => panic!("'{params}' must not build"),
        Err(error) => error,
    };
    assert_eq!(
        said("session-cookie: {name: s}"),
        "test-plugin 'session-cookie' requires a non-empty 'secret'"
    );
    assert_eq!(
        said("session-cookie: {secret: shh, name: 'a=b'}"),
        "test-plugin 'session-cookie' has an invalid cookie name 'a=b'"
    );
    assert_eq!(
        said("session-cookie: {secret: shh, ttl-seconds: 0}"),
        "test-plugin 'session-cookie' 'ttl-seconds' must be greater than zero"
    );
    assert_eq!(
        said("session-cookie: {secret: shh, same-site: sideways}"),
        "test-plugin 'session-cookie' 'same-site' must be Strict, Lax or None, not 'sideways'"
    );
    assert_eq!(
        said("session-cookie: {secret: shh, same-site: none, secure: false}"),
        "test-plugin 'session-cookie' 'same-site: None' requires 'secure: true'"
    );
    assert_eq!(
        said("session-cookie: {secret: shh, path: '/a;b'}"),
        "test-plugin 'session-cookie' has an invalid 'path'"
    );
    assert_eq!(
        said("session-cookie: {secret: shh, domain: ''}"),
        "test-plugin 'session-cookie' has an invalid 'domain'"
    );
}

#[test]
fn a_session_ends_by_a_number_that_is_not_whole_too() {
    let cookie = built("session-cookie: {secret: shh, name: sid, ttl-seconds: 100}");
    let lasts = |exp: &str| {
        let set = cookie
            .mint_at(&claims(&format!(r#"{{"sub": "u1", "exp": {exp}}}"#)), 1000)
            .unwrap();
        let (_, rest) = set.split_once("Max-Age=").unwrap();
        rest.split(';').next().unwrap().to_owned()
    };
    assert_eq!(lasts("1040.9"), "40");
    assert_eq!(lasts("1.5"), "0");
    assert_eq!(lasts("-0.5"), "0");
    assert_eq!(lasts("1.04e3"), "40");
    assert_eq!(lasts("1e300"), "100");
    // What is no number says nothing.
    assert_eq!(lasts("\"1040\""), "100");
}

#[test]
fn an_expired_cookie_vouches_for_nothing() {
    let cookie = built("session-cookie: {secret: shh, ttl-seconds: 100}");
    let identity = claims(r#"{"sub": "u1"}"#);
    let past = cookie.mint_at(&identity, unix_now() - 110).unwrap();
    assert!(cookie.claims(token_of(&past)).is_none());
    let live = cookie.mint_at(&identity, unix_now() - 50).unwrap();
    assert!(cookie.claims(token_of(&live)).is_some());
}

#[test]
fn withholding_twice_is_withholding_once() {
    let names = vec!["sid".to_owned()];
    for jar in [" a = 1 ;; sid=1; b", "sid=1;x=;  y", "a=1;  sid = 2 ;c=3"] {
        let once = without(jar, &names).unwrap();
        assert_eq!(without(&once, &names).as_ref(), Some(&once));
    }
}

#[test]
fn a_session_reads_back_whatever_its_dates_are_made_of() {
    let cookie = built("session-cookie: {secret: shh}");
    for odd in ["\"soon\"", "null", "true", "-5", "7"] {
        let text = format!("{{\"sub\": {odd}, \"nbf\": {odd}, \"iss\": [1]}}");
        let set = minted(&cookie, &claims(&text));
        let read = cookie.claims(token_of(&set)).expect("a session verifies");
        let odd: serde_json::Value = serde_json::from_str(odd).unwrap();
        assert_eq!(said(&read, "nbf"), odd);
        assert_eq!(said(&read, "sub"), odd);
    }
}

#[test]
fn a_session_is_a_token_like_any_other() {
    let cookie = built("session-cookie: {secret: shh, issuer: gw, audience: app}");
    let set = minted(&cookie, &claims(r#"{"sub": "u1"}"#));
    let key = |secret: &str, issuer: &str, audience: &str| TokenKey {
        secret: secret.to_owned(),
        issuer: Some(issuer.to_owned()),
        audience: Some(audience.to_owned()),
    };
    let token = token_of(&set);
    match key("shh", "gw", "app").verify(token) {
        Ok(read) => assert_eq!(said(&read, "sub"), "u1"),
        Err(error) => panic!("{error}"),
    }
    assert!(key("other", "gw", "app").verify(token).is_err());
    assert!(key("shh", "other", "app").verify(token).is_err());
    assert!(key("shh", "gw", "other").verify(token).is_err());
}
