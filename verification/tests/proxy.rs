use gillnet::auth::{AuthOutcome, AuthPolicy, RouteGuard};
use gillnet::config::PluginConfig;
use gillnet::cookies;
use gillnet::filters::{apply_edits, prepare};
use gillnet::header_policy::{on_request, on_response, Request, Settings};
use gillnet::headers::{Header, HeaderList};
use gillnet::plugins::wasm::{Action, HeaderEdits, Verdict};
use gillnet::proxy::{
    connection_tokens, content_length, forwarded_for, gateway_error, hand_back, hand_back_with,
    identity_or_reply, parse_u64, relay_headers, report, resolved_or_reply, set_header, upstream_headers, upstream_url,
    withheld_names,
};
use gillnet::registry::{Resolution, Resolved};
use gillnet::strmap::StrMap;
use gillnet::websocket::{
    is_upgrade, negotiated, on_send_failure, protocol_close, relay, requested_protocols,
    upgrade_failure, websocket_url, Action as WsAction, CloseReason, Event, Message, Part, Peer,
};
use std::sync::Arc;

fn fields(pairs: &[(&str, &str)]) -> HeaderList {
    HeaderList {
        fields: pairs
            .iter()
            .map(|(name, value)| Header {
                name: (*name).to_owned(),
                value: value.as_bytes().to_vec(),
            })
            .collect(),
    }
}

fn pairs(fields: &HeaderList) -> Vec<(&str, &str)> {
    fields
        .fields
        .iter()
        .map(|field| (field.name.as_str(), std::str::from_utf8(&field.value).unwrap()))
        .collect()
}

fn texts(pairs: &[(&str, &str)]) -> StrMap<String> {
    let mut out = StrMap::new();
    for (key, value) in pairs {
        out.insert((*key).to_owned(), (*value).to_owned());
    }
    out
}

fn token_guard() -> RouteGuard {
    let mut params = StrMap::new();
    params.insert(
        "tokens".to_owned(),
        yaml_serde::Value::String("t".to_owned()),
    );
    params.insert(
        "keys".to_owned(),
        yaml_serde::Value::String("X-Api-Key".to_owned()),
    );
    let config = PluginConfig {
        name: "p".to_owned(),
        plugin_id: "token-plugin".to_owned(),
        params,
    };
    let policy = match AuthPolicy::from_config(&config, &StrMap::new()) {
        Ok(policy) => policy,
        Err(error) => panic!("{error}"),
    };
    let inserted = vec![("X-User".to_owned(), "u".to_owned())];
    match RouteGuard::build("p", Arc::new(policy), Vec::new(), inserted) {
        Ok(guard) => guard,
        Err(error) => panic!("{error}"),
    }
}

fn resolved() -> Resolved {
    Resolved {
        route: "r".to_owned(),
        source: "static",
        service: Some("s".to_owned()),
        instance: None,
        target_url: "http://s/x".to_owned(),
        forward_token: false,
        guards: Vec::new(),
        filters: Vec::new(),
    }
}

#[test]
fn a_path_without_a_route_is_answered() {
    let Err(reply) = resolved_or_reply(Resolution::NotFound, "/x") else {
        panic!("there is no route");
    };
    assert_eq!((reply.status, reply.body.as_str()), (404, "no route matches '/x'\n"));
    let none = Resolution::NoInstances {
        route: "r".to_owned(),
        service: "s".to_owned(),
    };
    let Err(reply) = resolved_or_reply(none, "/x") else {
        panic!("there is no instance");
    };
    assert_eq!(
        (reply.status, reply.body.as_str()),
        (503, "no registered instances for service 's' (route 'r')\n")
    );
    assert!(resolved_or_reply(Resolution::Resolved(resolved()), "/x").is_ok());
    let said = report(&resolved());
    assert_eq!(
        (said.status, said.body.as_str()),
        (
            200,
            "RESOLVED route=r source=static service=s instance=- target=http://s/x\n"
        )
    );
}

#[test]
fn a_refusal_is_answered() {
    let reply = |outcome: AuthOutcome| match identity_or_reply(outcome) {
        Ok(_) => panic!("the caller is refused"),
        Err(reply) => reply,
    };
    let said = reply(AuthOutcome::Unauthorized("who".to_owned()));
    assert_eq!((said.status, said.body.as_str()), (401, "who\n"));
    assert_eq!(
        said.headers,
        [("www-authenticate".to_owned(), "Bearer".to_owned())]
    );
    let said = reply(AuthOutcome::Forbidden("no".to_owned()));
    assert_eq!((said.status, said.body.as_str()), (403, "no\n"));
    let said = reply(AuthOutcome::Unavailable("later".to_owned()));
    assert_eq!((said.status, said.body.as_str()), (503, "later\n"));
    let said = gateway_error(true, "r");
    assert_eq!(
        (said.status, said.body.as_str()),
        (504, "upstream timed out for route 'r'\n")
    );
    let said = gateway_error(false, "r");
    assert_eq!(
        (said.status, said.body.as_str()),
        (502, "upstream request failed for route 'r'\n")
    );
}

#[test]
fn only_what_may_goes_upstream() {
    let client = fields(&[
        ("host", "gw"),
        ("accept", "a"),
        ("connection", "close, X-Drop"),
        ("x-drop", "1"),
        ("te", "trailers"),
        ("content-length", "3"),
        ("x-forwarded-for", "1.1.1.1"),
        ("x-forwarded-port", "1"),
        ("authorization", "Bearer t"),
        ("x-api-key", "t"),
        ("x-user", "forged"),
        ("sec-websocket-key", "k"),
        ("accept", "b"),
    ]);
    let guards = vec![token_guard()];
    let withheld = withheld_names(&guards, false);
    let identity = vec![("X-User".to_owned(), "u1".to_owned())];
    let sent = upstream_headers(
        &client,
        &withheld,
        Some("2.2.2.2".to_owned()),
        "https",
        "gw",
        &identity,
        false,
    );
    let mut said = pairs(&sent);
    said.sort();
    assert_eq!(
        said,
        [
            ("accept", "a"),
            ("accept", "b"),
            ("sec-websocket-key", "k"),
            ("x-forwarded-for", "1.1.1.1, 2.2.2.2"),
            ("x-forwarded-host", "gw"),
            ("x-forwarded-proto", "https"),
            ("x-user", "u1"),
        ]
    );

    // Where the route forwards it, the credential goes through.
    let sent = upstream_headers(
        &client,
        &withheld_names(&guards, true),
        None,
        "http",
        "gw",
        &identity,
        true,
    );
    let said = pairs(&sent);
    assert!(said.contains(&("authorization", "Bearer t")));
    assert!(said.contains(&("x-forwarded-for", "1.1.1.1")));
    assert!(!said.contains(&("sec-websocket-key", "k")));
}

#[test]
fn a_client_cannot_speak_for_the_gateway() {
    let client = fields(&[("x-user", "forged"), ("x-role", "admin"), ("x-user", "again")]);
    let withheld = vec!["x-user".to_owned(), "x-role".to_owned()];
    let identity = vec![
        ("X-User".to_owned(), "first".to_owned()),
        ("x-user".to_owned(), "u1".to_owned()),
    ];
    for websocket in [false, true] {
        let sent = upstream_headers(&client, &withheld, None, "http", "gw", &identity, websocket);
        let said = pairs(&sent);
        let users: Vec<_> = said.iter().filter(|(name, _)| *name == "x-user").collect();
        assert_eq!(users, [&("x-user", "u1")]);
        assert!(said.iter().all(|(name, _)| *name != "x-role"));
    }
}

#[test]
fn hop_by_hop_headers_are_not_relayed() {
    let upstream = fields(&[
        ("connection", "X-Once"),
        ("x-once", "1"),
        ("keep-alive", "5"),
        ("set-cookie", "a=1"),
        ("set-cookie", "b=2"),
    ]);
    assert_eq!(connection_tokens(&upstream), ["x-once"]);
    assert_eq!(
        pairs(&relay_headers(&upstream)),
        [("set-cookie", "a=1"), ("set-cookie", "b=2")]
    );
}

#[test]
fn a_set_header_stands_alone() {
    let mut list = fields(&[("a", "1"), ("b", "2"), ("a", "3")]);
    set_header(&mut list, "A", "4");
    let mut said = pairs(&list);
    said.sort();
    assert_eq!(said, [("a", "4"), ("b", "2")]);
}

#[test]
fn lengths_and_urls_are_read_as_written() {
    assert_eq!(content_length(&fields(&[("content-length", " 42 ")])), Some(42));
    assert_eq!(content_length(&fields(&[("content-length", "-1")])), None);
    assert_eq!(content_length(&fields(&[])), None);
    assert_eq!(parse_u64("18446744073709551615"), Some(u64::MAX));
    assert_eq!(parse_u64("18446744073709551616"), None);
    assert_eq!(parse_u64("+7"), Some(7));
    assert_eq!(parse_u64("+"), None);
    assert_eq!(parse_u64(""), None);
    assert_eq!(upstream_url("http://a/b", ""), "http://a/b");
    assert_eq!(upstream_url("http://a/b", "q=1"), "http://a/b?q=1");
    assert_eq!(forwarded_for(&fields(&[]), None), None);
    assert_eq!(
        forwarded_for(&fields(&[]), Some("9.9.9.9".to_owned())).as_deref(),
        Some("9.9.9.9")
    );
}

#[test]
fn an_upgrade_is_told_by_two_headers() {
    assert!(is_upgrade(&fields(&[
        ("upgrade", "WebSocket"),
        ("connection", "keep-alive, Upgrade")
    ])));
    assert!(!is_upgrade(&fields(&[("upgrade", "websocket")])));
    assert!(!is_upgrade(&fields(&[("upgrade", "h2c"), ("connection", "upgrade")])));
    assert_eq!(websocket_url("http://a/b"), "ws://a/b");
    assert_eq!(websocket_url("https://a/b"), "wss://a/b");
    assert_eq!(websocket_url("ftp://a"), "ftp://a");
    assert_eq!(websocket_url("plain"), "plain");
    assert_eq!(
        requested_protocols(&fields(&[
            ("sec-websocket-protocol", "a, b"),
            ("sec-websocket-protocol", ",c")
        ])),
        ["a", "b", "c"]
    );
    assert_eq!(
        negotiated(&fields(&[("sec-websocket-protocol", "b")])).as_deref(),
        Some("b")
    );
    let said = upgrade_failure("r");
    assert_eq!(
        (said.status, said.body.as_str()),
        (502, "upstream websocket upgrade failed for route 'r'\n")
    );
}

#[test]
fn frames_are_relayed_until_a_peer_closes() {
    assert!(matches!(
        relay(Peer::Client, Event::Message(Message::Text(b"hi".to_vec()))),
        WsAction::Relay(Message::Text(data)) if data == b"hi"
    ));
    assert!(matches!(
        relay(Peer::Upstream, Event::Message(Message::Continuation(Part::Last(vec![1])))),
        WsAction::Relay(Message::Continuation(Part::Last(data))) if data == [1]
    ));
    assert!(matches!(
        relay(Peer::Upstream, Event::Message(Message::Text(vec![0xff]))),
        WsAction::Close(Some(CloseReason { code: 1007, description: None }))
    ));
    let reason = || {
        Some(CloseReason {
            code: 1000,
            description: Some("bye".to_owned()),
        })
    };
    assert!(matches!(
        relay(Peer::Client, Event::Message(Message::Close(reason()))),
        WsAction::CloseBoth(Some(CloseReason { code: 1000, description: Some(said) }))
            if said == "bye"
    ));
    assert!(matches!(
        relay(Peer::Upstream, Event::Message(Message::Close(reason()))),
        WsAction::Close(Some(CloseReason { code: 1000, description: Some(said) }))
            if said == "bye"
    ));
    assert!(matches!(
        relay(Peer::Client, Event::Message(Message::Nop)),
        WsAction::Wait
    ));
    assert!(matches!(relay(Peer::Client, Event::End), WsAction::Close(None)));
    assert!(matches!(
        relay(Peer::Client, Event::Broken(false)),
        WsAction::Close(Some(CloseReason { code: 1002, description: None }))
    ));
    let close = protocol_close(Peer::Upstream, true);
    assert_eq!(close.code, 1009);
    assert_eq!(
        close.description.as_deref(),
        Some("upstream frame exceeds gateway limit")
    );
    assert!(matches!(on_send_failure(), WsAction::Close(None)));
}

fn policy(require: &[(&str, &str)], status: u16) -> Settings {
    Settings {
        require: texts(require),
        set: texts(&[("x-gateway", "gillnet")]),
        strip: vec!["cookie".to_owned()],
        response_set: texts(&[("x-via", "gw")]),
        deny_status: status,
    }
}

fn asked(require: &[(&str, &str)], status: u16) -> (Verdict, Vec<String>) {
    let mut log = Vec::new();
    let request = Request {
        path: "/things".to_owned(),
        headers: texts(&[("x-api-version", "2")]),
        settings: policy(require, status),
    };
    (on_request(Some(request), &mut log), log)
}

#[test]
fn a_required_header_must_be_there() {
    let (verdict, log) = asked(&[("X-Api-Version", "*")], 0);
    assert_eq!(verdict.action, Action::Continue);
    assert_eq!(
        verdict.set_headers.get("x-gateway").map(String::as_str),
        Some("gillnet")
    );
    assert_eq!(verdict.remove_headers, ["cookie"]);
    assert!(log.is_empty());

    let (verdict, log) = asked(&[("X-Api-Version", "1")], 0);
    assert_eq!(verdict.action, Action::Stop);
    assert_eq!(verdict.status, Some(403));
    assert_eq!(verdict.body, "'x-api-version' is required on this route\n");
    assert_eq!(log, ["/things rejected: 'x-api-version' is not as required"]);

    let (verdict, _) = asked(&[("X-Other", "*")], 418);
    assert_eq!(verdict.status, Some(418));

    let mut log = Vec::new();
    let verdict = on_request(None, &mut log);
    assert_eq!(verdict.status, Some(500));
    assert_eq!(verdict.body, "the host sent JSON this plugin cannot read\n");
    assert_eq!(log, ["the host sent JSON this plugin cannot read"]);

    let verdict = on_response(Some(policy(&[], 0)));
    assert_eq!(verdict.set_headers.get("x-via").map(String::as_str), Some("gw"));
    assert!(on_response(None).set_headers.is_empty());
}

fn edits(set: &[(&str, &str)], remove: &[&str]) -> HeaderEdits {
    HeaderEdits {
        set: set
            .iter()
            .map(|(name, value)| ((*name).to_owned(), (*value).to_owned()))
            .collect(),
        remove: remove.iter().map(|name| (*name).to_owned()).collect(),
    }
}

#[test]
fn filters_have_the_last_word_on_what_is_sent() {
    let mut resolved = resolved();
    resolved.guards.push(token_guard());
    let client = fields(&[
        ("authorization", "Bearer t"),
        ("x-user", "forged"),
        ("accept", "a"),
        ("x-trace", "1"),
    ]);
    let identity = vec![("X-User".to_owned(), "u1".to_owned())];
    let edits = edits(&[("x-stamp", "s"), ("x-forwarded-host", "other")], &["x-trace"]);
    let sent = prepare(&resolved, &identity, &edits, &client, None, "http", "gw", false);
    let mut said = pairs(&sent);
    said.sort();
    assert_eq!(
        said,
        [
            ("accept", "a"),
            ("x-forwarded-host", "other"),
            ("x-forwarded-proto", "http"),
            ("x-stamp", "s"),
            ("x-user", "u1"),
        ]
    );

    // A route that relays the credential sends it on.
    resolved.forward_token = true;
    let sent = prepare(&resolved, &identity, &edits, &client, None, "http", "gw", false);
    assert!(pairs(&sent).contains(&("authorization", "Bearer t")));
}

/// A guard whose plugin is declared with some parameters.
fn guard_of(kind: &str, yaml: &str) -> RouteGuard {
    let read: std::collections::HashMap<String, yaml_serde::Value> =
        yaml_serde::from_str(yaml).expect("invalid test params");
    let mut params = StrMap::new();
    for (key, value) in read {
        params.insert(key, value);
    }
    let config = PluginConfig {
        name: "p".to_owned(),
        plugin_id: kind.to_owned(),
        params,
    };
    match AuthPolicy::from_config(&config, &StrMap::new()) {
        Ok(policy) => match RouteGuard::build("p", Arc::new(policy), Vec::new(), Vec::new()) {
            Ok(guard) => guard,
            Err(error) => panic!("{error}"),
        },
        Err(error) => panic!("{error}"),
    }
}

#[test]
fn the_gateways_cookies_do_not_go_upstream() {
    let mut resolved = resolved();
    resolved.guards = vec![
        guard_of("jwt-plugin", "{secret: s, cookie-keys: [sid, old]}"),
        guard_of(
            "oauth2-plugin",
            "{introspection-url: u, client-id: c, client-secret: d, session-cookie: {secret: s}}",
        ),
    ];
    assert_eq!(
        cookies::withheld(&resolved.guards, false),
        ["sid", "old", "gillnet-session"]
    );
    assert!(cookies::withheld(&resolved.guards, true).is_empty());
    let client = fields(&[
        ("cookie", "sid=1; theme=dark; gillnet-session=2"),
        ("x-other", "sid=1"),
        ("cookie", "old=3"),
        ("cookie", "caf\u{e9}=1;sid=4"),
    ]);
    let none = Vec::new();
    let same = edits(&[], &[]);
    let sent = prepare(&resolved, &none, &same, &client, None, "http", "gw", false);
    let said = pairs(&sent);
    let left: Vec<&str> = said
        .iter()
        .filter(|(name, _)| *name == "cookie")
        .map(|(_, value)| *value)
        .collect();
    assert_eq!(left, ["theme=dark", "caf\u{e9}=1"]);
    assert!(said.contains(&("x-other", "sid=1")));

    // A route that relays the credential, and one that reads none, send all on.
    resolved.forward_token = true;
    let sent = prepare(&resolved, &none, &same, &client, None, "http", "gw", false);
    assert!(pairs(&sent).contains(&("cookie", "old=3")));
    resolved.forward_token = false;
    resolved.guards = vec![token_guard()];
    let sent = prepare(&resolved, &none, &same, &client, None, "http", "gw", false);
    assert!(pairs(&sent).contains(&("cookie", "caf\u{e9}=1;sid=4")));
}

#[test]
fn a_cookie_field_that_is_not_text_is_left_alone() {
    let garbled = HeaderList {
        fields: vec![Header {
            name: "cookie".to_owned(),
            value: b"sid=\xff".to_vec(),
        }],
    };
    let names = vec!["sid".to_owned()];
    assert_eq!(cookies::held(&garbled, "sid"), None);
    assert_eq!(cookies::strip(&garbled, &names).fields[0].value, b"sid=\xff");
    let jar = fields(&[("cookie", "a=1; sid=2")]);
    assert_eq!(cookies::first(&jar, &names).as_deref(), Some("2"));
    assert_eq!(cookies::first(&jar, &Vec::new()), None);
    assert_eq!(pairs(&cookies::strip(&jar, &Vec::new())), [("cookie", "a=1; sid=2")]);
}

#[test]
fn what_the_guards_hand_back_is_added_to_the_response() {
    let issued = vec![("Set-Cookie".to_owned(), "sid=1".to_owned())];
    let mut relayed = fields(&[("set-cookie", "theme=dark")]);
    hand_back(&mut relayed, &issued);
    assert_eq!(
        pairs(&relayed),
        [("set-cookie", "theme=dark"), ("set-cookie", "sid=1")]
    );
    let reply = hand_back_with(gateway_error(true, "r"), &issued);
    assert_eq!(reply.status, 504);
    assert_eq!(reply.headers, issued);
}

#[test]
fn changes_are_made_to_a_message_in_order() {
    let mut list = fields(&[("a", "1"), ("b", "2")]);
    apply_edits(&mut list, &edits(&[("c", "3")], &["a"]));
    apply_edits(&mut list, &edits(&[("d", "4")], &["c"]));
    assert_eq!(pairs(&list), [("b", "2"), ("d", "4")]);
}
