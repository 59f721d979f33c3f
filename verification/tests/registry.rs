use gillnet::api::{self, InstanceReply, RegisterReply};
use gillnet::clock::from_secs;
use gillnet::components::{Plugin, Route, Service};
use gillnet::config::{
    GatewayConfig, ListenConfig, MatchType, PluginConfig, PluginReference, ProxyConfig,
    RegistrationConfig, RouteConfig, ServiceConfig, TestingConfig,
};
use gillnet::registry::describe::{DescribeFilter, Source, TargetView};
use gillnet::registry::route::{compile_patterns, strip_prefix};
use gillnet::registry::{
    PluginRequirement, RegistrationError, RegistrationRequest, Registry, Resolution, Resolved,
    RouteSpec,
};
use gillnet::strmap::StrMap;
use gillnet::tree::{read_value, write_value};
use std::collections::HashMap;

fn params(yaml: &str) -> StrMap<yaml_serde::Value> {
    let read: HashMap<String, yaml_serde::Value> =
        yaml_serde::from_str(yaml).expect("invalid test params");
    let mut block = StrMap::new();
    for (key, value) in read {
        block.insert(key, value);
    }
    block
}

fn route(name: &str, url: &str, path: &str, match_type: MatchType, strip_path: bool) -> RouteConfig {
    RouteConfig {
        name: name.to_owned(),
        url: url.to_owned(),
        paths: vec![path.to_owned()],
        match_type,
        strip_path,
        forward_token: false,
        plugins: None,
    }
}

fn config(routes: Vec<RouteConfig>) -> GatewayConfig {
    GatewayConfig {
        listen: ListenConfig::default(),
        registration: RegistrationConfig::default(),
        proxy: ProxyConfig::default(),
        testing: TestingConfig::default(),
        plugins: Some(vec![PluginConfig {
            name: "jwt".to_owned(),
            plugin_id: "jwt-plugin".to_owned(),
            params: params("secret: shh"),
        }]),
        services: Some(vec![ServiceConfig {
            name: "billing".to_owned(),
            url: "http://billing:9000/".to_owned(),
        }]),
        routes,
    }
}

fn registry(routes: Vec<RouteConfig>) -> Registry {
    match Registry::from_config(&config(routes), &StrMap::new()) {
        Ok(registry) => registry,
        Err(error) => panic!("{error}"),
    }
}

fn refused(config: GatewayConfig) -> String {
    match Registry::from_config(&config, &StrMap::new()) {
        Ok(_) => panic!("the config must not be taken"),
        Err(error) => error,
    }
}

fn resolved(registry: &mut Registry, path: &str) -> Resolved {
    match registry.resolve(path) {
        Resolution::Resolved(resolved) => resolved,
        Resolution::NoInstances { .. } => panic!("'{path}' has no instances"),
        Resolution::NotFound => panic!("'{path}' is not found"),
    }
}

fn request(service: &str, id: &str, paths: &[&str]) -> RegistrationRequest {
    RegistrationRequest {
        service: service.to_owned(),
        instance_id: id.to_owned(),
        url: format!("http://{id}:80"),
        routes: if paths.is_empty() {
            Vec::new()
        } else {
            vec![RouteSpec {
                paths: paths.iter().map(|path| (*path).to_owned()).collect(),
                match_type: MatchType::PREFIX,
                strip_path: true,
                plugins: Vec::new(),
            }]
        },
    }
}

fn invalid(result: Result<(), RegistrationError>) -> String {
    match result {
        Err(RegistrationError::Invalid(error)) => error,
        _ => panic!("the registration is invalid"),
    }
}

#[test]
fn the_defaults_of_a_config() {
    let config = config(Vec::new());
    assert_eq!(config.listen.host, "0.0.0.0");
    assert_eq!(config.listen.proxy_port, 8080);
    assert_eq!(config.listen.registration_port, 8081);
    assert_eq!(config.registration.heartbeat_ttl_seconds, 30);
    assert_eq!(config.registration.reap_interval_seconds, 10);
    assert_eq!(config.proxy.timeout_seconds, 30);
    assert_eq!(config.proxy.connect_timeout_seconds, 5);
    assert_eq!(config.proxy.websocket_max_frame_bytes, 65536);
    assert!(!config.testing.userinfo_overrides);
    assert_eq!(MatchType::default(), MatchType::PREFIX);
}

#[test]
fn components_say_what_their_entries_say() {
    let config = config(vec![route("r", "http://a", "/a", MatchType::EXACT, true)]);
    let plugin = Plugin::from_config(&config.plugins.as_ref().unwrap()[0]);
    assert_eq!(
        (plugin.name.as_str(), plugin.ptype.as_str(), plugin.params.len()),
        ("jwt", "jwt-plugin", 1)
    );
    let service = Service::from_config(&config.services.as_ref().unwrap()[0]);
    assert_eq!(
        (service.name.as_str(), service.url.as_str()),
        ("billing", "http://billing:9000/")
    );
    let route = Route::from_config(&config.routes[0]);
    assert_eq!((route.name.as_str(), route.url.as_str()), ("r", "http://a"));
    assert_eq!(route.paths, ["/a"]);
    assert!(route.strip_path && route.plugins.is_none());
}

#[test]
fn an_exact_route_beats_a_prefix_and_a_longer_prefix_a_shorter() {
    let mut registry = registry(vec![
        route("regex", "http://r", "/a.*", MatchType::REGEX, false),
        route("short", "http://s", "/a", MatchType::PREFIX, false),
        route("long", "http://l", "/a/b/", MatchType::PREFIX, false),
        route("exact", "http://e", "/a/b", MatchType::EXACT, false),
    ]);
    assert_eq!(resolved(&mut registry, "/a/b").route, "exact");
    assert_eq!(resolved(&mut registry, "/a/b/c").route, "long");
    assert_eq!(resolved(&mut registry, "/a/bc").route, "short");
    assert_eq!(resolved(&mut registry, "/ab").route, "regex");
    assert!(matches!(registry.resolve("/b"), Resolution::NotFound));
}

#[test]
fn stripping_leaves_what_follows() {
    assert_eq!(strip_prefix("/a/b", 2), "/b");
    assert_eq!(strip_prefix("/a", 2), "/");
    assert_eq!(strip_prefix("/ab", 2), "/b");
    let mut registry = registry(vec![
        route("u", "http://u/base/", "/u", MatchType::PREFIX, true),
        route("b", "billing", "/pay", MatchType::PREFIX, true),
    ]);
    assert_eq!(resolved(&mut registry, "/u/x").target_url, "http://u/base/x");
    let billing = resolved(&mut registry, "/pay");
    assert_eq!(billing.target_url, "http://billing:9000/");
    assert_eq!(billing.service.as_deref(), Some("billing"));
    assert_eq!(billing.instance, None);
    assert_eq!(billing.source, "static");
}

#[test]
fn a_pattern_that_is_none_is_refused() {
    assert!(compile_patterns(&vec!["(".to_owned()], MatchType::REGEX).is_err());
    let error = refused(config(vec![route("r", "http://a", "(", MatchType::REGEX, false)]));
    assert!(error.starts_with("Invalid route 'r': "), "{error}");
}

#[test]
fn what_is_declared_twice_is_refused() {
    let twice = |what: &str| {
        format!("A {what} named 'x' is declared twice in the declarative configuration!")
    };
    let routes = vec![
        route("x", "http://a", "/a", MatchType::EXACT, false),
        route("x", "http://b", "/b", MatchType::EXACT, false),
    ];
    assert_eq!(refused(config(routes)), twice("route"));

    let service = || ServiceConfig {
        name: "x".to_owned(),
        url: "http://x".to_owned(),
    };
    let mut services = config(Vec::new());
    services.services = Some(vec![service(), service()]);
    assert_eq!(refused(services), twice("service"));

    let plugin = || PluginConfig {
        name: "x".to_owned(),
        plugin_id: "token-plugin".to_owned(),
        params: params("tokens: [a]"),
    };
    let mut plugins = config(Vec::new());
    plugins.plugins = Some(vec![plugin(), plugin()]);
    assert_eq!(refused(plugins), twice("plugin"));

    let mut unknown = config(vec![route("r", "http://a", "/a", MatchType::EXACT, false)]);
    unknown.routes[0].plugins = Some(vec![PluginReference {
        name: "nobody".to_owned(),
        params: None,
    }]);
    assert_eq!(
        refused(unknown),
        "Invalid route 'r': unknown plugin 'nobody' (not defined in the gateway config)"
    );
}

#[test]
fn instances_take_turns() {
    let mut registry = registry(Vec::new());
    for id in ["b", "a", "c"] {
        assert!(registry.register_at(request("api", id, &["/api"]), 0).is_ok());
    }
    let turns: Vec<String> = (0..4)
        .map(|_| resolved(&mut registry, "/api/x").instance.unwrap())
        .collect();
    assert_eq!(turns, ["a", "b", "c", "a"]);
    let next = resolved(&mut registry, "/api/x");
    assert_eq!(next.target_url, "http://b:80/x");
    assert_eq!(next.route, "api#0");
    assert_eq!(next.source, "dynamic");
}

#[test]
fn a_round_names_each_instance_once() {
    let mut registry = registry(Vec::new());
    for id in ["c", "a", "b", "d"] {
        assert!(registry.register_at(request("api", id, &["/api"]), 0).is_ok());
    }
    assert_eq!(registry.pick_instance("other"), None);
    for start in 0..3 {
        let mut round: Vec<(String, String)> =
            (0..4).filter_map(|_| registry.pick_instance("api")).collect();
        round.sort();
        let ids: Vec<&str> = round.iter().map(|(id, _)| id.as_str()).collect();
        assert_eq!(ids, ["a", "b", "c", "d"], "round from {start}");
        assert_eq!(round[0].1, "http://a:80");
        assert!(registry.pick_instance("api").is_some());
    }
}

#[test]
fn a_declared_route_comes_before_a_registered_one() {
    let mut registry = registry(vec![route("fixed", "http://f", "/", MatchType::PREFIX, false)]);
    assert!(registry.register_at(request("api", "a", &["/api"]), 0).is_ok());
    assert_eq!(resolved(&mut registry, "/api").route, "fixed");
}

#[test]
fn a_registration_says_what_is_wrong_with_it() {
    let mut registry = registry(Vec::new());
    assert_eq!(
        invalid(registry.register(request(" ", "a", &[]))),
        "service must not be empty"
    );
    assert_eq!(
        invalid(registry.register(request("api", " ", &[]))),
        "instanceId must not be empty"
    );
    let mut wrong = request("api", "a", &[]);
    wrong.url = "ftp://a".to_owned();
    assert_eq!(
        invalid(registry.register(wrong)),
        "url must start with http:// or https://"
    );
    assert!(matches!(
        registry.register(request("billing", "a", &[])),
        Err(RegistrationError::Conflict(error)) if error
            == "service 'billing' is statically defined in the gateway config and cannot \
                self-register"
    ));
    let mut unknown = request("api", "a", &["/api"]);
    unknown.routes[0].plugins.push(PluginRequirement {
        name: "nobody".to_owned(),
        roles: Vec::new(),
        insert_headers: StrMap::new(),
        settings: None,
    });
    assert_eq!(
        invalid(registry.register(unknown)),
        "unknown plugin 'nobody' (not defined in the gateway config)"
    );
    assert!(registry.services.is_empty());
}

#[test]
fn a_service_without_instances_is_told_apart() {
    let mut registry = registry(vec![route("r", "api", "/api", MatchType::PREFIX, false)]);
    assert!(matches!(
        registry.resolve("/api"),
        Resolution::NoInstances { route, service } if route == "r" && service == "api"
    ));
    assert!(registry.register_at(request("api", "a", &[]), 0).is_ok());
    assert_eq!(resolved(&mut registry, "/api").instance.as_deref(), Some("a"));
    assert!(registry.deregister("api", "a"));
    assert!(!registry.deregister("api", "a"));
    assert!(matches!(registry.resolve("/api"), Resolution::NoInstances { .. }));
}

#[test]
fn the_dead_are_reaped_and_the_living_stay() {
    let mut registry = registry(Vec::new());
    assert!(registry.register_at(request("api", "a", &["/api"]), 0).is_ok());
    assert!(registry.register_at(request("api", "b", &[]), from_secs(5)).is_ok());
    assert!(registry.register_at(request("old", "c", &[]), 0).is_ok());
    assert!(registry.heartbeat_at("api", "a", from_secs(10)));
    assert!(!registry.heartbeat_at("api", "z", from_secs(10)));

    // An instance lives for the whole of its ttl and not a moment longer.
    assert!(registry.reap_at(from_secs(30)).is_empty());
    assert_eq!(
        registry.reap_at(from_secs(36)),
        [
            ("api".to_owned(), "b".to_owned()),
            ("old".to_owned(), "c".to_owned())
        ]
    );
    assert!(registry.services.contains_key("api"));
    assert!(!registry.services.contains_key("old"));
    let views = registry.snapshot_at(from_secs(36));
    assert_eq!(views.len(), 1);
    assert_eq!(views[0].service, "api");
    assert_eq!(views[0].instances[0].instance_id, "a");
    assert_eq!(views[0].instances[0].seconds_since_heartbeat, 26);
    assert_eq!(views[0].routes[0].paths, ["/api"]);
}

fn described() -> Registry {
    let mut pay = route("pay", "billing", "/pay", MatchType::PREFIX, false);
    pay.plugins = Some(vec![PluginReference {
        name: "jwt".to_owned(),
        params: Some(params("{roles: [admin], insert-headers: {x-user: '{sub}'}}")),
    }]);
    let mut registry = registry(vec![
        route("web", "http://web", "/", MatchType::PREFIX, false),
        pay,
        route("gone", "nowhere", "/gone", MatchType::EXACT, false),
    ]);
    assert!(registry.register_at(request("api", "a", &["/api"]), 0).is_ok());
    registry
}

#[test]
fn a_description_shows_what_is_routed() {
    let view = described().describe_at(&DescribeFilter::default(), from_secs(7));
    assert_eq!(view.summary.heartbeat_ttl_seconds, 30);
    assert!(!view.summary.testing_userinfo_overrides);
    assert_eq!(
        (view.summary.services, view.summary.instances, view.summary.routes),
        (2, 1, 4)
    );
    let names: Vec<&str> = view.routes.iter().map(|route| route.name.as_str()).collect();
    assert_eq!(names, ["api#0", "gone", "pay", "web"]);
    let services: Vec<&str> = view.services.iter().map(|s| s.service.as_str()).collect();
    assert_eq!(services, ["api", "billing"]);
    assert_eq!(view.services[0].instances[0].seconds_since_heartbeat, 7);
    assert_eq!(view.services[0].routes, ["api#0"]);
    assert_eq!(view.services[1].url.as_deref(), Some("http://billing:9000/"));
    assert_eq!(view.plugins.len(), 1);
    assert_eq!((view.plugins[0].name.as_str(), view.plugins[0].kind), ("jwt", "jwt-plugin"));
    assert!(matches!(
        &view.routes[1].target,
        TargetView::Service { resolution: "unresolved", instances: 0, .. }
    ));
    assert!(matches!(
        &view.routes[0].target,
        TargetView::Service { resolution: "registry", instances: 1, .. }
    ));
    let guard = &view.routes[2].plugins[0];
    assert_eq!((guard.name.as_str(), guard.kind), ("jwt", "jwt-plugin"));
    assert_eq!(guard.roles, ["admin"]);
    assert_eq!(guard.insert_headers.get("x-user").map(String::as_str), Some("{sub}"));
}

#[test]
fn a_route_is_shown_on_its_own() {
    let registry = described();
    let shown = registry.describe_route(&registry.static_routes[1], Source::Static);
    assert_eq!(shown.name, "pay");
    assert!(matches!(
        shown.target,
        TargetView::Service { service, resolution: "static", instances: 0 } if service == "billing"
    ));
    assert_eq!(shown.plugins.len(), 1);
    assert_eq!((shown.plugins[0].name.as_str(), shown.plugins[0].kind), ("jwt", "jwt-plugin"));
}

#[test]
fn filters_narrow_what_a_description_shows() {
    let registry = described();
    let shown = |filter: DescribeFilter| {
        let view = registry.describe_at(&filter, 0);
        let routes: Vec<String> = view.routes.into_iter().map(|route| route.name).collect();
        let services: Vec<String> = view.services.into_iter().map(|s| s.service).collect();
        (routes.join(" "), services.join(" "))
    };
    let by = |filter: DescribeFilter| shown(filter);
    assert_eq!(
        by(DescribeFilter {
            source: Some(Source::Dynamic),
            ..DescribeFilter::default()
        }),
        ("api#0".to_owned(), "api".to_owned())
    );
    assert_eq!(
        by(DescribeFilter {
            path: Some("/pay/1".to_owned()),
            ..DescribeFilter::default()
        }),
        ("pay web".to_owned(), "billing".to_owned())
    );
    assert_eq!(
        by(DescribeFilter {
            services: vec!["billing".to_owned()],
            ..DescribeFilter::default()
        }),
        ("pay".to_owned(), "billing".to_owned())
    );
    assert_eq!(
        by(DescribeFilter {
            plugins: vec!["jwt".to_owned()],
            routes: vec!["web".to_owned()],
            ..DescribeFilter::default()
        }),
        (String::new(), String::new())
    );
}

#[test]
fn the_registration_endpoints_answer() {
    let mut registry = registry(Vec::new());
    let RegisterReply::Created(response) = api::register(&mut registry, request("api", "a", &[]))
    else {
        panic!("the instance is registered");
    };
    assert_eq!(response.ttl_seconds, 30);
    assert_eq!(response.heartbeat_interval_seconds, 10);
    assert_eq!(response.heartbeat_url, "/registry/services/api/instances/a");
    assert!(matches!(
        api::register(&mut registry, request("", "a", &[])),
        RegisterReply::BadRequest(_)
    ));
    assert!(matches!(
        api::register(&mut registry, request("billing", "a", &[])),
        RegisterReply::Conflict(_)
    ));
    assert!(matches!(
        api::heartbeat(&mut registry, "api", "a"),
        InstanceReply::NoContent
    ));
    assert!(matches!(
        api::heartbeat(&mut registry, "api", "z"),
        InstanceReply::NotFound { error, action: Some("re-register") }
            if error == "instance 'z' of service 'api' is not registered"
    ));
    assert!(matches!(
        api::deregister(&mut registry, "api", "a"),
        InstanceReply::NoContent
    ));
    assert!(matches!(
        api::deregister(&mut registry, "api", "a"),
        InstanceReply::NotFound { action: None, .. }
    ));
}

fn plugin(name: &str, kind: &str, yaml: &str) -> PluginConfig {
    PluginConfig {
        name: name.to_owned(),
        plugin_id: kind.to_owned(),
        params: params(yaml),
    }
}

fn reference(name: &str, yaml: &str) -> PluginReference {
    PluginReference {
        name: name.to_owned(),
        params: Some(params(yaml)),
    }
}

fn json(text: &str) -> serde_json::Value {
    serde_json::from_str(text).expect("invalid test json")
}

fn filtered(secret: &str) -> GatewayConfig {
    let mut guarded = route("guarded", "api", "/g", MatchType::PREFIX, false);
    guarded.plugins = Some(vec![
        reference("policy", "settings: {require: {b: '2'}}"),
        reference("jwt", "{}"),
    ]);
    let mut config = config(vec![guarded]);
    config.plugins = Some(vec![
        plugin("token", "token-plugin", &format!("tokens: [{secret}]")),
        plugin("jwt", "jwt-plugin", &format!("secret: {secret}")),
        plugin(
            "oauth2",
            "oauth2-plugin",
            &format!(
                "{{introspection-url: 'http://idp/i', client-id: gw, client-secret: {secret}}}"
            ),
        ),
        plugin("stand-in", "testing-plugin", "{}"),
        plugin("policy", "wasm-plugin", "{path: p.wasm, settings: {require: {a: '*', b: '1'}}}"),
    ]);
    config
}

fn built(config: &GatewayConfig) -> Registry {
    match Registry::from_config(config, &StrMap::new()) {
        Ok(registry) => registry,
        Err(error) => panic!("{error}"),
    }
}

#[test]
fn every_type_of_plugin_can_be_declared() {
    let view = built(&filtered("shh")).describe_at(&DescribeFilter::default(), 0);
    let kinds: Vec<(&str, &str)> = view
        .plugins
        .iter()
        .map(|plugin| (plugin.name.as_str(), plugin.kind))
        .collect();
    assert_eq!(
        kinds,
        [
            ("jwt", "jwt-plugin"),
            ("oauth2", "oauth2-plugin"),
            ("policy", "wasm-plugin"),
            ("stand-in", "testing-plugin"),
            ("token", "token-plugin"),
        ]
    );

    let mut wrong = filtered("shh");
    wrong.plugins = Some(vec![plugin("x", "wasm-plugin", "{}")]);
    assert!(refused(wrong).starts_with("Invalid plugin 'x': "));
    let mut wrong = filtered("shh");
    wrong.plugins = Some(vec![plugin("x", "testing-plugin", "endpoint: elsewhere")]);
    assert_eq!(
        refused(wrong),
        "Invalid plugin 'x': testing-plugin 'endpoint' must start with '/'"
    );
}

#[test]
fn a_module_cannot_share_its_name() {
    for other in [
        plugin("policy", "wasm-plugin", "path: q.wasm"),
        plugin("policy", "token-plugin", "tokens: [a]"),
    ] {
        let mut config = filtered("shh");
        config.plugins.as_mut().unwrap().push(other);
        assert_eq!(
            refused(config),
            "A plugin named 'policy' is declared twice in the declarative configuration!"
        );
    }
}

#[test]
fn a_filter_is_bound_with_the_settings_of_its_route() {
    let mut registry = built(&filtered("shh"));
    assert!(registry.register_at(request("api", "a", &[]), 0).is_ok());
    let found = resolved(&mut registry, "/g/x");
    assert_eq!(found.guards.len(), 1);
    assert_eq!(found.filters.len(), 1);
    assert_eq!(found.filters[0].name, "policy");
    let merged = json(r#"{"require": {"a": "*", "b": "2"}}"#);
    assert_eq!(write_value(&found.filters[0].settings), merged);

    // Operators see the same settings, behind the guards.
    let view = registry.describe_at(&DescribeFilter::default(), 0);
    let shown = &view.routes[0].plugins;
    assert_eq!((shown[0].name.as_str(), shown[0].kind), ("jwt", "jwt-plugin"));
    assert!(shown[0].settings.is_none());
    assert_eq!((shown[1].name.as_str(), shown[1].kind), ("policy", "wasm-plugin"));
    assert_eq!(shown[1].settings.as_ref().map(write_value), Some(merged));

    let only = DescribeFilter {
        plugins: vec!["policy".to_owned()],
        ..DescribeFilter::default()
    };
    assert_eq!(registry.describe_at(&only, 0).routes.len(), 1);
}

#[test]
fn a_service_may_pass_settings_to_a_filter() {
    let asks = |settings: Option<&str>, roles: &[&str]| {
        let mut asked = request("api", "a", &["/api"]);
        asked.routes[0].plugins.push(PluginRequirement {
            name: "policy".to_owned(),
            roles: roles.iter().map(|role| (*role).to_owned()).collect(),
            insert_headers: StrMap::new(),
            settings: settings.map(|text| read_value(json(text))),
        });
        asked
    };
    let mut registry = built(&filtered("shh"));
    let asked = asks(Some(r#"{"require": {"b": "3"}, "set": {"x": "y"}}"#), &[]);
    assert!(registry.register_at(asked, 0).is_ok());
    assert_eq!(
        write_value(&resolved(&mut registry, "/api").filters[0].settings),
        json(r#"{"require": {"a": "*", "b": "3"}, "set": {"x": "y"}}"#)
    );
    assert!(registry.register_at(asks(None, &[]), 0).is_ok());
    assert_eq!(
        write_value(&resolved(&mut registry, "/api").filters[0].settings),
        json(r#"{"require": {"a": "*", "b": "1"}}"#)
    );
    assert_eq!(registry.snapshot_at(0)[0].routes[0].plugins, ["policy"]);

    assert_eq!(
        invalid(registry.register_at(asks(Some("[1]"), &[]), 0)),
        "a wasm-plugin route reference 'settings' must be a mapping"
    );
    assert!(invalid(registry.register_at(asks(None, &["admin"]), 0)).contains("policy"));
}

#[test]
fn a_description_does_not_depend_on_credentials() {
    let shown = |registry: &Registry| {
        let view = registry.describe_at(&DescribeFilter::default(), 0);
        let routes: Vec<String> = view
            .routes
            .iter()
            .map(|route| {
                let plugins: Vec<String> = route
                    .plugins
                    .iter()
                    .map(|p| format!("{} {} {:?}", p.name, p.kind, p.roles))
                    .collect();
                format!("{} {:?} {:?}", route.name, route.paths, plugins)
            })
            .collect();
        (routes, view.plugins.len(), view.services.len())
    };
    assert_eq!(shown(&built(&filtered("shh"))), shown(&built(&filtered("other"))));
}

#[test]
fn a_target_is_shown_as_it_resolves() {
    let mut registry = built(&filtered("shh"));
    for known in [false, true] {
        if known {
            assert!(registry.register_at(request("api", "a", &[]), 0).is_ok());
        }
        let view = registry.describe_at(&DescribeFilter::default(), 0);
        let unresolved = matches!(
            &view.routes[0].target,
            TargetView::Service { resolution: "unresolved", .. }
        );
        let none = matches!(registry.resolve("/g"), Resolution::NoInstances { .. });
        assert_eq!(unresolved, none);
        assert_eq!(none, !known);
    }
}

#[test]
fn a_refused_deregistration_changes_nothing() {
    let mut registry = registry(Vec::new());
    assert!(registry.register_at(request("api", "a", &["/api"]), 0).is_ok());
    assert!(!registry.deregister("api", "b"));
    assert!(!registry.deregister("nobody", "a"));
    assert_eq!(registry.snapshot_at(0).len(), 1);
    assert_eq!(resolved(&mut registry, "/api").instance.as_deref(), Some("a"));
}
