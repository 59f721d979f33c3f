use gillnet::config::{PluginConfig, PluginReference};
use gillnet::headers::{Header, HeaderList};
use gillnet::json::{empty_object, merge, Json};
use gillnet::plugins::wasm::{
    call, check_exports, collect_headers, module_file, on_request, on_response, pack,
    Action, FilterOutcome, HeaderEdits, RequestLine, Verdict, WasmFilter, WasmPlugin, WasmRuntime,
    EXPORT_ALLOC, EXPORT_ON_REQUEST, EXPORT_ON_RESPONSE,
};
use gillnet::strmap::StrMap;
use gillnet::tree::{read_value, write_value};
use std::collections::HashMap;
use std::sync::Arc;

/// A module that answers every call with `verdict`, verbatim. Its allocator
/// hands out one fixed region, which is all a single call ever needs.
fn module(verdict: &str, response_phase: bool) -> String {
    let escaped = verdict.replace('\\', "\\\\").replace('"', "\\\"");
    let length = verdict.len();
    let on_response = if response_phase {
        format!(
            "(func (export \"{EXPORT_ON_RESPONSE}\") (param i32 i32) (result i64) \
             (i64.or (i64.shl (i64.const 16) (i64.const 32)) (i64.const {length})))"
        )
    } else {
        String::new()
    };

    format!(
        r#"(module
          (memory (export "memory") 2)
          (data (i32.const 16) "{escaped}")
          (func (export "{EXPORT_ALLOC}") (param i32) (result i32) (i32.const 4096))
          (func (export "{EXPORT_ON_REQUEST}") (param i32 i32) (result i64)
            (i64.or (i64.shl (i64.const 16) (i64.const 32)) (i64.const {length})))
          {on_response}
        )"#
    )
}

fn block(params: &str) -> StrMap<yaml_serde::Value> {
    let read: HashMap<String, yaml_serde::Value> =
        yaml_serde::from_str(params).expect("invalid test params");
    let mut block = StrMap::new();
    for (key, value) in read {
        block.insert(key, value);
    }
    block
}

fn plugin(wat: &str, params: &str) -> Result<WasmPlugin, String> {
    let mut params = block(params);
    params.insert(
        "path".to_owned(),
        yaml_serde::Value::String("plugin.wat".to_owned()),
    );

    WasmRuntime::new()?.load(
        &PluginConfig {
            name: "test-plugin".to_owned(),
            plugin_id: "wasm-plugin".to_owned(),
            params,
        },
        Ok(wat.as_bytes().to_vec()),
        &StrMap::new(),
    )
}

fn bound(plugin: WasmPlugin) -> WasmFilter {
    WasmFilter::build(Arc::new(plugin), Json::Object(empty_object())).unwrap()
}

fn filter(verdict: &str) -> WasmFilter {
    bound(plugin(&module(verdict, false), "{}").expect("the module should load"))
}

fn texts(value: Option<&serde_json::Value>) -> Result<StrMap<String>, String> {
    let mut out = StrMap::new();
    if let Some(value) = value {
        let fields = value.as_object().ok_or("not an object")?;
        for (name, value) in fields {
            let value = value.as_str().ok_or("not a string")?;
            out.insert(name.to_owned(), value.to_owned());
        }
    }
    Ok(out)
}

/// Reads the JSON a guest returns.
fn parse(bytes: Vec<u8>) -> Result<Verdict, String> {
    let value: serde_json::Value =
        serde_json::from_slice(&bytes).map_err(|error| error.to_string())?;
    let action = match value.get("action").map(|action| action.as_str()) {
        None | Some(Some("continue")) => Action::Continue,
        Some(Some("stop")) => Action::Stop,
        _ => return Err("unknown action".to_owned()),
    };
    let mut remove_headers = Vec::new();
    if let Some(names) = value.get("removeHeaders") {
        for name in names.as_array().ok_or("not a list")? {
            remove_headers.push(name.as_str().ok_or("not a string")?.to_owned());
        }
    }
    let status = match value.get("status") {
        None => None,
        Some(status) => Some(status.as_u64().ok_or("not a status")? as u16),
    };
    Ok(Verdict {
        action,
        set_headers: texts(value.get("setHeaders"))?,
        remove_headers,
        status,
        headers: texts(value.get("headers"))?,
        body: value
            .get("body")
            .and_then(|body| body.as_str())
            .unwrap_or("")
            .to_owned(),
    })
}

fn no_headers() -> HeaderList {
    HeaderList { fields: Vec::new() }
}

fn field(name: &str, value: &str) -> Header {
    Header {
        name: name.to_owned(),
        value: value.as_bytes().to_vec(),
    }
}

fn chain(filters: Vec<WasmFilter>, fields: &HeaderList, log: &mut Vec<String>) -> FilterOutcome {
    let line = RequestLine {
        route: "test-route",
        method: "GET",
        path: "/thing",
        query: "",
    };
    on_request(&filters, &line, fields, &parse, log)
}

fn run(filter: WasmFilter) -> FilterOutcome {
    chain(vec![filter], &no_headers(), &mut Vec::new())
}

fn respond(filter: WasmFilter, log: &mut Vec<String>) -> HeaderEdits {
    on_response(&vec![filter], "r", 200, &no_headers(), &parse, log)
}

fn json(text: &str) -> Json {
    read_value(serde_json::from_str(text).expect("invalid test json"))
}

fn refused(result: Result<WasmPlugin, String>) -> String {
    match result {
        Ok(_) => panic!("the module must not load"),
        Err(error) => error,
    }
}

#[test]
fn route_settings_layer_over_plugin_settings() {
    let base = json(
        r#"{"limit": 100, "burst": 5, "window": {"seconds": 60, "sliding": true}}"#,
    );
    let route = json(r#"{"limit": 10, "window": {"seconds": 1}}"#);

    // `burst` survives untouched and `window.sliding` survives the nested
    // merge, so a route can change one field without restating the block.
    assert_eq!(
        write_value(&merge(base, route)),
        write_value(&json(
            r#"{"limit": 10, "burst": 5, "window": {"seconds": 1, "sliding": true}}"#
        ))
    );
}

#[test]
fn a_route_replaces_a_list_rather_than_appending_to_it() {
    let merged = merge(json(r#"{"allow": ["a", "b"]}"#), json(r#"{"allow": ["c"]}"#));
    assert_eq!(write_value(&merged), write_value(&json(r#"{"allow": ["c"]}"#)));
}

#[test]
fn a_module_missing_the_abi_is_rejected_at_load() {
    let Err(error) = plugin("(module (memory (export \"memory\") 1))", "{}") else {
        panic!("a module with no entry point must not load");
    };
    assert!(error.contains(EXPORT_ALLOC), "unexpected error: {error}");
}

#[test]
fn a_missing_module_file_is_a_startup_error() {
    let runtime = WasmRuntime::new().unwrap();
    let mut params = StrMap::new();
    params.insert(
        "path".to_owned(),
        yaml_serde::Value::String("/nope/absent.wasm".to_owned()),
    );
    let config = PluginConfig {
        name: "absent".to_owned(),
        plugin_id: "wasm-plugin".to_owned(),
        params,
    };
    assert_eq!(module_file(&config, &StrMap::new()).unwrap(), "/nope/absent.wasm");

    let unread = Err("No such file or directory (os error 2)".to_owned());
    let Err(error) = runtime.load(&config, unread, &StrMap::new()) else {
        panic!("a module that is not there must not load");
    };
    assert!(error.contains("could not load module"), "unexpected: {error}");
    assert_eq!(
        error,
        "could not load module '/nope/absent.wasm': No such file or directory (os error 2)"
    );
}

#[test]
fn a_continue_verdict_edits_headers() {
    let filter = filter(
        r#"{"action":"continue","setHeaders":{"X-Wasm":"ok"},"removeHeaders":["Cookie"]}"#,
    );

    let FilterOutcome::Continue(edits) = run(filter) else {
        panic!("the filter should have continued");
    };
    // Both directions are lowercased, so the proxy can match them against
    // header names without caring how the guest spelled them.
    assert_eq!(edits.set, vec![("x-wasm".to_owned(), "ok".to_owned())]);
    assert_eq!(edits.remove, vec!["cookie".to_owned()]);
}

#[test]
fn a_stop_verdict_answers_the_request() {
    let filter = filter(
        r#"{"action":"stop","status":429,"headers":{"Retry-After":"30"},"body":"slow down"}"#,
    );

    let FilterOutcome::Stop(stop) = run(filter) else {
        panic!("the filter should have stopped the request");
    };
    assert_eq!(stop.status, 429);
    assert_eq!(stop.body, "slow down");
    assert_eq!(stop.headers, vec![("retry-after".to_owned(), "30".to_owned())]);
}

#[test]
fn a_stop_without_a_status_is_a_forbidden() {
    let FilterOutcome::Stop(stop) = run(filter(r#"{"action":"stop"}"#)) else {
        panic!("the filter should have stopped the request");
    };
    assert_eq!(stop.status, 403);
}

#[test]
fn a_header_a_guest_could_splice_with_is_dropped() {
    let filter = filter(
        r#"{"action":"continue","setHeaders":{"x-ok":"fine","x-bad":"a\r\nInjected: yes"}}"#,
    );

    let mut log = Vec::new();
    let FilterOutcome::Continue(edits) = chain(vec![filter], &no_headers(), &mut log) else {
        panic!("the filter should have continued");
    };
    assert_eq!(edits.set, vec![("x-ok".to_owned(), "fine".to_owned())]);
    assert_eq!(
        log,
        ["wasm plugin 'test-plugin' returned an invalid header 'x-bad'; dropping it"]
    );
}

#[test]
fn a_runaway_module_trips_its_fuel_budget() {
    let wat = format!(
        r#"(module
          (memory (export "memory") 1)
          (func (export "{EXPORT_ALLOC}") (param i32) (result i32) (i32.const 1024))
          (func (export "{EXPORT_ON_REQUEST}") (param i32 i32) (result i64)
            (loop $spin (br $spin))
            (i64.const 0))
        )"#
    );
    let plugin = plugin(&wat, "fuel: 100000").expect("the module should load");
    let filter = bound(plugin);

    // Fail closed: the filter never reached a decision, so the request is
    // refused rather than quietly forwarded past whatever it enforced.
    let mut log = Vec::new();
    let FilterOutcome::Failed(message) = chain(vec![filter], &no_headers(), &mut log) else {
        panic!("an endless module must not be allowed to continue");
    };
    assert!(message.contains("test-plugin"), "unexpected: {message}");
    assert_eq!(
        log,
        [format!(
            "wasm plugin 'test-plugin' failed in the request phase: '{EXPORT_ON_REQUEST}' \
             exhausted its fuel budget of 100000 (raise 'fuel' if the module legitimately \
             needs more)"
        )]
    );
}

#[test]
fn fail_open_forwards_when_a_module_breaks() {
    let wat = format!(
        r#"(module
          (memory (export "memory") 1)
          (func (export "{EXPORT_ALLOC}") (param i32) (result i32) (i32.const 1024))
          (func (export "{EXPORT_ON_REQUEST}") (param i32 i32) (result i64) (unreachable))
        )"#
    );
    let plugin = plugin(&wat, "fail-open: true").expect("the module should load");

    let FilterOutcome::Continue(edits) = run(bound(plugin)) else {
        panic!("fail-open should forward the request");
    };
    assert!(edits.set.is_empty());
}

#[test]
fn a_pointer_outside_guest_memory_is_refused() {
    let wat = format!(
        r#"(module
          (memory (export "memory") 1)
          (func (export "{EXPORT_ALLOC}") (param i32) (result i32) (i32.const 1024))
          (func (export "{EXPORT_ON_REQUEST}") (param i32 i32) (result i64)
            (i64.or (i64.shl (i64.const 4000000) (i64.const 32)) (i64.const 64)))
        )"#
    );
    let plugin = plugin(&wat, "{}").expect("the module should load");

    assert!(matches!(run(bound(plugin)), FilterOutcome::Failed(_)));
}

#[test]
fn the_response_phase_runs_only_for_modules_that_export_it() {
    let verdict = r#"{"action":"continue","setHeaders":{"X-Phase":"response"}}"#;

    let without = filter(verdict);
    assert!(!without.has_response_phase());
    assert!(respond(without, &mut Vec::new()).set.is_empty());

    let with = plugin(&module(verdict, true), "{}").expect("the module should load");
    let with = bound(with);

    assert!(with.has_response_phase());
    assert_eq!(
        respond(with, &mut Vec::new()).set,
        vec![("x-phase".to_owned(), "response".to_owned())]
    );
}

#[test]
fn a_route_may_not_use_auth_params_on_a_wasm_plugin() {
    let plugin = Arc::new(plugin(&module(r#"{"action":"continue"}"#, false), "{}").unwrap());

    let reference = PluginReference {
        name: "test-plugin".to_owned(),
        params: Some(block("roles: [admin]")),
    };

    let Err(error) = WasmFilter::from_reference(plugin, &reference) else {
        panic!("'roles' means nothing to a module and must not look like it does");
    };
    assert!(error.contains("settings"), "unexpected: {error}");
}

#[test]
fn repeated_request_headers_reach_a_guest_as_one_value() {
    let headers = HeaderList {
        fields: vec![field("accept", "a"), field("accept", "b")],
    };

    assert_eq!(
        write_value(collect_headers(&headers).get("accept").unwrap()),
        "a, b"
    );
}

#[test]
fn a_header_that_is_not_text_is_not_shown() {
    let headers = HeaderList {
        fields: vec![
            field("accept", "a"),
            Header {
                name: "x-raw".to_owned(),
                value: vec![0xff, 0x00],
            },
            field("x-raw", "seen"),
            field("x-name", "J\u{f6}rg"),
        ],
    };

    let shown = collect_headers(&headers);
    assert_eq!(write_value(shown.get("x-raw").unwrap()), "seen");
    // What is text is shown, whatever its letters.
    assert_eq!(write_value(shown.get("x-name").unwrap()), "J\u{f6}rg");
    assert_eq!(shown.len(), 3);
}

#[test]
fn the_first_filter_to_stop_wins() {
    let mut log = Vec::new();
    let outcome = chain(
        vec![
            filter(r#"{"setHeaders":{"x-one":"1"}}"#),
            filter(r#"{"action":"stop","status":401}"#),
            filter(r#"{"action":"stop","status":402}"#),
        ],
        &no_headers(),
        &mut log,
    );
    let FilterOutcome::Stop(stop) = outcome else {
        panic!("the second filter stops the request: {log:?}");
    };
    assert_eq!(stop.status, 401);
}

#[test]
fn a_filter_that_fails_ends_the_chain() {
    let broken = filter("no verdict");
    let behind = bound(plugin(&talkative(), "{}").expect("the module should load"));
    let mut log = Vec::new();
    let outcome = chain(vec![broken, behind], &no_headers(), &mut log);
    let FilterOutcome::Failed(message) = outcome else {
        panic!("a filter that fails closed refuses the request");
    };
    assert_eq!(message, "plugin 'test-plugin' could not run");
    assert_eq!(log.len(), 1, "the filter behind it is not asked: {log:?}");
}

#[test]
fn equal_calls_agree() {
    let filter = bound(plugin(&talkative(), "{}").expect("the module should load"));
    let input = json(r#"{"a": [1, 2]}"#);
    let mut first = Vec::new();
    let mut second = Vec::new();
    let once = call(&filter, EXPORT_ON_REQUEST, &input, &mut first);
    let twice = call(&filter, EXPORT_ON_REQUEST, &input, &mut second);
    assert_eq!(once, Ok(b"{}".to_vec()));
    assert_eq!(once, twice);
    assert_eq!(first, [r#"wasm plugin 'test-plugin': {"a":[1,2]}"#]);
    assert_eq!(first, second);
}

#[test]
fn the_changes_of_a_chain_add_up_in_order() {
    let outcome = chain(
        vec![
            filter(r#"{"setHeaders":{"X-B":"2","x-a":"1"},"removeHeaders":["One"]}"#),
            filter(r#"{"setHeaders":{"x-c":"3"},"removeHeaders":["TWO"]}"#),
        ],
        &no_headers(),
        &mut Vec::new(),
    );
    let FilterOutcome::Continue(edits) = outcome else {
        panic!("both filters continue");
    };
    let set: Vec<(&str, &str)> = edits
        .set
        .iter()
        .map(|(name, value)| (name.as_str(), value.as_str()))
        .collect();
    assert_eq!(set, [("x-a", "1"), ("x-b", "2"), ("x-c", "3")]);
    assert_eq!(edits.remove, ["one", "two"]);
}

/// A module that logs the JSON it is handed and lets the request pass.
fn talkative() -> String {
    format!(
        r#"(module
          (import "gillnet" "log" (func $log (param i32 i32)))
          (memory (export "memory") 2)
          (data (i32.const 16) "{{}}")
          (func (export "{EXPORT_ALLOC}") (param i32) (result i32) (i32.const 4096))
          (func (export "{EXPORT_ON_REQUEST}") (param $at i32) (param $length i32) (result i64)
            (call $log (local.get $at) (local.get $length))
            (call $log (i32.const -1) (i32.const 4))
            (i64.or (i64.shl (i64.const 16) (i64.const 32)) (i64.const 2)))
        )"#
    )
}

#[test]
fn a_guest_is_handed_the_request_and_its_settings() {
    let plugin = plugin(&talkative(), "settings: {limit: 1}").expect("the module should load");
    let filter = WasmFilter::build(Arc::new(plugin), json(r#"{"burst": 2}"#)).unwrap();
    let headers = HeaderList {
        fields: vec![field("accept", "a")],
    };
    let stamp = self::filter(r#"{"setHeaders":{"x-stamp":"s"},"removeHeaders":["accept"]}"#);

    let mut log = Vec::new();
    let outcome = chain(vec![stamp, filter], &headers, &mut log);
    assert!(matches!(outcome, FilterOutcome::Continue(_)));
    assert_eq!(log.len(), 1);
    let said = log[0]
        .strip_prefix("wasm plugin 'test-plugin': ")
        .expect("a line names its plugin");
    let input: serde_json::Value = serde_json::from_str(said).unwrap();
    assert_eq!(
        input,
        serde_json::from_str::<serde_json::Value>(
            r#"{"phase": "request", "route": "test-route", "method": "GET", "path": "/thing",
                "query": "", "headers": {"x-stamp": "s"}, "settings": {"limit": 1, "burst": 2}}"#
        )
        .unwrap()
    );
}

#[test]
fn a_failing_response_filter_is_logged_and_ignored() {
    let wat = format!(
        r#"(module
          (memory (export "memory") 1)
          (func (export "{EXPORT_ALLOC}") (param i32) (result i32) (i32.const 70000))
          (func (export "{EXPORT_ON_REQUEST}") (param i32 i32) (result i64) (i64.const 0))
          (func (export "{EXPORT_ON_RESPONSE}") (param i32 i32) (result i64) (i64.const 0))
        )"#
    );
    let mut log = Vec::new();
    let edits = respond(bound(plugin(&wat, "{}").unwrap()), &mut log);
    assert!(edits.set.is_empty() && edits.remove.is_empty());
    assert_eq!(log.len(), 1);
    assert!(
        log[0].starts_with(&format!(
            "wasm plugin 'test-plugin' failed in the response phase for route 'r': \
             '{EXPORT_ALLOC}' returned unusable memory: "
        )),
        "{}",
        log[0]
    );
}

#[test]
fn an_empty_or_oversized_verdict_is_refused() {
    let returning = |packed: i64| {
        format!(
            r#"(module
              (memory (export "memory") 1)
              (func (export "{EXPORT_ALLOC}") (param i32) (result i32) (i32.const 1024))
              (func (export "{EXPORT_ON_REQUEST}") (param i32 i32) (result i64)
                (i64.const {packed}))
            )"#
        )
    };
    let said = |packed: i64| {
        let mut log = Vec::new();
        let filter = bound(plugin(&returning(packed), "{}").unwrap());
        assert!(matches!(
            chain(vec![filter], &no_headers(), &mut log),
            FilterOutcome::Failed(_)
        ));
        log.remove(0)
    };
    assert_eq!(
        said(pack(16, 0)),
        "wasm plugin 'test-plugin' failed in the request phase: the guest returned an empty \
         verdict"
    );
    assert_eq!(
        said(pack(16, 1_048_577)),
        "wasm plugin 'test-plugin' failed in the request phase: the guest returned 1048577 \
         bytes, over the 1048576 byte limit"
    );
    assert_eq!(
        said(pack(u32::MAX, 64)),
        "wasm plugin 'test-plugin' failed in the request phase: the guest returned a pointer \
         outside its own memory"
    );
}

#[test]
fn an_invalid_status_is_a_failure() {
    let mut log = Vec::new();
    let outcome = chain(
        vec![filter(r#"{"action":"stop","status":42}"#)],
        &no_headers(),
        &mut log,
    );
    let FilterOutcome::Failed(message) = outcome else {
        panic!("42 is no status");
    };
    assert_eq!(message, "plugin 'test-plugin' could not run");
    assert_eq!(
        log,
        ["wasm plugin 'test-plugin' failed in the request phase: returned invalid status 42"]
    );
}

#[test]
fn a_verdict_that_is_not_json_is_a_failure() {
    let mut log = Vec::new();
    let outcome = chain(vec![filter("nonsense")], &no_headers(), &mut log);
    assert!(matches!(outcome, FilterOutcome::Failed(_)));
    assert!(
        log[0].starts_with(&format!(
            "wasm plugin 'test-plugin' failed in the request phase: '{EXPORT_ON_REQUEST}' \
             returned invalid JSON: "
        )),
        "{}",
        log[0]
    );
}

#[test]
fn a_memory_limit_stops_an_instance() {
    let mut log = Vec::new();
    let greedy = bound(plugin(&module("{}", false), "memory-max-bytes: 65536").unwrap());
    let outcome = chain(vec![greedy], &no_headers(), &mut log);
    assert!(matches!(outcome, FilterOutcome::Failed(_)));
    assert!(log[0].contains("instantiation failed: "), "{}", log[0]);
}

#[test]
fn what_a_module_cannot_be_loaded_for_is_said() {
    let good = module("{}", false);
    assert_eq!(
        refused(plugin(&good, "settings: 7")),
        "wasm-plugin 'settings' must be a mapping"
    );
    assert_eq!(
        refused(plugin(&good, "fuel: nope")),
        "'fuel' must be a positive integer"
    );
    assert!(refused(plugin("(module", "{}")).starts_with("could not load module 'plugin.wat': "));
    let unknown = talkative().replace("\"gillnet\"", "\"env\"");
    assert!(refused(plugin(&unknown, "{}")).starts_with("module 'plugin.wat' could not be linked: "));
    assert_eq!(
        check_exports("m.wasm", &vec![EXPORT_ALLOC.to_owned(), "memory".to_owned()]),
        Err(format!(
            "module 'm.wasm' does not export '{EXPORT_ON_REQUEST}' (see the wasm-plugin ABI)"
        ))
    );

    let config = PluginConfig {
        name: "p".to_owned(),
        plugin_id: "wasm-plugin".to_owned(),
        params: block("path: [a]"),
    };
    assert_eq!(
        module_file(&config, &StrMap::new()),
        Err("wasm-plugin 'path' must be a string".to_owned())
    );
    let config = PluginConfig {
        name: "p".to_owned(),
        plugin_id: "wasm-plugin".to_owned(),
        params: StrMap::new(),
    };
    assert_eq!(
        module_file(&config, &StrMap::new()),
        Err("wasm-plugin requires 'path' to a .wasm module".to_owned())
    );
}

#[test]
fn a_route_sees_its_settings_over_those_of_the_plugin() {
    let plugin = plugin(
        &module("{}", false),
        "settings: {require: {a: '*', b: '1'}, set: {x: y}}",
    )
    .unwrap();
    let reference = PluginReference {
        name: "test-plugin".to_owned(),
        params: Some(block("settings: {require: {b: '2'}}")),
    };
    let filter = match WasmFilter::from_reference(Arc::new(plugin), &reference) {
        Ok(filter) => filter,
        Err(error) => panic!("{error}"),
    };
    assert_eq!(
        write_value(filter.settings()),
        serde_json::from_str::<serde_json::Value>(
            r#"{"require": {"a": "*", "b": "2"}, "set": {"x": "y"}}"#
        )
        .unwrap()
    );
    assert_eq!(filter.name(), "test-plugin");
    assert_eq!(filter.kind(), "wasm-plugin");
    assert_eq!(filter.plugin.module_file(), "plugin.wat");
}

/// A module that logs what it is handed, in both phases, and changes nothing.
fn listener() -> WasmFilter {
    let wat = format!(
        r#"(module
          (import "gillnet" "log" (func $log (param i32 i32)))
          (memory (export "memory") 2)
          (data (i32.const 16) "{{}}")
          (func (export "{EXPORT_ALLOC}") (param i32) (result i32) (i32.const 4096))
          (func $hear (param $at i32) (param $length i32) (result i64)
            (call $log (local.get $at) (local.get $length))
            (i64.or (i64.shl (i64.const 16) (i64.const 32)) (i64.const 2)))
          (export "{EXPORT_ON_REQUEST}" (func $hear))
          (export "{EXPORT_ON_RESPONSE}" (func $hear))
        )"#
    );
    bound(plugin(&wat, "{}").expect("the module should load"))
}

/// The headers in what a listener logged.
fn heard(line: &str) -> serde_json::Value {
    let said = line
        .strip_prefix("wasm plugin 'test-plugin': ")
        .expect("a line names its plugin");
    serde_json::from_str::<serde_json::Value>(said).unwrap()["headers"].to_owned()
}

#[test]
fn repeated_response_headers_reach_a_guest_as_one_value() {
    let headers = HeaderList {
        fields: vec![field("vary", "a"), field("vary", "b")],
    };
    let mut log = Vec::new();
    let edits = on_response(&vec![listener()], "r", 200, &headers, &parse, &mut log);
    assert!(edits.set.is_empty() && edits.remove.is_empty());
    assert_eq!(heard(&log[0])["vary"], "a, b");
}

#[test]
fn a_later_filter_undoes_what_an_earlier_one_set() {
    let mut log = Vec::new();
    let outcome = chain(
        vec![
            filter(r#"{"setHeaders":{"x-a":"1","x-b":"1"}}"#),
            filter(r#"{"setHeaders":{"x-b":"2"},"removeHeaders":["X-A"]}"#),
            listener(),
        ],
        &no_headers(),
        &mut log,
    );
    let FilterOutcome::Continue(edits) = outcome else {
        panic!("every filter continues");
    };
    assert!(edits.set.iter().all(|(name, _)| name != "x-a"));
    assert_eq!(edits.set.last().unwrap().1, "2");
    assert_eq!(edits.remove, ["x-a"]);
    let seen = heard(&log[0]);
    assert!(seen.get("x-a").is_none());
    assert_eq!(seen["x-b"], "2");

    // A header that is taken out and set again is there.
    let outcome = chain(
        vec![
            filter(r#"{"removeHeaders":["x-a"]}"#),
            filter(r#"{"setHeaders":{"x-a":"3"}}"#),
            listener(),
        ],
        &HeaderList { fields: vec![field("x-a", "0")] },
        &mut log,
    );
    assert!(matches!(outcome, FilterOutcome::Continue(_)));
    assert_eq!(heard(&log[1])["x-a"], "3");
}

#[test]
fn a_filter_that_fails_open_is_as_one_left_out() {
    let broken = || {
        let wat = format!(
            r#"(module
              (memory (export "memory") 1)
              (func (export "{EXPORT_ALLOC}") (param i32) (result i32) (unreachable))
              (func (export "{EXPORT_ON_REQUEST}") (param i32 i32) (result i64) (i64.const 0))
            )"#
        );
        bound(plugin(&wat, "fail-open: true").expect("the module should load"))
    };
    let sets = || filter(r#"{"setHeaders":{"x-a":"1"}}"#);
    let mut with = Vec::new();
    let mut without = Vec::new();
    let outcomes = [
        chain(vec![sets(), broken(), listener()], &no_headers(), &mut with),
        chain(vec![sets(), listener()], &no_headers(), &mut without),
    ];
    for outcome in outcomes {
        let FilterOutcome::Continue(edits) = outcome else {
            panic!("the request passes");
        };
        assert_eq!(edits.set, [("x-a".to_owned(), "1".to_owned())]);
        assert!(edits.remove.is_empty());
    }
    assert_eq!(with.last(), without.last());
}

#[test]
fn a_long_message_is_cut_at_a_whole_character() {
    // One byte short of the limit stands a letter of two bytes.
    let wat = format!(
        r#"(module
          (import "gillnet" "log" (func $log (param i32 i32)))
          (memory (export "memory") 2)
          (data (i32.const 16) "{{}}")
          (data (i32.const 8192) "{}\c3\a9")
          (func (export "{EXPORT_ALLOC}") (param i32) (result i32) (i32.const 16384))
          (func (export "{EXPORT_ON_REQUEST}") (param i32 i32) (result i64)
            (call $log (i32.const 8192) (i32.const 4097))
            (i64.or (i64.shl (i64.const 16) (i64.const 32)) (i64.const 2)))
        )"#,
        "a".repeat(4095)
    );
    let mut log = Vec::new();
    let filter = bound(plugin(&wat, "{}").expect("the module should load"));
    assert!(matches!(
        chain(vec![filter], &no_headers(), &mut log),
        FilterOutcome::Continue(_)
    ));
    assert_eq!(log.len(), 1);
    assert_eq!(log[0], format!("wasm plugin 'test-plugin': {}", "a".repeat(4095)));
}
