//! The registry: what the gateway routes to, declared in its config or registered by
//! services themselves.

use crate::auth;
use crate::auth::{AuthPolicy, BoundView, PolicyView, RouteGuard};
use crate::clock;
use crate::clock::Clock;
use crate::config::{GatewayConfig, MatchType, PluginConfig, RouteConfig, ServiceConfig};
use crate::json::{Json, JsonView};
use crate::plugins::wasm;
use crate::plugins::wasm::{BindingView, Declaration, DeclarationView, FilterBinding};
use crate::registry::route::{CompiledRoute, CompiledView, Goal, PathMatch, Target};
use crate::strmap;
use crate::strmap::StrMap;
use crate::text;
use crate::yaml;
use std::sync::Arc;
use vstd::prelude::*;
use vstd::string::*;

pub mod describe;
pub mod disclosure;
pub mod laws;
pub mod route;

pub use crate::registry::describe::{
    DescribeFilter, DescribeView, DescribedRoute, DescribedService, GuardView, InstanceView,
    PluginView, RouteView, ServiceView, Source, SummaryView, TargetView,
};

verus! {

/// A service that registers an instance of itself.
pub struct RegistrationRequest {
    pub service: String,
    pub instance_id: String,
    pub url: String,
    pub routes: Vec<RouteSpec>,
}

/// A route a service registers.
pub struct RouteSpec {
    pub paths: Vec<String>,
    pub match_type: MatchType,
    pub strip_path: bool,
    pub plugins: Vec<PluginRequirement>,
}

/// What a service may say about a plugin: which of the gateway's it needs, never a
/// credential or a module of its own.
pub struct PluginRequirement {
    pub name: String,
    pub roles: Vec<String>,
    pub insert_headers: StrMap<String>,
    /// The settings to lay over those of a filter, where the plugin is one.
    pub settings: Option<Json>,
}

/// What an entry of `plugins:` declares: a policy for guards, or the module of a filter.
pub enum Declared {
    Policy(Arc<AuthPolicy>),
    Module(Arc<Declaration>),
}

/// What an entry of `plugins:` comes to.
pub enum DeclaredView {
    Policy(PolicyView),
    Module(DeclarationView),
}

impl View for Declared {
    type V = DeclaredView;

    open spec fn view(&self) -> DeclaredView {
        match self {
            Declared::Policy(p) => DeclaredView::Policy((**p)@),
            Declared::Module(m) => DeclaredView::Module((**m)@),
        }
    }
}

/// The `type:` of an entry.
pub open spec fn declared_kind(d: DeclaredView) -> Seq<char> {
    match d {
        DeclaredView::Policy(p) => auth::policy_kind_spec(p),
        DeclaredView::Module(_) => wasm::KIND@,
    }
}

/// What an entry of `plugins:` comes to, or the first thing wrong with it.
pub open spec fn entry_spec(plugin: PluginConfig, env: Map<Seq<char>, String>) -> Result<
    DeclaredView,
    Seq<char>,
> {
    if plugin.plugin_id@ == wasm::KIND@ {
        match wasm::declaration_spec(yaml::block_view(plugin.params), env) {
            Ok(m) => Ok(DeclaredView::Module(m)),
            Err(e) => Err(e),
        }
    } else {
        match auth::policy_spec(
            plugin.plugin_id@,
            plugin.name@,
            yaml::block_view(plugin.params),
            env,
        ) {
            Ok(p) => Ok(DeclaredView::Policy(p)),
            Err(e) => Err(e),
        }
    }
}

impl Declared {
    /// Reads an entry of `plugins:`.
    pub fn from_config(plugin: &PluginConfig, env: &StrMap<String>) -> (r: Result<Self, String>)
        ensures
            (match r {
                Ok(d) => Ok(d@),
                Err(e) => Err(e@),
            }) == entry_spec(*plugin, env@),
            r matches Ok(Declared::Policy(p)) ==> (*p matches AuthPolicy::Testing(t) ==> t.overrides@
                == Map::<Seq<char>, Map<Seq<char>, JsonView>>::empty()),
    {
        if text::same(plugin.plugin_id.as_str(), wasm::KIND) {
            match wasm::declare(plugin, env) {
                Ok(m) => Ok(Declared::Module(Arc::new(m))),
                Err(e) => Err(e),
            }
        } else {
            match AuthPolicy::from_config(plugin, env) {
                Ok(p) => Ok(Declared::Policy(Arc::new(p))),
                Err(e) => Err(e),
            }
        }
    }

    /// Another handle on the same entry.
    pub fn share(&self) -> (r: Self)
        ensures
            r == *self,
    {
        match self {
            Declared::Policy(p) => Declared::Policy(p.clone()),
            Declared::Module(m) => Declared::Module(m.clone()),
        }
    }

    /// The `type:` of the entry.
    pub fn kind(&self) -> (r: &'static str)
        ensures
            r@ == declared_kind(self@),
    {
        match self {
            Declared::Policy(p) => p.kind(),
            Declared::Module(_) => wasm::KIND,
        }
    }
}

/// Why a registration was refused.
pub enum RegistrationError {
    Invalid(String),
    Conflict(String),
}

/// One running instance of a service, and when it last said so.
pub struct RegisteredInstance {
    pub url: String,
    pub last_heartbeat: u128,
}

/// A service that registered itself: its routes, its instances, and whose turn is next.
pub struct RegisteredService {
    pub routes: Vec<CompiledRoute>,
    pub instances: StrMap<RegisteredInstance>,
    pub cursor: usize,
}

/// What the gateway routes to.
pub struct Registry {
    pub static_routes: Vec<CompiledRoute>,
    pub static_services: StrMap<String>,
    /// What the entries of `plugins:` declare, by name.
    pub catalog: StrMap<Declared>,
    pub services: StrMap<RegisteredService>,
    /// How long an instance lives without a heartbeat, in seconds.
    pub ttl: u64,
    pub userinfo_overrides: bool,
    pub clock: Clock,
}

/// What the entries of a catalog come to.
pub open spec fn catalog_view(m: Map<Seq<char>, Declared>) -> Map<Seq<char>, DeclaredView> {
    m.map_values(|d: Declared| d@)
}

/// The URLs of some services.
pub open spec fn urls_view(m: Map<Seq<char>, String>) -> Map<Seq<char>, Seq<char>> {
    m.map_values(|url: String| url@)
}

/// The complaint about a name that is declared twice.
pub open spec fn twice(what: Seq<char>, name: Seq<char>) -> Seq<char> {
    "A "@ + what + " named '"@ + name + "' is declared twice in the declarative configuration!"@
}

/// Writes the complaint about a name that is declared twice.
fn declared_twice(what: &str, name: &str) -> (r: String)
    ensures
        r@ == twice(what@, name@),
{
    text::cat5(
        "A ",
        what,
        " named '",
        name,
        "' is declared twice in the declarative configuration!",
    )
}

/// The complaint about an entry that cannot be used.
pub open spec fn invalid(what: Seq<char>, name: Seq<char>, why: Seq<char>) -> Seq<char> {
    "Invalid "@ + what + " '"@ + name + "': "@ + why
}

/// Writes the complaint about an entry that cannot be used.
fn cannot_use(what: &str, name: &str, why: &str) -> (r: String)
    ensures
        r@ == invalid(what@, name@, why@),
{
    let mut out = text::cat5("Invalid ", what, " '", name, "': ");
    out.append(why);
    out
}

/// What the entries of a config declare, by name, or the first thing wrong with them.
pub open spec fn catalog_spec(
    list: Seq<PluginConfig>,
    env: Map<Seq<char>, String>,
) -> Result<Map<Seq<char>, DeclaredView>, Seq<char>>
    decreases list.len(),
{
    if list.len() == 0 {
        Ok(Map::empty())
    } else {
        match catalog_spec(list.drop_last(), env) {
            Err(e) => Err(e),
            Ok(front) => {
                let plugin = list.last();
                match entry_spec(plugin, env) {
                    Err(e) => Err(invalid("plugin"@, plugin.name@, e)),
                    Ok(made) => if front.contains_key(plugin.name@) {
                        Err(twice("plugin"@, plugin.name@))
                    } else {
                        Ok(front.insert(plugin.name@, made))
                    },
                }
            },
        }
    }
}

/// Where the front of a list has an error, the whole list has the same one.
proof fn lemma_catalog_error(list: Seq<PluginConfig>, n: int, env: Map<Seq<char>, String>)
    requires
        0 <= n <= list.len(),
        catalog_spec(list.take(n), env) is Err,
    ensures
        catalog_spec(list, env) == catalog_spec(list.take(n), env),
    decreases list.len(),
{
    if n == list.len() {
        assert(list.take(n) =~= list);
    } else {
        assert(list.drop_last().take(n) =~= list.take(n));
        lemma_catalog_error(list.drop_last(), n, env);
    }
}

/// Builds what the entries of a config declare.
fn build_catalog(list: &Vec<PluginConfig>, env: &StrMap<String>) -> (r: Result<
    StrMap<Declared>,
    String,
>)
    ensures
        (match r {
            Ok(m) => Ok(catalog_view(m@)),
            Err(e) => Err(e@),
        }) == catalog_spec(list@, env@),
{
    let mut out: StrMap<Declared> = StrMap::new();
    let mut i: usize = 0;
    proof {
        assert(list@.take(0) =~= Seq::empty());
        assert(catalog_view(out@) =~= Map::empty());
    }
    while i < list.len()
        invariant
            i <= list@.len(),
            catalog_spec(list@.take(i as int), env@) == Ok::<
                Map<Seq<char>, DeclaredView>,
                Seq<char>,
            >(catalog_view(out@)),
        decreases list@.len() - i,
    {
        let plugin = &list[i];
        proof {
            assert(list@.take(i + 1).drop_last() =~= list@.take(i as int));
            assert(list@.take(i + 1).last() == list@[i as int]);
        }
        match Declared::from_config(plugin, env) {
            Ok(made) => {
                if out.contains_key(plugin.name.as_str()) {
                    proof {
                        lemma_catalog_error(list@, i + 1, env@);
                    }
                    return Err(declared_twice("plugin", plugin.name.as_str()));
                }
                let ghost front = catalog_view(out@);
                let ghost said = made@;
                out.insert(plugin.name.clone(), made);
                proof {
                    assert(catalog_view(out@) =~= front.insert(plugin.name@, said));
                }
            },
            Err(e) => {
                proof {
                    lemma_catalog_error(list@, i + 1, env@);
                }
                return Err(cannot_use("plugin", plugin.name.as_str(), e.as_str()));
            },
        }
        i = i + 1;
    }
    proof {
        assert(list@.take(i as int) =~= list@);
    }
    Ok(out)
}

/// The services that a config declares, by name, or the first name that is declared
/// twice.
pub open spec fn services_spec(list: Seq<ServiceConfig>) -> Result<
    Map<Seq<char>, Seq<char>>,
    Seq<char>,
>
    decreases list.len(),
{
    if list.len() == 0 {
        Ok(Map::empty())
    } else {
        match services_spec(list.drop_last()) {
            Err(e) => Err(e),
            Ok(front) => if front.contains_key(list.last().name@) {
                Err(twice("service"@, list.last().name@))
            } else {
                Ok(front.insert(list.last().name@, list.last().url@))
            },
        }
    }
}

/// Where the front of a list has an error, the whole list has the same one.
proof fn lemma_services_error(list: Seq<ServiceConfig>, n: int)
    requires
        0 <= n <= list.len(),
        services_spec(list.take(n)) is Err,
    ensures
        services_spec(list) == services_spec(list.take(n)),
    decreases list.len(),
{
    if n == list.len() {
        assert(list.take(n) =~= list);
    } else {
        assert(list.drop_last().take(n) =~= list.take(n));
        lemma_services_error(list.drop_last(), n);
    }
}

/// Gathers the services that a config declares.
fn gather_services(list: &Vec<ServiceConfig>) -> (r: Result<StrMap<String>, String>)
    ensures
        (match r {
            Ok(m) => Ok(urls_view(m@)),
            Err(e) => Err(e@),
        }) == services_spec(list@),
{
    let mut out: StrMap<String> = StrMap::new();
    let mut i: usize = 0;
    proof {
        assert(list@.take(0) =~= Seq::empty());
        assert(urls_view(out@) =~= Map::empty());
    }
    while i < list.len()
        invariant
            i <= list@.len(),
            services_spec(list@.take(i as int)) == Ok::<Map<Seq<char>, Seq<char>>, Seq<char>>(
                urls_view(out@),
            ),
        decreases list@.len() - i,
    {
        let service = &list[i];
        proof {
            assert(list@.take(i + 1).drop_last() =~= list@.take(i as int));
            assert(list@.take(i + 1).last() == list@[i as int]);
        }
        if out.contains_key(service.name.as_str()) {
            proof {
                lemma_services_error(list@, i + 1);
            }
            return Err(declared_twice("service", service.name.as_str()));
        }
        let ghost front = urls_view(out@);
        out.insert(service.name.clone(), service.url.clone());
        proof {
            assert(urls_view(out@) =~= front.insert(service.name@, service.url@));
        }
        i = i + 1;
    }
    proof {
        assert(list@.take(i as int) =~= list@);
    }
    Ok(out)
}

/// The names of some routes.
pub open spec fn names_of(list: Seq<RouteConfig>) -> Seq<Seq<char>> {
    list.map_values(|r: RouteConfig| r.name@)
}

/// The route at a place in a config: its name must be new, and it must compile.
pub open spec fn declared_route(
    list: Seq<RouteConfig>,
    i: int,
    catalog: Map<Seq<char>, Declared>,
    env: Map<Seq<char>, String>,
) -> Result<CompiledView, Seq<char>> {
    let config = list[i];
    if names_of(list).take(i).contains(config.name@) {
        Err(twice("route"@, config.name@))
    } else {
        match route::config_route_spec(config, catalog, env) {
            Ok(compiled) => Ok(compiled),
            Err(e) => Err(invalid("route"@, config.name@, e)),
        }
    }
}

/// The routes that a config declares, or the first thing wrong with them.
pub open spec fn routes_spec(
    list: Seq<RouteConfig>,
    catalog: Map<Seq<char>, Declared>,
    env: Map<Seq<char>, String>,
) -> Result<Seq<CompiledView>, Seq<char>> {
    route::collected(
        Seq::new(list.len(), |i: int| declared_route(list, i, catalog, env)),
    )
}

/// Compiles the routes that a config declares.
fn compile_routes(
    list: &Vec<RouteConfig>,
    catalog: &StrMap<Declared>,
    env: &StrMap<String>,
) -> (r: Result<Vec<CompiledRoute>, String>)
    ensures
        (match r {
            Ok(v) => Ok(route::routes_view(v@)),
            Err(e) => Err(e@),
        }) == routes_spec(list@, catalog@, env@),
{
    let ghost all = Seq::new(
        list@.len(),
        |i: int| declared_route(list@, i, catalog@, env@),
    );
    let mut seen: Vec<String> = Vec::new();
    let mut out: Vec<CompiledRoute> = Vec::new();
    let mut i: usize = 0;
    proof {
        assert(all.take(0) =~= Seq::empty());
        assert(route::routes_view(out@) =~= Seq::empty());
        assert(text::texts(seen@) =~= names_of(list@).take(0));
    }
    while i < list.len()
        invariant
            i <= list@.len(),
            all == Seq::new(
                list@.len(),
                |i: int| declared_route(list@, i, catalog@, env@),
            ),
            text::texts(seen@) == names_of(list@).take(i as int),
            route::collected(all.take(i as int)) == Ok::<Seq<CompiledView>, Seq<char>>(
                route::routes_view(out@),
            ),
        decreases list@.len() - i,
    {
        let config = &list[i];
        proof {
            assert(all.take(i + 1).drop_last() =~= all.take(i as int));
            assert(all.take(i + 1).last() == declared_route(list@, i as int, catalog@, env@));
        }
        if text::contains_text(&seen, config.name.as_str()) {
            proof {
                route::lemma_collected_error(all, i + 1);
            }
            return Err(declared_twice("route", config.name.as_str()));
        }
        let ghost names = text::texts(seen@);
        seen.push(config.name.clone());
        proof {
            assert(text::texts(seen@) =~= names.push(config.name@));
            assert(names_of(list@).take(i + 1) =~= names_of(list@).take(i as int).push(
                config.name@,
            ));
        }
        match CompiledRoute::from_config(config, catalog, env) {
            Ok(compiled) => {
                let ghost front = route::routes_view(out@);
                out.push(compiled);
                proof {
                    assert(route::routes_view(out@) =~= front.push(compiled@));
                }
            },
            Err(e) => {
                proof {
                    route::lemma_collected_error(all, i + 1);
                }
                return Err(cannot_use("route", config.name.as_str(), e.as_str()));
            },
        }
        i = i + 1;
    }
    proof {
        assert(all.take(i as int) =~= all);
    }
    Ok(out)
}

/// The entries of an optional list.
pub open spec fn entries_of<T>(list: Option<Vec<T>>) -> Seq<T> {
    match list {
        Some(v) => v@,
        None => Seq::empty(),
    }
}

/// Whether a registry is the one a config declares, once its catalog stands.
pub open spec fn declared(
    config: GatewayConfig,
    env: Map<Seq<char>, String>,
    catalog: Map<Seq<char>, Declared>,
    urls: Map<Seq<char>, Seq<char>>,
    r: Result<Registry, String>,
) -> bool {
    match routes_spec(config.routes@, catalog, env) {
        Err(e) => r matches Err(m) && m@ == e,
        Ok(routes) => r matches Ok(registry) && route::routes_view(registry.static_routes@)
            == routes && urls_view(registry.static_services@) == urls && registry.catalog@
            == catalog && registry.services@ == Map::<Seq<char>, RegisteredService>::empty()
            && registry.ttl == config.registration.heartbeat_ttl_seconds
            && registry.userinfo_overrides == config.testing.userinfo_overrides,
    }
}

/// Whether a registry is the one a config declares with a catalog made of these parts.
pub open spec fn declared_with(
    config: GatewayConfig,
    env: Map<Seq<char>, String>,
    made: Map<Seq<char>, DeclaredView>,
    urls: Map<Seq<char>, Seq<char>>,
    r: Result<Registry, String>,
) -> bool {
    exists|catalog: Map<Seq<char>, Declared>|
        #![trigger declared(config, env, catalog, urls, r)]
        catalog_view(catalog) == made && declared(config, env, catalog, urls, r)
}

/// Whether a registry is the one a config declares, or the error the first thing wrong
/// with it: plugins before services, and services before routes.
pub open spec fn configured(
    config: GatewayConfig,
    env: Map<Seq<char>, String>,
    r: Result<Registry, String>,
) -> bool {
    match catalog_spec(entries_of(config.plugins), env) {
        Err(e) => r matches Err(m) && m@ == e,
        Ok(made) => match services_spec(entries_of(config.services)) {
            Err(e) => r matches Err(m) && m@ == e,
            Ok(urls) => declared_with(config, env, made, urls, r),
        },
    }
}

/// The routes of registered services, service by service in the order of their names.
pub open spec fn dynamic_routes(e: Seq<(String, RegisteredService)>) -> Seq<CompiledView>
    decreases e.len(),
{
    if e.len() == 0 {
        Seq::empty()
    } else {
        dynamic_routes(e.drop_last()) + route::routes_view(e.last().1.routes@)
    }
}

/// The route a path takes, how it matches, and where the route was declared: a declared
/// route before any that a service registered.
pub open spec fn chosen(
    fixed: Seq<CompiledView>,
    dynamic: Seq<CompiledView>,
    path: Seq<char>,
) -> Option<(CompiledView, Seq<char>)> {
    match route::best_place(route::matches_of(fixed, path)) {
        Some(at) => Some((fixed[at], "static"@)),
        None => match route::best_place(route::matches_of(dynamic, path)) {
            Some(at) => Some((dynamic[at], "dynamic"@)),
            None => None,
        },
    }
}

/// The instance whose turn it is.
pub open spec fn picked(services: Map<Seq<char>, RegisteredService>, service: Seq<char>) -> Option<
    (Seq<char>, Seq<char>),
> {
    if !services.contains_key(service) {
        None
    } else {
        let s = services[service];
        let e = s.instances.entries();
        if e.len() == 0 {
            None
        } else {
            let at = s.cursor as int % e.len() as int;
            Some((e[at].0@, e[at].1.url@))
        }
    }
}

/// The services once a turn was taken at one of them.
pub open spec fn turned(services: Map<Seq<char>, RegisteredService>, service: Seq<char>) -> Map<
    Seq<char>,
    RegisteredService,
> {
    if services.contains_key(service) {
        services.insert(
            service,
            RegisteredService {
                routes: services[service].routes,
                instances: services[service].instances,
                cursor: services[service].cursor.wrapping_add(1),
            },
        )
    } else {
        services
    }
}

/// Where a request is sent.
pub struct Resolved {
    pub route: String,
    pub source: &'static str,
    pub service: Option<String>,
    pub instance: Option<String>,
    pub target_url: String,
    /// Whether the credential the caller presented is relayed upstream.
    pub forward_token: bool,
    pub guards: Vec<RouteGuard>,
    /// The filters of the route, which run after its guards.
    pub filters: Vec<FilterBinding>,
}

/// What becomes of a request path.
pub enum Resolution {
    Resolved(Resolved),
    NoInstances { route: String, service: String },
    NotFound,
}

/// What becomes of a request path.
pub enum ResolutionView {
    Resolved {
        route: Seq<char>,
        source: Seq<char>,
        service: Option<Seq<char>>,
        instance: Option<Seq<char>>,
        target_url: Seq<char>,
        forward_token: bool,
        guards: Seq<BoundView>,
        filters: Seq<BindingView>,
    },
    NoInstances { route: Seq<char>, wanted: Seq<char> },
    NotFound,
}

impl View for Resolution {
    type V = ResolutionView;

    open spec fn view(&self) -> ResolutionView {
        match self {
            Resolution::Resolved(r) => ResolutionView::Resolved {
                route: r.route@,
                source: r.source@,
                service: text::opt_of(r.service),
                instance: text::opt_of(r.instance),
                target_url: r.target_url@,
                forward_token: r.forward_token,
                guards: auth::guards_view(r.guards@),
                filters: wasm::bindings_view(r.filters@),
            },
            Resolution::NoInstances { route, service } => ResolutionView::NoInstances {
                route: route@,
                wanted: service@,
            },
            Resolution::NotFound => ResolutionView::NotFound,
        }
    }
}

/// The path a route sends upstream.
pub open spec fn upstream_path(r: CompiledView, path: Seq<char>) -> Seq<char> {
    if r.strip_path {
        route::stripped(path, route::route_match(r.patterns, path)->Some_0.matched_len as int)
    } else {
        path
    }
}

/// A base URL with a path behind it.
pub open spec fn joined(base: Seq<char>, path: Seq<char>) -> Seq<char> {
    text::trim_end_char_spec(base, '/') + path
}

/// Where a request that takes a route is sent: to the route's URL, to the URL declared
/// for its service, or to the instance of the service whose turn it is.
pub open spec fn sent(
    r: CompiledView,
    source: Seq<char>,
    path: Seq<char>,
    urls: Map<Seq<char>, Seq<char>>,
    services: Map<Seq<char>, RegisteredService>,
) -> ResolutionView {
    let (service, instance, base) = match r.target {
        Goal::Url(url) => (None, None, Some(url)),
        Goal::Service(name) => if urls.contains_key(name) {
            (Some(name), None, Some(urls[name]))
        } else {
            match picked(services, name) {
                Some((id, url)) => (Some(name), Some(id), Some(url)),
                None => (Some(name), None, None),
            }
        },
    };
    match base {
        Some(base) => ResolutionView::Resolved {
            route: r.name,
            source,
            service,
            instance,
            target_url: joined(base, upstream_path(r, path)),
            forward_token: r.forward_token,
            guards: r.guards,
            filters: r.filters,
        },
        None => ResolutionView::NoInstances { route: r.name, wanted: service->Some_0 },
    }
}

/// Whether a route asks for a turn at a registered service.
pub open spec fn takes_turn(r: CompiledView, urls: Map<Seq<char>, Seq<char>>) -> bool {
    r.target matches Goal::Service(name) && !urls.contains_key(name)
}

/// What is left to do for a request once its route is known.
struct Plan {
    route: String,
    target: Target,
    upstream_path: String,
    forward_token: bool,
    guards: Vec<RouteGuard>,
    filters: Vec<FilterBinding>,
}

/// Copies some bindings.
fn copy_bindings(v: &Vec<FilterBinding>) -> (r: Vec<FilterBinding>)
    ensures
        wasm::bindings_view(r@) == wasm::bindings_view(v@),
{
    let mut out: Vec<FilterBinding> = Vec::new();
    let mut i: usize = 0;
    while i < v.len()
        invariant
            i <= v@.len(),
            out@.len() == i,
            forall|k: int| 0 <= k < i ==> (#[trigger] out@[k])@ == v@[k]@,
        decreases v@.len() - i,
    {
        out.push(v[i].copy());
        i = i + 1;
    }
    proof {
        assert(wasm::bindings_view(out@) =~= wasm::bindings_view(v@));
    }
    out
}

/// Copies some guards.
fn copy_guards(v: &Vec<RouteGuard>) -> (r: Vec<RouteGuard>)
    ensures
        auth::guards_view(r@) == auth::guards_view(v@),
{
    let mut out: Vec<RouteGuard> = Vec::new();
    let mut i: usize = 0;
    while i < v.len()
        invariant
            i <= v@.len(),
            out@.len() == i,
            forall|k: int| 0 <= k < i ==> (#[trigger] out@[k])@ == v@[k]@,
        decreases v@.len() - i,
    {
        out.push(v[i].copy());
        i = i + 1;
    }
    proof {
        assert(auth::guards_view(out@) =~= auth::guards_view(v@));
    }
    out
}

/// What is left to do for a request that takes a route.
fn plan(route: &CompiledRoute, matched: PathMatch, path: &str) -> (r: Plan)
    requires
        route::route_match(route@.patterns, path@) == Some(matched),
        route::clean(matched, path@),
    ensures
        r.route@ == route@.name,
        r.target@ == route@.target,
        r.upstream_path@ == upstream_path(route@, path@),
        r.forward_token == route@.forward_token,
        auth::guards_view(r.guards@) == route@.guards,
        wasm::bindings_view(r.filters@) == route@.filters,
{
    let upstream_path = if route.strip_path {
        route::strip_prefix(path, matched.matched_len)
    } else {
        path.to_owned()
    };
    let target = match &route.target {
        Target::Url(url) => Target::Url(url.clone()),
        Target::Service(name) => Target::Service(name.clone()),
    };
    Plan {
        route: route.name.clone(),
        target,
        upstream_path,
        forward_token: route.forward_token,
        guards: copy_guards(&route.guards),
        filters: copy_bindings(&route.filters),
    }
}

/// The services once a registration is accepted at a moment.
pub open spec fn registered(
    before: Map<Seq<char>, RegisteredService>,
    request: RegistrationRequest,
    routes: Seq<CompiledView>,
    now: u128,
    after: Map<Seq<char>, RegisteredService>,
) -> bool {
    let name = request.service@;
    let made = after[name];
    &&& after == before.insert(name, made)
    &&& made.instances@ == (if before.contains_key(name) {
        before[name].instances@
    } else {
        Map::empty()
    }).insert(request.instance_id@, RegisteredInstance { url: request.url, last_heartbeat: now })
    &&& made.cursor == (if before.contains_key(name) {
        before[name].cursor
    } else {
        0
    })
    &&& route::routes_view(made.routes@) == (if routes.len() > 0 || !before.contains_key(name) {
        routes
    } else {
        route::routes_view(before[name].routes@)
    })
}

/// Why a registration is refused, where it is, or the routes it declares.
pub enum Registration {
    Invalid(Seq<char>),
    Conflict(Seq<char>),
    Routes(Seq<CompiledView>),
}

/// What a registration comes to: its names must say something, its URL must be one, its
/// service must not be declared in the config, and its routes must compile.
pub open spec fn registration_spec(
    request: RegistrationRequest,
    urls: Map<Seq<char>, String>,
    catalog: Map<Seq<char>, Declared>,
) -> Registration {
    if text::trim_spec(request.service@).len() == 0 {
        Registration::Invalid("service must not be empty"@)
    } else if text::trim_spec(request.instance_id@).len() == 0 {
        Registration::Invalid("instanceId must not be empty"@)
    } else if !route::is_url(request.url@) {
        Registration::Invalid("url must start with http:// or https://"@)
    } else if urls.contains_key(request.service@) {
        Registration::Conflict(
            "service '"@ + request.service@
                + "' is statically defined in the gateway config and cannot self-register"@,
        )
    } else {
        match route::collected(
            Seq::new(
                request.routes@.len(),
                |i: int|
                    route::registered_route_spec(
                        request.service@,
                        i as nat,
                        request.routes@[i],
                        catalog,
                    ),
            ),
        ) {
            Ok(routes) => Registration::Routes(routes),
            Err(e) => Registration::Invalid(e),
        }
    }
}

/// Compiles the routes a service registers.
fn compile_specs(
    service: &str,
    specs: &Vec<RouteSpec>,
    catalog: &StrMap<Declared>,
) -> (r: Result<Vec<CompiledRoute>, String>)
    ensures
        (match r {
            Ok(v) => Ok(route::routes_view(v@)),
            Err(e) => Err(e@),
        }) == route::collected(
            Seq::new(
                specs@.len(),
                |i: int|
                    route::registered_route_spec(service@, i as nat, specs@[i], catalog@),
            ),
        ),
{
    let ghost all = Seq::new(
        specs@.len(),
        |i: int| route::registered_route_spec(service@, i as nat, specs@[i], catalog@),
    );
    let mut out: Vec<CompiledRoute> = Vec::new();
    let mut i: usize = 0;
    proof {
        assert(all.take(0) =~= Seq::empty());
        assert(route::routes_view(out@) =~= Seq::empty());
    }
    while i < specs.len()
        invariant
            i <= specs@.len(),
            all == Seq::new(
                specs@.len(),
                |i: int| route::registered_route_spec(service@, i as nat, specs@[i], catalog@),
            ),
            route::collected(all.take(i as int)) == Ok::<Seq<CompiledView>, Seq<char>>(
                route::routes_view(out@),
            ),
        decreases specs@.len() - i,
    {
        proof {
            assert(all.take(i + 1).drop_last() =~= all.take(i as int));
            assert(all.take(i + 1).last() == route::registered_route_spec(
                service@,
                i as nat,
                specs@[i as int],
                catalog@,
            ));
        }
        match CompiledRoute::from_spec(service, i, &specs[i], catalog) {
            Ok(compiled) => {
                let ghost front = route::routes_view(out@);
                out.push(compiled);
                proof {
                    assert(route::routes_view(out@) =~= front.push(compiled@));
                }
            },
            Err(e) => {
                proof {
                    route::lemma_collected_error(all, i + 1);
                }
                return Err(e);
            },
        }
        i = i + 1;
    }
    proof {
        assert(all.take(i as int) =~= all);
    }
    Ok(out)
}

/// Tests whether a text is nothing but white space.
fn is_blank(s: &str) -> (r: bool)
    ensures
        r == (text::trim_spec(s@).len() == 0),
{
    text::trim(s).is_empty()
}

/// The services once an instance said it is alive.
pub open spec fn beaten(
    before: Map<Seq<char>, RegisteredService>,
    service: Seq<char>,
    instance_id: Seq<char>,
    now: u128,
    after: Map<Seq<char>, RegisteredService>,
) -> bool {
    let made = after[service];
    let was = before[service];
    &&& after == before.insert(service, made)
    &&& made.routes == was.routes
    &&& made.cursor == was.cursor
    &&& made.instances@ == was.instances@.insert(
        instance_id,
        RegisteredInstance { url: was.instances@[instance_id].url, last_heartbeat: now },
    )
}

/// The services once an instance is gone: a service goes with its last.
pub open spec fn left(
    before: Map<Seq<char>, RegisteredService>,
    service: Seq<char>,
    instance_id: Seq<char>,
    after: Map<Seq<char>, RegisteredService>,
) -> bool {
    let was = before[service];
    let rest = was.instances@.remove(instance_id);
    if rest.dom().is_empty() {
        after == before.remove(service)
    } else {
        &&& after == before.insert(service, after[service])
        &&& after[service].routes == was.routes
        &&& after[service].cursor == was.cursor
        &&& after[service].instances@ == rest
    }
}

/// Whether an instance is known.
pub open spec fn known(
    services: Map<Seq<char>, RegisteredService>,
    service: Seq<char>,
    instance_id: Seq<char>,
) -> bool {
    services.contains_key(service) && services[service].instances@.contains_key(instance_id)
}

/// Whether an instance is alive at a moment.
pub open spec fn alive(i: RegisteredInstance, ttl: u64, now: u128) -> bool {
    now - i.last_heartbeat <= ttl * clock::SECOND
}

/// The instances that are alive at a moment.
pub open spec fn living(m: Map<Seq<char>, RegisteredInstance>, ttl: u64, now: u128) -> Map<
    Seq<char>,
    RegisteredInstance,
> {
    Map::new(
        |k: Seq<char>| m.contains_key(k) && alive(m[k], ttl, now),
        |k: Seq<char>| m[k],
    )
}

/// The instances of a service that are dead at a moment, in the order of their ids.
pub open spec fn dead_ids(
    service: Seq<char>,
    e: Seq<(String, RegisteredInstance)>,
    ttl: u64,
    now: u128,
) -> Seq<(Seq<char>, Seq<char>)>
    decreases e.len(),
{
    if e.len() == 0 {
        Seq::empty()
    } else if alive(e.last().1, ttl, now) {
        dead_ids(service, e.drop_last(), ttl, now)
    } else {
        dead_ids(service, e.drop_last(), ttl, now).push((service, e.last().0@))
    }
}

/// The dead instances of some services, in the order of the services' names.
pub open spec fn all_dead(e: Seq<(String, RegisteredService)>, ttl: u64, now: u128) -> Seq<
    (Seq<char>, Seq<char>),
>
    decreases e.len(),
{
    if e.len() == 0 {
        Seq::empty()
    } else {
        all_dead(e.drop_last(), ttl, now) + dead_ids(
            e.last().0@,
            e.last().1.instances.entries(),
            ttl,
            now,
        )
    }
}

/// The services once the dead are gone: a service stays while an instance of it lives.
pub open spec fn reaped(
    before: Map<Seq<char>, RegisteredService>,
    ttl: u64,
    now: u128,
    after: Map<Seq<char>, RegisteredService>,
) -> bool {
    &&& forall|s: Seq<char>| #[trigger]
        after.contains_key(s) <==> before.contains_key(s) && !living(
            before[s].instances@,
            ttl,
            now,
        ).dom().is_empty()
    &&& forall|s: Seq<char>| #[trigger]
        after.contains_key(s) ==> after[s].routes == before[s].routes && after[s].cursor
            == before[s].cursor && after[s].instances@ == living(before[s].instances@, ttl, now)
}

/// Whether the registered services are sound: none is declared in the config, and each
/// has an instance.
pub open spec fn sound(
    services: Map<Seq<char>, RegisteredService>,
    urls: Map<Seq<char>, String>,
) -> bool {
    forall|s: Seq<char>| #[trigger]
        services.contains_key(s) ==> !urls.contains_key(s)
            && !services[s].instances@.dom().is_empty()
}

/// What becomes of a registry once an instance was to be taken out: one that is not known
/// changes nothing, where every service has an instance.
pub open spec fn deregistered(
    before: Registry,
    service: Seq<char>,
    instance_id: Seq<char>,
    after: Registry,
) -> bool {
    &&& same_rest(after, before)
    &&& if before.services@.contains_key(service) {
        left(before.services@, service, instance_id, after.services@)
    } else {
        after.services@ == before.services@
    }
    &&& before.wf() && !known(before.services@, service, instance_id) ==> after.services@
        == before.services@
}

/// Whether the rest of a registry is as it was.
pub open spec fn same_rest(a: Registry, b: Registry) -> bool {
    &&& a.static_routes == b.static_routes
    &&& a.static_services == b.static_services
    &&& a.catalog == b.catalog
    &&& a.ttl == b.ttl
    &&& a.userinfo_overrides == b.userinfo_overrides
    &&& a.clock == b.clock
}

impl Registry {
    /// What holds of a registry from the start and through everything that happens to it:
    /// its registered services are sound.
    pub open spec fn wf(self) -> bool {
        sound(self.services@, self.static_services@)
    }

    /// Builds the registry a config declares. What is wrong with a config ends the
    /// start of the gateway.
    pub fn from_config(config: &GatewayConfig, env: &StrMap<String>) -> (r: Result<Self, String>)
        ensures
            configured(*config, env@, r),
            r matches Ok(registry) ==> registry.wf(),
    {
        let no_plugins: Vec<PluginConfig> = Vec::new();
        let plugins = match &config.plugins {
            Some(list) => list,
            None => &no_plugins,
        };
        let catalog = match build_catalog(plugins, env) {
            Ok(catalog) => catalog,
            Err(e) => {
                return Err(e);
            },
        };
        let no_services: Vec<ServiceConfig> = Vec::new();
        let services = match &config.services {
            Some(list) => list,
            None => &no_services,
        };
        let static_services = match gather_services(services) {
            Ok(static_services) => static_services,
            Err(e) => {
                return Err(e);
            },
        };
        let ghost made = catalog@;
        let ghost urls = urls_view(static_services@);
        let r = match compile_routes(&config.routes, &catalog, env) {
            Ok(static_routes) => Ok(
                Registry {
                    static_routes,
                    static_services,
                    catalog,
                    services: StrMap::new(),
                    ttl: config.registration.heartbeat_ttl_seconds,
                    userinfo_overrides: config.testing.userinfo_overrides,
                    clock: Clock::new(),
                },
            ),
            Err(e) => Err(e),
        };
        proof {
            assert(declared(*config, env@, made, urls, r));
            assert(declared_with(*config, env@, catalog_view(made), urls, r));
        }
        r
    }

    /// How long an instance lives without a heartbeat, in seconds.
    pub fn ttl_seconds(&self) -> (r: u64)
        ensures
            r == self.ttl,
    {
        self.ttl
    }

    /// Registers an instance of a service at a moment, with the routes it declares; a
    /// request without routes leaves those of the service as they are.
    pub fn register_at(&mut self, request: RegistrationRequest, now: u128) -> (r: Result<
        (),
        RegistrationError,
    >)
        ensures
            same_rest(*final(self), *old(self)),
            match registration_spec(request, old(self).static_services@, old(self).catalog@) {
                Registration::Invalid(e) => (r matches Err(RegistrationError::Invalid(m)) && m@
                    == e) && final(self).services@ == old(self).services@,
                Registration::Conflict(e) => (r matches Err(RegistrationError::Conflict(m)) && m@
                    == e) && final(self).services@ == old(self).services@,
                Registration::Routes(routes) => r is Ok && registered(
                    old(self).services@,
                    request,
                    routes,
                    now,
                    final(self).services@,
                ),
            },
            r is Ok ==> known(final(self).services@, request.service@, request.instance_id@) && ({
                let made = final(self).services@[request.service@].instances@[request.instance_id@];
                made.url@ == request.url@ && made.last_heartbeat == now
            }),
            old(self).wf() ==> final(self).wf(),
    {
        if is_blank(request.service.as_str()) {
            return Err(RegistrationError::Invalid("service must not be empty".to_owned()));
        }
        if is_blank(request.instance_id.as_str()) {
            return Err(RegistrationError::Invalid("instanceId must not be empty".to_owned()));
        }
        if !text::starts_with(request.url.as_str(), "http://") && !text::starts_with(
            request.url.as_str(),
            "https://",
        ) {
            return Err(
                RegistrationError::Invalid("url must start with http:// or https://".to_owned()),
            );
        }
        if self.static_services.contains_key(request.service.as_str()) {
            return Err(
                RegistrationError::Conflict(
                    text::cat3(
                        "service '",
                        request.service.as_str(),
                        "' is statically defined in the gateway config and cannot self-register",
                    ),
                ),
            );
        }
        let routes = match compile_specs(
            request.service.as_str(),
            &request.routes,
            &self.catalog,
        ) {
            Ok(routes) => routes,
            Err(e) => {
                return Err(RegistrationError::Invalid(e));
            },
        };
        let ghost compiled = route::routes_view(routes@);
        let ghost name = request.service@;
        let mut entry = match self.services.remove(request.service.as_str()) {
            Some(entry) => entry,
            None => {
                let none: Vec<CompiledRoute> = Vec::new();
                proof {
                    assert(route::routes_view(none@) =~= Seq::empty());
                }
                RegisteredService { routes: none, instances: StrMap::new(), cursor: 0 }
            },
        };
        let ghost was = entry;
        if routes.len() > 0 {
            entry.routes = routes;
        }
        proof {
            assert(compiled.len() == routes@.len());
            if compiled.len() == 0 {
                assert(compiled =~= Seq::empty());
            }
        }
        entry.instances.insert(
            request.instance_id,
            RegisteredInstance { url: request.url, last_heartbeat: now },
        );
        let ghost made = entry;
        let ghost asked = request;
        self.services.insert(request.service, entry);
        proof {
            assert(self.services@ =~= old(self).services@.insert(name, made));
            if old(self).wf() {
                laws::law_registering_makes_an_instance_known(
                    old(self).services@,
                    asked,
                    self.static_services@,
                    self.catalog@,
                    now,
                    self.services@,
                    name,
                    name,
                );
            }
        }
        Ok(())
    }

    /// Registers an instance of a service.
    pub fn register(&mut self, request: RegistrationRequest) -> (r: Result<(), RegistrationError>)
        ensures
            same_rest(*final(self), *old(self)),
            match registration_spec(request, old(self).static_services@, old(self).catalog@) {
                Registration::Invalid(e) => (r matches Err(RegistrationError::Invalid(m)) && m@
                    == e) && final(self).services@ == old(self).services@,
                Registration::Conflict(e) => (r matches Err(RegistrationError::Conflict(m)) && m@
                    == e) && final(self).services@ == old(self).services@,
                Registration::Routes(routes) => r is Ok && exists|now: u128|
                    old(self).clock.shows(now) && #[trigger] registered(
                        old(self).services@,
                        request,
                        routes,
                        now,
                        final(self).services@,
                    ),
            },
            old(self).wf() ==> final(self).wf(),
    {
        let now = self.clock.now();
        self.register_at(request, now)
    }

    /// Notes that an instance is alive at a moment; `false` where it is not known.
    pub fn heartbeat_at(&mut self, service: &str, instance_id: &str, now: u128) -> (r: bool)
        ensures
            same_rest(*final(self), *old(self)),
            r == known(old(self).services@, service@, instance_id@),
            if r {
                beaten(
                    old(self).services@,
                    service@,
                    instance_id@,
                    now,
                    final(self).services@,
                )
            } else {
                final(self).services@ == old(self).services@
            },
            r ==> final(self).services@[service@].instances@[instance_id@].last_heartbeat == now,
            old(self).wf() ==> final(self).wf(),
    {
        let present = match self.services.get(service) {
            Some(entry) => entry.instances.contains_key(instance_id),
            None => false,
        };
        if !present {
            return false;
        }
        match self.services.remove(service) {
            Some(mut entry) => {
                let ghost was = entry;
                match entry.instances.remove(instance_id) {
                    Some(instance) => {
                        entry.instances.insert(
                            instance_id.to_owned(),
                            RegisteredInstance { url: instance.url, last_heartbeat: now },
                        );
                    },
                    None => {},
                }
                let ghost made = entry;
                proof {
                    assert(made.instances@ =~= was.instances@.insert(
                        instance_id@,
                        RegisteredInstance { url: was.instances@[instance_id@].url, last_heartbeat: now },
                    ));
                }
                self.services.insert(service.to_owned(), entry);
                proof {
                    assert(self.services@ =~= old(self).services@.insert(service@, made));
                    if old(self).wf() {
                        laws::law_a_heartbeat_changes_no_instance(
                            old(self).services@,
                            self.static_services@,
                            service@,
                            instance_id@,
                            now,
                            self.services@,
                            service@,
                            instance_id@,
                        );
                    }
                }
            },
            None => {},
        }
        true
    }

    /// Notes that an instance is alive; `false` where it is not known.
    pub fn heartbeat(&mut self, service: &str, instance_id: &str) -> (r: bool)
        ensures
            same_rest(*final(self), *old(self)),
            r == known(old(self).services@, service@, instance_id@),
            if r {
                exists|now: u128|
                    old(self).clock.shows(now) && #[trigger] beaten(
                        old(self).services@,
                        service@,
                        instance_id@,
                        now,
                        final(self).services@,
                    )
            } else {
                final(self).services@ == old(self).services@
            },
            old(self).wf() ==> final(self).wf(),
    {
        let now = self.clock.now();
        self.heartbeat_at(service, instance_id, now)
    }

    /// Takes an instance out; `false` where it is not known. A service goes with its
    /// last instance.
    pub fn deregister(&mut self, service: &str, instance_id: &str) -> (r: bool)
        ensures
            r == known(old(self).services@, service@, instance_id@),
            deregistered(*old(self), service@, instance_id@, *final(self)),
            old(self).wf() ==> final(self).wf(),
    {
        match self.services.remove(service) {
            None => {
                proof {
                    assert(self.services@ =~= old(self).services@);
                }
                false
            },
            Some(mut entry) => {
                let ghost was = entry;
                let removed = entry.instances.remove(instance_id).is_some();
                let ghost rest = was.instances@.remove(instance_id@);
                if entry.instances.is_empty() {
                    proof {
                        assert(rest.dom() =~= Set::empty());
                    }
                } else {
                    let ghost made = entry;
                    proof {
                        if rest.dom().is_empty() {
                            assert(rest =~= Map::empty());
                        }
                    }
                    self.services.insert(service.to_owned(), entry);
                    proof {
                        assert(self.services@ =~= old(self).services@.insert(service@, made));
                    }
                }
                proof {
                    if old(self).wf() {
                        if !removed {
                            assert(rest =~= was.instances@);
                            assert(self.services@ =~= old(self).services@);
                        }
                        laws::law_deregistering_forgets_one_instance(
                            old(self).services@,
                            self.static_services@,
                            service@,
                            instance_id@,
                            self.services@,
                            service@,
                            instance_id@,
                        );
                    }
                }
                removed
            },
        }
    }

    /// The instance of a service whose turn it is; the turn passes on.
    pub fn pick_instance(&mut self, service: &str) -> (r: Option<(String, String)>)
        ensures
            same_rest(*final(self), *old(self)),
            (match r {
                Some((id, url)) => Some((id@, url@)),
                None => None,
            }) == picked(old(self).services@, service@),
            r matches Some((id, url)) ==> known(old(self).services@, service@, id@)
                && old(self).services@[service@].instances@[id@].url@ == url@,
            final(self).services@ == turned(old(self).services@, service@),
            old(self).wf() ==> final(self).wf(),
    {
        match self.services.remove(service) {
            None => {
                proof {
                    assert(self.services@ =~= old(self).services@);
                }
                None
            },
            Some(mut entry) => {
                let n = entry.instances.len();
                let chosen = if n == 0 {
                    None
                } else {
                    let (id, instance) = entry.instances.at(entry.cursor % n);
                    Some((id.to_owned(), instance.url.clone()))
                };
                entry.cursor = entry.cursor.wrapping_add(1);
                let ghost made = entry;
                self.services.insert(service.to_owned(), entry);
                proof {
                    assert(self.services@ =~= old(self).services@.insert(service@, made));
                    if old(self).wf() {
                        laws::law_a_turn_changes_no_instance(
                            old(self).services@,
                            self.static_services@,
                            service@,
                            service@,
                            service@,
                        );
                    }
                }
                chosen
            },
        }
    }

    /// Ends the resolution of a request whose route is known.
    fn build(&mut self, plan: Plan, source: &'static str) -> (r: Resolution)
        ensures
            same_rest(*final(self), *old(self)),
            old(self).wf() ==> final(self).wf(),
            forall|v: CompiledView, path: Seq<char>|
                v.name == plan.route@ && v.target == plan.target@ && v.forward_token
                    == plan.forward_token && v.guards
                    == auth::guards_view(plan.guards@) && v.filters == wasm::bindings_view(
                    plan.filters@,
                ) && plan.upstream_path@
                    == #[trigger] upstream_path(v, path) ==> r@ == sent(
                    v,
                    source@,
                    path,
                    urls_view(old(self).static_services@),
                    old(self).services@,
                ) && final(self).services@ == if takes_turn(
                    v,
                    urls_view(old(self).static_services@),
                ) {
                    turned(old(self).services@, v.target->Service_0)
                } else {
                    old(self).services@
                },
    {
        let (service, instance, base) = match plan.target {
            Target::Url(url) => (None, None, url),
            Target::Service(name) => {
                let fixed = match self.static_services.get(name.as_str()) {
                    Some(url) => Some(url.clone()),
                    None => None,
                };
                match fixed {
                    Some(url) => (Some(name), None, url),
                    None => {
                        match self.pick_instance(name.as_str()) {
                            Some((id, url)) => (Some(name), Some(id), url),
                            None => {
                                return Resolution::NoInstances { route: plan.route, service: name };
                            },
                        }
                    },
                }
            },
        };
        let target_url = text::cat2(
            text::trim_end_char(base.as_str(), '/'),
            plan.upstream_path.as_str(),
        );
        Resolution::Resolved(
            Resolved {
                route: plan.route,
                source,
                service,
                instance,
                target_url,
                forward_token: plan.forward_token,
                guards: plan.guards,
                filters: plan.filters,
            },
        )
    }

    /// What becomes of a request path: the best declared route takes it, and where none
    /// matches, the best that a service registered.
    pub fn resolve(&mut self, path: &str) -> (r: Resolution)
        ensures
            same_rest(*final(self), *old(self)),
            match chosen(
                route::routes_view(old(self).static_routes@),
                dynamic_routes(old(self).services.entries()),
                path@,
            ) {
                Some((v, source)) => r@ == sent(
                    v,
                    source,
                    path@,
                    urls_view(old(self).static_services@),
                    old(self).services@,
                ) && final(self).services@ == if takes_turn(
                    v,
                    urls_view(old(self).static_services@),
                ) {
                    turned(old(self).services@, v.target->Service_0)
                } else {
                    old(self).services@
                },
                None => r@ == ResolutionView::NotFound && final(self).services@ == old(
                    self,
                ).services@,
            },
            old(self).wf() ==> final(self).wf(),
    {
        let fixed = static_refs(&self.static_routes);
        if let Some((at, matched)) = route::best_match(&fixed, path) {
            let p = plan(fixed[at], matched, path);
            proof {
                assert(route::refs_view(fixed@)[at as int] == fixed@[at as int]@);
                assert(upstream_path(fixed@[at as int]@, path@) == p.upstream_path@);
            }
            return self.build(p, "static");
        }
        let dynamic = dynamic_refs(&self.services);
        match route::best_match(&dynamic, path) {
            Some((at, matched)) => {
                let p = plan(dynamic[at], matched, path);
                proof {
                    assert(route::refs_view(dynamic@)[at as int] == dynamic@[at as int]@);
                    assert(upstream_path(dynamic@[at as int]@, path@) == p.upstream_path@);
                }
                self.build(p, "dynamic")
            },
            None => Resolution::NotFound,
        }
    }

    /// Takes out the instances that are dead at a moment, and names them.
    pub fn reap_at(&mut self, now: u128) -> (r: Vec<(String, String)>)
        ensures
            same_rest(*final(self), *old(self)),
            reaped(old(self).services@, old(self).ttl, now, final(self).services@),
            text::pairs_view(r@) == all_dead(
                old(self).services.entries(),
                old(self).ttl,
                now,
            ),
            forall|s: Seq<char>, id: Seq<char>| #[trigger]
                known(final(self).services@, s, id) <==> known(old(self).services@, s, id) && now
                    <= old(self).services@[s].instances@[id].last_heartbeat + old(self).ttl
                    * 1_000_000_000,
            old(self).wf() ==> final(self).wf(),
    {
        let ttl = self.ttl;
        let mut services: StrMap<RegisteredService> = StrMap::new();
        let ghost e = self.services.entries();
        let n = self.services.len();
        proof {
            strmap::lemma_ascending_distinct(strmap::keys_of(e));
            strmap::lemma_map_of(e);
        }
        std::mem::swap(&mut services, &mut self.services);
        let mut left_over = services.into_entries();
        let mut todo: Vec<(String, RegisteredService)> = Vec::new();
        while left_over.len() > 0
            invariant
                e.len() == n,
                left_over@.len() + todo@.len() == n,
                left_over@ == e.take(left_over@.len() as int),
                forall|k: int| 0 <= k < todo@.len() ==> #[trigger] todo@[k] == e[n - 1 - k],
            decreases left_over@.len(),
        {
            match left_over.pop() {
                Some(x) => {
                    todo.push(x);
                },
                None => {},
            }
        }
        let ghost total = todo@;
        let mut expired: Vec<(String, String)> = Vec::new();
        let mut kept: StrMap<RegisteredService> = StrMap::new();
        proof {
            assert(e.take(0) =~= Seq::empty());
            assert(text::pairs_view(expired@) =~= Seq::empty());
        }
        while todo.len() > 0
            invariant
                e.len() == n,
                total.len() == n,
                forall|k: int| 0 <= k < n ==> #[trigger] total[k] == e[n - 1 - k],
                todo@.len() <= n,
                todo@ == total.take(todo@.len() as int),
                strmap::keys_of(e).no_duplicates(),
                text::pairs_view(expired@) == all_dead(
                    e.take(n - todo@.len()),
                    ttl,
                    now,
                ),
                reaped(strmap::map_of(e.take(n - todo@.len())), ttl, now, kept@),
            decreases todo@.len(),
        {
            let ghost i = n - todo@.len();
            let ghost size = todo@.len();
            match todo.pop() {
                Some((name, service)) => {
                    proof {
                        assert(total[size - 1] == e[i]);
                        assert((name, service) == e[i]);
                        assert(e.take(i + 1).drop_last() =~= e.take(i));
                        assert(e.take(i + 1).last() == e[i]);
                        assert(strmap::keys_of(e.take(i)) =~= strmap::keys_of(e).take(i));
                        strmap::lemma_map_of(e.take(i));
                        assert(!strmap::map_of(e.take(i)).contains_key(name@)) by {
                            if strmap::keys_of(e.take(i)).contains(name@) {
                                let j = choose|j: int|
                                    0 <= j < i && strmap::keys_of(e.take(i))[j] == name@;
                                assert(strmap::keys_of(e)[j] == strmap::keys_of(e)[i]);
                            }
                        }
                    }
                    let ghost before = text::pairs_view(expired@);
                    let (living_now, mut dead) = sort_out(
                        name.as_str(),
                        &service.instances,
                        ttl,
                        now,
                    );
                    let ghost gone = text::pairs_view(dead@);
                    expired.append(&mut dead);
                    proof {
                        assert(text::pairs_view(expired@) =~= before + gone);
                    }
                    let ghost live = living(service.instances@, ttl, now);
                    if !living_now.is_empty() {
                        proof {
                            assert(!live.dom().is_empty()) by {
                                if live.dom().is_empty() {
                                    assert(live =~= Map::empty());
                                }
                            }
                        }
                        kept.insert(
                            name,
                            RegisteredService {
                                routes: service.routes,
                                instances: living_now,
                                cursor: service.cursor,
                            },
                        );
                    } else {
                        proof {
                            assert(live.dom() =~= Set::empty());
                        }
                    }
                },
                None => {},
            }
        }
        proof {
            assert(e.take(n as int) =~= e);
            strmap::lemma_entries(old(self).services);
        }
        self.services = kept;
        proof {
            if old(self).wf() {
                laws::law_reaping_forgets_the_dead(
                    old(self).services@,
                    self.static_services@,
                    ttl,
                    now,
                    self.services@,
                    Seq::empty(),
                    Seq::empty(),
                );
            }
        }
        proof {
            let before = old(self).services@;
            let after = self.services@;
            assert(reaped(before, ttl, now, after));
            assert forall|s: Seq<char>, id: Seq<char>| #[trigger]
                known(after, s, id) <==> known(before, s, id) && now
                    <= before[s].instances@[id].last_heartbeat + ttl * 1_000_000_000 by {
                let left = living(before[s].instances@, ttl, now);
                if known(before, s, id) && alive(before[s].instances@[id], ttl, now) {
                    assert(left.dom().contains(id));
                    assert(after.contains_key(s));
                }
                if after.contains_key(s) {
                    assert(after[s].instances@ == left);
                }
            }
        }
        expired
    }

    /// Takes out the instances that are dead, and names them.
    pub fn reap(&mut self) -> (r: Vec<(String, String)>)
        ensures
            same_rest(*final(self), *old(self)),
            exists|now: u128|
                #![trigger reaped(old(self).services@, old(self).ttl, now, final(self).services@)]
                old(self).clock.shows(now) && reaped(
                    old(self).services@,
                    old(self).ttl,
                    now,
                    final(self).services@,
                ) && text::pairs_view(r@) == all_dead(
                    old(self).services.entries(),
                    old(self).ttl,
                    now,
                ),
            old(self).wf() ==> final(self).wf(),
    {
        let now = self.clock.now();
        self.reap_at(now)
    }
}

/// Parts the instances of a service into the living and the dead.
fn sort_out(service: &str, instances: &StrMap<RegisteredInstance>, ttl: u64, now: u128) -> (r: (
    StrMap<RegisteredInstance>,
    Vec<(String, String)>,
))
    ensures
        r.0@ == living(instances@, ttl, now),
        text::pairs_view(r.1@) == dead_ids(
            service@,
            instances.entries(),
            ttl,
            now,
        ),
{
    let most = clock::from_secs(ttl);
    let n = instances.len();
    let ghost e = instances.entries();
    let mut kept: StrMap<RegisteredInstance> = StrMap::new();
    let mut dead: Vec<(String, String)> = Vec::new();
    let mut i: usize = 0;
    proof {
        strmap::lemma_ascending_distinct(strmap::keys_of(e));
        assert(e.take(0) =~= Seq::empty());
        assert(kept@ =~= living(strmap::map_of(e.take(0)), ttl, now));
        assert(text::pairs_view(dead@) =~= Seq::empty());
    }
    while i < n
        invariant
            i <= n,
            n == e.len(),
            e == instances.entries(),
            most == ttl * clock::SECOND,
            strmap::keys_of(e).no_duplicates(),
            kept@ == living(strmap::map_of(e.take(i as int)), ttl, now),
            text::pairs_view(dead@) == dead_ids(
                service@,
                e.take(i as int),
                ttl,
                now,
            ),
        decreases n - i,
    {
        let (id, instance) = instances.at(i);
        proof {
            assert(e.take(i + 1).drop_last() =~= e.take(i as int));
            assert(e.take(i + 1).last() == e[i as int]);
            assert(strmap::keys_of(e.take(i as int)) =~= strmap::keys_of(e).take(i as int));
            strmap::lemma_map_of(e.take(i as int));
            assert(!strmap::map_of(e.take(i as int)).contains_key(id@)) by {
                if strmap::keys_of(e.take(i as int)).contains(id@) {
                    let j = choose|j: int|
                        0 <= j < i && strmap::keys_of(e.take(i as int))[j] == id@;
                    assert(strmap::keys_of(e)[j] == strmap::keys_of(e)[i as int]);
                }
            }
        }
        if now <= instance.last_heartbeat || now - instance.last_heartbeat <= most {
            kept.insert(
                id.to_owned(),
                RegisteredInstance { url: instance.url.clone(), last_heartbeat: instance.last_heartbeat },
            );
        } else {
            let ghost front = text::pairs_view(dead@);
            dead.push((service.to_owned(), id.to_owned()));
            proof {
                assert(text::pairs_view(dead@) =~= front.push((service@, id@)));
            }
        }
        proof {
            assert(kept@ =~= living(strmap::map_of(e.take(i + 1)), ttl, now));
        }
        i = i + 1;
    }
    proof {
        assert(e.take(i as int) =~= e);
        strmap::lemma_entries(*instances);
    }
    (kept, dead)
}

/// The declared routes.
pub(crate) fn static_refs<'a>(routes: &'a Vec<CompiledRoute>) -> (r: Vec<&'a CompiledRoute>)
    ensures
        route::refs_view(r@) == route::routes_view(routes@),
{
    let mut out: Vec<&'a CompiledRoute> = Vec::new();
    let mut i: usize = 0;
    while i < routes.len()
        invariant
            i <= routes@.len(),
            out@.len() == i,
            forall|k: int| 0 <= k < i ==> (#[trigger] out@[k])@ == routes@[k]@,
        decreases routes@.len() - i,
    {
        out.push(&routes[i]);
        i = i + 1;
    }
    proof {
        assert(route::refs_view(out@) =~= route::routes_view(routes@));
    }
    out
}

/// The routes of registered services.
pub(crate) fn dynamic_refs<'a>(services: &'a StrMap<RegisteredService>) -> (r: Vec<
    &'a CompiledRoute,
>)
    ensures
        route::refs_view(r@) == dynamic_routes(services.entries()),
{
    let n = services.len();
    let ghost e = services.entries();
    let mut out: Vec<&'a CompiledRoute> = Vec::new();
    let mut i: usize = 0;
    proof {
        assert(e.take(0) =~= Seq::empty());
        assert(route::refs_view(out@) =~= Seq::empty());
    }
    while i < n
        invariant
            i <= n,
            n == e.len(),
            e == services.entries(),
            route::refs_view(out@) == dynamic_routes(e.take(i as int)),
        decreases n - i,
    {
        let (_, service) = services.at(i);
        let ghost front = route::refs_view(out@);
        let mut more = static_refs(&service.routes);
        let ghost added = route::refs_view(more@);
        out.append(&mut more);
        proof {
            assert(route::refs_view(out@) =~= front + added);
            assert(e.take(i + 1).drop_last() =~= e.take(i as int));
            assert(e.take(i + 1).last() == e[i as int]);
        }
        i = i + 1;
    }
    proof {
        assert(e.take(i as int) =~= e);
    }
    out
}

} // verus!
