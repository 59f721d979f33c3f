//! What the registry tells operators: configuration only, never credentials.

use crate::auth;
use crate::auth::BoundView;
use crate::clock;
use crate::config::MatchType;
use crate::json;
use crate::json::{Json, JsonView};
use crate::plugins::wasm;
use crate::plugins::wasm::BindingView;
use crate::registry;
use crate::registry::route;
use crate::registry::route::{CompiledRoute, CompiledView, Goal, Target};
use crate::registry::{Declared, RegisteredInstance, RegisteredService, Registry};
use crate::sorting;
use crate::strmap::StrMap;
use crate::text;
use vstd::prelude::*;
use vstd::string::*;

verus! {

/// One registered service.
pub struct ServiceView {
    pub service: String,
    pub instances: Vec<InstanceView>,
    pub routes: Vec<RouteView>,
}

/// One instance, and how long ago it last said it is alive.
pub struct InstanceView {
    pub instance_id: String,
    pub url: String,
    pub seconds_since_heartbeat: u64,
}

/// One route of a registered service.
pub struct RouteView {
    pub paths: Vec<String>,
    pub match_type: MatchType,
    pub strip_path: bool,
    pub plugins: Vec<String>,
}

/// Where a registration came from: the config, or a service that registered itself.
#[derive(Clone, Copy, Debug, PartialEq, Eq, Structural)]
pub enum Source {
    Static,
    Dynamic,
}

/// Narrows what is described. An empty list does not narrow; filters combine with AND.
pub struct DescribeFilter {
    pub services: Vec<String>,
    pub routes: Vec<String>,
    pub plugins: Vec<String>,
    pub source: Option<Source>,
    pub path: Option<String>,
}

impl Default for DescribeFilter {
    fn default() -> (r: Self)
        ensures
            r.services@.len() == 0,
            r.routes@.len() == 0,
            r.plugins@.len() == 0,
            r.source is None,
            r.path is None,
    {
        DescribeFilter {
            services: Vec::new(),
            routes: Vec::new(),
            plugins: Vec::new(),
            source: None,
            path: None,
        }
    }
}

/// Everything the gateway routes.
pub struct DescribeView {
    pub summary: SummaryView,
    pub plugins: Vec<PluginView>,
    pub services: Vec<DescribedService>,
    pub routes: Vec<DescribedRoute>,
}

/// The whole at a glance.
pub struct SummaryView {
    pub heartbeat_ttl_seconds: u64,
    /// Shown so that an operator sees whether a gateway accepts test claims.
    pub testing_userinfo_overrides: bool,
    pub services: usize,
    pub instances: usize,
    pub routes: usize,
}

/// One plugin.
pub struct PluginView {
    pub name: String,
    pub kind: &'static str,
}

/// One service, with the routes that point at it.
pub struct DescribedService {
    pub service: String,
    pub source: Source,
    pub url: Option<String>,
    pub instances: Vec<InstanceView>,
    pub routes: Vec<String>,
}

/// One route.
pub struct DescribedRoute {
    pub name: String,
    pub source: Source,
    pub target: TargetView,
    pub paths: Vec<String>,
    pub match_type: MatchType,
    pub strip_path: bool,
    pub plugins: Vec<GuardView>,
}

/// Where a route points.
pub enum TargetView {
    Url { url: String },
    /// A service, and where its name is found today: in the config, among the
    /// registered services, or nowhere.
    Service { service: String, resolution: &'static str, instances: usize },
}

/// One guard of a route, or one filter, with the settings that its module is handed.
pub struct GuardView {
    pub name: String,
    pub kind: &'static str,
    pub roles: Vec<String>,
    pub insert_headers: StrMap<String>,
    pub settings: Option<Json>,
}

/// What an instance's line says.
pub struct InstanceLine {
    pub id: Seq<char>,
    pub url: Seq<char>,
    pub seconds: u64,
}

/// What the line of a guard or a filter says.
pub struct GuardLine {
    pub name: Seq<char>,
    pub kind: Seq<char>,
    pub roles: Seq<Seq<char>>,
    pub insert_headers: Map<Seq<char>, Seq<char>>,
    pub settings: Option<JsonView>,
}

/// What a target's line says.
pub enum TargetLine {
    Url(Seq<char>),
    Service(Seq<char>, Seq<char>, nat),
}

/// What a route's line says.
pub struct RouteLine {
    pub name: Seq<char>,
    pub source: Source,
    pub target: TargetLine,
    pub paths: Seq<Seq<char>>,
    pub match_type: MatchType,
    pub strip_path: bool,
    pub plugins: Seq<GuardLine>,
}

/// What a service's line says.
pub struct ServiceLine {
    pub service: Seq<char>,
    pub source: Source,
    pub url: Option<Seq<char>>,
    pub instances: Seq<InstanceLine>,
    pub routes: Seq<Seq<char>>,
}

impl View for InstanceView {
    type V = InstanceLine;

    open spec fn view(&self) -> InstanceLine {
        InstanceLine {
            id: self.instance_id@,
            url: self.url@,
            seconds: self.seconds_since_heartbeat,
        }
    }
}

impl View for GuardView {
    type V = GuardLine;

    open spec fn view(&self) -> GuardLine {
        GuardLine {
            name: self.name@,
            kind: self.kind@,
            roles: text::texts(self.roles@),
            insert_headers: registry::urls_view(self.insert_headers@),
            settings: json::opt_view(self.settings),
        }
    }
}

impl View for TargetView {
    type V = TargetLine;

    open spec fn view(&self) -> TargetLine {
        match self {
            TargetView::Url { url } => TargetLine::Url(url@),
            TargetView::Service { service, resolution, instances } => TargetLine::Service(
                service@,
                resolution@,
                *instances as nat,
            ),
        }
    }
}

/// What some guards' lines say.
pub open spec fn guard_lines(v: Seq<GuardView>) -> Seq<GuardLine> {
    v.map_values(|g: GuardView| g@)
}

/// What some instances' lines say.
pub open spec fn instance_lines(v: Seq<InstanceView>) -> Seq<InstanceLine> {
    v.map_values(|i: InstanceView| i@)
}

impl View for DescribedRoute {
    type V = RouteLine;

    open spec fn view(&self) -> RouteLine {
        RouteLine {
            name: self.name@,
            source: self.source,
            target: self.target@,
            paths: text::texts(self.paths@),
            match_type: self.match_type,
            strip_path: self.strip_path,
            plugins: guard_lines(self.plugins@),
        }
    }
}

impl View for DescribedService {
    type V = ServiceLine;

    open spec fn view(&self) -> ServiceLine {
        ServiceLine {
            service: self.service@,
            source: self.source,
            url: text::opt_of(self.url),
            instances: instance_lines(self.instances@),
            routes: text::texts(self.routes@),
        }
    }
}

/// What some routes' lines say.
pub open spec fn route_lines(v: Seq<DescribedRoute>) -> Seq<RouteLine> {
    v.map_values(|r: DescribedRoute| r@)
}

/// What some services' lines say.
pub open spec fn service_lines(v: Seq<DescribedService>) -> Seq<ServiceLine> {
    v.map_values(|s: DescribedService| s@)
}

/// The name a route's line goes by.
pub open spec fn route_key() -> spec_fn(RouteLine) -> Seq<char> {
    |r: RouteLine| r.name
}

/// The name a service's line goes by.
pub open spec fn service_key() -> spec_fn(ServiceLine) -> Seq<char> {
    |s: ServiceLine| s.service
}

/// Puts a route into a list that is in the order of names.
fn place_route(v: &mut Vec<DescribedRoute>, x: DescribedRoute)
    ensures
        route_lines(final(v)@) == sorting::placed(route_lines(old(v)@), x@, route_key()),
{
    let ghost before = route_lines(v@);
    let ghost line = x@;
    let mut at: usize = v.len();
    while at > 0 && text::comes_before(x.name.as_str(), v[at - 1].name.as_str())
        invariant
            at <= v@.len(),
            v@ == old(v)@,
            before == route_lines(v@),
            line == x@,
            forall|k: int|
                at <= k < before.len() ==> text::precedes(
                    route_key()(line),
                    route_key()(#[trigger] before[k]),
                ),
        decreases at,
    {
        proof {
            assert(before[at - 1] == v@[at - 1]@);
        }
        at = at - 1;
    }
    proof {
        if at > 0 {
            assert(before[at - 1] == v@[at - 1]@);
        }
        sorting::lemma_placed(before, line, route_key(), at as int);
    }
    v.insert(at, x);
    proof {
        assert(route_lines(v@) =~= before.insert(at as int, line));
    }
}

/// Puts a service into a list that is in the order of names.
fn place_service(v: &mut Vec<DescribedService>, x: DescribedService)
    ensures
        service_lines(final(v)@) == sorting::placed(service_lines(old(v)@), x@, service_key()),
{
    let ghost before = service_lines(v@);
    let ghost line = x@;
    let mut at: usize = v.len();
    while at > 0 && text::comes_before(x.service.as_str(), v[at - 1].service.as_str())
        invariant
            at <= v@.len(),
            v@ == old(v)@,
            before == service_lines(v@),
            line == x@,
            forall|k: int|
                at <= k < before.len() ==> text::precedes(
                    service_key()(line),
                    service_key()(#[trigger] before[k]),
                ),
        decreases at,
    {
        proof {
            assert(before[at - 1] == v@[at - 1]@);
        }
        at = at - 1;
    }
    proof {
        if at > 0 {
            assert(before[at - 1] == v@[at - 1]@);
        }
        sorting::lemma_placed(before, line, service_key(), at as int);
    }
    v.insert(at, x);
    proof {
        assert(service_lines(v@) =~= before.insert(at as int, line));
    }
}

/// How long ago an instance last said it is alive, in whole seconds.
pub open spec fn seconds_since(i: RegisteredInstance, now: u128) -> u64 {
    if now <= i.last_heartbeat {
        0
    } else {
        ((now - i.last_heartbeat) as u128 / clock::SECOND) as u64
    }
}

/// The lines of some instances, in the order of their ids.
pub open spec fn lines_of(e: Seq<(String, RegisteredInstance)>, now: u128) -> Seq<InstanceLine> {
    e.map_values(
        |x: (String, RegisteredInstance)|
            InstanceLine { id: x.0@, url: x.1.url@, seconds: seconds_since(x.1, now) },
    )
}

impl RegisteredService {
    /// The lines of the instances, in the order of their ids.
    pub fn instance_views(&self, now: u128) -> (r: Vec<InstanceView>)
        ensures
            instance_lines(r@) == lines_of(self.instances.entries(), now),
    {
        let n = self.instances.len();
        let ghost e = self.instances.entries();
        let mut out: Vec<InstanceView> = Vec::new();
        let mut i: usize = 0;
        while i < n
            invariant
                i <= n,
                n == e.len(),
                e == self.instances.entries(),
                out@.len() == i,
                forall|k: int|
                    0 <= k < i ==> (#[trigger] out@[k])@ == (InstanceLine {
                        id: e[k].0@,
                        url: e[k].1.url@,
                        seconds: seconds_since(e[k].1, now),
                    }),
            decreases n - i,
        {
            let (id, instance) = self.instances.at(i);
            let seconds: u64 = if now <= instance.last_heartbeat {
                0
            } else {
                ((now - instance.last_heartbeat) / clock::SECOND) as u64
            };
            out.push(
                InstanceView {
                    instance_id: id.to_owned(),
                    url: instance.url.clone(),
                    seconds_since_heartbeat: seconds,
                },
            );
            i = i + 1;
        }
        proof {
            assert(instance_lines(out@) =~= lines_of(e, now));
        }
        out
    }
}

/// The names of the plugins of a route: its guards, and then its filters.
pub open spec fn plugin_names(r: CompiledView) -> Seq<Seq<char>> {
    r.guards.map_values(|g: BoundView| g.name) + r.filters.map_values(|f: BindingView| f.name)
}

/// Whether a filter lets a source pass.
pub open spec fn source_passes(f: DescribeFilter, source: Source) -> bool {
    match f.source {
        Some(wanted) => wanted == source,
        None => true,
    }
}

/// Whether a list lets a name pass: an empty one lets any.
pub open spec fn list_passes(list: Seq<Seq<char>>, name: Seq<char>) -> bool {
    list.len() == 0 || list.contains(name)
}

/// Whether a filter lets a route pass: everything it narrows must agree.
pub open spec fn route_passes(r: CompiledView, source: Source, f: DescribeFilter) -> bool {
    &&& source_passes(f, source)
    &&& list_passes(text::texts(f.routes@), r.name)
    &&& f.services@.len() == 0 || (r.target matches Goal::Service(name) && text::texts(
        f.services@,
    ).contains(name))
    &&& f.plugins@.len() == 0 || exists|i: int|
        0 <= i < plugin_names(r).len() && text::texts(f.plugins@).contains(
            #[trigger] plugin_names(r)[i],
        )
    &&& f.path matches Some(path) ==> route::route_match(r.patterns, path@) is Some
}

/// The services that some routes point at.
pub open spec fn targets(v: Seq<(CompiledView, Source)>) -> Seq<Seq<char>>
    decreases v.len(),
{
    if v.len() == 0 {
        Seq::empty()
    } else {
        match v.last().0.target {
            Goal::Service(name) => targets(v.drop_last()).push(name),
            Goal::Url(_) => targets(v.drop_last()),
        }
    }
}

/// The routes that a filter lets pass.
pub open spec fn surviving(v: Seq<(CompiledView, Source)>, f: DescribeFilter) -> Seq<
    (CompiledView, Source),
>
    decreases v.len(),
{
    if v.len() == 0 {
        Seq::empty()
    } else if route_passes(v.last().0, v.last().1, f) {
        surviving(v.drop_last(), f).push(v.last())
    } else {
        surviving(v.drop_last(), f)
    }
}

/// Routes with where they came from.
pub open spec fn from(v: Seq<CompiledView>, source: Source) -> Seq<(CompiledView, Source)> {
    v.map_values(|r: CompiledView| (r, source))
}

/// Header templates by name, the later of two with one name.
pub open spec fn template_map(v: Seq<(Seq<char>, Seq<char>)>) -> Map<Seq<char>, Seq<char>>
    decreases v.len(),
{
    if v.len() == 0 {
        Map::empty()
    } else {
        template_map(v.drop_last()).insert(v.last().0, v.last().1)
    }
}

/// The line of a guard.
pub open spec fn guard_line(g: BoundView) -> GuardLine {
    GuardLine {
        name: g.name,
        kind: auth::policy_kind_spec(g.policy@),
        roles: g.required_roles,
        insert_headers: template_map(g.insert_headers),
        settings: None,
    }
}

/// The line of a filter.
pub open spec fn filter_line(f: BindingView) -> GuardLine {
    GuardLine {
        name: f.name,
        kind: wasm::KIND@,
        roles: Seq::empty(),
        insert_headers: Map::empty(),
        settings: Some(f.settings),
    }
}

/// The line of a target.
pub open spec fn target_line(
    target: Goal,
    urls: Map<Seq<char>, String>,
    services: Map<Seq<char>, RegisteredService>,
) -> TargetLine {
    match target {
        Goal::Url(url) => TargetLine::Url(url),
        Goal::Service(name) => TargetLine::Service(
            name,
            if urls.contains_key(name) {
                "static"@
            } else if services.contains_key(name) {
                "registry"@
            } else {
                "unresolved"@
            },
            if services.contains_key(name) {
                services[name].instances@.len()
            } else {
                0
            },
        ),
    }
}

/// The line of a route.
pub open spec fn route_line(
    r: CompiledView,
    source: Source,
    urls: Map<Seq<char>, String>,
    services: Map<Seq<char>, RegisteredService>,
) -> RouteLine {
    RouteLine {
        name: r.name,
        source,
        target: target_line(r.target, urls, services),
        paths: r.paths,
        match_type: r.match_type,
        strip_path: r.strip_path,
        plugins: r.guards.map_values(|g: BoundView| guard_line(g)) + r.filters.map_values(
            |f: BindingView| filter_line(f),
        ),
    }
}

/// The names of the routes that point at a service.
pub open spec fn names_to(lines: Seq<RouteLine>, service: Seq<char>) -> Seq<Seq<char>>
    decreases lines.len(),
{
    if lines.len() == 0 {
        Seq::empty()
    } else if lines.last().target matches TargetLine::Service(name, _, _) && name == service {
        names_to(lines.drop_last(), service).push(lines.last().name)
    } else {
        names_to(lines.drop_last(), service)
    }
}

/// The names of the routes that point at a service.
pub fn route_names(routes: &Vec<DescribedRoute>, service: &str) -> (r: Vec<String>)
    ensures
        text::texts(r@) == names_to(route_lines(routes@), service@),
{
    let ghost lines = route_lines(routes@);
    let mut out: Vec<String> = Vec::new();
    let mut i: usize = 0;
    proof {
        assert(lines.take(0) =~= Seq::empty());
        assert(text::texts(out@) =~= Seq::empty());
    }
    while i < routes.len()
        invariant
            i <= routes@.len(),
            lines == route_lines(routes@),
            text::texts(out@) == names_to(lines.take(i as int), service@),
        decreases routes@.len() - i,
    {
        proof {
            assert(lines.take(i + 1).drop_last() =~= lines.take(i as int));
            assert(lines.take(i + 1).last() == routes@[i as int]@);
        }
        let points = match &routes[i].target {
            TargetView::Service { service: name, .. } => text::same(name.as_str(), service),
            TargetView::Url { .. } => false,
        };
        if points {
            let ghost front = text::texts(out@);
            out.push(routes[i].name.clone());
            proof {
                assert(text::texts(out@) =~= front.push(routes@[i as int].name@));
            }
        }
        i = i + 1;
    }
    proof {
        assert(lines.take(i as int) =~= lines);
    }
    out
}

/// Whether a filter narrows by route, plugin or path, and so the services too.
pub open spec fn narrows(f: DescribeFilter) -> bool {
    f.routes@.len() > 0 || f.plugins@.len() > 0 || f.path is Some
}

/// Whether a filter lets a service pass: where it narrows the routes, only the services
/// that the surviving routes point at.
pub open spec fn service_passes(
    service: Seq<char>,
    source: Source,
    f: DescribeFilter,
    targeted: Seq<Seq<char>>,
) -> bool {
    &&& source_passes(f, source)
    &&& list_passes(text::texts(f.services@), service)
    &&& narrows(f) ==> targeted.contains(service)
}

/// The lines of the declared services that a filter lets pass.
pub open spec fn declared_lines(
    e: Seq<(String, String)>,
    f: DescribeFilter,
    targeted: Seq<Seq<char>>,
    routes: Seq<RouteLine>,
) -> Seq<ServiceLine>
    decreases e.len(),
{
    if e.len() == 0 {
        Seq::empty()
    } else {
        let front = declared_lines(e.drop_last(), f, targeted, routes);
        let name = e.last().0@;
        if service_passes(name, Source::Static, f, targeted) {
            front.push(
                ServiceLine {
                    service: name,
                    source: Source::Static,
                    url: Some(e.last().1@),
                    instances: Seq::empty(),
                    routes: names_to(routes, name),
                },
            )
        } else {
            front
        }
    }
}

/// The lines of the registered services that a filter lets pass.
pub open spec fn registered_lines(
    e: Seq<(String, RegisteredService)>,
    f: DescribeFilter,
    targeted: Seq<Seq<char>>,
    routes: Seq<RouteLine>,
    now: u128,
) -> Seq<ServiceLine>
    decreases e.len(),
{
    if e.len() == 0 {
        Seq::empty()
    } else {
        let front = registered_lines(e.drop_last(), f, targeted, routes, now);
        let name = e.last().0@;
        if service_passes(name, Source::Dynamic, f, targeted) {
            front.push(
                ServiceLine {
                    service: name,
                    source: Source::Dynamic,
                    url: None,
                    instances: lines_of(e.last().1.instances.entries(), now),
                    routes: names_to(routes, name),
                },
            )
        } else {
            front
        }
    }
}

/// The names and types of the plugins that a filter lets pass.
pub open spec fn plugin_lines(e: Seq<(String, Declared)>, f: DescribeFilter) -> Seq<
    (Seq<char>, Seq<char>),
>
    decreases e.len(),
{
    if e.len() == 0 {
        Seq::empty()
    } else if list_passes(text::texts(f.plugins@), e.last().0@) {
        plugin_lines(e.drop_last(), f).push(
            (e.last().0@, registry::declared_kind(e.last().1@)),
        )
    } else {
        plugin_lines(e.drop_last(), f)
    }
}

/// The number of instances on some services' lines.
pub open spec fn instances_on(lines: Seq<ServiceLine>) -> nat
    decreases lines.len(),
{
    if lines.len() == 0 {
        0
    } else {
        instances_on(lines.drop_last()) + lines.last().instances.len()
    }
}

/// The routes of a registry with where they came from: declared before registered.
pub open spec fn candidates(registry: Registry) -> Seq<(CompiledView, Source)> {
    from(route::routes_view(registry.static_routes@), Source::Static) + from(
        registry::dynamic_routes(registry.services.entries()),
        Source::Dynamic,
    )
}

/// The lines of some routes.
pub open spec fn lines_for(
    v: Seq<(CompiledView, Source)>,
    urls: Map<Seq<char>, String>,
    services: Map<Seq<char>, RegisteredService>,
) -> Seq<RouteLine> {
    v.map_values(|c: (CompiledView, Source)| route_line(c.0, c.1, urls, services))
}

/// The lines of the routes that a filter lets pass, in the order of their names.
pub open spec fn described_routes(registry: Registry, f: DescribeFilter) -> Seq<RouteLine> {
    sorting::sorted(
        lines_for(
            surviving(candidates(registry), f),
            registry.static_services@,
            registry.services@,
        ),
        route_key(),
    )
}

/// The lines of the services that a filter lets pass, in the order of their names.
pub open spec fn described_services(registry: Registry, f: DescribeFilter, now: u128) -> Seq<
    ServiceLine,
> {
    let targeted = targets(surviving(candidates(registry), f));
    let routes = described_routes(registry, f);
    sorting::sorted(
        declared_lines(registry.static_services.entries(), f, targeted, routes)
            + registered_lines(registry.services.entries(), f, targeted, routes, now),
        service_key(),
    )
}

/// The names and types on some plugins' lines.
pub open spec fn plugin_pairs(v: Seq<PluginView>) -> Seq<(Seq<char>, Seq<char>)> {
    v.map_values(|p: PluginView| (p.name@, p.kind@))
}

/// Whether a description tells what a filter lets pass of a registry at a moment.
pub open spec fn describes(
    registry: Registry,
    f: DescribeFilter,
    now: u128,
    r: DescribeView,
) -> bool {
    let routes = described_routes(registry, f);
    let services = described_services(registry, f, now);
    &&& route_lines(r.routes@) == routes
    &&& service_lines(r.services@) == services
    &&& plugin_pairs(r.plugins@) == plugin_lines(registry.catalog.entries(), f)
    &&& r.summary.heartbeat_ttl_seconds == registry.ttl
    &&& r.summary.testing_userinfo_overrides == registry.userinfo_overrides
    &&& r.summary.services == services.len()
    &&& r.summary.instances == if instances_on(services) <= usize::MAX {
        instances_on(services) as usize
    } else {
        usize::MAX
    }
    &&& r.summary.routes == routes.len()
}

/// Tests whether a filter lets a source pass.
fn passes_source(f: &DescribeFilter, source: Source) -> (r: bool)
    ensures
        r == source_passes(*f, source),
{
    match f.source {
        Some(wanted) => wanted == source,
        None => true,
    }
}

/// Tests whether a list lets a name pass.
fn passes_list(list: &Vec<String>, name: &str) -> (r: bool)
    ensures
        r == list_passes(text::texts(list@), name@),
{
    list.len() == 0 || text::contains_text(list, name)
}

/// Tests whether one of some names is on a list.
fn any_listed(names: &Vec<String>, list: &Vec<String>) -> (r: bool)
    ensures
        r == exists|i: int|
            0 <= i < text::texts(names@).len() && text::texts(list@).contains(
                #[trigger] text::texts(names@)[i],
            ),
{
    let ghost all = text::texts(names@);
    let mut i: usize = 0;
    while i < names.len()
        invariant
            i <= names@.len(),
            all == text::texts(names@),
            forall|k: int| 0 <= k < i ==> !text::texts(list@).contains(#[trigger] all[k]),
        decreases names@.len() - i,
    {
        proof {
            assert(all[i as int] == names@[i as int]@);
        }
        if text::contains_text(list, names[i].as_str()) {
            proof {
                assert(text::texts(list@).contains(all[i as int]));
            }
            return true;
        }
        i = i + 1;
    }
    false
}

/// The names of the plugins of a route.
fn names_in(route: &CompiledRoute) -> (r: Vec<String>)
    ensures
        text::texts(r@) == plugin_names(route@),
{
    let ghost guards = route@.guards.map_values(|g: BoundView| g.name);
    let ghost filters = route@.filters.map_values(|f: BindingView| f.name);
    let mut out: Vec<String> = Vec::new();
    let mut i: usize = 0;
    proof {
        assert(text::texts(out@) =~= guards.take(0));
    }
    while i < route.guards.len()
        invariant
            i <= route.guards@.len(),
            guards == route@.guards.map_values(|g: BoundView| g.name),
            text::texts(out@) == guards.take(i as int),
        decreases route.guards@.len() - i,
    {
        let ghost before = text::texts(out@);
        out.push(route.guards[i].name().to_owned());
        proof {
            assert(guards.take(i + 1) =~= guards.take(i as int).push(route.guards@[i as int]@.name));
            assert(text::texts(out@) =~= guards.take(i + 1));
        }
        i = i + 1;
    }
    let mut j: usize = 0;
    proof {
        assert(guards.take(i as int) =~= guards);
        assert(guards + filters.take(0) =~= guards);
    }
    while j < route.filters.len()
        invariant
            j <= route.filters@.len(),
            filters == route@.filters.map_values(|f: BindingView| f.name),
            text::texts(out@) == guards + filters.take(j as int),
        decreases route.filters@.len() - j,
    {
        let ghost before = text::texts(out@);
        out.push(route.filters[j].name.clone());
        proof {
            assert(text::texts(out@) =~= before.push(route.filters@[j as int].name@));
            assert(filters.take(j + 1) =~= filters.take(j as int).push(
                route.filters@[j as int].name@,
            ));
            assert(text::texts(out@) =~= guards + filters.take(j + 1));
        }
        j = j + 1;
    }
    proof {
        assert(filters.take(j as int) =~= filters);
    }
    out
}

/// The headers a guard inserts, by name.
fn templates(v: &Vec<(String, String)>) -> (r: StrMap<String>)
    ensures
        registry::urls_view(r@) == template_map(text::pairs_view(v@)),
{
    let ghost pairs = text::pairs_view(v@);
    let mut out: StrMap<String> = StrMap::new();
    let mut i: usize = 0;
    proof {
        assert(pairs.take(0) =~= Seq::empty());
        assert(registry::urls_view(out@) =~= Map::empty());
    }
    while i < v.len()
        invariant
            i <= v@.len(),
            pairs == text::pairs_view(v@),
            registry::urls_view(out@) == template_map(pairs.take(i as int)),
        decreases v@.len() - i,
    {
        proof {
            assert(pairs.take(i + 1).drop_last() =~= pairs.take(i as int));
            assert(pairs.take(i + 1).last() == (v@[i as int].0@, v@[i as int].1@));
        }
        let ghost front = registry::urls_view(out@);
        out.insert(v[i].0.clone(), v[i].1.clone());
        proof {
            assert(registry::urls_view(out@) =~= front.insert(
                v@[i as int].0@,
                v@[i as int].1@,
            ));
        }
        i = i + 1;
    }
    proof {
        assert(pairs.take(i as int) =~= pairs);
    }
    out
}

impl Registry {
    /// Tests whether a filter lets a route pass.
    fn route_matches(&self, route: &CompiledRoute, source: Source, filter: &DescribeFilter) -> (r:
        bool)
        ensures
            r == route_passes(route@, source, *filter),
    {
        if !passes_source(filter, source) {
            return false;
        }
        if !passes_list(&filter.routes, route.name.as_str()) {
            return false;
        }
        if filter.services.len() > 0 {
            match &route.target {
                Target::Service(name) => {
                    if !text::contains_text(&filter.services, name.as_str()) {
                        return false;
                    }
                },
                // A route straight to a URL belongs to no service.
                Target::Url(_) => {
                    return false;
                },
            }
        }
        if filter.plugins.len() > 0 && !any_listed(&names_in(route), &filter.plugins) {
            return false;
        }
        if let Some(path) = &filter.path {
            if route.match_path(path.as_str()).is_none() {
                return false;
            }
        }
        true
    }

    /// Tests whether a filter lets a service pass.
    fn service_matches(
        service: &str,
        source: Source,
        filter: &DescribeFilter,
        targeted: &Vec<String>,
    ) -> (r: bool)
        ensures
            r == service_passes(service@, source, *filter, text::texts(targeted@)),
    {
        if !passes_source(filter, source) {
            return false;
        }
        if !passes_list(&filter.services, service) {
            return false;
        }
        let narrowed = filter.routes.len() > 0 || filter.plugins.len() > 0 || filter.path.is_some();
        !(narrowed && !text::contains_text(targeted, service))
    }

    /// The line of a route.
    pub fn describe_route(&self, route: &CompiledRoute, source: Source) -> (r: DescribedRoute)
        ensures
            r@ == route_line(route@, source, self.static_services@, self.services@),
    {
        let target = match &route.target {
            Target::Url(url) => TargetView::Url { url: url.clone() },
            Target::Service(name) => {
                let (found, instances) = match self.services.get(name.as_str()) {
                    Some(entry) => (true, entry.instances.len()),
                    None => (false, 0),
                };
                let resolution = if self.static_services.contains_key(name.as_str()) {
                    "static"
                } else if found {
                    "registry"
                } else {
                    "unresolved"
                };
                TargetView::Service { service: name.clone(), resolution, instances }
            },
        };
        let ghost bound = route@.guards;
        let mut plugins: Vec<GuardView> = Vec::new();
        let mut i: usize = 0;
        while i < route.guards.len()
            invariant
                i <= route.guards@.len(),
                bound == route@.guards,
                plugins@.len() == i,
                forall|k: int| 0 <= k < i ==> (#[trigger] plugins@[k])@ == guard_line(bound[k]),
            decreases route.guards@.len() - i,
        {
            let guard = &route.guards[i];
            proof {
                assert(bound[i as int] == guard@);
            }
            plugins.push(
                GuardView {
                    name: guard.name().to_owned(),
                    kind: guard.policy_kind(),
                    roles: text::copy_texts(guard.required_roles()),
                    insert_headers: templates(guard.insert_headers()),
                    settings: None,
                },
            );
            i = i + 1;
        }
        let ghost first = bound.map_values(|g: BoundView| guard_line(g));
        let ghost chain = route@.filters;
        let mut j: usize = 0;
        proof {
            assert(guard_lines(plugins@) =~= first);
            assert(first + chain.take(0).map_values(|f: BindingView| filter_line(f)) =~= first);
        }
        while j < route.filters.len()
            invariant
                j <= route.filters@.len(),
                chain == route@.filters,
                guard_lines(plugins@) == first + chain.take(j as int).map_values(
                    |f: BindingView| filter_line(f),
                ),
            decreases route.filters@.len() - j,
        {
            let filter = &route.filters[j];
            let none: StrMap<String> = StrMap::new();
            let no_roles: Vec<String> = Vec::new();
            let ghost before = guard_lines(plugins@);
            proof {
                assert(registry::urls_view(none@) =~= Map::empty());
                assert(text::texts(no_roles@) =~= Seq::empty());
            }
            plugins.push(
                GuardView {
                    name: filter.name.clone(),
                    kind: wasm::KIND,
                    roles: no_roles,
                    insert_headers: none,
                    settings: Some(filter.settings.copy()),
                },
            );
            proof {
                assert(chain[j as int] == filter@);
                assert(chain.take(j + 1).map_values(|f: BindingView| filter_line(f))
                    =~= chain.take(j as int).map_values(|f: BindingView| filter_line(f)).push(
                    filter_line(filter@),
                ));
                assert(guard_lines(plugins@) =~= before.push(filter_line(filter@)));
            }
            j = j + 1;
        }
        proof {
            assert(chain.take(j as int) =~= chain);
        }
        DescribedRoute {
            name: route.name.clone(),
            source,
            target,
            paths: text::copy_texts(&route.paths),
            match_type: route.match_type,
            strip_path: route.strip_path,
            plugins,
        }
    }
}

/// What snapshots tell of a route.
pub open spec fn route_tells(r: RouteView, of: CompiledView) -> bool {
    &&& text::texts(r.paths@) == of.paths
    &&& r.match_type == of.match_type
    &&& r.strip_path == of.strip_path
    &&& text::texts(r.plugins@) == plugin_names(of)
}

/// What snapshots tell of a registered service at a moment.
pub open spec fn service_tells(
    v: ServiceView,
    name: Seq<char>,
    of: RegisteredService,
    now: u128,
) -> bool {
    &&& v.service@ == name
    &&& instance_lines(v.instances@) == lines_of(of.instances.entries(), now)
    &&& v.routes@.len() == of.routes@.len()
    &&& forall|i: int|
        0 <= i < v.routes@.len() ==> route_tells(#[trigger] v.routes@[i], of.routes@[i]@)
}

/// Whether a snapshot tells all the registered services at a moment, in the order of
/// their names.
pub open spec fn snapshot_tells(
    e: Seq<(String, RegisteredService)>,
    now: u128,
    v: Seq<ServiceView>,
) -> bool {
    v.len() == e.len() && forall|i: int|
        0 <= i < v.len() ==> service_tells(#[trigger] v[i], e[i].0@, e[i].1, now)
}

impl Registry {
    /// The registered services at a moment, in the order of their names.
    pub fn snapshot_at(&self, now: u128) -> (r: Vec<ServiceView>)
        ensures
            snapshot_tells(self.services.entries(), now, r@),
    {
        let n = self.services.len();
        let ghost e = self.services.entries();
        let mut out: Vec<ServiceView> = Vec::new();
        let mut i: usize = 0;
        while i < n
            invariant
                i <= n,
                n == e.len(),
                e == self.services.entries(),
                out@.len() == i,
                forall|k: int|
                    0 <= k < i ==> service_tells(#[trigger] out@[k], e[k].0@, e[k].1, now),
            decreases n - i,
        {
            let (name, service) = self.services.at(i);
            let mut routes: Vec<RouteView> = Vec::new();
            let mut j: usize = 0;
            while j < service.routes.len()
                invariant
                    j <= service.routes@.len(),
                    routes@.len() == j,
                    forall|k: int|
                        0 <= k < j ==> route_tells(#[trigger] routes@[k], service.routes@[k]@),
                decreases service.routes@.len() - j,
            {
                let route = &service.routes[j];
                routes.push(
                    RouteView {
                        paths: text::copy_texts(&route.paths),
                        match_type: route.match_type,
                        strip_path: route.strip_path,
                        plugins: names_in(route),
                    },
                );
                j = j + 1;
            }
            out.push(
                ServiceView {
                    service: name.to_owned(),
                    instances: service.instance_views(now),
                    routes,
                },
            );
            i = i + 1;
        }
        out
    }

    /// The registered services, in the order of their names.
    pub fn snapshot(&self) -> (r: Vec<ServiceView>)
        ensures
            exists|now: u128|
                self.clock.shows(now) && #[trigger] snapshot_tells(
                    self.services.entries(),
                    now,
                    r@,
                ),
    {
        self.snapshot_at(self.clock.now())
    }

    /// Adds the routes that a filter lets pass to what was gathered before.
    fn gather(
        &self,
        refs: &Vec<&CompiledRoute>,
        source: Source,
        filter: &DescribeFilter,
        routes: &mut Vec<DescribedRoute>,
        targeted: &mut Vec<String>,
        Ghost(before): Ghost<Seq<(CompiledView, Source)>>,
    )
        requires
            route_lines(old(routes)@) == sorting::sorted(
                lines_for(surviving(before, *filter), self.static_services@, self.services@),
                route_key(),
            ),
            text::texts(old(targeted)@) == targets(surviving(before, *filter)),
        ensures
            route_lines(final(routes)@) == sorting::sorted(
                lines_for(
                    surviving(before + from(route::refs_view(refs@), source), *filter),
                    self.static_services@,
                    self.services@,
                ),
                route_key(),
            ),
            text::texts(final(targeted)@) == targets(
                surviving(before + from(route::refs_view(refs@), source), *filter),
            ),
    {
        let ghost more = from(route::refs_view(refs@), source);
        let mut i: usize = 0;
        proof {
            assert(before + more.take(0) =~= before);
        }
        while i < refs.len()
            invariant
                i <= refs@.len(),
                more == from(route::refs_view(refs@), source),
                route_lines(routes@) == sorting::sorted(
                    lines_for(
                        surviving(before + more.take(i as int), *filter),
                        self.static_services@,
                        self.services@,
                    ),
                    route_key(),
                ),
                text::texts(targeted@) == targets(
                    surviving(before + more.take(i as int), *filter),
                ),
            decreases refs@.len() - i,
        {
            let route = refs[i];
            let ghost had = surviving(before + more.take(i as int), *filter);
            proof {
                let longer = before + more.take(i + 1);
                assert(longer.drop_last() =~= before + more.take(i as int));
                assert(longer.last() == (route@, source));
            }
            if self.route_matches(route, source, filter) {
                let ghost now_has = surviving(before + more.take(i + 1), *filter);
                proof {
                    assert(now_has == had.push((route@, source)));
                    assert(now_has.drop_last() =~= had);
                }
                if let Target::Service(name) = &route.target {
                    let ghost front = text::texts(targeted@);
                    targeted.push(name.clone());
                    proof {
                        assert(text::texts(targeted@) =~= front.push(name@));
                    }
                }
                let line = self.describe_route(route, source);
                let ghost said = line@;
                place_route(routes, line);
                proof {
                    let old_lines = lines_for(had, self.static_services@, self.services@);
                    let new_lines = lines_for(now_has, self.static_services@, self.services@);
                    assert(new_lines =~= old_lines.push(said));
                    assert(new_lines.drop_last() =~= old_lines);
                }
            }
            i = i + 1;
        }
        proof {
            assert(more.take(i as int) =~= more);
        }
    }

    /// The services that a filter lets pass, with the routes that point at them.
    fn gather_services(
        &self,
        filter: &DescribeFilter,
        targeted: &Vec<String>,
        routes: &Vec<DescribedRoute>,
        now: u128,
    ) -> (r: Vec<DescribedService>)
        ensures
            service_lines(r@) == sorting::sorted(
                declared_lines(
                    self.static_services.entries(),
                    *filter,
                    text::texts(targeted@),
                    route_lines(routes@),
                ) + registered_lines(
                    self.services.entries(),
                    *filter,
                    text::texts(targeted@),
                    route_lines(routes@),
                    now,
                ),
                service_key(),
            ),
    {
        let ghost goal = text::texts(targeted@);
        let ghost lines = route_lines(routes@);
        let mut out: Vec<DescribedService> = Vec::new();
        let n = self.static_services.len();
        let ghost e = self.static_services.entries();
        let mut i: usize = 0;
        proof {
            assert(e.take(0) =~= Seq::empty());
            assert(service_lines(out@) =~= Seq::empty());
        }
        while i < n
            invariant
                i <= n,
                n == e.len(),
                e == self.static_services.entries(),
                goal == text::texts(targeted@),
                lines == route_lines(routes@),
                service_lines(out@) == sorting::sorted(
                    declared_lines(e.take(i as int), *filter, goal, lines),
                    service_key(),
                ),
            decreases n - i,
        {
            let (name, url) = self.static_services.at(i);
            proof {
                assert(e.take(i + 1).drop_last() =~= e.take(i as int));
                assert(e.take(i + 1).last() == e[i as int]);
            }
            if Self::service_matches(name, Source::Static, filter, targeted) {
                let none: Vec<InstanceView> = Vec::new();
                proof {
                    assert(instance_lines(none@) =~= Seq::empty());
                }
                let line = DescribedService {
                    service: name.to_owned(),
                    source: Source::Static,
                    url: Some(url.clone()),
                    instances: none,
                    routes: route_names(routes, name),
                };
                place_service(&mut out, line);
                proof {
                    let longer = declared_lines(e.take(i + 1), *filter, goal, lines);
                    assert(longer.drop_last() =~= declared_lines(
                        e.take(i as int),
                        *filter,
                        goal,
                        lines,
                    ));
                }
            }
            i = i + 1;
        }
        proof {
            assert(e.take(i as int) =~= e);
        }
        let ghost fixed = declared_lines(e, *filter, goal, lines);
        let m = self.services.len();
        let ghost d = self.services.entries();
        let mut j: usize = 0;
        proof {
            assert(d.take(0) =~= Seq::empty());
            assert(fixed + registered_lines(d.take(0), *filter, goal, lines, now) =~= fixed);
        }
        while j < m
            invariant
                j <= m,
                m == d.len(),
                d == self.services.entries(),
                goal == text::texts(targeted@),
                lines == route_lines(routes@),
                service_lines(out@) == sorting::sorted(
                    fixed + registered_lines(d.take(j as int), *filter, goal, lines, now),
                    service_key(),
                ),
            decreases m - j,
        {
            let (name, service) = self.services.at(j);
            proof {
                assert(d.take(j + 1).drop_last() =~= d.take(j as int));
                assert(d.take(j + 1).last() == d[j as int]);
            }
            if Self::service_matches(name, Source::Dynamic, filter, targeted) {
                let line = DescribedService {
                    service: name.to_owned(),
                    source: Source::Dynamic,
                    url: None,
                    instances: service.instance_views(now),
                    routes: route_names(routes, name),
                };
                place_service(&mut out, line);
                proof {
                    let shorter = fixed + registered_lines(
                        d.take(j as int),
                        *filter,
                        goal,
                        lines,
                        now,
                    );
                    let longer = fixed + registered_lines(d.take(j + 1), *filter, goal, lines, now);
                    assert(longer.drop_last() =~= shorter);
                    assert(longer.last() == line@);
                }
            }
            j = j + 1;
        }
        proof {
            assert(d.take(j as int) =~= d);
        }
        out
    }

    /// The plugins that a filter lets pass.
    fn gather_plugins(&self, filter: &DescribeFilter) -> (r: Vec<PluginView>)
        ensures
            plugin_pairs(r@) == plugin_lines(self.catalog.entries(), *filter),
    {
        let n = self.catalog.len();
        let ghost e = self.catalog.entries();
        let mut out: Vec<PluginView> = Vec::new();
        let mut i: usize = 0;
        proof {
            assert(e.take(0) =~= Seq::empty());
            assert(plugin_pairs(out@) =~= Seq::empty());
        }
        while i < n
            invariant
                i <= n,
                n == e.len(),
                e == self.catalog.entries(),
                plugin_pairs(out@) == plugin_lines(e.take(i as int), *filter),
            decreases n - i,
        {
            let (name, entry) = self.catalog.at(i);
            proof {
                assert(e.take(i + 1).drop_last() =~= e.take(i as int));
                assert(e.take(i + 1).last() == e[i as int]);
            }
            if passes_list(&filter.plugins, name) {
                let ghost front = plugin_pairs(out@);
                let kind = entry.kind();
                out.push(PluginView { name: name.to_owned(), kind });
                proof {
                    assert(plugin_pairs(out@) =~= front.push((name@, kind@)));
                }
            }
            i = i + 1;
        }
        proof {
            assert(e.take(i as int) =~= e);
        }
        out
    }

    /// Everything the gateway routes at a moment, as far as a filter lets it pass.
    pub fn describe_at(&self, filter: &DescribeFilter, now: u128) -> (r: DescribeView)
        ensures
            describes(*self, *filter, now, r),
    {
        let mut routes: Vec<DescribedRoute> = Vec::new();
        let mut targeted: Vec<String> = Vec::new();
        let ghost none: Seq<(CompiledView, Source)> = Seq::empty();
        proof {
            assert(route_lines(routes@) =~= Seq::empty());
            assert(text::texts(targeted@) =~= Seq::empty());
            assert(lines_for(
                surviving(none, *filter),
                self.static_services@,
                self.services@,
            ) =~= Seq::empty());
        }
        let fixed = registry::static_refs(&self.static_routes);
        self.gather(&fixed, Source::Static, filter, &mut routes, &mut targeted, Ghost(none));
        let dynamic = registry::dynamic_refs(&self.services);
        let ghost first = from(route::routes_view(self.static_routes@), Source::Static);
        proof {
            assert(none + first =~= first);
        }
        self.gather(&dynamic, Source::Dynamic, filter, &mut routes, &mut targeted, Ghost(first));
        let services = self.gather_services(filter, &targeted, &routes, now);
        let plugins = self.gather_plugins(filter);
        let ghost lines = service_lines(services@);
        let mut instances: usize = 0;
        let mut i: usize = 0;
        proof {
            assert(lines.take(0) =~= Seq::empty());
        }
        while i < services.len()
            invariant
                i <= services@.len(),
                lines == service_lines(services@),
                instances == if instances_on(lines.take(i as int)) <= usize::MAX {
                    instances_on(lines.take(i as int)) as usize
                } else {
                    usize::MAX
                },
            decreases services@.len() - i,
        {
            proof {
                assert(lines.take(i + 1).drop_last() =~= lines.take(i as int));
                assert(lines.take(i + 1).last() == services@[i as int]@);
            }
            instances = instances.saturating_add(services[i].instances.len());
            i = i + 1;
        }
        proof {
            assert(lines.take(i as int) =~= lines);
        }
        DescribeView {
            summary: SummaryView {
                heartbeat_ttl_seconds: self.ttl,
                testing_userinfo_overrides: self.userinfo_overrides,
                services: services.len(),
                instances,
                routes: routes.len(),
            },
            plugins,
            services,
            routes,
        }
    }

    /// Everything the gateway routes, as far as a filter lets it pass.
    pub fn describe(&self, filter: &DescribeFilter) -> (r: DescribeView)
        ensures
            exists|now: u128|
                self.clock.shows(now) && #[trigger] describes(*self, *filter, now, r),
    {
        self.describe_at(filter, self.clock.now())
    }
}

/// Filters combine with AND: a route passes a filter exactly where it passes each part of
/// it alone.
pub proof fn law_filters_combine_with_and(
    r: CompiledView,
    source: Source,
    f: DescribeFilter,
    by_source: DescribeFilter,
    by_route: DescribeFilter,
    by_service: DescribeFilter,
    by_plugin: DescribeFilter,
    by_path: DescribeFilter,
)
    requires
        narrows_by(by_source, f.source, Seq::empty(), Seq::empty(), Seq::empty(), None),
        narrows_by(by_route, None, f.routes@, Seq::empty(), Seq::empty(), None),
        narrows_by(by_service, None, Seq::empty(), f.services@, Seq::empty(), None),
        narrows_by(by_plugin, None, Seq::empty(), Seq::empty(), f.plugins@, None),
        narrows_by(by_path, None, Seq::empty(), Seq::empty(), Seq::empty(), f.path),
    ensures
        route_passes(r, source, f) <==> route_passes(r, source, by_source) && route_passes(
            r,
            source,
            by_route,
        ) && route_passes(r, source, by_service) && route_passes(r, source, by_plugin)
            && route_passes(r, source, by_path),
{
}

/// Whether a filter narrows by these alone.
pub open spec fn narrows_by(
    f: DescribeFilter,
    source: Option<Source>,
    routes: Seq<String>,
    services: Seq<String>,
    plugins: Seq<String>,
    path: Option<String>,
) -> bool {
    &&& f.source == source
    &&& f.routes@ == routes
    &&& f.services@ == services
    &&& f.plugins@ == plugins
    &&& f.path == path
}

/// An empty filter lets everything pass.
pub proof fn law_an_empty_filter_passes_everything(
    r: CompiledView,
    source: Source,
    f: DescribeFilter,
)
    requires
        f.source is None,
        f.path is None,
        f.routes@.len() == 0,
        f.services@.len() == 0,
        f.plugins@.len() == 0,
    ensures
        route_passes(r, source, f),
{
}

} // verus!
