//! What services and operators are told of the gateway.

use crate::api;
use crate::api::RegisterReply;
use crate::auth::BoundView;
use crate::plugins::wasm::BindingView;
use crate::registry;
use crate::registry::describe;
use crate::registry::describe::{
    DescribeFilter, DescribeView, DescribedRoute, InstanceView, RouteLine, ServiceLine, ServiceView,
    Source, TargetLine,
};
use crate::registry::route;
use crate::registry::route::{CompiledRoute, CompiledView, Goal};
use crate::registry::{
    Declared, RegisteredService, Registration, RegistrationRequest, Registry,
};
use crate::sorting;
use crate::text;
use vstd::prelude::*;
use vstd::string::*;

verus! {

/// Each instance of a service is shown with its id, its address and the whole seconds since it
/// was last heard of, in the order of the ids.
pub proof fn law_what_is_shown_of_instances(
    service: RegisteredService,
    now: u128,
    r: Vec<InstanceView>,
    i: int,
)
    requires
        call_ensures(RegisteredService::instance_views, (&service, now), r),
        0 <= i < service.instances.entries().len(),
    ensures
        r@.len() == service.instances.entries().len(),
        ({
            let (id, instance) = service.instances.entries()[i];
            let shown = r@[i];
            &&& shown.instance_id@ == id@
            &&& shown.url@ == instance.url@
            &&& now <= instance.last_heartbeat ==> shown.seconds_since_heartbeat == 0
            &&& instance.last_heartbeat <= now < instance.last_heartbeat + u64::MAX * 1_000_000_000
                ==> shown.seconds_since_heartbeat * 1_000_000_000 <= now - instance.last_heartbeat
                < (shown.seconds_since_heartbeat + 1) * 1_000_000_000
        }),
{
    let e = service.instances.entries();
    let lines = describe::instance_lines(r@);
    assert(lines.len() == r@.len());
    assert(lines[i] == r@[i]@);
    assert(lines == describe::lines_of(e, now));
}

/// Whether a filter lets a route pass: every one of its lists that is not empty must name the
/// route, the service it goes to or one of its plugins, its source must be the route's, and
/// its path must be one that the route takes.
pub open spec fn lets_pass(f: DescribeFilter, r: CompiledView, source: Source) -> bool {
    let plugins = r.guards.map_values(|g: BoundView| g.name) + r.filters.map_values(
        |b: BindingView| b.name,
    );
    &&& f.source is None || f.source == Some(source)
    &&& f.routes@.len() == 0 || text::texts(f.routes@).contains(r.name)
    &&& f.services@.len() == 0 || (r.target is Service && text::texts(f.services@).contains(
        r.target->Service_0,
    ))
    &&& f.plugins@.len() == 0 || exists|i: int|
        0 <= i < plugins.len() && text::texts(f.plugins@).contains(#[trigger] plugins[i])
    &&& f.path is None || route::route_match(r.patterns, f.path->Some_0@) is Some
}

/// Routes pass a filter where it lets them.
proof fn lemma_surviving(v: Seq<(CompiledView, Source)>, f: DescribeFilter)
    ensures
        describe::surviving(v, f) == v.filter(|c: (CompiledView, Source)| lets_pass(f, c.0, c.1)),
    decreases v.len(),
{
    reveal(Seq::filter);
    if v.len() > 0 {
        lemma_surviving(v.drop_last(), f);
        lemma_passes(v.last().0, v.last().1, f);
    }
}

proof fn lemma_passes(r: CompiledView, source: Source, f: DescribeFilter)
    ensures
        describe::route_passes(r, source, f) <==> lets_pass(f, r, source),
{
    let names = r.guards.map_values(|g: BoundView| g.name) + r.filters.map_values(
        |b: BindingView| b.name,
    );
    assert(describe::plugin_names(r) =~= names);
}

/// The routes that are shown are those that the filter lets pass, declared and registered, each
/// on a line of its own, in the order of their names.
pub proof fn law_which_routes_are_shown(
    all: Registry,
    f: DescribeFilter,
    now: u128,
    r: DescribeView,
)
    requires
        call_ensures(Registry::describe_at, (&all, &f, now), r),
    ensures
        ({
            let declared = route::routes_view(all.static_routes@).map_values(
                |v: CompiledView| (v, Source::Static),
            );
            let joined = registry::dynamic_routes(all.services.entries()).map_values(
                |v: CompiledView| (v, Source::Dynamic),
            );
            let passed = (declared + joined).filter(
                |c: (CompiledView, Source)| lets_pass(f, c.0, c.1),
            ).map_values(
                |c: (CompiledView, Source)|
                    describe::route_line(c.0, c.1, all.static_services@, all.services@),
            );
            let shown = describe::route_lines(r.routes@);
            &&& shown.to_multiset() == passed.to_multiset()
            &&& forall|i: int, j: int|
                0 <= i < j < shown.len() ==> !text::precedes(
                    (#[trigger] shown[j]).name,
                    (#[trigger] shown[i]).name,
                )
            &&& r.summary.routes == r.routes@.len()
            &&& r.summary.heartbeat_ttl_seconds == all.ttl
            &&& r.summary.testing_userinfo_overrides == all.userinfo_overrides
        }),
{
    let declared = route::routes_view(all.static_routes@).map_values(
        |v: CompiledView| (v, Source::Static),
    );
    let joined = registry::dynamic_routes(all.services.entries()).map_values(
        |v: CompiledView| (v, Source::Dynamic),
    );
    assert(describe::candidates(all) =~= declared + joined);
    lemma_surviving(declared + joined, f);
    let lines = describe::lines_for(
        describe::surviving(declared + joined, f),
        all.static_services@,
        all.services@,
    );
    sorting::law_sorting_keeps_everything(lines, describe::route_key());
    let shown = describe::route_lines(r.routes@);
    assert forall|i: int, j: int| 0 <= i < j < shown.len() implies !text::precedes(
        (#[trigger] shown[j]).name,
        (#[trigger] shown[i]).name,
    ) by {
        assert((describe::route_key())(shown[j]) == shown[j].name);
        assert((describe::route_key())(shown[i]) == shown[i].name);
    }
    assert(shown.len() == r.routes@.len());
}

/// What a line tells of a route: its own name, paths and flags, where it goes, and its guards
/// and then its filters, each in order.
#[verifier::spinoff_prover]
#[verifier::rlimit(50)]
pub proof fn law_what_is_shown_of_a_route(
    all: Registry,
    made: CompiledRoute,
    source: Source,
    r: DescribedRoute,
)
    requires
        call_ensures(Registry::describe_route, (&all, &made, source), r),
    ensures
        r.name@ == made.name@,
        r.source == source,
        text::texts(r.paths@) == text::texts(made.paths@),
        r.match_type == made.match_type,
        r.strip_path == made.strip_path,
        made.target@ matches Goal::Url(url) ==> r@.target == TargetLine::Url(url),
        made.target@ matches Goal::Service(name) ==> (r@.target matches TargetLine::Service(
            shown,
            found,
            count,
        ) && shown == name && found == (if all.static_services@.contains_key(name) {
            "static"@
        } else if all.services@.contains_key(name) {
            "registry"@
        } else {
            "unresolved"@
        }) && count == (if all.services@.contains_key(name) {
            all.services@[name].instances@.len()
        } else {
            0
        })),
        r.plugins@.len() == made.guards@.len() + made.filters@.len(),
        forall|i: int|
            0 <= i < made.guards@.len() ==> (#[trigger] made.guards@[i]).name@ == r.plugins@[i].name@
                && r.plugins@[i].settings is None && text::texts(r.plugins@[i].roles@)
                == text::texts(made.guards@[i].required_roles@),
        forall|i: int|
            0 <= i < made.filters@.len() ==> ({
                let shown = r.plugins@[made.guards@.len() + i];
                (#[trigger] made.filters@[i]).name@ == shown.name@ && shown.roles@.len() == 0
                    && shown.kind@ == "wasm-plugin"@ && shown@.settings == Some(
                    made.filters@[i].settings@,
                )
            }),
{
    let lines = describe::guard_lines(r.plugins@);
    let guards = made@.guards.map_values(|g: BoundView| describe::guard_line(g));
    let filters = made@.filters.map_values(|b: BindingView| describe::filter_line(b));
    assert(r@.plugins == lines);
    assert(lines == guards + filters);
    assert(lines.len() == r.plugins@.len());
    assert(guards.len() == made.guards@.len());
    assert(filters.len() == made.filters@.len());
    assert forall|i: int| 0 <= i < made.guards@.len() implies (#[trigger] made.guards@[i]).name@
        == r.plugins@[i].name@ && r.plugins@[i].settings is None && text::texts(
        r.plugins@[i].roles@,
    ) == text::texts(made.guards@[i].required_roles@) by {
        assert(lines[i] == r.plugins@[i]@);
        assert(lines[i] == guards[i]);
        assert(guards[i] == describe::guard_line(made@.guards[i]));
        assert(made@.guards[i] == made.guards@[i]@);
    }
    assert forall|i: int| 0 <= i < made.filters@.len() implies ({
        let shown = r.plugins@[made.guards@.len() + i];
        (#[trigger] made.filters@[i]).name@ == shown.name@ && shown.roles@.len() == 0
            && shown.kind@ == "wasm-plugin"@ && shown@.settings == Some(made.filters@[i].settings@)
    }) by {
        let at = made.guards@.len() + i;
        assert(lines[at] == r.plugins@[at]@);
        assert(lines[at] == filters[i]);
        assert(filters[i] == describe::filter_line(made@.filters[i]));
        assert(made@.filters[i] == made.filters@[i]@);
        assert(text::texts(r.plugins@[at].roles@).len() == r.plugins@[at].roles@.len());
    }
}

/// Whether a filter lets a service pass. One that narrows the routes shows only the services
/// that those routes go to.
pub open spec fn lets_service_pass(
    f: DescribeFilter,
    service: Seq<char>,
    source: Source,
    passed: Seq<(CompiledView, Source)>,
) -> bool {
    &&& f.source is None || f.source == Some(source)
    &&& f.services@.len() == 0 || text::texts(f.services@).contains(service)
    &&& f.routes@.len() > 0 || f.plugins@.len() > 0 || f.path is Some ==> exists|i: int|
        0 <= i < passed.len() && (#[trigger] passed[i]).0.target == Goal::Service(service)
}

proof fn lemma_targets(v: Seq<(CompiledView, Source)>, service: Seq<char>)
    ensures
        describe::targets(v).contains(service) <==> exists|i: int|
            0 <= i < v.len() && (#[trigger] v[i]).0.target == Goal::Service(service),
    decreases v.len(),
{
    if v.len() > 0 {
        let front = v.drop_last();
        lemma_targets(front, service);
        let before = describe::targets(front);
        assert(v[v.len() - 1] == v.last());
        assert(forall|i: int| 0 <= i < front.len() ==> front[i] == #[trigger] v[i]);
        if let Goal::Service(name) = v.last().0.target {
            let all = before.push(name);
            assert(all.contains(service) <==> before.contains(service) || name == service) by {
                if before.contains(service) {
                    let k = choose|k: int| 0 <= k < before.len() && before[k] == service;
                    assert(all[k] == service);
                }
                if name == service {
                    assert(all[before.len() as int] == service);
                }
                if all.contains(service) {
                    let k = choose|k: int| 0 <= k < all.len() && all[k] == service;
                    if k < before.len() {
                        assert(before[k] == service);
                    }
                }
            }
        }
        if before.contains(service) {
            let i = choose|i: int|
                0 <= i < front.len() && (#[trigger] front[i]).0.target == Goal::Service(service);
            assert(v[i] == front[i]);
        }
        if exists|i: int|
            0 <= i < v.len() && (#[trigger] v[i]).0.target == Goal::Service(service) {
            let i = choose|i: int|
                0 <= i < v.len() && (#[trigger] v[i]).0.target == Goal::Service(service);
            if i < front.len() {
                assert(front[i] == v[i]);
            }
        }
    }
}

proof fn lemma_declared(
    e: Seq<(String, String)>,
    f: DescribeFilter,
    passed: Seq<(CompiledView, Source)>,
    routes: Seq<RouteLine>,
)
    ensures
        describe::declared_lines(e, f, describe::targets(passed), routes) == e.filter(
            |x: (String, String)| lets_service_pass(f, x.0@, Source::Static, passed),
        ).map_values(
            |x: (String, String)|
                ServiceLine {
                    service: x.0@,
                    source: Source::Static,
                    url: Some(x.1@),
                    instances: Seq::empty(),
                    routes: describe::names_to(routes, x.0@),
                },
        ),
    decreases e.len(),
{
    reveal(Seq::filter);
    let keep = |x: (String, String)| lets_service_pass(f, x.0@, Source::Static, passed);
    let line = |x: (String, String)|
        ServiceLine {
            service: x.0@,
            source: Source::Static,
            url: Some(x.1@),
            instances: Seq::empty(),
            routes: describe::names_to(routes, x.0@),
        };
    if e.len() == 0 {
        assert(Seq::<ServiceLine>::empty() =~= e.filter(keep).map_values(line));
    } else {
        lemma_declared(e.drop_last(), f, passed, routes);
        lemma_targets(passed, e.last().0@);
        let front = e.drop_last().filter(keep);
        if keep(e.last()) {
            assert(front.push(e.last()).map_values(line) =~= front.map_values(line).push(
                line(e.last()),
            ));
        }
    }
}

proof fn lemma_registered(
    e: Seq<(String, RegisteredService)>,
    f: DescribeFilter,
    passed: Seq<(CompiledView, Source)>,
    routes: Seq<RouteLine>,
    now: u128,
)
    ensures
        describe::registered_lines(e, f, describe::targets(passed), routes, now) == e.filter(
            |x: (String, RegisteredService)| lets_service_pass(f, x.0@, Source::Dynamic, passed),
        ).map_values(
            |x: (String, RegisteredService)|
                ServiceLine {
                    service: x.0@,
                    source: Source::Dynamic,
                    url: None,
                    instances: describe::lines_of(x.1.instances.entries(), now),
                    routes: describe::names_to(routes, x.0@),
                },
        ),
    decreases e.len(),
{
    reveal(Seq::filter);
    let keep = |x: (String, RegisteredService)|
        lets_service_pass(f, x.0@, Source::Dynamic, passed);
    let line = |x: (String, RegisteredService)|
        ServiceLine {
            service: x.0@,
            source: Source::Dynamic,
            url: None,
            instances: describe::lines_of(x.1.instances.entries(), now),
            routes: describe::names_to(routes, x.0@),
        };
    if e.len() == 0 {
        assert(Seq::<ServiceLine>::empty() =~= e.filter(keep).map_values(line));
    } else {
        lemma_registered(e.drop_last(), f, passed, routes, now);
        lemma_targets(passed, e.last().0@);
        let front = e.drop_last().filter(keep);
        if keep(e.last()) {
            assert(front.push(e.last()).map_values(line) =~= front.map_values(line).push(
                line(e.last()),
            ));
        }
    }
}

/// The services that are shown are the declared and the registered ones that the filter lets
/// pass: a declared one with its address, a registered one with its instances, both with the
/// names of the shown routes that go to them, in the order of their names.
#[verifier::spinoff_prover]
#[verifier::rlimit(50)]
pub proof fn law_which_services_are_shown(
    all: Registry,
    f: DescribeFilter,
    now: u128,
    r: DescribeView,
)
    requires
        call_ensures(Registry::describe_at, (&all, &f, now), r),
    ensures
        ({
            let passed = describe::candidates(all).filter(
                |c: (CompiledView, Source)| lets_pass(f, c.0, c.1),
            );
            let routes = describe::route_lines(r.routes@);
            let declared = all.static_services.entries().filter(
                |x: (String, String)| lets_service_pass(f, x.0@, Source::Static, passed),
            ).map_values(
                |x: (String, String)|
                    ServiceLine {
                        service: x.0@,
                        source: Source::Static,
                        url: Some(x.1@),
                        instances: Seq::empty(),
                        routes: describe::names_to(routes, x.0@),
                    },
            );
            let joined = all.services.entries().filter(
                |x: (String, RegisteredService)|
                    lets_service_pass(f, x.0@, Source::Dynamic, passed),
            ).map_values(
                |x: (String, RegisteredService)|
                    ServiceLine {
                        service: x.0@,
                        source: Source::Dynamic,
                        url: None,
                        instances: describe::lines_of(x.1.instances.entries(), now),
                        routes: describe::names_to(routes, x.0@),
                    },
            );
            let shown = describe::service_lines(r.services@);
            &&& shown.to_multiset() == (declared + joined).to_multiset()
            &&& forall|i: int, j: int|
                0 <= i < j < shown.len() ==> !text::precedes(
                    (#[trigger] shown[j]).service,
                    (#[trigger] shown[i]).service,
                )
            &&& r.summary.services == r.services@.len()
            &&& describe::instances_on(shown) <= usize::MAX ==> r.summary.instances
                == describe::instances_on(shown)
        }),
{
    let passed = describe::surviving(describe::candidates(all), f);
    lemma_surviving(describe::candidates(all), f);
    let routes = describe::route_lines(r.routes@);
    lemma_declared(all.static_services.entries(), f, passed, routes);
    lemma_registered(all.services.entries(), f, passed, routes, now);
    let lines = describe::declared_lines(
        all.static_services.entries(),
        f,
        describe::targets(passed),
        routes,
    ) + describe::registered_lines(
        all.services.entries(),
        f,
        describe::targets(passed),
        routes,
        now,
    );
    sorting::law_sorting_keeps_everything(lines, describe::service_key());
    let shown = describe::service_lines(r.services@);
    assert(shown == sorting::sorted(lines, describe::service_key()));
    assert forall|i: int, j: int| 0 <= i < j < shown.len() implies !text::precedes(
        (#[trigger] shown[j]).service,
        (#[trigger] shown[i]).service,
    ) by {
        assert((describe::service_key())(shown[j]) == shown[j].service);
        assert((describe::service_key())(shown[i]) == shown[i].service);
    }
    assert(shown.len() == r.services@.len());
}

/// The routes that are named on a service's line are those that go to it, in order.
pub proof fn law_which_routes_go_to_a_service(lines: Seq<RouteLine>, service: Seq<char>)
    ensures
        describe::names_to(lines, service) == lines.filter(
            |l: RouteLine| l.target is Service && l.target->Service_0 == service,
        ).map_values(|l: RouteLine| l.name),
    decreases lines.len(),
{
    reveal(Seq::filter);
    let keep = |l: RouteLine| l.target is Service && l.target->Service_0 == service;
    let name = |l: RouteLine| l.name;
    if lines.len() == 0 {
        assert(Seq::<Seq<char>>::empty() =~= lines.filter(keep).map_values(name));
    } else {
        law_which_routes_go_to_a_service(lines.drop_last(), service);
        let front = lines.drop_last().filter(keep);
        if keep(lines.last()) {
            assert(front.push(lines.last()).map_values(name) =~= front.map_values(name).push(
                name(lines.last()),
            ));
        }
    }
}

/// The plugins that are shown are the declared ones that the filter names, or all of them
/// where it names none, with what kind each is.
pub proof fn law_which_plugins_are_shown(
    all: Registry,
    f: DescribeFilter,
    now: u128,
    r: DescribeView,
)
    requires
        call_ensures(Registry::describe_at, (&all, &f, now), r),
    ensures
        describe::plugin_pairs(r.plugins@) == all.catalog.entries().filter(
            |x: (String, Declared)|
                f.plugins@.len() == 0 || text::texts(f.plugins@).contains(x.0@),
        ).map_values(|x: (String, Declared)| (x.0@, registry::declared_kind(x.1@))),
{
    lemma_plugins(all.catalog.entries(), f);
}

proof fn lemma_plugins(e: Seq<(String, Declared)>, f: DescribeFilter)
    ensures
        describe::plugin_lines(e, f) == e.filter(
            |x: (String, Declared)|
                f.plugins@.len() == 0 || text::texts(f.plugins@).contains(x.0@),
        ).map_values(|x: (String, Declared)| (x.0@, registry::declared_kind(x.1@))),
    decreases e.len(),
{
    reveal(Seq::filter);
    let keep = |x: (String, Declared)|
        f.plugins@.len() == 0 || text::texts(f.plugins@).contains(x.0@);
    let line = |x: (String, Declared)| (x.0@, registry::declared_kind(x.1@));
    assert(text::texts(f.plugins@).len() == f.plugins@.len());
    if e.len() == 0 {
        assert(Seq::<(Seq<char>, Seq<char>)>::empty() =~= e.filter(keep).map_values(line));
    } else {
        lemma_plugins(e.drop_last(), f);
        let front = e.drop_last().filter(keep);
        if keep(e.last()) {
            assert(front.push(e.last()).map_values(line) =~= front.map_values(line).push(
                line(e.last()),
            ));
        }
    }
}

/// The instances that a summary counts are those on the lines of the shown services.
pub proof fn law_how_instances_are_counted(lines: Seq<ServiceLine>, line: ServiceLine)
    ensures
        describe::instances_on(lines.push(line)) == describe::instances_on(lines)
            + line.instances.len(),
        describe::instances_on(Seq::empty()) == 0,
{
    assert(lines.push(line).drop_last() =~= lines);
}

/// A snapshot tells every registered service with its instances and routes, in the order of
/// the names.
pub proof fn law_what_a_snapshot_tells(
    all: Registry,
    now: u128,
    r: Vec<ServiceView>,
    i: int,
    j: int,
)
    requires
        call_ensures(Registry::snapshot_at, (&all, now), r),
        0 <= i < all.services.entries().len(),
        0 <= j < all.services.entries()[i].1.routes@.len(),
    ensures
        r@.len() == all.services.entries().len(),
        ({
            let (name, service) = all.services.entries()[i];
            let told = r@[i];
            let own = service.routes@[j];
            &&& told.service@ == name@
            &&& told.routes@.len() == service.routes@.len()
            &&& text::texts(told.routes@[j].paths@) == text::texts(own.paths@)
            &&& told.routes@[j].match_type == own.match_type
            &&& told.routes@[j].strip_path == own.strip_path
            &&& told.routes@[j].plugins@.len() == own.guards@.len() + own.filters@.len()
            &&& told.instances@.len() == service.instances.entries().len()
        }),
{
    let (name, service) = all.services.entries()[i];
    let told = r@[i];
    assert(describe::service_tells(told, name@, service, now));
    assert(describe::route_tells(told.routes@[j], service.routes@[j]@));
    assert(text::texts(told.routes@[j].plugins@).len() == told.routes@[j].plugins@.len());
    assert(describe::instance_lines(told.instances@).len() == told.instances@.len());
}

/// An instance that is registered is told its own names, its lifetime, how often to say it is
/// alive, three times in that lifetime and at least once a second, and where.
pub proof fn law_what_a_registered_instance_is_told(
    all: Registry,
    request: RegistrationRequest,
    r: RegisterReply,
)
    requires
        api::answers_registration(all, request, r),
    ensures
        ({
            let came = registry::registration_spec(
                request,
                all.static_services@,
                all.catalog@,
            );
            &&& came is Routes <==> r is Created
            &&& came is Conflict <==> r is Conflict
            &&& r matches RegisterReply::Created(c) ==> {
                &&& c.service@ == request.service@
                &&& c.instance_id@ == request.instance_id@
                &&& c.ttl_seconds == all.ttl
                &&& c.heartbeat_interval_seconds >= 1
                &&& all.ttl >= 3 ==> 3 * c.heartbeat_interval_seconds <= all.ttl < 3 * (
                c.heartbeat_interval_seconds + 1)
                &&& all.ttl < 3 ==> c.heartbeat_interval_seconds == 1
                &&& c.heartbeat_url@ == "/registry/services/"@ + request.service@
                    + "/instances/"@ + request.instance_id@
            }
            &&& r matches RegisterReply::Conflict(m) ==> came == Registration::Conflict(m@)
            &&& r matches RegisterReply::BadRequest(m) ==> came == Registration::Invalid(m@)
        }),
{
}

/// An instance that is not known is told so, by its own name and that of its service.
pub proof fn law_what_an_unknown_instance_is_told(service: Seq<char>, instance_id: Seq<char>)
    ensures
        api::unknown_instance(service, instance_id) == "instance '"@ + instance_id
            + "' of service '"@ + service + "' is not registered"@,
{
}

} // verus!
