//! Services that register themselves, and what becomes of declared and registered routes.

use crate::auth::BoundView;
use crate::config::{GatewayConfig, PluginConfig, PluginReference, RouteConfig, ServiceConfig};
use crate::plugins::wasm::BindingView;
use crate::registry;
use crate::registry::route;
use crate::registry::route::{Bound, CompiledRoute, Goal};
use crate::registry::{
    Declared, DeclaredView, PluginRequirement, RegisteredInstance, RegisteredService, Registration,
    RegistrationRequest, Registry, RouteSpec,
};
use crate::strmap::StrMap;
use crate::text;
use vstd::prelude::*;
use vstd::string::*;

verus! {

/// An instance counts as alive as long as no more than the allowed seconds have gone by since
/// it last said so.
pub proof fn law_how_long_an_instance_lives(i: RegisteredInstance, ttl: u64, now: u128)
    ensures
        registry::alive(i, ttl, now) <==> now <= i.last_heartbeat + ttl * 1_000_000_000,
{
}

/// Whether a text begins as the address of a web server does.
pub open spec fn web_address(url: Seq<char>) -> bool {
    ||| url.len() >= 7 && url.take(7) == seq!['h', 't', 't', 'p', ':', '/', '/']
    ||| url.len() >= 8 && url.take(8) == seq!['h', 't', 't', 'p', 's', ':', '/', '/']
}

proof fn lemma_web_address(url: Seq<char>)
    ensures
        route::is_url(url) <==> web_address(url),
{
    reveal_strlit("http://");
    reveal_strlit("https://");
    text::lemma_prefix(url, "http://"@);
    text::lemma_prefix(url, "https://"@);
    assert("http://"@ =~= seq!['h', 't', 't', 'p', ':', '/', '/']);
    assert("https://"@ =~= seq!['h', 't', 't', 'p', 's', ':', '/', '/']);
}

/// A registration is refused for the first of these that is wrong with it: its service or its
/// instance has no name, its address is none, its service is declared by the gateway itself,
/// or one of its routes cannot be compiled. Else it is accepted.
pub proof fn law_which_registrations_are_refused(
    request: RegistrationRequest,
    urls: Map<Seq<char>, String>,
    catalog: Map<Seq<char>, Declared>,
)
    ensures
        ({
            let r = registry::registration_spec(request, urls, catalog);
            let unnamed = text::trim_spec(request.service@).len() == 0;
            let unidentified = text::trim_spec(request.instance_id@).len() == 0;
            let nowhere = !web_address(request.url@);
            let taken = urls.contains_key(request.service@);
            &&& unnamed ==> r == Registration::Invalid("service must not be empty"@)
            &&& !unnamed && unidentified ==> r == Registration::Invalid(
                "instanceId must not be empty"@,
            )
            &&& !unnamed && !unidentified && nowhere ==> r == Registration::Invalid(
                "url must start with http:// or https://"@,
            )
            &&& !unnamed && !unidentified && !nowhere && taken ==> r == Registration::Conflict(
                "service '"@ + request.service@
                    + "' is statically defined in the gateway config and cannot self-register"@,
            )
            &&& !unnamed && !unidentified && !nowhere && !taken ==> {
                &&& r is Routes <==> forall|i: int|
                    0 <= i < request.routes@.len() ==> route::registered_route_spec(
                        request.service@,
                        i as nat,
                        #[trigger] request.routes@[i],
                        catalog,
                    ) is Ok
                &&& r matches Registration::Routes(routes) ==> routes.len() == request.routes@.len()
                    && forall|i: int|
                    0 <= i < request.routes@.len() ==> route::registered_route_spec(
                        request.service@,
                        i as nat,
                        #[trigger] request.routes@[i],
                        catalog,
                    ) == Ok::<route::CompiledView, Seq<char>>(routes[i])
                &&& !(r is Routes) ==> r is Invalid
            }
        }),
{
    lemma_web_address(request.url@);
    let f = |i: int|
        route::registered_route_spec(request.service@, i as nat, request.routes@[i], catalog);
    let all = Seq::new(request.routes@.len(), f);
    lemma_all(all);
    let n = request.routes@.len();
    if route::collected(all) is Ok {
        assert forall|i: int| 0 <= i < n implies route::registered_route_spec(
            request.service@,
            i as nat,
            #[trigger] request.routes@[i],
            catalog,
        ) == Ok::<route::CompiledView, Seq<char>>(route::collected(all)->Ok_0[i]) by {
            assert(all[i] == f(i));
        }
    } else {
        let i = choose|i: int| 0 <= i < all.len() && !((#[trigger] all[i]) is Ok);
        assert(all[i] == f(i));
        assert(!(route::registered_route_spec(
            request.service@,
            i as nat,
            request.routes@[i],
            catalog,
        ) is Ok));
    }
}

/// Collected results are all of them, or an error where one is.
proof fn lemma_all<T>(rs: Seq<Result<T, Seq<char>>>)
    ensures
        route::collected(rs) is Ok <==> forall|i: int|
            0 <= i < rs.len() ==> (#[trigger] rs[i]) is Ok,
        route::collected(rs) matches Ok(v) ==> v.len() == rs.len() && forall|i: int|
            0 <= i < rs.len() ==> #[trigger] rs[i] == Ok::<T, Seq<char>>(v[i]),
    decreases rs.len(),
{
    if rs.len() > 0 {
        let front = rs.drop_last();
        lemma_all(front);
        assert(rs[rs.len() - 1] == rs.last());
        if route::collected(front) is Ok {
            assert forall|i: int| 0 <= i < rs.len() - 1 implies #[trigger] rs[i] == Ok::<
                T,
                Seq<char>,
            >(route::collected(front)->Ok_0[i]) by {
                assert(front[i] == rs[i]);
            }
        } else {
            let i = choose|i: int| 0 <= i < front.len() && !((#[trigger] front[i]) is Ok);
            assert(rs[i] == front[i]);
        }
    }
}

/// An accepted registration gives its instance its address and counts it as heard of now. No
/// other instance and no other service changes, and neither does whose turn it is. Routes are
/// replaced by those it brings, where it brings any.
pub proof fn law_what_a_registration_changes(
    before: Map<Seq<char>, RegisteredService>,
    request: RegistrationRequest,
    routes: Seq<route::CompiledView>,
    now: u128,
    after: Map<Seq<char>, RegisteredService>,
    service: Seq<char>,
    id: Seq<char>,
)
    requires
        registry::registered(before, request, routes, now, after),
    ensures
        after.contains_key(request.service@),
        ({
            let made = after[request.service@].instances@;
            &&& made.contains_key(request.instance_id@)
            &&& made[request.instance_id@].url@ == request.url@
            &&& made[request.instance_id@].last_heartbeat == now
            &&& before.contains_key(request.service@) && id != request.instance_id@ ==> (
            made.contains_key(id) <==> before[request.service@].instances@.contains_key(id))
                && made[id] == before[request.service@].instances@[id]
            &&& !before.contains_key(request.service@) && id != request.instance_id@
                ==> !made.contains_key(id)
        }),
        service != request.service@ ==> (after.contains_key(service) <==> before.contains_key(
            service,
        )),
        service != request.service@ && before.contains_key(service) ==> after[service]
            == before[service],
        before.contains_key(request.service@) ==> after[request.service@].cursor
            == before[request.service@].cursor,
        routes.len() > 0 ==> route::routes_view(after[request.service@].routes@) == routes,
        routes.len() == 0 && before.contains_key(request.service@) ==> route::routes_view(
            after[request.service@].routes@,
        ) == route::routes_view(before[request.service@].routes@),
{
}

/// A heartbeat counts its instance as heard of now, and changes nothing else: not the
/// instance's address, not another instance, not another service.
pub proof fn law_what_a_heartbeat_changes(
    before: Map<Seq<char>, RegisteredService>,
    beating: Seq<char>,
    instance_id: Seq<char>,
    now: u128,
    after: Map<Seq<char>, RegisteredService>,
    service: Seq<char>,
    id: Seq<char>,
)
    requires
        before.contains_key(beating),
        before[beating].instances@.contains_key(instance_id),
        registry::beaten(before, beating, instance_id, now, after),
    ensures
        after.contains_key(service) <==> before.contains_key(service),
        before.contains_key(service) && service != beating ==> after[service] == before[service],
        after[beating].routes == before[beating].routes,
        after[beating].cursor == before[beating].cursor,
        after[beating].instances@.contains_key(id) <==> before[beating].instances@.contains_key(id),
        after[beating].instances@[instance_id].last_heartbeat == now,
        after[beating].instances@[instance_id].url == before[beating].instances@[instance_id].url,
        id != instance_id && before[beating].instances@.contains_key(id)
            ==> after[beating].instances@[id] == before[beating].instances@[id],
{
}

/// Taking an instance out leaves every other instance and service as it was; with its last
/// instance a service goes too, and its routes with it.
pub proof fn law_what_leaving_changes(
    before: Map<Seq<char>, RegisteredService>,
    leaving: Seq<char>,
    instance_id: Seq<char>,
    after: Map<Seq<char>, RegisteredService>,
    service: Seq<char>,
    id: Seq<char>,
)
    requires
        before.contains_key(leaving),
        registry::left(before, leaving, instance_id, after),
    ensures
        service != leaving ==> (after.contains_key(service) <==> before.contains_key(service)),
        service != leaving && before.contains_key(service) ==> after[service] == before[service],
        !(after.contains_key(leaving) && after[leaving].instances@.contains_key(instance_id)),
        id != instance_id && before[leaving].instances@.contains_key(id) ==> after.contains_key(
            leaving,
        ) && after[leaving].instances@.contains_key(id) && after[leaving].instances@[id]
            == before[leaving].instances@[id] && after[leaving].routes == before[leaving].routes
            && after[leaving].cursor == before[leaving].cursor,
        (forall|k: Seq<char>|
            #[trigger] before[leaving].instances@.contains_key(k) ==> k == instance_id)
            ==> !after.contains_key(leaving),
{
    let rest = before[leaving].instances@.remove(instance_id);
    if rest.dom().is_empty() {
        if id != instance_id && before[leaving].instances@.contains_key(id) {
            assert(rest.dom().contains(id));
        }
    }
    if forall|k: Seq<char>|
        #[trigger] before[leaving].instances@.contains_key(k) ==> k == instance_id {
        assert(rest.dom() =~= Set::empty());
    }
}

/// Reaping keeps an instance, as it was, exactly where no more than the allowed seconds have
/// gone by since it was last heard of.
pub proof fn law_whom_reaping_keeps(
    before: Map<Seq<char>, RegisteredService>,
    ttl: u64,
    now: u128,
    after: Map<Seq<char>, RegisteredService>,
    service: Seq<char>,
    id: Seq<char>,
)
    requires
        registry::reaped(before, ttl, now, after),
        before.contains_key(service),
        before[service].instances@.contains_key(id),
    ensures
        ({
            let instance = before[service].instances@[id];
            let kept = after.contains_key(service) && after[service].instances@.contains_key(id);
            &&& kept <==> now <= instance.last_heartbeat + ttl * 1_000_000_000
            &&& kept ==> after[service].instances@[id] == instance && after[service].routes
                == before[service].routes && after[service].cursor == before[service].cursor
        }),
{
    let all = before[service].instances@;
    if registry::alive(all[id], ttl, now) {
        assert(registry::living(all, ttl, now).dom().contains(id));
    }
}

/// What reaping tells is exactly the instances that it takes out: those that have been silent
/// for more than the allowed seconds.
#[verifier::spinoff_prover]
#[verifier::rlimit(50)]
pub proof fn law_whom_reaping_tells_of(
    e: Seq<(String, RegisteredService)>,
    ttl: u64,
    now: u128,
    service: Seq<char>,
    id: Seq<char>,
)
    ensures
        registry::all_dead(e, ttl, now).contains((service, id)) <==> exists|i: int, j: int|
            #![trigger e[i].1.instances.entries()[j]]
            0 <= i < e.len() && e[i].0@ == service && 0 <= j < e[i].1.instances.entries().len()
                && e[i].1.instances.entries()[j].0@ == id && now
                > e[i].1.instances.entries()[j].1.last_heartbeat + ttl * 1_000_000_000,
    decreases e.len(),
{
    let told = registry::all_dead(e, ttl, now);
    if e.len() > 0 {
        let front = e.drop_last();
        law_whom_reaping_tells_of(front, ttl, now, service, id);
        let before = registry::all_dead(front, ttl, now);
        let own = registry::dead_ids(e.last().0@, e.last().1.instances.entries(), ttl, now);
        lemma_dead(e.last().0@, e.last().1.instances.entries(), ttl, now, service, id);
        lemma_either(before, own, (service, id));
        assert(told == before + own);
        assert(e[e.len() - 1] == e.last());
        if before.contains((service, id)) {
            let (i, j) = choose|i: int, j: int|
                #![trigger front[i].1.instances.entries()[j]]
                0 <= i < front.len() && front[i].0@ == service && 0 <= j
                    < front[i].1.instances.entries().len() && front[i].1.instances.entries()[j].0@
                    == id && now > front[i].1.instances.entries()[j].1.last_heartbeat + ttl
                    * 1_000_000_000;
            assert(front[i] == e[i]);
            assert(e[i].1.instances.entries()[j].0@ == id);
        }
        if own.contains((service, id)) {
            let entries = e.last().1.instances.entries();
            let j = choose|j: int|
                0 <= j < entries.len() && (#[trigger] entries[j]).0@ == id && now
                    > entries[j].1.last_heartbeat + ttl * 1_000_000_000;
            assert(e[e.len() - 1].1.instances.entries()[j].0@ == id);
        }
        if exists|i: int, j: int|
            #![trigger e[i].1.instances.entries()[j]]
            0 <= i < e.len() && e[i].0@ == service && 0 <= j < e[i].1.instances.entries().len()
                && e[i].1.instances.entries()[j].0@ == id && now
                > e[i].1.instances.entries()[j].1.last_heartbeat + ttl * 1_000_000_000 {
            let (i, j) = choose|i: int, j: int|
                #![trigger e[i].1.instances.entries()[j]]
                0 <= i < e.len() && e[i].0@ == service && 0 <= j
                    < e[i].1.instances.entries().len() && e[i].1.instances.entries()[j].0@ == id
                    && now > e[i].1.instances.entries()[j].1.last_heartbeat + ttl * 1_000_000_000;
            if i < e.len() - 1 {
                assert(front[i] == e[i]);
                assert(front[i].1.instances.entries()[j].0@ == id);
            } else {
                let entries = e.last().1.instances.entries();
                assert(entries[j].0@ == id);
            }
        }
    }
}

proof fn lemma_either<T>(a: Seq<T>, b: Seq<T>, x: T)
    ensures
        (a + b).contains(x) <==> a.contains(x) || b.contains(x),
{
    if a.contains(x) {
        let k = choose|k: int| 0 <= k < a.len() && a[k] == x;
        assert((a + b)[k] == x);
    }
    if b.contains(x) {
        let k = choose|k: int| 0 <= k < b.len() && b[k] == x;
        assert((a + b)[a.len() + k] == x);
    }
    if (a + b).contains(x) {
        let k = choose|k: int| 0 <= k < (a + b).len() && (a + b)[k] == x;
        if k < a.len() {
            assert(a[k] == x);
        } else {
            assert(b[k - a.len()] == x);
        }
    }
}

#[verifier::spinoff_prover]
#[verifier::rlimit(50)]
proof fn lemma_dead(
    own: Seq<char>,
    e: Seq<(String, RegisteredInstance)>,
    ttl: u64,
    now: u128,
    service: Seq<char>,
    id: Seq<char>,
)
    ensures
        registry::dead_ids(own, e, ttl, now).contains((service, id)) <==> service == own && exists|
            j: int,
        |
            0 <= j < e.len() && (#[trigger] e[j]).0@ == id && now > e[j].1.last_heartbeat + ttl
                * 1_000_000_000,
    decreases e.len(),
{
    if e.len() > 0 {
        let front = e.drop_last();
        lemma_dead(own, front, ttl, now, service, id);
        let before = registry::dead_ids(own, front, ttl, now);
        let one = seq![(own, e.last().0@)];
        assert(before.push((own, e.last().0@)) =~= before + one);
        lemma_either(before, one, (service, id));
        assert(one.contains((service, id)) <==> service == own && e.last().0@ == id) by {
            assert(one[0] == (own, e.last().0@));
        }
        assert(e[e.len() - 1] == e.last());
        if before.contains((service, id)) {
            let j = choose|j: int|
                0 <= j < front.len() && (#[trigger] front[j]).0@ == id && now
                    > front[j].1.last_heartbeat + ttl * 1_000_000_000;
            assert(front[j] == e[j]);
        }
        if exists|j: int|
            0 <= j < e.len() && (#[trigger] e[j]).0@ == id && now > e[j].1.last_heartbeat + ttl
                * 1_000_000_000 {
            let j = choose|j: int|
                0 <= j < e.len() && (#[trigger] e[j]).0@ == id && now > e[j].1.last_heartbeat
                    + ttl * 1_000_000_000;
            if j < e.len() - 1 {
                assert(front[j] == e[j]);
            }
        }
    }
}

/// A turn at a service names the instance whose turn it is, and moves on by one; another
/// service's turn is not touched, and neither is any instance.
pub proof fn law_what_a_turn_changes(
    before: Map<Seq<char>, RegisteredService>,
    service: Seq<char>,
    other: Seq<char>,
)
    ensures
        ({
            let after = registry::turned(before, service);
            &&& after.contains_key(other) <==> before.contains_key(other)
            &&& other != service && before.contains_key(other) ==> after[other] == before[other]
            &&& before.contains_key(service) ==> after[service].routes == before[service].routes
                && after[service].instances == before[service].instances && (
            before[service].cursor < usize::MAX ==> after[service].cursor == before[service].cursor
                + 1)
        }),
        before.contains_key(service) && before[service].instances.entries().len() > 0 ==> ({
            let e = before[service].instances.entries();
            let at = before[service].cursor as int % e.len() as int;
            registry::picked(before, service) == Some((e[at].0@, e[at].1.url@))
        }),
        !before.contains_key(service) ==> registry::picked(before, service) is None,
{
}

/// A declared route has the name, the paths and the flags that it is declared with; its
/// guards and its filters are what its plugins are, each in the order they are named.
pub proof fn law_what_a_declared_route_is(
    config: RouteConfig,
    catalog: StrMap<Declared>,
    env: StrMap<String>,
    r: Result<CompiledRoute, String>,
)
    requires
        call_ensures(CompiledRoute::from_config, (&config, &catalog, &env), r),
    ensures
        r matches Ok(made) ==> {
            &&& made.name@ == config.name@
            &&& made.target@ == (if web_address(config.url@) {
                Goal::Url(config.url@)
            } else {
                Goal::Service(config.url@)
            })
            &&& made.strip_path == config.strip_path
            &&& made.forward_token == config.forward_token
            &&& made.match_type == config.match_type
            &&& text::texts(made.paths@) == text::texts(config.paths@)
            &&& made.patterns@.len() == config.paths@.len()
            &&& config.plugins is None ==> made.guards@.len() == 0 && made.filters@.len() == 0
            &&& config.plugins matches Some(list) ==> made.guards@.len() + made.filters@.len()
                == list@.len()
        },
{
    lemma_web_address(config.url@);
    if let Ok(made) = r {
        let paths = text::texts(config.paths@);
        let tried = paths.map_values(
            |path: Seq<char>| route::pattern_spec(path, config.match_type),
        );
        lemma_all(tried);
        assert(route::shapes(made.patterns@).len() == made.patterns@.len());
        assert(made@.guards.len() == made.guards@.len());
        assert(made@.filters.len() == made.filters@.len());
        if let Some(list) = config.plugins {
            let all = list@.map_values(
                |r: PluginReference| route::bound_spec(r, catalog@, env@),
            );
            lemma_all(all);
            law_how_plugins_are_parted(route::collected(all)->Ok_0);
        }
    }
}

/// A registered route is named by its service and its place, goes to its service, and never
/// relays the caller's credential.
pub proof fn law_what_a_registered_route_is(
    service: &str,
    index: usize,
    spec: RouteSpec,
    catalog: StrMap<Declared>,
    r: Result<CompiledRoute, String>,
)
    requires
        call_ensures(CompiledRoute::from_spec, (service, index, &spec, &catalog), r),
    ensures
        r matches Ok(made) ==> {
            &&& made.name@ == service@ + seq!['#'] + text::decimal(index as nat)
            &&& made.target@ == Goal::Service(service@)
            &&& made.strip_path == spec.strip_path
            &&& !made.forward_token
            &&& made.match_type == spec.match_type
            &&& text::texts(made.paths@) == text::texts(spec.paths@)
            &&& made.patterns@.len() == spec.paths@.len()
            &&& made.guards@.len() + made.filters@.len() == spec.plugins@.len()
        },
{
    reveal_strlit("#");
    assert("#"@ =~= seq!['#']);
    if let Ok(made) = r {
        let paths = text::texts(spec.paths@);
        let tried = paths.map_values(|path: Seq<char>| route::pattern_spec(path, spec.match_type));
        lemma_all(tried);
        assert(route::shapes(made.patterns@).len() == made.patterns@.len());
        assert(made@.guards.len() == made.guards@.len());
        assert(made@.filters.len() == made.filters@.len());
        let all = spec.plugins@.map_values(
            |r: PluginRequirement| route::requirement_spec(r, catalog@),
        );
        lemma_all(all);
        law_how_plugins_are_parted(route::collected(all)->Ok_0);
    }
}

/// What a route is bound to is parted into its guards and its filters, each in order, and
/// nothing is left out.
pub proof fn law_how_plugins_are_parted(bound: Seq<Bound>)
    ensures
        route::guards_in(bound) == bound.filter(|b: Bound| b is Guard).map_values(
            |b: Bound| b->Guard_0,
        ),
        route::filters_in(bound) == bound.filter(|b: Bound| b is Filter).map_values(
            |b: Bound| b->Filter_0,
        ),
        route::guards_in(bound).len() + route::filters_in(bound).len() == bound.len(),
    decreases bound.len(),
{
    reveal(Seq::filter);
    let guards = |b: Bound| b is Guard;
    let filters = |b: Bound| b is Filter;
    let guard = |b: Bound| b->Guard_0;
    let filter = |b: Bound| b->Filter_0;
    if bound.len() == 0 {
        assert(Seq::<BoundView>::empty() =~= bound.filter(guards).map_values(guard));
        assert(Seq::<BindingView>::empty() =~= bound.filter(filters).map_values(filter));
    } else {
        let front = bound.drop_last();
        law_how_plugins_are_parted(front);
        if bound.last() is Guard {
            assert(front.filter(guards).push(bound.last()).map_values(guard) =~= front.filter(
                guards,
            ).map_values(guard).push(guard(bound.last())));
        } else {
            assert(front.filter(filters).push(bound.last()).map_values(filter) =~= front.filter(
                filters,
            ).map_values(filter).push(filter(bound.last())));
        }
    }
}

/// A plugin that a route names is the one declared under that name: a policy makes a guard, a
/// module a filter, and a name that nobody declared is an error.
pub proof fn law_what_a_name_stands_for(
    catalog: StrMap<Declared>,
    name: &str,
    r: Result<Declared, String>,
)
    requires
        call_ensures(route::lookup, (&catalog, name), r),
    ensures
        r is Ok <==> catalog@.contains_key(name@),
        r matches Ok(d) ==> d == catalog@[name@],
        r matches Err(e) ==> e@ == "unknown plugin '"@ + name@
            + "' (not defined in the gateway config)"@,
{
}

/// The catalog of a configuration holds each declared plugin under its name, and no two under
/// one; the services likewise, each with its address.
pub proof fn law_names_are_declared_once(
    plugins: Seq<PluginConfig>,
    env: Map<Seq<char>, String>,
    services: Seq<ServiceConfig>,
)
    ensures
        registry::catalog_spec(plugins, env) is Ok <==> (forall|i: int|
            0 <= i < plugins.len() ==> registry::entry_spec(#[trigger] plugins[i], env) is Ok) && (
        forall|i: int, j: int|
            0 <= i < j < plugins.len() ==> (#[trigger] plugins[i]).name@ != (
            #[trigger] plugins[j]).name@),
        registry::catalog_spec(plugins, env) matches Ok(m) ==> forall|i: int|
            0 <= i < plugins.len() ==> m.contains_key((#[trigger] plugins[i]).name@)
                && registry::entry_spec(plugins[i], env) == Ok::<DeclaredView, Seq<char>>(
                m[plugins[i].name@],
            ),
        registry::services_spec(services) is Ok <==> forall|i: int, j: int|
            0 <= i < j < services.len() ==> (#[trigger] services[i]).name@ != (
            #[trigger] services[j]).name@,
        registry::services_spec(services) matches Ok(m) ==> forall|i: int|
            0 <= i < services.len() ==> m.contains_key((#[trigger] services[i]).name@)
                && m[services[i].name@] == services[i].url@,
{
    lemma_catalog(plugins, env);
    lemma_services(services);
}

#[verifier::spinoff_prover]
#[verifier::rlimit(50)]
proof fn lemma_catalog(list: Seq<PluginConfig>, env: Map<Seq<char>, String>)
    ensures
        registry::catalog_spec(list, env) is Ok <==> (forall|i: int|
            0 <= i < list.len() ==> registry::entry_spec(#[trigger] list[i], env) is Ok) && (forall|
            i: int,
            j: int,
        |
            0 <= i < j < list.len() ==> (#[trigger] list[i]).name@ != (#[trigger] list[j]).name@),
        registry::catalog_spec(list, env) matches Ok(m) ==> (forall|i: int|
            0 <= i < list.len() ==> m.contains_key((#[trigger] list[i]).name@)
                && registry::entry_spec(list[i], env) == Ok::<DeclaredView, Seq<char>>(
                m[list[i].name@],
            )) && (forall|name: Seq<char>| #[trigger]
            m.contains_key(name) ==> exists|i: int|
                0 <= i < list.len() && (#[trigger] list[i]).name@ == name),
    decreases list.len(),
{
    if list.len() > 0 {
        let front = list.drop_last();
        let n = list.len() - 1;
        lemma_catalog(front, env);
        assert(list[n] == list.last());
        assert(forall|i: int| 0 <= i < n ==> front[i] == #[trigger] list[i]);
        if registry::catalog_spec(front, env) is Ok {
            let had = registry::catalog_spec(front, env)->Ok_0;
            if had.contains_key(list.last().name@) {
                let i = choose|i: int|
                    0 <= i < front.len() && (#[trigger] front[i]).name@ == list.last().name@;
                assert(list[i].name@ == list[n].name@);
            } else if registry::entry_spec(list.last(), env) is Ok {
                let m = registry::catalog_spec(list, env)->Ok_0;
                assert forall|i: int, j: int| 0 <= i < j < list.len() implies (
                #[trigger] list[i]).name@ != (#[trigger] list[j]).name@ by {
                    assert(front[i] == list[i]);
                    if j < n {
                        assert(front[j] == list[j]);
                    }
                }
                assert forall|i: int| 0 <= i < list.len() implies registry::entry_spec(
                    #[trigger] list[i],
                    env,
                ) is Ok by {
                    if i < n {
                        assert(front[i] == list[i]);
                    }
                }
                assert forall|name: Seq<char>| #[trigger] m.contains_key(name) implies exists|
                    i: int,
                |
                    0 <= i < list.len() && (#[trigger] list[i]).name@ == name by {
                    if name != list.last().name@ {
                        let i = choose|i: int|
                            0 <= i < front.len() && (#[trigger] front[i]).name@ == name;
                        assert(list[i].name@ == name);
                    } else {
                        assert(list[n].name@ == name);
                    }
                }
            }
        } else {
            if forall|i: int| 0 <= i < front.len() ==> registry::entry_spec(#[trigger] front[i], env) is Ok {
                let (i, j) = choose|i: int, j: int|
                    0 <= i < j < front.len() && (#[trigger] front[i]).name@ == (
                    #[trigger] front[j]).name@;
                assert(list[i].name@ == list[j].name@);
            } else {
                let i = choose|i: int|
                    0 <= i < front.len() && !(registry::entry_spec(#[trigger] front[i], env) is Ok);
                assert(list[i] == front[i]);
            }
        }
    }
}

#[verifier::spinoff_prover]
#[verifier::rlimit(50)]
proof fn lemma_services(list: Seq<ServiceConfig>)
    ensures
        registry::services_spec(list) is Ok <==> forall|i: int, j: int|
            0 <= i < j < list.len() ==> (#[trigger] list[i]).name@ != (#[trigger] list[j]).name@,
        registry::services_spec(list) matches Ok(m) ==> (forall|i: int|
            0 <= i < list.len() ==> m.contains_key((#[trigger] list[i]).name@) && m[list[i].name@]
                == list[i].url@) && (forall|name: Seq<char>| #[trigger]
            m.contains_key(name) ==> exists|i: int|
                0 <= i < list.len() && (#[trigger] list[i]).name@ == name),
    decreases list.len(),
{
    if list.len() > 0 {
        let front = list.drop_last();
        let n = list.len() - 1;
        lemma_services(front);
        assert(list[n] == list.last());
        assert(forall|i: int| 0 <= i < n ==> front[i] == #[trigger] list[i]);
        if registry::services_spec(front) is Ok {
            let had = registry::services_spec(front)->Ok_0;
            if had.contains_key(list.last().name@) {
                let i = choose|i: int|
                    0 <= i < front.len() && (#[trigger] front[i]).name@ == list.last().name@;
                assert(list[i].name@ == list[n].name@);
            } else {
                let m = registry::services_spec(list)->Ok_0;
                assert forall|i: int, j: int| 0 <= i < j < list.len() implies (
                #[trigger] list[i]).name@ != (#[trigger] list[j]).name@ by {
                    assert(front[i] == list[i]);
                    if j < n {
                        assert(front[j] == list[j]);
                    }
                }
                assert forall|name: Seq<char>| #[trigger] m.contains_key(name) implies exists|
                    i: int,
                |
                    0 <= i < list.len() && (#[trigger] list[i]).name@ == name by {
                    if name != list.last().name@ {
                        let i = choose|i: int|
                            0 <= i < front.len() && (#[trigger] front[i]).name@ == name;
                        assert(list[i].name@ == name);
                    } else {
                        assert(list[n].name@ == name);
                    }
                }
            }
        } else {
            let (i, j) = choose|i: int, j: int|
                0 <= i < j < front.len() && (#[trigger] front[i]).name@ == (
                #[trigger] front[j]).name@;
            assert(list[i].name@ == list[j].name@);
        }
    }
}

/// A configuration that is taken gives a registry of what it declares: the routes in order,
/// each as it is declared and no two of one name; the services with their addresses; nobody
/// registered yet; and the lifetime and the switch for test claims that it sets.
#[verifier::spinoff_prover]
#[verifier::rlimit(50)]
pub proof fn law_what_a_configuration_gives(
    config: GatewayConfig,
    env: StrMap<String>,
    made: Registry,
    i: int,
)
    requires
        registry::configured(config, env@, Ok(made)),
        0 <= i < config.routes@.len(),
    ensures
        made.static_routes@.len() == config.routes@.len(),
        route::config_route_spec(config.routes@[i], made.catalog@, env@) == Ok::<
            route::CompiledView,
            Seq<char>,
        >(made.static_routes@[i]@),
        forall|j: int|
            0 <= j < i ==> (#[trigger] config.routes@[j]).name@ != config.routes@[i].name@,
        made.services@.dom().is_empty(),
        made.ttl == config.registration.heartbeat_ttl_seconds,
        made.userinfo_overrides == config.testing.userinfo_overrides,
        config.services matches Some(list) ==> forall|k: int|
            0 <= k < list@.len() ==> made.static_services@.contains_key((#[trigger] list@[k]).name@)
                && made.static_services@[list@[k].name@]@ == list@[k].url@,
        config.services is None ==> made.static_services@.dom().is_empty(),
        config.plugins matches Some(list) ==> forall|k: int|
            0 <= k < list@.len() ==> made.catalog@.contains_key((#[trigger] list@[k]).name@)
                && registry::entry_spec(list@[k], env@) == Ok::<DeclaredView, Seq<char>>(
                made.catalog@[list@[k].name@]@,
            ),
{
    let plugins = registry::entries_of(config.plugins);
    let services = registry::entries_of(config.services);
    law_names_are_declared_once(plugins, env@, services);
    let declared = registry::catalog_spec(plugins, env@)->Ok_0;
    let urls = registry::services_spec(services)->Ok_0;
    let catalog = choose|catalog: Map<Seq<char>, Declared>|
        #![trigger registry::declared(config, env@, catalog, urls, Ok(made))]
        registry::catalog_view(catalog) == declared && registry::declared(
            config,
            env@,
            catalog,
            urls,
            Ok(made),
        );
    let list = config.routes@;
    let all = Seq::new(
        list.len(),
        |k: int| registry::declared_route(list, k, made.catalog@, env@),
    );
    lemma_all(all);
    assert(all[i] == registry::declared_route(list, i, made.catalog@, env@));
    assert(route::routes_view(made.static_routes@).len() == made.static_routes@.len());
    assert(route::routes_view(made.static_routes@)[i] == made.static_routes@[i]@);
    let names = registry::names_of(list);
    assert forall|j: int| 0 <= j < i implies (#[trigger] list[j]).name@ != list[i].name@ by {
        if list[j].name@ == list[i].name@ {
            assert(names.take(i)[j] == list[j].name@);
            assert(names.take(i).contains(list[i].name@));
        }
    }
    assert(made.services@.dom() =~= Set::empty());
    assert(registry::urls_view(made.static_services@) == urls);
    assert forall|k: int| 0 <= k < services.len() implies made.static_services@.contains_key(
        (#[trigger] services[k]).name@,
    ) && made.static_services@[services[k].name@]@ == services[k].url@ by {
        assert(urls.contains_key(services[k].name@));
        assert(registry::urls_view(made.static_services@).contains_key(services[k].name@));
    }
    assert forall|k: int| 0 <= k < plugins.len() implies made.catalog@.contains_key(
        (#[trigger] plugins[k]).name@,
    ) && registry::entry_spec(plugins[k], env@) == Ok::<DeclaredView, Seq<char>>(
        made.catalog@[plugins[k].name@]@,
    ) by {
        assert(declared.contains_key(plugins[k].name@));
        assert(registry::catalog_view(made.catalog@).contains_key(plugins[k].name@));
    }
    if config.services is None {
        assert(urls =~= Map::empty());
        assert(made.static_services@.dom() =~= Set::empty()) by {
            assert forall|k: Seq<char>| !made.static_services@.dom().contains(k) by {
                if made.static_services@.contains_key(k) {
                    assert(registry::urls_view(made.static_services@).contains_key(k));
                }
            }
        }
    }
}

/// What registering, beating, leaving and reaping leave alone: the declared routes and services,
/// the plugins, the lifetime, the switch for test claims and the clock.
pub proof fn law_what_no_registration_touches(before: Registry, after: Registry)
    requires
        registry::same_rest(after, before),
    ensures
        after.static_routes == before.static_routes,
        after.static_services == before.static_services,
        after.catalog == before.catalog,
        after.ttl == before.ttl,
        after.userinfo_overrides == before.userinfo_overrides,
        after.clock == before.clock,
{
}

/// Whoever is taken out is known no longer, and everybody else is known as before; nothing
/// changes where nobody of that name was known.
pub proof fn law_what_deregistering_changes(
    before: Registry,
    leaving: Seq<char>,
    instance_id: Seq<char>,
    after: Registry,
    service: Seq<char>,
    id: Seq<char>,
)
    requires
        before.wf(),
        registry::deregistered(before, leaving, instance_id, after),
    ensures
        ({
            let was = before.services@.contains_key(service)
                && before.services@[service].instances@.contains_key(id);
            let is = after.services@.contains_key(service)
                && after.services@[service].instances@.contains_key(id);
            &&& is <==> was && !(service == leaving && id == instance_id)
            &&& is ==> after.services@[service].instances@[id]
                == before.services@[service].instances@[id] && after.services@[service].routes
                == before.services@[service].routes
        }),
        after.static_routes == before.static_routes,
        after.static_services == before.static_services,
        after.ttl == before.ttl,
{
    if before.services@.contains_key(leaving) {
        law_what_leaving_changes(
            before.services@,
            leaving,
            instance_id,
            after.services@,
            service,
            id,
        );
        let rest = before.services@[leaving].instances@.remove(instance_id);
        if rest.dom().is_empty() && service == leaving {
            if before.services@[leaving].instances@.contains_key(id) && id != instance_id {
                assert(rest.dom().contains(id));
            }
        }
    }
}

/// An instance is known where its service is registered with it.
pub proof fn law_who_is_known(
    services: Map<Seq<char>, RegisteredService>,
    service: Seq<char>,
    id: Seq<char>,
)
    ensures
        registry::known(services, service, id) <==> services.contains_key(service)
            && services[service].instances@.contains_key(id),
{
}

/// In a registry that is sound every registered service has an instance, and none of them is
/// declared by the gateway itself.
pub proof fn law_what_a_sound_registry_holds(all: Registry, service: Seq<char>)
    requires
        all.wf(),
        all.services@.contains_key(service),
    ensures
        !all.static_services@.contains_key(service),
        exists|id: Seq<char>| #[trigger] all.services@[service].instances@.contains_key(id),
{
    let held = all.services@[service].instances@;
    assert(exists|id: Seq<char>| #[trigger] held.contains_key(id)) by {
        if forall|id: Seq<char>| !(#[trigger] held.contains_key(id)) {
            assert(held.dom() =~= Set::empty());
        }
    }
}

/// What is wrong with a configuration is told with what it is of, by its name: that it is
/// declared twice, or why it cannot be used.
pub proof fn law_how_a_bad_configuration_is_told(
    plugins: Seq<PluginConfig>,
    plugin: PluginConfig,
    services: Seq<ServiceConfig>,
    service: ServiceConfig,
    routes: Seq<RouteConfig>,
    i: int,
    catalog: Map<Seq<char>, Declared>,
    env: Map<Seq<char>, String>,
)
    requires
        registry::catalog_spec(plugins, env) is Ok,
        registry::services_spec(services) is Ok,
        0 <= i < routes.len(),
    ensures
        ({
            let had = registry::catalog_spec(plugins, env)->Ok_0.contains_key(plugin.name@);
            let after = registry::catalog_spec(plugins.push(plugin), env);
            match registry::entry_spec(plugin, env) {
                Err(e) => after == Err::<Map<Seq<char>, DeclaredView>, Seq<char>>(
                    "Invalid "@ + "plugin"@ + " '"@ + plugin.name@ + "': "@ + e,
                ),
                Ok(made) => if had {
                    after == Err::<Map<Seq<char>, DeclaredView>, Seq<char>>(
                        "A "@ + "plugin"@ + " named '"@ + plugin.name@
                            + "' is declared twice in the declarative configuration!"@,
                    )
                } else {
                    after == Ok::<Map<Seq<char>, DeclaredView>, Seq<char>>(
                        registry::catalog_spec(plugins, env)->Ok_0.insert(plugin.name@, made),
                    )
                },
            }
        }),
        registry::services_spec(services)->Ok_0.contains_key(service.name@)
            ==> registry::services_spec(services.push(service)) == Err::<
            Map<Seq<char>, Seq<char>>,
            Seq<char>,
        >(
            "A "@ + "service"@ + " named '"@ + service.name@
                + "' is declared twice in the declarative configuration!"@,
        ),
        ({
            let r = registry::declared_route(routes, i, catalog, env);
            let twice = exists|j: int|
                0 <= j < i && (#[trigger] routes[j]).name@ == routes[i].name@;
            &&& twice ==> r == Err::<route::CompiledView, Seq<char>>(
                "A "@ + "route"@ + " named '"@ + routes[i].name@
                    + "' is declared twice in the declarative configuration!"@,
            )
            &&& !twice ==> (match route::config_route_spec(routes[i], catalog, env) {
                Ok(made) => r == Ok::<route::CompiledView, Seq<char>>(made),
                Err(e) => r == Err::<route::CompiledView, Seq<char>>(
                    "Invalid "@ + "route"@ + " '"@ + routes[i].name@ + "': "@ + e,
                ),
            })
        }),
{
    assert(plugins.push(plugin).drop_last() =~= plugins);
    assert(services.push(service).drop_last() =~= services);
    let names = registry::names_of(routes).take(i);
    if names.contains(routes[i].name@) {
        let j = choose|j: int| 0 <= j < names.len() && names[j] == routes[i].name@;
        assert(routes[j].name@ == routes[i].name@);
    }
    if exists|j: int| 0 <= j < i && (#[trigger] routes[j]).name@ == routes[i].name@ {
        let j = choose|j: int| 0 <= j < i && (#[trigger] routes[j]).name@ == routes[i].name@;
        assert(names[j] == routes[i].name@);
    }
}

} // verus!
