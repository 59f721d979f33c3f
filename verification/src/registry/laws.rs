//! What the registry keeps through everything that happens to it.

use crate::config::{PluginReference, RouteConfig};
use crate::registry;
use crate::registry::describe;
use crate::registry::route;
use crate::registry::route::{CompiledView, Goal};
use crate::registry::{
    Declared, PluginRequirement, RegisteredService, RegistrationRequest, Registry,
};
use crate::strmap;
use vstd::prelude::*;

verus! {

/// A service the config declares cannot register itself.
pub proof fn law_a_declared_service_cannot_register(
    request: RegistrationRequest,
    urls: Map<Seq<char>, String>,
    catalog: Map<Seq<char>, Declared>,
)
    requires
        urls.contains_key(request.service@),
    ensures
        !(registry::registration_spec(request, urls, catalog) is Routes),
{
}

/// A registration that is accepted keeps the services sound, makes its instance known,
/// and touches no other instance.
pub proof fn law_registering_makes_an_instance_known(
    before: Map<Seq<char>, RegisteredService>,
    request: RegistrationRequest,
    urls: Map<Seq<char>, String>,
    catalog: Map<Seq<char>, Declared>,
    now: u128,
    after: Map<Seq<char>, RegisteredService>,
    service: Seq<char>,
    instance_id: Seq<char>,
)
    requires
        registry::sound(before, urls),
        registry::registration_spec(request, urls, catalog) is Routes,
        registry::registered(
            before,
            request,
            registry::registration_spec(request, urls, catalog)->Routes_0,
            now,
            after,
        ),
    ensures
        registry::sound(after, urls),
        registry::known(after, request.service@, request.instance_id@),
        (service, instance_id) != (request.service@, request.instance_id@) ==> registry::known(
            after,
            service,
            instance_id,
        ) == registry::known(before, service, instance_id),
{
    let name = request.service@;
    assert(after[name].instances@.dom().contains(request.instance_id@));
    assert forall|s: Seq<char>| #[trigger] after.contains_key(s) implies !urls.contains_key(s)
        && !after[s].instances@.dom().is_empty() by {
        if s != name {
            assert(before.contains_key(s));
        }
    }
}

/// A heartbeat keeps the services sound, and the same instances known.
pub proof fn law_a_heartbeat_changes_no_instance(
    before: Map<Seq<char>, RegisteredService>,
    urls: Map<Seq<char>, String>,
    beating: Seq<char>,
    beating_id: Seq<char>,
    now: u128,
    after: Map<Seq<char>, RegisteredService>,
    service: Seq<char>,
    instance_id: Seq<char>,
)
    requires
        registry::sound(before, urls),
        registry::known(before, beating, beating_id),
        registry::beaten(before, beating, beating_id, now, after),
    ensures
        registry::sound(after, urls),
        registry::known(after, service, instance_id) == registry::known(
            before,
            service,
            instance_id,
        ),
{
    assert(after[beating].instances@.dom().contains(beating_id));
    assert forall|s: Seq<char>| #[trigger] after.contains_key(s) implies !urls.contains_key(s)
        && !after[s].instances@.dom().is_empty() by {
        assert(before.contains_key(s));
    }
}

/// Taking an instance out keeps the services sound, forgets that instance and no other.
pub proof fn law_deregistering_forgets_one_instance(
    before: Map<Seq<char>, RegisteredService>,
    urls: Map<Seq<char>, String>,
    leaving: Seq<char>,
    leaving_id: Seq<char>,
    after: Map<Seq<char>, RegisteredService>,
    service: Seq<char>,
    instance_id: Seq<char>,
)
    requires
        registry::sound(before, urls),
        before.contains_key(leaving),
        registry::left(before, leaving, leaving_id, after),
    ensures
        registry::sound(after, urls),
        !registry::known(after, leaving, leaving_id),
        (service, instance_id) != (leaving, leaving_id) ==> registry::known(
            after,
            service,
            instance_id,
        ) == registry::known(before, service, instance_id),
{
    let rest = before[leaving].instances@.remove(leaving_id);
    assert forall|s: Seq<char>| #[trigger] after.contains_key(s) implies !urls.contains_key(s)
        && !after[s].instances@.dom().is_empty() by {
        assert(before.contains_key(s));
    }
    if rest.dom().is_empty() {
        assert(forall|id: Seq<char>| !(#[trigger] rest.dom().contains(id)));
        if service == leaving && instance_id != leaving_id {
            assert(!rest.dom().contains(instance_id));
        }
    }
}

/// Reaping keeps the services sound and forgets exactly the instances that are dead.
pub proof fn law_reaping_forgets_the_dead(
    before: Map<Seq<char>, RegisteredService>,
    urls: Map<Seq<char>, String>,
    ttl: u64,
    now: u128,
    after: Map<Seq<char>, RegisteredService>,
    service: Seq<char>,
    instance_id: Seq<char>,
)
    requires
        registry::sound(before, urls),
        registry::reaped(before, ttl, now, after),
    ensures
        registry::sound(after, urls),
        registry::known(after, service, instance_id) == (registry::known(
            before,
            service,
            instance_id,
        ) && registry::alive(before[service].instances@[instance_id], ttl, now)),
{
    assert forall|s: Seq<char>| #[trigger] after.contains_key(s) implies !urls.contains_key(s)
        && !after[s].instances@.dom().is_empty() by {
        assert(before.contains_key(s));
    }
    if registry::known(before, service, instance_id) && registry::alive(
        before[service].instances@[instance_id],
        ttl,
        now,
    ) {
        assert(registry::living(before[service].instances@, ttl, now).dom().contains(instance_id));
        assert(after.contains_key(service));
    }
}

/// A declared route that matches a path takes it, whatever services have registered.
pub proof fn law_declared_routes_come_first(
    fixed: Seq<CompiledView>,
    some: Seq<CompiledView>,
    others: Seq<CompiledView>,
    path: Seq<char>,
)
    requires
        route::best_place(route::matches_of(fixed, path)) is Some,
    ensures
        registry::chosen(fixed, some, path) == registry::chosen(fixed, others, path),
        registry::chosen(fixed, some, path) matches Some((_, source)) && source == "static"@,
{
}

/// A turn keeps the services sound, and the same instances known.
pub proof fn law_a_turn_changes_no_instance(
    before: Map<Seq<char>, RegisteredService>,
    urls: Map<Seq<char>, String>,
    turning: Seq<char>,
    service: Seq<char>,
    instance_id: Seq<char>,
)
    requires
        registry::sound(before, urls),
    ensures
        registry::sound(registry::turned(before, turning), urls),
        registry::known(registry::turned(before, turning), service, instance_id)
            == registry::known(before, service, instance_id),
{
    let after = registry::turned(before, turning);
    assert forall|s: Seq<char>| #[trigger] after.contains_key(s) implies !urls.contains_key(s)
        && !after[s].instances@.dom().is_empty() by {
        assert(before.contains_key(s));
    }
}

/// What operators are shown of a route's target is what becomes of a request that takes
/// the route: a declared service stands on its own, any other on the instances that are
/// registered under its name, and a request finds none exactly where the name is shown as
/// unresolved.
pub proof fn law_a_target_is_shown_as_it_resolves(
    registry: Registry,
    route: CompiledView,
    source: Seq<char>,
    name: Seq<char>,
    path: Seq<char>,
)
    requires
        registry.wf(),
        route.target == Goal::Service(name),
        registry::chosen(
            route::routes_view(registry.static_routes@),
            registry::dynamic_routes(registry.services.entries()),
            path,
        ) == Some((route, source)),
    ensures
        ({
            let urls = registry.static_services@;
            let services = registry.services@;
            let shown = describe::target_line(route.target, urls, services);
            &&& shown == describe::TargetLine::Service(
                name,
                if urls.contains_key(name) {
                    "static"@
                } else if exists|id: Seq<char>| registry::known(services, name, id) {
                    "registry"@
                } else {
                    "unresolved"@
                },
                if services.contains_key(name) {
                    services[name].instances@.len()
                } else {
                    0
                },
            )
            &&& shown->Service_1 == "unresolved"@ <==> registry::sent(
                route,
                source,
                path,
                registry::urls_view(urls),
                services,
            ) is NoInstances
        }),
{
    reveal_strlit("static");
    reveal_strlit("registry");
    reveal_strlit("unresolved");
    assert("static"@.len() != "unresolved"@.len());
    assert("registry"@.len() != "unresolved"@.len());
    let urls = registry.static_services@;
    let services = registry.services@;
    assert(registry::urls_view(urls).contains_key(name) == urls.contains_key(name));
    if services.contains_key(name) {
        let instances = services[name].instances;
        assert(!instances@.dom().is_empty());
        let id = instances@.dom().choose();
        assert(instances@.dom().contains(id)) by {
            if forall|k: Seq<char>| !instances@.dom().contains(k) {
                assert(instances@.dom() =~= Set::empty());
            }
        }
        assert(registry::known(services, name, id));
        strmap::lemma_entries(instances);
        assert(instances.entries().len() > 0);
    }
}

/// The services after some turns were taken at one of them.
pub open spec fn turns(
    services: Map<Seq<char>, RegisteredService>,
    service: Seq<char>,
    count: nat,
) -> Map<Seq<char>, RegisteredService>
    decreases count,
{
    if count == 0 {
        services
    } else {
        registry::turned(turns(services, service, (count - 1) as nat), service)
    }
}

/// A turn moves the cursor on and changes nothing else.
proof fn lemma_turns(
    services: Map<Seq<char>, RegisteredService>,
    service: Seq<char>,
    count: nat,
)
    requires
        services.contains_key(service),
        services[service].cursor + count <= usize::MAX,
    ensures
        turns(services, service, count).contains_key(service),
        turns(services, service, count)[service].cursor == services[service].cursor + count,
        turns(services, service, count)[service].instances == services[service].instances,
    decreases count,
{
    if count > 0 {
        lemma_turns(services, service, (count - 1) as nat);
    }
}

/// Instances take turns in the order of their ids: after some turns it is the turn of
/// the instance that many places on, going round at the end.
pub proof fn law_instances_take_turns(
    services: Map<Seq<char>, RegisteredService>,
    service: Seq<char>,
    count: nat,
)
    requires
        services.contains_key(service),
        services[service].instances.entries().len() > 0,
        services[service].cursor + count <= usize::MAX,
    ensures
        ({
            let e = services[service].instances.entries();
            let at = (services[service].cursor + count) % e.len() as int;
            registry::picked(turns(services, service, count), service) == Some(
                (e[at].0@, e[at].1.url@),
            )
        }),
{
    lemma_turns(services, service, count);
}

/// Every instance of a service gets a turn in a round of as many turns as there are
/// instances.
pub proof fn law_every_instance_gets_a_turn(
    services: Map<Seq<char>, RegisteredService>,
    service: Seq<char>,
    at: int,
) -> (count: nat)
    requires
        services.contains_key(service),
        0 <= at < services[service].instances.entries().len(),
        services[service].cursor + services[service].instances.entries().len() <= usize::MAX,
    ensures
        count < services[service].instances.entries().len(),
        registry::picked(turns(services, service, count), service) == Some(
            (
                services[service].instances.entries()[at].0@,
                services[service].instances.entries()[at].1.url@,
            ),
        ),
{
    let n = services[service].instances.entries().len() as int;
    let cursor = services[service].cursor as int;
    let here = cursor % n;
    let count = if at >= here {
        at - here
    } else {
        at - here + n
    };
    vstd::arithmetic::div_mod::lemma_fundamental_div_mod(cursor, n);
    if at >= here {
        vstd::arithmetic::div_mod::lemma_mod_multiples_vanish(cursor / n, at, n);
    } else {
        vstd::arithmetic::div_mod::lemma_mod_multiples_vanish(cursor / n + 1, at, n);
        assert(n * (cursor / n + 1) == n * (cursor / n) + n) by (nonlinear_arith);
    }
    vstd::arithmetic::div_mod::lemma_small_mod(at as nat, n as nat);
    assert((cursor + count) % n == at);
    law_instances_take_turns(services, service, count as nat);
    count as nat
}

/// No instance of a service gets two turns in such a round: together with
/// [`law_every_instance_gets_a_turn`], a round names each instance exactly once. A map
/// holds its entries in the order of the keys, so no id stands twice.
pub proof fn law_no_instance_gets_two_turns_in_a_round(
    services: Map<Seq<char>, RegisteredService>,
    service: Seq<char>,
    earlier: nat,
    later: nat,
)
    requires
        services.contains_key(service),
        strmap::ascending(strmap::keys_of(services[service].instances.entries())),
        earlier < later < services[service].instances.entries().len(),
        services[service].cursor + services[service].instances.entries().len() <= usize::MAX,
    ensures
        registry::picked(turns(services, service, earlier), service) is Some,
        registry::picked(turns(services, service, later), service) is Some,
        registry::picked(turns(services, service, earlier), service)->Some_0.0
            != registry::picked(turns(services, service, later), service)->Some_0.0,
{
    let e = services[service].instances.entries();
    let n = e.len() as int;
    let cursor = services[service].cursor as int;
    let a = (cursor + earlier) % n;
    let b = (cursor + later) % n;
    law_instances_take_turns(services, service, earlier);
    law_instances_take_turns(services, service, later);
    if a == b {
        vstd::arithmetic::div_mod::lemma_mod_equivalence(cursor + later, cursor + earlier, n);
        vstd::arithmetic::div_mod::lemma_small_mod((later - earlier) as nat, n as nat);
        assert(false);
    }
    let keys = strmap::keys_of(e);
    strmap::lemma_ascending_distinct(keys);
    assert(keys[a] == e[a].0@);
    assert(keys[b] == e[b].0@);
}

/// A list with an error in it is one.
proof fn lemma_collected_has_error<T>(rs: Seq<Result<T, Seq<char>>>, i: int)
    requires
        0 <= i < rs.len(),
        rs[i] is Err,
    ensures
        route::collected(rs) is Err,
    decreases rs.len(),
{
    if i < rs.len() - 1 {
        assert(rs.drop_last()[i] == rs[i]);
        lemma_collected_has_error(rs.drop_last(), i);
    }
}

/// A typo cannot leave a route unauthenticated: one that names a plugin nobody declared
/// is refused.
pub proof fn law_a_route_cannot_name_an_unknown_plugin(
    config: RouteConfig,
    catalog: Map<Seq<char>, Declared>,
    env: Map<Seq<char>, String>,
    plugin: int,
)
    requires
        config.plugins is Some,
        0 <= plugin < config.plugins->Some_0@.len(),
        !catalog.contains_key(config.plugins->Some_0@[plugin].name@),
    ensures
        route::config_route_spec(config, catalog, env) is Err,
{
    let list = config.plugins->Some_0@;
    let bound = list.map_values(|r: PluginReference| route::bound_spec(r, catalog, env));
    assert(bound[plugin] == route::bound_spec(list[plugin], catalog, env));
    lemma_collected_has_error(bound, plugin);
}

/// A service names plugins the gateway has and can never bring one: a registration that
/// asks for a plugin nobody declared is refused.
pub proof fn law_an_unknown_plugin_is_refused(
    request: RegistrationRequest,
    urls: Map<Seq<char>, String>,
    catalog: Map<Seq<char>, Declared>,
    at: int,
    plugin: int,
)
    requires
        0 <= at < request.routes@.len(),
        0 <= plugin < request.routes@[at].plugins@.len(),
        !catalog.contains_key(request.routes@[at].plugins@[plugin].name@),
    ensures
        !(registry::registration_spec(request, urls, catalog) is Routes),
{
    let spec = request.routes@[at];
    let bound = spec.plugins@.map_values(
        |r: PluginRequirement| route::requirement_spec(r, catalog),
    );
    assert(bound[plugin] == route::requirement_spec(spec.plugins@[plugin], catalog));
    lemma_collected_has_error(bound, plugin);
    let all = Seq::new(
        request.routes@.len(),
        |i: int|
            route::registered_route_spec(request.service@, i as nat, request.routes@[i], catalog),
    );
    assert(all[at] is Err);
    lemma_collected_has_error(all, at);
}

} // verus!
