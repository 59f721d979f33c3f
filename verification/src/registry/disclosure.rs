//! What operators are shown says nothing of credentials.

use crate::auth;
use crate::auth::BoundView;
use crate::config::{GatewayConfig, PluginConfig, PluginReference, RouteConfig};
use crate::plugins::wasm;
use crate::registry;
use crate::registry::describe;
use crate::registry::describe::{DescribeFilter, DescribeView, RouteLine, Source};
use crate::registry::route;
use crate::registry::route::{Bound, CompiledView, Goal};
use crate::registry::{Declared, DeclaredView, RegisteredService, Registry};
use crate::strmap;
use crate::text;
use crate::yaml;
use vstd::prelude::*;

verus! {

/// Whether two entries of `plugins:` are the same but for the parameters of a policy, where
/// its credentials stand. The parameters of a module are the same too.
pub open spec fn same_entry(a: PluginConfig, b: PluginConfig) -> bool {
    &&& a.name@ == b.name@
    &&& a.plugin_id@ == b.plugin_id@
    &&& a.plugin_id@ == wasm::KIND@ ==> yaml::block_view(a.params) == yaml::block_view(b.params)
}

/// Whether two configs are the same but for the parameters of policies.
pub open spec fn same_but_credentials(a: GatewayConfig, b: GatewayConfig) -> bool {
    let some = registry::entries_of(a.plugins);
    let others = registry::entries_of(b.plugins);
    &&& some.len() == others.len()
    &&& forall|i: int| 0 <= i < some.len() ==> same_entry(#[trigger] some[i], others[i])
    &&& registry::entries_of(a.services) == registry::entries_of(b.services)
    &&& a.routes@ == b.routes@
    &&& a.registration == b.registration
    &&& a.testing == b.testing
}

/// Whether the maps of a registry hold their entries in the order of the keys, as every map
/// does.
pub open spec fn in_order(r: Registry) -> bool {
    &&& strmap::ascending(strmap::keys_of(r.static_services.entries()))
    &&& strmap::ascending(strmap::keys_of(r.catalog.entries()))
}

/// Whether two policies are of one type.
spec fn same_policy(a: auth::PolicyView, b: auth::PolicyView) -> bool {
    &&& auth::policy_kind_spec(a) == auth::policy_kind_spec(b)
    &&& a is StaticToken == b is StaticToken
}

/// Whether two things that `plugins:` declares are of one type, and modules the same.
spec fn same_declared(a: DeclaredView, b: DeclaredView) -> bool {
    match (a, b) {
        (DeclaredView::Policy(p), DeclaredView::Policy(q)) => same_policy(p, q),
        (DeclaredView::Module(m), DeclaredView::Module(n)) => m == n,
        _ => false,
    }
}

/// Whether two catalogs declare the same names, each for things of one type.
spec fn same_catalog(
    a: Map<Seq<char>, DeclaredView>,
    b: Map<Seq<char>, DeclaredView>,
) -> bool {
    &&& a.dom() == b.dom()
    &&& forall|k: Seq<char>| #[trigger] a.contains_key(k) ==> same_declared(a[k], b[k])
}

/// Whether two guards look alike to operators.
spec fn same_guard(a: BoundView, b: BoundView) -> bool {
    &&& a.name == b.name
    &&& a.required_roles == b.required_roles
    &&& a.insert_headers == b.insert_headers
    &&& same_policy(a.policy@, b.policy@)
}

/// Whether lists of guards look alike to operators.
spec fn same_guards(a: Seq<BoundView>, b: Seq<BoundView>) -> bool {
    a.len() == b.len() && forall|i: int| 0 <= i < a.len() ==> same_guard(#[trigger] a[i], b[i])
}

/// Whether two routes look alike to operators.
spec fn same_route(a: CompiledView, b: CompiledView) -> bool {
    &&& same_guards(a.guards, b.guards)
    &&& a == CompiledView { guards: a.guards, ..b }
}

/// Whether lists of routes look alike to operators.
spec fn same_routes(a: Seq<CompiledView>, b: Seq<CompiledView>) -> bool {
    a.len() == b.len() && forall|i: int| 0 <= i < a.len() ==> same_route(#[trigger] a[i], b[i])
}

/// Entries that are the same but for credentials declare things of one type.
proof fn lemma_entry(a: PluginConfig, b: PluginConfig, env: Map<Seq<char>, String>)
    requires
        same_entry(a, b),
        registry::entry_spec(a, env) is Ok,
        registry::entry_spec(b, env) is Ok,
    ensures
        same_declared(registry::entry_spec(a, env)->Ok_0, registry::entry_spec(b, env)->Ok_0),
{
}

/// Lists that are the same but for credentials make catalogs of one look.
proof fn lemma_catalogs(a: Seq<PluginConfig>, b: Seq<PluginConfig>, env: Map<Seq<char>, String>)
    requires
        a.len() == b.len(),
        forall|i: int| 0 <= i < a.len() ==> same_entry(#[trigger] a[i], b[i]),
        registry::catalog_spec(a, env) is Ok,
        registry::catalog_spec(b, env) is Ok,
    ensures
        same_catalog(registry::catalog_spec(a, env)->Ok_0, registry::catalog_spec(b, env)->Ok_0),
    decreases a.len(),
{
    if a.len() > 0 {
        assert forall|i: int| 0 <= i < a.drop_last().len() implies same_entry(
            #[trigger] a.drop_last()[i],
            b.drop_last()[i],
        ) by {
            assert(same_entry(a[i], b[i]));
        }
        lemma_catalogs(a.drop_last(), b.drop_last(), env);
        assert(same_entry(a[a.len() - 1], b[b.len() - 1]));
        lemma_entry(a.last(), b.last(), env);
        let x = registry::catalog_spec(a, env)->Ok_0;
        let y = registry::catalog_spec(b, env)->Ok_0;
        assert(x.dom() =~= y.dom());
    }
}

/// The values of a list of results without an error stand where the results do.
proof fn lemma_collected<T>(rs: Seq<Result<T, Seq<char>>>)
    requires
        route::collected(rs) is Ok,
    ensures
        route::collected(rs)->Ok_0.len() == rs.len(),
        forall|i: int|
            0 <= i < rs.len() ==> (#[trigger] rs[i]) == Ok::<T, Seq<char>>(
                route::collected(rs)->Ok_0[i],
            ),
    decreases rs.len(),
{
    if rs.len() > 0 {
        lemma_collected(rs.drop_last());
        assert forall|i: int| 0 <= i < rs.len() implies (#[trigger] rs[i]) == Ok::<T, Seq<char>>(
            route::collected(rs)->Ok_0[i],
        ) by {
            if i < rs.len() - 1 {
                assert(rs.drop_last()[i] == rs[i]);
            }
        }
    }
}

/// Whether two bindings look alike to operators.
spec fn same_bound(a: Bound, b: Bound) -> bool {
    match (a, b) {
        (Bound::Guard(g), Bound::Guard(h)) => same_guard(g, h),
        (Bound::Filter(f), Bound::Filter(g)) => f == g,
        _ => false,
    }
}

/// Bindings that look alike have guards that do, and the same filters.
proof fn lemma_parts(a: Seq<Bound>, b: Seq<Bound>)
    requires
        a.len() == b.len(),
        forall|i: int| 0 <= i < a.len() ==> same_bound(#[trigger] a[i], b[i]),
    ensures
        same_guards(route::guards_in(a), route::guards_in(b)),
        route::filters_in(a) == route::filters_in(b),
    decreases a.len(),
{
    if a.len() > 0 {
        assert forall|i: int| 0 <= i < a.drop_last().len() implies same_bound(
            #[trigger] a.drop_last()[i],
            b.drop_last()[i],
        ) by {
            assert(same_bound(a[i], b[i]));
        }
        lemma_parts(a.drop_last(), b.drop_last());
        assert(same_bound(a[a.len() - 1], b[b.len() - 1]));
    }
}

/// A reference to things of one type gives bindings that look alike.
proof fn lemma_bound(
    reference: PluginReference,
    a: Map<Seq<char>, Declared>,
    b: Map<Seq<char>, Declared>,
    env: Map<Seq<char>, String>,
)
    requires
        same_catalog(registry::catalog_view(a), registry::catalog_view(b)),
        route::bound_spec(reference, a, env) is Ok,
        route::bound_spec(reference, b, env) is Ok,
    ensures
        same_bound(
            route::bound_spec(reference, a, env)->Ok_0,
            route::bound_spec(reference, b, env)->Ok_0,
        ),
{
    let name = reference.name@;
    let x = registry::catalog_view(a);
    let y = registry::catalog_view(b);
    assert(x.contains_key(name));
    assert(same_declared(x[name], y[name]));
    assert(y.contains_key(name));
    assert(x[name] == a[name]@);
    assert(y[name] == b[name]@);
}

/// An entry of `routes:` gives routes that look alike.
proof fn lemma_config_route(
    config: RouteConfig,
    a: Map<Seq<char>, Declared>,
    b: Map<Seq<char>, Declared>,
    env: Map<Seq<char>, String>,
)
    requires
        same_catalog(registry::catalog_view(a), registry::catalog_view(b)),
        route::config_route_spec(config, a, env) is Ok,
        route::config_route_spec(config, b, env) is Ok,
    ensures
        same_route(
            route::config_route_spec(config, a, env)->Ok_0,
            route::config_route_spec(config, b, env)->Ok_0,
        ),
{
    let x = route::all_bound(config.plugins, a, env)->Ok_0;
    let y = route::all_bound(config.plugins, b, env)->Ok_0;
    if let Some(list) = config.plugins {
        let some = list@.map_values(|r: PluginReference| route::bound_spec(r, a, env));
        let others = list@.map_values(|r: PluginReference| route::bound_spec(r, b, env));
        lemma_collected(some);
        lemma_collected(others);
        assert forall|i: int| 0 <= i < x.len() implies same_bound(#[trigger] x[i], y[i]) by {
            assert(some[i] == route::bound_spec(list@[i], a, env));
            assert(others[i] == route::bound_spec(list@[i], b, env));
            lemma_bound(list@[i], a, b, env);
        }
    }
    lemma_parts(x, y);
}

/// The routes of a config look alike.
proof fn lemma_config_routes(
    list: Seq<RouteConfig>,
    a: Map<Seq<char>, Declared>,
    b: Map<Seq<char>, Declared>,
    env: Map<Seq<char>, String>,
)
    requires
        same_catalog(registry::catalog_view(a), registry::catalog_view(b)),
        registry::routes_spec(list, a, env) is Ok,
        registry::routes_spec(list, b, env) is Ok,
    ensures
        same_routes(
            registry::routes_spec(list, a, env)->Ok_0,
            registry::routes_spec(list, b, env)->Ok_0,
        ),
{
    let x = registry::routes_spec(list, a, env)->Ok_0;
    let y = registry::routes_spec(list, b, env)->Ok_0;
    let some = Seq::new(list.len(), |i: int| registry::declared_route(list, i, a, env));
    let others = Seq::new(list.len(), |i: int| registry::declared_route(list, i, b, env));
    lemma_collected(some);
    lemma_collected(others);
    assert forall|i: int| 0 <= i < x.len() implies same_route(#[trigger] x[i], y[i]) by {
        assert(some[i] == registry::declared_route(list, i, a, env));
        assert(others[i] == registry::declared_route(list, i, b, env));
        lemma_config_route(list[i], a, b, env);
    }
}

/// Routes that look alike pass the same filters, and have the same line.
proof fn lemma_one_route(
    a: CompiledView,
    b: CompiledView,
    source: Source,
    f: DescribeFilter,
    some: Map<Seq<char>, String>,
    others: Map<Seq<char>, String>,
    services: Map<Seq<char>, RegisteredService>,
)
    requires
        same_route(a, b),
        some.dom() == others.dom(),
    ensures
        describe::route_passes(a, source, f) == describe::route_passes(b, source, f),
        describe::route_line(a, source, some, services) == describe::route_line(
            b,
            source,
            others,
            services,
        ),
{
    let of = |g: BoundView| g.name;
    assert(a.guards.map_values(of) =~= b.guards.map_values(of)) by {
        assert forall|i: int| 0 <= i < a.guards.len() implies a.guards[i].name
            == b.guards[i].name by {
            assert(same_guard(a.guards[i], b.guards[i]));
        }
    }
    assert(describe::plugin_names(a) == describe::plugin_names(b));
    let line = |g: BoundView| describe::guard_line(g);
    assert(a.guards.map_values(line) =~= b.guards.map_values(line)) by {
        assert forall|i: int| 0 <= i < a.guards.len() implies describe::guard_line(a.guards[i])
            == describe::guard_line(b.guards[i]) by {
            assert(same_guard(a.guards[i], b.guards[i]));
        }
    }
    if let Goal::Service(name) = a.target {
        assert(some.contains_key(name) == others.contains_key(name));
    }
}

/// Routes that look alike survive a filter alike, with the same lines and the same targets.
proof fn lemma_survivors(
    a: Seq<CompiledView>,
    b: Seq<CompiledView>,
    f: DescribeFilter,
    some: Map<Seq<char>, String>,
    others: Map<Seq<char>, String>,
    services: Map<Seq<char>, RegisteredService>,
)
    requires
        same_routes(a, b),
        some.dom() == others.dom(),
    ensures
        ({
            let x = describe::surviving(describe::from(a, Source::Static), f);
            let y = describe::surviving(describe::from(b, Source::Static), f);
            &&& describe::lines_for(x, some, services) == describe::lines_for(y, others, services)
            &&& describe::targets(x) == describe::targets(y)
        }),
    decreases a.len(),
{
    let from_a = describe::from(a, Source::Static);
    let from_b = describe::from(b, Source::Static);
    let x = describe::surviving(from_a, f);
    let y = describe::surviving(from_b, f);
    if a.len() == 0 {
        assert(describe::lines_for(x, some, services) =~= describe::lines_for(
            y,
            others,
            services,
        ));
    } else {
        assert forall|i: int| 0 <= i < a.drop_last().len() implies same_route(
            #[trigger] a.drop_last()[i],
            b.drop_last()[i],
        ) by {
            assert(same_route(a[i], b[i]));
        }
        lemma_survivors(a.drop_last(), b.drop_last(), f, some, others, services);
        assert(same_route(a[a.len() - 1], b[b.len() - 1]));
        lemma_one_route(a.last(), b.last(), Source::Static, f, some, others, services);
        assert(from_a.drop_last() =~= describe::from(a.drop_last(), Source::Static));
        assert(from_b.drop_last() =~= describe::from(b.drop_last(), Source::Static));
        assert(from_a.last() == (a.last(), Source::Static));
        assert(from_b.last() == (b.last(), Source::Static));
        let x0 = describe::surviving(from_a.drop_last(), f);
        let y0 = describe::surviving(from_b.drop_last(), f);
        if describe::route_passes(a.last(), Source::Static, f) {
            let line = describe::route_line(a.last(), Source::Static, some, services);
            assert(describe::lines_for(x, some, services) =~= describe::lines_for(
                x0,
                some,
                services,
            ).push(line));
            assert(describe::lines_for(y, others, services) =~= describe::lines_for(
                y0,
                others,
                services,
            ).push(line));
            assert(x.drop_last() =~= x0);
            assert(y.drop_last() =~= y0);
        }
    }
}

/// Texts in ascending order are told by which of them there are.
proof fn lemma_same_keys(a: Seq<Seq<char>>, b: Seq<Seq<char>>)
    requires
        strmap::ascending(a),
        strmap::ascending(b),
        forall|k: Seq<char>| #[trigger] a.contains(k) <==> b.contains(k),
    ensures
        a == b,
    decreases a.len(),
{
    if a.len() == 0 {
        if b.len() > 0 {
            assert(b.contains(b[0]));
            assert(a.contains(b[0]));
        }
        assert(a =~= b);
    } else {
        assert(a.contains(a.last()));
        assert(b.contains(a.last()));
        assert(b.contains(b.last()));
        assert(a.contains(b.last()));
        let i = choose|i: int| 0 <= i < b.len() && b[i] == a.last();
        let j = choose|j: int| 0 <= j < a.len() && a[j] == b.last();
        if a.last() != b.last() {
            assert(text::precedes(b[i], b[b.len() - 1]));
            assert(text::precedes(a[j], a[a.len() - 1]));
            text::lemma_precedes_transitive(a.last(), b.last(), a.last());
            text::lemma_precedes_irreflexive(a.last());
        }
        let x = a.drop_last();
        let y = b.drop_last();
        strmap::lemma_ascending_distinct(a);
        strmap::lemma_ascending_distinct(b);
        assert forall|k: Seq<char>| #[trigger] x.contains(k) <==> y.contains(k) by {
            if x.contains(k) {
                let n = choose|n: int| 0 <= n < x.len() && x[n] == k;
                assert(a[n] == k);
                assert(a.contains(k));
                assert(b.contains(k));
                let m = choose|m: int| 0 <= m < b.len() && b[m] == k;
                assert(m < b.len() - 1);
                assert(y[m] == k);
            }
            if y.contains(k) {
                let n = choose|n: int| 0 <= n < y.len() && y[n] == k;
                assert(b[n] == k);
                assert(b.contains(k));
                assert(a.contains(k));
                let m = choose|m: int| 0 <= m < a.len() && a[m] == k;
                assert(m < a.len() - 1);
                assert(x[m] == k);
            }
        }
        lemma_same_keys(x, y);
        assert(a =~= x.push(a.last()));
        assert(b =~= y.push(b.last()));
    }
}

/// Maps with the same keys have them in the same places.
proof fn lemma_same_places<U, V>(a: strmap::StrMap<U>, b: strmap::StrMap<V>)
    requires
        strmap::ascending(strmap::keys_of(a.entries())),
        strmap::ascending(strmap::keys_of(b.entries())),
        a@.dom() == b@.dom(),
    ensures
        strmap::keys_of(a.entries()) == strmap::keys_of(b.entries()),
        forall|i: int|
            0 <= i < a.entries().len() ==> a@.contains_key((#[trigger] a.entries()[i]).0@)
                && a.entries()[i].1 == a@[a.entries()[i].0@],
        forall|i: int|
            0 <= i < b.entries().len() ==> b@.contains_key((#[trigger] b.entries()[i]).0@)
                && b.entries()[i].1 == b@[b.entries()[i].0@],
{
    let ka = strmap::keys_of(a.entries());
    let kb = strmap::keys_of(b.entries());
    strmap::lemma_entries(a);
    strmap::lemma_entries(b);
    strmap::lemma_ascending_distinct(ka);
    strmap::lemma_ascending_distinct(kb);
    strmap::lemma_map_of(a.entries());
    strmap::lemma_map_of(b.entries());
    assert forall|k: Seq<char>| #[trigger] ka.contains(k) <==> kb.contains(k) by {
        assert(a@.contains_key(k) == b@.contains_key(k));
    }
    lemma_same_keys(ka, kb);
}

/// Declared services with the same names and URLs have the same lines.
proof fn lemma_declared_lines(
    a: Seq<(String, String)>,
    b: Seq<(String, String)>,
    f: DescribeFilter,
    targeted: Seq<Seq<char>>,
    routes: Seq<RouteLine>,
)
    requires
        a.len() == b.len(),
        forall|i: int|
            0 <= i < a.len() ==> (#[trigger] a[i]).0@ == b[i].0@ && a[i].1@ == b[i].1@,
    ensures
        describe::declared_lines(a, f, targeted, routes) == describe::declared_lines(
            b,
            f,
            targeted,
            routes,
        ),
    decreases a.len(),
{
    if a.len() > 0 {
        assert(a[a.len() - 1].0@ == b[b.len() - 1].0@);
        lemma_declared_lines(a.drop_last(), b.drop_last(), f, targeted, routes);
    }
}

/// Plugins with the same names and types have the same lines.
proof fn lemma_plugin_lines(
    a: Seq<(String, Declared)>,
    b: Seq<(String, Declared)>,
    f: DescribeFilter,
)
    requires
        a.len() == b.len(),
        forall|i: int|
            0 <= i < a.len() ==> (#[trigger] a[i]).0@ == b[i].0@ && registry::declared_kind(a[i].1@)
                == registry::declared_kind(b[i].1@),
    ensures
        describe::plugin_lines(a, f) == describe::plugin_lines(b, f),
    decreases a.len(),
{
    if a.len() > 0 {
        assert(a[a.len() - 1].0@ == b[b.len() - 1].0@);
        lemma_plugin_lines(a.drop_last(), b.drop_last(), f);
    }
}

/// No credential reaches what operators are shown: of two configs that are the same but
/// for the parameters of policies, and to whose gateways nothing has registered itself,
/// the same is shown, whatever the filter and the moment.
pub proof fn law_a_description_tells_no_credential(
    a: GatewayConfig,
    b: GatewayConfig,
    env: Map<Seq<char>, String>,
    one: Registry,
    other: Registry,
    f: DescribeFilter,
    now: u128,
    shown: DescribeView,
)
    requires
        same_but_credentials(a, b),
        registry::configured(a, env, Ok::<Registry, String>(one)),
        registry::configured(b, env, Ok::<Registry, String>(other)),
        in_order(one),
        in_order(other),
    ensures
        describe::describes(one, f, now, shown) == describe::describes(other, f, now, shown),
{
    lemma_catalogs(registry::entries_of(a.plugins), registry::entries_of(b.plugins), env);
    lemma_config_routes(a.routes@, one.catalog@, other.catalog@, env);
    let urls = one.static_services@;
    let others = other.static_services@;
    assert(registry::urls_view(urls).dom() =~= urls.dom());
    assert(registry::urls_view(others).dom() =~= others.dom());
    assert(registry::catalog_view(one.catalog@).dom() =~= one.catalog@.dom());
    assert(registry::catalog_view(other.catalog@).dom() =~= other.catalog@.dom());
    let none = Map::<Seq<char>, RegisteredService>::empty();
    let x = one.services.entries();
    let y = other.services.entries();
    strmap::lemma_entries(one.services);
    strmap::lemma_entries(other.services);
    if x.len() > 0 {
        assert(one.services@.contains_key(x.last().0@));
    }
    if y.len() > 0 {
        assert(other.services@.contains_key(y.last().0@));
    }
    let ra = route::routes_view(one.static_routes@);
    let rb = route::routes_view(other.static_routes@);
    assert(describe::candidates(one) =~= describe::from(ra, Source::Static));
    assert(describe::candidates(other) =~= describe::from(rb, Source::Static));
    lemma_survivors(ra, rb, f, urls, others, none);
    lemma_same_places(one.static_services, other.static_services);
    let sa = one.static_services.entries();
    let sb = other.static_services.entries();
    assert(strmap::keys_of(sa).len() == sa.len());
    assert(strmap::keys_of(sb).len() == sb.len());
    assert forall|i: int| 0 <= i < sa.len() implies (#[trigger] sa[i]).0@ == sb[i].0@ && sa[i].1@
        == sb[i].1@ by {
        assert(strmap::keys_of(sa)[i] == strmap::keys_of(sb)[i]);
        assert(registry::urls_view(urls)[sa[i].0@] == urls[sa[i].0@]@);
        assert(registry::urls_view(others)[sb[i].0@] == others[sb[i].0@]@);
    }
    let targeted = describe::targets(describe::surviving(describe::candidates(one), f));
    lemma_declared_lines(sa, sb, f, targeted, describe::described_routes(one, f));
    lemma_same_places(one.catalog, other.catalog);
    let ca = one.catalog.entries();
    let cb = other.catalog.entries();
    assert(strmap::keys_of(ca).len() == ca.len());
    assert(strmap::keys_of(cb).len() == cb.len());
    assert forall|i: int| 0 <= i < ca.len() implies (#[trigger] ca[i]).0@ == cb[i].0@
        && registry::declared_kind(ca[i].1@) == registry::declared_kind(cb[i].1@) by {
        assert(strmap::keys_of(ca)[i] == strmap::keys_of(cb)[i]);
        let name = ca[i].0@;
        let p = registry::catalog_view(one.catalog@);
        let q = registry::catalog_view(other.catalog@);
        assert(p.contains_key(name));
        assert(same_declared(p[name], q[name]));
    }
    lemma_plugin_lines(ca, cb, f);
}

} // verus!
