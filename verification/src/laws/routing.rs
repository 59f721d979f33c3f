//! Which route a path takes, and where the request goes.

use crate::config::MatchType;
use crate::proxy;
use crate::registry;
use crate::registry::route;
use crate::registry::route::{
    CompiledRoute, CompiledView, Goal, PathMatch, PathRegex, Pattern, Shape, Target,
};
use crate::registry::{RegisteredService, ResolutionView};
use crate::text;
use vstd::prelude::*;
use vstd::string::*;

verus! {

/// Whether one match is better than another, or as good: it ranks higher, or the same and
/// takes at least as much of the path.
pub open spec fn outdoes(a: PathMatch, b: PathMatch) -> bool {
    a.rank > b.rank || (a.rank == b.rank && a.matched_len >= b.matched_len)
}

/// The best of some matches is one of them that outdoes all.
proof fn lemma_best(ms: Seq<Option<PathMatch>>)
    ensures
        match route::best(ms) {
            Some(m) => (exists|i: int| 0 <= i < ms.len() && #[trigger] ms[i] == Some(m))
                && forall|j: int|
                0 <= j < ms.len() && (#[trigger] ms[j]) is Some ==> outdoes(m, ms[j]->Some_0),
            None => forall|j: int| 0 <= j < ms.len() ==> (#[trigger] ms[j]) is None,
        },
    decreases ms.len(),
{
    if ms.len() > 0 {
        let front = ms.drop_last();
        lemma_best(front);
        assert(forall|j: int| 0 <= j < front.len() ==> front[j] == ms[j]);
        assert(ms[ms.len() - 1] == ms.last());
        if let Some(m) = route::best(front) {
            let i = choose|i: int| 0 <= i < front.len() && #[trigger] front[i] == Some(m);
            assert(ms[i] == Some(m));
        }
    }
}

/// A path matches a route as the best of the route's own compiled paths does: the match is
/// that of one of them, and none that matches ranks higher, or the same with a longer
/// match. It matches none where none of them does.
pub proof fn law_a_route_matches_by_its_best_path(
    compiled: CompiledRoute,
    path: &str,
    r: Option<PathMatch>,
    each: spec_fn(int) -> Option<PathMatch>,
)
    requires
        call_ensures(CompiledRoute::match_path, (&compiled, path), r),
        forall|i: int|
            0 <= i < compiled.patterns@.len() ==> call_ensures(
                Pattern::match_path,
                (&compiled.patterns@[i], path),
                #[trigger] each(i),
            ),
    ensures
        match r {
            Some(m) => (exists|i: int|
                0 <= i < compiled.patterns@.len() && #[trigger] each(i) == Some(m)) && forall|j: int|
                0 <= j < compiled.patterns@.len() && (#[trigger] each(j)) is Some ==> each(
                    j,
                )->Some_0.rank < m.rank || (each(j)->Some_0.rank == m.rank && each(
                    j,
                )->Some_0.matched_len <= m.matched_len),
            None => forall|j: int| 0 <= j < compiled.patterns@.len() ==> (#[trigger] each(j)) is None,
        },
{
    let shapes = compiled@.patterns;
    let ms = shapes.map_values(|s: Shape| route::shape_match(s, path@));
    lemma_best(ms);
    assert forall|i: int| 0 <= i < compiled.patterns@.len() implies #[trigger] each(i) == ms[i] by {
        assert(call_ensures(Pattern::match_path, (&compiled.patterns@[i], path), each(i)));
        assert(shapes[i] == route::shape(compiled.patterns@[i]));
    }
    if let Some(m) = r {
        let i = choose|i: int| 0 <= i < ms.len() && #[trigger] ms[i] == Some(m);
        assert(each(i) == Some(m));
        assert forall|j: int| 0 <= j < compiled.patterns@.len() && (#[trigger] each(
            j,
        )) is Some implies each(j)->Some_0.rank < m.rank || (each(j)->Some_0.rank == m.rank && each(
            j,
        )->Some_0.matched_len <= m.matched_len) by {
            assert(ms[j] is Some);
        }
    } else {
        assert forall|j: int| 0 <= j < compiled.patterns@.len() implies (#[trigger] each(
            j,
        )) is None by {
            assert(ms[j] is None);
        }
    }
}

/// A compiled path matches in one of three ways. An exact one matches the very path. A
/// prefix matches whole segments: the path itself, or the path up to one of its slashes;
/// the empty prefix matches everything. An expression matches where it is found at the
/// front. Each takes as many bytes as it compares.
pub proof fn law_what_a_compiled_path_matches(pattern: Pattern, path: &str, r: Option<PathMatch>)
    requires
        call_ensures(Pattern::match_path, (&pattern, path), r),
    ensures
        pattern matches Pattern::Exact(whole) ==> (r is Some <==> whole@ == path@),
        pattern matches Pattern::Exact(whole) ==> (r matches Some(m) ==> m.matched_len
            == vstd::utf8::encode_utf8(path@).len()),
        pattern matches Pattern::Prefix(front) ==> (r is Some <==> (front@.len() == 0 || front@
            == path@ || exists|rest: Seq<char>| path@ == front@.push('/') + rest)),
        pattern matches Pattern::Prefix(front) ==> (r matches Some(m) ==> m.matched_len
            == vstd::utf8::encode_utf8(front@).len()),
        pattern matches Pattern::Regex(regex) ==> (r is Some <==> (route::regex_find(
            regex.text(),
            path@,
        ) matches Some((start, _)) && start == 0)),
        pattern matches Pattern::Regex(regex) ==> (r matches Some(m) ==> route::regex_find(
            regex.text(),
            path@,
        ) == Some((0usize, m.matched_len))),
{
    if let Pattern::Prefix(front) = pattern {
        let f = front@;
        let p = path@;
        if f.is_prefix_of(p) && f.len() < p.len() && p[f.len() as int] == '/' {
            assert(p =~= f.push('/') + p.skip(f.len() as int + 1));
        }
        if exists|rest: Seq<char>| p == f.push('/') + rest {
            let rest = choose|rest: Seq<char>| p == f.push('/') + rest;
            assert(p[f.len() as int] == '/');
            assert(f =~= p.subrange(0, f.len() as int));
            assert(f.is_prefix_of(p));
        }
    }
}

/// An exact match ranks over a match by prefix, and that over one by an expression; two of
/// one kind rank the same.
pub proof fn law_how_matches_rank(
    a: Pattern,
    b: Pattern,
    path: &str,
    m: PathMatch,
    n: PathMatch,
)
    requires
        call_ensures(Pattern::match_path, (&a, path), Some(m)),
        call_ensures(Pattern::match_path, (&b, path), Some(n)),
    ensures
        a is Exact && b is Prefix ==> m.rank > n.rank,
        a is Exact && b is Regex ==> m.rank > n.rank,
        a is Prefix && b is Regex ==> m.rank > n.rank,
        a is Exact && b is Exact ==> m.rank == n.rank,
        a is Prefix && b is Prefix ==> m.rank == n.rank,
        a is Regex && b is Regex ==> m.rank == n.rank,
{
}

/// What is left of a path once its front is taken off is what stands behind the front, and
/// always begins with a slash.
pub proof fn law_what_stripping_leaves(
    path: &str,
    front: Seq<char>,
    rest: Seq<char>,
    matched_len: usize,
    r: String,
)
    requires
        path@ == front + rest,
        matched_len == vstd::utf8::encode_utf8(front).len(),
        call_ensures(route::strip_prefix, (path, matched_len), r),
    ensures
        r@.len() > 0 && r@[0] == '/',
        rest.len() == 0 ==> r@ == seq!['/'],
        rest.len() > 0 && rest[0] == '/' ==> r@ == rest,
        rest.len() > 0 && rest[0] != '/' ==> r@ == seq!['/'] + rest,
{
    reveal_strlit("/");
    route::law_stripping_leaves_what_follows(front, rest);
    assert("/"@ =~= seq!['/']);
}

/// Trailing copies of a character are all that goes.
proof fn lemma_trim_end(s: Seq<char>, c: char)
    ensures
        text::trim_end_char_spec(s, c).len() <= s.len(),
        text::trim_end_char_spec(s, c) == s.take(text::trim_end_char_spec(s, c).len() as int),
        forall|i: int|
            text::trim_end_char_spec(s, c).len() <= i < s.len() ==> #[trigger] s[i] == c,
        text::trim_end_char_spec(s, c).len() > 0 ==> text::trim_end_char_spec(s, c).last() != c,
    decreases s.len(),
{
    if s.len() > 0 && s.last() == c {
        lemma_trim_end(s.drop_last(), c);
        let t = text::trim_end_char_spec(s, c);
        assert(s.drop_last().take(t.len() as int) =~= s.take(t.len() as int));
        assert forall|i: int| t.len() <= i < s.len() implies #[trigger] s[i] == c by {
            if i < s.len() - 1 {
                assert(s.drop_last()[i] == s[i]);
            }
        }
    } else {
        assert(s.take(s.len() as int) =~= s);
    }
}

/// A text with slashes behind it gives the text back where it does not end in one.
proof fn lemma_trim_slashes(base: Seq<char>, slashes: Seq<char>)
    requires
        base.len() == 0 || base.last() != '/',
        forall|i: int| 0 <= i < slashes.len() ==> #[trigger] slashes[i] == '/',
    ensures
        text::trim_end_char_spec(base + slashes, '/') == base,
    decreases slashes.len(),
{
    if slashes.len() == 0 {
        assert(base + slashes =~= base);
    } else {
        assert((base + slashes).drop_last() =~= base + slashes.drop_last());
        assert((base + slashes).last() == slashes[slashes.len() - 1]);
        lemma_trim_slashes(base, slashes.drop_last());
    }
}

/// One list of compiled paths, in the order of the paths, each compared in the way the
/// route asks for: to the letter, without its trailing slashes, or as an expression.
pub proof fn law_how_paths_compile(
    paths: Vec<String>,
    match_type: MatchType,
    r: Result<Vec<Pattern>, String>,
    i: int,
)
    requires
        call_ensures(route::compile_patterns, (&paths, match_type), r),
        0 <= i < paths@.len(),
    ensures
        r matches Ok(v) ==> v@.len() == paths@.len() && match match_type {
            MatchType::EXACT => v@[i] matches Pattern::Exact(s) && s@ == paths@[i]@,
            MatchType::PREFIX => v@[i] matches Pattern::Prefix(s) && s@.is_prefix_of(paths@[i]@) && (
            s@.len() == 0 || s@.last() != '/') && forall|k: int|
                s@.len() <= k < paths@[i]@.len() ==> #[trigger] paths@[i]@[k] == '/',
            MatchType::REGEX => v@[i] matches Pattern::Regex(x) && x.text() == paths@[i]@,
        },
        !(match_type is REGEX) ==> r is Ok,
{
    let all = text::texts(paths@).map_values(|p: Seq<char>| route::pattern_spec(p, match_type));
    lemma_collected(all);
    assert(all[i] == route::pattern_spec(paths@[i]@, match_type));
    if let Ok(v) = r {
        assert(route::collected(all) == Ok::<Seq<Shape>, Seq<char>>(route::shapes(v@)));
        assert(route::shapes(v@).len() == v@.len());
        assert(route::shapes(v@)[i] == route::shape(v@[i]));
        lemma_trim_end(paths@[i]@, '/');
        let t = text::trim_end_char_spec(paths@[i]@, '/');
        assert(t =~= paths@[i]@.subrange(0, t.len() as int));
    }
    if !(match_type is REGEX) {
        assert forall|k: int| 0 <= k < all.len() implies (#[trigger] all[k]) is Ok by {
            assert(all[k] == route::pattern_spec(paths@[k]@, match_type));
        }
    }
}

/// A list of results comes to the values of all of them, in order, or to one of their
/// errors.
proof fn lemma_collected<T>(rs: Seq<Result<T, Seq<char>>>)
    ensures
        match route::collected(rs) {
            Ok(v) => v.len() == rs.len() && forall|i: int|
                0 <= i < rs.len() ==> #[trigger] rs[i] == Ok::<T, Seq<char>>(v[i]),
            Err(e) => exists|i: int|
                0 <= i < rs.len() && #[trigger] rs[i] == Err::<T, Seq<char>>(e) && forall|j: int|
                    0 <= j < i ==> (#[trigger] rs[j]) is Ok,
        },
    decreases rs.len(),
{
    if rs.len() > 0 {
        let front = rs.drop_last();
        lemma_collected(front);
        assert(forall|j: int| 0 <= j < front.len() ==> front[j] == rs[j]);
        assert(rs[rs.len() - 1] == rs.last());
        match route::collected(front) {
            Err(e) => {
                let i = choose|i: int|
                    0 <= i < front.len() && #[trigger] front[i] == Err::<T, Seq<char>>(e)
                        && forall|j: int| 0 <= j < i ==> (#[trigger] front[j]) is Ok;
                assert(rs[i] == Err::<T, Seq<char>>(e));
            },
            Ok(v) => {
                assert(forall|j: int| 0 <= j < front.len() ==> (#[trigger] rs[j]) is Ok) by {
                    assert forall|j: int| 0 <= j < front.len() implies (#[trigger] rs[j]) is Ok by {
                        assert(front[j] is Ok);
                    }
                }
            },
        }
    }
}

/// Of some routes the one that is taken matches the path, none before it matches better,
/// and none behind it as well; where none is taken, none matches.
pub proof fn law_the_best_route_is_taken(
    routes: Vec<&CompiledRoute>,
    path: &str,
    r: Option<(usize, PathMatch)>,
    each: spec_fn(int) -> Option<PathMatch>,
)
    requires
        call_ensures(route::best_match, (&routes, path), r),
        forall|i: int|
            0 <= i < routes@.len() ==> call_ensures(
                CompiledRoute::match_path,
                (routes@[i], path),
                #[trigger] each(i),
            ),
    ensures
        match r {
            Some((at, m)) => at < routes@.len() && each(at as int) == Some(m) && (forall|j: int|
                0 <= j < at && (#[trigger] each(j)) is Some ==> each(j)->Some_0.rank < m.rank || (
                each(j)->Some_0.rank == m.rank && each(j)->Some_0.matched_len <= m.matched_len))
                && forall|j: int|
                at < j < routes@.len() && (#[trigger] each(j)) is Some ==> each(j)->Some_0.rank
                    < m.rank || (each(j)->Some_0.rank == m.rank && each(j)->Some_0.matched_len
                    < m.matched_len),
            None => forall|j: int| 0 <= j < routes@.len() ==> (#[trigger] each(j)) is None,
        },
{
    let ms = route::matches_of(route::refs_view(routes@), path@);
    lemma_best_place(ms);
    assert forall|i: int| 0 <= i < routes@.len() implies #[trigger] each(i) == ms[i] by {
        assert(call_ensures(CompiledRoute::match_path, (routes@[i], path), each(i)));
        assert(route::refs_view(routes@)[i] == routes@[i]@);
    }
    if let Some((at, m)) = r {
        assert(ms[at as int] is Some);
        assert(each(at as int) == Some(m));
        assert forall|j: int| 0 <= j < at && (#[trigger] each(j)) is Some implies each(
            j,
        )->Some_0.rank < m.rank || (each(j)->Some_0.rank == m.rank && each(j)->Some_0.matched_len
            <= m.matched_len) by {
            assert(ms[j] is Some);
        }
        assert forall|j: int| at < j < routes@.len() && (#[trigger] each(j)) is Some implies each(
            j,
        )->Some_0.rank < m.rank || (each(j)->Some_0.rank == m.rank && each(j)->Some_0.matched_len
            < m.matched_len) by {
            assert(ms[j] is Some);
        }
    } else {
        assert forall|j: int| 0 <= j < routes@.len() implies (#[trigger] each(j)) is None by {
            assert(ms[j] is None);
        }
    }
}

/// The best place holds a match that outdoes those before it, and is outdone by none behind.
proof fn lemma_best_place(ms: Seq<Option<PathMatch>>)
    ensures
        match route::best_place(ms) {
            Some(at) => 0 <= at < ms.len() && ms[at] is Some && (forall|j: int|
                0 <= j < at && (#[trigger] ms[j]) is Some ==> outdoes(
                    ms[at]->Some_0,
                    ms[j]->Some_0,
                )) && forall|j: int|
                at < j < ms.len() && (#[trigger] ms[j]) is Some ==> !outdoes(
                    ms[j]->Some_0,
                    ms[at]->Some_0,
                ),
            None => forall|j: int| 0 <= j < ms.len() ==> (#[trigger] ms[j]) is None,
        },
    decreases ms.len(),
{
    if ms.len() > 0 {
        let front = ms.drop_last();
        lemma_best_place(front);
        assert(forall|j: int| 0 <= j < front.len() ==> front[j] == ms[j]);
        assert(ms[ms.len() - 1] == ms.last());
    }
}

/// A declared route takes a path before any that a service registered, and a path goes
/// nowhere only where no route of either kind matches it.
pub proof fn law_a_path_takes_a_route_that_matches(
    fixed: Seq<CompiledView>,
    dynamic: Seq<CompiledView>,
    path: Seq<char>,
)
    ensures
        match registry::chosen(fixed, dynamic, path) {
            Some((taken, source)) => route::route_match(taken.patterns, path) is Some && (
            fixed.contains(taken) && source == "static"@ || dynamic.contains(taken) && source
                == "dynamic"@ && forall|i: int|
                0 <= i < fixed.len() ==> route::route_match(
                    (#[trigger] fixed[i]).patterns,
                    path,
                ) is None),
            None => (forall|i: int|
                0 <= i < fixed.len() ==> route::route_match(
                    (#[trigger] fixed[i]).patterns,
                    path,
                ) is None) && forall|i: int|
                0 <= i < dynamic.len() ==> route::route_match(
                    (#[trigger] dynamic[i]).patterns,
                    path,
                ) is None,
        },
{
    let a = route::matches_of(fixed, path);
    let b = route::matches_of(dynamic, path);
    lemma_best_place(a);
    lemma_best_place(b);
    assert(forall|i: int|
        0 <= i < fixed.len() ==> a[i] == route::route_match((#[trigger] fixed[i]).patterns, path));
    assert(forall|i: int|
        0 <= i < dynamic.len() ==> b[i] == route::route_match(
            (#[trigger] dynamic[i]).patterns,
            path,
        ));
}

/// A target is the address of a service where it begins with the scheme of HTTP, and the
/// name of one otherwise; either way to the letter.
pub proof fn law_what_a_target_is(url: &str, r: Target)
    requires
        call_ensures(Target::parse, (url,), r),
    ensures
        r matches Target::Url(s) ==> s@ == url@,
        r matches Target::Service(s) ==> s@ == url@,
        r is Url <==> (exists|rest: Seq<char>|
            url@ == seq!['h', 't', 't', 'p', ':', '/', '/'] + rest) || (exists|rest: Seq<char>|
            url@ == seq!['h', 't', 't', 'p', 's', ':', '/', '/'] + rest),
{
    reveal_strlit("http://");
    reveal_strlit("https://");
    assert("http://"@ =~= seq!['h', 't', 't', 'p', ':', '/', '/']);
    assert("https://"@ =~= seq!['h', 't', 't', 'p', 's', ':', '/', '/']);
    text::lemma_prefix(url@, "http://"@);
    text::lemma_prefix(url@, "https://"@);
}

/// Where a request goes that takes a route to an address: to the address without its
/// trailing slashes, and the path behind it, of which the matched front is taken off where
/// the route says so. Nothing of the route is lost on the way.
pub proof fn law_a_request_goes_to_its_routes_address(
    r: CompiledView,
    source: Seq<char>,
    path: Seq<char>,
    urls: Map<Seq<char>, Seq<char>>,
    services: Map<Seq<char>, RegisteredService>,
    base: Seq<char>,
    slashes: Seq<char>,
)
    requires
        base.len() == 0 || base.last() != '/',
        forall|i: int| 0 <= i < slashes.len() ==> #[trigger] slashes[i] == '/',
        r.target == Goal::Url(base + slashes) || (r.target matches Goal::Service(name)
            && urls.contains_key(name) && urls[name] == base + slashes),
    ensures
        registry::sent(r, source, path, urls, services) matches ResolutionView::Resolved {
            route,
            source: from,
            service,
            instance,
            target_url,
            forward_token,
            guards,
            filters,
        } && route == r.name && from == source && instance is None && forward_token
            == r.forward_token && guards == r.guards && filters == r.filters && service == (
        match r.target {
            Goal::Url(_) => None,
            Goal::Service(name) => Some(name),
        }) && (!r.strip_path ==> target_url == base + path),
{
    lemma_trim_slashes(base, slashes);
}

/// What goes upstream of a path whose matched front is taken off: what stands behind the
/// front, behind the address, with one slash between them.
pub proof fn law_the_matched_front_is_taken_off(
    r: CompiledView,
    source: Seq<char>,
    front: Seq<char>,
    rest: Seq<char>,
    urls: Map<Seq<char>, Seq<char>>,
    services: Map<Seq<char>, RegisteredService>,
    base: Seq<char>,
    slashes: Seq<char>,
    m: PathMatch,
)
    requires
        r.strip_path,
        base.len() == 0 || base.last() != '/',
        forall|i: int| 0 <= i < slashes.len() ==> #[trigger] slashes[i] == '/',
        r.target == Goal::Url(base + slashes),
        route::route_match(r.patterns, front + rest) == Some(m),
        m.matched_len == vstd::utf8::encode_utf8(front).len(),
    ensures
        registry::sent(r, source, front + rest, urls, services)->target_url == base + (
        if rest.len() > 0 && rest[0] == '/' {
            rest
        } else {
            seq!['/'] + rest
        }),
{
    lemma_trim_slashes(base, slashes);
    reveal_strlit("/");
    assert("/"@ =~= seq!['/']);
    route::law_stripping_leaves_what_follows(front, rest);
    assert(rest.len() == 0 ==> seq!['/'] + rest =~= seq!['/']);
}

/// A request that takes a route to a registered service goes to one of its instances, and
/// nowhere where it has none. A declared service comes before a registered one.
pub proof fn law_a_request_goes_to_an_instance(
    r: CompiledView,
    source: Seq<char>,
    path: Seq<char>,
    urls: Map<Seq<char>, Seq<char>>,
    services: Map<Seq<char>, RegisteredService>,
    name: Seq<char>,
)
    requires
        r.target == Goal::Service(name),
        !urls.contains_key(name),
    ensures
        match registry::sent(r, source, path, urls, services) {
            ResolutionView::Resolved { service, instance, target_url, .. } => service == Some(name)
                && services.contains_key(name) && exists|i: int|
                0 <= i < services[name].instances.entries().len() && instance == Some(
                    (#[trigger] services[name].instances.entries()[i]).0@,
                ) && (!r.strip_path ==> forall|base: Seq<char>, slashes: Seq<char>|
                    #![trigger base + slashes]
                    services[name].instances.entries()[i].1.url@ == base + slashes && (base.len()
                        == 0 || base.last() != '/') && (forall|k: int|
                        0 <= k < slashes.len() ==> #[trigger] slashes[k] == '/') ==> target_url
                        == base + path),
            ResolutionView::NoInstances { route, wanted } => route == r.name && wanted == name && (
            !services.contains_key(name) || services[name].instances.entries().len() == 0),
            ResolutionView::NotFound => false,
        },
{
    if services.contains_key(name) && services[name].instances.entries().len() > 0 {
        let s = services[name];
        let e = s.instances.entries();
        let at = s.cursor as int % e.len() as int;
        assert(0 <= at < e.len());
        let url = e[at].1.url@;
        assert forall|base: Seq<char>, slashes: Seq<char>|
            #![trigger base + slashes]
            url == base + slashes && (base.len() == 0 || base.last() != '/') && (forall|k: int|
                0 <= k < slashes.len() ==> #[trigger] slashes[k]
                    == '/') implies text::trim_end_char_spec(url, '/') == base by {
            lemma_trim_slashes(base, slashes);
        }
        assert(e[at].0@ == registry::picked(services, name)->Some_0.0);
    }
}

/// The query of a request is part of where it goes: behind a question mark, to the letter,
/// and no question mark where there is none.
pub proof fn law_the_query_goes_upstream(url: &str, query: &str, r: String)
    requires
        call_ensures(proxy::upstream_url, (url, query), r),
    ensures
        query@.len() == 0 ==> r@ == url@,
        query@.len() > 0 ==> r@ == url@.push('?') + query@,
{
    reveal_strlit("?");
    assert("?"@ =~= seq!['?']);
    assert(url@ + "?"@ =~= url@.push('?'));
}

/// The text an expression was compiled from is what it goes by.
pub proof fn law_an_expression_is_its_text(pattern: &str, r: Result<PathRegex, String>)
    requires
        call_ensures(PathRegex::new, (pattern,), r),
    ensures
        r matches Ok(regex) ==> regex.text() == pattern@,
        r is Ok <==> route::regex_error(pattern@) is None,
{
}

} // verus!
