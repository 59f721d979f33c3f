//! Routes: how the paths of a config are compiled, and which of them a request path
//! matches.

use crate::auth;
use crate::auth::{BoundView, RouteGuard};
use crate::config::{MatchType, PluginReference, RouteConfig};
use crate::json;
use crate::plugins::wasm;
use crate::plugins::wasm::{BindingView, FilterBinding};
use crate::registry::{Declared, PluginRequirement, RouteSpec};
use crate::strmap;
use crate::strmap::StrMap;
use crate::text;
use vstd::prelude::*;
use vstd::string::*;

verus! {

/// A compiled regular expression.
#[verifier::external_type_specification]
#[verifier::external_body]
pub struct ExRegex(regex::Regex);

/// The text a regular expression was compiled from, as `regex::Regex::as_str` gives it.
pub uninterp spec fn regex_text(r: regex::Regex) -> Seq<char>;

/// What `regex::Regex::new` says is wrong with a text, where anything is.
pub uninterp spec fn regex_error(pattern: Seq<char>) -> Option<Seq<char>>;

/// Where `regex::Regex::find` finds the expression of a text in another, in bytes from
/// the front: the start and the end of the first match.
pub uninterp spec fn regex_find(pattern: Seq<char>, path: Seq<char>) -> Option<(usize, usize)>;

/// `regex::Regex::new`: the expression of a text, or the text of the error.
#[verifier::external_body]
fn regex_new(pattern: &str) -> (r: Result<regex::Regex, String>)
    ensures
        match r {
            Ok(regex) => regex_error(pattern@) is None && regex_text(regex) == pattern@,
            Err(e) => regex_error(pattern@) == Some(e@),
        },
{
    regex::Regex::new(pattern).map_err(|error| error.to_string())
}

/// `regex::Regex::find`: the byte offsets of the first match, which lie within the text
/// and between characters.
#[verifier::external_body]
fn find_match(regex: &regex::Regex, path: &str) -> (r: Option<(usize, usize)>)
    ensures
        r == regex_find(regex_text(*regex), path@),
        r matches Some((start, end)) ==> start <= end && end <= vstd::utf8::encode_utf8(
            path@,
        ).len() && vstd::utf8::is_char_boundary(vstd::utf8::encode_utf8(path@), end as int),
{
    regex.find(path).map(|found| (found.start(), found.end()))
}

/// A regular expression as its text alone says, with none of the flags that a builder
/// could set.
pub struct PathRegex {
    inner: regex::Regex,
}

impl PathRegex {
    /// The text the expression was compiled from.
    pub closed spec fn text(self) -> Seq<char> {
        regex_text(self.inner)
    }

    /// Compiles the expression of a text.
    pub fn new(pattern: &str) -> (r: Result<Self, String>)
        ensures
            match r {
                Ok(regex) => regex_error(pattern@) is None && regex.text() == pattern@,
                Err(e) => regex_error(pattern@) == Some(e@),
            },
    {
        match regex_new(pattern) {
            Ok(inner) => Ok(PathRegex { inner }),
            Err(e) => Err(e),
        }
    }

    /// Where the expression is found first in a path, in bytes from the front.
    pub fn find(&self, path: &str) -> (r: Option<(usize, usize)>)
        ensures
            r == regex_find(self.text(), path@),
            r matches Some((start, end)) ==> start <= end && end <= vstd::utf8::encode_utf8(
                path@,
            ).len() && vstd::utf8::is_char_boundary(vstd::utf8::encode_utf8(path@), end as int),
    {
        find_match(&self.inner, path)
    }
}

/// The values of a list of results, or the first error.
pub open spec fn collected<T>(rs: Seq<Result<T, Seq<char>>>) -> Result<Seq<T>, Seq<char>>
    decreases rs.len(),
{
    if rs.len() == 0 {
        Ok(Seq::empty())
    } else {
        match collected(rs.drop_last()) {
            Err(e) => Err(e),
            Ok(front) => match rs.last() {
                Ok(v) => Ok(front.push(v)),
                Err(e) => Err(e),
            },
        }
    }
}

/// Where the front of a list has an error, the whole list has the same one.
pub proof fn lemma_collected_error<T>(rs: Seq<Result<T, Seq<char>>>, n: int)
    requires
        0 <= n <= rs.len(),
        collected(rs.take(n)) is Err,
    ensures
        collected(rs) == collected(rs.take(n)),
    decreases rs.len(),
{
    if n == rs.len() {
        assert(rs.take(n) =~= rs);
    } else {
        assert(rs.drop_last().take(n) =~= rs.take(n));
        lemma_collected_error(rs.drop_last(), n);
    }
}

/// Where a request that matches a route goes.
pub enum Target {
    Url(String),
    Service(String),
}

/// Where a request that matches a route goes.
pub enum Goal {
    Url(Seq<char>),
    Service(Seq<char>),
}

impl View for Target {
    type V = Goal;

    open spec fn view(&self) -> Goal {
        match self {
            Target::Url(url) => Goal::Url(url@),
            Target::Service(name) => Goal::Service(name@),
        }
    }
}

/// Whether a text is an HTTP URL rather than the name of a service.
pub open spec fn is_url(url: Seq<char>) -> bool {
    "http://"@.is_prefix_of(url) || "https://"@.is_prefix_of(url)
}

impl Target {
    /// Reads a target: a URL, or else the name of a service.
    pub fn parse(url: &str) -> (r: Self)
        ensures
            r@ == (if is_url(url@) {
                Goal::Url(url@)
            } else {
                Goal::Service(url@)
            }),
    {
        if text::starts_with(url, "http://") || text::starts_with(url, "https://") {
            Target::Url(url.to_owned())
        } else {
            Target::Service(url.to_owned())
        }
    }
}

/// One compiled path.
pub enum Pattern {
    Exact(String),
    Prefix(String),
    Regex(PathRegex),
}

/// What a compiled path compares with.
pub enum Shape {
    Exact(Seq<char>),
    Prefix(Seq<char>),
    Regex(Seq<char>),
}

/// What a compiled path compares with.
pub open spec fn shape(p: Pattern) -> Shape {
    match p {
        Pattern::Exact(s) => Shape::Exact(s@),
        Pattern::Prefix(s) => Shape::Prefix(s@),
        Pattern::Regex(r) => Shape::Regex(r.text()),
    }
}

/// What some compiled paths compare with.
pub open spec fn shapes(v: Seq<Pattern>) -> Seq<Shape> {
    v.map_values(|p: Pattern| shape(p))
}

/// How well a path matched: an exact match ranks over a prefix and a prefix over an
/// expression; within a rank the longer match, in bytes, is the better.
pub struct PathMatch {
    pub rank: u8,
    pub matched_len: usize,
}

/// The length of a text in bytes.
pub open spec fn byte_len(s: Seq<char>) -> nat {
    vstd::utf8::encode_utf8(s).len()
}

/// The length of a text in bytes.
fn bytes_in(s: &str) -> (r: usize)
    ensures
        r == byte_len(s@),
{
    s.as_bytes().len()
}

/// Whether a prefix covers a path: whole segments only.
pub open spec fn covers(prefix: Seq<char>, path: Seq<char>) -> bool {
    ||| prefix.len() == 0
    ||| path == prefix
    ||| prefix.is_prefix_of(path) && prefix.len() < path.len() && path[prefix.len() as int] == '/'
}

/// How a compiled path matches a request path.
pub open spec fn shape_match(s: Shape, path: Seq<char>) -> Option<PathMatch> {
    match s {
        Shape::Exact(exact) => if path == exact {
            Some(PathMatch { rank: 2, matched_len: byte_len(exact) as usize })
        } else {
            None
        },
        Shape::Prefix(prefix) => if covers(prefix, path) {
            Some(PathMatch { rank: 1, matched_len: byte_len(prefix) as usize })
        } else {
            None
        },
        Shape::Regex(pattern) => match regex_find(pattern, path) {
            Some((start, end)) => if start == 0 {
                Some(PathMatch { rank: 0, matched_len: end })
            } else {
                None
            },
            None => None,
        },
    }
}

/// Whether the second of two matches is at least as good as the first.
pub open spec fn as_good(a: PathMatch, b: PathMatch) -> bool {
    a.rank < b.rank || (a.rank == b.rank && a.matched_len <= b.matched_len)
}

/// The best of some matches, the last of equals.
pub open spec fn best(ms: Seq<Option<PathMatch>>) -> Option<PathMatch>
    decreases ms.len(),
{
    if ms.len() == 0 {
        None
    } else {
        match (best(ms.drop_last()), ms.last()) {
            (Some(a), Some(b)) => if as_good(a, b) {
                Some(b)
            } else {
                Some(a)
            },
            (None, m) => m,
            (m, None) => m,
        }
    }
}

/// How a route matches a request path: as the best of its compiled paths does.
pub open spec fn route_match(patterns: Seq<Shape>, path: Seq<char>) -> Option<PathMatch> {
    best(patterns.map_values(|s: Shape| shape_match(s, path)))
}

/// Whether a match ends between two characters of a path.
pub open spec fn clean(m: PathMatch, path: Seq<char>) -> bool {
    vstd::utf8::is_char_boundary(vstd::utf8::encode_utf8(path), m.matched_len as int)
}

/// A text's encoding falls apart where the text does.
pub proof fn lemma_encode_parts(p: Seq<char>, rest: Seq<char>)
    ensures
        vstd::utf8::encode_utf8(p + rest) == vstd::utf8::encode_utf8(p) + vstd::utf8::encode_utf8(
            rest,
        ),
        vstd::utf8::is_char_boundary(vstd::utf8::encode_utf8(p + rest), byte_len(p) as int),
    decreases p.len(),
{
    let whole = p + rest;
    let bytes = vstd::utf8::encode_utf8(whole);
    vstd::utf8::encode_utf8_valid_utf8(whole);
    if p.len() == 0 {
        assert(whole =~= rest);
        assert(vstd::utf8::encode_utf8(p) =~= Seq::<u8>::empty());
        assert(bytes =~= vstd::utf8::encode_utf8(p) + vstd::utf8::encode_utf8(rest));
    } else {
        assert(whole.drop_first() =~= p.drop_first() + rest);
        lemma_encode_parts(p.drop_first(), rest);
        vstd::utf8::encode_utf8_first_scalar(whole);
        let first = vstd::utf8::encode_scalar(whole[0] as u32);
        assert(whole[0] == p[0]);
        assert(bytes =~= first + vstd::utf8::encode_utf8(p.drop_first())
            + vstd::utf8::encode_utf8(rest));
        assert(vstd::utf8::encode_utf8(p) =~= first + vstd::utf8::encode_utf8(p.drop_first()));
        assert(bytes =~= vstd::utf8::encode_utf8(p) + vstd::utf8::encode_utf8(rest));
        assert(vstd::utf8::pop_first_scalar(bytes) =~= vstd::utf8::encode_utf8(
            whole.drop_first(),
        ));
    }
}

impl Pattern {
    /// How the compiled path matches a request path.
    pub fn match_path(&self, path: &str) -> (r: Option<PathMatch>)
        ensures
            r == shape_match(shape(*self), path@),
            r matches Some(m) ==> clean(m, path@),
            r matches Some(m) ==> (*self matches Pattern::Exact(s) ==> m.matched_len == byte_len(
                s@,
            )),
            r matches Some(m) ==> (*self matches Pattern::Prefix(s) ==> m.matched_len == byte_len(
                s@,
            )),
    {
        match self {
            Pattern::Exact(exact) => {
                if text::same(path, exact.as_str()) {
                    proof {
                        lemma_encode_parts(path@, Seq::empty());
                        assert(path@ + Seq::<char>::empty() =~= path@);
                    }
                    Some(PathMatch { rank: 2, matched_len: bytes_in(exact.as_str()) })
                } else {
                    None
                }
            },
            Pattern::Prefix(prefix) => {
                let p = text::chars_of(prefix.as_str());
                let v = text::chars_of(path);
                let covered = p.len() == 0 || text::same(path, prefix.as_str()) || (
                text::starts_with(path, prefix.as_str()) && p.len() < v.len() && v[p.len()] == '/');
                if covered {
                    proof {
                        let rest = path@.skip(prefix@.len() as int);
                        lemma_encode_parts(prefix@, rest);
                        if prefix@.len() == 0 || path@ == prefix@ {
                            assert(prefix@.is_prefix_of(path@));
                        }
                        assert(prefix@ + rest =~= path@);
                    }
                    Some(PathMatch { rank: 1, matched_len: bytes_in(prefix.as_str()) })
                } else {
                    None
                }
            },
            Pattern::Regex(regex) => {
                match regex.find(path) {
                    Some((start, end)) => {
                        if start == 0 {
                            Some(PathMatch { rank: 0, matched_len: end })
                        } else {
                            None
                        }
                    },
                    None => None,
                }
            },
        }
    }
}

/// Tests whether the second of two matches is at least as good as the first.
fn good_as(a: &PathMatch, b: &PathMatch) -> (r: bool)
    ensures
        r == as_good(*a, *b),
{
    a.rank < b.rank || (a.rank == b.rank && a.matched_len <= b.matched_len)
}

/// The path that is left once a match is taken off the front, always beginning with a
/// slash.
pub open spec fn stripped(path: Seq<char>, matched_len: int) -> Seq<char> {
    let bytes = vstd::utf8::encode_utf8(path);
    let rest = vstd::utf8::decode_utf8(bytes.subrange(matched_len, bytes.len() as int));
    if rest.len() == 0 {
        "/"@
    } else if rest[0] == '/' {
        rest
    } else {
        "/"@ + rest
    }
}

/// Takes a match off the front of a path.
pub fn strip_prefix(path: &str, matched_len: usize) -> (r: String)
    requires
        vstd::utf8::is_char_boundary(vstd::utf8::encode_utf8(path@), matched_len as int),
    ensures
        r@ == stripped(path@, matched_len as int),
{
    let (_, rest) = path.split_at(matched_len);
    proof {
        vstd::utf8::encode_utf8_decode_utf8(rest@);
        assert(vstd::utf8::encode_utf8(rest@) =~= rest.spec_bytes());
    }
    let v = text::chars_of(rest);
    if v.len() == 0 {
        "/".to_owned()
    } else if v[0] == '/' {
        rest.to_owned()
    } else {
        text::cat2("/", rest)
    }
}

/// What a prefix leaves of a path it covers is what stands behind it.
pub proof fn law_stripping_leaves_what_follows(prefix: Seq<char>, rest: Seq<char>)
    ensures
        stripped(prefix + rest, byte_len(prefix) as int) == (if rest.len() == 0 {
            "/"@
        } else if rest[0] == '/' {
            rest
        } else {
            "/"@ + rest
        }),
{
    lemma_encode_parts(prefix, rest);
    let bytes = vstd::utf8::encode_utf8(prefix + rest);
    assert(bytes.subrange(byte_len(prefix) as int, bytes.len() as int)
        =~= vstd::utf8::encode_utf8(rest));
    vstd::utf8::encode_utf8_decode_utf8(rest);
}

/// A route ready to be matched.
pub struct CompiledRoute {
    pub name: String,
    pub target: Target,
    pub strip_path: bool,
    /// Whether the credential a caller presented is relayed upstream.
    pub forward_token: bool,
    pub match_type: MatchType,
    pub paths: Vec<String>,
    pub patterns: Vec<Pattern>,
    pub guards: Vec<RouteGuard>,
    /// The filters, which run after the guards, in order.
    pub filters: Vec<FilterBinding>,
}

/// What a route is made of.
pub struct CompiledView {
    pub name: Seq<char>,
    pub target: Goal,
    pub strip_path: bool,
    pub forward_token: bool,
    pub match_type: MatchType,
    pub paths: Seq<Seq<char>>,
    pub patterns: Seq<Shape>,
    pub guards: Seq<BoundView>,
    pub filters: Seq<BindingView>,
}

impl View for CompiledRoute {
    type V = CompiledView;

    open spec fn view(&self) -> CompiledView {
        CompiledView {
            name: self.name@,
            target: self.target@,
            strip_path: self.strip_path,
            forward_token: self.forward_token,
            match_type: self.match_type,
            paths: text::texts(self.paths@),
            patterns: shapes(self.patterns@),
            guards: auth::guards_view(self.guards@),
            filters: wasm::bindings_view(self.filters@),
        }
    }
}

/// What some routes are made of.
pub open spec fn routes_view(v: Seq<CompiledRoute>) -> Seq<CompiledView> {
    v.map_values(|r: CompiledRoute| r@)
}

/// What a route is made of, or the text of an error.
pub open spec fn route_result_of(r: Result<CompiledRoute, String>) -> Result<
    CompiledView,
    Seq<char>,
> {
    match r {
        Ok(route) => Ok(route@),
        Err(e) => Err(e@),
    }
}

/// One path compiled for a way of comparing.
pub open spec fn pattern_spec(path: Seq<char>, match_type: MatchType) -> Result<Shape, Seq<char>> {
    match match_type {
        MatchType::EXACT => Ok(Shape::Exact(path)),
        MatchType::PREFIX => Ok(Shape::Prefix(text::trim_end_char_spec(path, '/'))),
        MatchType::REGEX => match regex_error(path) {
            None => Ok(Shape::Regex(path)),
            Some(e) => Err(e),
        },
    }
}

/// The paths of a route compiled, or the first error.
pub open spec fn patterns_spec(paths: Seq<Seq<char>>, match_type: MatchType) -> Result<
    Seq<Shape>,
    Seq<char>,
> {
    collected(paths.map_values(|path: Seq<char>| pattern_spec(path, match_type)))
}

/// Compiles the paths of a route.
pub fn compile_patterns(paths: &Vec<String>, match_type: MatchType) -> (r: Result<
    Vec<Pattern>,
    String,
>)
    ensures
        (match r {
            Ok(v) => Ok(shapes(v@)),
            Err(e) => Err(e@),
        }) == patterns_spec(text::texts(paths@), match_type),
{
    let ghost all = text::texts(paths@).map_values(
        |path: Seq<char>| pattern_spec(path, match_type),
    );
    let mut out: Vec<Pattern> = Vec::new();
    let mut i: usize = 0;
    proof {
        assert(all.take(0) =~= Seq::empty());
        assert(shapes(out@) =~= Seq::empty());
    }
    while i < paths.len()
        invariant
            i <= paths@.len(),
            all == text::texts(paths@).map_values(
                |path: Seq<char>| pattern_spec(path, match_type),
            ),
            collected(all.take(i as int)) == Ok::<Seq<Shape>, Seq<char>>(shapes(out@)),
        decreases paths@.len() - i,
    {
        let path = paths[i].as_str();
        proof {
            assert(all.take(i + 1).drop_last() =~= all.take(i as int));
            assert(all.take(i + 1).last() == pattern_spec(path@, match_type));
        }
        let compiled = match match_type {
            MatchType::EXACT => Ok(Pattern::Exact(path.to_owned())),
            MatchType::PREFIX => Ok(Pattern::Prefix(text::trim_end_char(path, '/').to_owned())),
            MatchType::REGEX => match PathRegex::new(path) {
                Ok(regex) => Ok(Pattern::Regex(regex)),
                Err(e) => Err(e),
            },
        };
        match compiled {
            Ok(pattern) => {
                let ghost front = shapes(out@);
                out.push(pattern);
                proof {
                    assert(shapes(out@) =~= front.push(shape(pattern)));
                }
            },
            Err(e) => {
                proof {
                    lemma_collected_error(all, i + 1);
                }
                return Err(e);
            },
        }
        i = i + 1;
    }
    proof {
        assert(all.take(i as int) =~= all);
    }
    Ok(out)
}

/// What a name stands for.
pub open spec fn lookup_spec(catalog: Map<Seq<char>, Declared>, name: Seq<char>) -> Result<
    Declared,
    Seq<char>,
> {
    if catalog.contains_key(name) {
        Ok(catalog[name])
    } else {
        Err("unknown plugin '"@ + name + "' (not defined in the gateway config)"@)
    }
}

/// What a name stands for. An unknown name is refused rather than passed over: a typo
/// must not leave a route unauthenticated.
pub fn lookup(catalog: &StrMap<Declared>, name: &str) -> (r: Result<Declared, String>)
    ensures
        text::value_result_of(r) == lookup_spec(catalog@, name@),
{
    match catalog.get(name) {
        Some(entry) => Ok(entry.share()),
        None => Err(
            text::cat3("unknown plugin '", name, "' (not defined in the gateway config)"),
        ),
    }
}

/// What a plugin is to a route: a guard, or a filter.
pub enum Bound {
    Guard(BoundView),
    Filter(BindingView),
}

/// A guard, or an error.
pub open spec fn as_guard(r: Result<BoundView, Seq<char>>) -> Result<Bound, Seq<char>> {
    match r {
        Ok(g) => Ok(Bound::Guard(g)),
        Err(e) => Err(e),
    }
}

/// A filter, or an error.
pub open spec fn as_filter(r: Result<BindingView, Seq<char>>) -> Result<Bound, Seq<char>> {
    match r {
        Ok(f) => Ok(Bound::Filter(f)),
        Err(e) => Err(e),
    }
}

/// The guards among what a route is bound to, in order.
pub open spec fn guards_in(v: Seq<Bound>) -> Seq<BoundView>
    decreases v.len(),
{
    if v.len() == 0 {
        Seq::empty()
    } else {
        match v.last() {
            Bound::Guard(g) => guards_in(v.drop_last()).push(g),
            Bound::Filter(_) => guards_in(v.drop_last()),
        }
    }
}

/// The filters among what a route is bound to, in order.
pub open spec fn filters_in(v: Seq<Bound>) -> Seq<BindingView>
    decreases v.len(),
{
    if v.len() == 0 {
        Seq::empty()
    } else {
        match v.last() {
            Bound::Filter(f) => filters_in(v.drop_last()).push(f),
            Bound::Guard(_) => filters_in(v.drop_last()),
        }
    }
}

/// What a route's reference to a plugin declares.
pub open spec fn bound_spec(
    reference: PluginReference,
    catalog: Map<Seq<char>, Declared>,
    env: Map<Seq<char>, String>,
) -> Result<Bound, Seq<char>> {
    match lookup_spec(catalog, reference.name@) {
        Err(e) => Err(e),
        Ok(Declared::Policy(policy)) => as_guard(
            auth::reference_spec(
                reference.name@,
                auth::reference_params(reference),
                *policy,
                env,
            ),
        ),
        Ok(Declared::Module(module)) => as_filter(
            wasm::binding_spec(module@.setup.settings, reference),
        ),
    }
}

/// What a list of references declares.
pub open spec fn all_bound(
    plugins: Option<Vec<PluginReference>>,
    catalog: Map<Seq<char>, Declared>,
    env: Map<Seq<char>, String>,
) -> Result<Seq<Bound>, Seq<char>> {
    match plugins {
        Some(list) => collected(
            list@.map_values(|r: PluginReference| bound_spec(r, catalog, env)),
        ),
        None => Ok(Seq::empty()),
    }
}

/// The route an entry of `routes:` declares.
pub open spec fn config_route_spec(
    config: RouteConfig,
    catalog: Map<Seq<char>, Declared>,
    env: Map<Seq<char>, String>,
) -> Result<CompiledView, Seq<char>> {
    match all_bound(config.plugins, catalog, env) {
        Err(e) => Err(e),
        Ok(bound) => match patterns_spec(text::texts(config.paths@), config.match_type) {
            Err(e) => Err(e),
            Ok(patterns) => Ok(
                CompiledView {
                    name: config.name@,
                    target: if is_url(config.url@) {
                        Goal::Url(config.url@)
                    } else {
                        Goal::Service(config.url@)
                    },
                    strip_path: config.strip_path,
                    forward_token: config.forward_token,
                    match_type: config.match_type,
                    paths: text::texts(config.paths@),
                    patterns,
                    guards: guards_in(bound),
                    filters: filters_in(bound),
                },
            ),
        },
    }
}

/// What a service's requirement declares.
pub open spec fn requirement_spec(
    requirement: PluginRequirement,
    catalog: Map<Seq<char>, Declared>,
) -> Result<Bound, Seq<char>> {
    match lookup_spec(catalog, requirement.name@) {
        Err(e) => Err(e),
        Ok(Declared::Policy(policy)) => as_guard(
            auth::guard_spec(
                requirement.name@,
                *policy,
                text::texts(requirement.roles@),
                strmap::pairs_of(requirement.insert_headers),
            ),
        ),
        Ok(Declared::Module(module)) => as_filter(
            wasm::asked_spec(
                module@.setup.settings,
                requirement.name@,
                text::texts(requirement.roles@),
                strmap::pairs_of(requirement.insert_headers),
                json::opt_view(requirement.settings),
            ),
        ),
    }
}

/// The route a service registers at a place in its list.
pub open spec fn registered_route_spec(
    service: Seq<char>,
    index: nat,
    spec: RouteSpec,
    catalog: Map<Seq<char>, Declared>,
) -> Result<CompiledView, Seq<char>> {
    match collected(
        spec.plugins@.map_values(|r: PluginRequirement| requirement_spec(r, catalog)),
    ) {
        Err(e) => Err(e),
        Ok(bound) => match patterns_spec(text::texts(spec.paths@), spec.match_type) {
            Err(e) => Err(e),
            Ok(patterns) => Ok(
                CompiledView {
                    name: service + "#"@ + text::decimal(index),
                    target: Goal::Service(service),
                    strip_path: spec.strip_path,
                    forward_token: false,
                    match_type: spec.match_type,
                    paths: text::texts(spec.paths@),
                    patterns,
                    guards: guards_in(bound),
                    filters: filters_in(bound),
                },
            ),
        },
    }
}

/// The headers a requirement inserts.
fn pairs_in(m: &StrMap<String>) -> (r: Vec<(String, String)>)
    ensures
        text::pairs_view(r@) == strmap::pairs_of(*m),
{
    let n = m.len();
    let mut out: Vec<(String, String)> = Vec::new();
    let mut i: usize = 0;
    while i < n
        invariant
            i <= n,
            n == m.entries().len(),
            out@.len() == i,
            forall|k: int|
                0 <= k < i ==> (#[trigger] out@[k]).0@ == m.entries()[k].0@ && out@[k].1@
                    == m.entries()[k].1@,
        decreases n - i,
    {
        let (header, template) = m.at(i);
        out.push((header.to_owned(), template.clone()));
        i = i + 1;
    }
    proof {
        assert(text::pairs_view(out@) =~= strmap::pairs_of(*m));
    }
    out
}

/// The guards and filters that a route is bound to.
pub struct Bindings {
    pub guards: Vec<RouteGuard>,
    pub filters: Vec<FilterBinding>,
}

/// Whether guards and filters are those among what a route is bound to.
pub open spec fn parted(b: Bindings, v: Seq<Bound>) -> bool {
    &&& auth::guards_view(b.guards@) == guards_in(v)
    &&& wasm::bindings_view(b.filters@) == filters_in(v)
}

/// Whether guards and filters, or an error, are what some plugins come to.
pub open spec fn binds(r: Result<Bindings, String>, of: Result<Seq<Bound>, Seq<char>>) -> bool {
    match r {
        Ok(b) => of matches Ok(v) && parted(b, v),
        Err(e) => of == Err::<Seq<Bound>, Seq<char>>(e@),
    }
}

impl Bindings {
    /// No guards and no filters.
    fn none() -> (r: Self)
        ensures
            parted(r, Seq::empty()),
    {
        let r = Bindings { guards: Vec::new(), filters: Vec::new() };
        proof {
            assert(auth::guards_view(r.guards@) =~= Seq::empty());
            assert(wasm::bindings_view(r.filters@) =~= Seq::empty());
        }
        r
    }

    /// Adds a guard.
    fn add_guard(&mut self, guard: RouteGuard, Ghost(v): Ghost<Seq<Bound>>)
        requires
            parted(*old(self), v),
        ensures
            parted(*final(self), v.push(Bound::Guard(guard@))),
    {
        let ghost said = guard@;
        self.guards.push(guard);
        proof {
            let longer = v.push(Bound::Guard(said));
            assert(longer.drop_last() =~= v);
            assert(auth::guards_view(self.guards@) =~= guards_in(longer));
        }
    }

    /// Adds a filter.
    fn add_filter(&mut self, filter: FilterBinding, Ghost(v): Ghost<Seq<Bound>>)
        requires
            parted(*old(self), v),
        ensures
            parted(*final(self), v.push(Bound::Filter(filter@))),
    {
        let ghost said = filter@;
        self.filters.push(filter);
        proof {
            let longer = v.push(Bound::Filter(said));
            assert(longer.drop_last() =~= v);
            assert(wasm::bindings_view(self.filters@) =~= filters_in(longer));
        }
    }
}

/// Binds what a list of references declares.
fn bind_all(
    plugins: &Option<Vec<PluginReference>>,
    catalog: &StrMap<Declared>,
    env: &StrMap<String>,
) -> (r: Result<Bindings, String>)
    ensures
        binds(r, all_bound(*plugins, catalog@, env@)),
{
    let mut out = Bindings::none();
    let list = match plugins {
        Some(list) => list,
        None => {
            return Ok(out);
        },
    };
    let ghost all = list@.map_values(|r: PluginReference| bound_spec(r, catalog@, env@));
    let mut i: usize = 0;
    proof {
        assert(all.take(0) =~= Seq::empty());
    }
    while i < list.len()
        invariant
            i <= list@.len(),
            *plugins matches Some(l) && l == *list,
            all == list@.map_values(|r: PluginReference| bound_spec(r, catalog@, env@)),
            collected(all.take(i as int)) matches Ok(v) && parted(out, v),
        decreases list@.len() - i,
    {
        let ghost v = collected(all.take(i as int))->Ok_0;
        proof {
            assert(all.take(i + 1).drop_last() =~= all.take(i as int));
            assert(all.take(i + 1).last() == bound_spec(list@[i as int], catalog@, env@));
        }
        let error = match lookup(catalog, list[i].name.as_str()) {
            Ok(Declared::Policy(policy)) => match RouteGuard::from_reference(
                &list[i],
                policy,
                env,
            ) {
                Ok(guard) => {
                    out.add_guard(guard, Ghost(v));
                    None
                },
                Err(e) => Some(e),
            },
            Ok(Declared::Module(module)) => match FilterBinding::from_reference(
                &module.setup.settings,
                &list[i],
            ) {
                Ok(filter) => {
                    out.add_filter(filter, Ghost(v));
                    None
                },
                Err(e) => Some(e),
            },
            Err(e) => Some(e),
        };
        if let Some(e) = error {
            proof {
                lemma_collected_error(all, i + 1);
            }
            return Err(e);
        }
        i = i + 1;
    }
    proof {
        assert(all.take(i as int) =~= all);
    }
    Ok(out)
}

/// Binds what a list of requirements declares.
fn bind_required(list: &Vec<PluginRequirement>, catalog: &StrMap<Declared>) -> (r: Result<
    Bindings,
    String,
>)
    ensures
        binds(
            r,
            collected(list@.map_values(|r: PluginRequirement| requirement_spec(r, catalog@))),
        ),
{
    let mut out = Bindings::none();
    let ghost all = list@.map_values(|r: PluginRequirement| requirement_spec(r, catalog@));
    let mut i: usize = 0;
    proof {
        assert(all.take(0) =~= Seq::empty());
    }
    while i < list.len()
        invariant
            i <= list@.len(),
            all == list@.map_values(|r: PluginRequirement| requirement_spec(r, catalog@)),
            collected(all.take(i as int)) matches Ok(v) && parted(out, v),
        decreases list@.len() - i,
    {
        let ghost v = collected(all.take(i as int))->Ok_0;
        proof {
            assert(all.take(i + 1).drop_last() =~= all.take(i as int));
            assert(all.take(i + 1).last() == requirement_spec(list@[i as int], catalog@));
        }
        let wanted = &list[i];
        let error = match lookup(catalog, wanted.name.as_str()) {
            Ok(Declared::Policy(policy)) => match RouteGuard::build(
                wanted.name.as_str(),
                policy,
                text::copy_texts(&wanted.roles),
                pairs_in(&wanted.insert_headers),
            ) {
                Ok(guard) => {
                    out.add_guard(guard, Ghost(v));
                    None
                },
                Err(e) => Some(e),
            },
            Ok(Declared::Module(module)) => match FilterBinding::from_request(
                &module.setup.settings,
                wanted.name.as_str(),
                &wanted.roles,
                &wanted.insert_headers,
                &wanted.settings,
            ) {
                Ok(filter) => {
                    out.add_filter(filter, Ghost(v));
                    None
                },
                Err(e) => Some(e),
            },
            Err(e) => Some(e),
        };
        if let Some(e) = error {
            proof {
                lemma_collected_error(all, i + 1);
            }
            return Err(e);
        }
        i = i + 1;
    }
    proof {
        assert(all.take(i as int) =~= all);
    }
    Ok(out)
}

impl CompiledRoute {
    /// Compiles an entry of `routes:`.
    pub fn from_config(
        config: &RouteConfig,
        catalog: &StrMap<Declared>,
        env: &StrMap<String>,
    ) -> (r: Result<Self, String>)
        ensures
            route_result_of(r) == config_route_spec(*config, catalog@, env@),
    {
        let bound = match bind_all(&config.plugins, catalog, env) {
            Ok(bound) => bound,
            Err(e) => {
                return Err(e);
            },
        };
        let patterns = match compile_patterns(&config.paths, config.match_type) {
            Ok(patterns) => patterns,
            Err(e) => {
                return Err(e);
            },
        };
        Ok(
            CompiledRoute {
                name: config.name.clone(),
                target: Target::parse(config.url.as_str()),
                strip_path: config.strip_path,
                forward_token: config.forward_token,
                match_type: config.match_type,
                paths: text::copy_texts(&config.paths),
                patterns,
                guards: bound.guards,
                filters: bound.filters,
            },
        )
    }

    /// Compiles the route a service registers at a place in its list.
    pub fn from_spec(
        service: &str,
        index: usize,
        spec: &RouteSpec,
        catalog: &StrMap<Declared>,
    ) -> (r: Result<Self, String>)
        ensures
            route_result_of(r) == registered_route_spec(
                service@,
                index as nat,
                *spec,
                catalog@,
            ),
    {
        let bound = match bind_required(&spec.plugins, catalog) {
            Ok(bound) => bound,
            Err(e) => {
                return Err(e);
            },
        };
        let patterns = match compile_patterns(&spec.paths, spec.match_type) {
            Ok(patterns) => patterns,
            Err(e) => {
                return Err(e);
            },
        };
        let digits = text::u64_text(index as u64);
        Ok(
            CompiledRoute {
                name: text::cat3(service, "#", digits.as_str()),
                target: Target::Service(service.to_owned()),
                strip_path: spec.strip_path,
                forward_token: false,
                match_type: spec.match_type,
                paths: text::copy_texts(&spec.paths),
                patterns,
                guards: bound.guards,
                filters: bound.filters,
            },
        )
    }

    /// How the route matches a request path.
    pub fn match_path(&self, path: &str) -> (r: Option<PathMatch>)
        ensures
            r == route_match(self@.patterns, path@),
            r matches Some(m) ==> clean(m, path@),
    {
        let ghost ms = self@.patterns.map_values(|s: Shape| shape_match(s, path@));
        let mut found: Option<PathMatch> = None;
        let mut i: usize = 0;
        proof {
            assert(ms.take(0) =~= Seq::empty());
        }
        while i < self.patterns.len()
            invariant
                i <= self.patterns@.len(),
                ms == self@.patterns.map_values(|s: Shape| shape_match(s, path@)),
                found == best(ms.take(i as int)),
                found matches Some(m) ==> clean(m, path@),
            decreases self.patterns@.len() - i,
        {
            proof {
                assert(ms.take(i + 1).drop_last() =~= ms.take(i as int));
                assert(ms.take(i + 1).last() == shape_match(
                    shape(self.patterns@[i as int]),
                    path@,
                ));
            }
            if let Some(m) = self.patterns[i].match_path(path) {
                let better = match &found {
                    Some(a) => good_as(a, &m),
                    None => true,
                };
                if better {
                    found = Some(m);
                }
            }
            i = i + 1;
        }
        proof {
            assert(ms.take(i as int) =~= ms);
        }
        found
    }
}

/// The matches of some routes.
pub open spec fn matches_of(routes: Seq<CompiledView>, path: Seq<char>) -> Seq<
    Option<PathMatch>,
> {
    routes.map_values(|r: CompiledView| route_match(r.patterns, path))
}

/// The place of the best match, the last of equals.
pub open spec fn best_place(ms: Seq<Option<PathMatch>>) -> Option<int>
    decreases ms.len(),
{
    if ms.len() == 0 {
        None
    } else {
        match (best_place(ms.drop_last()), ms.last()) {
            (Some(a), Some(b)) => if ms[a] is Some && !as_good(ms[a]->Some_0, b) {
                Some(a)
            } else {
                Some(ms.len() - 1)
            },
            (None, Some(_)) => Some(ms.len() - 1),
            (place, None) => place,
        }
    }
}

/// The place of the best match holds a match that no other exceeds.
pub proof fn law_the_best_match_wins(ms: Seq<Option<PathMatch>>)
    ensures
        match best_place(ms) {
            Some(at) => 0 <= at < ms.len() && ms[at] is Some && forall|i: int|
                0 <= i < ms.len() && (#[trigger] ms[i]) is Some ==> as_good(
                    ms[i]->Some_0,
                    ms[at]->Some_0,
                ),
            None => forall|i: int| 0 <= i < ms.len() ==> (#[trigger] ms[i]) is None,
        },
    decreases ms.len(),
{
    if ms.len() > 0 {
        let front = ms.drop_last();
        law_the_best_match_wins(front);
        assert(forall|i: int| 0 <= i < front.len() ==> front[i] == ms[i]);
        assert(ms[ms.len() - 1] == ms.last());
    }
}

/// The best of some routes for a path, with how it matches.
pub fn best_match<'a>(routes: &Vec<&'a CompiledRoute>, path: &str) -> (r: Option<
    (usize, PathMatch),
>)
    ensures
        match r {
            Some((at, m)) => at < routes@.len() && best_place(
                matches_of(refs_view(routes@), path@),
            ) == Some(at as int) && route_match(routes@[at as int]@.patterns, path@) == Some(m)
                && clean(m, path@),
            None => best_place(matches_of(refs_view(routes@), path@)) is None,
        },
{
    let ghost ms = matches_of(refs_view(routes@), path@);
    let mut found: Option<(usize, PathMatch)> = None;
    let mut i: usize = 0;
    proof {
        assert(ms.take(0) =~= Seq::empty());
    }
    while i < routes.len()
        invariant
            i <= routes@.len(),
            ms == matches_of(refs_view(routes@), path@),
            match found {
                Some((at, m)) => at < i && best_place(ms.take(i as int)) == Some(at as int)
                    && ms[at as int] == Some(m) && clean(m, path@),
                None => best_place(ms.take(i as int)) is None,
            },
        decreases routes@.len() - i,
    {
        proof {
            assert(ms.take(i + 1).drop_last() =~= ms.take(i as int));
            assert(ms.take(i + 1).last() == ms[i as int]);
            assert(ms[i as int] == route_match(routes@[i as int]@.patterns, path@));
        }
        if let Some(m) = routes[i].match_path(path) {
            let better = match &found {
                Some((_, a)) => good_as(a, &m),
                None => true,
            };
            if better {
                found = Some((i, m));
            }
        }
        i = i + 1;
    }
    proof {
        assert(ms.take(i as int) =~= ms);
    }
    found
}

/// What some routes are made of.
pub open spec fn refs_view(v: Seq<&CompiledRoute>) -> Seq<CompiledView> {
    v.map_values(|r: &CompiledRoute| r@)
}

} // verus!
