//! The plugin types a gateway config can declare.
//!
//! The auth plugins decide what a credential means and are reached through
//! [`AuthPlugin`]; [`wasm`] filters a request the guards have already cleared. What a
//! route decides rather than a plugin, required roles and inserted headers, belongs to
//! [`crate::auth::RouteGuard`].

use crate::clock::Moment;
use crate::config::PluginConfig;
use crate::json;
use crate::json::{Json, JsonView};
use crate::plugins::session::{CookieView, SessionCookie};
use crate::provider::{CacheEntry, Step};
use crate::signed;
use crate::strmap::StrMap;
use crate::text;
use crate::yaml;
use crate::yaml::{YamlLevel, YamlView};
use vstd::prelude::*;
use vstd::string::*;

pub mod guest;
pub mod jwt;
pub mod oauth2;
pub mod session;
pub mod testing;
pub mod token;
pub mod wasm;

verus! {

/// What a request offered a plugin: the `token` to verify, and the `session` the
/// caller already carried, which a plugin may consult even where the token came from
/// somewhere else.
#[derive(Clone, Copy)]
pub struct Credential<'a> {
    pub token: &'a str,
    pub session: Option<&'a str>,
}

/// A scope that a plugin asks the proxy listener to mount for it.
pub struct Endpoint {
    /// The plugin that asked for it.
    pub plugin: String,
    pub path: String,
}

/// What an optional session cookie is made of.
pub open spec fn opt_cookie(cookie: Option<&SessionCookie>) -> Option<CookieView> {
    match cookie {
        Some(cookie) => Some(cookie@),
        None => None,
    }
}

/// One authentication plugin: the part of a route's auth that a plugin type owns.
pub trait AuthPlugin {
    /// The `type:` this plugin was declared with.
    spec fn kind_spec(&self) -> Seq<char>;

    /// The `name:` it was declared under.
    spec fn name_spec(&self) -> Seq<char>;

    /// The headers it reads a credential out of, beyond `Authorization`.
    spec fn header_keys_spec(&self) -> Seq<Seq<char>>;

    /// The cookies it reads a credential out of, tried after every header.
    spec fn cookie_keys_spec(&self) -> Seq<Seq<char>>;

    /// The session cookie it mints.
    spec fn cookie_spec(&self) -> Option<CookieView>;

    /// The claim that holds the caller's roles.
    spec fn roles_claim_spec(&self) -> Option<Seq<char>>;

    /// The path it asks to have mounted.
    spec fn endpoint_spec(&self) -> Option<Seq<char>>;

    /// Whether a step is right for a credential at a moment.
    spec fn answers(&self, credential: Credential, at: Moment, step: Step) -> bool;

    /// The `type:` this plugin was declared with.
    fn kind(&self) -> (r: &'static str)
        ensures
            r@ == self.kind_spec(),
    ;

    /// The `name:` it was declared under, used in the errors a caller sees.
    fn name(&self) -> (r: &str)
        ensures
            r@ == self.name_spec(),
    ;

    /// The headers it reads a credential out of, beyond `Authorization`.
    fn header_keys(&self) -> (r: &Vec<String>)
        ensures
            text::texts(r@) == self.header_keys_spec(),
    ;

    /// The cookies it reads a credential out of, tried after every header.
    fn cookie_keys(&self) -> (r: Vec<String>)
        ensures
            text::texts(r@) == self.cookie_keys_spec(),
    ;

    /// The session cookie it mints, which it need not accept: only the provider says
    /// whether a token is still live.
    fn session_cookie(&self) -> (r: Option<&SessionCookie>)
        ensures
            opt_cookie(r) == self.cookie_spec(),
    ;

    /// The claim that holds the caller's roles, or `None` for a plugin that learns
    /// nothing of who presented a credential. A route cannot require roles of it.
    fn roles_claim(&self) -> (r: Option<&str>)
        ensures
            match r {
                Some(claim) => self.roles_claim_spec() == Some(claim@),
                None => self.roles_claim_spec() is None,
            },
    ;

    /// Verifies a credential: the claims it vouches for, the outcome to send back, or
    /// what the provider is to be asked.
    fn authenticate(&self, credential: Credential<'_>, at: Moment) -> (r: Step)
        requires
            at.nanos < crate::clock::LATEST,
        ensures
            self.answers(credential, at, r),
    ;

    /// The response headers for a caller this plugin has verified: the `Set-Cookie`
    /// that starts a session, where it mints one.
    fn issue(&self, credential: Credential<'_>, claims: &StrMap<Json>) -> (r: Vec<
        (String, String),
    >)
        ensures
            match self.cookie_spec() {
                Some(cookie) => exists|carried: bool, now: i64|
                    crate::clock::calendar_shows(now) && text::pairs_view(r@) == #[trigger] session::issue_spec(
                        cookie,
                        carried,
                        json::fields(*claims),
                        now,
                    ) && session::carries(cookie, signed::slice_of(credential.session), carried),
                None => r@.len() == 0,
            },
    {
        match self.session_cookie() {
            Some(cookie) => cookie.issue(credential, claims),
            None => Vec::new(),
        }
    }

    /// The endpoint it needs mounted on the proxy listener.
    fn endpoint(&self) -> (r: Option<Endpoint>)
        ensures
            match r {
                Some(e) => self.endpoint_spec() == Some(e.path@) && e.plugin@ == self.name_spec(),
                None => self.endpoint_spec() is None,
            },
    ;
}

/// Every `type:` the gateway understands.
pub fn kinds() -> (r: Vec<&'static str>)
    ensures
        text::slices(r@) == kinds_spec(),
{
    let mut out: Vec<&'static str> = Vec::new();
    out.push(token::KIND);
    out.push(jwt::KIND);
    out.push(oauth2::KIND);
    out.push(testing::KIND);
    out.push(wasm::KIND);
    proof {
        assert(text::slices(out@) =~= kinds_spec());
    }
    out
}

/// Every `type:` the gateway understands.
pub open spec fn kinds_spec() -> Seq<Seq<char>> {
    seq![token::KIND@, jwt::KIND@, oauth2::KIND@, testing::KIND@, wasm::KIND@]
}

/// A plugin of any auth type.
pub enum Built {
    Token(token::TokenPlugin),
    Jwt(jwt::JwtPlugin),
    OAuth2(oauth2::OAuth2Plugin),
    Testing(testing::TestingPlugin),
}

/// Some texts, each in quotes.
pub open spec fn quoted(v: Seq<Seq<char>>) -> Seq<Seq<char>> {
    v.map_values(|s: Seq<char>| "'"@ + s + "'"@)
}

/// A list of alternatives: commas between them, and `or` before the last.
pub open spec fn either_of(v: Seq<Seq<char>>) -> Seq<char> {
    if v.len() == 0 {
        Seq::empty()
    } else if v.len() == 1 {
        v[0]
    } else {
        text::join_spec(v.drop_last(), ", "@) + " or "@ + v.last()
    }
}

/// The types the gateway understands, for the error a typo produces.
pub fn known_kinds() -> (r: String)
    ensures
        r@ == either_of(quoted(kinds_spec())),
{
    let names = kinds();
    let n = names.len();
    proof {
        assert(n == text::slices(names@).len());
    }
    let mut marked: Vec<String> = Vec::new();
    let mut i: usize = 0;
    while i < n
        invariant
            i <= n,
            n == names@.len(),
            marked@.len() == i,
            forall|k: int| 0 <= k < i ==> (#[trigger] marked@[k])@ == "'"@ + names@[k]@ + "'"@,
        decreases n - i,
    {
        marked.push(text::cat3("'", names[i], "'"));
        i = i + 1;
    }
    let mut front: Vec<&str> = Vec::new();
    let mut j: usize = 0;
    while j + 1 < n
        invariant
            j < n,
            n == marked@.len(),
            front@.len() == j,
            forall|k: int| 0 <= k < j ==> (#[trigger] front@[k])@ == marked@[k]@,
        decreases n - j,
    {
        front.push(marked[j].as_str());
        j = j + 1;
    }
    proof {
        let all = quoted(kinds_spec());
        assert forall|k: int| 0 <= k < all.len() implies all[k] == marked@[k]@ by {
            assert(text::slices(names@)[k] == names@[k]@);
        }
        assert(text::slices(front@) =~= all.drop_last());
    }
    let list = text::join(&front, ", ");
    text::cat3(list.as_str(), " or ", marked[n - 1].as_str())
}

/// Whether a built plugin is the one a config declares.
pub open spec fn built_from(
    kind: Seq<char>,
    name: Seq<char>,
    params: Map<Seq<char>, YamlView>,
    env: Map<Seq<char>, String>,
    r: Result<Built, String>,
) -> bool {
    if kind == token::KIND@ {
        match token::build_spec(name, params, env) {
            Ok(p) => r matches Ok(Built::Token(b)) && b@ == p,
            Err(e) => r matches Err(m) && m@ == e,
        }
    } else if kind == jwt::KIND@ {
        match jwt::build_spec(name, params, env) {
            Ok(p) => r matches Ok(Built::Jwt(b)) && b@ == p,
            Err(e) => r matches Err(m) && m@ == e,
        }
    } else if kind == oauth2::KIND@ {
        match oauth2::build_spec(name, params, env) {
            Ok(p) => r matches Ok(Built::OAuth2(b)) && b@ == p && b.cache@ == Map::<
                Seq<char>,
                CacheEntry,
            >::empty() && b.cache.max_entries == b@.provider.cache_max_entries,
            Err(e) => r matches Err(m) && m@ == e,
        }
    } else if kind == testing::KIND@ {
        match testing::build_spec(name, params, env) {
            Ok(p) => r matches Ok(Built::Testing(b)) && b@ == p && b.overrides@ == Map::<
                Seq<char>,
                Map<Seq<char>, JsonView>,
            >::empty(),
            Err(e) => r matches Err(m) && m@ == e,
        }
    } else {
        r matches Err(m) && m@ == "unknown plugin type '"@ + kind + "' (expected "@ + either_of(
            quoted(kinds_spec()),
        ) + ")"@
    }
}

/// Builds the plugin an entry of `plugins:` names. A filter is not built here: it is
/// no auth type, and the registry sends it elsewhere first.
pub fn build(config: &PluginConfig, env: &StrMap<String>) -> (r: Result<Built, String>)
    ensures
        built_from(config.plugin_id@, config.name@, yaml::block_view(config.params), env@, r),
{
    let kind = config.plugin_id.as_str();
    if text::same(kind, token::KIND) {
        match token::build(config, env) {
            Ok(p) => Ok(Built::Token(p)),
            Err(e) => Err(e),
        }
    } else if text::same(kind, jwt::KIND) {
        match jwt::build(config, env) {
            Ok(p) => Ok(Built::Jwt(p)),
            Err(e) => Err(e),
        }
    } else if text::same(kind, oauth2::KIND) {
        match oauth2::build(config, env) {
            Ok(p) => Ok(Built::OAuth2(p)),
            Err(e) => Err(e),
        }
    } else if text::same(kind, testing::KIND) {
        match testing::build(config, env) {
            Ok(p) => Ok(Built::Testing(p)),
            Err(e) => Err(e),
        }
    } else {
        let known = known_kinds();
        Err(text::cat5("unknown plugin type '", kind, "' (expected ", known.as_str(), ")"))
    }
}

/// Whether a character may stand in the name of a variable.
pub open spec fn in_name(c: char) -> bool {
    ||| 'a' <= c <= 'z'
    ||| 'A' <= c <= 'Z'
    ||| '0' <= c <= '9'
    ||| c == '_'
}

/// The length of the variable name at the front of `s`.
pub open spec fn name_len(s: Seq<char>) -> int
    decreases s.len(),
{
    if s.len() == 0 || !in_name(s[0]) {
        0
    } else {
        1 + name_len(s.drop_first())
    }
}

/// A name at the front is no longer than the text.
pub proof fn lemma_name_len(s: Seq<char>)
    ensures
        0 <= name_len(s) <= s.len(),
    decreases s.len(),
{
    if s.len() > 0 && in_name(s[0]) {
        lemma_name_len(s.drop_first());
    }
}

/// A text in front of the rest of an expansion.
pub open spec fn before(head: Seq<char>, rest: Result<Seq<char>, Seq<char>>) -> Result<
    Seq<char>,
    Seq<char>,
> {
    match rest {
        Ok(tail) => Ok(head + tail),
        Err(e) => Err(e),
    }
}

/// `s`, a tail of `raw`, with `$NAME` and `${NAME}` replaced by what the variables
/// hold; a `$` that names nothing is left as it stands, braces and all. The first name that is not set,
/// and the first brace that is not closed, is an error.
pub open spec fn expand_spec(
    raw: Seq<char>,
    s: Seq<char>,
    env: Map<Seq<char>, String>,
) -> Result<Seq<char>, Seq<char>>
    decreases s.len(),
{
    if s.len() == 0 {
        Ok(Seq::empty())
    } else if s[0] != '$' {
        before(seq![s[0]], expand_spec(raw, s.drop_first(), env))
    } else {
        let braced = s.len() > 1 && s[1] == '{';
        let u = s.skip(if braced {
            2
        } else {
            1
        });
        proof {
            lemma_name_len(u);
        }
        let n = name_len(u);
        let closed = n < u.len() && u[n] == '}';
        let rest = u.skip(if braced {
            n + 1
        } else {
            n
        });
        if braced && !closed {
            Err("unterminated '${' in '"@ + raw + "'"@)
        } else if n == 0 {
            before(
                if braced {
                    "${}"@
                } else {
                    "$"@
                },
                expand_spec(raw, rest, env),
            )
        } else if !env.contains_key(u.take(n)) {
            Err("environment variable '"@ + u.take(n) + "' referenced by config is not set"@)
        } else {
            before(env[u.take(n)]@, expand_spec(raw, rest, env))
        }
    }
}

/// Tests whether a character may stand in the name of a variable.
fn name_char(c: char) -> (r: bool)
    ensures
        r == in_name(c),
{
    ('a' <= c && c <= 'z') || ('A' <= c && c <= 'Z') || ('0' <= c && c <= '9') || c == '_'
}

/// Expands `$NAME` and `${NAME}`. A variable that is not set is an error rather than
/// an empty string, so a missing secret cannot become a valid credential.
pub fn expand_env(raw: &str, env: &StrMap<String>) -> (r: Result<String, String>)
    ensures
        text::result_of(r) == expand_spec(raw@, raw@, env@),
{
    let v = text::chars_of(raw);
    let mut out = String::new();
    let mut i: usize = 0;
    let ghost whole = expand_spec(raw@, raw@, env@);
    proof {
        assert(raw@.skip(0) =~= raw@);
        assert(before(Seq::empty(), whole) == whole) by {
            if whole is Ok {
                assert(Seq::<char>::empty() + whole->Ok_0 =~= whole->Ok_0);
            }
        }
    }
    while i < v.len()
        invariant
            v@ == raw@,
            i <= v@.len(),
            whole == expand_spec(raw@, raw@, env@),
            whole == before(out@, expand_spec(raw@, raw@.skip(i as int), env@)),
        decreases v@.len() - i,
    {
        let ghost s = raw@.skip(i as int);
        let ghost done = out@;
        proof {
            assert(s[0] == v@[i as int]);
        }
        if v[i] != '$' {
            out.push(v[i]);
            proof {
                assert(s.drop_first() =~= raw@.skip(i + 1));
                let rest = expand_spec(raw@, raw@.skip(i + 1), env@);
                if rest is Ok {
                    assert(done + (seq![s[0]] + rest->Ok_0) =~= done.push(s[0]) + rest->Ok_0);
                }
            }
            i = i + 1;
            continue;
        }
        let braced = i + 1 < v.len() && v[i + 1] == '{';
        let start: usize = if braced {
            i + 2
        } else {
            i + 1
        };
        let ghost u = raw@.skip(start as int);
        proof {
            assert(braced == (s.len() > 1 && s[1] == '{'));
            assert(u =~= s.skip(start - i));
        }
        let mut j: usize = start;
        while j < v.len() && name_char(v[j])
            invariant
                v@ == raw@,
                start <= j <= v@.len(),
                name_len(raw@.skip(start as int)) == j - start + name_len(raw@.skip(j as int)),
            decreases v@.len() - j,
        {
            proof {
                assert(raw@.skip(j as int).drop_first() =~= raw@.skip(j + 1));
            }
            j = j + 1;
        }
        let ghost n = name_len(u);
        proof {
            assert(j < v@.len() ==> raw@.skip(j as int)[0] == v@[j as int]);
            assert(n == j - start);
            assert(n < u.len() ==> u[n] == v@[j as int]);
        }
        let name = raw.substring_char(start, j);
        proof {
            assert(name@ =~= u.take(n));
        }
        if braced && !(j < v.len() && v[j] == '}') {
            return Err(text::cat3("unterminated '${' in '", raw, "'"));
        }
        let next: usize = if braced {
            j + 1
        } else {
            j
        };
        let ghost rest = raw@.skip(next as int);
        proof {
            assert(u.skip(if braced {
                n + 1
            } else {
                n
            }) =~= rest);
        }
        if j == start {
            let kept = if braced {
                "${}"
            } else {
                "$"
            };
            out.append(kept);
            proof {
                let tail = expand_spec(raw@, rest, env@);
                if tail is Ok {
                    assert(done + (kept@ + tail->Ok_0) =~= (done + kept@) + tail->Ok_0);
                }
            }
        } else {
            match env.get(name) {
                Some(value) => {
                    out.append(value.as_str());
                    proof {
                        let tail = expand_spec(raw@, rest, env@);
                        if tail is Ok {
                            assert(done + (value@ + tail->Ok_0) =~= (done + value@) + tail->Ok_0);
                        }
                    }
                },
                None => {
                    return Err(
                        text::cat3(
                            "environment variable '",
                            name,
                            "' referenced by config is not set",
                        ),
                    );
                },
            }
        }
        i = next;
    }
    proof {
        assert(raw@.skip(i as int) =~= Seq::empty());
        assert(out@ + Seq::<char>::empty() =~= out@);
    }
    Ok(out)
}

/// A parameter that is a string, expanded, where it is given.
pub open spec fn string_spec(
    params: Map<Seq<char>, YamlView>,
    key: Seq<char>,
    env: Map<Seq<char>, String>,
) -> Result<Option<Seq<char>>, Seq<char>> {
    if !params.contains_key(key) {
        Ok(None)
    } else {
        match params[key] {
            YamlView::Text(raw) => match expand_spec(raw, raw, env) {
                Ok(s) => Ok(Some(s)),
                Err(e) => Err(e),
            },
            _ => Err("'"@ + key + "' must be a string"@),
        }
    }
}

/// Reads a parameter that is a string.
pub fn string(params: &StrMap<yaml_serde::Value>, key: &str, env: &StrMap<String>) -> (r: Result<
    Option<String>,
    String,
>)
    ensures
        text::opt_result_of(r) == string_spec(yaml::block_view(*params), key@, env@),
{
    match params.get(key) {
        Some(value) => {
            match yaml::open_yaml(value) {
                YamlLevel::Text(raw) => {
                    match expand_env(raw, env) {
                        Ok(s) => Ok(Some(s)),
                        Err(e) => Err(e),
                    }
                },
                _ => Err(text::cat3("'", key, "' must be a string")),
            }
        },
        None => Ok(None),
    }
}

/// One entry of a parameter that is a list of strings, expanded.
pub open spec fn entry_spec(
    item: YamlView,
    key: Seq<char>,
    env: Map<Seq<char>, String>,
) -> Result<Seq<char>, Seq<char>> {
    match yaml::as_str_spec(item) {
        Some(raw) => expand_spec(raw, raw, env),
        None => Err("'"@ + key + "' entries must be strings"@),
    }
}

/// The entries of a parameter that is a list of strings, or the first error.
pub open spec fn entries_spec(
    items: Seq<YamlView>,
    key: Seq<char>,
    env: Map<Seq<char>, String>,
) -> Result<Seq<Seq<char>>, Seq<char>>
    decreases items.len(),
{
    if items.len() == 0 {
        Ok(Seq::empty())
    } else {
        match entries_spec(items.drop_last(), key, env) {
            Ok(front) => match entry_spec(items.last(), key, env) {
                Ok(s) => Ok(front.push(s)),
                Err(e) => Err(e),
            },
            Err(e) => Err(e),
        }
    }
}

/// Where the front of a list has an error, the whole list has the same one.
proof fn lemma_entries_error(
    items: Seq<YamlView>,
    n: int,
    key: Seq<char>,
    env: Map<Seq<char>, String>,
)
    requires
        0 <= n <= items.len(),
        entries_spec(items.take(n), key, env) is Err,
    ensures
        entries_spec(items, key, env) == entries_spec(items.take(n), key, env),
    decreases items.len(),
{
    if n == items.len() {
        assert(items.take(n) =~= items);
    } else {
        assert(items.drop_last().take(n) =~= items.take(n));
        lemma_entries_error(items.drop_last(), n, key, env);
    }
}

/// A parameter that is a list of strings, or one string, expanded; empty where it is
/// not given.
pub open spec fn string_list_spec(
    params: Map<Seq<char>, YamlView>,
    key: Seq<char>,
    env: Map<Seq<char>, String>,
) -> Result<Seq<Seq<char>>, Seq<char>> {
    if !params.contains_key(key) {
        Ok(Seq::empty())
    } else {
        match params[key] {
            YamlView::Sequence(items) => entries_spec(items, key, env),
            YamlView::Text(raw) => match expand_spec(raw, raw, env) {
                Ok(s) => Ok(seq![s]),
                Err(e) => Err(e),
            },
            _ => Err("'"@ + key + "' must be a list of strings"@),
        }
    }
}

/// Reads a parameter that is a list of strings. A single string reads as a list of
/// one.
pub fn string_list(
    params: &StrMap<yaml_serde::Value>,
    key: &str,
    env: &StrMap<String>,
) -> (r: Result<Vec<String>, String>)
    ensures
        text::list_result_of(r) == string_list_spec(yaml::block_view(*params), key@, env@),
{
    let value = match params.get(key) {
        Some(value) => value,
        None => {
            let none: Vec<String> = Vec::new();
            proof {
                assert(text::texts(none@) =~= Seq::empty());
            }
            return Ok(none);
        },
    };
    match yaml::open_yaml(value) {
        YamlLevel::Sequence(values) => {
            let ghost items = yaml::yaml_view(*value)->Sequence_0;
            let mut out: Vec<String> = Vec::new();
            let mut i: usize = 0;
            proof {
                assert(items.take(0) =~= Seq::empty());
                assert(text::texts(out@) =~= Seq::empty());
            }
            while i < values.len()
                invariant
                    i <= values@.len(),
                    yaml::block_view(*params).contains_key(key@),
                    yaml::block_view(*params)[key@] == YamlView::Sequence(items),
                    items == values@.map_values(|x: &yaml_serde::Value| yaml::yaml_view(*x)),
                    entries_spec(items.take(i as int), key@, env@) == Ok::<
                        Seq<Seq<char>>,
                        Seq<char>,
                    >(text::texts(out@)),
                decreases values@.len() - i,
            {
                proof {
                    assert(items.take(i + 1).drop_last() =~= items.take(i as int));
                    assert(items.take(i + 1).last() == yaml::yaml_view(*values@[i as int]));
                }
                let read = match yaml::as_str(values[i]) {
                    Some(raw) => expand_env(raw, env),
                    None => Err(text::cat3("'", key, "' entries must be strings")),
                };
                match read {
                    Ok(s) => {
                        let ghost front = text::texts(out@);
                        out.push(s);
                        proof {
                            assert(text::texts(out@) =~= front.push(s@));
                        }
                    },
                    Err(e) => {
                        proof {
                            lemma_entries_error(items, i + 1, key@, env@);
                        }
                        return Err(e);
                    },
                }
                i = i + 1;
            }
            proof {
                assert(items.take(i as int) =~= items);
            }
            Ok(out)
        },
        YamlLevel::Text(raw) => {
            match expand_env(raw, env) {
                Ok(s) => {
                    let mut out: Vec<String> = Vec::new();
                    out.push(s);
                    proof {
                        assert(text::texts(out@) =~= seq![s@]);
                    }
                    Ok(out)
                },
                Err(e) => Err(e),
            }
        },
        _ => Err(text::cat3("'", key, "' must be a list of strings")),
    }
}

/// A parameter that is a number, `default` where it is not given.
pub open spec fn number_spec(
    params: Map<Seq<char>, YamlView>,
    key: Seq<char>,
    default: u64,
) -> Result<u64, Seq<char>> {
    if !params.contains_key(key) {
        Ok(default)
    } else {
        match yaml::as_u64_spec(params[key]) {
            Some(n) => Ok(n),
            None => Err("'"@ + key + "' must be a positive integer"@),
        }
    }
}

/// Reads a parameter that is a number.
pub fn number(params: &StrMap<yaml_serde::Value>, key: &str, default: u64) -> (r: Result<
    u64,
    String,
>)
    ensures
        text::value_result_of(r) == number_spec(yaml::block_view(*params), key@, default),
{
    match params.get(key) {
        Some(value) => {
            match yaml::as_u64(value) {
                Some(n) => Ok(n),
                None => Err(text::cat3("'", key, "' must be a positive integer")),
            }
        },
        None => Ok(default),
    }
}

/// A parameter that is a flag, `default` where it is not given.
pub open spec fn flag_spec(
    params: Map<Seq<char>, YamlView>,
    key: Seq<char>,
    default: bool,
) -> Result<bool, Seq<char>> {
    if !params.contains_key(key) {
        Ok(default)
    } else {
        match params[key] {
            YamlView::Bool(b) => Ok(b),
            _ => Err("'"@ + key + "' must be true or false"@),
        }
    }
}

/// Reads a flag that is off where it is not given.
pub fn flag(params: &StrMap<yaml_serde::Value>, key: &str) -> (r: Result<bool, String>)
    ensures
        text::value_result_of(r) == flag_spec(yaml::block_view(*params), key@, false),
{
    flag_or(params, key, false)
}

/// Reads a flag whose absence need not mean off: the flags of a cookie default to
/// on, so forgetting them hardens it.
pub fn flag_or(params: &StrMap<yaml_serde::Value>, key: &str, default: bool) -> (r: Result<
    bool,
    String,
>)
    ensures
        text::value_result_of(r) == flag_spec(yaml::block_view(*params), key@, default),
{
    match params.get(key) {
        Some(value) => {
            match yaml::open_yaml(value) {
                YamlLevel::Bool(b) => Ok(b),
                _ => Err(text::cat3("'", key, "' must be true or false")),
            }
        },
        None => Ok(default),
    }
}

/// The entries of a nested block by name, the later of two with one name; an error
/// where a key is no text.
pub open spec fn named_spec(entries: Seq<(YamlView, YamlView)>, key: Seq<char>) -> Result<
    Map<Seq<char>, YamlView>,
    Seq<char>,
>
    decreases entries.len(),
{
    if entries.len() == 0 {
        Ok(Map::empty())
    } else {
        match named_spec(entries.drop_last(), key) {
            Ok(front) => match yaml::as_str_spec(entries.last().0) {
                Some(name) => Ok(front.insert(name, entries.last().1)),
                None => Err("'"@ + key + "' keys must be strings"@),
            },
            Err(e) => Err(e),
        }
    }
}

/// Where the front of a block has an error, the whole block has the same one.
proof fn lemma_named_error(entries: Seq<(YamlView, YamlView)>, n: int, key: Seq<char>)
    requires
        0 <= n <= entries.len(),
        named_spec(entries.take(n), key) is Err,
    ensures
        named_spec(entries, key) == named_spec(entries.take(n), key),
    decreases entries.len(),
{
    if n == entries.len() {
        assert(entries.take(n) =~= entries);
    } else {
        assert(entries.drop_last().take(n) =~= entries.take(n));
        lemma_named_error(entries.drop_last(), n, key);
    }
}

/// A parameter that is a nested block, where it is given.
pub open spec fn mapping_spec(params: Map<Seq<char>, YamlView>, key: Seq<char>) -> Result<
    Option<Map<Seq<char>, YamlView>>,
    Seq<char>,
> {
    if !params.contains_key(key) {
        Ok(None)
    } else {
        match params[key] {
            YamlView::Mapping(entries) => match named_spec(entries, key) {
                Ok(m) => Ok(Some(m)),
                Err(e) => Err(e),
            },
            _ => Err("'"@ + key + "' must be a mapping"@),
        }
    }
}

/// What a nested block says, or the text of an error.
pub open spec fn block_result_of(
    r: Result<Option<StrMap<yaml_serde::Value>>, String>,
) -> Result<Option<Map<Seq<char>, YamlView>>, Seq<char>> {
    match r {
        Ok(Some(m)) => Ok(Some(yaml::block_view(m))),
        Ok(None) => Ok(None),
        Err(e) => Err(e@),
    }
}

/// Reads a nested block of parameters, so that every reader above applies to it.
pub fn mapping(params: &StrMap<yaml_serde::Value>, key: &str) -> (r: Result<
    Option<StrMap<yaml_serde::Value>>,
    String,
>)
    ensures
        block_result_of(r) == mapping_spec(yaml::block_view(*params), key@),
{
    let value = match params.get(key) {
        Some(value) => value,
        None => {
            return Ok(None);
        },
    };
    match yaml::open_yaml(value) {
        YamlLevel::Mapping(values) => {
            let ghost entries = yaml::yaml_view(*value)->Mapping_0;
            let mut out: StrMap<yaml_serde::Value> = StrMap::new();
            let mut i: usize = 0;
            proof {
                assert(entries.take(0) =~= Seq::empty());
                assert(yaml::block_view(out) =~= Map::empty());
            }
            while i < values.len()
                invariant
                    i <= values@.len(),
                    yaml::block_view(*params).contains_key(key@),
                    yaml::block_view(*params)[key@] == YamlView::Mapping(entries),
                    entries == values@.map_values(
                        |x: (&yaml_serde::Value, &yaml_serde::Value)|
                            (yaml::yaml_view(*x.0), yaml::yaml_view(*x.1)),
                    ),
                    named_spec(entries.take(i as int), key@) == Ok::<
                        Map<Seq<char>, YamlView>,
                        Seq<char>,
                    >(yaml::block_view(out)),
                decreases values@.len() - i,
            {
                let (name, item) = values[i];
                proof {
                    assert(entries.take(i + 1).drop_last() =~= entries.take(i as int));
                    assert(entries.take(i + 1).last() == (
                        yaml::yaml_view(*name),
                        yaml::yaml_view(*item),
                    ));
                }
                match yaml::as_str(name) {
                    Some(name) => {
                        let ghost front = yaml::block_view(out);
                        let copied = item.clone();
                        out.insert(name.to_owned(), copied);
                        proof {
                            assert(yaml::block_view(out) =~= front.insert(
                                name@,
                                yaml::yaml_view(*item),
                            ));
                        }
                    },
                    None => {
                        proof {
                            lemma_named_error(entries, i + 1, key@);
                        }
                        return Err(text::cat3("'", key, "' keys must be strings"));
                    },
                }
                i = i + 1;
            }
            proof {
                assert(entries.take(i as int) =~= entries);
            }
            Ok(Some(out))
        },
        _ => Err(text::cat3("'", key, "' must be a mapping")),
    }
}

/// A text that names no variable expands to itself.
pub proof fn law_plain_text_expands_to_itself(
    raw: Seq<char>,
    s: Seq<char>,
    env: Map<Seq<char>, String>,
)
    requires
        !s.contains('$'),
    ensures
        expand_spec(raw, s, env) == Ok::<Seq<char>, Seq<char>>(s),
    decreases s.len(),
{
    if s.len() > 0 {
        assert(s.contains(s[0]));
        assert forall|k: int| 0 <= k < s.drop_first().len() implies s.drop_first()[k] != '$' by {
            assert(s.contains(s[k + 1]));
        }
        law_plain_text_expands_to_itself(raw, s.drop_first(), env);
        assert(seq![s[0]] + s.drop_first() =~= s);
    } else {
        assert(s =~= Seq::empty());
    }
}

/// A name at the front of a text ends where a character that cannot stand in one does.
proof fn lemma_name_at_front(name: Seq<char>, rest: Seq<char>)
    requires
        forall|i: int| 0 <= i < name.len() ==> in_name(#[trigger] name[i]),
        rest.len() > 0 ==> !in_name(rest[0]),
    ensures
        name_len(name + rest) == name.len(),
    decreases name.len(),
{
    if name.len() > 0 {
        assert((name + rest).drop_first() =~= name.drop_first() + rest);
        assert((name + rest)[0] == name[0]);
        lemma_name_at_front(name.drop_first(), rest);
    } else {
        assert(name + rest =~= rest);
    }
}

/// A variable that is not set is an error wherever a text names it first, braced or not:
/// it never stands for an empty text.
pub proof fn law_an_unset_variable_is_an_error(
    raw: Seq<char>,
    head: Seq<char>,
    name: Seq<char>,
    rest: Seq<char>,
    env: Map<Seq<char>, String>,
)
    requires
        !head.contains('$'),
        name.len() > 0,
        forall|i: int| 0 <= i < name.len() ==> in_name(#[trigger] name[i]),
        !env.contains_key(name),
    ensures
        expand_spec(raw, head + seq!['$', '{'] + name + seq!['}'] + rest, env) == Err::<
            Seq<char>,
            Seq<char>,
        >("environment variable '"@ + name + "' referenced by config is not set"@),
        (rest.len() > 0 ==> !in_name(rest[0])) ==> expand_spec(
            raw,
            head + seq!['$'] + name + rest,
            env,
        ) == Err::<Seq<char>, Seq<char>>(
            "environment variable '"@ + name + "' referenced by config is not set"@,
        ),
    decreases head.len(),
{
    let braced = head + seq!['$', '{'] + name + seq!['}'] + rest;
    let bare = head + seq!['$'] + name + rest;
    if head.len() > 0 {
        assert(head.contains(head[0]));
        let tail = head.drop_first();
        assert forall|k: int| 0 <= k < tail.len() implies tail[k] != '$' by {
            assert(head.contains(head[k + 1]));
        }
        law_an_unset_variable_is_an_error(raw, tail, name, rest, env);
        assert(braced.drop_first() =~= tail + seq!['$', '{'] + name + seq!['}'] + rest);
        assert(bare.drop_first() =~= tail + seq!['$'] + name + rest);
    } else {
        let closed = seq!['}'] + rest;
        assert(braced.skip(2) =~= name + closed);
        lemma_name_at_front(name, closed);
        assert((name + closed).take(name.len() as int) =~= name);
        assert(braced[0] == '$' && braced[1] == '{');
        assert((name + closed)[name.len() as int] == '}');
        if rest.len() > 0 ==> !in_name(rest[0]) {
            assert(bare.skip(1) =~= name + rest);
            lemma_name_at_front(name, rest);
            assert((name + rest).take(name.len() as int) =~= name);
            assert(bare[0] == '$' && bare[1] == name[0]);
            assert(in_name(name[0]));
        }
    }
}

} // verus!
