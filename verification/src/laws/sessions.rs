//! Cookies that the gateway makes, reads and withholds.

use crate::auth;
use crate::auth::{AuthPolicy, RouteGuard};
use crate::cookies;
use crate::headers;
use crate::headers::HeaderList;
use crate::json;
use crate::json::{Json, JsonView};
use crate::plugins;
use crate::plugins::session;
use crate::plugins::session::SessionCookie;
use crate::signed;
use crate::strmap::StrMap;
use crate::text;
use vstd::prelude::*;
use vstd::string::*;

verus! {

/// A cookie's name is made of letters, digits and a few signs, and is not empty.
pub proof fn law_what_a_cookie_can_be_called(name: &str, r: bool)
    requires
        call_ensures(session::is_cookie_name, (name,), r),
    ensures
        r <==> name@.len() > 0 && forall|i: int|
            0 <= i < name@.len() ==> ({
                let c = #[trigger] name@[i];
                'a' <= c <= 'z' || 'A' <= c <= 'Z' || '0' <= c <= '9' || c == '!' || c == '#' || c
                    == '$' || c == '%' || c == '&' || c == '\'' || c == '*' || c == '+' || c == '-'
                    || c == '.' || c == '^' || c == '_' || c == '`' || c == '|' || c == '~'
            }),
{
    assert forall|i: int| 0 <= i < name@.len() implies (session::cookie_char(#[trigger] name@[i])
        <==> {
        let c = name@[i];
        'a' <= c <= 'z' || 'A' <= c <= 'Z' || '0' <= c <= '9' || c == '!' || c == '#' || c == '$'
            || c == '%' || c == '&' || c == '\'' || c == '*' || c == '+' || c == '-' || c == '.'
            || c == '^' || c == '_' || c == '`' || c == '|' || c == '~'
    }) by {
        let c = name@[i];
        let n = c as int;
    }
}

/// The value of an attribute is visible characters and spaces, without those that end it.
pub proof fn law_what_an_attribute_can_hold(value: &str, r: bool)
    requires
        call_ensures(session::is_attribute_value, (value,), r),
    ensures
        r <==> value@.len() > 0 && forall|i: int|
            0 <= i < value@.len() ==> 0x20 <= (#[trigger] value@[i]) as int <= 0x7e && value@[i]
                != ';' && value@[i] != ',',
{
    assert forall|i: int| 0 <= i < value@.len() implies (session::attribute_char(
        #[trigger] value@[i],
    ) <==> 0x20 <= value@[i] as int <= 0x7e && value@[i] != ';' && value@[i] != ',') by {}
}

/// The fixed part of a session's cookie: its path, its domain where one is given, how it
/// travels between sites, and the two flags, which are on unless they are turned off. A
/// cookie that travels everywhere must be a secure one.
pub proof fn law_what_a_cookies_attributes_are(
    block: StrMap<yaml_serde::Value>,
    kind: &str,
    env: StrMap<String>,
    path: Option<String>,
    domain: Option<String>,
    secure: bool,
    http_only: bool,
    given: Option<String>,
    r: Result<String, String>,
)
    requires
        call_ensures(plugins::string, (&block, "path", &env), Ok(path)),
        call_ensures(plugins::string, (&block, "domain", &env), Ok(domain)),
        call_ensures(plugins::flag_or, (&block, "secure", true), Ok(secure)),
        call_ensures(plugins::flag_or, (&block, "http-only", true), Ok(http_only)),
        call_ensures(plugins::string, (&block, "same-site", &env), Ok(given)),
        call_ensures(session::attributes, (&block, kind, &env), r),
    ensures
        ({
            let way = if given is None {
                Some("Lax"@)
            } else if text::lower_spec(given->Some_0@) == seq!['s', 't', 'r', 'i', 'c', 't'] {
                Some("Strict"@)
            } else if text::lower_spec(given->Some_0@) == seq!['l', 'a', 'x'] {
                Some("Lax"@)
            } else if text::lower_spec(given->Some_0@) == seq!['n', 'o', 'n', 'e'] {
                Some("None"@)
            } else {
                None
            };
            let at = if path is Some {
                path->Some_0@
            } else {
                seq!['/']
            };
            &&& r is Ok <==> way is Some && (way == Some("None"@) ==> secure)
                && session::attribute_value_spec(at) && (domain is Some
                ==> session::attribute_value_spec(domain->Some_0@))
            &&& way is None ==> (r matches Err(e) && e@ == kind@ + " '"@ + "session-cookie"@ + "' "@
                + ("'same-site' must be Strict, Lax or None, not '"@ + given->Some_0@ + "'"@))
            &&& way == Some("None"@) && !secure ==> (r matches Err(e) && e@ == kind@ + " '"@
                + "session-cookie"@ + "' "@ + "'same-site: None' requires 'secure: true'"@)
            &&& r matches Ok(s) ==> s@ == "; Path="@ + at + (if domain is Some {
                "; Domain="@ + domain->Some_0@
            } else {
                Seq::empty()
            }) + "; SameSite="@ + way->Some_0 + (if http_only {
                "; HttpOnly"@
            } else {
                Seq::empty()
            }) + (if secure {
                "; Secure"@
            } else {
                Seq::empty()
            })
        }),
{
    reveal_strlit("strict");
    reveal_strlit("lax");
    reveal_strlit("none");
    reveal_strlit("/");
    assert("/"@ =~= seq!['/']);
    assert(text::lower_spec("strict"@) =~= seq!['s', 't', 'r', 'i', 'c', 't']);
    assert(text::lower_spec("lax"@) =~= seq!['l', 'a', 'x']);
    assert(text::lower_spec("none"@) =~= seq!['n', 'o', 'n', 'e']);
    if let Ok(s) = r {
        let at = session::or_else(text::opt_of(path), "/"@);
        let a = "; Path="@ + at;
        let none = Seq::<char>::empty();
        let d = if domain is Some {
            "; Domain="@ + domain->Some_0@
        } else {
            none
        };
        assert(a + none =~= a);
        if domain is Some {
            assert(a + "; Domain="@ + domain->Some_0@ =~= a + d);
        }
        let site = session::same_site_spec(text::opt_of(given))->Some_0;
        let c = a + d + "; SameSite="@ + site;
        assert(c + none =~= c);
        let e = c + "; HttpOnly"@;
        assert(e + none =~= e);
    }
}

/// Whether a payload is the one that claims are signed into a session with: every claim of
/// the caller as it was, but for those that say how the lookup went; the time it was made
/// and the time it ends; and the issuer and audience that the cookie names.
pub open spec fn signed_from(
    payload: Map<Seq<char>, JsonView>,
    claims: Map<Seq<char>, JsonView>,
    issuer: Option<Seq<char>>,
    audience: Option<Seq<char>>,
    now: i64,
    ends: int,
) -> bool {
    &&& payload.contains_key("iat"@) && payload["iat"@] == JsonView::Int(now as int)
    &&& payload.contains_key("exp"@) && payload["exp"@] == JsonView::Int(ends)
    &&& issuer matches Some(s) ==> payload.contains_key("iss"@) && payload["iss"@]
        == JsonView::Text(s)
    &&& audience matches Some(s) ==> payload.contains_key("aud"@) && payload["aud"@]
        == JsonView::Text(s)
    &&& !payload.contains_key("active"@)
    &&& !payload.contains_key("token_type"@)
    &&& forall|k: Seq<char>|
        k != "iat"@ && k != "exp"@ && k != "active"@ && k != "token_type"@ && (issuer is Some ==> k
            != "iss"@) && (audience is Some ==> k != "aud"@) ==> (#[trigger] payload.contains_key(k)
            <==> claims.contains_key(k)) && (claims.contains_key(k) ==> payload[k] == claims[k])
}

proof fn lemma_claims()
    ensures
        "iat"@.len() == 3,
        "exp"@.len() == 3,
        "iss"@.len() == 3,
        "aud"@.len() == 3,
        "iat"@ != "exp"@,
        "iat"@ != "iss"@,
        "iat"@ != "aud"@,
        "exp"@ != "iss"@,
        "exp"@ != "aud"@,
        "iss"@ != "aud"@,
        "active"@.len() == 6,
        "token_type"@.len() == 10,
{
    reveal_strlit("iat");
    reveal_strlit("exp");
    reveal_strlit("iss");
    reveal_strlit("aud");
    reveal_strlit("active");
    reveal_strlit("token_type");
    assert("iat"@[0] == 'i' && "iat"@[1] == 'a');
    assert("iss"@[0] == 'i' && "iss"@[1] == 's');
    assert("exp"@[0] == 'e');
    assert("aud"@[0] == 'a');
}

/// A session is the caller's claims, signed with the cookie's secret. It ends with its
/// lifetime, or with the credential where that ends before; the cookie lasts as long.
pub proof fn law_what_a_session_is(
    cookie: SessionCookie,
    claims: StrMap<Json>,
    now: i64,
    exp: i64,
    ends: int,
    left: int,
    r: Result<String, String>,
)
    requires
        call_ensures(SessionCookie::mint_at, (&cookie, &claims, now), r),
        i64::MIN <= now + cookie.ttl <= i64::MAX,
        json::fields(claims).contains_key("exp"@) ==> json::fields(claims)["exp"@]
            == JsonView::Int(exp as int),
        ends == if json::fields(claims).contains_key("exp"@) && exp < now + cookie.ttl {
            exp as int
        } else {
            now + cookie.ttl
        },
        i64::MIN <= ends - now <= i64::MAX,
        left == if ends > now {
            ends - now
        } else {
            0
        },
    ensures
        exists|payload: Map<Seq<char>, JsonView>|
            #[trigger] signed_from(
                payload,
                json::fields(claims),
                text::opt_of(cookie.key.issuer),
                text::opt_of(cookie.key.audience),
                now,
                ends,
            ) && match signed::jwt_signed(JsonView::Object(payload), cookie.key.secret@) {
                Ok(token) => r matches Ok(s) && s@ == cookie.name@ + "="@ + token + "; Max-Age="@
                    + text::decimal(left as nat) + cookie.attributes@,
                Err(e) => r matches Err(f) && f@ == e,
            },
{
    lemma_claims();
    let said = json::fields(claims);
    let payload = session::payload_spec(cookie@, said, now);
    assert(session::expires_spec(session::identity(said), now, cookie.ttl) == ends);
    assert(signed_from(
        payload,
        said,
        text::opt_of(cookie.key.issuer),
        text::opt_of(cookie.key.audience),
        now,
        ends,
    ));
}

/// A caller who carries a session that verifies is handed none; any other is handed the one
/// that is minted, as a cookie to set, where one can be signed.
pub proof fn law_when_a_session_is_handed_out(
    cookie: SessionCookie,
    carried: bool,
    claims: StrMap<Json>,
    now: i64,
    minted: Result<String, String>,
    r: Vec<(String, String)>,
)
    requires
        call_ensures(SessionCookie::mint_at, (&cookie, &claims, now), minted),
        call_ensures(SessionCookie::issue_at, (&cookie, carried, &claims, now), r),
    ensures
        carried || minted is Err ==> r@.len() == 0,
        !carried && minted is Ok ==> r@.len() == 1 && r@[0].0@ == "set-cookie"@ && r@[0].1@
            == minted->Ok_0@,
{
    let said = text::pairs_view(r@);
    assert(said.len() == r@.len());
    if said.len() == 1 {
        assert(said[0] == (r@[0].0@, r@[0].1@));
    }
}

/// A jar of cookies is read from the front: the first piece that gives the name a value is
/// what the cookie holds, without the white space around it, and nothing where that is
/// empty; a piece that gives the name none is passed over.
pub proof fn law_how_a_jar_is_read(
    jar: &str,
    piece: Seq<char>,
    rest: &str,
    name: &str,
    behind: Option<&str>,
    r: Option<&str>,
)
    requires
        jar@ == piece + seq![';'] + rest@,
        !piece.contains(';'),
        call_ensures(session::from_jar, (Some(rest), name), behind),
        call_ensures(session::from_jar, (Some(jar), name), r),
    ensures
        match text::split_once_spec(piece, '=') {
            Some((key, value)) => if text::trim_spec(key) == name@ {
                match r {
                    Some(v) => v@ == text::trim_spec(value) && v@.len() > 0,
                    None => text::trim_spec(value).len() == 0,
                }
            } else {
                slice(r) == slice(behind)
            },
            None => slice(r) == slice(behind),
        },
{
    session::lemma_split_front(piece, ';', rest@);
    let pieces = text::split_spec(jar@, ';');
    assert(pieces[0] == piece);
    assert(pieces.drop_first() =~= text::split_spec(rest@, ';'));
}

/// The text of an optional slice.
pub open spec fn slice(s: Option<&str>) -> Option<Seq<char>> {
    match s {
        Some(s) => Some(s@),
        None => None,
    }
}

/// A jar of one piece holds what the piece gives the name; no jar holds nothing.
pub proof fn law_how_one_cookie_is_read(
    jar: &str,
    name: &str,
    r: Option<&str>,
    none: Option<&str>,
)
    requires
        !jar@.contains(';'),
        call_ensures(session::from_jar, (Some(jar), name), r),
        call_ensures(session::from_jar, (None, name), none),
    ensures
        r matches Some(v) ==> (text::split_once_spec(jar@, '=') matches Some((key, value))
            && text::trim_spec(key) == name@ && v@ == text::trim_spec(value) && v@.len() > 0),
        r is None ==> (text::split_once_spec(jar@, '=') matches Some((key, value))
            ==> text::trim_spec(key) != name@ || text::trim_spec(value).len() == 0),
        none is None,
{
    reveal_with_fuel(session::jar_find, 2);
    session::lemma_split_whole(jar@, ';');
    let pieces = text::split_spec(jar@, ';');
    assert(pieces[0] == jar@);
    assert(pieces.drop_first() =~= Seq::empty());
}

/// What a piece of a jar is called: what stands before its first equals sign, or all of it.
pub open spec fn called(piece: Seq<char>) -> Seq<char> {
    match text::split_once_spec(piece, '=') {
        Some((key, _)) => text::trim_spec(key),
        None => text::trim_spec(piece),
    }
}

/// Withholding cookies keeps every piece of the jar that is not empty and is not called by
/// one of the names, in order and without the white space around it.
pub proof fn law_which_cookies_are_kept(jar: &str, names: Vec<String>, r: Option<String>)
    requires
        call_ensures(session::without, (jar, &names), r),
    ensures
        ({
            let kept = text::split_spec(jar@, ';').map_values(
                |p: Seq<char>| text::trim_spec(p),
            ).filter(
                |p: Seq<char>| p.len() > 0 && !text::texts(names@).contains(called(p)),
            );
            &&& r is None <==> kept.len() == 0
            &&& r matches Some(s) ==> s@ == text::join_spec(kept, seq![';', ' '])
        }),
{
    lemma_kept(text::split_spec(jar@, ';'), text::texts(names@));
    reveal_strlit("; ");
    assert("; "@ =~= seq![';', ' ']);
}

proof fn lemma_kept(pieces: Seq<Seq<char>>, names: Seq<Seq<char>>)
    ensures
        session::kept_pieces(pieces, names) == pieces.map_values(
            |p: Seq<char>| text::trim_spec(p),
        ).filter(|p: Seq<char>| p.len() > 0 && !names.contains(called(p))),
    decreases pieces.len(),
{
    reveal(Seq::filter);
    let bare = |p: Seq<char>| text::trim_spec(p);
    let keep = |p: Seq<char>| p.len() > 0 && !names.contains(called(p));
    let all = pieces.map_values(bare);
    if pieces.len() == 0 {
        assert(session::kept_pieces(pieces, names) =~= all.filter(keep));
    } else {
        lemma_kept(pieces.drop_last(), names);
        assert(all.drop_last() =~= pieces.drop_last().map_values(bare));
        assert(all.last() == bare(pieces.last()));
        assert(session::kept(pieces.last(), names) <==> keep(all.last()));
    }
}

/// A client's cookies are what its `Cookie` header holds.
pub proof fn law_where_cookies_are_read(
    fields: HeaderList,
    name: &str,
    jar: &str,
    held: Option<&str>,
    r: Option<String>,
)
    requires
        call_ensures(cookies::held, (&fields, name), r),
        headers::text_spec(fields@, "cookie"@) matches Some(s) ==> s == jar@,
        call_ensures(session::from_jar, (Some(jar), name), held),
    ensures
        headers::text_spec(fields@, "cookie"@) is None ==> r is None,
        headers::text_spec(fields@, "cookie"@) is Some ==> text::opt_of(r) == slice(held),
{
}

/// A session cookie is declared by a block with a secret; it has the usual name and lifetime
/// where the block does not say, and no lifetime of nothing.
pub proof fn law_how_a_session_cookie_is_declared(
    params: StrMap<yaml_serde::Value>,
    kind: &str,
    env: StrMap<String>,
    block: Option<StrMap<yaml_serde::Value>>,
    given: StrMap<yaml_serde::Value>,
    secret: Option<String>,
    named: Option<String>,
    ttl: u64,
    issuer: Option<String>,
    audience: Option<String>,
    attributes: Result<String, String>,
    r: Result<Option<SessionCookie>, String>,
)
    requires
        call_ensures(plugins::mapping, (&params, "session-cookie"), Ok(block)),
        block is Some ==> given == block->Some_0,
        call_ensures(plugins::string, (&given, "secret", &env), Ok(secret)),
        call_ensures(plugins::string, (&given, "name", &env), Ok(named)),
        call_ensures(plugins::number, (&given, "ttl-seconds", 3600), Ok(ttl)),
        call_ensures(plugins::string, (&given, "issuer", &env), Ok(issuer)),
        call_ensures(plugins::string, (&given, "audience", &env), Ok(audience)),
        call_ensures(session::attributes, (&given, kind, &env), attributes),
        call_ensures(session::build, (&params, kind, &env), r),
    ensures
        ({
            let name = if named is Some {
                named->Some_0@
            } else {
                "gillnet-session"@
            };
            &&& block is None ==> (r matches Ok(None))
            &&& block is Some ==> (r is Ok <==> secret is Some && secret->Some_0@.len() > 0
                && session::cookie_name_spec(name) && ttl > 0 && attributes is Ok)
            &&& block is Some && (secret is None || secret->Some_0@.len() == 0) ==> (
            r matches Err(e) && e@ == kind@ + " '"@ + "session-cookie"@ + "' "@
                + "requires a non-empty 'secret'"@)
            &&& block is Some && secret is Some && secret->Some_0@.len() > 0
                && !session::cookie_name_spec(name) ==> (r matches Err(e) && e@ == kind@ + " '"@
                + "session-cookie"@ + "' "@ + ("has an invalid cookie name '"@ + name + "'"@))
            &&& block is Some && r is Ok ==> (r matches Ok(Some(c)) && c.name@ == name
                && c.key.secret@ == secret->Some_0@ && text::opt_of(c.key.issuer) == text::opt_of(
                issuer,
            ) && text::opt_of(c.key.audience) == text::opt_of(audience) && c.attributes@
                == attributes->Ok_0@ && c.ttl == ttl as i64)
        }),
{
}

/// The cookies that a policy has for its own: those it looks for signed tokens in, and the
/// session that it hands out or looks at.
pub open spec fn own_cookies(policy: AuthPolicy, name: Seq<char>) -> bool {
    match policy {
        AuthPolicy::StaticToken { .. } => false,
        AuthPolicy::JwtHs256 { cookie_keys, .. } => text::texts(cookie_keys@).contains(name),
        AuthPolicy::OAuth2(p) => p.session is Some && p.session->Some_0.name@ == name,
        AuthPolicy::Testing(p) => p.session is Some && p.session->Some_0.name@ == name,
    }
}

/// The cookies that are withheld from the upstream are the guards' own, and none where the
/// route relays credentials.
pub proof fn law_which_cookies_are_withheld(
    guards: Vec<RouteGuard>,
    forward_token: bool,
    r: Vec<String>,
    name: Seq<char>,
)
    requires
        call_ensures(cookies::withheld, (&guards, forward_token), r),
    ensures
        text::texts(r@).contains(name) <==> !forward_token && exists|i: int|
            0 <= i < guards@.len() && own_cookies(*(#[trigger] guards@[i]).policy, name),
{
    let all = auth::guards_view(guards@);
    assert forall|i: int| 0 <= i < guards@.len() implies (cookies::names_spec(
        (#[trigger] all[i]).policy@,
    ).contains(name) <==> own_cookies(*guards@[i].policy, name)) by {
        assert(all[i] == guards@[i]@);
        lemma_own(all[i].policy, name);
    }
    if cookies::is_own(all, name) {
        let i = choose|i: int|
            0 <= i < all.len() && cookies::names_spec((#[trigger] all[i]).policy@).contains(name);
        assert(own_cookies(*guards@[i].policy, name));
    }
    if exists|i: int| 0 <= i < guards@.len() && own_cookies(*(#[trigger] guards@[i]).policy, name) {
        let i = choose|i: int|
            0 <= i < guards@.len() && own_cookies(*(#[trigger] guards@[i]).policy, name);
        assert(cookies::names_spec(all[i].policy@).contains(name));
    }
}

proof fn lemma_own(policy: AuthPolicy, name: Seq<char>)
    ensures
        cookies::names_spec(policy@).contains(name) <==> own_cookies(policy, name),
{
    let none = Seq::<Seq<char>>::empty();
    match policy {
        AuthPolicy::OAuth2(p) => {
            if let Some(cookie) = p.session {
                assert(none.push(cookie.name@)[0] == cookie.name@);
                assert(none.push(cookie.name@).len() == 1);
            }
        },
        AuthPolicy::Testing(p) => {
            if let Some(cookie) = p.session {
                assert(none.push(cookie.name@)[0] == cookie.name@);
                assert(none.push(cookie.name@).len() == 1);
            }
        },
        _ => {},
    }
}

/// Taking cookies out touches no field but those that hold cookies in valid text: each of them
/// is left with the cookies that are kept of it, or goes where none is.
pub proof fn law_what_taking_cookies_out_leaves(
    fields: HeaderList,
    names: Vec<String>,
    r: HeaderList,
)
    requires
        call_ensures(cookies::strip, (&fields, &names), r),
    ensures
        names@.len() == 0 ==> r@ == fields@,
        names@.len() > 0 ==> ({
            let jar = |f: (Seq<char>, Seq<u8>)|
                session::without_spec(vstd::utf8::decode_utf8(f.1), text::texts(names@));
            let holds = |f: (Seq<char>, Seq<u8>)|
                f.0 == seq!['c', 'o', 'o', 'k', 'i', 'e'] && vstd::utf8::valid_utf8(f.1);
            r@ == fields@.filter(
                |f: (Seq<char>, Seq<u8>)| holds(f) ==> jar(f) is Some,
            ).map_values(
                |f: (Seq<char>, Seq<u8>)|
                    if holds(f) {
                        (f.0, vstd::utf8::encode_utf8(jar(f)->Some_0))
                    } else {
                        f
                    },
            )
        }),
{
    assert(text::texts(names@).len() == names@.len());
    lemma_spared(fields@, text::texts(names@));
}

proof fn lemma_spared(fields: Seq<(Seq<char>, Seq<u8>)>, names: Seq<Seq<char>>)
    ensures
        ({
            let jar = |f: (Seq<char>, Seq<u8>)|
                session::without_spec(vstd::utf8::decode_utf8(f.1), names);
            let holds = |f: (Seq<char>, Seq<u8>)|
                f.0 == seq!['c', 'o', 'o', 'k', 'i', 'e'] && vstd::utf8::valid_utf8(f.1);
            cookies::spared_all(fields, names) == fields.filter(
                |f: (Seq<char>, Seq<u8>)| holds(f) ==> jar(f) is Some,
            ).map_values(
                |f: (Seq<char>, Seq<u8>)|
                    if holds(f) {
                        (f.0, vstd::utf8::encode_utf8(jar(f)->Some_0))
                    } else {
                        f
                    },
            )
        }),
    decreases fields.len(),
{
    reveal(Seq::filter);
    reveal_strlit("cookie");
    assert("cookie"@ =~= seq!['c', 'o', 'o', 'k', 'i', 'e']);
    let jar = |f: (Seq<char>, Seq<u8>)|
        session::without_spec(vstd::utf8::decode_utf8(f.1), names);
    let holds = |f: (Seq<char>, Seq<u8>)|
        f.0 == seq!['c', 'o', 'o', 'k', 'i', 'e'] && vstd::utf8::valid_utf8(f.1);
    let keep = |f: (Seq<char>, Seq<u8>)| holds(f) ==> jar(f) is Some;
    let leave = |f: (Seq<char>, Seq<u8>)|
        if holds(f) {
            (f.0, vstd::utf8::encode_utf8(jar(f)->Some_0))
        } else {
            f
        };
    if fields.len() == 0 {
        assert(Seq::<(Seq<char>, Seq<u8>)>::empty() =~= fields.filter(keep).map_values(leave));
    } else {
        lemma_spared(fields.drop_last(), names);
        let front = fields.drop_last().filter(keep);
        if keep(fields.last()) {
            assert(front.push(fields.last()).map_values(leave) =~= front.map_values(leave).push(
                leave(fields.last()),
            ));
        }
    }
}

/// Only a policy that asks a provider, and was given a session cookie, hands out sessions: to
/// a caller who brings none, the one that is minted now.
pub proof fn law_who_is_handed_a_session(
    policy: AuthPolicy,
    fields: HeaderList,
    claims: StrMap<Json>,
    now: i64,
    cookie: SessionCookie,
    minted: Vec<(String, String)>,
    r: Vec<(String, String)>,
)
    requires
        call_ensures(AuthPolicy::issue, (&policy, &fields, &claims, now), r),
        policy matches AuthPolicy::OAuth2(p) ==> (p.session matches Some(c) ==> c == cookie),
        call_ensures(SessionCookie::issue_at, (&cookie, false, &claims, now), minted),
    ensures
        !(policy is OAuth2) ==> r@.len() == 0,
        policy matches AuthPolicy::OAuth2(p) ==> {
            &&& p.session is None ==> r@.len() == 0
            &&& p.session is Some && cookies::held_spec(fields@, cookie.name@) is None
                ==> text::pairs_view(r@) == text::pairs_view(minted@)
            &&& r@.len() == 0 || text::pairs_view(r@) == text::pairs_view(minted@)
        },
{
    assert(text::pairs_view(r@).len() == r@.len());
}

} // verus!
