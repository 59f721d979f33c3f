//! The session cookie: one answer of the provider, remembered.
//!
//! What an `oauth2-plugin` learned of a caller is signed into a token and handed back
//! as a cookie; a `jwt-plugin` verifies it like any other token. A session cannot be
//! revoked. It ends when it expires, and never after the credential it was made from.

use crate::clock;
use crate::json;
use crate::json::{Json, JsonView, Numeric};
use crate::plugins;
use crate::plugins::jwt;
use crate::plugins::Credential;
use crate::signed;
use crate::signed::TokenKey;
use crate::strmap::StrMap;
use crate::text;
use crate::yaml;
use crate::yaml::YamlView;
use vstd::prelude::*;
use vstd::string::*;

verus! {

/// The parameter a plugin declares its cookie under.
pub const PARAM: &'static str = "session-cookie";

/// What a cookie is called where a config does not say.
pub const DEFAULT_NAME: &'static str = "gillnet-session";

/// How long a session lasts where a config does not say.
pub const DEFAULT_TTL_SECONDS: u64 = 3600;

/// A session cookie that a plugin mints and verifies.
pub struct SessionCookie {
    pub name: String,
    pub key: TokenKey,
    pub ttl: i64,
    /// Everything after `name=value; Max-Age=n`.
    pub attributes: String,
}

/// What a session cookie is made of.
pub struct CookieView {
    pub name: Seq<char>,
    pub secret: Seq<char>,
    pub issuer: Option<Seq<char>>,
    pub audience: Option<Seq<char>>,
    pub ttl: i64,
    pub attributes: Seq<char>,
}

impl View for SessionCookie {
    type V = CookieView;

    open spec fn view(&self) -> CookieView {
        CookieView {
            name: self.name@,
            secret: self.key.secret@,
            issuer: text::opt_of(self.key.issuer),
            audience: text::opt_of(self.key.audience),
            ttl: self.ttl,
            attributes: self.attributes@,
        }
    }
}

/// Whether a character may stand in the name of a cookie: visible ASCII that is no
/// separator.
pub open spec fn cookie_char(c: char) -> bool {
    &&& '!' <= c <= '~'
    &&& c != '('
    &&& c != ')'
    &&& c != '<'
    &&& c != '>'
    &&& c != '@'
    &&& c != ','
    &&& c != ';'
    &&& c != ':'
    &&& c != '\\'
    &&& c != '"'
    &&& c != '/'
    &&& c != '['
    &&& c != ']'
    &&& c != '?'
    &&& c != '='
    &&& c != '{'
    &&& c != '}'
}

/// Whether a text is the name of a cookie.
pub open spec fn cookie_name_spec(name: Seq<char>) -> bool {
    name.len() > 0 && forall|i: int| 0 <= i < name.len() ==> cookie_char(#[trigger] name[i])
}

/// Tests whether a text is the name of a cookie.
pub fn is_cookie_name(name: &str) -> (r: bool)
    ensures
        r == cookie_name_spec(name@),
{
    let v = text::chars_of(name);
    let mut i: usize = 0;
    while i < v.len()
        invariant
            i <= v@.len(),
            v@ == name@,
            forall|k: int| 0 <= k < i ==> cookie_char(#[trigger] name@[k]),
        decreases v@.len() - i,
    {
        let c = v[i];
        if !('!' <= c && c <= '~' && c != '(' && c != ')' && c != '<' && c != '>' && c != '@' && c
            != ',' && c != ';' && c != ':' && c != '\\' && c != '"' && c != '/' && c != '[' && c
            != ']' && c != '?' && c != '=' && c != '{' && c != '}') {
            proof {
                assert(!cookie_char(name@[i as int]));
            }
            return false;
        }
        i = i + 1;
    }
    v.len() > 0
}

/// Whether a character may stand in the value of a cookie's attribute.
pub open spec fn attribute_char(c: char) -> bool {
    ' ' <= c <= '~' && c != ';' && c != ','
}

/// Whether a text is the value of a cookie's attribute.
pub open spec fn attribute_value_spec(value: Seq<char>) -> bool {
    value.len() > 0 && forall|i: int|
        0 <= i < value.len() ==> attribute_char(#[trigger] value[i])
}

/// Tests whether a text is the value of a cookie's attribute.
pub fn is_attribute_value(value: &str) -> (r: bool)
    ensures
        r == attribute_value_spec(value@),
{
    let v = text::chars_of(value);
    let mut i: usize = 0;
    while i < v.len()
        invariant
            i <= v@.len(),
            v@ == value@,
            forall|k: int| 0 <= k < i ==> attribute_char(#[trigger] value@[k]),
        decreases v@.len() - i,
    {
        let c = v[i];
        if !(' ' <= c && c <= '~' && c != ';' && c != ',') {
            proof {
                assert(!attribute_char(value@[i as int]));
            }
            return false;
        }
        i = i + 1;
    }
    v.len() > 0
}

/// The start of every complaint about the block of a plugin.
pub open spec fn complaint(kind: Seq<char>, what: Seq<char>) -> Seq<char> {
    kind + " '"@ + PARAM@ + "' "@ + what
}

/// Writes a complaint about the block of a plugin.
fn complain(kind: &str, what: &str) -> (r: String)
    ensures
        r@ == complaint(kind@, what@),
{
    text::cat5(kind, " '", PARAM, "' ", what)
}

/// How the attribute `SameSite` is written, in whatever case it was given.
pub open spec fn same_site_spec(given: Option<Seq<char>>) -> Option<Seq<char>> {
    match given {
        None => Some("Lax"@),
        Some(value) => if text::lower_spec(value) == text::lower_spec("strict"@) {
            Some("Strict"@)
        } else if text::lower_spec(value) == text::lower_spec("lax"@) {
            Some("Lax"@)
        } else if text::lower_spec(value) == text::lower_spec("none"@) {
            Some("None"@)
        } else {
            None
        },
    }
}

/// How the attribute `SameSite` is written.
fn same_site(given: &Option<String>) -> (r: Option<&'static str>)
    ensures
        match r {
            Some(s) => same_site_spec(text::opt_of(*given)) == Some(s@),
            None => same_site_spec(text::opt_of(*given)) is None,
        },
{
    match given {
        None => Some("Lax"),
        Some(value) => {
            if text::same_ignoring_case(value.as_str(), "strict") {
                Some("Strict")
            } else if text::same_ignoring_case(value.as_str(), "lax") {
                Some("Lax")
            } else if text::same_ignoring_case(value.as_str(), "none") {
                Some("None")
            } else {
                None
            }
        },
    }
}

/// The fixed part of a `Set-Cookie`.
pub open spec fn attributes_text(
    path: Seq<char>,
    domain: Option<Seq<char>>,
    site: Seq<char>,
    http_only: bool,
    secure: bool,
) -> Seq<char> {
    let a = "; Path="@ + path;
    let b = match domain {
        Some(d) => a + "; Domain="@ + d,
        None => a,
    };
    let c = b + "; SameSite="@ + site;
    let d = if http_only {
        c + "; HttpOnly"@
    } else {
        c
    };
    if secure {
        d + "; Secure"@
    } else {
        d
    }
}

/// A text or, where there is none, another.
pub open spec fn or_else(given: Option<Seq<char>>, other: Seq<char>) -> Seq<char> {
    match given {
        Some(s) => s,
        None => other,
    }
}

/// The fixed part of a `Set-Cookie`, or what is wrong with a block of attributes that
/// could be read.
pub open spec fn attributes_of(
    kind: Seq<char>,
    path: Option<Seq<char>>,
    domain: Option<Seq<char>>,
    secure: bool,
    http_only: bool,
    given_site: Option<Seq<char>>,
) -> Result<Seq<char>, Seq<char>> {
    match same_site_spec(given_site) {
        None => Err(
            complaint(
                kind,
                "'same-site' must be Strict, Lax or None, not '"@ + given_site->Some_0 + "'"@,
            ),
        ),
        Some(site) => if site == "None"@ && !secure {
            Err(complaint(kind, "'same-site: None' requires 'secure: true'"@))
        } else if !attribute_value_spec(or_else(path, "/"@)) {
            Err(complaint(kind, "has an invalid 'path'"@))
        } else if domain is Some && !attribute_value_spec(domain->Some_0) {
            Err(complaint(kind, "has an invalid 'domain'"@))
        } else {
            Ok(attributes_text(or_else(path, "/"@), domain, site, http_only, secure))
        },
    }
}

/// The fixed part of a `Set-Cookie` as a block declares it, or the first thing wrong
/// with the block.
pub open spec fn attributes_spec(
    block: Map<Seq<char>, YamlView>,
    kind: Seq<char>,
    env: Map<Seq<char>, String>,
) -> Result<Seq<char>, Seq<char>> {
    match plugins::string_spec(block, "path"@, env) {
        Err(e) => Err(e),
        Ok(path) => match plugins::string_spec(block, "domain"@, env) {
            Err(e) => Err(e),
            Ok(domain) => match plugins::flag_spec(block, "secure"@, true) {
                Err(e) => Err(e),
                Ok(secure) => match plugins::flag_spec(block, "http-only"@, true) {
                    Err(e) => Err(e),
                    Ok(http_only) => match plugins::string_spec(block, "same-site"@, env) {
                        Err(e) => Err(e),
                        Ok(site) => attributes_of(kind, path, domain, secure, http_only, site),
                    },
                },
            },
        },
    }
}

/// Renders the fixed part of the `Set-Cookie`, refusing what would not survive being
/// written into a header, and what a browser would discard.
pub fn attributes(block: &StrMap<yaml_serde::Value>, kind: &str, env: &StrMap<String>) -> (r: Result<
    String,
    String,
>)
    ensures
        text::result_of(r) == attributes_spec(yaml::block_view(*block), kind@, env@),
{
    let path = match plugins::string(block, "path", env) {
        Ok(path) => path,
        Err(e) => {
            return Err(e);
        },
    };
    let domain = match plugins::string(block, "domain", env) {
        Ok(domain) => domain,
        Err(e) => {
            return Err(e);
        },
    };
    let secure = match plugins::flag_or(block, "secure", true) {
        Ok(secure) => secure,
        Err(e) => {
            return Err(e);
        },
    };
    let http_only = match plugins::flag_or(block, "http-only", true) {
        Ok(http_only) => http_only,
        Err(e) => {
            return Err(e);
        },
    };
    let given = match plugins::string(block, "same-site", env) {
        Ok(given) => given,
        Err(e) => {
            return Err(e);
        },
    };
    let site = match same_site(&given) {
        Some(site) => site,
        None => {
            let other = match &given {
                Some(s) => s.clone(),
                None => String::new(),
            };
            let what = text::cat3(
                "'same-site' must be Strict, Lax or None, not '",
                other.as_str(),
                "'",
            );
            return Err(complain(kind, what.as_str()));
        },
    };
    if text::same(site, "None") && !secure {
        return Err(complain(kind, "'same-site: None' requires 'secure: true'"));
    }
    let path = match path {
        Some(path) => path,
        None => "/".to_owned(),
    };
    if !is_attribute_value(path.as_str()) {
        return Err(complain(kind, "has an invalid 'path'"));
    }
    if let Some(domain) = &domain {
        if !is_attribute_value(domain.as_str()) {
            return Err(complain(kind, "has an invalid 'domain'"));
        }
    }
    let mut out = "; Path=".to_owned();
    out.append(path.as_str());
    if let Some(domain) = &domain {
        out.append("; Domain=");
        out.append(domain.as_str());
    }
    out.append("; SameSite=");
    out.append(site);
    if http_only {
        out.append("; HttpOnly");
    }
    if secure {
        out.append("; Secure");
    }
    Ok(out)
}

/// The cookie a block that could be read declares.
pub open spec fn cookie_of(
    block: Map<Seq<char>, YamlView>,
    kind: Seq<char>,
    env: Map<Seq<char>, String>,
    secret: Seq<char>,
    name: Seq<char>,
    ttl: u64,
) -> Result<CookieView, Seq<char>> {
    match plugins::string_spec(block, "issuer"@, env) {
        Err(e) => Err(e),
        Ok(issuer) => match plugins::string_spec(block, "audience"@, env) {
            Err(e) => Err(e),
            Ok(audience) => match attributes_spec(block, kind, env) {
                Err(e) => Err(e),
                Ok(attributes) => Ok(
                    CookieView { name, secret, issuer, audience, ttl: ttl as i64, attributes },
                ),
            },
        },
    }
}

/// The cookie a block declares, or the first thing wrong with it.
pub open spec fn block_spec(
    block: Map<Seq<char>, YamlView>,
    kind: Seq<char>,
    env: Map<Seq<char>, String>,
) -> Result<CookieView, Seq<char>> {
    match plugins::string_spec(block, "secret"@, env) {
        Err(e) => Err(e),
        Ok(given) => if given is None || given->Some_0.len() == 0 {
            Err(complaint(kind, "requires a non-empty 'secret'"@))
        } else {
            match plugins::string_spec(block, "name"@, env) {
                Err(e) => Err(e),
                Ok(named) => {
                    let name = or_else(named, DEFAULT_NAME@);
                    if !cookie_name_spec(name) {
                        Err(complaint(kind, "has an invalid cookie name '"@ + name + "'"@))
                    } else {
                        match plugins::number_spec(block, "ttl-seconds"@, DEFAULT_TTL_SECONDS) {
                            Err(e) => Err(e),
                            Ok(ttl) => if ttl == 0 {
                                Err(
                                    complaint(kind, "'ttl-seconds' must be greater than zero"@),
                                )
                            } else {
                                cookie_of(block, kind, env, given->Some_0, name, ttl)
                            },
                        }
                    }
                },
            }
        },
    }
}

/// The cookie a plugin's parameters declare, where they declare one.
pub open spec fn session_spec(
    params: Map<Seq<char>, YamlView>,
    kind: Seq<char>,
    env: Map<Seq<char>, String>,
) -> Result<Option<CookieView>, Seq<char>> {
    match plugins::mapping_spec(params, PARAM@) {
        Err(e) => Err(e),
        Ok(None) => Ok(None),
        Ok(Some(block)) => match block_spec(block, kind, env) {
            Ok(cookie) => Ok(Some(cookie)),
            Err(e) => Err(e),
        },
    }
}

/// What a cookie is made of, or the text of an error.
pub open spec fn cookie_result_of(r: Result<SessionCookie, String>) -> Result<
    CookieView,
    Seq<char>,
> {
    match r {
        Ok(cookie) => Ok(cookie@),
        Err(e) => Err(e@),
    }
}

/// What a cookie is made of where there is one, or the text of an error.
pub open spec fn opt_cookie_result_of(r: Result<Option<SessionCookie>, String>) -> Result<
    Option<CookieView>,
    Seq<char>,
> {
    match r {
        Ok(Some(cookie)) => Ok(Some(cookie@)),
        Ok(None) => Ok(None),
        Err(e) => Err(e@),
    }
}

/// Reads a block.
fn build_block(block: &StrMap<yaml_serde::Value>, kind: &str, env: &StrMap<String>) -> (r: Result<
    SessionCookie,
    String,
>)
    ensures
        cookie_result_of(r) == block_spec(yaml::block_view(*block), kind@, env@),
{
    let given = match plugins::string(block, "secret", env) {
        Ok(given) => given,
        Err(e) => {
            return Err(e);
        },
    };
    // The secret is what makes the cookie a credential: it has to be the one that the
    // plugin reading it was given.
    let secret = match given {
        Some(secret) => secret,
        None => {
            return Err(complain(kind, "requires a non-empty 'secret'"));
        },
    };
    if text::same(secret.as_str(), "") {
        proof {
            reveal_strlit("");
        }
        return Err(complain(kind, "requires a non-empty 'secret'"));
    }
    proof {
        reveal_strlit("");
        assert(secret@.len() == 0 ==> secret@ =~= ""@);
    }
    let name = match plugins::string(block, "name", env) {
        Ok(Some(name)) => name,
        Ok(None) => DEFAULT_NAME.to_owned(),
        Err(e) => {
            return Err(e);
        },
    };
    if !is_cookie_name(name.as_str()) {
        let what = text::cat3("has an invalid cookie name '", name.as_str(), "'");
        return Err(complain(kind, what.as_str()));
    }
    let ttl = match plugins::number(block, "ttl-seconds", DEFAULT_TTL_SECONDS) {
        Ok(ttl) => ttl,
        Err(e) => {
            return Err(e);
        },
    };
    if ttl == 0 {
        return Err(complain(kind, "'ttl-seconds' must be greater than zero"));
    }
    let issuer = match plugins::string(block, "issuer", env) {
        Ok(issuer) => issuer,
        Err(e) => {
            return Err(e);
        },
    };
    let audience = match plugins::string(block, "audience", env) {
        Ok(audience) => audience,
        Err(e) => {
            return Err(e);
        },
    };
    let attributes = match attributes(block, kind, env) {
        Ok(attributes) => attributes,
        Err(e) => {
            return Err(e);
        },
    };
    Ok(
        SessionCookie {
            name,
            key: TokenKey { secret, issuer, audience },
            ttl: ttl as i64,
            attributes,
        },
    )
}

/// Reads a `session-cookie:` block, where a plugin was given one. `kind` only names
/// the plugin in errors.
pub fn build(params: &StrMap<yaml_serde::Value>, kind: &str, env: &StrMap<String>) -> (r: Result<
    Option<SessionCookie>,
    String,
>)
    ensures
        opt_cookie_result_of(r) == session_spec(yaml::block_view(*params), kind@, env@),
{
    match plugins::mapping(params, PARAM) {
        Err(e) => Err(e),
        Ok(None) => Ok(None),
        Ok(Some(block)) => {
            match build_block(&block, kind, env) {
                Ok(cookie) => Ok(Some(cookie)),
                Err(e) => Err(e),
            }
        },
    }
}

/// When a session of `ttl` seconds from `now` ends: no later than the credential it
/// is made from.
pub open spec fn expires_spec(claims: Map<Seq<char>, JsonView>, now: i64, ttl: i64) -> i64 {
    let full = now.wrapping_add(ttl);
    if claims.contains_key("exp"@) {
        match json::floor_spec(claims["exp"@]) {
            Some(exp) => if exp <= full {
                exp
            } else {
                full
            },
            None => full,
        }
    } else {
        full
    }
}

/// The claims without those that describe the lookup rather than the caller.
pub open spec fn identity(claims: Map<Seq<char>, JsonView>) -> Map<Seq<char>, JsonView> {
    claims.remove("active"@).remove("token_type"@)
}

/// What a session token carries.
pub open spec fn payload_spec(
    cookie: CookieView,
    claims: Map<Seq<char>, JsonView>,
    now: i64,
) -> Map<Seq<char>, JsonView> {
    let who = identity(claims);
    let dated = who.insert("iat"@, JsonView::Int(now as int)).insert(
        "exp"@,
        JsonView::Int(expires_spec(who, now, cookie.ttl) as int),
    );
    let issued = match cookie.issuer {
        Some(issuer) => dated.insert("iss"@, JsonView::Text(issuer)),
        None => dated,
    };
    match cookie.audience {
        Some(audience) => issued.insert("aud"@, JsonView::Text(audience)),
        None => issued,
    }
}

/// The `Set-Cookie` that carries a session token.
pub open spec fn set_cookie_text(
    cookie: CookieView,
    token: Seq<char>,
    expires: i64,
    now: i64,
) -> Seq<char> {
    let left = expires.wrapping_sub(now);
    cookie.name + "="@ + token + "; Max-Age="@ + text::decimal(
        if left > 0 {
            left as nat
        } else {
            0
        },
    ) + cookie.attributes
}

/// The `Set-Cookie` for an identity at a moment, or the text of the error of signing.
pub open spec fn mint_spec(
    cookie: CookieView,
    claims: Map<Seq<char>, JsonView>,
    now: i64,
) -> Result<Seq<char>, Seq<char>> {
    match signed::jwt_signed(
        JsonView::Object(payload_spec(cookie, claims, now)),
        cookie.secret,
    ) {
        Ok(token) => Ok(
            set_cookie_text(
                cookie,
                token,
                expires_spec(identity(claims), now, cookie.ttl),
                now,
            ),
        ),
        Err(e) => Err(e),
    }
}

/// Whether the token made for an identity at a moment gives back what was signed.
pub open spec fn minted(cookie: CookieView, claims: Map<Seq<char>, JsonView>, now: i64) -> bool {
    let payload = JsonView::Object(payload_spec(cookie, claims, now));
    signed::jwt_signed(payload, cookie.secret) matches Ok(token) ==> signed::reads_back(
        token,
        cookie.secret,
        payload,
    )
}

/// The response headers for an identity: none where the caller carries a session that
/// verifies, or where no token could be signed.
pub open spec fn issue_spec(
    cookie: CookieView,
    carried: bool,
    claims: Map<Seq<char>, JsonView>,
    now: i64,
) -> Seq<(Seq<char>, Seq<char>)> {
    if carried {
        Seq::empty()
    } else {
        match mint_spec(cookie, claims, now) {
            Ok(value) => seq![("set-cookie"@, value)],
            Err(_) => Seq::empty(),
        }
    }
}

/// Whether a session, where the caller presents one, may verify at some time, or may
/// not.
pub open spec fn carries(cookie: CookieView, session: Option<Seq<char>>, verifies: bool) -> bool {
    match session {
        Some(token) => exists|unix: u64|
            verifies == (#[trigger] signed::decoded(
                token,
                cookie.secret,
                cookie.issuer,
                cookie.audience,
                unix,
            ) is Ok) && clock::calendar_reads(unix),
        None => !verifies,
    }
}

impl SessionCookie {
    /// The name of the cookie.
    pub fn name(&self) -> (r: &str)
        ensures
            r@ == self@.name,
    {
        self.name.as_str()
    }

    /// The claims a cookie vouches for, or `None` where it does not verify, has
    /// expired, or was made for another issuer or audience.
    pub fn claims(&self, cookie: &str) -> (r: Option<StrMap<Json>>)
        ensures
            match r {
                Some(claims) => self.key.vouches(cookie@, json::fields(claims)),
                None => exists|kind: Seq<char>| #[trigger] self.key.refuses(cookie@, kind),
            },
    {
        match self.key.verify(cookie) {
            Ok(claims) => Some(claims),
            Err(_) => None,
        }
    }

    /// The `Set-Cookie` for an identity at a moment.
    pub fn mint_at(&self, claims: &StrMap<Json>, now: i64) -> (r: Result<String, String>)
        ensures
            text::result_of(r) == mint_spec(self@, json::fields(*claims), now),
            minted(self@, json::fields(*claims), now),
    {
        let mut payload = json::copy_object(claims);
        let _ = json::drop_field(&mut payload, "active");
        let _ = json::drop_field(&mut payload, "token_type");
        let full = now.wrapping_add(self.ttl);
        let expires: i64 = match json::get_field(&payload, "exp") {
            Some(value) => {
                match value.floor() {
                    Some(exp) => if exp <= full {
                        exp
                    } else {
                        full
                    },
                    None => full,
                }
            },
            None => full,
        };
        json::put_field(&mut payload, "iat".to_owned(), Json::Numeric(Numeric::Neg(now)));
        json::put_field(&mut payload, "exp".to_owned(), Json::Numeric(Numeric::Neg(expires)));
        if let Some(issuer) = &self.key.issuer {
            json::put_field(&mut payload, "iss".to_owned(), Json::Text(issuer.clone()));
        }
        if let Some(audience) = &self.key.audience {
            json::put_field(&mut payload, "aud".to_owned(), Json::Text(audience.clone()));
        }
        match self.key.sign(payload) {
            Err(e) => Err(e),
            Ok(token) => {
                let left: i64 = expires.wrapping_sub(now);
                let age = text::u64_text(
                    if left > 0 {
                        left as u64
                    } else {
                        0
                    },
                );
                let mut out = text::cat5(
                    self.name.as_str(),
                    "=",
                    token.as_str(),
                    "; Max-Age=",
                    age.as_str(),
                );
                out.append(self.attributes.as_str());
                Ok(out)
            },
        }
    }

    /// The response headers for an identity at a moment. Nothing is issued where the
    /// request carries a session that still verifies: a session runs out rather than
    /// being stamped anew on every response.
    pub fn issue_at(&self, carried: bool, claims: &StrMap<Json>, now: i64) -> (r: Vec<
        (String, String),
    >)
        ensures
            text::pairs_view(r@) == issue_spec(self@, carried, json::fields(*claims), now),
    {
        let mut out: Vec<(String, String)> = Vec::new();
        if !carried {
            // A request that authenticated does not fail over a cookie that could not
            // be signed; its caller gets no session.
            if let Ok(value) = self.mint_at(claims, now) {
                out.push(("set-cookie".to_owned(), value));
            }
        }
        proof {
            assert(text::pairs_view(out@) =~= issue_spec(self@, carried, json::fields(*claims), now));
        }
        out
    }

    /// The response headers for an identity a plugin just verified.
    pub fn issue(&self, credential: Credential<'_>, claims: &StrMap<Json>) -> (r: Vec<
        (String, String),
    >)
        ensures
            exists|carried: bool, now: i64|
                clock::calendar_shows(now) && text::pairs_view(r@) == #[trigger] issue_spec(
                    self@,
                    carried,
                    json::fields(*claims),
                    now,
                ) && carries(self@, signed::slice_of(credential.session), carried),
    {
        let carried = match credential.session {
            Some(cookie) => self.claims(cookie).is_some(),
            None => false,
        };
        self.issue_at(carried, claims, clock::unix_now())
    }
}

/// The value of the first cookie called `name` among the pieces of a jar.
pub open spec fn jar_find(pieces: Seq<Seq<char>>, name: Seq<char>) -> Option<Seq<char>>
    decreases pieces.len(),
{
    if pieces.len() == 0 {
        None
    } else {
        match text::split_once_spec(pieces[0], '=') {
            Some((key, value)) => if text::trim_spec(key) == name {
                Some(text::trim_spec(value))
            } else {
                jar_find(pieces.drop_first(), name)
            },
            None => jar_find(pieces.drop_first(), name),
        }
    }
}

/// The value of the first cookie called `name` in a jar, where it is not empty.
pub open spec fn from_jar_spec(jar: Seq<char>, name: Seq<char>) -> Option<Seq<char>> {
    match jar_find(text::split_spec(jar, ';'), name) {
        Some(value) => if value.len() == 0 {
            None
        } else {
            Some(value)
        },
        None => None,
    }
}

/// One cookie's value out of a `Cookie:` header, where it is there and not empty.
pub fn from_jar<'a>(jar: Option<&'a str>, name: &str) -> (r: Option<&'a str>)
    ensures
        match (jar, r) {
            (None, r) => r is None,
            (Some(jar), Some(value)) => from_jar_spec(jar@, name@) == Some(value@),
            (Some(jar), None) => from_jar_spec(jar@, name@) is None,
        },
{
    let held = match jar {
        Some(held) => held,
        None => {
            return None;
        },
    };
    let pieces = text::split(held, ';');
    let ghost all = text::slices(pieces@);
    let mut i: usize = 0;
    proof {
        assert(all.skip(0) =~= all);
    }
    while i < pieces.len()
        invariant
            i <= pieces@.len(),
            all == text::slices(pieces@),
            all == text::split_spec(held@, ';'),
            jar matches Some(j) && j@ == held@,
            jar_find(all, name@) == jar_find(all.skip(i as int), name@),
        decreases pieces@.len() - i,
    {
        proof {
            assert(all.skip(i as int)[0] == pieces@[i as int]@);
            assert(all.skip(i as int).drop_first() =~= all.skip(i + 1));
        }
        if let Some((key, value)) = text::split_once(pieces[i], '=') {
            if text::same(text::trim(key), name) {
                let value = text::trim(value);
                if text::same(value, "") {
                    proof {
                        reveal_strlit("");
                    }
                    return None;
                }
                proof {
                    reveal_strlit("");
                    assert(value@.len() == 0 ==> value@ =~= ""@);
                }
                return Some(value);
            }
        }
        i = i + 1;
    }
    None
}

/// What a piece of a jar is called.
pub open spec fn piece_key(piece: Seq<char>) -> Seq<char> {
    match text::split_once_spec(piece, '=') {
        Some((key, _)) => text::trim_spec(key),
        None => text::trim_spec(piece),
    }
}

/// Whether a piece of a jar, white space aside, is kept when `names` are withheld.
pub open spec fn kept(piece: Seq<char>, names: Seq<Seq<char>>) -> bool {
    text::trim_spec(piece).len() > 0 && !names.contains(piece_key(text::trim_spec(piece)))
}

/// The pieces of a jar that are kept when `names` are withheld.
pub open spec fn kept_pieces(pieces: Seq<Seq<char>>, names: Seq<Seq<char>>) -> Seq<Seq<char>>
    decreases pieces.len(),
{
    if pieces.len() == 0 {
        Seq::empty()
    } else if kept(pieces.last(), names) {
        kept_pieces(pieces.drop_last(), names).push(text::trim_spec(pieces.last()))
    } else {
        kept_pieces(pieces.drop_last(), names)
    }
}

/// A jar without the cookies called `names`, where any is left.
pub open spec fn without_spec(jar: Seq<char>, names: Seq<Seq<char>>) -> Option<Seq<char>> {
    let left = kept_pieces(text::split_spec(jar, ';'), names);
    if left.len() == 0 {
        None
    } else {
        Some(text::join_spec(left, "; "@))
    }
}

/// A `Cookie:` header without the gateway's own cookies, or `None` where nothing is
/// left to forward. Only the named cookies go: the rest belongs to the application.
pub fn without(jar: &str, names: &Vec<String>) -> (r: Option<String>)
    ensures
        text::opt_of(r) == without_spec(jar@, text::texts(names@)),
{
    let pieces = text::split(jar, ';');
    let ghost all = text::slices(pieces@);
    let mut out: Vec<&str> = Vec::new();
    let mut i: usize = 0;
    proof {
        assert(all.take(0) =~= Seq::empty());
        assert(text::slices(out@) =~= Seq::empty());
    }
    while i < pieces.len()
        invariant
            i <= pieces@.len(),
            all == text::slices(pieces@),
            text::slices(out@) == kept_pieces(all.take(i as int), text::texts(names@)),
        decreases pieces@.len() - i,
    {
        let piece = text::trim(pieces[i]);
        proof {
            assert(all.take(i + 1).drop_last() =~= all.take(i as int));
            assert(all.take(i + 1).last() == pieces@[i as int]@);
            reveal_strlit("");
            assert(piece@.len() == 0 ==> piece@ =~= ""@);
        }
        if !text::same(piece, "") {
            let key = match text::split_once(piece, '=') {
                Some((key, _)) => text::trim(key),
                None => text::trim(piece),
            };
            if !text::contains_text(names, key) {
                let ghost front = text::slices(out@);
                out.push(piece);
                proof {
                    assert(text::slices(out@) =~= front.push(piece@));
                }
            }
        }
        i = i + 1;
    }
    proof {
        assert(all.take(i as int) =~= all);
    }
    if out.len() == 0 {
        None
    } else {
        Some(text::join(&out, "; "))
    }
}

/// What a piece of a jar gives a name, and the value.
pub open spec fn piece_entry(piece: Seq<char>) -> Option<(Seq<char>, Seq<char>)> {
    match text::split_once_spec(piece, '=') {
        Some((key, value)) => Some((text::trim_spec(key), text::trim_spec(value))),
        None => None,
    }
}

/// White space before a text is nothing to trimming.
proof fn lemma_trim_front(c: char, s: Seq<char>)
    requires
        text::is_space(c),
    ensures
        text::trim_spec(seq![c] + s) == text::trim_spec(s),
{
    assert((seq![c] + s).drop_first() =~= s);
}

/// White space behind a text is nothing to trimming.
proof fn lemma_trim_back(s: Seq<char>, c: char)
    requires
        text::is_space(c),
    ensures
        text::trim_start_spec(s.push(c)) == text::trim_start_spec(s).push(c) || (
        text::trim_start_spec(s.push(c)).len() == 0 && text::trim_start_spec(s).len() == 0),
        text::trim_spec(s.push(c)) == text::trim_spec(s),
    decreases s.len(),
{
    if s.len() > 0 && text::is_space(s[0]) {
        assert(s.push(c).drop_first() =~= s.drop_first().push(c));
        lemma_trim_back(s.drop_first(), c);
    } else if s.len() == 0 {
        assert(s.push(c).drop_first() =~= s);
        assert(text::trim_start_spec(s.push(c)) == text::trim_start_spec(s));
    }
    let t = text::trim_start_spec(s);
    if text::trim_start_spec(s.push(c)) == t.push(c) {
        assert(t.push(c).drop_last() =~= t);
    } else {
        assert(text::trim_start_spec(s.push(c)) =~= t);
    }
}

/// White space before a piece does not change what it gives.
proof fn lemma_entry_front(c: char, piece: Seq<char>)
    requires
        text::is_space(c),
    ensures
        piece_entry(seq![c] + piece) == piece_entry(piece),
{
    let p = seq![c] + piece;
    let at = text::find_spec(piece, '=');
    text::lemma_find(piece, '=');
    assert(p.drop_first() =~= piece);
    assert(text::find_spec(p, '=') == 1 + at);
    if at < piece.len() {
        assert(p.take(1 + at) =~= seq![c] + piece.take(at));
        assert(p.skip(2 + at) =~= piece.skip(at + 1));
        lemma_trim_front(c, piece.take(at));
    }
}

/// White space behind a piece does not change what it gives.
proof fn lemma_entry_back(piece: Seq<char>, c: char)
    requires
        text::is_space(c),
    ensures
        piece_entry(piece.push(c)) == piece_entry(piece),
{
    let p = piece.push(c);
    let at = text::find_spec(piece, '=');
    text::lemma_find(piece, '=');
    if at < piece.len() {
        text::lemma_find_is(p, '=', at);
        assert(p.take(at) =~= piece.take(at));
        assert(p.skip(at + 1) =~= piece.skip(at + 1).push(c));
        lemma_trim_back(piece.skip(at + 1), c);
    } else {
        assert forall|k: int| 0 <= k < p.len() implies p[k] != '=' by {
            if k < piece.len() {
                assert(piece[k] != '=');
            }
        }
        text::lemma_find_is(p, '=', p.len() as int);
    }
}

/// The white space on either side of a piece does not change what it gives.
proof fn lemma_entry_trim_start(piece: Seq<char>)
    ensures
        piece_entry(text::trim_start_spec(piece)) == piece_entry(piece),
    decreases piece.len(),
{
    if piece.len() > 0 && text::is_space(piece[0]) {
        lemma_entry_trim_start(piece.drop_first());
        lemma_entry_front(piece[0], piece.drop_first());
        assert(seq![piece[0]] + piece.drop_first() =~= piece);
    }
}

/// The white space behind a piece does not change what it gives.
proof fn lemma_entry_trim_end(piece: Seq<char>)
    ensures
        piece_entry(text::trim_end_spec(piece)) == piece_entry(piece),
    decreases piece.len(),
{
    if piece.len() > 0 && text::is_space(piece.last()) {
        lemma_entry_trim_end(piece.drop_last());
        lemma_entry_back(piece.drop_last(), piece.last());
        assert(piece.drop_last().push(piece.last()) =~= piece);
    }
}

/// Trimming takes characters away and adds none.
pub proof fn lemma_trim_keeps_out(s: Seq<char>, c: char)
    requires
        !s.contains(c),
    ensures
        !text::trim_start_spec(s).contains(c),
        !text::trim_end_spec(s).contains(c),
    decreases s.len(),
{
    if s.len() > 0 {
        assert forall|k: int| 0 <= k < s.drop_first().len() implies s.drop_first()[k] != c by {
            assert(s.contains(s[k + 1]));
        }
        assert forall|k: int| 0 <= k < s.drop_last().len() implies s.drop_last()[k] != c by {
            assert(s.contains(s[k]));
        }
        lemma_trim_keeps_out(s.drop_first(), c);
        lemma_trim_keeps_out(s.drop_last(), c);
    }
}

/// No piece of a split holds the separator.
pub proof fn lemma_split_keeps_out(s: Seq<char>, sep: char)
    ensures
        text::split_spec(s, sep).len() > 0,
        forall|i: int|
            0 <= i < text::split_spec(s, sep).len() ==> !(#[trigger] text::split_spec(
                s,
                sep,
            )[i]).contains(sep),
    decreases s.len(),
{
    text::lemma_find(s, sep);
    let at = text::find_spec(s, sep);
    let pieces = text::split_spec(s, sep);
    if at < s.len() {
        lemma_split_keeps_out(s.skip(at + 1), sep);
        let rest = text::split_spec(s.skip(at + 1), sep);
        assert forall|i: int| 0 <= i < pieces.len() implies !(#[trigger] pieces[i]).contains(
            sep,
        ) by {
            if i == 0 {
                assert(pieces[0] == s.take(at));
                assert forall|k: int| 0 <= k < at implies s.take(at)[k] != sep by {
                    assert(s[k] != sep);
                }
            } else {
                assert(pieces[i] == rest[i - 1]);
            }
        }
    } else {
        assert(pieces[0] == s);
    }
}

/// A text is cut at the first separator in it.
pub proof fn lemma_split_front(head: Seq<char>, sep: char, rest: Seq<char>)
    requires
        !head.contains(sep),
    ensures
        text::split_spec(head + seq![sep] + rest, sep) == seq![head] + text::split_spec(rest, sep),
{
    let s = head + seq![sep] + rest;
    let at = head.len() as int;
    assert forall|k: int| 0 <= k < at implies s[k] != sep by {
        assert(s[k] == head[k]);
        assert(head.contains(head[k]));
    }
    text::lemma_find_is(s, sep, at);
    assert(s.take(at) =~= head);
    assert(s.skip(at + 1) =~= rest);
}

/// A text without the separator is one piece.
pub proof fn lemma_split_whole(s: Seq<char>, sep: char)
    requires
        !s.contains(sep),
    ensures
        text::split_spec(s, sep) == seq![s],
{
    assert forall|k: int| 0 <= k < s.len() implies s[k] != sep by {
        assert(s.contains(s[k]));
    }
    text::lemma_find_is(s, sep, s.len() as int);
}

/// A joined list begins with its first text.
pub proof fn lemma_join_front(parts: Seq<Seq<char>>, sep: Seq<char>)
    requires
        parts.len() > 1,
    ensures
        text::join_spec(parts, sep) == parts[0] + sep + text::join_spec(parts.drop_first(), sep),
    decreases parts.len(),
{
    if parts.len() == 2 {
        assert(parts.drop_last() =~= seq![parts[0]]);
        assert(parts.drop_first() =~= seq![parts[1]]);
        assert(text::join_spec(seq![parts[0]], sep) == parts[0]);
        assert(text::join_spec(seq![parts[1]], sep) == parts[1]);
    } else {
        lemma_join_front(parts.drop_last(), sep);
        assert(parts.drop_last().drop_first() =~= parts.drop_first().drop_last());
        assert(parts.drop_first().last() == parts.last());
        assert(text::join_spec(parts, sep) =~= parts[0] + sep + text::join_spec(
            parts.drop_first(),
            sep,
        ));
    }
}

/// Joining pieces into a jar and looking into the jar finds what is in the pieces.
proof fn lemma_joined_jar(lead: Seq<char>, parts: Seq<Seq<char>>, name: Seq<char>)
    requires
        parts.len() > 0,
        lead.len() == 0 || lead == seq![' '],
        forall|i: int| 0 <= i < parts.len() ==> !(#[trigger] parts[i]).contains(';'),
    ensures
        jar_find(text::split_spec(lead + text::join_spec(parts, "; "@), ';'), name) == jar_find(
            parts,
            name,
        ),
    decreases parts.len(),
{
    reveal_strlit("; ");
    let first = lead + parts[0];
    assert(!first.contains(';')) by {
        assert forall|k: int| 0 <= k < first.len() implies first[k] != ';' by {
            if k >= lead.len() {
                assert(parts[0].contains(parts[0][k - lead.len()]));
            }
        }
    }
    assert(piece_entry(first) == piece_entry(parts[0])) by {
        if lead.len() == 0 {
            assert(first =~= parts[0]);
        } else {
            lemma_entry_front(' ', parts[0]);
        }
    }
    let whole = lead + text::join_spec(parts, "; "@);
    if parts.len() == 1 {
        lemma_split_whole(first, ';');
        assert(whole =~= first);
        assert(text::split_spec(whole, ';') =~= seq![first]);
        assert(seq![first].drop_first() =~= parts.drop_first());
    } else {
        lemma_join_front(parts, "; "@);
        let rest = parts.drop_first();
        assert forall|i: int| 0 <= i < rest.len() implies !(#[trigger] rest[i]).contains(';') by {
            assert(rest[i] == parts[i + 1]);
        }
        let tail = seq![' '] + text::join_spec(rest, "; "@);
        assert(whole =~= first + seq![';'] + tail);
        lemma_split_front(first, ';', tail);
        lemma_joined_jar(seq![' '], rest, name);
        let pieces = seq![first] + text::split_spec(tail, ';');
        assert(pieces.drop_first() =~= text::split_spec(tail, ';'));
    }
}

/// The piece at the end of a jar counts where no piece before it does.
proof fn lemma_jar_push(pieces: Seq<Seq<char>>, piece: Seq<char>, name: Seq<char>)
    ensures
        jar_find(pieces.push(piece), name) == match jar_find(pieces, name) {
            Some(value) => Some(value),
            None => match piece_entry(piece) {
                Some((key, value)) => if key == name {
                    Some(value)
                } else {
                    None
                },
                None => None,
            },
        },
    decreases pieces.len(),
{
    if pieces.len() == 0 {
        assert(pieces.push(piece).drop_first() =~= pieces);
    } else {
        assert(pieces.push(piece).drop_first() =~= pieces.drop_first().push(piece));
        lemma_jar_push(pieces.drop_first(), piece, name);
    }
}

/// Withholding cookies takes the named ones out of the pieces and no others.
proof fn lemma_kept_pieces(pieces: Seq<Seq<char>>, names: Seq<Seq<char>>, name: Seq<char>)
    requires
        forall|i: int| 0 <= i < pieces.len() ==> !(#[trigger] pieces[i]).contains(';'),
    ensures
        jar_find(kept_pieces(pieces, names), name) == if names.contains(name) {
            None
        } else {
            jar_find(pieces, name)
        },
        forall|i: int|
            0 <= i < kept_pieces(pieces, names).len() ==> !(#[trigger] kept_pieces(
                pieces,
                names,
            )[i]).contains(';'),
    decreases pieces.len(),
{
    if pieces.len() > 0 {
        let front = pieces.drop_last();
        let piece = pieces.last();
        assert forall|i: int| 0 <= i < front.len() implies !(#[trigger] front[i]).contains(';') by {
            assert(front[i] == pieces[i]);
        }
        lemma_kept_pieces(front, names, name);
        assert(pieces =~= front.push(piece));
        lemma_jar_push(front, piece, name);
        lemma_entry_trim_start(piece);
        lemma_entry_trim_end(text::trim_start_spec(piece));
        let trimmed = text::trim_spec(piece);
        assert(piece_entry(trimmed) == piece_entry(piece));
        assert(!piece.contains(';')) by {
            assert(pieces[pieces.len() - 1] == piece);
        }
        lemma_trim_keeps_out(piece, ';');
        lemma_trim_keeps_out(text::trim_start_spec(piece), ';');
        if kept(piece, names) {
            lemma_jar_push(kept_pieces(front, names), trimmed, name);
        }
    }
}

/// Withholding cookies takes the named ones out of a jar and leaves every other one
/// readable as it was.
pub proof fn law_only_the_named_cookies_are_withheld(
    jar: Seq<char>,
    names: Seq<Seq<char>>,
    name: Seq<char>,
)
    ensures
        match without_spec(jar, names) {
            Some(left) => from_jar_spec(left, name) == if names.contains(name) {
                None
            } else {
                from_jar_spec(jar, name)
            },
            None => names.contains(name) || from_jar_spec(jar, name) is None,
        },
{
    let pieces = text::split_spec(jar, ';');
    let left = kept_pieces(pieces, names);
    lemma_split_keeps_out(jar, ';');
    lemma_kept_pieces(pieces, names, name);
    if left.len() > 0 {
        lemma_joined_jar(Seq::empty(), left, name);
        let joined = text::join_spec(left, "; "@);
        assert(Seq::empty() + joined =~= joined);
    }
}

/// Trimming at the end leaves the front, and no white space at the end.
proof fn lemma_trim_end_ends(s: Seq<char>)
    ensures
        text::trim_end_spec(s).len() <= s.len(),
        text::trim_end_spec(s).is_prefix_of(s),
        text::trim_end_spec(s).len() > 0 ==> !text::is_space(text::trim_end_spec(s).last()),
    decreases s.len(),
{
    if s.len() > 0 && text::is_space(s.last()) {
        lemma_trim_end_ends(s.drop_last());
        let t = text::trim_end_spec(s);
        assert(t =~= s.take(t.len() as int));
    } else {
        assert(s =~= s.take(s.len() as int));
    }
}

/// Trimming at the start leaves no white space there.
proof fn lemma_trim_start_starts(s: Seq<char>)
    ensures
        text::trim_start_spec(s).len() > 0 ==> !text::is_space(text::trim_start_spec(s)[0]),
    decreases s.len(),
{
    if s.len() > 0 && text::is_space(s[0]) {
        lemma_trim_start_starts(s.drop_first());
    }
}

/// What was trimmed stays as it is.
proof fn lemma_trim_twice(s: Seq<char>)
    ensures
        text::trim_spec(text::trim_spec(s)) == text::trim_spec(s),
{
    let t = text::trim_start_spec(s);
    let u = text::trim_spec(s);
    lemma_trim_start_starts(s);
    lemma_trim_end_ends(t);
    if u.len() > 0 {
        assert(u[0] == t[0]);
    }
}

/// Whether a piece of a jar stands trimmed, and is kept when `names` are withheld.
spec fn settled(piece: Seq<char>, names: Seq<Seq<char>>) -> bool {
    text::trim_spec(piece) == piece && kept(piece, names) && !piece.contains(';')
}

/// The pieces that are kept are settled.
proof fn lemma_kept_settle(pieces: Seq<Seq<char>>, names: Seq<Seq<char>>)
    requires
        forall|i: int| 0 <= i < pieces.len() ==> !(#[trigger] pieces[i]).contains(';'),
    ensures
        forall|i: int|
            0 <= i < kept_pieces(pieces, names).len() ==> settled(
                #[trigger] kept_pieces(pieces, names)[i],
                names,
            ),
    decreases pieces.len(),
{
    if pieces.len() > 0 {
        let front = pieces.drop_last();
        let piece = pieces.last();
        assert forall|i: int| 0 <= i < front.len() implies !(#[trigger] front[i]).contains(';') by {
            assert(front[i] == pieces[i]);
        }
        lemma_kept_settle(front, names);
        assert(!piece.contains(';')) by {
            assert(pieces[pieces.len() - 1] == piece);
        }
        lemma_trim_keeps_out(piece, ';');
        lemma_trim_keeps_out(text::trim_start_spec(piece), ';');
        lemma_trim_twice(piece);
        let all = kept_pieces(pieces, names);
        let had = kept_pieces(front, names);
        assert forall|i: int| 0 <= i < all.len() implies settled(#[trigger] all[i], names) by {
            if i < had.len() {
                assert(all[i] == had[i]);
                assert(settled(had[i], names));
            } else {
                assert(all[i] == text::trim_spec(piece));
            }
        }
    }
}

/// The first of some pieces is kept or not, whatever stands behind it.
proof fn lemma_kept_front(first: Seq<char>, rest: Seq<Seq<char>>, names: Seq<Seq<char>>)
    requires
        kept(first, names),
    ensures
        kept_pieces(seq![first] + rest, names) == seq![text::trim_spec(first)] + kept_pieces(
            rest,
            names,
        ),
    decreases rest.len(),
{
    let whole = seq![first] + rest;
    let lead = seq![text::trim_spec(first)];
    if rest.len() == 0 {
        assert(whole =~= seq![first]);
        assert(whole.drop_last() =~= Seq::empty());
        assert(kept_pieces(whole.drop_last(), names) =~= Seq::empty());
        assert(kept_pieces(rest, names) =~= Seq::empty());
        assert(whole.last() == first);
        assert(kept_pieces(whole, names) =~= lead + kept_pieces(rest, names));
    } else {
        lemma_kept_front(first, rest.drop_last(), names);
        assert(whole.drop_last() =~= seq![first] + rest.drop_last());
        assert(kept_pieces(whole, names) =~= lead + kept_pieces(rest, names));
    }
}

/// Settled pieces that are joined into a jar are what is kept of the jar.
proof fn lemma_joined_kept(lead: Seq<char>, parts: Seq<Seq<char>>, names: Seq<Seq<char>>)
    requires
        parts.len() > 0,
        lead.len() == 0 || lead == seq![' '],
        forall|i: int| 0 <= i < parts.len() ==> settled(#[trigger] parts[i], names),
    ensures
        kept_pieces(
            text::split_spec(lead + text::join_spec(parts, "; "@), ';'),
            names,
        ) == parts,
    decreases parts.len(),
{
    reveal_strlit("; ");
    let first = lead + parts[0];
    assert(settled(parts[0], names));
    assert(!first.contains(';')) by {
        assert forall|k: int| 0 <= k < first.len() implies first[k] != ';' by {
            if k >= lead.len() {
                assert(parts[0].contains(parts[0][k - lead.len()]));
            }
        }
    }
    assert(text::trim_spec(first) == parts[0]) by {
        if lead.len() == 0 {
            assert(first =~= parts[0]);
        } else {
            lemma_trim_front(' ', parts[0]);
        }
    }
    let whole = lead + text::join_spec(parts, "; "@);
    if parts.len() == 1 {
        lemma_split_whole(first, ';');
        assert(whole =~= first);
        lemma_kept_front(first, Seq::empty(), names);
        assert(seq![first] + Seq::<Seq<char>>::empty() =~= seq![first]);
        assert(seq![parts[0]] + Seq::<Seq<char>>::empty() =~= parts);
    } else {
        lemma_join_front(parts, "; "@);
        let rest = parts.drop_first();
        assert forall|i: int| 0 <= i < rest.len() implies settled(#[trigger] rest[i], names) by {
            assert(rest[i] == parts[i + 1]);
        }
        let tail = seq![' '] + text::join_spec(rest, "; "@);
        assert(whole =~= first + seq![';'] + tail);
        lemma_split_front(first, ';', tail);
        lemma_joined_kept(seq![' '], rest, names);
        lemma_kept_front(first, text::split_spec(tail, ';'), names);
        assert(seq![parts[0]] + rest =~= parts);
    }
}

/// Withholding cookies twice is withholding them once.
pub proof fn law_withholding_twice_is_withholding_once(jar: Seq<char>, names: Seq<Seq<char>>)
    ensures
        without_spec(jar, names) matches Some(left) ==> without_spec(left, names) == Some(left),
{
    let pieces = text::split_spec(jar, ';');
    let left = kept_pieces(pieces, names);
    lemma_split_keeps_out(jar, ';');
    lemma_kept_settle(pieces, names);
    if left.len() > 0 {
        lemma_joined_kept(Seq::empty(), left, names);
        let joined = text::join_spec(left, "; "@);
        assert(Seq::empty() + joined =~= joined);
    }
}

/// A session never outlives the credential it is made from: where the claims say when
/// that one ends, by whatever number, the session ends no later; and it ends no later
/// than its lifetime. A number below all that fit makes a session that ended before all
/// times that do.
pub proof fn law_a_session_never_outlives_its_credential(
    cookie: CookieView,
    claims: Map<Seq<char>, JsonView>,
    now: i64,
)
    ensures
        ({
            let payload = payload_spec(cookie, claims, now);
            &&& payload.contains_key("exp"@)
            &&& payload["exp"@] is Int
            &&& payload["exp"@]->Int_0 <= now.wrapping_add(cookie.ttl)
            &&& claims.contains_key("exp"@) ==> (json::whole_below(
                claims["exp"@],
            ) matches Some(end) ==> payload["exp"@]->Int_0 <= end || payload["exp"@]->Int_0
                == i64::MIN)
        }),
{
    lemma_names();
}

/// The claims that only say how a lookup went are never signed into a session.
pub proof fn law_a_session_leaves_the_lookup_out(
    cookie: CookieView,
    claims: Map<Seq<char>, JsonView>,
    now: i64,
)
    ensures
        !payload_spec(cookie, claims, now).contains_key("active"@),
        !payload_spec(cookie, claims, now).contains_key("token_type"@),
{
    lemma_names();
}

/// The names of the claims a session sets or drops are all different.
proof fn lemma_names()
    ensures
        "exp"@ != "iat"@,
        "exp"@ != "iss"@,
        "exp"@ != "aud"@,
        "exp"@ != "active"@,
        "exp"@ != "token_type"@,
        "iat"@ != "iss"@,
        "iat"@ != "aud"@,
        "iat"@ != "active"@,
        "iat"@ != "token_type"@,
        "iss"@ != "aud"@,
        "iss"@ != "active"@,
        "iss"@ != "token_type"@,
        "aud"@ != "active"@,
        "aud"@ != "token_type"@,
{
    reveal_strlit("exp");
    reveal_strlit("iat");
    reveal_strlit("iss");
    reveal_strlit("aud");
    reveal_strlit("active");
    reveal_strlit("token_type");
    assert("exp"@[0] == 'e' && "iat"@[0] == 'i' && "iat"@[1] == 'a' && "iss"@[0] == 'i'
        && "iss"@[1] == 's' && "aud"@[0] == 'a');
    assert("aud"@.len() == 3 && "active"@.len() == 6);
}

/// Whether a claim is one that a session sets or drops.
pub open spec fn stamped(name: Seq<char>) -> bool {
    name == "exp"@ || name == "iat"@ || name == "iss"@ || name == "aud"@ || name == "active"@ || name
        == "token_type"@
}

/// What is signed into a session has whole numbers only where the claims do.
proof fn lemma_payload_whole(
    cookie: CookieView,
    claims: Map<Seq<char>, JsonView>,
    now: i64,
    whole: JsonView,
    payload: JsonView,
)
    requires
        whole == JsonView::Object(claims),
        signed::all_whole(whole),
        payload == JsonView::Object(payload_spec(cookie, claims, now)),
    ensures
        signed::all_whole(payload),
{
    let m = payload_spec(cookie, claims, now);
    assert forall|k: Seq<char>| m.contains_key(k) implies signed::all_whole(#[trigger] m[k]) by {
        if claims.contains_key(k) && m[k] == claims[k] {
            assert(whole->Object_0.contains_key(k));
            assert(signed::all_whole(whole->Object_0[k]));
        } else {
            assert(m[k] is Int || m[k] is Text);
        }
    }
}

/// What a session vouches for is what was signed into it: a cookie minted from claims of
/// whole numbers, wherever it verifies, gives every claim of the caller back.
pub proof fn law_a_session_reads_back(
    cookie: CookieView,
    claims: Map<Seq<char>, JsonView>,
    now: i64,
    key: TokenKey,
    token: Seq<char>,
    read: Map<Seq<char>, JsonView>,
)
    requires
        signed::all_whole(JsonView::Object(claims)),
        key.secret@ == cookie.secret,
        signed::jwt_signed(JsonView::Object(payload_spec(cookie, claims, now)), cookie.secret)
            == Ok::<Seq<char>, Seq<char>>(token),
        key.vouches(token, read),
    ensures
        read == payload_spec(cookie, claims, now),
        forall|k: Seq<char>|
            claims.contains_key(k) && !stamped(k) ==> read.contains_key(k) && #[trigger] read[k]
                == claims[k],
        forall|k: Seq<char>|
            #[trigger] read.contains_key(k) && !stamped(k) ==> claims.contains_key(k),
{
    let payload = JsonView::Object(payload_spec(cookie, claims, now));
    lemma_payload_whole(cookie, claims, now, JsonView::Object(claims), payload);
}

/// A session made for one issuer does not verify for another.
pub proof fn law_another_issuers_session_is_refused(
    cookie: CookieView,
    claims: Map<Seq<char>, JsonView>,
    now: i64,
    key: TokenKey,
    token: Seq<char>,
    read: Map<Seq<char>, JsonView>,
)
    requires
        signed::all_whole(JsonView::Object(claims)),
        key.secret@ == cookie.secret,
        signed::jwt_signed(JsonView::Object(payload_spec(cookie, claims, now)), cookie.secret)
            == Ok::<Seq<char>, Seq<char>>(token),
        cookie.issuer is Some,
        text::opt_of(key.issuer) is Some,
        text::opt_of(key.issuer) != cookie.issuer,
    ensures
        !key.vouches(token, read),
{
    lemma_names();
    let payload = payload_spec(cookie, claims, now);
    lemma_payload_whole(
        cookie,
        claims,
        now,
        JsonView::Object(claims),
        JsonView::Object(payload),
    );
    assert(payload["iss"@] == JsonView::Text(cookie.issuer->Some_0));
    if key.vouches(token, read) {
        assert(JsonView::Object(payload) == JsonView::Object(read));
        assert(text::opt_of(key.issuer) == Some(text::opt_of(key.issuer)->Some_0));
        assert(false);
    }
}

/// A session made for one audience does not verify for another.
pub proof fn law_another_audiences_session_is_refused(
    cookie: CookieView,
    claims: Map<Seq<char>, JsonView>,
    now: i64,
    key: TokenKey,
    token: Seq<char>,
    read: Map<Seq<char>, JsonView>,
)
    requires
        signed::all_whole(JsonView::Object(claims)),
        key.secret@ == cookie.secret,
        signed::jwt_signed(JsonView::Object(payload_spec(cookie, claims, now)), cookie.secret)
            == Ok::<Seq<char>, Seq<char>>(token),
        cookie.audience is Some,
        text::opt_of(key.audience) is Some,
        text::opt_of(key.audience) != cookie.audience,
    ensures
        !key.vouches(token, read),
{
    lemma_names();
    let payload = payload_spec(cookie, claims, now);
    lemma_payload_whole(
        cookie,
        claims,
        now,
        JsonView::Object(claims),
        JsonView::Object(payload),
    );
    assert(payload["aud"@] == JsonView::Text(cookie.audience->Some_0));
    if key.vouches(token, read) {
        assert(JsonView::Object(payload) == JsonView::Object(read));
        assert(text::opt_of(key.audience) == Some(text::opt_of(key.audience)->Some_0));
        assert(false);
    }
}

/// A session is good from when it is made until it ends: the cookie of a caller whose
/// claims are plain verifies at every time that is not past its expiry, and gives back
/// what was signed into it.
pub proof fn law_a_session_verifies_until_it_ends(
    cookie: CookieView,
    claims: Map<Seq<char>, JsonView>,
    now: i64,
    token: Seq<char>,
    unix: u64,
)
    requires
        minted(cookie, claims, now),
        signed::jwt_signed(JsonView::Object(payload_spec(cookie, claims, now)), cookie.secret)
            == Ok::<Seq<char>, Seq<char>>(token),
        signed::plain(claims),
        unix <= expires_spec(identity(claims), now, cookie.ttl),
    ensures
        signed::decoded(token, cookie.secret, cookie.issuer, cookie.audience, unix) == Ok::<
            JsonView,
            Seq<char>,
        >(JsonView::Object(payload_spec(cookie, claims, now))),
{
    lemma_names();
    let m = payload_spec(cookie, claims, now);
    let payload = JsonView::Object(m);
    let whole = JsonView::Object(claims);
    lemma_payload_whole(cookie, claims, now, whole, payload);
    let one = (signed::depth() - 1) as nat;
    assert(signed::shallow(whole, signed::depth()));
    assert forall|k: Seq<char>| m.contains_key(k) implies signed::shallow(#[trigger] m[k], one) by {
        if claims.contains_key(k) && m[k] == claims[k] {
            assert(whole->Object_0.contains_key(k));
            assert(signed::shallow(whole->Object_0[k], one));
        }
    }
    assert(signed::shallow(payload, signed::depth()));
    reveal_strlit("sub");
    reveal_strlit("nbf");
    reveal_strlit("exp");
    reveal_strlit("iat");
    reveal_strlit("iss");
    reveal_strlit("aud");
    assert("sub"@[0] == 's' && "nbf"@[0] == 'n' && "exp"@[0] == 'e' && "iat"@[0] == 'i' && "iss"@[0]
        == 'i' && "aud"@[0] == 'a');
    assert(signed::plain(m));
    assert(m["exp"@] == JsonView::Int(expires_spec(identity(claims), now, cookie.ttl) as int));
    assert(signed::names(m, "iss"@, cookie.issuer));
    assert(signed::names(m, "aud"@, cookie.audience));
    assert(signed::lasts(m, unix));
}

/// A session is a token like any other: a plugin for signed tokens that was given the
/// secret of the cookie, and asks for its issuer and audience, verifies it at every time
/// that is not past its expiry, and learns what was signed into it.
pub proof fn law_a_session_is_a_signed_token(
    cookie: CookieView,
    claims: Map<Seq<char>, JsonView>,
    now: i64,
    key: TokenKey,
    token: Seq<char>,
    unix: u64,
)
    requires
        minted(cookie, claims, now),
        jwt::key_view(key) == (jwt::KeyView {
            secret: cookie.secret,
            issuer: cookie.issuer,
            audience: cookie.audience,
        }),
        signed::jwt_signed(JsonView::Object(payload_spec(cookie, claims, now)), cookie.secret)
            == Ok::<Seq<char>, Seq<char>>(token),
        signed::plain(claims),
        unix <= expires_spec(identity(claims), now, cookie.ttl),
    ensures
        signed::decoded(
            token,
            key.secret@,
            text::opt_of(key.issuer),
            text::opt_of(key.audience),
            unix,
        ) == Ok::<JsonView, Seq<char>>(JsonView::Object(payload_spec(cookie, claims, now))),
{
    law_a_session_verifies_until_it_ends(cookie, claims, now, token, unix);
}

} // verus!
