//! Signed tokens: JSON Web Tokens under a shared secret.

use crate::clock;
use crate::json;
use crate::json::{Json, JsonView};
use crate::strmap::StrMap;
use crate::text;
use crate::tree;
use vstd::prelude::*;

verus! {

/// Whether every number in a value is whole.
pub open spec fn all_whole(v: JsonView) -> bool
    decreases v,
{
    match v {
        JsonView::Real(_) => false,
        JsonView::Array(s) => list_whole(s),
        JsonView::Object(m) => forall|k: Seq<char>|
            m.contains_key(k) ==> all_whole(#[trigger] m[k]),
        _ => true,
    }
}

/// Whether every number in the values of a list is whole.
pub open spec fn list_whole(s: Seq<JsonView>) -> bool
    decreases s,
{
    s.len() == 0 || (list_whole(s.drop_last()) && all_whole(s.last()))
}

/// The token that carries a payload signed with HS256 under a secret, or the text
/// of the error, as `jsonwebtoken::encode` gives them.
pub uninterp spec fn jwt_signed(payload: JsonView, secret: Seq<char>) -> Result<
    Seq<char>,
    Seq<char>,
>;

/// The claims of a token, or the name of what is wrong with it, as
/// `jsonwebtoken::decode` gives them for HS256 under a secret at a time in seconds
/// since the Unix epoch, with some leeway in seconds.
pub uninterp spec fn jwt_decoded(
    token: Seq<char>,
    secret: Seq<char>,
    issuer: Option<Seq<char>>,
    audience: Option<Seq<char>>,
    check_audience: bool,
    leeway: u64,
    unix: u64,
) -> Result<JsonView, Seq<char>>;

/// How long a token is taken after it has expired, in seconds: not at all.
pub const LEEWAY: u64 = 0;

/// The claims of a token at a time, or the name of what is wrong with it. An audience is
/// checked only where one is named.
#[verifier::inline]
pub open spec fn decoded(
    token: Seq<char>,
    secret: Seq<char>,
    issuer: Option<Seq<char>>,
    audience: Option<Seq<char>>,
    unix: u64,
) -> Result<JsonView, Seq<char>> {
    jwt_decoded(token, secret, issuer, audience, audience is Some, LEEWAY, unix)
}

/// Whether claims are such as a token that verifies may carry: they name an expiry and
/// no issuer or audience but the one asked for, and they are what was signed.
pub open spec fn in_keeping(
    token: Seq<char>,
    secret: Seq<char>,
    issuer: Option<Seq<char>>,
    audience: Option<Seq<char>>,
    claims: Map<Seq<char>, JsonView>,
) -> bool {
    &&& claims.contains_key("exp"@)
    &&& forall|wanted: Seq<char>, stamped: Seq<char>|
        issuer == Some(wanted) && claims.contains_key("iss"@) && claims["iss"@] == JsonView::Text(
            stamped,
        ) ==> wanted == stamped
    &&& forall|wanted: Seq<char>, stamped: Seq<char>|
        audience == Some(wanted) && claims.contains_key("aud"@) && claims["aud"@]
            == JsonView::Text(stamped) ==> wanted == stamped
    &&& forall|payload: JsonView|
        all_whole(payload) && #[trigger] jwt_signed(payload, secret) == Ok::<Seq<char>, Seq<char>>(
            token,
        ) ==> payload == JsonView::Object(claims)
}

/// Whether claims are not out of date at a time in seconds since the Unix epoch, with
/// some leeway.
pub open spec fn timely(claims: Map<Seq<char>, JsonView>, leeway: u64, unix: u64) -> bool {
    claims["exp"@] matches JsonView::Int(exp) ==> unix <= exp + leeway
}

/// Whether a value holds no others more than `n` levels deep.
pub open spec fn shallow(v: JsonView, n: nat) -> bool
    decreases n,
{
    match v {
        JsonView::Array(s) => n > 0 && forall|i: int|
            0 <= i < s.len() ==> shallow(#[trigger] s[i], (n - 1) as nat),
        JsonView::Object(m) => n > 0 && forall|k: Seq<char>|
            m.contains_key(k) ==> shallow(#[trigger] m[k], (n - 1) as nat),
        _ => true,
    }
}

/// How many levels of a payload can be read back for sure.
pub open spec fn depth() -> nat {
    100
}

/// Whether a value holds no others.
pub open spec fn single(v: JsonView) -> bool {
    !(v is Array) && !(v is Object)
}

/// Whether a payload is one that reads back: of whole numbers, not too deep, with a
/// subject and a time it holds from that hold no other values, where it has them.
pub open spec fn plain(payload: Map<Seq<char>, JsonView>) -> bool {
    &&& all_whole(JsonView::Object(payload))
    &&& shallow(JsonView::Object(payload), depth())
    &&& payload.contains_key("sub"@) ==> single(payload["sub"@])
    &&& payload.contains_key("nbf"@) ==> single(payload["nbf"@])
}

/// Whether a payload names what is asked for, where it names one.
pub open spec fn names(
    payload: Map<Seq<char>, JsonView>,
    claim: Seq<char>,
    wanted: Option<Seq<char>>,
) -> bool {
    match wanted {
        Some(wanted) => payload.contains_key(claim) ==> payload[claim] == JsonView::Text(wanted),
        None => true,
    }
}

/// Whether a payload has not run out at a time.
pub open spec fn lasts(payload: Map<Seq<char>, JsonView>, unix: u64) -> bool {
    payload.contains_key("exp"@) && (payload["exp"@] matches JsonView::Int(exp) && unix <= exp
        <= u64::MAX)
}

/// Whether a token gives its payload back to whoever holds the secret, asks for what it
/// names, and asks before it has run out.
pub open spec fn reads_back(token: Seq<char>, secret: Seq<char>, payload: JsonView) -> bool {
    payload matches JsonView::Object(m) ==> forall|
        issuer: Option<Seq<char>>,
        audience: Option<Seq<char>>,
        unix: u64,
    |
        plain(m) && names(m, "iss"@, issuer) && names(m, "aud"@, audience) && lasts(m, unix)
            ==> #[trigger] decoded(token, secret, issuer, audience, unix) == Ok::<
            JsonView,
            Seq<char>,
        >(payload)
}

/// Whether a token may verify with these claims at some time.
pub open spec fn vouched(
    token: Seq<char>,
    secret: Seq<char>,
    issuer: Option<Seq<char>>,
    audience: Option<Seq<char>>,
    claims: Map<Seq<char>, JsonView>,
) -> bool {
    &&& exists|unix: u64| #[trigger]
        decoded(token, secret, issuer, audience, unix) == Ok::<JsonView, Seq<char>>(
            JsonView::Object(claims),
        ) && clock::calendar_reads(unix) && timely(claims, LEEWAY, unix)
    &&& in_keeping(token, secret, issuer, audience, claims)
}

/// Whether a token may fail to verify at some time, for a reason of this name.
pub open spec fn refused(
    token: Seq<char>,
    secret: Seq<char>,
    issuer: Option<Seq<char>>,
    audience: Option<Seq<char>>,
    kind: Seq<char>,
) -> bool {
    exists|unix: u64| #[trigger]
        decoded(token, secret, issuer, audience, unix) == Err::<JsonView, Seq<char>>(kind)
            && clock::calendar_reads(unix)
}

/// The characters of an optional slice.
pub open spec fn slice_of(s: Option<&str>) -> Option<Seq<char>> {
    match s {
        Some(s) => Some(s@),
        None => None,
    }
}

/// `jsonwebtoken::encode` with HS256 under a shared secret. The result is a
/// function of what the payload says and of the secret. What it makes of a payload that
/// is plain, `jsonwebtoken::decode` gives back until it expires: the signature holds,
/// and none of the claims that are looked at is of a form that stops the reading.
#[verifier::external_body]
fn jwt_encode(payload: &serde_json::Value, secret: &str) -> (r: Result<String, String>)
    ensures
        match r {
            Ok(token) => jwt_signed(tree::value_view(*payload), secret@) == Ok::<
                Seq<char>,
                Seq<char>,
            >(token@) && reads_back(token@, secret@, tree::value_view(*payload)),
            Err(error) => jwt_signed(tree::value_view(*payload), secret@) == Err::<
                Seq<char>,
                Seq<char>,
            >(error@),
        },
{
    jsonwebtoken::encode(
        &jsonwebtoken::Header::new(jsonwebtoken::Algorithm::HS256),
        payload,
        &jsonwebtoken::EncodingKey::from_secret(secret.as_bytes()),
    ).map_err(|error| error.to_string())
}

/// `jsonwebtoken::decode` with HS256 under a shared secret, into an object. The result
/// is a function of the arguments and of the time, which is read once, from
/// `std::time::SystemTime::now`. Where it succeeds, the token carries an expiry, which where it is a whole number lies at most
/// the leeway before that time; a textual `iss` is the issuer asked for, and
/// a textual `aud` the audience where audiences are checked; and a token that `encode`
/// made of a payload of whole numbers gives that payload back. An error is told by the
/// name of its kind. At which other times a token verifies is left unsaid. It takes the
/// leeway from the time and adds it to it unchecked, so that only the one in use is
/// asked for. It panics on a calendar that stands before the Unix epoch.
#[verifier::external_body]
fn jwt_decode(
    token: &str,
    secret: &str,
    issuer: Option<&str>,
    audience: Option<&str>,
    check_audience: bool,
    leeway: u64,
) -> (r: Result<serde_json::Value, String>)
    requires
        leeway == LEEWAY,
    ensures
        exists|unix: u64|
            match r {
                Ok(v) => #[trigger] jwt_decoded(
                    token@,
                    secret@,
                    slice_of(issuer),
                    slice_of(audience),
                    check_audience,
                    leeway,
                    unix,
                ) == Ok::<JsonView, Seq<char>>(tree::value_view(v)) && clock::calendar_reads(
                    unix,
                ) && timely(
                    tree::value_view(v)->Object_0,
                    leeway,
                    unix,
                ),
                Err(kind) => jwt_decoded(
                    token@,
                    secret@,
                    slice_of(issuer),
                    slice_of(audience),
                    check_audience,
                    leeway,
                    unix,
                ) == Err::<JsonView, Seq<char>>(kind@) && clock::calendar_reads(unix),
            },
        match r {
            Ok(v) => tree::value_view(v) is Object && in_keeping(
                token@,
                secret@,
                slice_of(issuer),
                if check_audience {
                    slice_of(audience)
                } else {
                    None
                },
                tree::value_view(v)->Object_0,
            ),
            Err(_) => true,
        },
{
    let mut validation = jsonwebtoken::Validation::new(jsonwebtoken::Algorithm::HS256);
    validation.iss = issuer.map(|name| [name.to_owned()].into());
    validation.aud = audience.map(|name| [name.to_owned()].into());
    validation.validate_aud = check_audience;
    validation.leeway = leeway;
    jsonwebtoken::decode::<serde_json::Map<std::string::String, serde_json::Value>>(
        token,
        &jsonwebtoken::DecodingKey::from_secret(secret.as_bytes()),
        &validation,
    ).map(|data| serde_json::Value::Object(data.claims)).map_err(
        |error| format!("{:?}", error.kind()),
    )
}

/// A shared secret with the issuer and audience its tokens must name.
pub struct TokenKey {
    pub secret: String,
    pub issuer: Option<String>,
    pub audience: Option<String>,
}

/// A string slice of an optional string.
fn as_slice<'a>(s: &'a Option<String>) -> (r: Option<&'a str>)
    ensures
        slice_of(r) == text::opt_of(*s),
{
    match s {
        Some(s) => Some(s.as_str()),
        None => None,
    }
}

impl TokenKey {
    /// Whether a token may verify under this key with these claims.
    pub open spec fn vouches(&self, token: Seq<char>, claims: Map<Seq<char>, JsonView>) -> bool {
        vouched(token, self.secret@, text::opt_of(self.issuer), text::opt_of(self.audience), claims)
    }

    /// Whether a token may fail to verify under this key, for a reason of this name.
    pub open spec fn refuses(&self, token: Seq<char>, kind: Seq<char>) -> bool {
        refused(token, self.secret@, text::opt_of(self.issuer), text::opt_of(self.audience), kind)
    }

    /// The claims of a token that verifies, or the name of what is wrong with it. An
    /// audience is checked only where one is named: a token may carry one all the same.
    pub fn verify(&self, token: &str) -> (r: Result<StrMap<Json>, String>)
        ensures
            match r {
                Ok(claims) => self.vouches(token@, json::fields(claims)),
                Err(kind) => self.refuses(token@, kind@),
            },
    {
        let decoded = jwt_decode(
            token,
            self.secret.as_str(),
            as_slice(&self.issuer),
            as_slice(&self.audience),
            self.audience.is_some(),
            LEEWAY,
        );
        match decoded {
            Ok(value) => {
                match tree::read_value(value) {
                    Json::Object(claims) => Ok(claims),
                    _ => {
                        proof {
                            assert(false);
                        }
                        Err(String::new())
                    },
                }
            },
            Err(kind) => Err(kind),
        }
    }

    /// The token that carries a payload, or the text of the error.
    pub fn sign(&self, payload: StrMap<Json>) -> (r: Result<String, String>)
        ensures
            match r {
                Ok(token) => jwt_signed(JsonView::Object(json::fields(payload)), self.secret@)
                    == Ok::<Seq<char>, Seq<char>>(token@) && reads_back(
                    token@,
                    self.secret@,
                    JsonView::Object(json::fields(payload)),
                ),
                Err(error) => jwt_signed(JsonView::Object(json::fields(payload)), self.secret@)
                    == Err::<Seq<char>, Seq<char>>(error@),
            },
    {
        let payload = Json::Object(payload);
        let value = tree::write_value(&payload);
        jwt_encode(&value, self.secret.as_str())
    }
}

/// What a verified token says is what was signed: a token made of a payload of whole
/// numbers, wherever it verifies, gives that payload back.
pub proof fn law_verified_is_signed(
    key: TokenKey,
    payload: Map<Seq<char>, JsonView>,
    token: Seq<char>,
    claims: Map<Seq<char>, JsonView>,
)
    requires
        all_whole(JsonView::Object(payload)),
        jwt_signed(JsonView::Object(payload), key.secret@) == Ok::<Seq<char>, Seq<char>>(token),
        key.vouches(token, claims),
    ensures
        claims == payload,
{
}

/// A token that has expired vouches for nothing: whatever verified, did so while the
/// calendar read a time that is not past its expiry.
pub proof fn law_a_token_verifies_only_until_it_expires(
    key: TokenKey,
    token: Seq<char>,
    claims: Map<Seq<char>, JsonView>,
)
    requires
        key.vouches(token, claims),
        claims["exp"@] is Int,
    ensures
        exists|unix: u64| #[trigger]
            decoded(
                token,
                key.secret@,
                text::opt_of(key.issuer),
                text::opt_of(key.audience),
                unix,
            ) == Ok::<JsonView, Seq<char>>(JsonView::Object(claims)) && clock::calendar_reads(unix)
                && unix <= claims["exp"@]->Int_0,
{
}

} // verus!
