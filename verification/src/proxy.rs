//! The proxied request: what the gateway answers itself, and which headers go upstream
//! and come back.

use crate::auth;
use crate::auth::{AuthOutcome, OutcomeView, RouteGuard};
use crate::clock::Moment;
use crate::headers;
use crate::headers::{Header, HeaderList};
use crate::json::JsonView;
use crate::provider;
use crate::provider::{ProviderCache, ProviderReply, ProviderView, Step};
use crate::registry::{Resolution, Resolved};
use crate::text;
use vstd::prelude::*;
use vstd::string::*;

verus! {

/// An answer the gateway gives itself.
pub struct Reply {
    pub status: u16,
    pub headers: Vec<(String, String)>,
    pub body: String,
}

/// What an answer says.
pub struct ReplyView {
    pub status: u16,
    pub headers: Seq<(Seq<char>, Seq<char>)>,
    pub body: Seq<char>,
}

impl View for Reply {
    type V = ReplyView;

    open spec fn view(&self) -> ReplyView {
        ReplyView {
            status: self.status,
            headers: text::pairs_view(self.headers@),
            body: self.body@,
        }
    }
}

/// An answer without headers of its own.
pub open spec fn plain(status: u16, body: Seq<char>) -> ReplyView {
    ReplyView { status, headers: Seq::empty(), body }
}

/// Makes an answer without headers of its own.
pub(crate) fn plain_reply(status: u16, body: String) -> (r: Reply)
    ensures
        r@ == plain(status, body@),
{
    let r = Reply { status, headers: Vec::new(), body };
    proof {
        assert(text::pairs_view(r.headers@) =~= Seq::empty());
    }
    r
}

/// The answer to a path that leads nowhere, where it does.
pub open spec fn resolution_reply(resolution: Resolution, path: Seq<char>) -> Option<ReplyView> {
    match resolution {
        Resolution::Resolved(_) => None,
        Resolution::NoInstances { route, service } => Some(
            plain(
                503,
                "no registered instances for service '"@ + service@ + "' (route '"@ + route@
                    + "')\n"@,
            ),
        ),
        Resolution::NotFound => Some(plain(404, "no route matches '"@ + path + "'\n"@)),
    }
}

/// Where a path leads, or the answer where it leads nowhere.
pub fn resolved_or_reply(resolution: Resolution, path: &str) -> (r: Result<Resolved, Reply>)
    ensures
        match r {
            Ok(resolved) => resolution == Resolution::Resolved(resolved),
            Err(reply) => resolution_reply(resolution, path@) == Some(reply@),
        },
{
    match resolution {
        Resolution::Resolved(resolved) => Ok(resolved),
        Resolution::NoInstances { route, service } => Err(
            plain_reply(
                503,
                text::cat5(
                    "no registered instances for service '",
                    service.as_str(),
                    "' (route '",
                    route.as_str(),
                    "')\n",
                ),
            ),
        ),
        Resolution::NotFound => Err(
            plain_reply(404, text::cat3("no route matches '", path, "'\n")),
        ),
    }
}

/// A text, or a dash where there is none.
pub open spec fn or_dash(s: Option<Seq<char>>) -> Seq<char> {
    match s {
        Some(s) => s,
        None => "-"@,
    }
}

/// The line that tells where a path leads.
pub open spec fn report_spec(r: Resolved) -> Seq<char> {
    "RESOLVED route="@ + r.route@ + " source="@ + r.source@ + " service="@ + or_dash(
        text::opt_of(r.service),
    ) + " instance="@ + or_dash(text::opt_of(r.instance)) + " target="@ + r.target_url@ + "\n"@
}

/// Tells where a path leads.
pub fn report(resolved: &Resolved) -> (r: Reply)
    ensures
        r@ == plain(200, report_spec(*resolved)),
{
    let service = match &resolved.service {
        Some(s) => s.clone(),
        None => "-".to_owned(),
    };
    let instance = match &resolved.instance {
        Some(s) => s.clone(),
        None => "-".to_owned(),
    };
    let mut out = text::cat5(
        "RESOLVED route=",
        resolved.route.as_str(),
        " source=",
        resolved.source,
        " service=",
    );
    out.append(service.as_str());
    out.append(" instance=");
    out.append(instance.as_str());
    out.append(" target=");
    out.append(resolved.target_url.as_str());
    out.append("\n");
    plain_reply(200, out)
}

/// The answer to a request that its guards refuse.
pub open spec fn refusal_reply(outcome: OutcomeView) -> Option<ReplyView> {
    match outcome {
        OutcomeView::Allowed(_) => None,
        OutcomeView::Unauthorized(message) => Some(
            ReplyView {
                status: 401,
                headers: seq![("www-authenticate"@, "Bearer"@)],
                body: message + "\n"@,
            },
        ),
        OutcomeView::Forbidden(message) => Some(plain(403, message + "\n"@)),
        OutcomeView::Unavailable(message) => Some(plain(503, message + "\n"@)),
    }
}

/// The headers that identify a caller the guards let through, or the answer to one they
/// refuse.
pub fn identity_or_reply(outcome: AuthOutcome) -> (r: Result<Vec<(String, String)>, Reply>)
    ensures
        match r {
            Ok(identity) => outcome@ == OutcomeView::Allowed(text::pairs_view(identity@)),
            Err(reply) => refusal_reply(outcome@) == Some(reply@),
        },
{
    match outcome {
        AuthOutcome::Allowed(identity) => Ok(identity),
        AuthOutcome::Unauthorized(message) => {
            let mut challenge: Vec<(String, String)> = Vec::new();
            challenge.push(("www-authenticate".to_owned(), "Bearer".to_owned()));
            proof {
                assert(text::pairs_view(challenge@) =~= seq![
                    ("www-authenticate"@, "Bearer"@),
                ]);
            }
            Err(
                Reply {
                    status: 401,
                    headers: challenge,
                    body: text::cat2(message.as_str(), "\n"),
                },
            )
        },
        AuthOutcome::Forbidden(message) => Err(
            plain_reply(403, text::cat2(message.as_str(), "\n")),
        ),
        AuthOutcome::Unavailable(message) => Err(
            plain_reply(503, text::cat2(message.as_str(), "\n")),
        ),
    }
}

/// The answer where the upstream failed.
pub open spec fn failure_spec(route: Seq<char>, timed_out: bool) -> ReplyView {
    if timed_out {
        plain(504, "upstream timed out for route '"@ + route + "'\n"@)
    } else {
        plain(502, "upstream request failed for route '"@ + route + "'\n"@)
    }
}

/// The answer where the upstream failed, in time or otherwise.
pub fn gateway_error(timed_out: bool, route: &str) -> (r: Reply)
    ensures
        r@ == failure_spec(route@, timed_out),
{
    if timed_out {
        plain_reply(504, text::cat3("upstream timed out for route '", route, "'\n"))
    } else {
        plain_reply(502, text::cat3("upstream request failed for route '", route, "'\n"))
    }
}

/// A URL with a query behind it, where there is one.
pub open spec fn with_query(url: Seq<char>, query: Seq<char>) -> Seq<char> {
    if query.len() == 0 {
        url
    } else {
        url + "?"@ + query
    }
}

/// Puts a query behind a URL.
pub fn upstream_url(url: &str, query: &str) -> (r: String)
    ensures
        r@ == with_query(url@, query@),
{
    if query.is_empty() {
        url.to_owned()
    } else {
        text::cat3(url, "?", query)
    }
}

/// The client addresses a request came through, with the latest behind.
pub open spec fn forwarded_spec(existing: Option<Seq<char>>, peer: Option<Seq<char>>) -> Option<
    Seq<char>,
> {
    match (existing, peer) {
        (Some(existing), Some(peer)) => Some(existing + ", "@ + peer),
        (Some(existing), None) => Some(existing),
        (None, peer) => peer,
    }
}

/// The client addresses a request came through: those it names, and the peer it came
/// from.
pub fn forwarded_for(fields: &HeaderList, peer: Option<String>) -> (r: Option<String>)
    ensures
        text::opt_of(r) == forwarded_spec(
            headers::text_spec(fields@, "x-forwarded-for"@),
            text::opt_of(peer),
        ),
{
    match (fields.text("x-forwarded-for"), peer) {
        (Some(existing), Some(peer)) => Some(text::cat3(existing.as_str(), ", ", peer.as_str())),
        (Some(existing), None) => Some(existing),
        (None, peer) => peer,
    }
}

/// The number that decimal digits write.
pub open spec fn digits_value(s: Seq<char>) -> nat
    decreases s.len(),
{
    if s.len() == 0 {
        0
    } else {
        10 * digits_value(s.drop_last()) + (s.last() as u32 - '0' as u32) as nat
    }
}

/// Whether a text is made of decimal digits, at least one.
pub open spec fn all_digits(s: Seq<char>) -> bool {
    s.len() > 0 && forall|i: int| 0 <= i < s.len() ==> '0' <= #[trigger] s[i] <= '9'
}

/// The digits of a number that may begin with a plus sign.
pub open spec fn unsigned_part(s: Seq<char>) -> Seq<char> {
    if s.len() > 0 && s[0] == '+' {
        s.drop_first()
    } else {
        s
    }
}

/// The number a text writes, where it writes one that fits.
pub open spec fn parse_spec(s: Seq<char>) -> Option<u64> {
    let digits = unsigned_part(s);
    if all_digits(digits) && digits_value(digits) <= u64::MAX {
        Some(digits_value(digits) as u64)
    } else {
        None
    }
}

/// More digits never write a smaller number.
proof fn lemma_digits_grow(s: Seq<char>, n: int)
    requires
        0 <= n <= s.len(),
        all_digits(s),
    ensures
        digits_value(s.take(n)) <= digits_value(s),
    decreases s.len(),
{
    if n < s.len() {
        let front = s.drop_last();
        assert(front.take(n) =~= s.take(n));
        if front.len() > 0 {
            assert(forall|i: int| 0 <= i < front.len() ==> front[i] == s[i]);
            lemma_digits_grow(front, n);
        }
    } else {
        assert(s.take(n) =~= s);
    }
}

/// Reads a number.
pub fn parse_u64(s: &str) -> (r: Option<u64>)
    ensures
        r == parse_spec(s@),
{
    let v = text::chars_of(s);
    let start: usize = if v.len() > 0 && v[0] == '+' {
        1
    } else {
        0
    };
    let ghost digits = unsigned_part(s@);
    proof {
        assert(digits =~= s@.skip(start as int));
    }
    if start == v.len() {
        return None;
    }
    let mut value: u64 = 0;
    let mut i: usize = start;
    proof {
        assert(digits.take(0) =~= Seq::empty());
    }
    while i < v.len()
        invariant
            v@ == s@,
            start <= i <= v@.len(),
            start < v@.len(),
            digits == unsigned_part(s@),
            digits == s@.skip(start as int),
            forall|k: int| 0 <= k < i - start ==> '0' <= #[trigger] digits[k] <= '9',
            value == digits_value(digits.take(i - start)),
        decreases v@.len() - i,
    {
        let c = v[i];
        proof {
            assert(digits[i - start] == c);
        }
        if !('0' <= c && c <= '9') {
            return None;
        }
        let d: u64 = (c as u8 - '0' as u8) as u64;
        proof {
            assert(digits.take(i - start + 1).drop_last() =~= digits.take(i - start));
            assert(digits.take(i - start + 1).last() == c);
            if all_digits(digits) {
                lemma_digits_grow(digits, i - start + 1);
            }
        }
        let scaled = match value.checked_mul(10) {
            Some(scaled) => scaled,
            None => {
                return None;
            },
        };
        value = match scaled.checked_add(d) {
            Some(value) => value,
            None => {
                return None;
            },
        };
        i = i + 1;
    }
    proof {
        assert(digits.take(i - start) =~= digits);
    }
    Some(value)
}

/// The length a message declares for its body.
pub open spec fn content_length_spec(fields: Seq<(Seq<char>, Seq<u8>)>) -> Option<u64> {
    match headers::text_spec(fields, "content-length"@) {
        Some(s) => parse_spec(text::trim_spec(s)),
        None => None,
    }
}

/// The length a message declares for its body.
pub fn content_length(fields: &HeaderList) -> (r: Option<u64>)
    ensures
        r == content_length_spec(fields@),
{
    match fields.text("content-length") {
        Some(s) => parse_u64(text::trim(s.as_str())),
        None => None,
    }
}

/// The pieces of some texts between commas, without the white space around them, those
/// that say anything.
pub open spec fn listed(values: Seq<Seq<char>>) -> Seq<Seq<char>>
    decreases values.len(),
{
    if values.len() == 0 {
        Seq::empty()
    } else {
        listed(values.drop_last()) + filled_pieces(text::split_spec(values.last(), ','))
    }
}

/// Some pieces without the white space around them, those that say anything.
pub open spec fn filled_pieces(pieces: Seq<Seq<char>>) -> Seq<Seq<char>>
    decreases pieces.len(),
{
    if pieces.len() == 0 {
        Seq::empty()
    } else if text::trim_spec(pieces.last()).len() > 0 {
        filled_pieces(pieces.drop_last()).push(text::trim_spec(pieces.last()))
    } else {
        filled_pieces(pieces.drop_last())
    }
}

/// The entries of a header that holds lists.
pub fn list_header(fields: &HeaderList, name: &str) -> (r: Vec<String>)
    ensures
        text::texts(r@) == listed(
            headers::kept_texts(headers::all_spec(fields@, text::lower_spec(name@))),
        ),
{
    let values = fields.texts(name);
    let ghost all = text::texts(values@);
    let mut out: Vec<String> = Vec::new();
    let mut i: usize = 0;
    proof {
        assert(all.take(0) =~= Seq::empty());
        assert(text::texts(out@) =~= Seq::empty());
    }
    while i < values.len()
        invariant
            i <= values@.len(),
            all == text::texts(values@),
            text::texts(out@) == listed(all.take(i as int)),
        decreases values@.len() - i,
    {
        let pieces = text::split(values[i].as_str(), ',');
        let ghost front = text::texts(out@);
        let ghost parts = text::slices(pieces@);
        let mut j: usize = 0;
        proof {
            assert(parts.take(0) =~= Seq::empty());
            assert(front + filled_pieces(parts.take(0)) =~= front);
        }
        while j < pieces.len()
            invariant
                j <= pieces@.len(),
                parts == text::slices(pieces@),
                text::texts(out@) == front + filled_pieces(parts.take(j as int)),
            decreases pieces@.len() - j,
        {
            let piece = text::trim(pieces[j]);
            proof {
                assert(parts.take(j + 1).drop_last() =~= parts.take(j as int));
                assert(parts.take(j + 1).last() == pieces@[j as int]@);
            }
            if !piece.is_empty() {
                let ghost had = text::texts(out@);
                out.push(piece.to_owned());
                proof {
                    assert(text::texts(out@) =~= had.push(piece@));
                    assert(had.push(piece@) =~= front + filled_pieces(parts.take(j + 1)));
                }
            }
            j = j + 1;
        }
        proof {
            assert(parts.take(j as int) =~= parts);
            assert(all.take(i + 1).drop_last() =~= all.take(i as int));
            assert(all.take(i + 1).last() == values@[i as int]@);
        }
        i = i + 1;
    }
    proof {
        assert(all.take(i as int) =~= all);
    }
    out
}

/// The header names that a message's `Connection` nominates, in small letters: they
/// apply to this hop of this message only.
pub open spec fn tokens_spec(fields: Seq<(Seq<char>, Seq<u8>)>) -> Seq<Seq<char>> {
    listed(
        headers::kept_texts(headers::all_spec(fields, text::lower_spec("connection"@))),
    ).map_values(|token: Seq<char>| text::lower_spec(token))
}

/// The header names that a message's `Connection` nominates.
pub fn connection_tokens(fields: &HeaderList) -> (r: Vec<String>)
    ensures
        text::texts(r@) == tokens_spec(fields@),
{
    let named = list_header(fields, "connection");
    let mut out: Vec<String> = Vec::new();
    let mut i: usize = 0;
    while i < named.len()
        invariant
            i <= named@.len(),
            out@.len() == i,
            forall|k: int| 0 <= k < i ==> (#[trigger] out@[k])@ == text::lower_spec(named@[k]@),
        decreases named@.len() - i,
    {
        out.push(text::lower(named[i].as_str()));
        i = i + 1;
    }
    proof {
        assert(text::texts(out@) =~= text::texts(named@).map_values(
            |token: Seq<char>| text::lower_spec(token),
        ));
    }
    out
}

/// Whether a header applies to a single transport hop by its name.
pub open spec fn fixed_hop(name: Seq<char>) -> bool {
    ||| name == "connection"@
    ||| name == "keep-alive"@
    ||| name == "proxy-authenticate"@
    ||| name == "proxy-authorization"@
    ||| name == "proxy-connection"@
    ||| name == "te"@
    ||| name == "trailer"@
    ||| name == "transfer-encoding"@
    ||| name == "upgrade"@
}

/// Whether a header applies to a single transport hop, by its name or because the
/// message says so.
pub open spec fn hop_spec(name: Seq<char>, tokens: Seq<Seq<char>>) -> bool {
    fixed_hop(name) || tokens.contains(name)
}

/// Tests whether a header applies to a single transport hop, and must not be relayed.
pub fn is_hop_by_hop(name: &str, tokens: &Vec<String>) -> (r: bool)
    ensures
        r == hop_spec(name@, text::texts(tokens@)),
{
    text::same(name, "connection") || text::same(name, "keep-alive") || text::same(
        name,
        "proxy-authenticate",
    ) || text::same(name, "proxy-authorization") || text::same(name, "proxy-connection")
        || text::same(name, "te") || text::same(name, "trailer") || text::same(
        name,
        "transfer-encoding",
    ) || text::same(name, "upgrade") || text::contains_text(tokens, name)
}

/// Whether a header of a request goes upstream as the client sent it. `withheld` are
/// the names the gateway sets itself, and those of a credential it keeps.
pub open spec fn forwards(
    name: Seq<char>,
    tokens: Seq<Seq<char>>,
    withheld: Seq<Seq<char>>,
    websocket: bool,
) -> bool {
    &&& !hop_spec(name, tokens)
    &&& name != "host"@
    &&& name != "content-length"@
    &&& !"x-forwarded-"@.is_prefix_of(name)
    &&& !(websocket && "sec-websocket-"@.is_prefix_of(name))
    &&& !withheld.contains(name)
}

/// The headers of a request that go upstream as the client sent them.
pub open spec fn forwarded_fields(
    fields: Seq<(Seq<char>, Seq<u8>)>,
    tokens: Seq<Seq<char>>,
    withheld: Seq<Seq<char>>,
    websocket: bool,
) -> Seq<(Seq<char>, Seq<u8>)>
    decreases fields.len(),
{
    if fields.len() == 0 {
        Seq::empty()
    } else {
        let front = forwarded_fields(fields.drop_last(), tokens, withheld, websocket);
        if forwards(fields.last().0, tokens, withheld, websocket) {
            front.push(fields.last())
        } else {
            front
        }
    }
}

/// Copies bytes.
pub(crate) fn copy_bytes(v: &Vec<u8>) -> (r: Vec<u8>)
    ensures
        r@ == v@,
{
    let mut out: Vec<u8> = Vec::new();
    let mut i: usize = 0;
    while i < v.len()
        invariant
            i <= v@.len(),
            out@ == v@.take(i as int),
        decreases v@.len() - i,
    {
        out.push(v[i]);
        proof {
            assert(v@.take(i + 1) =~= v@.take(i as int).push(v@[i as int]));
        }
        i = i + 1;
    }
    proof {
        assert(v@.take(v@.len() as int) =~= v@);
    }
    out
}

/// Copies a field.
pub(crate) fn copy_field(h: &Header) -> (r: Header)
    ensures
        headers::field_view(r) == headers::field_view(*h),
{
    Header { name: h.name.clone(), value: copy_bytes(&h.value) }
}

/// The headers of a request that go upstream as the client sent them.
pub fn forward_headers(fields: &HeaderList, withheld: &Vec<String>, websocket: bool) -> (r:
    HeaderList)
    ensures
        r@ == forwarded_fields(
            fields@,
            tokens_spec(fields@),
            text::texts(withheld@),
            websocket,
        ),
{
    let tokens = connection_tokens(fields);
    let ghost named = text::texts(tokens@);
    let ghost held = text::texts(withheld@);
    let mut out = HeaderList { fields: Vec::new() };
    let mut i: usize = 0;
    proof {
        assert(fields@.take(0) =~= Seq::empty());
        assert(out@ =~= Seq::empty());
    }
    while i < fields.fields.len()
        invariant
            i <= fields.fields@.len(),
            named == text::texts(tokens@),
            held == text::texts(withheld@),
            out@ == forwarded_fields(fields@.take(i as int), named, held, websocket),
        decreases fields.fields@.len() - i,
    {
        let field = &fields.fields[i];
        let name = field.name.as_str();
        proof {
            assert(fields@.take(i + 1).drop_last() =~= fields@.take(i as int));
            assert(fields@.take(i + 1).last() == headers::field_view(*field));
        }
        if !(is_hop_by_hop(name, &tokens) || text::same(name, "host") || text::same(
            name,
            "content-length",
        ) || text::starts_with(name, "x-forwarded-") || (websocket && text::starts_with(
            name,
            "sec-websocket-",
        )) || text::contains_text(withheld, name)) {
            let ghost front = out@;
            let copied = copy_field(field);
            out.fields.push(copied);
            proof {
                assert(out@ =~= front.push(headers::field_view(*field)));
            }
        }
        i = i + 1;
    }
    proof {
        assert(fields@.take(i as int) =~= fields@);
    }
    out
}

/// The fields that are not called `name`.
pub open spec fn others(fields: Seq<(Seq<char>, Seq<u8>)>, name: Seq<char>) -> Seq<
    (Seq<char>, Seq<u8>),
>
    decreases fields.len(),
{
    if fields.len() == 0 {
        Seq::empty()
    } else if fields.last().0 == name {
        others(fields.drop_last(), name)
    } else {
        others(fields.drop_last(), name).push(fields.last())
    }
}

/// The fields with one set, in place of any of its name.
pub open spec fn with_set(
    fields: Seq<(Seq<char>, Seq<u8>)>,
    name: Seq<char>,
    value: Seq<char>,
) -> Seq<(Seq<char>, Seq<u8>)> {
    others(fields, text::lower_spec(name)).push(
        (text::lower_spec(name), vstd::utf8::encode_utf8(value)),
    )
}

/// The fields with some set, one after the other.
pub open spec fn with_all(
    fields: Seq<(Seq<char>, Seq<u8>)>,
    pairs: Seq<(Seq<char>, Seq<char>)>,
) -> Seq<(Seq<char>, Seq<u8>)>
    decreases pairs.len(),
{
    if pairs.len() == 0 {
        fields
    } else {
        with_set(with_all(fields, pairs.drop_last()), pairs.last().0, pairs.last().1)
    }
}

/// The bytes of a text.
pub(crate) fn bytes_of(s: &str) -> (r: Vec<u8>)
    ensures
        r@ == vstd::utf8::encode_utf8(s@),
{
    let b = s.as_bytes();
    let mut out: Vec<u8> = Vec::new();
    let mut i: usize = 0;
    while i < b.len()
        invariant
            i <= b@.len(),
            out@ == b@.take(i as int),
        decreases b@.len() - i,
    {
        out.push(b[i]);
        proof {
            assert(b@.take(i + 1) =~= b@.take(i as int).push(b@[i as int]));
        }
        i = i + 1;
    }
    proof {
        assert(b@.take(b@.len() as int) =~= b@);
    }
    out
}

/// Takes the fields of a name out.
pub fn drop_header(fields: &mut HeaderList, name: &str)
    ensures
        final(fields)@ == others(old(fields)@, text::lower_spec(name@)),
{
    let name = text::lower(name);
    let ghost all = fields@;
    let mut out: Vec<Header> = Vec::new();
    let mut i: usize = 0;
    proof {
        assert(all.take(0) =~= Seq::empty());
        assert(HeaderList { fields: out }@ =~= Seq::empty());
    }
    while i < fields.fields.len()
        invariant
            i <= fields.fields@.len(),
            all == fields@,
            *fields == *old(fields),
            (HeaderList { fields: out })@ == others(all.take(i as int), name@),
        decreases fields.fields@.len() - i,
    {
        proof {
            assert(all.take(i + 1).drop_last() =~= all.take(i as int));
            assert(all.take(i + 1).last() == headers::field_view(fields.fields@[i as int]));
        }
        if !text::same(fields.fields[i].name.as_str(), name.as_str()) {
            let ghost front = (HeaderList { fields: out })@;
            let copied = copy_field(&fields.fields[i]);
            let ghost said = headers::field_view(copied);
            out.push(copied);
            proof {
                assert((HeaderList { fields: out })@ =~= front.push(said));
            }
        }
        i = i + 1;
    }
    proof {
        assert(all.take(i as int) =~= all);
    }
    fields.fields = out;
}

/// Sets a field in place of any of its name.
pub fn set_header(fields: &mut HeaderList, name: &str, value: &str)
    ensures
        final(fields)@ == with_set(old(fields)@, name@, value@),
{
    drop_header(fields, name);
    let ghost front = fields@;
    let name = text::lower(name);
    let value = bytes_of(value);
    let ghost said = (name@, value@);
    fields.fields.push(Header { name, value });
    proof {
        assert(fields@ =~= front.push(said));
    }
}

/// Sets some fields, one after the other.
pub fn set_headers(fields: &mut HeaderList, pairs: &Vec<(String, String)>)
    ensures
        final(fields)@ == with_all(old(fields)@, text::pairs_view(pairs@)),
{
    let ghost all = text::pairs_view(pairs@);
    let mut i: usize = 0;
    proof {
        assert(all.take(0) =~= Seq::empty());
    }
    while i < pairs.len()
        invariant
            i <= pairs@.len(),
            all == text::pairs_view(pairs@),
            fields@ == with_all(old(fields)@, all.take(i as int)),
        decreases pairs@.len() - i,
    {
        proof {
            assert(all.take(i + 1).drop_last() =~= all.take(i as int));
            assert(all.take(i + 1).last() == (pairs@[i as int].0@, pairs@[i as int].1@));
        }
        set_header(fields, pairs[i].0.as_str(), pairs[i].1.as_str());
        i = i + 1;
    }
    proof {
        assert(all.take(i as int) =~= all);
    }
}

/// Some pairs as header fields.
pub open spec fn as_fields(pairs: Seq<(Seq<char>, Seq<char>)>) -> Seq<(Seq<char>, Seq<u8>)> {
    pairs.map_values(
        |p: (Seq<char>, Seq<char>)| (text::lower_spec(p.0), vstd::utf8::encode_utf8(p.1)),
    )
}

/// Adds to a response what the guards of its route hand back. What the upstream sent
/// under the same names stays: a response may set many cookies.
pub fn hand_back(fields: &mut HeaderList, issued: &Vec<(String, String)>)
    ensures
        final(fields)@ == old(fields)@ + as_fields(text::pairs_view(issued@)),
{
    let ghost all = as_fields(text::pairs_view(issued@));
    let mut i: usize = 0;
    proof {
        assert(old(fields)@ + all.take(0) =~= old(fields)@);
    }
    while i < issued.len()
        invariant
            i <= issued@.len(),
            all == as_fields(text::pairs_view(issued@)),
            fields@ == old(fields)@ + all.take(i as int),
        decreases issued@.len() - i,
    {
        let ghost front = fields@;
        let name = text::lower(issued[i].0.as_str());
        let value = bytes_of(issued[i].1.as_str());
        let ghost said = (name@, value@);
        fields.fields.push(Header { name, value });
        proof {
            assert(said == all[i as int]);
            assert(fields@ =~= front.push(said));
            assert(old(fields)@ + all.take(i + 1) =~= front.push(said));
        }
        i = i + 1;
    }
    proof {
        assert(all.take(i as int) =~= all);
    }
}

/// Adds to an answer of the gateway's own what the guards of the route hand back.
pub fn hand_back_with(reply: Reply, issued: &Vec<(String, String)>) -> (r: Reply)
    ensures
        r@ == (ReplyView {
            headers: reply@.headers + text::pairs_view(issued@),
            ..reply@
        }),
{
    let mut headers = reply.headers;
    let mut more = auth::copy_pairs(issued);
    headers.append(&mut more);
    proof {
        assert(text::pairs_view(headers@) =~= reply@.headers + text::pairs_view(issued@));
    }
    Reply { status: reply.status, headers, body: reply.body }
}

/// Whether a header is one that a guard read a credential out of.
pub open spec fn is_credential(guards: Seq<auth::BoundView>, name: Seq<char>) -> bool {
    ||| guards.len() > 0 && name == "authorization"@
    ||| exists|i: int, j: int|
        0 <= i < guards.len() && 0 <= j < auth::policy_keys(guards[i].policy@).len()
            && text::lower_spec(#[trigger] auth::policy_keys(guards[i].policy@)[j]) == name
}

/// The names of the headers that the guards of a route read a credential out of.
pub fn credential_headers(guards: &Vec<RouteGuard>) -> (r: Vec<String>)
    ensures
        forall|name: Seq<char>| #[trigger]
            text::texts(r@).contains(name) <==> is_credential(auth::guards_view(guards@), name),
{
    let ghost all = auth::guards_view(guards@);
    let mut out: Vec<String> = Vec::new();
    if guards.len() > 0 {
        out.push("authorization".to_owned());
        proof {
            assert(text::texts(out@)[0] == "authorization"@);
        }
    }
    let mut i: usize = 0;
    while i < guards.len()
        invariant
            i <= guards@.len(),
            all == auth::guards_view(guards@),
            guards@.len() > 0 ==> text::texts(out@).contains("authorization"@),
            forall|k: int|
                0 <= k < out@.len() ==> is_credential(all, (#[trigger] out@[k])@),
            forall|a: int, b: int|
                0 <= a < i && 0 <= b < auth::policy_keys(all[a].policy@).len() ==> text::texts(
                    out@,
                ).contains(text::lower_spec(#[trigger] auth::policy_keys(all[a].policy@)[b])),
        decreases guards@.len() - i,
    {
        let keys = guards[i].policy.header_keys();
        let ghost named = auth::policy_keys(all[i as int].policy@);
        let mut j: usize = 0;
        while j < keys.len()
            invariant
                i < guards@.len(),
                j <= keys@.len(),
                all == auth::guards_view(guards@),
                named == auth::policy_keys(all[i as int].policy@),
                named == text::texts(keys@),
                guards@.len() > 0 ==> text::texts(out@).contains("authorization"@),
                forall|k: int|
                    0 <= k < out@.len() ==> is_credential(all, (#[trigger] out@[k])@),
                forall|a: int, b: int|
                    (0 <= a < i && 0 <= b < auth::policy_keys(all[a].policy@).len()) || (a == i && 0
                        <= b < j) ==> text::texts(out@).contains(
                        text::lower_spec(#[trigger] auth::policy_keys(all[a].policy@)[b]),
                    ),
            decreases keys@.len() - j,
        {
            let ghost before = text::texts(out@);
            let name = text::lower(keys[j].as_str());
            out.push(name);
            proof {
                assert(auth::policy_keys(all[i as int].policy@)[j as int] == keys@[j as int]@);
                assert(is_credential(all, name@));
                assert(text::texts(out@) =~= before.push(name@));
                let k0 = choose|k: int|
                    0 <= k < before.len() && before[k] == "authorization"@;
                assert(text::texts(out@)[k0] == "authorization"@);
                assert forall|a: int, b: int|
                    (0 <= a < i && 0 <= b < auth::policy_keys(all[a].policy@).len()) || (a == i && 0
                        <= b < j + 1) implies text::texts(out@).contains(
                    text::lower_spec(#[trigger] auth::policy_keys(all[a].policy@)[b]),
                ) by {
                    if a == i && b == j {
                        assert(text::texts(out@)[out@.len() - 1] == name@);
                    } else {
                        let want = text::lower_spec(auth::policy_keys(all[a].policy@)[b]);
                        let k = choose|k: int| 0 <= k < before.len() && before[k] == want;
                        assert(text::texts(out@)[k] == want);
                    }
                }
            }
            j = j + 1;
        }
        i = i + 1;
    }
    proof {
        assert forall|name: Seq<char>| #[trigger]
            text::texts(out@).contains(name) <==> is_credential(all, name) by {
            if text::texts(out@).contains(name) {
                let k = choose|k: int|
                    0 <= k < text::texts(out@).len() && text::texts(out@)[k] == name;
                assert(out@[k]@ == name);
            }
            if exists|a: int, b: int|
                0 <= a < all.len() && 0 <= b < auth::policy_keys(all[a].policy@).len()
                    && text::lower_spec(#[trigger] auth::policy_keys(all[a].policy@)[b]) == name {
                let (a, b) = choose|a: int, b: int|
                    0 <= a < all.len() && 0 <= b < auth::policy_keys(all[a].policy@).len()
                        && text::lower_spec(#[trigger] auth::policy_keys(all[a].policy@)[b])
                        == name;
                assert(text::texts(out@).contains(
                    text::lower_spec(auth::policy_keys(all[a].policy@)[b]),
                ));
            }
        }
    }
    out
}

/// Whether a name is withheld from what a client sent: the headers the gateway sets
/// itself, which a client could otherwise forge, and, unless the route relays it, the
/// caller's credential.
pub open spec fn is_withheld(
    guards: Seq<auth::BoundView>,
    forward_token: bool,
    name: Seq<char>,
) -> bool {
    auth::is_injected(guards, name) || (!forward_token && is_credential(guards, name))
}

/// The names that are withheld from what a client sent.
pub fn withheld_names(guards: &Vec<RouteGuard>, forward_token: bool) -> (r: Vec<String>)
    ensures
        forall|name: Seq<char>| #[trigger]
            text::texts(r@).contains(name) <==> is_withheld(
                auth::guards_view(guards@),
                forward_token,
                name,
            ),
{
    let mut out = auth::injected_header_names(guards);
    let ghost first = text::texts(out@);
    if !forward_token {
        let mut more = credential_headers(guards);
        let ghost second = text::texts(more@);
        out.append(&mut more);
        proof {
            assert(text::texts(out@) =~= first + second);
            assert forall|name: Seq<char>| #[trigger]
                text::texts(out@).contains(name) <==> first.contains(name) || second.contains(
                    name,
                ) by {
                if first.contains(name) {
                    let k = choose|k: int| 0 <= k < first.len() && first[k] == name;
                    assert(text::texts(out@)[k] == name);
                }
                if second.contains(name) {
                    let k = choose|k: int| 0 <= k < second.len() && second[k] == name;
                    assert(text::texts(out@)[first.len() + k] == name);
                }
                if text::texts(out@).contains(name) {
                    let k = choose|k: int|
                        0 <= k < text::texts(out@).len() && text::texts(out@)[k] == name;
                    if k < first.len() {
                        assert(first[k] == name);
                    } else {
                        assert(second[k - first.len()] == name);
                    }
                }
            }
        }
    }
    out
}

/// The address fields the gateway sets: who a request came through, and what it asked
/// for.
pub open spec fn address_pairs(
    forwarded: Option<Seq<char>>,
    scheme: Seq<char>,
    host: Seq<char>,
) -> Seq<(Seq<char>, Seq<char>)> {
    let rest = seq![("x-forwarded-proto"@, scheme), ("x-forwarded-host"@, host)];
    match forwarded {
        Some(f) => seq![("x-forwarded-for"@, f)] + rest,
        None => rest,
    }
}

/// The address fields the gateway sets.
fn address_fields(forwarded: Option<String>, scheme: &str, host: &str) -> (r: Vec<
    (String, String),
>)
    ensures
        text::pairs_view(r@) == address_pairs(text::opt_of(forwarded), scheme@, host@),
{
    let mut out: Vec<(String, String)> = Vec::new();
    if let Some(f) = forwarded {
        out.push(("x-forwarded-for".to_owned(), f));
    }
    out.push(("x-forwarded-proto".to_owned(), scheme.to_owned()));
    out.push(("x-forwarded-host".to_owned(), host.to_owned()));
    proof {
        assert(text::pairs_view(out@) =~= address_pairs(
            text::opt_of(forwarded),
            scheme@,
            host@,
        ));
    }
    out
}

/// The headers of an upstream request: what the client may send, then the address
/// fields, then the caller's identity. On an upgrade to a websocket the identity is set
/// before the address fields.
pub open spec fn upstream_fields(
    fields: Seq<(Seq<char>, Seq<u8>)>,
    withheld: Seq<Seq<char>>,
    address: Seq<(Seq<char>, Seq<char>)>,
    identity: Seq<(Seq<char>, Seq<char>)>,
    websocket: bool,
) -> Seq<(Seq<char>, Seq<u8>)> {
    let base = forwarded_fields(fields, tokens_spec(fields), withheld, websocket);
    if websocket {
        with_all(with_all(base, identity), address)
    } else {
        with_all(with_all(base, address), identity)
    }
}

/// The headers of an upstream request.
pub fn upstream_headers(
    fields: &HeaderList,
    withheld: &Vec<String>,
    peer: Option<String>,
    scheme: &str,
    host: &str,
    identity: &Vec<(String, String)>,
    websocket: bool,
) -> (r: HeaderList)
    ensures
        r@ == upstream_fields(
            fields@,
            text::texts(withheld@),
            address_pairs(
                forwarded_spec(
                    headers::text_spec(fields@, "x-forwarded-for"@),
                    text::opt_of(peer),
                ),
                scheme@,
                host@,
            ),
            text::pairs_view(identity@),
            websocket,
        ),
{
    let address = address_fields(forwarded_for(fields, peer), scheme, host);
    let mut out = forward_headers(fields, withheld, websocket);
    if websocket {
        set_headers(&mut out, identity);
        set_headers(&mut out, &address);
    } else {
        set_headers(&mut out, &address);
        set_headers(&mut out, identity);
    }
    out
}

/// The headers of an answer that are relayed.
pub open spec fn relayed_fields(
    fields: Seq<(Seq<char>, Seq<u8>)>,
    tokens: Seq<Seq<char>>,
) -> Seq<(Seq<char>, Seq<u8>)>
    decreases fields.len(),
{
    if fields.len() == 0 {
        Seq::empty()
    } else if hop_spec(fields.last().0, tokens) {
        relayed_fields(fields.drop_last(), tokens)
    } else {
        relayed_fields(fields.drop_last(), tokens).push(fields.last())
    }
}

/// The headers of an answer that are relayed: all but those of the single hop.
pub fn relay_headers(fields: &HeaderList) -> (r: HeaderList)
    ensures
        r@ == relayed_fields(fields@, tokens_spec(fields@)),
{
    let tokens = connection_tokens(fields);
    let ghost named = text::texts(tokens@);
    let mut out = HeaderList { fields: Vec::new() };
    let mut i: usize = 0;
    proof {
        assert(fields@.take(0) =~= Seq::empty());
        assert(out@ =~= Seq::empty());
    }
    while i < fields.fields.len()
        invariant
            i <= fields.fields@.len(),
            named == text::texts(tokens@),
            out@ == relayed_fields(fields@.take(i as int), named),
        decreases fields.fields@.len() - i,
    {
        let field = &fields.fields[i];
        proof {
            assert(fields@.take(i + 1).drop_last() =~= fields@.take(i as int));
            assert(fields@.take(i + 1).last() == headers::field_view(*field));
        }
        if !is_hop_by_hop(field.name.as_str(), &tokens) {
            let ghost front = out@;
            let copied = copy_field(field);
            out.fields.push(copied);
            proof {
                assert(out@ =~= front.push(headers::field_view(*field)));
            }
        }
        i = i + 1;
    }
    proof {
        assert(fields@.take(i as int) =~= fields@);
    }
    out
}

/// No header of a single hop is relayed back to a client.
pub proof fn law_hop_by_hop_headers_are_never_relayed(
    fields: Seq<(Seq<char>, Seq<u8>)>,
    tokens: Seq<Seq<char>>,
    i: int,
)
    requires
        0 <= i < relayed_fields(fields, tokens).len(),
    ensures
        !hop_spec(relayed_fields(fields, tokens)[i].0, tokens),
    decreases fields.len(),
{
    if fields.len() > 0 {
        let front = relayed_fields(fields.drop_last(), tokens);
        if i < front.len() {
            law_hop_by_hop_headers_are_never_relayed(fields.drop_last(), tokens, i);
        }
    }
}

/// What a client sends goes upstream only where it may: no header of a single hop, and
/// none that is withheld.
pub proof fn law_only_what_may_goes_upstream(
    fields: Seq<(Seq<char>, Seq<u8>)>,
    tokens: Seq<Seq<char>>,
    withheld: Seq<Seq<char>>,
    websocket: bool,
    i: int,
)
    requires
        0 <= i < forwarded_fields(fields, tokens, withheld, websocket).len(),
    ensures
        forwards(
            forwarded_fields(fields, tokens, withheld, websocket)[i].0,
            tokens,
            withheld,
            websocket,
        ),
        fields.contains(forwarded_fields(fields, tokens, withheld, websocket)[i]),
    decreases fields.len(),
{
    if fields.len() > 0 {
        let front = forwarded_fields(fields.drop_last(), tokens, withheld, websocket);
        let whole = forwarded_fields(fields, tokens, withheld, websocket);
        if i < front.len() {
            law_only_what_may_goes_upstream(
                fields.drop_last(),
                tokens,
                withheld,
                websocket,
                i,
            );
            let k = choose|k: int|
                0 <= k < fields.drop_last().len() && fields.drop_last()[k] == front[i];
            assert(fields[k] == whole[i]);
        } else {
            assert(fields[fields.len() - 1] == whole[i]);
        }
    }
}

/// Where a header is looked for among fields that none of its name is in.
pub proof fn lemma_others(fields: Seq<(Seq<char>, Seq<u8>)>, name: Seq<char>, other: Seq<char>)
    ensures
        headers::all_spec(others(fields, name), name).len() == 0,
        other != name ==> headers::all_spec(others(fields, name), other) == headers::all_spec(
            fields,
            other,
        ),
    decreases fields.len(),
{
    if fields.len() > 0 {
        lemma_others(fields.drop_last(), name, other);
        let rest = others(fields.drop_last(), name);
        if fields.last().0 != name {
            assert(rest.push(fields.last()).drop_last() =~= rest);
        }
    }
}

/// A header the gateway sets is the only one of its name upstream, whatever the client
/// sent.
pub proof fn law_a_set_header_stands_alone(
    fields: Seq<(Seq<char>, Seq<u8>)>,
    name: Seq<char>,
    value: Seq<char>,
)
    ensures
        headers::all_spec(with_set(fields, name, value), text::lower_spec(name)) == seq![
            vstd::utf8::encode_utf8(value),
        ],
{
    let low = text::lower_spec(name);
    let rest = others(fields, low);
    lemma_others(fields, low, low);
    let whole = with_set(fields, name, value);
    assert(whole.drop_last() =~= rest);
    assert(headers::all_spec(rest, low) =~= Seq::empty());
    assert(headers::all_spec(whole, low) =~= seq![vstd::utf8::encode_utf8(value)]);
}

/// Whether some pairs set a header.
pub open spec fn sets(pairs: Seq<(Seq<char>, Seq<char>)>, name: Seq<char>) -> bool {
    exists|i: int| 0 <= i < pairs.len() && text::lower_spec((#[trigger] pairs[i]).0) == name
}

/// What setting some headers leaves of one name: what was there where none of them is of
/// that name, and otherwise the value of the last that is.
pub proof fn lemma_with_all(
    fields: Seq<(Seq<char>, Seq<u8>)>,
    pairs: Seq<(Seq<char>, Seq<char>)>,
    name: Seq<char>,
    at: int,
)
    ensures
        !sets(pairs, name) ==> headers::all_spec(with_all(fields, pairs), name)
            == headers::all_spec(fields, name),
        0 <= at < pairs.len() && text::lower_spec(pairs[at].0) == name && !sets(
            pairs.skip(at + 1),
            name,
        ) ==> headers::all_spec(with_all(fields, pairs), name) == seq![
            vstd::utf8::encode_utf8(pairs[at].1),
        ],
    decreases pairs.len(),
{
    if pairs.len() > 0 {
        let front = pairs.drop_last();
        let last = pairs.last();
        lemma_with_all(fields, front, name, at);
        let had = with_all(fields, front);
        if text::lower_spec(last.0) == name {
            law_a_set_header_stands_alone(had, last.0, last.1);
            assert(sets(pairs, name)) by {
                assert(pairs[pairs.len() - 1] == last);
            }
            if 0 <= at < pairs.len() - 1 {
                assert(sets(pairs.skip(at + 1), name)) by {
                    assert(pairs.skip(at + 1)[pairs.len() - at - 2] == last);
                }
            }
        } else {
            lemma_others(had, text::lower_spec(last.0), name);
            let rest = others(had, text::lower_spec(last.0));
            assert(with_set(had, last.0, last.1).drop_last() =~= rest);
            if sets(front, name) {
                let i = choose|i: int|
                    0 <= i < front.len() && text::lower_spec((#[trigger] front[i]).0) == name;
                assert(pairs[i] == front[i]);
            }
            if 0 <= at < front.len() && sets(front.skip(at + 1), name) {
                let rest = front.skip(at + 1);
                let i = choose|i: int|
                    0 <= i < rest.len() && text::lower_spec((#[trigger] rest[i]).0) == name;
                assert(pairs.skip(at + 1)[i] == rest[i]);
            }
        }
    }
}

/// Nothing of a name that is withheld is among what a client may send.
proof fn lemma_withheld(
    fields: Seq<(Seq<char>, Seq<u8>)>,
    tokens: Seq<Seq<char>>,
    withheld: Seq<Seq<char>>,
    websocket: bool,
    name: Seq<char>,
)
    requires
        !forwards(name, tokens, withheld, websocket),
    ensures
        headers::all_spec(forwarded_fields(fields, tokens, withheld, websocket), name)
            == Seq::<Seq<u8>>::empty(),
    decreases fields.len(),
{
    if fields.len() > 0 {
        lemma_withheld(fields.drop_last(), tokens, withheld, websocket, name);
        let front = forwarded_fields(fields.drop_last(), tokens, withheld, websocket);
        assert(front.push(fields.last()).drop_last() =~= front);
    }
}

/// A client cannot forge what the gateway withholds: a header of such a name is not in
/// an upstream request at all, unless the gateway itself sets it.
pub proof fn law_a_client_cannot_send_what_is_withheld(
    fields: Seq<(Seq<char>, Seq<u8>)>,
    withheld: Seq<Seq<char>>,
    address: Seq<(Seq<char>, Seq<char>)>,
    identity: Seq<(Seq<char>, Seq<char>)>,
    websocket: bool,
    name: Seq<char>,
)
    requires
        withheld.contains(name),
        !sets(address, name),
        !sets(identity, name),
    ensures
        headers::all_spec(
            upstream_fields(fields, withheld, address, identity, websocket),
            name,
        ).len() == 0,
{
    let tokens = tokens_spec(fields);
    let base = forwarded_fields(fields, tokens, withheld, websocket);
    lemma_withheld(fields, tokens, withheld, websocket, name);
    lemma_with_all(base, address, name, 0);
    lemma_with_all(base, identity, name, 0);
    lemma_with_all(with_all(base, address), identity, name, 0);
    lemma_with_all(with_all(base, identity), address, name, 0);
}

/// The upstream learns the caller's identity from the gateway alone: a header of the
/// identity reaches it once, with the value the gateway gave it, whatever the client
/// sent under that name. Of two values for one name the later counts. On an upgrade to a
/// websocket an address field of the same name counts instead.
pub proof fn law_identity_reaches_the_upstream(
    fields: Seq<(Seq<char>, Seq<u8>)>,
    withheld: Seq<Seq<char>>,
    address: Seq<(Seq<char>, Seq<char>)>,
    identity: Seq<(Seq<char>, Seq<char>)>,
    websocket: bool,
    at: int,
)
    requires
        0 <= at < identity.len(),
        !sets(identity.skip(at + 1), text::lower_spec(identity[at].0)),
        websocket ==> !sets(address, text::lower_spec(identity[at].0)),
    ensures
        headers::all_spec(
            upstream_fields(fields, withheld, address, identity, websocket),
            text::lower_spec(identity[at].0),
        ) == seq![vstd::utf8::encode_utf8(identity[at].1)],
{
    let base = forwarded_fields(fields, tokens_spec(fields), withheld, websocket);
    let name = text::lower_spec(identity[at].0);
    lemma_with_all(base, identity, name, at);
    lemma_with_all(with_all(base, address), identity, name, at);
    lemma_with_all(with_all(base, identity), address, name, 0);
}

/// Where the authorization provider gives no answer, the request is refused with 503
/// rather than guessed at, and nothing is remembered of the token.
pub proof fn law_no_answer_is_refused_rather_than_guessed_at(
    p: ProviderView,
    before: ProviderCache,
    token: Seq<char>,
    introspection: Map<Seq<char>, JsonView>,
    reply: ProviderReply,
    at: Moment,
    step: Step,
    after: ProviderCache,
)
    requires
        !(reply is Claims),
        provider::after_introspection(p, before, token, reply, at, step, after)
            || provider::after_userinfo(p, before, token, introspection, reply, at, step, after),
    ensures
        after == before,
        step matches Step::Done(Err(outcome)) && (refusal_reply(outcome@) matches Some(said)
            && said.status == 503),
{
}

} // verus!
