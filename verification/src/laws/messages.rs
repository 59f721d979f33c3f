//! Which headers go upstream and come back, and what the gateway answers itself.

use crate::auth::{AuthOutcome, AuthPolicy, RouteGuard};
use crate::filters;
use crate::headers;
use crate::headers::HeaderList;
use crate::plugins::wasm::{EditsView, FilterOutcome, HeaderEdits};
use crate::proxy;
use crate::proxy::Reply;
use crate::registry::{Resolution, Resolved};
use crate::text;
use vstd::prelude::*;
use vstd::string::*;

verus! {

/// The values of the fields of a name, in order.
pub open spec fn values_of(fields: Seq<(Seq<char>, Seq<u8>)>, name: Seq<char>) -> Seq<Seq<u8>> {
    fields.filter(|f: (Seq<char>, Seq<u8>)| f.0 == name).map_values(
        |f: (Seq<char>, Seq<u8>)| f.1,
    )
}

/// The values that are looked up under a name are those of its fields.
proof fn lemma_values(fields: Seq<(Seq<char>, Seq<u8>)>, name: Seq<char>)
    ensures
        headers::all_spec(fields, name) == values_of(fields, name),
    decreases fields.len(),
{
    reveal(Seq::filter);
    let value = |f: (Seq<char>, Seq<u8>)| f.1;
    if fields.len() == 0 {
        assert(headers::all_spec(fields, name) =~= values_of(fields, name));
    } else {
        lemma_values(fields.drop_last(), name);
        let front = fields.drop_last().filter(|f: (Seq<char>, Seq<u8>)| f.0 == name);
        if fields.last().0 == name {
            assert(front.push(fields.last()).map_values(value) =~= front.map_values(value).push(
                fields.last().1,
            ));
        }
    }
}

/// Every header that a client sends goes upstream, as often as it was sent and in order,
/// but for those of a single hop, those that `Connection` names, the host, the length, the
/// addresses that the gateway writes itself, the handshake of a websocket, and what is
/// withheld.
pub proof fn law_what_goes_upstream(
    fields: HeaderList,
    withheld: Vec<String>,
    websocket: bool,
    named: Vec<String>,
    r: HeaderList,
)
    requires
        call_ensures(proxy::forward_headers, (&fields, &withheld, websocket), r),
        call_ensures(proxy::connection_tokens, (&fields,), named),
    ensures
        r@ == fields@.filter(
            |f: (Seq<char>, Seq<u8>)|
                f.0 != "connection"@ && f.0 != "keep-alive"@ && f.0 != "proxy-authenticate"@ && f.0
                    != "proxy-authorization"@ && f.0 != "proxy-connection"@ && f.0 != "te"@ && f.0
                    != "trailer"@ && f.0 != "transfer-encoding"@ && f.0 != "upgrade"@ && f.0
                    != "host"@ && f.0 != "content-length"@ && !text::texts(named@).contains(f.0)
                    && !"x-forwarded-"@.is_prefix_of(f.0) && !(websocket
                    && "sec-websocket-"@.is_prefix_of(f.0)) && !text::texts(withheld@).contains(
                    f.0,
                ),
        ),
{
    lemma_forwarded(fields@, text::texts(named@), text::texts(withheld@), websocket);
}

/// What is forwarded of some fields is what a test of the names lets through.
proof fn lemma_forwarded(
    fields: Seq<(Seq<char>, Seq<u8>)>,
    named: Seq<Seq<char>>,
    withheld: Seq<Seq<char>>,
    websocket: bool,
)
    ensures
        proxy::forwarded_fields(fields, named, withheld, websocket) == fields.filter(
            |f: (Seq<char>, Seq<u8>)|
                f.0 != "connection"@ && f.0 != "keep-alive"@ && f.0 != "proxy-authenticate"@ && f.0
                    != "proxy-authorization"@ && f.0 != "proxy-connection"@ && f.0 != "te"@ && f.0
                    != "trailer"@ && f.0 != "transfer-encoding"@ && f.0 != "upgrade"@ && f.0
                    != "host"@ && f.0 != "content-length"@ && !named.contains(f.0)
                    && !"x-forwarded-"@.is_prefix_of(f.0) && !(websocket
                    && "sec-websocket-"@.is_prefix_of(f.0)) && !withheld.contains(f.0),
        ),
    decreases fields.len(),
{
    reveal(Seq::filter);
    if fields.len() > 0 {
        lemma_forwarded(fields.drop_last(), named, withheld, websocket);
    }
}

/// Every header of an answer comes back, as often as it was sent and in order, but for
/// those of a single hop and those that `Connection` names.
pub proof fn law_what_comes_back(fields: HeaderList, named: Vec<String>, r: HeaderList)
    requires
        call_ensures(proxy::relay_headers, (&fields,), r),
        call_ensures(proxy::connection_tokens, (&fields,), named),
    ensures
        r@ == fields@.filter(
            |f: (Seq<char>, Seq<u8>)|
                f.0 != "connection"@ && f.0 != "keep-alive"@ && f.0 != "proxy-authenticate"@ && f.0
                    != "proxy-authorization"@ && f.0 != "proxy-connection"@ && f.0 != "te"@ && f.0
                    != "trailer"@ && f.0 != "transfer-encoding"@ && f.0 != "upgrade"@
                    && !text::texts(named@).contains(f.0),
        ),
{
    lemma_relayed(fields@, text::texts(named@));
}

/// What is relayed of some fields is what a test of the names lets through.
proof fn lemma_relayed(fields: Seq<(Seq<char>, Seq<u8>)>, named: Seq<Seq<char>>)
    ensures
        proxy::relayed_fields(fields, named) == fields.filter(
            |f: (Seq<char>, Seq<u8>)|
                f.0 != "connection"@ && f.0 != "keep-alive"@ && f.0 != "proxy-authenticate"@ && f.0
                    != "proxy-authorization"@ && f.0 != "proxy-connection"@ && f.0 != "te"@ && f.0
                    != "trailer"@ && f.0 != "transfer-encoding"@ && f.0 != "upgrade"@
                    && !named.contains(f.0),
        ),
    decreases fields.len(),
{
    reveal(Seq::filter);
    if fields.len() > 0 {
        lemma_relayed(fields.drop_last(), named);
    }
}

/// Whether `piece` is what stands between two commas of a text, or between one and an end.
pub open spec fn between_commas(s: Seq<char>, piece: Seq<char>) -> bool {
    !piece.contains(',') && exists|a: Seq<char>, b: Seq<char>|
        #![trigger a + piece + b]
        s == a + piece + b && (a.len() == 0 || a.last() == ',') && (b.len() == 0 || b[0] == ',')
}

/// The pieces of a text that is cut at commas are what stands between them.
#[verifier::spinoff_prover]
#[verifier::rlimit(50)]
proof fn lemma_pieces(s: Seq<char>, piece: Seq<char>)
    ensures
        text::split_spec(s, ',').contains(piece) <==> between_commas(s, piece),
    decreases s.len(),
{
    let parts = text::split_spec(s, ',');
    text::lemma_find(s, ',');
    let at = text::find_spec(s, ',');
    if at >= s.len() {
        assert(parts =~= seq![s]);
        if parts.contains(piece) {
            assert(piece == s);
            assert(!piece.contains(',')) by {
                if piece.contains(',') {
                    let k = choose|k: int| 0 <= k < piece.len() && piece[k] == ',';
                    assert(s[k] != ',');
                }
            }
            assert(s =~= Seq::<char>::empty() + piece + Seq::<char>::empty());
        }
        if between_commas(s, piece) {
            let (a, b) = choose|a: Seq<char>, b: Seq<char>|
                #![trigger a + piece + b]
                s == a + piece + b && (a.len() == 0 || a.last() == ',') && (b.len() == 0 || b[0]
                    == ',');
            if a.len() > 0 {
                assert(s[a.len() - 1] == a.last());
            }
            if b.len() > 0 {
                assert(s[(a.len() + piece.len()) as int] == b[0]);
            }
            assert(s =~= piece);
            assert(parts[0] == piece);
        }
    } else {
        let head = s.take(at);
        let rest = s.skip(at + 1);
        assert(parts =~= seq![head] + text::split_spec(rest, ','));
        lemma_pieces(rest, piece);
        assert(!head.contains(',')) by {
            if head.contains(',') {
                let k = choose|k: int| 0 <= k < head.len() && head[k] == ',';
                assert(s[k] != ',');
            }
        }
        if parts.contains(piece) {
            let k = choose|k: int| 0 <= k < parts.len() && parts[k] == piece;
            if k == 0 {
                assert(s =~= Seq::<char>::empty() + piece + s.skip(at));
                assert(s.skip(at)[0] == ',');
            } else {
                assert(text::split_spec(rest, ',')[k - 1] == piece);
                let (a, b) = choose|a: Seq<char>, b: Seq<char>|
                    #![trigger a + piece + b]
                    rest == a + piece + b && (a.len() == 0 || a.last() == ',') && (b.len() == 0
                        || b[0] == ',');
                let longer = s.take(at + 1) + a;
                assert(s =~= s.take(at + 1) + rest);
                assert(s.take(at + 1) + (a + piece + b) =~= longer + piece + b);
                assert(s == longer + piece + b);
                assert(longer.last() == ',');
            }
        }
        if between_commas(s, piece) {
            let (a, b) = choose|a: Seq<char>, b: Seq<char>|
                #![trigger a + piece + b]
                s == a + piece + b && (a.len() == 0 || a.last() == ',') && (b.len() == 0 || b[0]
                    == ',');
            if a.len() == 0 {
                assert(s =~= piece + b);
                if piece.len() > at {
                    assert(piece[at] == s[at]);
                    assert(piece.contains(','));
                }
                if b.len() > 0 {
                    assert(s[piece.len() as int] == b[0]);
                }
                assert(piece.len() == at);
                assert(piece =~= head);
                assert(parts[0] == piece);
            } else {
                assert(s[a.len() - 1] == ',');
                assert(a.len() > at);
                let less = a.skip(at + 1);
                assert(rest =~= less + piece + b);
                assert(less.len() > 0 ==> less.last() == a.last());
                assert(text::split_spec(rest, ',').contains(piece));
                let k = choose|k: int|
                    0 <= k < text::split_spec(rest, ',').len() && text::split_spec(rest, ',')[k]
                        == piece;
                assert(parts[k + 1] == piece);
            }
        }
    }
}

/// The pieces that say anything are the trimmed ones of those that are there.
proof fn lemma_filled(pieces: Seq<Seq<char>>, t: Seq<char>)
    ensures
        proxy::filled_pieces(pieces).contains(t) <==> t.len() > 0 && exists|p: Seq<char>|
            pieces.contains(p) && #[trigger] text::trim_spec(p) == t,
    decreases pieces.len(),
{
    if pieces.len() > 0 {
        let front = pieces.drop_last();
        let last = pieces.last();
        lemma_filled(front, t);
        assert(pieces.contains(last)) by {
            assert(pieces[pieces.len() - 1] == last);
        }
        assert forall|p: Seq<char>| pieces.contains(p) <==> front.contains(p) || p == last by {
            if front.contains(p) {
                let k = choose|k: int| 0 <= k < front.len() && front[k] == p;
                assert(pieces[k] == p);
            }
            if pieces.contains(p) && p != last {
                let k = choose|k: int| 0 <= k < pieces.len() && pieces[k] == p;
                assert(front[k] == p);
            }
        }
        let had = proxy::filled_pieces(front);
        let whole = proxy::filled_pieces(pieces);
        if text::trim_spec(last).len() > 0 {
            assert(whole[whole.len() - 1] == text::trim_spec(last));
            if had.contains(t) {
                let k = choose|k: int| 0 <= k < had.len() && had[k] == t;
                assert(whole[k] == t);
            }
            if whole.contains(t) && t != text::trim_spec(last) {
                let k = choose|k: int| 0 <= k < whole.len() && whole[k] == t;
                assert(had[k] == t);
            }
        }
    }
}

/// What is listed in some values is what one of them lists.
proof fn lemma_listed(values: Seq<Seq<char>>, t: Seq<char>)
    ensures
        proxy::listed(values).contains(t) <==> exists|v: Seq<char>|
            values.contains(v) && proxy::filled_pieces(#[trigger] text::split_spec(v, ',')).contains(
                t,
            ),
    decreases values.len(),
{
    if values.len() > 0 {
        let front = values.drop_last();
        let last = values.last();
        lemma_listed(front, t);
        let a = proxy::listed(front);
        let b = proxy::filled_pieces(text::split_spec(last, ','));
        let whole = a + b;
        assert(values[values.len() - 1] == last);
        if a.contains(t) {
            let k = choose|k: int| 0 <= k < a.len() && a[k] == t;
            assert(whole[k] == t);
            let v = choose|v: Seq<char>|
                front.contains(v) && proxy::filled_pieces(
                    #[trigger] text::split_spec(v, ','),
                ).contains(t);
            let j = choose|j: int| 0 <= j < front.len() && front[j] == v;
            assert(values[j] == v);
        }
        if b.contains(t) {
            let k = choose|k: int| 0 <= k < b.len() && b[k] == t;
            assert(whole[a.len() + k] == t);
        }
        if whole.contains(t) {
            let k = choose|k: int| 0 <= k < whole.len() && whole[k] == t;
            if k < a.len() {
                assert(a[k] == t);
            } else {
                assert(b[k - a.len()] == t);
            }
        }
        if exists|v: Seq<char>|
            values.contains(v) && proxy::filled_pieces(#[trigger] text::split_spec(v, ',')).contains(
                t,
            ) {
            let v = choose|v: Seq<char>|
                values.contains(v) && proxy::filled_pieces(
                    #[trigger] text::split_spec(v, ','),
                ).contains(t);
            let j = choose|j: int| 0 <= j < values.len() && values[j] == v;
            if j < front.len() {
                assert(front[j] == v);
                assert(front.contains(v));
            }
        }
    }
}

/// The texts that are kept of some values are those of the values that are text.
proof fn lemma_kept(values: Seq<Seq<u8>>, s: Seq<char>)
    ensures
        headers::kept_texts(values).contains(s) <==> exists|i: int|
            0 <= i < values.len() && headers::value_text(#[trigger] values[i]) == Some(s),
    decreases values.len(),
{
    if values.len() > 0 {
        let front = values.drop_last();
        lemma_kept(front, s);
        assert(values[values.len() - 1] == values.last());
        assert(forall|i: int| 0 <= i < front.len() ==> front[i] == values[i]);
        let had = headers::kept_texts(front);
        let whole = headers::kept_texts(values);
        if had.contains(s) {
            let k = choose|k: int| 0 <= k < had.len() && had[k] == s;
            assert(whole[k] == s);
            let i = choose|i: int|
                0 <= i < front.len() && headers::value_text(#[trigger] front[i]) == Some(s);
            assert(headers::value_text(values[i]) == Some(s));
        }
        if headers::value_text(values.last()) == Some(s) {
            assert(whole[whole.len() - 1] == s);
        }
        if whole.contains(s) {
            let k = choose|k: int| 0 <= k < whole.len() && whole[k] == s;
            if k < had.len() {
                assert(had[k] == s);
            }
        }
        if exists|i: int|
            0 <= i < values.len() && headers::value_text(#[trigger] values[i]) == Some(s) {
            let i = choose|i: int|
                0 <= i < values.len() && headers::value_text(#[trigger] values[i]) == Some(s);
            if i < front.len() {
                assert(headers::value_text(front[i]) == Some(s));
            }
        }
    }
}

/// Each value of a name is that of a field.
proof fn lemma_all_from(fields: Seq<(Seq<char>, Seq<u8>)>, name: Seq<char>, v: Seq<u8>)
    ensures
        headers::all_spec(fields, name).contains(v) <==> fields.contains((name, v)),
    decreases fields.len(),
{
    if fields.len() > 0 {
        let front = fields.drop_last();
        lemma_all_from(front, name, v);
        let had = headers::all_spec(front, name);
        let whole = headers::all_spec(fields, name);
        assert(fields[fields.len() - 1] == fields.last());
        if front.contains((name, v)) {
            let k = choose|k: int| 0 <= k < front.len() && front[k] == (name, v);
            assert(fields[k] == (name, v));
        }
        if had.contains(v) {
            let k = choose|k: int| 0 <= k < had.len() && had[k] == v;
            assert(whole[k] == v);
        }
        if fields.last().0 == name {
            assert(whole[whole.len() - 1] == fields.last().1);
        }
        if whole.contains(v) {
            let k = choose|k: int| 0 <= k < whole.len() && whole[k] == v;
            if k < had.len() {
                assert(had[k] == v);
            }
        }
        if fields.contains((name, v)) {
            let k = choose|k: int| 0 <= k < fields.len() && fields[k] == (name, v);
            if k < front.len() {
                assert(front[k] == (name, v));
            }
        }
    }
}

/// A list of a header that may stand more than once holds what stands between the commas of
/// any of its values that are text, without the white space around it, where anything is
/// left.
pub proof fn law_what_a_header_lists(fields: HeaderList, name: &str, r: Vec<String>, t: Seq<char>)
    requires
        call_ensures(proxy::list_header, (&fields, name), r),
    ensures
        text::texts(r@).contains(t) <==> (t.len() > 0 && exists|v: Seq<u8>, piece: Seq<char>|
            #![trigger fields@.contains((text::lower_spec(name@), v)), text::trim_spec(piece)]
            fields@.contains((text::lower_spec(name@), v)) && headers::value_text(v) is Some
                && between_commas(headers::value_text(v)->Some_0, piece) && text::trim_spec(piece)
                == t),
{
    let low = text::lower_spec(name@);
    let values = headers::all_spec(fields@, low);
    let kept = headers::kept_texts(values);
    lemma_listed(kept, t);
    if text::texts(r@).contains(t) {
        let s = choose|s: Seq<char>|
            kept.contains(s) && proxy::filled_pieces(#[trigger] text::split_spec(s, ',')).contains(
                t,
            );
        lemma_kept(values, s);
        lemma_filled(text::split_spec(s, ','), t);
        let i = choose|i: int|
            0 <= i < values.len() && headers::value_text(#[trigger] values[i]) == Some(s);
        assert(values.contains(values[i]));
        lemma_all_from(fields@, low, values[i]);
        let piece = choose|p: Seq<char>|
            text::split_spec(s, ',').contains(p) && #[trigger] text::trim_spec(p) == t;
        lemma_pieces(s, piece);
        assert(fields@.contains((low, values[i])));
    }
    if t.len() > 0 && exists|v: Seq<u8>, piece: Seq<char>|
        #![trigger fields@.contains((low, v)), text::trim_spec(piece)]
        fields@.contains((low, v)) && headers::value_text(v) is Some && between_commas(
            headers::value_text(v)->Some_0,
            piece,
        ) && text::trim_spec(piece) == t {
        let (v, piece) = choose|v: Seq<u8>, piece: Seq<char>|
            #![trigger fields@.contains((low, v)), text::trim_spec(piece)]
            fields@.contains((low, v)) && headers::value_text(v) is Some && between_commas(
                headers::value_text(v)->Some_0,
                piece,
            ) && text::trim_spec(piece) == t;
        let s = headers::value_text(v)->Some_0;
        lemma_all_from(fields@, low, v);
        let i = choose|i: int| 0 <= i < values.len() && values[i] == v;
        assert(headers::value_text(values[i]) == Some(s));
        lemma_kept(values, s);
        lemma_pieces(s, piece);
        lemma_filled(text::split_spec(s, ','), t);
    }
}

/// The headers that `Connection` names are what its values list, in small letters.
pub proof fn law_what_connection_names(
    fields: HeaderList,
    listed: Vec<String>,
    r: Vec<String>,
    i: int,
)
    requires
        call_ensures(proxy::connection_tokens, (&fields,), r),
        call_ensures(proxy::list_header, (&fields, "connection"), listed),
        0 <= i < r@.len(),
    ensures
        r@.len() == listed@.len(),
        r@[i]@ == text::lower_spec(listed@[i]@),
{
    let named = text::texts(listed@);
    let all = text::texts(r@);
    assert(all.len() == r@.len() && named.len() == listed@.len());
    assert(all[i] == r@[i]@);
    assert(named[i] == listed@[i]@);
}

/// A value is read as text where each of its bytes is visible ASCII or a tab, and each byte
/// is then one character.
pub proof fn law_which_values_are_text(v: Vec<u8>, r: Option<String>)
    requires
        call_ensures(headers::text_value, (&v,), r),
    ensures
        r is Some <==> forall|i: int|
            0 <= i < v@.len() ==> 32 <= #[trigger] v@[i] <= 126 || v@[i] == 9,
        r matches Some(s) ==> s@.len() == v@.len() && forall|i: int|
            0 <= i < v@.len() ==> #[trigger] s@[i] as u32 == v@[i] as u32,
{
    if r is Some {
        assert forall|i: int| 0 <= i < v@.len() implies 32 <= #[trigger] v@[i] <= 126 || v@[i]
            == 9 by {
            assert(headers::visible(v@[i]));
        }
    }
}

/// A header is read from the first field of its name, in whatever case it is asked for.
pub proof fn law_the_first_field_is_read(
    fields: HeaderList,
    key: &str,
    r: Option<String>,
    at: int,
)
    requires
        call_ensures(HeaderList::text, (&fields, key), r),
        0 <= at <= fields@.len(),
        forall|i: int| 0 <= i < at ==> (#[trigger] fields@[i]).0 != text::lower_spec(key@),
    ensures
        at == fields@.len() ==> r is None,
        at < fields@.len() && fields@[at].0 == text::lower_spec(key@) ==> text::opt_of(r)
            == headers::value_text(fields@[at].1),
{
    lemma_first(fields@, text::lower_spec(key@), at);
}

/// The first value of a name is that of its first field.
proof fn lemma_first(fields: Seq<(Seq<char>, Seq<u8>)>, name: Seq<char>, at: int)
    requires
        0 <= at <= fields.len(),
        forall|i: int| 0 <= i < at ==> (#[trigger] fields[i]).0 != name,
    ensures
        at == fields.len() ==> headers::all_spec(fields, name).len() == 0,
        at < fields.len() && fields[at].0 == name ==> headers::all_spec(fields, name).len() > 0
            && headers::all_spec(fields, name)[0] == fields[at].1,
    decreases fields.len(),
{
    if fields.len() > 0 {
        let front = fields.drop_last();
        assert(forall|i: int| 0 <= i < front.len() ==> front[i] == fields[i]);
        if at == fields.len() {
            lemma_first(front, name, at - 1);
            assert(fields[at - 1].0 != name);
        } else {
            lemma_first(front, name, at);
        }
    }
}

/// Who a request came through is what it says itself, and its peer behind that.
pub proof fn law_who_a_request_came_through(
    fields: HeaderList,
    peer: Option<String>,
    said: Option<String>,
    r: Option<String>,
)
    requires
        call_ensures(proxy::forwarded_for, (&fields, peer), r),
        call_ensures(HeaderList::text, (&fields, "x-forwarded-for"), said),
    ensures
        match (said, peer) {
            (Some(s), Some(p)) => r matches Some(x) && x@ == s@ + seq![',', ' '] + p@,
            (Some(s), None) => r matches Some(x) && x@ == s@,
            (None, Some(p)) => r matches Some(x) && x@ == p@,
            (None, None) => r is None,
        },
{
    reveal_strlit(", ");
    assert(", "@ =~= seq![',', ' ']);
}

/// Whether none of some pairs is of a name, whatever the case.
pub open spec fn sets_none(pairs: Seq<(String, String)>, name: Seq<char>) -> bool {
    forall|i: int| 0 <= i < pairs.len() ==> text::lower_spec((#[trigger] pairs[i]).0@) != name
}

/// An upstream request carries the addresses that the gateway writes, each once, the
/// caller's identity, and of every other name exactly what may be forwarded of it.
pub proof fn law_what_an_upstream_request_carries(
    fields: HeaderList,
    withheld: Vec<String>,
    peer: Option<String>,
    scheme: &str,
    host: &str,
    identity: Vec<(String, String)>,
    websocket: bool,
    r: HeaderList,
    through: Option<String>,
    forwarded: HeaderList,
    name: Seq<char>,
)
    requires
        call_ensures(
            proxy::upstream_headers,
            (&fields, &withheld, peer, scheme, host, &identity, websocket),
            r,
        ),
        call_ensures(proxy::forwarded_for, (&fields, peer), through),
        call_ensures(proxy::forward_headers, (&fields, &withheld, websocket), forwarded),
        sets_none(identity@, name),
    ensures
        name == "x-forwarded-proto"@ ==> values_of(r@, name) == seq![
            vstd::utf8::encode_utf8(scheme@),
        ],
        name == "x-forwarded-host"@ ==> values_of(r@, name) == seq![
            vstd::utf8::encode_utf8(host@),
        ],
        name == "x-forwarded-for"@ && through is Some ==> values_of(r@, name) == seq![
            vstd::utf8::encode_utf8(through->Some_0@),
        ],
        name == "x-forwarded-for"@ && through is None ==> values_of(r@, name) == values_of(
            forwarded@,
            name,
        ),
        name != "x-forwarded-proto"@ && name != "x-forwarded-host"@ && name != "x-forwarded-for"@
            ==> values_of(r@, name) == values_of(forwarded@, name),
{
    let said = proxy::forwarded_spec(
        headers::text_spec(fields@, "x-forwarded-for"@),
        text::opt_of(peer),
    );
    let address = proxy::address_pairs(said, scheme@, host@);
    let who = text::pairs_view(identity@);
    let base = forwarded@;
    lemma_values(r@, name);
    lemma_values(base, name);
    assert(!proxy::sets(who, name)) by {
        if proxy::sets(who, name) {
            let i = choose|i: int|
                0 <= i < who.len() && text::lower_spec((#[trigger] who[i]).0) == name;
            assert(text::lower_spec(identity@[i].0@) != name);
        }
    }
    lemma_address_names();
    let extra: int = if said is Some {
        1
    } else {
        0
    };
    let at: int = if name == "x-forwarded-proto"@ {
        extra
    } else if name == "x-forwarded-host"@ {
        extra + 1
    } else {
        0
    };
    proxy::lemma_with_all(base, who, name, 0);
    proxy::lemma_with_all(base, address, name, at);
    proxy::lemma_with_all(proxy::with_all(base, who), address, name, at);
    proxy::lemma_with_all(proxy::with_all(base, address), who, name, 0);
    if extra == 1 {
        assert(address[0] == ("x-forwarded-for"@, said->Some_0));
    }
    assert(address[extra] == ("x-forwarded-proto"@, scheme@));
    assert(address[extra + 1] == ("x-forwarded-host"@, host@));
    assert(address.len() == extra + 2);
    let rest = address.skip(at + 1);
    assert(forall|i: int| 0 <= i < rest.len() ==> rest[i] == address[at + 1 + i]);
    if proxy::sets(rest, name) {
        let i = choose|i: int|
            0 <= i < rest.len() && text::lower_spec((#[trigger] rest[i]).0) == name;
        assert(rest[i] == address[at + 1 + i]);
    }
    if proxy::sets(address, name) {
        let i = choose|i: int|
            0 <= i < address.len() && text::lower_spec((#[trigger] address[i]).0) == name;
    }
}

/// The names of the address fields are in small letters, and differ.
proof fn lemma_address_names()
    ensures
        text::lower_spec("x-forwarded-for"@) == "x-forwarded-for"@,
        text::lower_spec("x-forwarded-proto"@) == "x-forwarded-proto"@,
        text::lower_spec("x-forwarded-host"@) == "x-forwarded-host"@,
        "x-forwarded-for"@ != "x-forwarded-proto"@,
        "x-forwarded-for"@ != "x-forwarded-host"@,
        "x-forwarded-host"@ != "x-forwarded-proto"@,
{
    reveal_strlit("x-forwarded-for");
    reveal_strlit("x-forwarded-proto");
    reveal_strlit("x-forwarded-host");
    assert(text::lower_spec("x-forwarded-for"@) =~= "x-forwarded-for"@);
    assert(text::lower_spec("x-forwarded-proto"@) =~= "x-forwarded-proto"@);
    assert(text::lower_spec("x-forwarded-host"@) =~= "x-forwarded-host"@);
}

/// A header that no filter removes or sets stands as it was, and so does every other.
pub proof fn law_filters_leave_the_rest_alone(
    fields: Seq<(Seq<char>, Seq<u8>)>,
    e: EditsView,
    name: Seq<char>,
)
    requires
        forall|i: int| 0 <= i < e.set.len() ==> text::lower_spec((#[trigger] e.set[i]).0) != name,
        forall|i: int| 0 <= i < e.remove.len() ==> text::lower_spec(#[trigger] e.remove[i]) != name,
    ensures
        values_of(filters::changed(fields, e), name) == values_of(fields, name),
{
    lemma_untouched(fields, e.remove, name);
    filters::lemma_with_all(filters::without_all(fields, e.remove), e.set, name);
    lemma_values(filters::changed(fields, e), name);
    lemma_values(fields, name);
}

/// Taking other names out does not touch a name.
proof fn lemma_untouched(
    fields: Seq<(Seq<char>, Seq<u8>)>,
    names: Seq<Seq<char>>,
    name: Seq<char>,
)
    requires
        forall|i: int| 0 <= i < names.len() ==> text::lower_spec(#[trigger] names[i]) != name,
    ensures
        headers::all_spec(filters::without_all(fields, names), name) == headers::all_spec(
            fields,
            name,
        ),
    decreases names.len(),
{
    if names.len() > 0 {
        let front = names.drop_last();
        assert forall|i: int| 0 <= i < front.len() implies text::lower_spec(#[trigger] front[i])
            != name by {
            assert(front[i] == names[i]);
        }
        lemma_untouched(fields, front, name);
        assert(text::lower_spec(names[names.len() - 1]) != name);
        proxy::lemma_others(
            filters::without_all(fields, front),
            text::lower_spec(names.last()),
            name,
        );
    }
}

/// A header the gateway sets takes the place of every one of its name, and touches no other.
pub proof fn law_setting_a_header(
    fields: Seq<(Seq<char>, Seq<u8>)>,
    name: Seq<char>,
    value: Seq<char>,
    other: Seq<char>,
)
    ensures
        values_of(proxy::with_set(fields, name, value), text::lower_spec(name)) == seq![
            vstd::utf8::encode_utf8(value),
        ],
        other != text::lower_spec(name) ==> values_of(proxy::with_set(fields, name, value), other)
            == values_of(fields, other),
{
    let low = text::lower_spec(name);
    let whole = proxy::with_set(fields, name, value);
    proxy::law_a_set_header_stands_alone(fields, name, value);
    proxy::lemma_others(fields, low, other);
    assert(whole.drop_last() =~= proxy::others(fields, low));
    lemma_values(whole, low);
    lemma_values(whole, other);
    lemma_values(fields, other);
}

/// What the guards hand back is added behind what is there, name by name.
pub proof fn law_what_is_handed_back(pairs: Seq<(Seq<char>, Seq<char>)>, i: int)
    requires
        0 <= i < pairs.len(),
    ensures
        proxy::as_fields(pairs).len() == pairs.len(),
        proxy::as_fields(pairs)[i] == (
            text::lower_spec(pairs[i].0),
            vstd::utf8::encode_utf8(pairs[i].1),
        ),
{
}

/// What the guards hand back is added to an answer, which says what it said.
pub proof fn law_an_answer_with_what_is_handed_back(
    reply: Reply,
    issued: Vec<(String, String)>,
    r: Reply,
)
    requires
        call_ensures(proxy::hand_back_with, (reply, &issued), r),
    ensures
        r.status == reply.status,
        r.body@ == reply.body@,
        text::pairs_view(r.headers@) == text::pairs_view(reply.headers@) + text::pairs_view(
            issued@,
        ),
{
    assert(r@.status == reply@.status);
    assert(r@.body == reply@.body);
    assert(r@.headers == reply@.headers + text::pairs_view(issued@));
}

/// A path that no route matches is answered with 404, and one whose service has no instance
/// with 503; any other goes where its route leads.
pub proof fn law_how_a_path_is_answered(
    resolution: Resolution,
    path: &str,
    r: Result<Resolved, Reply>,
)
    requires
        call_ensures(proxy::resolved_or_reply, (resolution, path), r),
    ensures
        resolution matches Resolution::Resolved(to) ==> r == Ok::<Resolved, Reply>(to),
        resolution is NotFound ==> (r matches Err(reply) && reply.status == 404 && reply.headers@.len()
            == 0 && reply.body@ == "no route matches '"@ + path@ + "'\n"@),
        resolution matches Resolution::NoInstances { route, service } ==> (r matches Err(reply)
            && reply.status == 503 && reply.headers@.len() == 0 && reply.body@
            == "no registered instances for service '"@ + service@ + "' (route '"@ + route@
            + "')\n"@),
{
    if let Err(reply) = r {
        assert(reply@.headers.len() == reply.headers@.len());
    }
}

/// A caller whom the guards refuse is answered with 401 and asked for a bearer token where
/// nobody vouches for them, with 403 where they may not pass, and with 503 where nobody can
/// say; the answer carries the reason.
pub proof fn law_how_a_caller_is_refused(
    outcome: AuthOutcome,
    r: Result<Vec<(String, String)>, Reply>,
)
    requires
        call_ensures(proxy::identity_or_reply, (outcome,), r),
    ensures
        outcome matches AuthOutcome::Allowed(who) ==> (r matches Ok(identity) && text::pairs_view(
            identity@,
        ) == text::pairs_view(who@)),
        outcome matches AuthOutcome::Unauthorized(m) ==> (r matches Err(reply) && reply.status == 401
            && reply.body@ == m@.push('\n') && text::pairs_view(reply.headers@) == seq![
            ("www-authenticate"@, "Bearer"@),
        ]),
        outcome matches AuthOutcome::Forbidden(m) ==> (r matches Err(reply) && reply.status == 403
            && reply.body@ == m@.push('\n') && reply.headers@.len() == 0),
        outcome matches AuthOutcome::Unavailable(m) ==> (r matches Err(reply) && reply.status == 503
            && reply.body@ == m@.push('\n') && reply.headers@.len() == 0),
{
    reveal_strlit("\n");
    assert("\n"@ =~= seq!['\n']);
    match outcome {
        AuthOutcome::Allowed(_) => {},
        AuthOutcome::Unauthorized(m) => {
            assert(m@ + "\n"@ =~= m@.push('\n'));
        },
        AuthOutcome::Forbidden(m) => {
            assert(m@ + "\n"@ =~= m@.push('\n'));
        },
        AuthOutcome::Unavailable(m) => {
            assert(m@ + "\n"@ =~= m@.push('\n'));
        },
    }
    if let Err(reply) = r {
        assert(reply@.headers.len() == reply.headers@.len());
    }
}

/// Where the upstream took too long the answer is 504, and 502 where it failed otherwise.
pub proof fn law_how_a_failing_upstream_is_answered(timed_out: bool, route: &str, r: Reply)
    requires
        call_ensures(proxy::gateway_error, (timed_out, route), r),
    ensures
        r.status == if timed_out {
            504u16
        } else {
            502u16
        },
        r.headers@.len() == 0,
        timed_out ==> r.body@ == "upstream timed out for route '"@ + route@ + "'\n"@,
        !timed_out ==> r.body@ == "upstream request failed for route '"@ + route@ + "'\n"@,
{
    assert(r@.headers.len() == r.headers@.len());
    assert(r@.status == r.status);
}

/// The length of a body is the number that `Content-Length` writes, white space aside.
pub proof fn law_the_length_of_a_body(
    fields: HeaderList,
    said: Option<String>,
    trimmed: &str,
    read: Option<u64>,
    r: Option<u64>,
)
    requires
        call_ensures(proxy::content_length, (&fields,), r),
        call_ensures(HeaderList::text, (&fields, "content-length"), said),
        said matches Some(s) ==> trimmed@ == text::trim_spec(s@),
        call_ensures(proxy::parse_u64, (trimmed,), read),
    ensures
        said is None ==> r is None,
        said is Some ==> r == read,
{
}

/// A name is withheld from what a client sends exactly where a guard of the route sets a
/// header of that name, or, unless the route relays credentials, where a guard reads one
/// from it: from `Authorization`, or from a header of its own.
pub proof fn law_which_names_are_withheld(
    guards: Vec<RouteGuard>,
    forward_token: bool,
    r: Vec<String>,
    name: Seq<char>,
)
    requires
        call_ensures(proxy::withheld_names, (&guards, forward_token), r),
    ensures
        text::texts(r@).contains(name) <==> (exists|i: int, j: int|
            0 <= i < guards@.len() && 0 <= j < guards@[i].insert_headers@.len() && text::lower_spec(
                (#[trigger] guards@[i].insert_headers@[j]).0@,
            ) == name) || (!forward_token && guards@.len() > 0 && (name == "authorization"@
            || exists|i: int, j: int|
            0 <= i < guards@.len() && 0 <= j < keys_of(*guards@[i].policy).len()
                && text::lower_spec((#[trigger] keys_of(*guards@[i].policy)[j])@) == name)),
{
    let all = crate::auth::guards_view(guards@);
    assert(all.len() == guards@.len());
    assert forall|i: int| 0 <= i < all.len() implies (#[trigger] all[i]).insert_headers
        == text::pairs_view(guards@[i].insert_headers@) && crate::auth::policy_keys(
        all[i].policy@,
    ) == text::texts(keys_of(*guards@[i].policy)) by {}
    if crate::auth::is_injected(all, name) {
        let (i, j) = choose|i: int, j: int|
            0 <= i < all.len() && 0 <= j < all[i].insert_headers.len() && text::lower_spec(
                (#[trigger] all[i].insert_headers[j]).0,
            ) == name;
        assert(all[i].insert_headers[j].0 == guards@[i].insert_headers@[j].0@);
    }
    if exists|i: int, j: int|
        0 <= i < guards@.len() && 0 <= j < guards@[i].insert_headers@.len() && text::lower_spec(
            (#[trigger] guards@[i].insert_headers@[j]).0@,
        ) == name {
        let (i, j) = choose|i: int, j: int|
            0 <= i < guards@.len() && 0 <= j < guards@[i].insert_headers@.len() && text::lower_spec(
                (#[trigger] guards@[i].insert_headers@[j]).0@,
            ) == name;
        assert(all[i].insert_headers[j].0 == guards@[i].insert_headers@[j].0@);
    }
    if proxy::is_credential(all, name) && name != "authorization"@ {
        let (i, j) = choose|i: int, j: int|
            0 <= i < all.len() && 0 <= j < crate::auth::policy_keys(all[i].policy@).len()
                && text::lower_spec(#[trigger] crate::auth::policy_keys(all[i].policy@)[j]) == name;
        assert(crate::auth::policy_keys(all[i].policy@)[j] == keys_of(*guards@[i].policy)[j]@);
    }
    if exists|i: int, j: int|
        0 <= i < guards@.len() && 0 <= j < keys_of(*guards@[i].policy).len() && text::lower_spec(
            (#[trigger] keys_of(*guards@[i].policy)[j])@,
        ) == name {
        let (i, j) = choose|i: int, j: int|
            0 <= i < guards@.len() && 0 <= j < keys_of(*guards@[i].policy).len()
                && text::lower_spec((#[trigger] keys_of(*guards@[i].policy)[j])@) == name;
        assert(crate::auth::policy_keys(all[i].policy@)[j] == keys_of(*guards@[i].policy)[j]@);
    }
}

/// The headers of its own that a policy reads a credential out of.
pub open spec fn keys_of(policy: AuthPolicy) -> Seq<String> {
    match policy {
        AuthPolicy::StaticToken { header_keys, .. } => header_keys@,
        AuthPolicy::JwtHs256 { header_keys, .. } => header_keys@,
        AuthPolicy::OAuth2(p) => p.header_keys@,
        AuthPolicy::Testing(p) => p.header_keys@,
    }
}

/// A request that its filters let pass goes on with their changes; one that a filter answers
/// is answered so, and one where a filter could not run with 500.
pub proof fn law_how_filters_end_a_request(outcome: FilterOutcome, r: Result<HeaderEdits, Reply>)
    requires
        call_ensures(filters::edits_or_reply, (outcome,), r),
    ensures
        outcome matches FilterOutcome::Continue(e) ==> (r matches Ok(edits) && edits@ == e@),
        outcome matches FilterOutcome::Stop(stop) ==> (r matches Err(reply) && reply.status
            == stop.status && text::pairs_view(reply.headers@) == text::pairs_view(stop.headers@)
            && reply.body@ == stop.body@),
        outcome matches FilterOutcome::Failed(m) ==> (r matches Err(reply) && reply.status == 500
            && reply.body@ == m@.push('\n') && reply.headers@.len() == 0),
{
    reveal_strlit("\n");
    assert("\n"@ =~= seq!['\n']);
    if let FilterOutcome::Failed(m) = outcome {
        assert(m@ + "\n"@ =~= m@.push('\n'));
    }
    if let Err(reply) = r {
        assert(reply@.headers.len() == reply.headers@.len());
        assert(reply@.status == reply.status);
    }
}

/// A request goes upstream without the cookies and headers that its route withholds, with the
/// addresses and the caller's identity that the gateway writes, and, after all that, with the
/// changes of its filters.
pub proof fn law_how_a_request_is_prepared(
    resolved: Resolved,
    identity: Vec<(String, String)>,
    edits: HeaderEdits,
    fields: HeaderList,
    peer: Option<String>,
    scheme: &str,
    host: &str,
    upgrade: bool,
    names: Vec<String>,
    cookies: Vec<String>,
    through: Option<String>,
    r: HeaderList,
)
    requires
        call_ensures(
            filters::prepare,
            (&resolved, &identity, &edits, &fields, peer, scheme, host, upgrade),
            r,
        ),
        call_ensures(proxy::withheld_names, (&resolved.guards, resolved.forward_token), names),
        call_ensures(
            crate::cookies::withheld,
            (&resolved.guards, resolved.forward_token),
            cookies,
        ),
        call_ensures(proxy::forwarded_for, (&fields, peer), through),
    ensures
        exists|withheld: Seq<Seq<char>>, own: Seq<Seq<char>>|
            (forall|name: Seq<char>|
                withheld.contains(name) <==> #[trigger] text::texts(names@).contains(name)) && (
            forall|name: Seq<char>|
                own.contains(name) <==> #[trigger] text::texts(cookies@).contains(name)) && r@
                == filters::changed(
                #[trigger] proxy::upstream_fields(
                    crate::cookies::without(fields@, own),
                    withheld,
                    proxy::address_pairs(text::opt_of(through), scheme@, host@),
                    text::pairs_view(identity@),
                    upgrade,
                ),
                edits@,
            ),
{
    let (withheld, own) = choose|withheld: Seq<Seq<char>>, own: Seq<Seq<char>>| #[trigger]
        filters::withholds(withheld, resolved) && #[trigger] filters::withholds_cookies(
            own,
            resolved,
        ) && r@ == filters::prepared(
            withheld,
            text::pairs_view(identity@),
            edits@,
            crate::cookies::without(fields@, own),
            proxy::address_pairs(
                proxy::forwarded_spec(
                    headers::text_spec(fields@, "x-forwarded-for"@),
                    text::opt_of(peer),
                ),
                scheme@,
                host@,
            ),
            upgrade,
        );
    assert forall|name: Seq<char>| withheld.contains(name) <==> #[trigger] text::texts(
        names@,
    ).contains(name) by {}
    assert forall|name: Seq<char>| own.contains(name) <==> #[trigger] text::texts(
        cookies@,
    ).contains(name) by {}
    let sent = proxy::upstream_fields(
        crate::cookies::without(fields@, own),
        withheld,
        proxy::address_pairs(text::opt_of(through), scheme@, host@),
        text::pairs_view(identity@),
        upgrade,
    );
    assert(r@ == filters::changed(sent, edits@));
}

/// Where a path leads is told on one line: the route, where it came from, the service and the
/// instance or a dash for each, and the address.
pub proof fn law_how_a_path_is_reported(resolved: Resolved, r: Reply)
    requires
        call_ensures(proxy::report, (&resolved,), r),
    ensures
        r.status == 200,
        r.headers@.len() == 0,
        r.body@ == "RESOLVED route="@ + resolved.route@ + " source="@ + resolved.source@
            + " service="@ + (if resolved.service is Some {
            resolved.service->Some_0@
        } else {
            seq!['-']
        }) + " instance="@ + (if resolved.instance is Some {
            resolved.instance->Some_0@
        } else {
            seq!['-']
        }) + " target="@ + resolved.target_url@ + "\n"@,
{
    reveal_strlit("-");
    assert("-"@ =~= seq!['-']);
    assert(r@.headers.len() == r.headers@.len());
}

/// A text can be the value of a header where it holds no control character but the tab, and
/// its name where it is one to 65535 letters, digits and signs that no separator is.
pub proof fn law_what_a_header_can_hold(s: Seq<char>, c: char)
    ensures
        headers::valid_value(s) <==> forall|i: int|
            0 <= i < s.len() ==> (#[trigger] s[i]) as int == 9 || (s[i] as int >= 32 && s[i] as int
                != 127),
        headers::valid_name(s) ==> 1 <= s.len() <= 65535,
        headers::token_char(c) ==> 33 <= c as int <= 126 && c != '(' && c != ')' && c != ',' && c
            != '/' && c != ':' && c != ';' && c != '<' && c != '=' && c != '>' && c != '?' && c
            != '@' && c != '[' && c != '\\' && c != ']' && c != '{' && c != '}',
        'a' <= c <= 'z' || 'A' <= c <= 'Z' || '0' <= c <= '9' || c == '-' || c == '_' || c == '.'
            || c == '~' || c == '!' || c == '#' || c == '$' || c == '%' || c == '&' || c == '\''
            || c == '*' || c == '+' || c == '^' || c == '`' || c == '|' ==> headers::token_char(c),
{
    assert forall|i: int| 0 <= i < s.len() implies ((#[trigger] s[i]) == '\t' || (s[i] >= ' '
        && s[i] != '\u{7f}') <==> s[i] as int == 9 || (s[i] as int >= 32 && s[i] as int != 127)) by {
    }
}

} // verus!
