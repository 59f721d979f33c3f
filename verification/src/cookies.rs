//! The gateway's own cookies in what a client sends: reading a credential out of one, and
//! keeping them from the upstream.

use crate::auth;
use crate::auth::{BoundView, PolicyView, RouteGuard};
use crate::headers;
use crate::headers::{Header, HeaderList};
use crate::plugins::guest;
use crate::plugins::session;
use crate::proxy;
use crate::text;
use vstd::prelude::*;
use vstd::string::*;

verus! {

/// The header that holds a client's cookies.
pub const HEADER: &'static str = "cookie";

/// One cookie among those a client sends.
pub open spec fn held_spec(fields: Seq<(Seq<char>, Seq<u8>)>, name: Seq<char>) -> Option<
    Seq<char>,
> {
    match headers::text_spec(fields, HEADER@) {
        Some(jar) => session::from_jar_spec(jar, name),
        None => None,
    }
}

/// One cookie among those a client sends.
pub fn held(fields: &HeaderList, name: &str) -> (r: Option<String>)
    ensures
        text::opt_of(r) == held_spec(fields@, name@),
{
    match fields.text(HEADER) {
        Some(jar) => match session::from_jar(Some(jar.as_str()), name) {
            Some(value) => Some(value.to_owned()),
            None => None,
        },
        None => None,
    }
}

/// The first of some cookies that a client sends.
pub open spec fn first_spec(fields: Seq<(Seq<char>, Seq<u8>)>, names: Seq<Seq<char>>) -> Option<
    Seq<char>,
>
    decreases names.len(),
{
    if names.len() == 0 {
        None
    } else {
        match held_spec(fields, names[0]) {
            Some(value) => Some(value),
            None => first_spec(fields, names.drop_first()),
        }
    }
}

/// The first of some cookies that a client sends.
pub fn first(fields: &HeaderList, names: &Vec<String>) -> (r: Option<String>)
    ensures
        text::opt_of(r) == first_spec(fields@, text::texts(names@)),
{
    let ghost all = text::texts(names@);
    let mut i: usize = 0;
    proof {
        assert(all.skip(0) =~= all);
    }
    while i < names.len()
        invariant
            i <= names@.len(),
            all == text::texts(names@),
            first_spec(fields@, all) == first_spec(fields@, all.skip(i as int)),
        decreases names@.len() - i,
    {
        proof {
            assert(all.skip(i as int)[0] == names@[i as int]@);
            assert(all.skip(i as int).drop_first() =~= all.skip(i + 1));
        }
        if let Some(value) = held(fields, names[i].as_str()) {
            return Some(value);
        }
        i = i + 1;
    }
    None
}

/// The cookies that are a policy's own: those it reads a credential out of, and the
/// session it mints or looks at.
pub open spec fn names_spec(p: PolicyView) -> Seq<Seq<char>> {
    match auth::policy_read_session(p) {
        Some(cookie) => auth::policy_cookie_keys(p).push(cookie.name),
        None => auth::policy_cookie_keys(p),
    }
}

/// Whether a cookie is one of the gateway's own on a route with these guards.
pub open spec fn is_own(guards: Seq<BoundView>, name: Seq<char>) -> bool {
    exists|i: int|
        0 <= i < guards.len() && names_spec((#[trigger] guards[i]).policy@).contains(name)
}

/// Whether a cookie is withheld from the upstream: the gateway's own are, unless the
/// route relays credentials.
pub open spec fn is_withheld(guards: Seq<BoundView>, forward_token: bool, name: Seq<char>) -> bool {
    !forward_token && is_own(guards, name)
}

/// A list holds what either of its parts holds.
proof fn lemma_parts(a: Seq<Seq<char>>, b: Seq<Seq<char>>, name: Seq<char>)
    ensures
        (a + b).contains(name) <==> a.contains(name) || b.contains(name),
{
    if a.contains(name) {
        let k = choose|k: int| 0 <= k < a.len() && a[k] == name;
        assert((a + b)[k] == name);
    }
    if b.contains(name) {
        let k = choose|k: int| 0 <= k < b.len() && b[k] == name;
        assert((a + b)[a.len() + k] == name);
    }
    if (a + b).contains(name) {
        let k = choose|k: int| 0 <= k < (a + b).len() && (a + b)[k] == name;
        if k < a.len() {
            assert(a[k] == name);
        } else {
            assert(b[k - a.len()] == name);
        }
    }
}

/// The cookies that are a guard's own.
fn names_of(guard: &RouteGuard) -> (r: Vec<String>)
    ensures
        text::texts(r@) == names_spec(guard@.policy@),
{
    let mut out = guard.policy.cookie_keys();
    if let Some(cookie) = guard.policy.read_session_cookie() {
        let ghost front = text::texts(out@);
        out.push(cookie.name.clone());
        proof {
            assert(text::texts(out@) =~= front.push(cookie@.name));
        }
    }
    out
}

/// The cookies that are withheld from the upstream.
pub fn withheld(guards: &Vec<RouteGuard>, forward_token: bool) -> (r: Vec<String>)
    ensures
        forall|name: Seq<char>| #[trigger]
            text::texts(r@).contains(name) <==> is_withheld(
                auth::guards_view(guards@),
                forward_token,
                name,
            ),
{
    let ghost all = auth::guards_view(guards@);
    let mut out: Vec<String> = Vec::new();
    proof {
        assert(text::texts(out@) =~= Seq::empty());
    }
    if forward_token {
        return out;
    }
    let mut i: usize = 0;
    proof {
        assert(all.take(0) =~= Seq::empty());
    }
    while i < guards.len()
        invariant
            i <= guards@.len(),
            all == auth::guards_view(guards@),
            forall|name: Seq<char>| #[trigger]
                text::texts(out@).contains(name) <==> is_own(all.take(i as int), name),
        decreases guards@.len() - i,
    {
        let mut more = names_of(&guards[i]);
        let ghost had = text::texts(out@);
        let ghost own = text::texts(more@);
        out.append(&mut more);
        proof {
            let some = all.take(i as int);
            let longer = all.take(i + 1);
            assert(text::texts(out@) =~= had + own);
            assert(longer[i as int].policy@ == guards@[i as int]@.policy@);
            assert forall|name: Seq<char>| #[trigger]
                text::texts(out@).contains(name) <==> is_own(longer, name) by {
                lemma_parts(had, own, name);
                assert(had.contains(name) <==> is_own(some, name));
                if is_own(some, name) {
                    let k = choose|k: int|
                        0 <= k < some.len() && names_spec((#[trigger] some[k]).policy@).contains(
                            name,
                        );
                    assert(longer[k] == some[k]);
                }
                if is_own(longer, name) {
                    let k = choose|k: int|
                        0 <= k < longer.len() && names_spec(
                            (#[trigger] longer[k]).policy@,
                        ).contains(name);
                    if k < i {
                        assert(some[k] == longer[k]);
                    }
                }
            }
        }
        i = i + 1;
    }
    proof {
        assert(all.take(i as int) =~= all);
    }
    out
}

/// A field with some cookies taken out of it, where anything is left: only one that
/// holds cookies, in valid UTF-8, is touched.
pub open spec fn spared(field: (Seq<char>, Seq<u8>), names: Seq<Seq<char>>) -> Option<
    (Seq<char>, Seq<u8>),
> {
    if field.0 != HEADER@ {
        Some(field)
    } else {
        match guest::text_of(field.1) {
            None => Some(field),
            Some(jar) => match session::without_spec(jar, names) {
                Some(left) => Some((field.0, vstd::utf8::encode_utf8(left))),
                None => None,
            },
        }
    }
}

/// Some fields with cookies taken out of each.
pub open spec fn spared_all(fields: Seq<(Seq<char>, Seq<u8>)>, names: Seq<Seq<char>>) -> Seq<
    (Seq<char>, Seq<u8>),
>
    decreases fields.len(),
{
    if fields.len() == 0 {
        Seq::empty()
    } else {
        match spared(fields.last(), names) {
            Some(field) => spared_all(fields.drop_last(), names).push(field),
            None => spared_all(fields.drop_last(), names),
        }
    }
}

/// What a client sent without some cookies; as it stands where there are none to take
/// out.
pub open spec fn without(fields: Seq<(Seq<char>, Seq<u8>)>, names: Seq<Seq<char>>) -> Seq<
    (Seq<char>, Seq<u8>),
> {
    if names.len() == 0 {
        fields
    } else {
        spared_all(fields, names)
    }
}

/// Takes some cookies out of a field.
fn spare(field: &Header, names: &Vec<String>) -> (r: Option<Header>)
    ensures
        match r {
            Some(h) => spared(headers::field_view(*field), text::texts(names@)) == Some(
                headers::field_view(h),
            ),
            None => spared(headers::field_view(*field), text::texts(names@)) is None,
        },
{
    if !text::same(field.name.as_str(), HEADER) {
        return Some(proxy::copy_field(field));
    }
    match guest::utf8_text(proxy::copy_bytes(&field.value)) {
        None => Some(proxy::copy_field(field)),
        Some(jar) => match session::without(jar.as_str(), names) {
            Some(left) => Some(
                Header { name: field.name.clone(), value: proxy::bytes_of(left.as_str()) },
            ),
            None => None,
        },
    }
}

/// Takes some cookies out of what a client sent. The other cookies are the
/// application's, and stay.
pub fn strip(fields: &HeaderList, names: &Vec<String>) -> (r: HeaderList)
    ensures
        r@ == without(fields@, text::texts(names@)),
{
    let ghost gone = text::texts(names@);
    let mut out = HeaderList { fields: Vec::new() };
    let mut i: usize = 0;
    proof {
        assert(fields@.take(0) =~= Seq::empty());
        assert(out@ =~= Seq::empty());
    }
    if names.len() == 0 {
        while i < fields.fields.len()
            invariant
                i <= fields.fields@.len(),
                out@ == fields@.take(i as int),
            decreases fields.fields@.len() - i,
        {
            let ghost front = out@;
            let copied = proxy::copy_field(&fields.fields[i]);
            out.fields.push(copied);
            proof {
                assert(out@ =~= front.push(headers::field_view(fields.fields@[i as int])));
                assert(fields@.take(i + 1) =~= front.push(fields@[i as int]));
            }
            i = i + 1;
        }
        proof {
            assert(fields@.take(i as int) =~= fields@);
        }
        return out;
    }
    while i < fields.fields.len()
        invariant
            i <= fields.fields@.len(),
            gone == text::texts(names@),
            out@ == spared_all(fields@.take(i as int), gone),
        decreases fields.fields@.len() - i,
    {
        proof {
            assert(fields@.take(i + 1).drop_last() =~= fields@.take(i as int));
            assert(fields@.take(i + 1).last() == headers::field_view(fields.fields@[i as int]));
        }
        if let Some(field) = spare(&fields.fields[i], names) {
            let ghost front = out@;
            out.fields.push(field);
            proof {
                assert(out@ =~= front.push(headers::field_view(field)));
            }
        }
        i = i + 1;
    }
    proof {
        assert(fields@.take(i as int) =~= fields@);
    }
    out
}

/// A session cookie is the gateway's business: no field of cookies that is left holds one
/// that was to be taken out.
pub proof fn law_withheld_cookies_stay_here(
    fields: Seq<(Seq<char>, Seq<u8>)>,
    names: Seq<Seq<char>>,
    name: Seq<char>,
    at: int,
)
    requires
        names.contains(name),
        0 <= at < without(fields, names).len(),
        without(fields, names)[at].0 == HEADER@,
    ensures
        guest::text_of(without(fields, names)[at].1) matches Some(jar) ==> session::from_jar_spec(
            jar,
            name,
        ) is None,
    decreases fields.len(),
{
    let left = without(fields, names);
    if fields.len() > 0 {
        let front = without(fields.drop_last(), names);
        if at < front.len() {
            assert(left[at] == front[at]);
            law_withheld_cookies_stay_here(fields.drop_last(), names, name, at);
        } else if let Some(jar) = guest::text_of(fields.last().1) {
            session::law_only_the_named_cookies_are_withheld(jar, names, name);
            if let Some(kept) = session::without_spec(jar, names) {
                lemma_reads_back(kept);
            }
        }
    }
}

/// A text reads back from its bytes.
proof fn lemma_reads_back(s: Seq<char>)
    ensures
        guest::text_of(vstd::utf8::encode_utf8(s)) == Some(s),
{
    vstd::utf8::encode_utf8_valid_utf8(s);
    vstd::utf8::encode_utf8_decode_utf8(s);
}

/// Every header that holds no cookies reaches the upstream as it would have.
pub proof fn law_other_headers_are_left_alone(
    fields: Seq<(Seq<char>, Seq<u8>)>,
    names: Seq<Seq<char>>,
    name: Seq<char>,
)
    requires
        name != HEADER@,
    ensures
        headers::all_spec(without(fields, names), name) == headers::all_spec(fields, name),
    decreases fields.len(),
{
    if fields.len() > 0 {
        let front = without(fields.drop_last(), names);
        law_other_headers_are_left_alone(fields.drop_last(), names, name);
        if let Some(field) = spared(fields.last(), names) {
            assert(front.push(field).drop_last() =~= front);
        }
    }
}

/// The rest are the application's: a field that holds no cookies is not touched, and one
/// that does gives every other cookie as before.
pub proof fn law_other_cookies_are_left_alone(
    field: (Seq<char>, Seq<u8>),
    names: Seq<Seq<char>>,
    name: Seq<char>,
)
    requires
        !names.contains(name),
    ensures
        field.0 != HEADER@ ==> spared(field, names) == Some(field),
        field.0 == HEADER@ ==> match guest::text_of(field.1) {
            Some(jar) => match spared(field, names) {
                Some(left) => guest::text_of(left.1) matches Some(kept) && session::from_jar_spec(
                    kept,
                    name,
                ) == session::from_jar_spec(jar, name),
                None => session::from_jar_spec(jar, name) is None,
            },
            None => spared(field, names) == Some(field),
        },
{
    if let Some(jar) = guest::text_of(field.1) {
        session::law_only_the_named_cookies_are_withheld(jar, names, name);
        if let Some(kept) = session::without_spec(jar, names) {
            lemma_reads_back(kept);
        }
    }
}

} // verus!
