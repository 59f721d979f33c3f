//! What a caller must show, and what a route learns of the caller.

use crate::auth;
use crate::auth::{
    AuthOutcome, AuthPolicy, Enforcement, GuardStep, OutcomeView, Progress, RouteGuard,
};
use crate::clock::Moment;
use crate::cookies;
use crate::headers;
use crate::headers::HeaderList;
use crate::json;
use crate::json::{Json, JsonView};
use crate::plugins::token;
use crate::provider::{ProviderCache, Step};
use crate::strmap::StrMap;
use crate::testing::ClaimOverrides;
use crate::text;
use std::sync::Arc;
use vstd::prelude::*;
use vstd::string::*;

verus! {

/// Whether a text begins with the word of the bearer scheme and a space.
pub open spec fn of_bearer_scheme(value: Seq<char>) -> bool {
    value.len() >= 7 && (value.take(7) == seq!['B', 'e', 'a', 'r', 'e', 'r', ' '] || value.take(7)
        == seq!['b', 'e', 'a', 'r', 'e', 'r', ' '])
}

proof fn lemma_scheme(value: Seq<char>)
    ensures
        of_bearer_scheme(value) <==> "Bearer "@.is_prefix_of(value) || "bearer "@.is_prefix_of(
            value,
        ),
{
    reveal_strlit("Bearer ");
    reveal_strlit("bearer ");
    text::lemma_prefix(value, "Bearer "@);
    text::lemma_prefix(value, "bearer "@);
    assert("Bearer "@ =~= seq!['B', 'e', 'a', 'r', 'e', 'r', ' ']);
    assert("bearer "@ =~= seq!['b', 'e', 'a', 'r', 'e', 'r', ' ']);
}

/// A bearer token is the credential of a request: what stands behind the word of the scheme,
/// without the white space around it, where that is anything.
pub proof fn law_a_bearer_token_is_the_credential(
    fields: HeaderList,
    keys: Vec<String>,
    value: Seq<char>,
    r: Option<String>,
)
    requires
        headers::text_spec(fields@, "authorization"@) == Some(value),
        of_bearer_scheme(value),
        text::trim_spec(value.skip(7)).len() > 0,
        call_ensures(auth::extract_token, (&fields, &keys), r),
    ensures
        r matches Some(t) && t@ == text::trim_spec(value.skip(7)),
{
    lemma_scheme(value);
}

/// Where there is no bearer token, the credential is what the first of the policy's headers
/// holds that is not blank, without the white space around it; there is none where all are.
/// `at` is the place of that header, or behind the last.
pub proof fn law_which_header_holds_the_credential(
    fields: HeaderList,
    keys: Vec<String>,
    at: int,
    r: Option<String>,
)
    requires
        headers::text_spec(fields@, "authorization"@) matches Some(value) ==> !of_bearer_scheme(
            value,
        ) || text::trim_spec(value.skip(7)).len() == 0,
        0 <= at <= keys@.len(),
        forall|j: int|
            0 <= j < at ==> blank(headers::text_spec(fields@, (#[trigger] keys@[j])@)),
        at < keys@.len() ==> !blank(headers::text_spec(fields@, keys@[at]@)),
        call_ensures(auth::extract_token, (&fields, &keys), r),
    ensures
        at == keys@.len() ==> r is None,
        at < keys@.len() ==> (r matches Some(t) && t@ == text::trim_spec(
            headers::text_spec(fields@, keys@[at]@)->Some_0,
        )),
{
    if let Some(value) = headers::text_spec(fields@, "authorization"@) {
        lemma_scheme(value);
    }
    let names = text::texts(keys@);
    assert forall|j: int| 0 <= j < at implies blank(
        headers::text_spec(fields@, #[trigger] names[j]),
    ) by {
        assert(names[j] == keys@[j]@);
    }
    lemma_keyed(fields@, names, at);
}

/// Whether a header is not there, or holds nothing but white space.
pub open spec fn blank(value: Option<Seq<char>>) -> bool {
    value is None || text::trim_spec(value->Some_0).len() == 0
}

proof fn lemma_keyed(fields: Seq<(Seq<char>, Seq<u8>)>, keys: Seq<Seq<char>>, at: int)
    requires
        0 <= at <= keys.len(),
        forall|j: int| 0 <= j < at ==> blank(headers::text_spec(fields, #[trigger] keys[j])),
        at < keys.len() ==> !blank(headers::text_spec(fields, keys[at])),
    ensures
        auth::keyed_spec(fields, keys) == if at < keys.len() {
            Some(text::trim_spec(headers::text_spec(fields, keys[at])->Some_0))
        } else {
            None
        },
    decreases keys.len(),
{
    if keys.len() > 0 && at > 0 {
        assert(blank(headers::text_spec(fields, keys[0])));
        let rest = keys.drop_first();
        assert forall|j: int| 0 <= j < at - 1 implies blank(
            headers::text_spec(fields, #[trigger] rest[j]),
        ) by {
            assert(rest[j] == keys[j + 1]);
        }
        lemma_keyed(fields, rest, at - 1);
    }
}

/// A credential in a header counts before any cookie. Only a policy that verifies signed
/// tokens looks into cookies: into those it names, in that order. `at` is the place of the
/// first that the caller sends, or behind the last.
pub proof fn law_where_a_credential_is_looked_for(
    policy: AuthPolicy,
    fields: HeaderList,
    keys: Vec<String>,
    in_header: Option<String>,
    at: int,
    r: Option<String>,
)
    requires
        match policy {
            AuthPolicy::StaticToken { header_keys, .. } => keys == header_keys,
            AuthPolicy::JwtHs256 { header_keys, .. } => keys == header_keys,
            AuthPolicy::OAuth2(p) => keys == p.header_keys,
            AuthPolicy::Testing(p) => keys == p.header_keys,
        },
        call_ensures(auth::extract_token, (&fields, &keys), in_header),
        policy matches AuthPolicy::JwtHs256 { cookie_keys, .. } ==> 0 <= at <= cookie_keys@.len()
            && (forall|j: int|
            0 <= j < at ==> cookies::held_spec(fields@, (#[trigger] cookie_keys@[j])@) is None)
            && (at < cookie_keys@.len() ==> cookies::held_spec(fields@, cookie_keys@[at]@) is Some),
        call_ensures(AuthPolicy::credential, (&policy, &fields), r),
    ensures
        in_header matches Some(token) ==> (r matches Some(t) && t@ == token@),
        in_header is None && !(policy is JwtHs256) ==> r is None,
        in_header is None ==> (policy matches AuthPolicy::JwtHs256 { cookie_keys, .. }
            ==> text::opt_of(r) == (if at < cookie_keys@.len() {
            cookies::held_spec(fields@, cookie_keys@[at]@)
        } else {
            None
        })),
{
    if let AuthPolicy::JwtHs256 { cookie_keys, .. } = policy {
        let names = text::texts(cookie_keys@);
        assert forall|j: int| 0 <= j < at implies cookies::held_spec(
            fields@,
            #[trigger] names[j],
        ) is None by {
            assert(names[j] == cookie_keys@[j]@);
        }
        lemma_first(fields@, names, at);
    } else {
        lemma_first(fields@, Seq::empty(), 0);
    }
}

proof fn lemma_first(fields: Seq<(Seq<char>, Seq<u8>)>, names: Seq<Seq<char>>, at: int)
    requires
        0 <= at <= names.len(),
        forall|j: int| 0 <= j < at ==> cookies::held_spec(fields, #[trigger] names[j]) is None,
        at < names.len() ==> cookies::held_spec(fields, names[at]) is Some,
    ensures
        cookies::first_spec(fields, names) == if at < names.len() {
            cookies::held_spec(fields, names[at])
        } else {
            None
        },
    decreases names.len(),
{
    if names.len() > 0 && at > 0 {
        assert(cookies::held_spec(fields, names[0]) is None);
        let rest = names.drop_first();
        assert forall|j: int| 0 <= j < at - 1 implies cookies::held_spec(
            fields,
            #[trigger] rest[j],
        ) is None by {
            assert(rest[j] == names[j + 1]);
        }
        lemma_first(fields, rest, at - 1);
    }
}

/// The roles that claims grant under a name: the texts of a list, in order and nothing else
/// of it; the words of a text; none where the claim is missing or anything else.
pub proof fn law_which_roles_claims_grant(
    claims: StrMap<Json>,
    roles_claim: &str,
    r: Vec<String>,
)
    requires
        call_ensures(auth::roles, (&claims, roles_claim), r),
    ensures
        ({
            let said = json::fields(claims);
            let granted = text::texts(r@);
            let claim = said[roles_claim@];
            &&& !said.contains_key(roles_claim@) ==> granted.len() == 0
            &&& said.contains_key(roles_claim@) && claim is Array ==> granted
                == claim->Array_0.filter(|v: JsonView| v is Text).map_values(
                |v: JsonView| v->Text_0,
            )
            &&& said.contains_key(roles_claim@) && claim is Text ==> granted == text::words_spec(
                claim->Text_0,
            )
            &&& said.contains_key(roles_claim@) && !(claim is Array) && !(claim is Text)
                ==> granted.len() == 0
        }),
{
    let said = json::fields(claims);
    if said.contains_key(roles_claim@) {
        if let JsonView::Array(values) = said[roles_claim@] {
            lemma_items(values);
        }
    }
}

proof fn lemma_items(v: Seq<JsonView>)
    ensures
        auth::text_items(v) == v.filter(|v: JsonView| v is Text).map_values(
            |v: JsonView| v->Text_0,
        ),
    decreases v.len(),
{
    reveal(Seq::filter);
    let is = |v: JsonView| v is Text;
    let read = |v: JsonView| v->Text_0;
    if v.len() == 0 {
        assert(auth::text_items(v) =~= v.filter(is).map_values(read));
    } else {
        lemma_items(v.drop_last());
        let front = v.drop_last().filter(is);
        if is(v.last()) {
            assert(front.push(v.last()).map_values(read) =~= front.map_values(read).push(
                read(v.last()),
            ));
        }
    }
}

/// How a claim is written: a text as it is, a truth value and a number as JSON has them; a
/// list, an object and null cannot be.
pub proof fn law_how_a_claim_is_written(value: Json, r: Option<String>)
    requires
        call_ensures(auth::claim_to_string, (&value,), r),
    ensures
        value@ matches JsonView::Text(s) ==> (r matches Some(t) && t@ == s),
        value@ matches JsonView::Real(s) ==> (r matches Some(t) && t@ == s),
        value@ matches JsonView::Int(n) ==> (r matches Some(t) && t@ == text::signed_decimal(n)),
        value@ == JsonView::Bool(true) ==> (r matches Some(t) && t@ == seq!['t', 'r', 'u', 'e']),
        value@ == JsonView::Bool(false) ==> (r matches Some(t) && t@ == seq![
            'f',
            'a',
            'l',
            's',
            'e',
        ]),
        value@ is Array || value@ is Object || value@ is Null ==> r is None,
{
    reveal_strlit("true");
    reveal_strlit("false");
    assert("true"@ =~= seq!['t', 'r', 'u', 'e']);
    assert("false"@ =~= seq!['f', 'a', 'l', 's', 'e']);
}

/// A template without a brace stands for itself.
pub proof fn law_a_plain_template_is_itself(
    template: &str,
    claims: StrMap<Json>,
    r: Option<String>,
)
    requires
        !template@.contains('{'),
        call_ensures(auth::render, (template, &claims), r),
    ensures
        r matches Some(t) && t@ == template@,
{
    assert forall|k: int| 0 <= k < template@.len() implies template@[k] != '{' by {
        assert(template@.contains(template@[k]));
    }
    text::lemma_find_is(template@, '{', template@.len() as int);
}

/// A template with a brace that is never closed gives nothing.
pub proof fn law_an_open_brace_gives_nothing(
    template: &str,
    claims: StrMap<Json>,
    head: Seq<char>,
    rest: Seq<char>,
    r: Option<String>,
)
    requires
        template@ == head + seq!['{'] + rest,
        !rest.contains('}'),
        !head.contains('{'),
        call_ensures(auth::render, (template, &claims), r),
    ensures
        r is None,
{
    let t = template@;
    let at = head.len() as int;
    assert(t[at] == '{');
    assert forall|k: int| 0 <= k < at implies t[k] != '{' by {
        assert(t[k] == head[k]);
        assert(head.contains(head[k]));
    }
    text::lemma_find_is(t, '{', at);
    let tail = t.skip(at);
    assert forall|k: int| 0 <= k < tail.len() implies tail[k] != '}' by {
        if k > 0 {
            assert(tail[k] == rest[k - 1]);
            assert(rest.contains(rest[k - 1]));
        }
    }
    text::lemma_find_is(tail, '}', tail.len() as int);
}

/// A claim between braces is replaced by what it says, and everything around it stands as it
/// is. Where the claim is missing or cannot be written, or the rest gives nothing, there is
/// nothing.
pub proof fn law_a_claim_is_filled_in(
    template: &str,
    claims: StrMap<Json>,
    head: Seq<char>,
    claim: Seq<char>,
    tail: &str,
    value: Json,
    written: Option<String>,
    rest: Option<String>,
    r: Option<String>,
)
    requires
        template@ == head + seq!['{'] + claim + seq!['}'] + tail@,
        !head.contains('{'),
        !claim.contains('}'),
        json::fields(claims).contains_key(claim) ==> value@ == json::fields(claims)[claim],
        call_ensures(auth::claim_to_string, (&value,), written),
        call_ensures(auth::render, (tail, &claims), rest),
        call_ensures(auth::render, (template, &claims), r),
    ensures
        r is Some <==> json::fields(claims).contains_key(claim) && written is Some && rest is Some,
        r matches Some(t) ==> t@ == head + written->Some_0@ + rest->Some_0@,
{
    let t = template@;
    let at = head.len() as int;
    assert(t[at] == '{');
    assert forall|k: int| 0 <= k < at implies t[k] != '{' by {
        assert(t[k] == head[k]);
        assert(head.contains(head[k]));
    }
    text::lemma_find_is(t, '{', at);
    let behind = t.skip(at);
    let end = claim.len() as int + 1;
    assert(behind[end] == '}');
    assert forall|k: int| 0 <= k < end implies behind[k] != '}' by {
        if k > 0 {
            assert(behind[k] == claim[k - 1]);
            assert(claim.contains(claim[k - 1]));
        }
    }
    text::lemma_find_is(behind, '}', end);
    assert(behind.subrange(1, end) =~= claim);
    assert(behind.skip(end + 1) =~= tail@);
    assert(t.take(at) =~= head);
}

/// A guard lets claims pass where they grant every role that it requires. It is not enough to
/// grant some; the refusal names the first that is missing.
pub proof fn law_every_role_must_be_granted(
    guard: RouteGuard,
    claims: StrMap<Json>,
    roles_claim: &str,
    granted: Vec<String>,
    r: Result<(), AuthOutcome>,
)
    requires
        call_ensures(auth::roles, (&claims, roles_claim), granted),
        call_ensures(RouteGuard::authorize, (&guard, &claims, roles_claim), r),
    ensures
        r is Ok <==> forall|i: int|
            0 <= i < guard.required_roles@.len() ==> text::texts(granted@).contains(
                (#[trigger] guard.required_roles@[i])@,
            ),
        r matches Err(o) ==> exists|i: int|
            0 <= i < guard.required_roles@.len() && !text::texts(granted@).contains(
                (#[trigger] guard.required_roles@[i])@,
            ) && (forall|j: int|
                0 <= j < i ==> text::texts(granted@).contains(
                    (#[trigger] guard.required_roles@[j])@,
                )) && o@ == OutcomeView::Forbidden(
                "token lacks required role '"@ + guard.required_roles@[i]@ + "'"@,
            ),
{
    let required = text::texts(guard.required_roles@);
    let had = text::texts(granted@);
    let at = lemma_missing(required, had);
    assert forall|j: int| 0 <= j < at implies had.contains(
        (#[trigger] guard.required_roles@[j])@,
    ) by {
        assert(required[j] == guard.required_roles@[j]@);
    }
    if at < required.len() {
        assert(required[at] == guard.required_roles@[at]@);
    }
}

/// The place of the first required role that is not granted, behind the last where all are.
proof fn lemma_missing(required: Seq<Seq<char>>, granted: Seq<Seq<char>>) -> (at: int)
    ensures
        0 <= at <= required.len(),
        forall|j: int| 0 <= j < at ==> granted.contains(#[trigger] required[j]),
        at < required.len() ==> !granted.contains(required[at]),
        auth::missing_role(required, granted) == if at < required.len() {
            Some(required[at])
        } else {
            None
        },
    decreases required.len(),
{
    if required.len() == 0 || !granted.contains(required[0]) {
        0
    } else {
        let rest = required.drop_first();
        let at = lemma_missing(rest, granted);
        assert forall|j: int| 0 <= j < at + 1 implies granted.contains(
            #[trigger] required[j],
        ) by {
            if j > 0 {
                assert(rest[j - 1] == required[j]);
            }
        }
        at + 1
    }
}

/// What a guard tells the upstream of a caller: of the headers it is to set, in order, each
/// whose template can be filled in, with what it comes to. A value that no header can carry
/// refuses the caller.
pub proof fn law_what_is_told_of_a_caller(
    guard: RouteGuard,
    claims: StrMap<Json>,
    r: Result<Vec<(String, String)>, AuthOutcome>,
)
    requires
        call_ensures(RouteGuard::render_identity, (&guard, &claims), r),
    ensures
        ({
            let insert = text::pairs_view(guard.insert_headers@);
            let said = json::fields(claims);
            &&& r is Ok <==> forall|i: int|
                0 <= i < insert.len() ==> (auth::render_spec(
                    (#[trigger] insert[i]).1,
                    said,
                ) matches Some(value) ==> headers::valid_value(value))
            &&& r matches Ok(told) ==> text::pairs_view(told@) == insert.filter(
                |p: (Seq<char>, Seq<char>)| auth::render_spec(p.1, said) is Some,
            ).map_values(
                |p: (Seq<char>, Seq<char>)| (p.0, auth::render_spec(p.1, said)->Some_0),
            )
            &&& r matches Err(o) ==> exists|i: int|
                0 <= i < insert.len() && auth::render_spec(
                    (#[trigger] insert[i]).1,
                    said,
                ) is Some && !headers::valid_value(
                    auth::render_spec(insert[i].1, said)->Some_0,
                ) && o@ == OutcomeView::Forbidden(
                    "claim value for header '"@ + insert[i].0 + "' is not a valid header value"@,
                )
        }),
{
    lemma_identity(text::pairs_view(guard.insert_headers@), json::fields(claims));
}

proof fn lemma_identity(insert: Seq<(Seq<char>, Seq<char>)>, said: Map<Seq<char>, JsonView>)
    ensures
        auth::identity_spec(insert, said) is Ok <==> forall|i: int|
            0 <= i < insert.len() ==> (auth::render_spec(
                (#[trigger] insert[i]).1,
                said,
            ) matches Some(value) ==> headers::valid_value(value)),
        auth::identity_spec(insert, said) matches Ok(told) ==> told == insert.filter(
            |p: (Seq<char>, Seq<char>)| auth::render_spec(p.1, said) is Some,
        ).map_values(|p: (Seq<char>, Seq<char>)| (p.0, auth::render_spec(p.1, said)->Some_0)),
        auth::identity_spec(insert, said) matches Err(e) ==> exists|i: int|
            0 <= i < insert.len() && auth::render_spec((#[trigger] insert[i]).1, said) is Some
                && !headers::valid_value(auth::render_spec(insert[i].1, said)->Some_0) && e
                == "claim value for header '"@ + insert[i].0 + "' is not a valid header value"@,
    decreases insert.len(),
{
    reveal(Seq::filter);
    let keep = |p: (Seq<char>, Seq<char>)| auth::render_spec(p.1, said) is Some;
    let tell = |p: (Seq<char>, Seq<char>)| (p.0, auth::render_spec(p.1, said)->Some_0);
    if insert.len() == 0 {
        assert(Seq::<(Seq<char>, Seq<char>)>::empty() =~= insert.filter(keep).map_values(tell));
    } else {
        let front = insert.drop_last();
        lemma_identity(front, said);
        if auth::identity_spec(front, said) is Ok {
            assert forall|i: int| 0 <= i < insert.len() - 1 implies (auth::render_spec(
                (#[trigger] insert[i]).1,
                said,
            ) matches Some(value) ==> headers::valid_value(value)) by {
                assert(front[i] == insert[i]);
            }
            let kept = front.filter(keep);
            if keep(insert.last()) {
                assert(kept.push(insert.last()).map_values(tell) =~= kept.map_values(tell).push(
                    tell(insert.last()),
                ));
            }
            assert(insert[insert.len() - 1] == insert.last());
        } else {
            let e = auth::identity_spec(front, said)->Err_0;
            let i = choose|i: int|
                0 <= i < front.len() && auth::render_spec((#[trigger] front[i]).1, said) is Some
                    && !headers::valid_value(auth::render_spec(front[i].1, said)->Some_0) && e
                    == "claim value for header '"@ + front[i].0
                    + "' is not a valid header value"@;
            assert(insert[i] == front[i]);
        }
    }
}

/// A guard is bound to a route with the roles and headers that the route gives. A policy of
/// shared secrets cannot require roles, and a header must have a name that can stand.
pub proof fn law_how_a_guard_is_bound(
    name: &str,
    policy: Arc<AuthPolicy>,
    required_roles: Vec<String>,
    insert_headers: Vec<(String, String)>,
    r: Result<RouteGuard, String>,
)
    requires
        call_ensures(RouteGuard::build, (name, policy, required_roles, insert_headers), r),
    ensures
        r is Ok <==> !(*policy is StaticToken && required_roles@.len() > 0) && forall|i: int|
            0 <= i < insert_headers@.len() ==> headers::valid_value(
                (#[trigger] insert_headers@[i]).0@,
            ) && text::trim_spec(insert_headers@[i].0@).len() > 0,
        r matches Ok(g) ==> *g.policy == *policy && g.name@ == name@ && text::texts(
            g.required_roles@,
        ) == text::texts(required_roles@) && text::pairs_view(g.insert_headers@)
            == text::pairs_view(insert_headers@),
        *policy is StaticToken && required_roles@.len() > 0 ==> (r matches Err(e) && e@
            == "plugin '"@ + name@
            + "' is a token-plugin and carries no claims, so it cannot require roles"@),
        !(*policy is StaticToken && required_roles@.len() > 0) ==> (r matches Err(e) ==> exists|
            header: Seq<char>,
        |
            e@ == #[trigger] refused_header(name@, header) && (!headers::valid_value(header)
                || text::trim_spec(header).len() == 0)),
{
    let insert = text::pairs_view(insert_headers@);
    lemma_bad(insert);
    if let Err(e) = r {
        if let Some(header) = auth::first_bad(insert) {
            lemma_first_bad(insert);
            let told = refused_header(name@, header);
            assert(told == "plugin '"@ + name@ + "' has an invalid header name '"@ + header + "'"@);
        }
    }
    if auth::first_bad(insert) is None {
        assert forall|i: int| 0 <= i < insert_headers@.len() implies headers::valid_value(
            (#[trigger] insert_headers@[i]).0@,
        ) && text::trim_spec(insert_headers@[i].0@).len() > 0 by {
            assert(insert[i].0 == insert_headers@[i].0@);
        }
    } else {
        let i = choose|i: int| 0 <= i < insert.len() && auth::bad_header((#[trigger] insert[i]).0);
        assert(insert[i].0 == insert_headers@[i].0@);
    }
}

/// How a header without a name that can stand is refused.
pub open spec fn refused_header(name: Seq<char>, header: Seq<char>) -> Seq<char> {
    "plugin '"@ + name + "' has an invalid header name '"@ + header + "'"@
}

proof fn lemma_first_bad(insert: Seq<(Seq<char>, Seq<char>)>)
    ensures
        auth::first_bad(insert) matches Some(header) ==> auth::bad_header(header),
    decreases insert.len(),
{
    if insert.len() > 0 && !auth::bad_header(insert[0].0) {
        lemma_first_bad(insert.drop_first());
    }
}

proof fn lemma_bad(insert: Seq<(Seq<char>, Seq<char>)>)
    ensures
        auth::first_bad(insert) is None <==> forall|i: int|
            0 <= i < insert.len() ==> !auth::bad_header((#[trigger] insert[i]).0),
    decreases insert.len(),
{
    if insert.len() > 0 && !auth::bad_header(insert[0].0) {
        let rest = insert.drop_first();
        lemma_bad(rest);
        if auth::first_bad(rest) is None {
            assert forall|i: int| 0 <= i < insert.len() implies !auth::bad_header(
                (#[trigger] insert[i]).0,
            ) by {
                if i > 0 {
                    assert(rest[i - 1] == insert[i]);
                }
            }
        } else {
            let i = choose|i: int|
                0 <= i < rest.len() && auth::bad_header((#[trigger] rest[i]).0);
            assert(insert[i + 1] == rest[i]);
        }
    }
}

/// A request without a credential is refused, whatever the policy is, and the refusal says at
/// which guard.
pub proof fn law_no_credential_no_entry(
    guard: RouteGuard,
    fields: HeaderList,
    cache: ProviderCache,
    overrides: Option<&ClaimOverrides>,
    at: Moment,
    credential: Option<String>,
    r: GuardStep,
)
    requires
        call_ensures(AuthPolicy::credential, (&*guard.policy, &fields), credential),
        credential is None,
        call_ensures(RouteGuard::check, (&guard, &fields, &cache, overrides, at), r),
    ensures
        r matches GuardStep::Refused(AuthOutcome::Unauthorized(m)) && m@
            == "missing credentials for '"@ + guard.name@ + "'"@,
{
}

/// A policy of shared secrets lets a credential pass exactly where it is one of them, to the
/// letter; the caller is nobody to the upstream and is handed nothing.
pub proof fn law_which_shared_secrets_pass(
    guard: RouteGuard,
    fields: HeaderList,
    cache: ProviderCache,
    overrides: Option<&ClaimOverrides>,
    at: Moment,
    credential: Option<String>,
    r: GuardStep,
)
    requires
        call_ensures(AuthPolicy::credential, (&*guard.policy, &fields), credential),
        credential is Some,
        *guard.policy is StaticToken,
        call_ensures(RouteGuard::check, (&guard, &fields, &cache, overrides, at), r),
    ensures
        ({
            let listed = text::texts(guard.policy->StaticToken_tokens@).contains(
                credential->Some_0@,
            );
            &&& listed ==> (r matches GuardStep::Passed(told, handed) && told@.len() == 0
                && handed@.len() == 0)
            &&& !listed ==> (r matches GuardStep::Refused(AuthOutcome::Unauthorized(m)) && m@
                == "invalid credentials for '"@ + guard.name@ + "'"@)
        }),
{
    if let GuardStep::Passed(told, handed) = r {
        assert(text::pairs_view(told@).len() == told@.len());
        assert(text::pairs_view(handed@).len() == handed@.len());
    }
}

/// A secret is one of some exactly where it is equal to one of them.
pub proof fn law_which_secrets_are_listed(tokens: Vec<String>, token: &str, r: bool)
    requires
        call_ensures(token::is_listed, (&tokens, token), r),
    ensures
        r <==> exists|i: int| 0 <= i < tokens@.len() && (#[trigger] tokens@[i])@ == token@,
{
    let all = text::texts(tokens@);
    if all.contains(token@) {
        let i = choose|i: int| 0 <= i < all.len() && all[i] == token@;
        assert(tokens@[i]@ == token@);
    }
    if exists|i: int| 0 <= i < tokens@.len() && (#[trigger] tokens@[i])@ == token@ {
        let i = choose|i: int| 0 <= i < tokens@.len() && (#[trigger] tokens@[i])@ == token@;
        assert(all[i] == token@);
    }
}

/// Bytes are the same where they are equal one by one.
pub proof fn law_when_bytes_are_the_same(a: &[u8], b: &[u8], r: bool)
    requires
        call_ensures(token::constant_time_eq, (a, b), r),
    ensures
        r <==> a@.len() == b@.len() && forall|i: int| 0 <= i < a@.len() ==> a@[i] == b@[i],
{
    if a@.len() == b@.len() && (forall|i: int| 0 <= i < a@.len() ==> a@[i] == b@[i]) {
        assert(a@ =~= b@);
    }
}

/// With verified claims a guard passes the caller with what is told of them, or refuses them;
/// a caller who lacks a role is refused before anything is rendered.
pub proof fn law_how_a_guard_concludes(
    guard: RouteGuard,
    fields: HeaderList,
    claims: StrMap<Json>,
    roles_claim: &str,
    now: i64,
    authorized: Result<(), AuthOutcome>,
    told: Result<Vec<(String, String)>, AuthOutcome>,
    r: GuardStep,
)
    requires
        call_ensures(RouteGuard::authorize, (&guard, &claims, roles_claim), authorized),
        call_ensures(RouteGuard::render_identity, (&guard, &claims), told),
        call_ensures(RouteGuard::conclude, (&guard, &fields, &claims, roles_claim, now), r),
    ensures
        r is Passed || r is Refused,
        r is Passed <==> authorized is Ok && told is Ok,
        r matches GuardStep::Passed(v, _) ==> text::pairs_view(v@) == text::pairs_view(
            told->Ok_0@,
        ),
        authorized matches Err(o) ==> (r matches GuardStep::Refused(p) && p@ == o@),
        authorized is Ok && told is Err ==> (r matches GuardStep::Refused(p) && p@
            == told->Err_0@),
{
}

/// A request that one more guard was held against: where all before let it pass and this one
/// does too, the headers of this one come behind theirs; the first refusal stands, whatever
/// comes after.
pub proof fn law_one_more_guard(outcomes: Seq<OutcomeView>, outcome: OutcomeView)
    ensures
        ({
            let before = auth::enforced(outcomes);
            let after = auth::enforced(outcomes.push(outcome));
            &&& !(before is Allowed) ==> after == before
            &&& before is Allowed && !(outcome is Allowed) ==> after == outcome
            &&& before is Allowed && outcome is Allowed ==> after == OutcomeView::Allowed(
                before->Allowed_0 + outcome->Allowed_0,
            )
        }),
        auth::enforced(Seq::empty()) == OutcomeView::Allowed(Seq::empty()),
{
    assert(outcomes.push(outcome).drop_last() =~= outcomes);
}

/// A request goes on to the next guard while guards are left and all let it pass; it ends as
/// the guard that refused it said, with nothing added to the response, or, behind the last
/// guard, with the headers of all of them.
pub proof fn law_where_a_request_stands(
    before: Enforcement,
    total: usize,
    outcome: AuthOutcome,
    handed: Vec<(String, String)>,
    r: Progress,
)
    requires
        before.passed < total,
        call_ensures(Enforcement::record, (before, total, outcome, handed), r),
    ensures
        !(outcome@ is Allowed) ==> (r matches Progress::Finished(o, given) && o@ == outcome@
            && given@.len() == 0),
        outcome@ is Allowed ==> ({
            let told = text::pairs_view(before.identity@) + outcome@->Allowed_0;
            let given = text::pairs_view(before.issued@) + text::pairs_view(handed@);
            &&& before.passed + 1 < total ==> (r matches Progress::Next(e) && e.passed
                == before.passed + 1 && text::pairs_view(e.identity@) == told && text::pairs_view(
                e.issued@,
            ) == given)
            &&& before.passed + 1 == total ==> (r matches Progress::Finished(o, g) && o@
                == OutcomeView::Allowed(told) && text::pairs_view(g@) == given)
        }),
{
}

/// What a guard does once it knows a token's next step: with claims it concludes; a refusal
/// stands as it is; and what the provider is to be asked is handed on with the token.
pub proof fn law_how_a_step_is_followed(
    guard: RouteGuard,
    fields: HeaderList,
    roles_claim: &str,
    token: Seq<char>,
    now: i64,
    step: Step,
    claims: StrMap<Json>,
    concluded: GuardStep,
    r: GuardStep,
)
    requires
        auth::follows(guard@, fields@, roles_claim@, token, now, step, r),
        step matches Step::Done(Ok(c)) ==> *c == claims,
        call_ensures(
            RouteGuard::conclude,
            (&guard, &fields, &claims, roles_claim, now),
            concluded,
        ),
    ensures
        step matches Step::Done(Ok(_)) ==> auth::ended(r) == auth::ended(concluded),
        step matches Step::Done(Err(o)) ==> r == GuardStep::Refused(o),
        step matches Step::Introspect(q) ==> (r matches GuardStep::Introspect(t, asked) && t@
            == token && asked == q),
        step matches Step::Userinfo(q, kept) ==> (r matches GuardStep::Userinfo(t, asked, k)
            && t@ == token && asked == q && k == kept),
{
}

} // verus!
