//! What becomes of a message that the filters of a route have seen.

use crate::auth;
use crate::cookies;
use crate::headers;
use crate::headers::HeaderList;
use crate::plugins::wasm;
use crate::plugins::wasm::{EditsView, FilterOutcome, FilteredView, HeaderEdits};
use crate::proxy;
use crate::proxy::{Reply, ReplyView};
use crate::registry::Resolved;
use crate::text;
use vstd::prelude::*;
use vstd::string::*;

verus! {

/// The answer to a request that its filters do not let pass: the response of the one
/// that stopped it, or a plain failure where one could not run.
pub open spec fn filter_reply(outcome: FilteredView) -> Option<ReplyView> {
    match outcome {
        FilteredView::Continue(_) => None,
        FilteredView::Stop { status, headers, body } => Some(ReplyView { status, headers, body }),
        FilteredView::Failed(message) => Some(proxy::plain(500, message + "\n"@)),
    }
}

/// The changes to make to a request that its filters let pass, or the answer to one they
/// do not.
pub fn edits_or_reply(outcome: FilterOutcome) -> (r: Result<HeaderEdits, Reply>)
    ensures
        match r {
            Ok(edits) => outcome@ == FilteredView::Continue(edits@),
            Err(reply) => filter_reply(outcome@) == Some(reply@),
        },
{
    match outcome {
        FilterOutcome::Continue(edits) => Ok(edits),
        FilterOutcome::Stop(stop) => {
            let stop = *stop;
            Err(Reply { status: stop.status, headers: stop.headers, body: stop.body })
        },
        FilterOutcome::Failed(message) => Err(
            proxy::plain_reply(500, text::cat2(message.as_str(), "\n")),
        ),
    }
}

/// The fields without those of some names.
pub open spec fn without_all(
    fields: Seq<(Seq<char>, Seq<u8>)>,
    names: Seq<Seq<char>>,
) -> Seq<(Seq<char>, Seq<u8>)>
    decreases names.len(),
{
    if names.len() == 0 {
        fields
    } else {
        proxy::others(
            without_all(fields, names.drop_last()),
            text::lower_spec(names.last()),
        )
    }
}

/// The fields with changes made: first what is removed, and then what is set.
pub open spec fn changed(fields: Seq<(Seq<char>, Seq<u8>)>, e: EditsView) -> Seq<
    (Seq<char>, Seq<u8>),
> {
    proxy::with_all(without_all(fields, e.remove), e.set)
}

/// Makes the changes of filters to the headers of a message.
pub fn apply_edits(fields: &mut HeaderList, edits: &HeaderEdits)
    ensures
        final(fields)@ == changed(old(fields)@, edits@),
{
    let ghost names = edits@.remove;
    let mut i: usize = 0;
    proof {
        assert(names.take(0) =~= Seq::empty());
    }
    while i < edits.remove.len()
        invariant
            i <= edits.remove@.len(),
            names == text::texts(edits.remove@),
            fields@ == without_all(old(fields)@, names.take(i as int)),
        decreases edits.remove@.len() - i,
    {
        proof {
            assert(names.take(i + 1).drop_last() =~= names.take(i as int));
            assert(names.take(i + 1).last() == edits.remove@[i as int]@);
        }
        proxy::drop_header(fields, edits.remove[i].as_str());
        i = i + 1;
    }
    proof {
        assert(names.take(i as int) =~= names);
    }
    proxy::set_headers(fields, &edits.set);
}

/// Whether a list holds the names that a route withholds from what a client sent.
pub open spec fn withholds(list: Seq<Seq<char>>, resolved: Resolved) -> bool {
    forall|name: Seq<char>| #[trigger]
        list.contains(name) <==> proxy::is_withheld(
            auth::guards_view(resolved.guards@),
            resolved.forward_token,
            name,
        )
}

/// Whether a list holds the cookies that a route withholds from what a client sent.
pub open spec fn withholds_cookies(list: Seq<Seq<char>>, resolved: Resolved) -> bool {
    forall|name: Seq<char>| #[trigger]
        list.contains(name) <==> cookies::is_withheld(
            auth::guards_view(resolved.guards@),
            resolved.forward_token,
            name,
        )
}

/// The headers of an upstream request once its filters have run: what the gateway sends
/// with some names withheld, and then the changes of the filters.
pub open spec fn prepared(
    withheld: Seq<Seq<char>>,
    identity: Seq<(Seq<char>, Seq<char>)>,
    edits: EditsView,
    fields: Seq<(Seq<char>, Seq<u8>)>,
    address: Seq<(Seq<char>, Seq<char>)>,
    upgrade: bool,
) -> Seq<(Seq<char>, Seq<u8>)> {
    changed(proxy::upstream_fields(fields, withheld, address, identity, upgrade), edits)
}

/// The headers of an upstream request for which the guards of its route vouched with an
/// identity, and whose filters let it pass with some changes. The gateway's own cookies
/// are taken out of it like the headers that hold credentials.
pub fn prepare(
    resolved: &Resolved,
    identity: &Vec<(String, String)>,
    edits: &HeaderEdits,
    fields: &HeaderList,
    peer: Option<String>,
    scheme: &str,
    host: &str,
    upgrade: bool,
) -> (r: HeaderList)
    ensures
        exists|withheld: Seq<Seq<char>>, own: Seq<Seq<char>>| #[trigger]
            withholds(withheld, *resolved) && #[trigger] withholds_cookies(own, *resolved) && r@
                == prepared(
                withheld,
                text::pairs_view(identity@),
                edits@,
                cookies::without(fields@, own),
                proxy::address_pairs(
                    proxy::forwarded_spec(
                        headers::text_spec(fields@, "x-forwarded-for"@),
                        text::opt_of(peer),
                    ),
                    scheme@,
                    host@,
                ),
                upgrade,
            ),
{
    let withheld = proxy::withheld_names(&resolved.guards, resolved.forward_token);
    let own = cookies::withheld(&resolved.guards, resolved.forward_token);
    proof {
        assert(withholds(text::texts(withheld@), *resolved));
        assert(withholds_cookies(text::texts(own@), *resolved));
        reveal_strlit("x-forwarded-for");
        reveal_strlit("cookie");
        let name = text::lower_spec("x-forwarded-for"@);
        assert(name.len() == 15);
        cookies::law_other_headers_are_left_alone(fields@, text::texts(own@), name);
    }
    let left = cookies::strip(fields, &own);
    let mut out = proxy::upstream_headers(
        &left,
        &withheld,
        peer,
        scheme,
        host,
        identity,
        upgrade,
    );
    apply_edits(&mut out, edits);
    out
}

/// What is set under one name is not touched by what is set under others.
pub proof fn lemma_with_all(
    fields: Seq<(Seq<char>, Seq<u8>)>,
    pairs: Seq<(Seq<char>, Seq<char>)>,
    name: Seq<char>,
)
    requires
        forall|i: int|
            0 <= i < pairs.len() ==> text::lower_spec((#[trigger] pairs[i]).0) != name,
    ensures
        headers::all_spec(proxy::with_all(fields, pairs), name) == headers::all_spec(fields, name),
    decreases pairs.len(),
{
    if pairs.len() > 0 {
        let front = pairs.drop_last();
        assert forall|i: int| 0 <= i < front.len() implies text::lower_spec(
            (#[trigger] front[i]).0,
        ) != name by {
            assert(front[i] == pairs[i]);
        }
        lemma_with_all(fields, front, name);
        let sofar = proxy::with_all(fields, front);
        let low = text::lower_spec(pairs.last().0);
        assert(pairs[pairs.len() - 1] == pairs.last());
        proxy::lemma_others(sofar, low, name);
        let whole = proxy::with_all(fields, pairs);
        assert(whole.drop_last() =~= proxy::others(sofar, low));
    }
}

/// What is taken out stays out.
proof fn lemma_without_all(
    fields: Seq<(Seq<char>, Seq<u8>)>,
    names: Seq<Seq<char>>,
    at: int,
)
    requires
        0 <= at < names.len(),
    ensures
        headers::all_spec(
            without_all(fields, names),
            text::lower_spec(names[at]),
        ).len() == 0,
    decreases names.len(),
{
    let front = names.drop_last();
    let low = text::lower_spec(names.last());
    let name = text::lower_spec(names[at]);
    proxy::lemma_others(without_all(fields, front), low, name);
    if low != name {
        assert(front[at] == names[at]);
        lemma_without_all(fields, front, at);
    }
}

/// A header a filter sets belongs to the gateway: whatever copies of it the message had,
/// the one set last is the only one left.
pub proof fn law_what_a_filter_sets_stands_alone(
    fields: Seq<(Seq<char>, Seq<u8>)>,
    e: EditsView,
    at: int,
)
    requires
        0 <= at < e.set.len(),
        forall|i: int|
            at < i < e.set.len() ==> text::lower_spec((#[trigger] e.set[i]).0) != text::lower_spec(
                e.set[at].0,
            ),
    ensures
        headers::all_spec(changed(fields, e), text::lower_spec(e.set[at].0)) == seq![
            vstd::utf8::encode_utf8(e.set[at].1),
        ],
{
    lemma_set_at(without_all(fields, e.remove), e.set, at);
}

/// The pair set last under a name is the only one of that name.
proof fn lemma_set_at(
    fields: Seq<(Seq<char>, Seq<u8>)>,
    pairs: Seq<(Seq<char>, Seq<char>)>,
    at: int,
)
    requires
        0 <= at < pairs.len(),
        forall|i: int|
            at < i < pairs.len() ==> text::lower_spec((#[trigger] pairs[i]).0) != text::lower_spec(
                pairs[at].0,
            ),
    ensures
        headers::all_spec(proxy::with_all(fields, pairs), text::lower_spec(pairs[at].0)) == seq![
            vstd::utf8::encode_utf8(pairs[at].1),
        ],
    decreases pairs.len(),
{
    let front = pairs.drop_last();
    let sofar = proxy::with_all(fields, front);
    if at == pairs.len() - 1 {
        proxy::law_a_set_header_stands_alone(sofar, pairs[at].0, pairs[at].1);
    } else {
        let name = text::lower_spec(pairs[at].0);
        let low = text::lower_spec(pairs.last().0);
        assert(front[at] == pairs[at]);
        assert forall|i: int| at < i < front.len() implies text::lower_spec(
            (#[trigger] front[i]).0,
        ) != text::lower_spec(front[at].0) by {
            assert(front[i] == pairs[i]);
        }
        lemma_set_at(fields, front, at);
        assert(pairs[pairs.len() - 1] == pairs.last());
        proxy::lemma_others(sofar, low, name);
        let whole = proxy::with_all(fields, pairs);
        assert(whole.drop_last() =~= proxy::others(sofar, low));
    }
}

/// A header a filter removes and none sets is gone.
pub proof fn law_what_a_filter_removes_is_gone(
    fields: Seq<(Seq<char>, Seq<u8>)>,
    e: EditsView,
    at: int,
)
    requires
        0 <= at < e.remove.len(),
        forall|i: int|
            0 <= i < e.set.len() ==> text::lower_spec((#[trigger] e.set[i]).0) != text::lower_spec(
                e.remove[at],
            ),
    ensures
        headers::all_spec(changed(fields, e), text::lower_spec(e.remove[at])).len() == 0,
{
    lemma_without_all(fields, e.remove, at);
    lemma_with_all(without_all(fields, e.remove), e.set, text::lower_spec(e.remove[at]));
}

/// Leaving names out is the same in either order.
proof fn lemma_others_commute(fields: Seq<(Seq<char>, Seq<u8>)>, a: Seq<char>, b: Seq<char>)
    ensures
        proxy::others(proxy::others(fields, a), b) == proxy::others(proxy::others(fields, b), a),
    decreases fields.len(),
{
    if fields.len() > 0 {
        let front = fields.drop_last();
        let last = fields.last();
        lemma_others_commute(front, a, b);
        assert(proxy::others(front, a).push(last).drop_last() =~= proxy::others(front, a));
        assert(proxy::others(front, b).push(last).drop_last() =~= proxy::others(front, b));
    }
}

/// What is left out once is left out.
proof fn lemma_others_twice(fields: Seq<(Seq<char>, Seq<u8>)>, a: Seq<char>)
    ensures
        proxy::others(proxy::others(fields, a), a) == proxy::others(fields, a),
    decreases fields.len(),
{
    if fields.len() > 0 {
        let front = fields.drop_last();
        lemma_others_twice(front, a);
        assert(proxy::others(front, a).push(fields.last()).drop_last() =~= proxy::others(
            front,
            a,
        ));
    }
}

/// Taking two lists of names out, one after the other, is taking all of them out.
proof fn lemma_without_parts(
    fields: Seq<(Seq<char>, Seq<u8>)>,
    a: Seq<Seq<char>>,
    b: Seq<Seq<char>>,
)
    ensures
        without_all(fields, a + b) == without_all(without_all(fields, a), b),
    decreases b.len(),
{
    if b.len() == 0 {
        assert(a + b =~= a);
    } else {
        assert((a + b).drop_last() =~= a + b.drop_last());
        lemma_without_parts(fields, a, b.drop_last());
    }
}

/// Setting two lists of fields, one after the other, is setting all of them.
proof fn lemma_with_parts(
    fields: Seq<(Seq<char>, Seq<u8>)>,
    a: Seq<(Seq<char>, Seq<char>)>,
    b: Seq<(Seq<char>, Seq<char>)>,
)
    ensures
        proxy::with_all(fields, a + b) == proxy::with_all(proxy::with_all(fields, a), b),
    decreases b.len(),
{
    if b.len() == 0 {
        assert(a + b =~= a);
    } else {
        assert((a + b).drop_last() =~= a + b.drop_last());
        lemma_with_parts(fields, a, b.drop_last());
    }
}

/// Whether the names of some pairs are in small letters.
pub open spec fn small_pairs(pairs: Seq<(Seq<char>, Seq<char>)>) -> bool {
    forall|i: int| 0 <= i < pairs.len() ==> text::lower_spec((#[trigger] pairs[i]).0) == pairs[i].0
}

/// Whether some names are in small letters.
pub open spec fn small_names(names: Seq<Seq<char>>) -> bool {
    forall|i: int| 0 <= i < names.len() ==> text::lower_spec(#[trigger] names[i]) == names[i]
}

/// Taking out a name that was set is not setting it.
proof fn lemma_others_with(
    fields: Seq<(Seq<char>, Seq<u8>)>,
    pairs: Seq<(Seq<char>, Seq<char>)>,
    name: Seq<char>,
)
    requires
        small_pairs(pairs),
    ensures
        proxy::others(proxy::with_all(fields, pairs), name) == proxy::with_all(
            proxy::others(fields, name),
            wasm::spared(pairs, seq![name]),
        ),
    decreases pairs.len(),
{
    if pairs.len() > 0 {
        let front = pairs.drop_last();
        let last = pairs.last();
        assert(text::lower_spec(pairs[pairs.len() - 1].0) == last.0);
        assert forall|i: int| 0 <= i < front.len() implies text::lower_spec((#[trigger] front[i]).0)
            == front[i].0 by {
            assert(front[i] == pairs[i]);
        }
        lemma_others_with(fields, front, name);
        let had = proxy::with_all(fields, front);
        let rest = proxy::others(had, last.0);
        let set = (last.0, vstd::utf8::encode_utf8(last.1));
        assert(rest.push(set).drop_last() =~= rest);
        assert(seq![name].contains(last.0) == (last.0 == name)) by {
            assert(seq![name][0] == name);
        }
        if last.0 == name {
            lemma_others_twice(had, name);
        } else {
            lemma_others_commute(had, last.0, name);
            let kept = wasm::spared(front, seq![name]);
            assert(kept.push(last).drop_last() =~= kept);
        }
    }
}

/// Sparing from two lists of names, one after the other, is sparing from all of them.
proof fn lemma_spared_parts(
    pairs: Seq<(Seq<char>, Seq<char>)>,
    names: Seq<Seq<char>>,
    name: Seq<char>,
)
    ensures
        wasm::spared(pairs, names.push(name)) == wasm::spared(
            wasm::spared(pairs, names),
            seq![name],
        ),
    decreases pairs.len(),
{
    if pairs.len() > 0 {
        let front = pairs.drop_last();
        let last = pairs.last();
        lemma_spared_parts(front, names, name);
        assert(seq![name].contains(last.0) == (last.0 == name)) by {
            assert(seq![name][0] == name);
        }
        assert(names.push(name).contains(last.0) == (names.contains(last.0) || last.0 == name)) by {
            assert(names.push(name)[names.len() as int] == name);
            if names.contains(last.0) {
                let i = choose|i: int| 0 <= i < names.len() && names[i] == last.0;
                assert(names.push(name)[i] == last.0);
            }
        }
        let kept = wasm::spared(front, names);
        assert(kept.push(last).drop_last() =~= kept);
    }
}

/// The pairs that are spared have names in small letters where all have.
proof fn lemma_spared_small(pairs: Seq<(Seq<char>, Seq<char>)>, names: Seq<Seq<char>>)
    requires
        small_pairs(pairs),
    ensures
        small_pairs(wasm::spared(pairs, names)),
    decreases pairs.len(),
{
    if pairs.len() > 0 {
        let front = pairs.drop_last();
        assert forall|i: int| 0 <= i < front.len() implies text::lower_spec((#[trigger] front[i]).0)
            == front[i].0 by {
            assert(front[i] == pairs[i]);
        }
        lemma_spared_small(front, names);
        assert(text::lower_spec(pairs[pairs.len() - 1].0) == pairs.last().0);
    }
}

/// Taking out names behind fields that were set is not setting those of them.
proof fn lemma_without_with(
    fields: Seq<(Seq<char>, Seq<u8>)>,
    pairs: Seq<(Seq<char>, Seq<char>)>,
    names: Seq<Seq<char>>,
)
    requires
        small_pairs(pairs),
        small_names(names),
    ensures
        without_all(proxy::with_all(fields, pairs), names) == proxy::with_all(
            without_all(fields, names),
            wasm::spared(pairs, names),
        ),
    decreases names.len(),
{
    if names.len() == 0 {
        assert(names =~= Seq::empty());
        wasm::lemma_spared_none(pairs);
    } else {
        let front = names.drop_last();
        assert forall|i: int| 0 <= i < front.len() implies text::lower_spec(#[trigger] front[i])
            == front[i] by {
            assert(front[i] == names[i]);
        }
        assert(text::lower_spec(names[names.len() - 1]) == names.last());
        lemma_without_with(fields, pairs, front);
        lemma_spared_small(pairs, front);
        lemma_others_with(without_all(fields, front), wasm::spared(pairs, front), names.last());
        lemma_spared_parts(pairs, front, names.last());
        assert(front.push(names.last()) =~= names);
    }
}

/// The changes of two filters, added up, do to a message what those of the first and then
/// those of the second do: the later wins. The names of what a filter changes are in small
/// letters.
pub proof fn law_added_up_changes_are_made_in_order(
    fields: Seq<(Seq<char>, Seq<u8>)>,
    a: EditsView,
    b: EditsView,
)
    requires
        small_pairs(a.set),
        small_names(b.remove),
    ensures
        changed(fields, wasm::accumulated(a, b)) == changed(changed(fields, a), b),
{
    let base = without_all(fields, a.remove);
    lemma_without_parts(fields, a.remove, b.remove);
    lemma_without_with(base, a.set, b.remove);
    lemma_with_parts(without_all(base, b.remove), wasm::spared(a.set, b.remove), b.set);
}

} // verus!
