//! Claims that stand in for a provider, and the ids they are kept under.

use crate::auth::AuthOutcome;
use crate::digest;
use crate::json;
use crate::json::{Json, JsonView};
use crate::plugins::session::SessionCookie;
use crate::plugins::testing as standing;
use crate::provider::Step;
use crate::strmap::StrMap;
use crate::testing;
use crate::testing::ClaimOverrides;
use crate::text;
use vstd::prelude::*;
use vstd::string::*;

verus! {

/// The value of a digit of sixteen.
pub open spec fn sixteenth(c: char) -> int {
    if '0' <= c <= '9' {
        c as int - '0' as int
    } else if 'a' <= c <= 'f' {
        c as int - 'a' as int + 10
    } else if 'A' <= c <= 'F' {
        c as int - 'A' as int + 10
    } else {
        -1
    }
}

proof fn lemma_sixteenth(c: char)
    ensures
        sixteenth(c) < 0 <==> digest::digit_value(c) is None,
        sixteenth(c) >= 0 ==> digest::digit_value(c)->Some_0 == sixteenth(c) && sixteenth(c) < 16,
{
}

/// A digest is written as two digits of sixteen to a byte, the high one first, with small
/// letters.
pub proof fn law_how_a_digest_is_written(key: [u8; 32], r: String, i: int)
    requires
        call_ensures(digest::hex, (&key,), r),
        0 <= i < 32,
    ensures
        r@.len() == 64,
        sixteenth(r@[2 * i]) == key@[i] / 16,
        sixteenth(r@[2 * i + 1]) == key@[i] % 16,
        !('A' <= r@[2 * i] <= 'F'),
        !('A' <= r@[2 * i + 1] <= 'F'),
{
    lemma_hex(key@, i);
}

proof fn lemma_hex(bytes: Seq<u8>, i: int)
    requires
        0 <= i < bytes.len(),
    ensures
        digest::hex_spec(bytes).len() == 2 * bytes.len(),
        digest::hex_spec(bytes)[2 * i] == text::digit((bytes[i] / 16) as int),
        digest::hex_spec(bytes)[2 * i + 1] == text::digit((bytes[i] % 16) as int),
    decreases bytes.len(),
{
    let front = bytes.drop_last();
    if bytes.len() == 1 {
        assert(digest::hex_spec(front) =~= Seq::empty());
    } else {
        lemma_hex(
            front,
            if i < front.len() {
                i
            } else {
                0
            },
        );
    }
}

/// An id names a digest where it is 64 digits of sixteen, in small or capital letters; each
/// two of them are a byte of it, the high one first.
pub proof fn law_what_an_id_names(id: &str, r: Option<[u8; 32]>, i: int)
    requires
        call_ensures(digest::key_from_id, (id,), r),
        0 <= i < 32,
    ensures
        r is Some <==> id@.len() == 64 && forall|k: int|
            0 <= k < 64 ==> sixteenth(#[trigger] id@[k]) >= 0,
        r matches Some(key) ==> key@[i] == 16 * sixteenth(id@[2 * i]) + sixteenth(id@[2 * i + 1]),
{
    if id@.len() == 64 {
        if forall|k: int| 0 <= k < 64 ==> sixteenth(#[trigger] id@[k]) >= 0 {
            assert forall|j: int| 0 <= j < 32 implies (#[trigger] digest::pair_value(
                id@[2 * j],
                id@[2 * j + 1],
            )) is Some by {
                lemma_sixteenth(id@[2 * j]);
                lemma_sixteenth(id@[2 * j + 1]);
            }
        }
        if digest::is_id(id@) {
            assert forall|k: int| 0 <= k < 64 implies sixteenth(#[trigger] id@[k]) >= 0 by {
                let j = k / 2;
                assert(digest::pair_value(id@[2 * j], id@[2 * j + 1]) is Some);
                lemma_sixteenth(id@[2 * j]);
                lemma_sixteenth(id@[2 * j + 1]);
                assert(k == 2 * j || k == 2 * j + 1);
            }
        }
        lemma_sixteenth(id@[2 * i]);
        lemma_sixteenth(id@[2 * i + 1]);
    }
}

/// The id that a digest is written as names that digest again.
pub proof fn law_an_id_reads_back(
    key: [u8; 32],
    written: String,
    id: &str,
    r: Option<[u8; 32]>,
)
    requires
        call_ensures(digest::hex, (&key,), written),
        id@ == written@,
        call_ensures(digest::key_from_id, (id,), r),
    ensures
        r matches Some(back) && back@ == key@,
{
    law_how_a_digest_is_written(key, written, 0);
    assert forall|k: int| 0 <= k < 64 implies sixteenth(#[trigger] id@[k]) >= 0 by {
        law_how_a_digest_is_written(key, written, k / 2);
        assert(k == 2 * (k / 2) || k == 2 * (k / 2) + 1);
    }
    law_what_an_id_names(id, r, 0);
    if let Some(back) = r {
        assert forall|i: int| 0 <= i < 32 implies back@[i] == key@[i] by {
            law_what_an_id_names(id, r, i);
            law_how_a_digest_is_written(key, written, i);
        }
        assert(back@ =~= key@);
    }
}

/// A patch replaces the claims it speaks of, takes out those it sets to null, and leaves every
/// other claim as it was.
pub proof fn law_what_a_patch_changes(
    claims: Map<Seq<char>, JsonView>,
    patch: Map<Seq<char>, JsonView>,
    claim: Seq<char>,
)
    ensures
        ({
            let after = testing::patched(claims, patch);
            &&& !patch.contains_key(claim) ==> (after.contains_key(claim) <==> claims.contains_key(
                claim,
            )) && (claims.contains_key(claim) ==> after[claim] == claims[claim])
            &&& patch.contains_key(claim) && patch[claim] is Null ==> !after.contains_key(claim)
            &&& patch.contains_key(claim) && !(patch[claim] is Null) ==> after.contains_key(claim)
                && after[claim] == patch[claim]
        }),
{
}

/// Claims are looked up under the id of the token they are registered for.
pub proof fn law_claims_are_kept_by_id(
    overrides: ClaimOverrides,
    token: &str,
    key: [u8; 32],
    id: String,
    r: Option<std::sync::Arc<StrMap<Json>>>,
)
    requires
        call_ensures(digest::key_for, (token,), key),
        call_ensures(digest::hex, (&key,), id),
        call_ensures(ClaimOverrides::get, (&overrides, token), r),
    ensures
        r is Some <==> overrides@.contains_key(id@),
        r matches Some(claims) ==> json::fields(*claims) == overrides@[id@],
        key@ == digest::sha256(vstd::utf8::encode_utf8(token@)),
{
}

/// Claims registered for a token stand in for what a provider would say of it, laid over those
/// of the caller's session, until they expire. A token that nobody registered is refused as a
/// provider would refuse it.
pub proof fn law_when_claims_stand_in(
    overrides: ClaimOverrides,
    base: StrMap<Json>,
    token: &str,
    unix: i64,
    id: Seq<char>,
    exp: int,
    claim: Seq<char>,
    step: Step,
)
    requires
        call_ensures(standing::stand_in, (&overrides, base, token, unix), step),
        id == testing::id_of(token@),
        overrides@.contains_key(id) && overrides@[id].contains_key("exp"@) ==> overrides@[id]["exp"@]
            == JsonView::Int(exp),
        overrides@.contains_key(id) && !overrides@[id].contains_key("exp"@)
            ==> !json::fields(base).contains_key("exp"@),
    ensures
        ({
            let own = overrides@[id];
            let good = overrides@.contains_key(id) && (own.contains_key("exp"@) ==> exp > unix);
            &&& good <==> (step matches Step::Done(Ok(_)))
            &&& !good ==> (step matches Step::Done(Err(AuthOutcome::Unauthorized(m))) && m@
                == "token rejected by the authorization provider"@)
            &&& good ==> (step matches Step::Done(Ok(said)) && (json::fields(*said).contains_key(
                claim,
            ) <==> own.contains_key(claim) || json::fields(base).contains_key(claim)) && (
            own.contains_key(claim) ==> json::fields(*said)[claim] == own[claim]) && (
            !own.contains_key(claim) && json::fields(base).contains_key(claim) ==> json::fields(
                *said,
            )[claim] == json::fields(base)[claim]))
        }),
{
}

/// Showing what is registered under an id gives its claims and the id, where the id names a
/// digest under which claims are registered.
pub proof fn law_what_is_shown_of_an_id(
    overrides: ClaimOverrides,
    id: &str,
    key: Option<[u8; 32]>,
    written: String,
    r: testing::OverrideReply,
)
    requires
        call_ensures(digest::key_from_id, (id,), key),
        key is Some ==> call_ensures(digest::hex, (&key->Some_0,), written),
        call_ensures(testing::show, (&overrides, id), r),
    ensures
        ({
            let held = key is Some && overrides@.contains_key(written@);
            &&& held ==> (r matches testing::OverrideReply::View(v) && v.id@ == written@
                && json::fields(v.claims) == overrides@[written@])
            &&& !held ==> (r matches testing::OverrideReply::NotFound(m) && m@
                == "no claim override with id '"@ + id@ + "'"@)
        }),
{
}

/// The claims of a caller's session that others are laid over: none where no session is looked
/// at or none is brought, and otherwise those that its key vouches for, or none.
pub proof fn law_what_claims_are_laid_over(
    cookie: Option<SessionCookie>,
    session: Option<&str>,
    r: StrMap<Json>,
)
    requires
        call_ensures(standing::read_baseline, (&cookie, session), r),
    ensures
        cookie is None || session is None ==> json::fields(r).dom().is_empty(),
        cookie is Some && session is Some ==> cookie->Some_0.key.vouches(
            session->Some_0@,
            json::fields(r),
        ) || json::fields(r).dom().is_empty(),
        cookie is Some && session is Some && (forall|kind: Seq<char>|
            !(#[trigger] cookie->Some_0.key.refuses(session->Some_0@, kind)))
            ==> cookie->Some_0.key.vouches(session->Some_0@, json::fields(r)),
{
    if json::fields(r) == Map::<Seq<char>, JsonView>::empty() {
        assert(json::fields(r).dom() =~= Set::empty());
    }
}

} // verus!
