//! What is asked of an authorization provider, and for how long its answers count.

use crate::auth::AuthOutcome;
use crate::clock;
use crate::clock::Moment;
use crate::decimal;
use crate::digest;
use crate::json;
use crate::json::{Json, JsonView};
use crate::provider;
use crate::provider::{
    CacheEntry, CachedOutcome, Provider, ProviderCache, ProviderReply, ProviderRequest,
    ProviderView, Step,
};
use crate::strmap::StrMap;
use std::sync::Arc;
use vstd::prelude::*;

verus! {

/// What the provider said of a good token counts no longer than the configured number of
/// seconds, whatever expiry the token carries: from then on the provider is asked again.
pub proof fn law_no_answer_outlives_the_configured_time(
    p: ProviderView,
    before: ProviderCache,
    token: Seq<char>,
    introspection: Map<Seq<char>, JsonView>,
    profile: Map<Seq<char>, JsonView>,
    at: Moment,
    first: Step,
    after: ProviderCache,
    later: u128,
    second: Step,
)
    requires
        at.nanos < clock::LATEST,
        provider::settles(p, before, token, introspection, profile, at, first, after),
        before.max_entries > 0,
        provider::begins(p, after, token, later, second),
        later >= at.nanos + p.cache_max * 1_000_000_000,
    ensures
        second is Introspect,
{
    provider::law_claims_are_remembered(
        p,
        before,
        token,
        introspection,
        profile,
        at,
        first,
        after,
        later,
        second,
    );
}

/// What the provider said of a good token counts no longer than the token itself: from the
/// second on at which it expires, the provider is asked again.
pub proof fn law_no_answer_outlives_the_token(
    p: ProviderView,
    before: ProviderCache,
    token: Seq<char>,
    introspection: Map<Seq<char>, JsonView>,
    profile: Map<Seq<char>, JsonView>,
    at: Moment,
    first: Step,
    after: ProviderCache,
    exp: i64,
    later: u128,
    second: Step,
)
    requires
        at.nanos < clock::LATEST,
        provider::settles(p, before, token, introspection, profile, at, first, after),
        before.max_entries > 0,
        introspection.contains_key("exp"@),
        introspection["exp"@] == JsonView::Int(exp as int),
        provider::begins(p, after, token, later, second),
        later >= at.nanos + (exp - at.unix) * 1_000_000_000,
        later >= at.nanos,
    ensures
        second is Introspect,
{
    provider::law_claims_are_remembered(
        p,
        before,
        token,
        introspection,
        profile,
        at,
        first,
        after,
        later,
        second,
    );
}

/// What the provider said of a good token is given again, to the letter, until the token
/// expires or the configured time is over: nothing is asked in between.
pub proof fn law_an_answer_counts_until_then(
    p: ProviderView,
    before: ProviderCache,
    token: Seq<char>,
    introspection: Map<Seq<char>, JsonView>,
    profile: Map<Seq<char>, JsonView>,
    at: Moment,
    first: Step,
    after: ProviderCache,
    exp: i64,
    later: u128,
    second: Step,
)
    requires
        at.nanos < clock::LATEST,
        provider::settles(p, before, token, introspection, profile, at, first, after),
        before.max_entries > 0,
        !introspection.contains_key("exp"@) || (introspection["exp"@] == JsonView::Int(exp as int)
            && later < at.nanos + (exp - at.unix) * 1_000_000_000),
        provider::begins(p, after, token, later, second),
        later < at.nanos + p.cache_max * 1_000_000_000,
    ensures
        second == first,
        first is Done,
{
    provider::law_claims_are_remembered(
        p,
        before,
        token,
        introspection,
        profile,
        at,
        first,
        after,
        later,
        second,
    );
}

/// From the first question about a good token to the next: the provider is asked again at
/// every moment from the configured number of seconds after the last answer on, and at none
/// before where the token carries no expiry.
pub proof fn law_a_token_is_looked_up_again_in_time(
    p: ProviderView,
    before: ProviderCache,
    token: Seq<char>,
    begun: u128,
    asked: Step,
    introspection: StrMap<Json>,
    at: Moment,
    told: Step,
    between: ProviderCache,
    profile: ProviderReply,
    profiled: Moment,
    last: Step,
    after: ProviderCache,
    later: u128,
    again: Step,
)
    requires
        at.nanos < clock::LATEST,
        profiled.nanos < clock::LATEST,
        before.max_entries > 0,
        provider::looked_up(
            p,
            before,
            token,
            begun,
            asked,
            ProviderReply::Claims(introspection),
            at,
            told,
            between,
            profile,
            profiled,
            last,
            after,
        ),
        last matches Step::Done(Ok(_)),
        provider::begins(p, after, token, later, again),
    ensures
        ({
            let settled = if p.userinfo_url is Some {
                profiled
            } else {
                at
            };
            let end = settled.nanos + p.cache_max * 1_000_000_000;
            &&& later >= end ==> again is Introspect
            &&& later < end && !json::fields(introspection).contains_key("exp"@) ==> again == last
        }),
{
    provider::law_a_good_token_is_looked_up_once(
        p,
        before,
        token,
        begun,
        asked,
        introspection,
        at,
        told,
        between,
        profile,
        profiled,
        last,
        after,
        later,
        again,
    );
}

/// A refusal counts for the configured number of seconds and no longer.
pub proof fn law_how_long_a_refusal_counts(
    p: ProviderView,
    before: ProviderCache,
    token: Seq<char>,
    introspection: StrMap<Json>,
    at: Moment,
    first: Step,
    after: ProviderCache,
    later: u128,
    second: Step,
)
    requires
        at.nanos < clock::LATEST,
        before.max_entries > 0,
        provider::after_introspection(
            p,
            before,
            token,
            ProviderReply::Claims(introspection),
            at,
            first,
            after,
        ),
        first matches Step::Done(Err(_)),
        provider::begins(p, after, token, later, second),
    ensures
        later < at.nanos + p.cache_negative * 1_000_000_000 ==> (second matches Step::Done(
            Err(AuthOutcome::Unauthorized(m)),
        ) && m@ == "token rejected by the authorization provider"@),
        later >= at.nanos + p.cache_negative * 1_000_000_000 ==> second is Introspect,
{
}

/// A token is good where the provider says that it is active and it has not expired; any
/// other is refused, for the same reason whatever is wrong with it.
pub proof fn law_which_tokens_are_good(
    p: ProviderView,
    before: ProviderCache,
    token: Seq<char>,
    introspection: StrMap<Json>,
    at: Moment,
    step: Step,
    after: ProviderCache,
    exp: int,
)
    requires
        provider::after_introspection(
            p,
            before,
            token,
            ProviderReply::Claims(introspection),
            at,
            step,
            after,
        ),
        json::fields(introspection).contains_key("exp"@) ==> json::fields(introspection)["exp"@]
            == JsonView::Int(exp),
    ensures
        ({
            let said = json::fields(introspection);
            let live = said.contains_key("active"@) && said["active"@] == JsonView::Bool(true) && (
            said.contains_key("exp"@) ==> exp > at.unix);
            &&& live <==> !(step matches Step::Done(Err(_)))
            &&& !live ==> (step matches Step::Done(Err(AuthOutcome::Unauthorized(m))) && m@
                == "token rejected by the authorization provider"@)
            &&& live && p.userinfo_url is Some ==> (step matches Step::Userinfo(_, kept)
                && json::fields(kept) == said && after == before)
            &&& live && p.userinfo_url is None ==> (step matches Step::Done(Ok(claims))
                && json::fields(*claims) == said)
        }),
{
    let said = json::fields(introspection);
    assert(provider::laid_over(said, Map::empty()) =~= said);
}

/// What the provider says of a token counts over what the profile of its holder says, and
/// the profile adds what the provider does not speak of.
pub proof fn law_the_provider_counts_over_the_profile(
    p: ProviderView,
    before: ProviderCache,
    token: Seq<char>,
    introspection: Map<Seq<char>, JsonView>,
    profile: StrMap<Json>,
    at: Moment,
    step: Step,
    after: ProviderCache,
    claim: Seq<char>,
)
    requires
        provider::after_userinfo(
            p,
            before,
            token,
            introspection,
            ProviderReply::Claims(profile),
            at,
            step,
            after,
        ),
    ensures
        step matches Step::Done(Ok(claims)) && ({
            let said = json::fields(*claims);
            let held = json::fields(profile);
            &&& said.contains_key(claim) <==> introspection.contains_key(claim)
                || held.contains_key(claim)
            &&& introspection.contains_key(claim) ==> said[claim] == introspection[claim]
            &&& !introspection.contains_key(claim) && held.contains_key(claim) ==> said[claim]
                == held[claim]
        }),
{
}

/// One set of claims laid over another: the upper counts where both speak.
pub proof fn law_claims_laid_over_claims(
    over: StrMap<Json>,
    under: StrMap<Json>,
    r: StrMap<Json>,
    claim: Seq<char>,
)
    requires
        call_ensures(provider::lay_over, (&over, under), r),
    ensures
        json::fields(r).contains_key(claim) <==> json::fields(over).contains_key(claim)
            || json::fields(under).contains_key(claim),
        json::fields(over).contains_key(claim) ==> json::fields(r)[claim] == json::fields(
            over,
        )[claim],
        !json::fields(over).contains_key(claim) && json::fields(under).contains_key(claim)
            ==> json::fields(r)[claim] == json::fields(under)[claim],
{
}

/// Where the provider does not answer with claims, the caller is told that it is at fault,
/// in words that tell the three ways apart, and nothing is remembered.
pub proof fn law_how_a_failing_provider_is_told(
    p: ProviderView,
    before: ProviderCache,
    token: Seq<char>,
    introspection: Map<Seq<char>, JsonView>,
    reply: ProviderReply,
    at: Moment,
    step: Step,
    after: ProviderCache,
)
    requires
        !(reply is Claims),
        provider::after_introspection(p, before, token, reply, at, step, after)
            || provider::after_userinfo(p, before, token, introspection, reply, at, step, after),
    ensures
        after == before,
        step matches Step::Done(Err(AuthOutcome::Unavailable(m))) && m@ == (
        if reply is Unreachable {
            "authorization provider is unreachable"@
        } else if reply is Refused {
            "authorization provider returned an error"@
        } else {
            "authorization provider returned an invalid response"@
        }),
{
}

/// A token is looked for among the answers under its own id; where none counts, the provider
/// is asked about that very token, as the configured client and within the configured time.
pub proof fn law_what_the_provider_is_asked(
    p: Provider,
    cache: ProviderCache,
    token: &str,
    now: u128,
    step: Step,
)
    requires
        call_ensures(Provider::begin, (&p, &cache, token, now), step),
    ensures
        ({
            let id = digest::hex_spec(digest::key_spec(token@));
            let counts = cache@.contains_key(id) && now < cache@[id].expires_at;
            &&& step is Introspect <==> !counts
            &&& counts && cache@[id].outcome is Active ==> step == Step::Done(
                Ok::<Arc<StrMap<Json>>, AuthOutcome>(cache@[id].outcome->Active_0),
            )
            &&& counts && cache@[id].outcome is Inactive ==> (step matches Step::Done(
                Err(AuthOutcome::Unauthorized(m)),
            ) && m@ == "token rejected by the authorization provider"@)
        }),
        step matches Step::Introspect(q) ==> q.url@ == p.introspection_url@ && q.authorization@
            == p.authorization@ && q.timeout == p.timeout && (q.form matches Some(f) && f@.len()
            == 2 && f@[0].0@ == "token"@ && f@[0].1@ == token@ && f@[1].0@ == "token_type_hint"@
            && f@[1].1@ == "access_token"@),
{
    if let Step::Introspect(q) = step {
        let said = provider::form_view(q.form);
        let wanted = seq![("token"@, token@), ("token_type_hint"@, "access_token"@)];
        assert(said == Some(wanted));
        let f = q.form->Some_0;
        assert(said->Some_0.len() == f@.len());
        assert(said->Some_0[0] == (f@[0].0@, f@[0].1@));
        assert(said->Some_0[1] == (f@[1].0@, f@[1].1@));
    }
}

/// The profile of a good token's holder is asked for with the token itself, at the configured
/// address.
pub proof fn law_how_a_profile_is_asked_for(
    p: ProviderView,
    before: ProviderCache,
    token: Seq<char>,
    reply: ProviderReply,
    at: Moment,
    q: ProviderRequest,
    kept: StrMap<Json>,
    after: ProviderCache,
)
    requires
        provider::after_introspection(
            p,
            before,
            token,
            reply,
            at,
            Step::Userinfo(q, kept),
            after,
        ),
    ensures
        p.userinfo_url == Some(q.url@),
        q.authorization@ == "Bearer "@ + token,
        q.form is None,
        q.timeout == p.timeout,
{
}

/// Remembering an answer for one token gives no other token an answer that it did not have.
pub proof fn law_an_answer_is_for_its_token_alone(
    before: Map<Seq<char>, CacheEntry>,
    max_entries: usize,
    key: Seq<char>,
    entry: CacheEntry,
    now: u128,
    after: Map<Seq<char>, CacheEntry>,
    other: Seq<char>,
)
    requires
        provider::stored(before, max_entries, key, entry, now, after),
        other != key,
        after.contains_key(other),
    ensures
        before.contains_key(other),
        after[other] == before[other],
{
    let live = provider::swept(before, max_entries, now);
    if max_entries > 0 && live.len() >= max_entries {
        let victim = choose|victim: Seq<char>| #[trigger]
            provider::soonest(live, victim) && after == live.remove(victim).insert(key, entry);
        assert(live.contains_key(other));
    }
}

/// An answer counts before the moment at which it ends, and not from then on.
pub proof fn law_when_an_answer_counts(
    cache: ProviderCache,
    key: [u8; 32],
    now: u128,
    r: Option<CachedOutcome>,
)
    requires
        call_ensures(ProviderCache::cached, (&cache, &key, now), r),
    ensures
        ({
            let id = digest::hex_spec(key@);
            &&& r is Some <==> cache@.contains_key(id) && now < cache@[id].expires_at
            &&& r matches Some(outcome) ==> outcome == cache@[id].outcome
        }),
{
}

/// Claims have expired where they carry a whole number that is not above the time; claims
/// without an expiry, or with one that is no number, never have.
pub proof fn law_when_claims_have_expired(claims: StrMap<Json>, unix: i64, r: bool, exp: int)
    requires
        call_ensures(provider::expired_at, (&claims, unix), r),
    ensures
        !json::fields(claims).contains_key("exp"@) ==> !r,
        json::fields(claims).contains_key("exp"@) && json::fields(claims)["exp"@] == JsonView::Int(
            exp,
        ) ==> r == (exp <= unix),
        json::fields(claims).contains_key("exp"@) && !(json::fields(claims)["exp"@] is Int)
            && !(json::fields(claims)["exp"@] is Real) ==> !r,
{
}

/// A second is a thousand million nanoseconds.
pub proof fn law_what_a_second_is(seconds: u64, r: u128)
    requires
        call_ensures(clock::from_secs, (seconds,), r),
    ensures
        r == seconds * 1_000_000_000,
{
}

/// What a cache keeps when an answer is put in: the new answer, where it holds answers at all.
/// A cache that is not full keeps every other answer. A full one drops what no longer counts;
/// where it is still full, one more goes, and none of those left ends before it.
pub proof fn law_what_a_cache_keeps(
    before: Map<Seq<char>, CacheEntry>,
    max_entries: usize,
    key: Seq<char>,
    entry: CacheEntry,
    now: u128,
    after: Map<Seq<char>, CacheEntry>,
    other: Seq<char>,
    rival: Seq<char>,
)
    requires
        provider::stored(before, max_entries, key, entry, now, after),
        other != key,
        before.contains_key(other),
    ensures
        max_entries > 0 ==> after.contains_key(key) && after[key] == entry,
        max_entries == 0 && !before.contains_key(key) ==> !after.contains_key(key),
        before.len() < max_entries ==> after.contains_key(other) && after[other] == before[other],
        before.len() >= max_entries && before[other].expires_at <= now ==> !after.contains_key(
            other,
        ),
        max_entries > 0 && before[other].expires_at > now && !after.contains_key(other)
            && before.contains_key(rival) && before[rival].expires_at > now
            ==> before[other].expires_at <= before[rival].expires_at,
        max_entries > 0 && rival != key && rival != other && before.contains_key(rival)
            && before[other].expires_at > now && before[rival].expires_at > now
            ==> after.contains_key(other) || after.contains_key(rival),
{
    let live = provider::swept(before, max_entries, now);
    if max_entries > 0 && live.len() >= max_entries {
        let victim = choose|victim: Seq<char>| #[trigger]
            provider::soonest(live, victim) && after == live.remove(victim).insert(key, entry);
        if before.contains_key(rival) && before[rival].expires_at > now {
            assert(live.contains_key(rival));
        }
        assert(before[other].expires_at > now ==> live.contains_key(other));
    }
}

/// A provider's cache holds nothing at first, and as many answers as it is configured for.
pub proof fn law_a_new_cache(p: Provider, r: ProviderCache)
    requires
        call_ensures(Provider::new_cache, (&p,), r),
    ensures
        r@.dom().is_empty(),
        r.max_entries == p.cache_max_entries,
{
}

/// What the provider said of a good token whose expiry is not a whole number counts no longer
/// than up to the whole second below it.
pub proof fn law_no_answer_outlives_a_fraction(
    p: ProviderView,
    before: ProviderCache,
    token: Seq<char>,
    introspection: Map<Seq<char>, JsonView>,
    profile: Map<Seq<char>, JsonView>,
    at: Moment,
    first: Step,
    after: ProviderCache,
    exp: &str,
    below: i64,
    later: u128,
    second: Step,
)
    requires
        at.nanos < clock::LATEST,
        provider::settles(p, before, token, introspection, profile, at, first, after),
        before.max_entries > 0,
        introspection.contains_key("exp"@),
        introspection["exp"@] == JsonView::Real(exp@),
        call_ensures(decimal::floor, (exp,), below),
        provider::begins(p, after, token, later, second),
    ensures
        later >= at.nanos && later >= at.nanos + (below - at.unix) * 1_000_000_000
            ==> second is Introspect,
        later < at.nanos + (below - at.unix) * 1_000_000_000 && later < at.nanos + p.cache_max
            * 1_000_000_000 ==> second == first,
{
    provider::law_claims_are_remembered(
        p,
        before,
        token,
        introspection,
        profile,
        at,
        first,
        after,
        later,
        second,
    );
}

} // verus!
