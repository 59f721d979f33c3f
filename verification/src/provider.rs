//! The authorization provider: what it is asked, what its answers mean, and how long
//! they are remembered.
//!
//! Introspection decides whether a token is live, and UserInfo fills in the profile.
//! Answers are kept until the token's own expiry, at most for a configured time. Where
//! the provider cannot be reached the request is refused rather than guessed at.

use crate::auth::AuthOutcome;
use crate::clock;
use crate::clock::Moment;
use crate::digest;
use crate::json;
use crate::json::{Json, JsonView};
use crate::strmap;
use crate::strmap::StrMap;
use crate::text;
use std::sync::Arc;
use vstd::prelude::*;
use vstd::string::*;

verus! {

/// What the provider said of a token.
pub enum CachedOutcome {
    Active(Arc<StrMap<Json>>),
    Inactive,
}

/// An answer, and the moment from which it no longer counts.
pub struct CacheEntry {
    pub outcome: CachedOutcome,
    pub expires_at: u128,
}

/// The answers that are remembered, under the ids of the tokens.
pub struct ProviderCache {
    pub max_entries: usize,
    pub entries: StrMap<CacheEntry>,
}

impl View for ProviderCache {
    type V = Map<Seq<char>, CacheEntry>;

    open spec fn view(&self) -> Map<Seq<char>, CacheEntry> {
        self.entries@
    }
}

/// The answers that still count at a moment.
pub open spec fn still_live(m: Map<Seq<char>, CacheEntry>, now: u128) -> Map<
    Seq<char>,
    CacheEntry,
> {
    Map::new(
        |k: Seq<char>| m.contains_key(k) && m[k].expires_at > now,
        |k: Seq<char>| m[k],
    )
}

/// The answer under `k`, where there is one that still counts at a moment.
pub open spec fn recalled(m: Map<Seq<char>, CacheEntry>, k: Seq<char>, now: u128) -> Option<
    CachedOutcome,
> {
    if m.contains_key(k) && m[k].expires_at > now {
        Some(m[k].outcome)
    } else {
        None
    }
}

/// Whether no answer expires before the one under `k`.
pub open spec fn soonest(m: Map<Seq<char>, CacheEntry>, k: Seq<char>) -> bool {
    m.contains_key(k) && forall|j: Seq<char>| #[trigger]
        m.contains_key(j) ==> m[k].expires_at <= m[j].expires_at
}

/// What a cache keeps at a moment when something is to be put in: where it is full,
/// only what still counts.
pub open spec fn swept(before: Map<Seq<char>, CacheEntry>, max_entries: usize, now: u128) -> Map<
    Seq<char>,
    CacheEntry,
> {
    if before.len() >= max_entries {
        still_live(before, now)
    } else {
        before
    }
}

/// Whether `after` is `live` with an answer that expires soonest taken out and `entry`
/// put under `key`.
pub open spec fn displaced(
    live: Map<Seq<char>, CacheEntry>,
    key: Seq<char>,
    entry: CacheEntry,
    after: Map<Seq<char>, CacheEntry>,
) -> bool {
    exists|victim: Seq<char>| #[trigger]
        soonest(live, victim) && after == live.remove(victim).insert(key, entry)
}

/// What is remembered after `entry` is put under `key` at a moment: a full cache first
/// drops what no longer counts, and where it is still full, an answer that expires
/// soonest. A cache for no answers remembers none.
pub open spec fn stored(
    before: Map<Seq<char>, CacheEntry>,
    max_entries: usize,
    key: Seq<char>,
    entry: CacheEntry,
    now: u128,
    after: Map<Seq<char>, CacheEntry>,
) -> bool {
    let live = swept(before, max_entries, now);
    if max_entries == 0 {
        after == live
    } else if live.len() >= max_entries {
        displaced(live, key, entry, after)
    } else {
        after == live.insert(key, entry)
    }
}

impl CachedOutcome {
    /// Another handle on the same answer.
    pub fn share(&self) -> (r: CachedOutcome)
        ensures
            r == *self,
    {
        match self {
            CachedOutcome::Active(claims) => CachedOutcome::Active(claims.clone()),
            CachedOutcome::Inactive => CachedOutcome::Inactive,
        }
    }
}

impl ProviderCache {
    /// A cache for at most `max_entries` answers.
    pub fn new(max_entries: usize) -> (r: ProviderCache)
        ensures
            r@ == Map::<Seq<char>, CacheEntry>::empty(),
            r.max_entries == max_entries,
    {
        ProviderCache { max_entries, entries: StrMap::new() }
    }

    /// The answer for a key, until it expires.
    pub fn cached(&self, key: &[u8; 32], now: u128) -> (r: Option<CachedOutcome>)
        ensures
            r == recalled(self@, digest::hex_spec(key@), now),
    {
        let id = digest::hex(key);
        match self.entries.get(id.as_str()) {
            Some(entry) => {
                if entry.expires_at > now {
                    Some(entry.outcome.share())
                } else {
                    None
                }
            },
            None => None,
        }
    }

    /// Drops the answers that no longer count.
    fn retain(&mut self, now: u128)
        ensures
            final(self)@ == still_live(old(self)@, now),
            final(self).max_entries == old(self).max_entries,
    {
        let n = self.entries.len();
        let ghost e = self.entries.entries();
        let mut out: StrMap<CacheEntry> = StrMap::new();
        let mut i: usize = 0;
        proof {
            strmap::lemma_ascending_distinct(strmap::keys_of(e));
            assert(e.take(0) =~= Seq::empty());
            assert(out@ =~= still_live(strmap::map_of(e.take(0)), now));
        }
        while i < n
            invariant
                i <= n,
                n == e.len(),
                e == self.entries.entries(),
                self.max_entries == old(self).max_entries,
                self@ == old(self)@,
                strmap::keys_of(e).no_duplicates(),
                out@ == still_live(strmap::map_of(e.take(i as int)), now),
            decreases n - i,
        {
            let (key, entry) = self.entries.at(i);
            let ghost front = strmap::map_of(e.take(i as int));
            proof {
                assert(e.take(i + 1).drop_last() =~= e.take(i as int));
                assert(e.take(i + 1).last() == e[i as int]);
                assert(strmap::keys_of(e.take(i as int)) =~= strmap::keys_of(e).take(i as int));
                strmap::lemma_map_of(e.take(i as int));
                assert(!front.contains_key(e[i as int].0@)) by {
                    if strmap::keys_of(e.take(i as int)).contains(e[i as int].0@) {
                        let j = choose|j: int|
                            0 <= j < i && strmap::keys_of(e.take(i as int))[j] == e[i as int].0@;
                        assert(strmap::keys_of(e)[j] == strmap::keys_of(e)[i as int]);
                    }
                }
            }
            if entry.expires_at > now {
                out.insert(
                    key.to_owned(),
                    CacheEntry { outcome: entry.outcome.share(), expires_at: entry.expires_at },
                );
            }
            proof {
                assert(out@ =~= still_live(strmap::map_of(e.take(i + 1)), now));
            }
            i = i + 1;
        }
        proof {
            assert(e.take(i as int) =~= e);
            strmap::lemma_entries(self.entries);
        }
        self.entries = out;
    }

    /// The key of an answer that expires soonest.
    fn first_to_expire(&self) -> (r: Option<String>)
        ensures
            match r {
                Some(key) => soonest(self@, key@),
                None => self@.len() == 0,
            },
    {
        let n = self.entries.len();
        let ghost e = self.entries.entries();
        if n == 0 {
            return None;
        }
        proof {
            strmap::lemma_entries(self.entries);
            strmap::lemma_ascending_distinct(strmap::keys_of(e));
            strmap::lemma_map_of(e);
        }
        let mut best: usize = 0;
        let mut best_at: u128 = self.entries.at(0).1.expires_at;
        let mut i: usize = 1;
        while i < n
            invariant
                best < i <= n,
                n == e.len(),
                e == self.entries.entries(),
                best_at == e[best as int].1.expires_at,
                forall|k: int| 0 <= k < i ==> best_at <= (#[trigger] e[k]).1.expires_at,
            decreases n - i,
        {
            let at = self.entries.at(i).1.expires_at;
            if at < best_at {
                best = i;
                best_at = at;
            }
            i = i + 1;
        }
        let (key, _) = self.entries.at(best);
        proof {
            assert forall|j: Seq<char>| #[trigger] self@.contains_key(j) implies self@[key@].expires_at
                <= self@[j].expires_at by {
                let k = choose|k: int| 0 <= k < e.len() && strmap::keys_of(e)[k] == j;
                assert(e[k].0@ == j);
            }
        }
        Some(key.to_owned())
    }

    /// Remembers an answer for `ttl` nanoseconds.
    pub fn store(&mut self, key: &[u8; 32], outcome: CachedOutcome, ttl: u128, now: u128)
        requires
            ttl < clock::LATEST,
            now < clock::LATEST,
        ensures
            stored(
                old(self)@,
                old(self).max_entries,
                digest::hex_spec(key@),
                (CacheEntry { outcome, expires_at: (now + ttl) as u128 }),
                now,
                final(self)@,
            ),
            final(self).max_entries == old(self).max_entries,
            old(self).max_entries > 0 ==> final(self)@.contains_key(digest::hex_spec(key@))
                && final(self)@[digest::hex_spec(key@)].outcome == outcome && final(self)@[digest::hex_spec(key@)].expires_at == now + ttl,
    {
        if self.entries.len() >= self.max_entries {
            self.retain(now);
        }
        let ghost live = self@;
        proof {
            assert(live == swept(old(self)@, old(self).max_entries, now));
        }
        if self.max_entries == 0 {
            return;
        }
        if self.entries.len() >= self.max_entries {
            if let Some(victim) = self.first_to_expire() {
                let _ = self.entries.remove(victim.as_str());
                proof {
                    assert(soonest(live, victim@));
                }
            }
        }
        self.entries.insert(
            digest::hex(key),
            CacheEntry { outcome, expires_at: now + ttl },
        );
    }
}

/// An answer is given back until it expires, and not after, whatever was remembered
/// before, by any cache that holds answers at all.
pub proof fn law_an_answer_is_kept_until_it_expires(
    before: Map<Seq<char>, CacheEntry>,
    max_entries: usize,
    key: Seq<char>,
    entry: CacheEntry,
    now: u128,
    after: Map<Seq<char>, CacheEntry>,
    later: u128,
)
    requires
        max_entries > 0,
        stored(before, max_entries, key, entry, now, after),
    ensures
        recalled(after, key, later) == (if later < entry.expires_at {
            Some(entry.outcome)
        } else {
            None
        }),
{
}

/// The cache does not grow past its bound.
pub proof fn law_the_cache_keeps_its_bound(
    before: Map<Seq<char>, CacheEntry>,
    max_entries: usize,
    key: Seq<char>,
    entry: CacheEntry,
    now: u128,
    after: Map<Seq<char>, CacheEntry>,
)
    requires
        stored(before, max_entries, key, entry, now, after),
        before.dom().finite(),
        before.len() <= max_entries,
    ensures
        after.dom().finite(),
        after.len() <= max_entries,
{
    let live = swept(before, max_entries, now);
    assert(live.dom().subset_of(before.dom()));
    vstd::set_lib::lemma_len_subset(live.dom(), before.dom());
    if max_entries == 0 {
    } else if live.len() >= max_entries {
        let victim = choose|victim: Seq<char>| #[trigger]
            soonest(live, victim) && after == live.remove(victim).insert(key, entry);
        let rest = live.remove(victim);
        assert(rest.dom() =~= live.dom().remove(victim));
        assert(after.dom() =~= rest.dom().insert(key));
    } else {
        assert(after.dom() =~= live.dom().insert(key));
    }
}

/// Of the other answers that still count, a cache forgets at most one, only where it is
/// full of them, and one that expires soonest.
pub proof fn law_a_full_cache_forgets_one(
    before: Map<Seq<char>, CacheEntry>,
    max_entries: usize,
    key: Seq<char>,
    entry: CacheEntry,
    now: u128,
    after: Map<Seq<char>, CacheEntry>,
    a: Seq<char>,
    b: Seq<char>,
)
    requires
        stored(before, max_entries, key, entry, now, after),
        a != key && recalled(before, a, now) is Some && recalled(after, a, now) is None,
        b != key && recalled(before, b, now) is Some && recalled(after, b, now) is None,
    ensures
        a == b,
        still_live(before, now).len() >= max_entries,
        soonest(still_live(before, now), a),
{
    let live = swept(before, max_entries, now);
    if max_entries > 0 && live.len() >= max_entries {
        let victim = choose|victim: Seq<char>| #[trigger]
            soonest(live, victim) && after == live.remove(victim).insert(key, entry);
        assert(a == victim && b == victim);
    }
}

/// What the provider is asked.
pub struct ProviderRequest {
    pub url: String,
    pub authorization: String,
    /// The form of a post, or nothing where the request is a get.
    pub form: Option<Vec<(String, String)>>,
    /// How long the provider may take, in seconds.
    pub timeout: u64,
}

/// How the provider answered.
pub enum ProviderReply {
    /// The request could not be sent, or nothing came back.
    Unreachable,
    /// The answer's status was no success.
    Refused,
    /// The answer's body was no JSON object.
    Garbled,
    Claims(StrMap<Json>),
}

/// What comes next for a token.
pub enum Step {
    /// The claims the provider vouches for, or the outcome to send back.
    Done(Result<Arc<StrMap<Json>>, AuthOutcome>),
    /// The provider is to be asked about the token.
    Introspect(ProviderRequest),
    /// The provider is to be asked for the profile; what it said of the token is kept
    /// for then.
    Userinfo(ProviderRequest, StrMap<Json>),
}

/// An authorization provider and the gateway's standing with it. What the provider
/// said is remembered apart, in a cache.
pub struct Provider {
    pub introspection_url: String,
    pub userinfo_url: Option<String>,
    pub authorization: String,
    /// How long the provider may take, in seconds.
    pub timeout: u64,
    /// How long an answer is kept at most, in seconds.
    pub cache_max: u64,
    /// How long a refusal is kept, in seconds.
    pub cache_negative: u64,
    /// How many answers are kept at most.
    pub cache_max_entries: usize,
}

/// What a provider is made of.
pub struct ProviderView {
    pub introspection_url: Seq<char>,
    pub userinfo_url: Option<Seq<char>>,
    pub authorization: Seq<char>,
    pub timeout: u64,
    pub cache_max: u64,
    pub cache_negative: u64,
    pub cache_max_entries: usize,
}

impl View for Provider {
    type V = ProviderView;

    open spec fn view(&self) -> ProviderView {
        ProviderView {
            introspection_url: self.introspection_url@,
            userinfo_url: text::opt_of(self.userinfo_url),
            authorization: self.authorization@,
            timeout: self.timeout,
            cache_max: self.cache_max,
            cache_negative: self.cache_negative,
            cache_max_entries: self.cache_max_entries,
        }
    }
}

/// The message for every token the provider does not vouch for: whether it was never
/// valid, has expired or was revoked is not the caller's to know.
pub open spec fn rejection() -> Seq<char> {
    "token rejected by the authorization provider"@
}

/// Whether an outcome is the refusal of a token.
pub open spec fn is_rejection(r: AuthOutcome) -> bool {
    r matches AuthOutcome::Unauthorized(m) && m@ == rejection()
}

/// The refusal of a token.
pub fn rejected() -> (r: AuthOutcome)
    ensures
        is_rejection(r),
{
    AuthOutcome::Unauthorized("token rejected by the authorization provider".to_owned())
}

/// Whether claims carry an expiry that is past: a number, whole or not, that is not above
/// the time.
pub open spec fn expired_spec(claims: Map<Seq<char>, JsonView>, unix: i64) -> bool {
    claims.contains_key("exp"@) && json::at_most(claims["exp"@], unix)
}

/// Tests whether claims carry an expiry that is past at a moment.
pub fn expired_at(claims: &StrMap<Json>, unix: i64) -> (r: bool)
    ensures
        r == expired_spec(json::fields(*claims), unix),
{
    match json::get_field(claims, "exp") {
        Some(exp) => exp.is_at_most(unix),
        None => false,
    }
}

/// Tests whether claims carry an expiry that is past.
pub fn expired(claims: &StrMap<Json>) -> (r: bool)
    ensures
        exists|unix: i64|
            clock::calendar_shows(unix) && r == #[trigger] expired_spec(
                json::fields(*claims),
                unix,
            ),
{
    expired_at(claims, clock::unix_now())
}

/// Whether what the provider said of a token makes it good.
pub open spec fn good(introspection: Map<Seq<char>, JsonView>, unix: i64) -> bool {
    &&& introspection.contains_key("active"@)
    &&& json::as_bool_spec(introspection["active"@]) == Some(true)
    &&& !expired_spec(introspection, unix)
}

/// The last whole second that is not past the expiry that claims carry, where it is a
/// number, or the nearest to it that fits.
pub open spec fn last_second(claims: Map<Seq<char>, JsonView>) -> Option<i64> {
    if claims.contains_key("exp"@) {
        json::floor_spec(claims["exp"@])
    } else {
        None
    }
}

/// How long what the provider said is kept, in nanoseconds: until the token expires,
/// at most the configured time.
pub open spec fn ttl_spec(
    introspection: Map<Seq<char>, JsonView>,
    cache_max: u64,
    unix: i64,
) -> int {
    let most = cache_max * clock::SECOND;
    match last_second(introspection) {
        Some(last) => {
            let own = if last > unix {
                (last - unix) * clock::SECOND
            } else {
                0
            };
            if most <= own {
                most
            } else {
                own
            }
        },
        None => most,
    }
}

/// Whether a step ends with the provider at fault.
pub open spec fn is_unavailable(step: Step, message: Seq<char>) -> bool {
    step matches Step::Done(Err(AuthOutcome::Unavailable(m))) && m@ == message
}

/// The message for an answer without claims.
pub open spec fn fault(reply: ProviderReply) -> Seq<char> {
    match reply {
        ProviderReply::Unreachable => "authorization provider is unreachable"@,
        ProviderReply::Refused => "authorization provider returned an error"@,
        _ => "authorization provider returned an invalid response"@,
    }
}

/// The outcome of an answer without claims.
fn unavailable(reply: &ProviderReply) -> (r: AuthOutcome)
    ensures
        r matches AuthOutcome::Unavailable(m) && m@ == fault(*reply),
{
    AuthOutcome::Unavailable(
        match reply {
            ProviderReply::Unreachable => "authorization provider is unreachable".to_owned(),
            ProviderReply::Refused => "authorization provider returned an error".to_owned(),
            _ => "authorization provider returned an invalid response".to_owned(),
        },
    )
}

/// The names and values of the fields of a form.
pub open spec fn form_view(form: Option<Vec<(String, String)>>) -> Option<
    Seq<(Seq<char>, Seq<char>)>,
> {
    match form {
        Some(f) => Some(f@.map_values(|p: (String, String)| (p.0@, p.1@))),
        None => None,
    }
}

/// Whether a request asks about a token.
pub open spec fn asks_about(p: ProviderView, r: ProviderRequest, token: Seq<char>) -> bool {
    &&& r.url@ == p.introspection_url
    &&& r.authorization@ == p.authorization
    &&& form_view(r.form) == Some(
        seq![("token"@, token), ("token_type_hint"@, "access_token"@)],
    )
    &&& r.timeout == p.timeout
}

/// Whether a request asks for the profile of the holder of a token.
pub open spec fn asks_profile(
    p: ProviderView,
    r: ProviderRequest,
    url: Seq<char>,
    token: Seq<char>,
) -> bool {
    &&& r.url@ == url
    &&& r.authorization@ == "Bearer "@ + token
    &&& r.form is None
    &&& r.timeout == p.timeout
}

/// What a token's profile and what the provider said of it make together: what the
/// provider said counts where both speak.
pub open spec fn laid_over(
    introspection: Map<Seq<char>, JsonView>,
    profile: Map<Seq<char>, JsonView>,
) -> Map<Seq<char>, JsonView> {
    profile.union_prefer_right(introspection)
}

/// Lays one set of claims over another.
pub fn lay_over(introspection: &StrMap<Json>, profile: StrMap<Json>) -> (r: StrMap<Json>)
    ensures
        json::fields(r) == laid_over(json::fields(*introspection), json::fields(profile)),
{
    let n = introspection.len();
    let ghost e = introspection.entries();
    let ghost base = json::fields(profile);
    let mut out = profile;
    let mut i: usize = 0;
    proof {
        assert(e.take(0) =~= Seq::empty());
        assert(base.union_prefer_right(json::fields_view(e.take(0))) =~= base);
    }
    while i < n
        invariant
            i <= n,
            n == e.len(),
            e == introspection.entries(),
            json::fields(out) == base.union_prefer_right(json::fields_view(e.take(i as int))),
        decreases n - i,
    {
        let (key, value) = introspection.at(i);
        let copied = value.copy();
        json::put_field(&mut out, key.to_owned(), copied);
        proof {
            assert(e.take(i + 1).drop_last() =~= e.take(i as int));
            assert(e.take(i + 1).last() == e[i as int]);
            assert(json::fields(out) =~= base.union_prefer_right(
                json::fields_view(e.take(i + 1)),
            ));
        }
        i = i + 1;
    }
    proof {
        assert(e.take(i as int) =~= e);
    }
    out
}

/// What is remembered after the provider vouched for a token at a moment.
pub open spec fn remembered(
    p: ProviderView,
    before: ProviderCache,
    token: Seq<char>,
    claims: Arc<StrMap<Json>>,
    introspection: Map<Seq<char>, JsonView>,
    at: Moment,
    after: ProviderCache,
) -> bool {
    stored(
        before@,
        before.max_entries,
        digest::hex_spec(digest::key_spec(token)),
        CacheEntry {
            outcome: CachedOutcome::Active(claims),
            expires_at: (at.nanos + ttl_spec(introspection, p.cache_max, at.unix)) as u128,
        },
        at.nanos,
        after@,
    )
}

/// Whether a step is right once the profile of a good token's holder is known, and
/// what is remembered.
pub open spec fn settles(
    p: ProviderView,
    before: ProviderCache,
    token: Seq<char>,
    introspection: Map<Seq<char>, JsonView>,
    profile: Map<Seq<char>, JsonView>,
    at: Moment,
    step: Step,
    after: ProviderCache,
) -> bool {
    step matches Step::Done(Ok(claims)) && json::fields(*claims) == laid_over(
        introspection,
        profile,
    ) && remembered(p, before, token, claims, introspection, at, after)
}

/// Whether a step is right for an answer to what was asked about a token, and what is
/// remembered.
pub open spec fn after_introspection(
    p: ProviderView,
    before: ProviderCache,
    token: Seq<char>,
    reply: ProviderReply,
    at: Moment,
    step: Step,
    after: ProviderCache,
) -> bool {
    match reply {
        ProviderReply::Claims(introspection) => {
            let said = json::fields(introspection);
            if !good(said, at.unix) {
                &&& step matches Step::Done(Err(o)) && is_rejection(o)
                &&& stored(
                    before@,
                    before.max_entries,
                    digest::hex_spec(digest::key_spec(token)),
                    CacheEntry {
                        outcome: CachedOutcome::Inactive,
                        expires_at: (at.nanos + p.cache_negative * clock::SECOND) as u128,
                    },
                    at.nanos,
                    after@,
                )
            } else {
                match p.userinfo_url {
                    Some(url) => {
                        &&& step matches Step::Userinfo(request, kept) && asks_profile(
                            p,
                            request,
                            url,
                            token,
                        ) && json::fields(kept) == said
                        &&& after == before
                    },
                    None => settles(p, before, token, said, Map::empty(), at, step, after),
                }
            }
        },
        _ => is_unavailable(step, fault(reply)) && after == before,
    }
}

/// Whether a step is right for an answer to the request for a profile, and what is
/// remembered.
pub open spec fn after_userinfo(
    p: ProviderView,
    before: ProviderCache,
    token: Seq<char>,
    introspection: Map<Seq<char>, JsonView>,
    reply: ProviderReply,
    at: Moment,
    step: Step,
    after: ProviderCache,
) -> bool {
    match reply {
        ProviderReply::Claims(profile) => settles(
            p,
            before,
            token,
            introspection,
            json::fields(profile),
            at,
            step,
            after,
        ),
        _ => is_unavailable(step, fault(reply)) && after == before,
    }
}

/// Whether a step is right for a token as it is presented: what is remembered of it
/// counts, and otherwise the provider is asked.
pub open spec fn begins(
    p: ProviderView,
    cache: ProviderCache,
    token: Seq<char>,
    now: u128,
    step: Step,
) -> bool {
    match recalled(cache@, digest::hex_spec(digest::key_spec(token)), now) {
        Some(CachedOutcome::Active(claims)) => step == Step::Done(
            Ok::<Arc<StrMap<Json>>, AuthOutcome>(claims),
        ),
        Some(CachedOutcome::Inactive) => step matches Step::Done(Err(o)) && is_rejection(o),
        None => step matches Step::Introspect(request) && asks_about(p, request, token),
    }
}

/// A token the provider refused is refused without asking again for as long as
/// refusals are kept, and the provider is asked again after that, where the cache holds
/// answers at all.
pub proof fn law_a_refusal_is_remembered(
    p: ProviderView,
    before: ProviderCache,
    token: Seq<char>,
    introspection: StrMap<Json>,
    at: Moment,
    first: Step,
    after: ProviderCache,
    later: u128,
    second: Step,
)
    requires
        at.nanos < clock::LATEST,
        before.max_entries > 0,
        !good(json::fields(introspection), at.unix),
        after_introspection(
            p,
            before,
            token,
            ProviderReply::Claims(introspection),
            at,
            first,
            after,
        ),
        begins(p, after, token, later, second),
    ensures
        second is Done <==> later < at.nanos + p.cache_negative * clock::SECOND,
        second matches Step::Done(r) ==> (r matches Err(o) && is_rejection(o)),
{
}

/// The claims of a token the provider vouched for are given again without asking until
/// the token expires or the configured time is over, whichever is first, and the
/// provider is asked again after that, where the cache holds answers at all.
pub proof fn law_claims_are_remembered(
    p: ProviderView,
    before: ProviderCache,
    token: Seq<char>,
    introspection: Map<Seq<char>, JsonView>,
    profile: Map<Seq<char>, JsonView>,
    at: Moment,
    first: Step,
    after: ProviderCache,
    later: u128,
    second: Step,
)
    requires
        at.nanos < clock::LATEST,
        before.max_entries > 0,
        settles(p, before, token, introspection, profile, at, first, after),
        begins(p, after, token, later, second),
    ensures
        second is Done <==> later < at.nanos + ttl_spec(introspection, p.cache_max, at.unix),
        second is Done ==> second == first,
{
}

/// Whether a token was looked up so: nothing was remembered of it, the provider was asked
/// about it and, where it names an address for profiles, for the profile of its holder.
pub open spec fn looked_up(
    p: ProviderView,
    before: ProviderCache,
    token: Seq<char>,
    begun: u128,
    asked: Step,
    introspection: ProviderReply,
    at: Moment,
    told: Step,
    between: ProviderCache,
    profile: ProviderReply,
    profiled: Moment,
    last: Step,
    after: ProviderCache,
) -> bool {
    &&& begins(p, before, token, begun, asked)
    &&& asked is Introspect
    &&& after_introspection(p, before, token, introspection, at, told, between)
    &&& match told {
        Step::Userinfo(_, kept) => after_userinfo(
            p,
            between,
            token,
            json::fields(kept),
            profile,
            profiled,
            last,
            after,
        ),
        _ => last == told && after == between,
    }
}

/// A token that was looked up with the provider and found good is not looked up again
/// until it expires or the configured time is over, whichever is first: the same claims
/// are given, and nothing is sent. After that the provider is asked again.
pub proof fn law_a_good_token_is_looked_up_once(
    p: ProviderView,
    before: ProviderCache,
    token: Seq<char>,
    begun: u128,
    asked: Step,
    introspection: StrMap<Json>,
    at: Moment,
    told: Step,
    between: ProviderCache,
    profile: ProviderReply,
    profiled: Moment,
    last: Step,
    after: ProviderCache,
    later: u128,
    again: Step,
)
    requires
        at.nanos < clock::LATEST,
        profiled.nanos < clock::LATEST,
        before.max_entries > 0,
        looked_up(
            p,
            before,
            token,
            begun,
            asked,
            ProviderReply::Claims(introspection),
            at,
            told,
            between,
            profile,
            profiled,
            last,
            after,
        ),
        last matches Step::Done(Ok(_)),
        begins(p, after, token, later, again),
    ensures
        ({
            let settled = if p.userinfo_url is Some {
                profiled
            } else {
                at
            };
            let ends = settled.nanos + ttl_spec(
                json::fields(introspection),
                p.cache_max,
                settled.unix,
            );
            &&& later < ends ==> again == last
            &&& later >= ends ==> again is Introspect
        }),
{
}

impl Provider {
    /// The request that asks about a token.
    fn introspection_request(&self, token: &str) -> (r: ProviderRequest)
        ensures
            asks_about(self@, r, token@),
    {
        let mut form: Vec<(String, String)> = Vec::new();
        form.push(("token".to_owned(), token.to_owned()));
        form.push(("token_type_hint".to_owned(), "access_token".to_owned()));
        proof {
            assert(form@.map_values(|p: (String, String)| (p.0@, p.1@)) =~= seq![
                ("token"@, token@),
                ("token_type_hint"@, "access_token"@),
            ]);
        }
        ProviderRequest {
            url: self.introspection_url.clone(),
            authorization: self.authorization.clone(),
            form: Some(form),
            timeout: self.timeout,
        }
    }

    /// The request for the profile of the holder of a token.
    fn userinfo_request(&self, url: &str, token: &str) -> (r: ProviderRequest)
        ensures
            asks_profile(self@, r, url@, token@),
    {
        ProviderRequest {
            url: url.to_owned(),
            authorization: text::cat2("Bearer ", token),
            form: None,
            timeout: self.timeout,
        }
    }

    /// A cache for what this provider says.
    pub fn new_cache(&self) -> (r: ProviderCache)
        ensures
            r@ == Map::<Seq<char>, CacheEntry>::empty(),
            r.max_entries == self@.cache_max_entries,
    {
        ProviderCache::new(self.cache_max_entries)
    }

    /// The first step for a token.
    pub fn begin(&self, cache: &ProviderCache, token: &str, now: u128) -> (r: Step)
        ensures
            begins(self@, *cache, token@, now, r),
    {
        let key = digest::key_for(token);
        match cache.cached(&key, now) {
            Some(CachedOutcome::Active(claims)) => Step::Done(Ok(claims)),
            Some(CachedOutcome::Inactive) => Step::Done(Err(rejected())),
            None => Step::Introspect(self.introspection_request(token)),
        }
    }

    /// The last step for a token the provider vouches for.
    fn settle(
        &self,
        cache: &mut ProviderCache,
        token: &str,
        introspection: StrMap<Json>,
        profile: StrMap<Json>,
        at: Moment,
    ) -> (r: Step)
        requires
            at.nanos < clock::LATEST,
        ensures
            settles(
                self@,
                *old(cache),
                token@,
                json::fields(introspection),
                json::fields(profile),
                at,
                r,
                *final(cache),
            ),
            final(cache).max_entries == old(cache).max_entries,
    {
        let most = clock::from_secs(self.cache_max);
        let last = match json::get_field(&introspection, "exp") {
            Some(exp) => exp.floor(),
            None => None,
        };
        let ttl: u128 = match last {
            Some(last) => {
                let own: u128 = if last > at.unix {
                    (last as i128 - at.unix as i128) as u128 * clock::SECOND
                } else {
                    0
                };
                if most <= own {
                    most
                } else {
                    own
                }
            },
            None => most,
        };
        let claims = Arc::new(lay_over(&introspection, profile));
        let key = digest::key_for(token);
        cache.store(&key, CachedOutcome::Active(claims.clone()), ttl, at.nanos);
        Step::Done(Ok(claims))
    }

    /// The step after the provider was asked about a token.
    pub fn on_introspection(
        &self,
        cache: &mut ProviderCache,
        token: &str,
        reply: ProviderReply,
        at: Moment,
    ) -> (r: Step)
        requires
            at.nanos < clock::LATEST,
        ensures
            after_introspection(self@, *old(cache), token@, reply, at, r, *final(cache)),
            final(cache).max_entries == old(cache).max_entries,
    {
        let introspection = match reply {
            ProviderReply::Claims(introspection) => introspection,
            other => {
                return Step::Done(Err(unavailable(&other)));
            },
        };
        let active = match json::get_field(&introspection, "active") {
            Some(value) => match value.as_bool() {
                Some(b) => b,
                None => false,
            },
            None => false,
        };
        if !active || expired_at(&introspection, at.unix) {
            let key = digest::key_for(token);
            cache.store(
                &key,
                CachedOutcome::Inactive,
                clock::from_secs(self.cache_negative),
                at.nanos,
            );
            return Step::Done(Err(rejected()));
        }
        match &self.userinfo_url {
            Some(url) => Step::Userinfo(self.userinfo_request(url.as_str(), token), introspection),
            None => {
                let profile = json::empty_object();
                self.settle(cache, token, introspection, profile, at)
            },
        }
    }

    /// The step after the provider was asked for a profile.
    pub fn on_userinfo(
        &self,
        cache: &mut ProviderCache,
        token: &str,
        introspection: StrMap<Json>,
        reply: ProviderReply,
        at: Moment,
    ) -> (r: Step)
        requires
            at.nanos < clock::LATEST,
        ensures
            after_userinfo(
                self@,
                *old(cache),
                token@,
                json::fields(introspection),
                reply,
                at,
                r,
                *final(cache),
            ),
            final(cache).max_entries == old(cache).max_entries,
    {
        match reply {
            ProviderReply::Claims(profile) => self.settle(cache, token, introspection, profile, at),
            other => Step::Done(Err(unavailable(&other))),
        }
    }
}

} // verus!
