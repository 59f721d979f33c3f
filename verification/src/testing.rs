//! Claim sets that stand in for a live authorization provider.
//!
//! A token with an override skips introspection and UserInfo: the stored claims are
//! the verified identity. Whoever can reach the endpoints over these functions can
//! make any identity, so they stay unmounted unless a config says otherwise.

use crate::digest;
use crate::json;
use crate::json::{Json, JsonView};
use crate::strmap;
use crate::strmap::StrMap;
use crate::text;
use std::sync::Arc;
use vstd::prelude::*;
use vstd::string::*;

verus! {

/// The claims registered for tokens, under the ids of the tokens: a bearer token never
/// sits in the map, and an id can be shared without the credential it stands for.
pub struct ClaimOverrides {
    pub entries: StrMap<Arc<StrMap<Json>>>,
}

/// What is registered under each id.
impl View for ClaimOverrides {
    type V = Map<Seq<char>, Map<Seq<char>, JsonView>>;

    open spec fn view(&self) -> Map<Seq<char>, Map<Seq<char>, JsonView>> {
        self.entries@.map_values(|claims: Arc<StrMap<Json>>| json::fields(*claims))
    }
}

/// The id of a token.
pub open spec fn id_of(token: Seq<char>) -> Seq<char> {
    digest::hex_spec(digest::key_spec(token))
}

/// The claims with a patch applied: what the patch holds replaces what is there, and
/// a null takes the claim out.
pub open spec fn patched(
    claims: Map<Seq<char>, JsonView>,
    patch: Map<Seq<char>, JsonView>,
) -> Map<Seq<char>, JsonView> {
    Map::new(
        |k: Seq<char>|
            if patch.contains_key(k) {
                patch[k] != JsonView::Null
            } else {
                claims.contains_key(k)
            },
        |k: Seq<char>|
            if patch.contains_key(k) {
                patch[k]
            } else {
                claims[k]
            },
    )
}

/// One override: its id, never its token.
pub struct OverrideView {
    pub id: String,
    pub claims: StrMap<Json>,
}

/// The ids of some overrides.
pub open spec fn ids_of(v: Seq<OverrideView>) -> Seq<Seq<char>> {
    v.map_values(|x: OverrideView| x.id@)
}

/// The id a caller addresses: whatever writes the same digest.
pub open spec fn addressed(id: Seq<char>) -> Seq<char> {
    digest::hex_spec(digest::id_bytes(id))
}

/// Whether every token of another id than one token's gets the claims it got before.
pub open spec fn undisturbed(
    before: Map<Seq<char>, Map<Seq<char>, JsonView>>,
    after: Map<Seq<char>, Map<Seq<char>, JsonView>>,
    token: Seq<char>,
) -> bool {
    forall|other: Seq<char>|
        #![trigger id_of(other)]
        id_of(other) != id_of(token) ==> (after.contains_key(id_of(other))
            == before.contains_key(id_of(other))) && (before.contains_key(id_of(other))
            ==> after[id_of(other)] == before[id_of(other)])
}

/// Applies a patch to claims.
fn apply(claims: StrMap<Json>, patch: StrMap<Json>) -> (r: StrMap<Json>)
    ensures
        json::fields(r) == patched(json::fields(claims), json::fields(patch)),
{
    let ghost base = json::fields(claims);
    let ghost e = patch.entries();
    let n = patch.len();
    proof {
        strmap::lemma_ascending_distinct(strmap::keys_of(e));
    }
    let mut out = claims;
    let mut i: usize = 0;
    proof {
        assert(e.take(0) =~= Seq::empty());
        assert(patched(base, json::fields_view(e.take(0))) =~= base);
    }
    while i < n
        invariant
            i <= n,
            n == e.len(),
            e == patch.entries(),
            json::fields(out) == patched(base, json::fields_view(e.take(i as int))),
        decreases n - i,
    {
        let (claim, value) = patch.at(i);
        let ghost front = json::fields(out);
        match value {
            Json::Null => {
                let _ = json::drop_field(&mut out, claim);
            },
            value => {
                let copied = value.copy();
                json::put_field(&mut out, claim.to_owned(), copied);
            },
        }
        proof {
            assert(e.take(i + 1).drop_last() =~= e.take(i as int));
            assert(e.take(i + 1).last() == e[i as int]);
            assert(json::json_view(*value) == JsonView::Null <==> *value is Null);
            assert(json::fields(out) =~= patched(base, json::fields_view(e.take(i + 1))));
        }
        i = i + 1;
    }
    proof {
        assert(e.take(i as int) =~= e);
    }
    out
}

impl ClaimOverrides {
    /// Nothing registered.
    pub fn new() -> (r: Self)
        ensures
            r@ == Map::<Seq<char>, Map<Seq<char>, JsonView>>::empty(),
    {
        let r = ClaimOverrides { entries: StrMap::new() };
        proof {
            assert(r@ =~= Map::<Seq<char>, Map<Seq<char>, JsonView>>::empty());
        }
        r
    }

    /// The claims registered for a token.
    pub fn get(&self, token: &str) -> (r: Option<Arc<StrMap<Json>>>)
        ensures
            match r {
                Some(claims) => self@.contains_key(id_of(token@)) && json::fields(*claims)
                    == self@[id_of(token@)],
                None => !self@.contains_key(id_of(token@)),
            },
    {
        let id = digest::hex(&digest::key_for(token));
        match self.entries.get(id.as_str()) {
            Some(claims) => Some(claims.clone()),
            None => None,
        }
    }

    /// Registers claims for a token, in place of what was there.
    pub fn put(&mut self, token: &str, claims: StrMap<Json>) -> (r: Arc<StrMap<Json>>)
        ensures
            final(self)@ == old(self)@.insert(id_of(token@), json::fields(claims)),
            json::fields(*r) == json::fields(claims),
            undisturbed(old(self)@, final(self)@, token@),
    {
        let claims = Arc::new(claims);
        self.entries.insert(digest::hex(&digest::key_for(token)), claims.clone());
        proof {
            assert(self@ =~= old(self)@.insert(id_of(token@), json::fields(*claims)));
        }
        claims
    }

    /// Applies a patch to what is registered for a token: what the patch holds
    /// replaces, a null removes, everything else is left alone.
    pub fn merge(&mut self, token: &str, patch: StrMap<Json>) -> (r: Arc<StrMap<Json>>)
        ensures
            json::fields(*r) == patched(
                if old(self)@.contains_key(id_of(token@)) {
                    old(self)@[id_of(token@)]
                } else {
                    Map::empty()
                },
                json::fields(patch),
            ),
            final(self)@ == old(self)@.insert(id_of(token@), json::fields(*r)),
            undisturbed(old(self)@, final(self)@, token@),
    {
        let existing = match self.get(token) {
            Some(claims) => json::copy_object(&claims),
            None => json::empty_object(),
        };
        self.put(token, apply(existing, patch))
    }

    /// Drops what is registered under an id.
    pub fn remove(&mut self, id: &str) -> (r: bool)
        ensures
            r == (digest::is_id(id@) && old(self)@.contains_key(addressed(id@))),
            final(self)@ == if r {
                old(self)@.remove(addressed(id@))
            } else {
                old(self)@
            },
    {
        match digest::key_from_id(id) {
            None => false,
            Some(key) => {
                let id = digest::hex(&key);
                let taken = self.entries.remove(id.as_str());
                proof {
                    assert(self@ =~= old(self)@.remove(id@));
                    assert(taken is None ==> old(self)@.remove(id@) =~= old(self)@);
                }
                taken.is_some()
            },
        }
    }

    /// Drops everything, and says how much it was.
    pub fn clear(&mut self) -> (r: usize)
        ensures
            r == old(self)@.len(),
            final(self)@ == Map::<Seq<char>, Map<Seq<char>, JsonView>>::empty(),
    {
        let removed = self.entries.len();
        proof {
            assert(old(self)@.dom() =~= old(self).entries@.dom());
        }
        self.entries = StrMap::new();
        proof {
            assert(self@ =~= Map::<Seq<char>, Map<Seq<char>, JsonView>>::empty());
        }
        removed
    }

    /// Everything registered, in the order of the ids.
    pub fn list(&self) -> (r: Vec<OverrideView>)
        ensures
            strmap::ascending(ids_of(r@)),
            r@.len() == self@.len(),
            forall|i: int|
                0 <= i < r@.len() ==> self@.contains_key((#[trigger] r@[i]).id@) && json::fields(
                    r@[i].claims,
                ) == self@[r@[i].id@],
    {
        let n = self.entries.len();
        let ghost e = self.entries.entries();
        let mut out: Vec<OverrideView> = Vec::new();
        let mut i: usize = 0;
        while i < n
            invariant
                i <= n,
                n == e.len(),
                e == self.entries.entries(),
                out@.len() == i,
                forall|k: int|
                    0 <= k < i ==> (#[trigger] out@[k]).id@ == e[k].0@ && self@.contains_key(
                        out@[k].id@,
                    ) && json::fields(out@[k].claims) == self@[out@[k].id@],
            decreases n - i,
        {
            let (id, claims) = self.entries.at(i);
            out.push(OverrideView { id: id.to_owned(), claims: json::copy_object(claims) });
            i = i + 1;
        }
        proof {
            assert(ids_of(out@) =~= strmap::keys_of(e));
            assert(self@.dom() =~= self.entries@.dom());
        }
        out
    }

    /// What is registered under an id.
    pub fn show(&self, id: &str) -> (r: Option<OverrideView>)
        ensures
            match r {
                Some(view) => digest::is_id(id@) && self@.contains_key(addressed(id@)) && view.id@
                    == addressed(id@) && json::fields(view.claims) == self@[addressed(id@)],
                None => !(digest::is_id(id@) && self@.contains_key(addressed(id@))),
            },
    {
        match digest::key_from_id(id) {
            None => None,
            Some(key) => {
                let id = digest::hex(&key);
                match self.entries.get(id.as_str()) {
                    Some(claims) => {
                        let claims = json::copy_object(claims);
                        Some(OverrideView { id, claims })
                    },
                    None => None,
                }
            },
        }
    }
}

impl Default for ClaimOverrides {
    fn default() -> (r: Self)
        ensures
            r@ == Map::<Seq<char>, Map<Seq<char>, JsonView>>::empty(),
    {
        ClaimOverrides::new()
    }
}

/// A token is found under the id its override was listed with.
pub proof fn law_an_override_is_addressed_by_its_id(token: Seq<char>)
    requires
        digest::key_spec(token).len() == 32,
    ensures
        digest::is_id(id_of(token)),
        addressed(id_of(token)) == id_of(token),
{
    digest::law_id_gives_back_the_digest(digest::key_spec(token));
}

/// Whatever claims are registered for one token, as given or as patched, every token of
/// another id gets what it got before.
pub proof fn law_registering_for_one_token_leaves_the_others(
    before: Map<Seq<char>, Map<Seq<char>, JsonView>>,
    token: Seq<char>,
    claims: Map<Seq<char>, JsonView>,
)
    ensures
        undisturbed(before, before.insert(id_of(token), claims), token),
{
}

/// A null in a patch removes its claim, anything else replaces it, and what the patch
/// does not name stays.
pub proof fn law_a_patch_touches_only_what_it_names(
    claims: Map<Seq<char>, JsonView>,
    patch: Map<Seq<char>, JsonView>,
    claim: Seq<char>,
)
    ensures
        patch.contains_key(claim) && patch[claim] == JsonView::Null ==> !patched(
            claims,
            patch,
        ).contains_key(claim),
        patch.contains_key(claim) && patch[claim] != JsonView::Null ==> patched(
            claims,
            patch,
        ).contains_key(claim) && patched(claims, patch)[claim] == patch[claim],
        !patch.contains_key(claim) ==> (patched(claims, patch).contains_key(claim)
            == claims.contains_key(claim)) && (claims.contains_key(claim) ==> patched(
            claims,
            patch,
        )[claim] == claims[claim]),
{
}

/// How a request to the override endpoints is answered.
pub enum OverrideReply {
    View(OverrideView),
    List(Vec<OverrideView>),
    Removed(usize),
    NoContent,
    NotFound(String),
    BadRequest(String),
}

/// Whether a request to register claims names no token.
pub open spec fn nameless(token: Seq<char>) -> bool {
    text::trim_spec(token).len() == 0
}

/// Tests whether a request names no token.
fn names_nothing(token: &str) -> (r: bool)
    ensures
        r == nameless(token@),
{
    proof {
        reveal_strlit("");
    }
    let t = text::trim(token);
    proof {
        assert(t@.len() == 0 ==> t@ =~= ""@);
    }
    text::same(t, "")
}

/// Replaces the whole claim set of a token.
pub fn replace(overrides: &mut ClaimOverrides, token: &str, claims: StrMap<Json>) -> (r:
    OverrideReply)
    ensures
        nameless(token@) ==> (r matches OverrideReply::BadRequest(m) && m@
            == "token must not be empty"@) && final(overrides)@ == old(overrides)@,
        !nameless(token@) ==> (r matches OverrideReply::View(v) && v.id@ == id_of(token@)
            && json::fields(v.claims) == json::fields(claims)) && final(overrides)@ == old(
            overrides,
        )@.insert(id_of(token@), json::fields(claims)),
{
    if names_nothing(token) {
        return OverrideReply::BadRequest("token must not be empty".to_owned());
    }
    let id = digest::hex(&digest::key_for(token));
    let stored = overrides.put(token, claims);
    OverrideReply::View(OverrideView { id, claims: json::copy_object(&stored) })
}

/// Applies a patch to the claim set of a token, making it where there is none.
pub fn patch(overrides: &mut ClaimOverrides, token: &str, claims: StrMap<Json>) -> (r:
    OverrideReply)
    ensures
        nameless(token@) ==> (r matches OverrideReply::BadRequest(m) && m@
            == "token must not be empty"@) && final(overrides)@ == old(overrides)@,
        !nameless(token@) ==> (r matches OverrideReply::View(v) && v.id@ == id_of(token@)
            && json::fields(v.claims) == patched(
            if old(overrides)@.contains_key(id_of(token@)) {
                old(overrides)@[id_of(token@)]
            } else {
                Map::empty()
            },
            json::fields(claims),
        ) && final(overrides)@ == old(overrides)@.insert(id_of(token@), json::fields(v.claims))),
{
    if names_nothing(token) {
        return OverrideReply::BadRequest("token must not be empty".to_owned());
    }
    let id = digest::hex(&digest::key_for(token));
    let stored = overrides.merge(token, claims);
    OverrideReply::View(OverrideView { id, claims: json::copy_object(&stored) })
}

/// The answer where nothing is registered under an id.
pub open spec fn no_override(id: Seq<char>) -> Seq<char> {
    "no claim override with id '"@ + id + "'"@
}

/// Shows what is registered under an id.
pub fn show(overrides: &ClaimOverrides, id: &str) -> (r: OverrideReply)
    ensures
        if digest::is_id(id@) && overrides@.contains_key(addressed(id@)) {
            r matches OverrideReply::View(v) && v.id@ == addressed(id@) && json::fields(v.claims)
                == overrides@[addressed(id@)]
        } else {
            r matches OverrideReply::NotFound(m) && m@ == no_override(id@)
        },
{
    match overrides.show(id) {
        Some(view) => OverrideReply::View(view),
        None => OverrideReply::NotFound(text::cat3("no claim override with id '", id, "'")),
    }
}

/// Drops what is registered under an id.
pub fn remove(overrides: &mut ClaimOverrides, id: &str) -> (r: OverrideReply)
    ensures
        if digest::is_id(id@) && old(overrides)@.contains_key(addressed(id@)) {
            r is NoContent && final(overrides)@ == old(overrides)@.remove(addressed(id@))
        } else {
            (r matches OverrideReply::NotFound(m) && m@ == no_override(id@)) && final(overrides)@
                == old(overrides)@
        },
{
    if overrides.remove(id) {
        OverrideReply::NoContent
    } else {
        OverrideReply::NotFound(text::cat3("no claim override with id '", id, "'"))
    }
}

/// Lists everything registered.
pub fn list(overrides: &ClaimOverrides) -> (r: OverrideReply)
    ensures
        r matches OverrideReply::List(v) && strmap::ascending(ids_of(v@)) && v@.len()
            == overrides@.len() && forall|i: int|
            0 <= i < v@.len() ==> overrides@.contains_key((#[trigger] v@[i]).id@) && json::fields(
                v@[i].claims,
            ) == overrides@[v@[i].id@],
{
    OverrideReply::List(overrides.list())
}

/// Drops everything registered.
pub fn clear(overrides: &mut ClaimOverrides) -> (r: OverrideReply)
    ensures
        r matches OverrideReply::Removed(n) && n == old(overrides)@.len(),
        final(overrides)@ == Map::<Seq<char>, Map<Seq<char>, JsonView>>::empty(),
{
    OverrideReply::Removed(overrides.clear())
}

} // verus!
