//! A map from text to values, kept in the order of its keys.

use crate::text;
use vstd::prelude::*;

verus! {

/// A map from text to values. The keys are distinct and stand in ascending order.
pub struct StrMap<V> {
    entries: Vec<(String, V)>,
}

/// The keys of a list of entries.
pub open spec fn keys_of<V>(e: Seq<(String, V)>) -> Seq<Seq<char>> {
    e.map_values(|x: (String, V)| x.0@)
}

/// Whether each text comes strictly before the ones after it.
pub open spec fn ascending(k: Seq<Seq<char>>) -> bool {
    forall|i: int, j: int|
        0 <= i < j < k.len() ==> text::precedes(#[trigger] k[i], #[trigger] k[j])
}

/// The entries as a map; where a key stands twice the later entry counts.
pub open spec fn map_of<V>(e: Seq<(String, V)>) -> Map<Seq<char>, V>
    decreases e.len(),
{
    if e.len() == 0 {
        Map::empty()
    } else {
        map_of(e.drop_last()).insert(e.last().0@, e.last().1)
    }
}

/// In ascending order no text stands twice.
pub proof fn lemma_ascending_distinct(k: Seq<Seq<char>>)
    requires
        ascending(k),
    ensures
        k.no_duplicates(),
{
    assert forall|i: int, j: int| 0 <= i < k.len() && 0 <= j < k.len() && i != j implies k[i]
        != k[j] by {
        text::lemma_precedes_irreflexive(k[i]);
        if i < j {
            assert(text::precedes(k[i], k[j]));
        } else {
            assert(text::precedes(k[j], k[i]));
        }
    }
}

/// The map of entries with distinct keys holds exactly those keys, each with its value.
pub proof fn lemma_map_of<V>(e: Seq<(String, V)>)
    requires
        keys_of(e).no_duplicates(),
    ensures
        forall|k: Seq<char>| #[trigger]
            map_of(e).contains_key(k) <==> keys_of(e).contains(k),
        forall|i: int|
            0 <= i < e.len() ==> map_of(e).contains_key((#[trigger] e[i]).0@) && map_of(e)[e[i].0@]
                == e[i].1,
        map_of(e).dom().finite(),
        map_of(e).len() == e.len(),
    decreases e.len(),
{
    let keys = keys_of(e);
    if e.len() == 0 {
        assert(keys =~= Seq::<Seq<char>>::empty());
    } else {
        let rest = e.drop_last();
        assert(keys_of(rest) =~= keys.drop_last());
        lemma_map_of(rest);
        let last = e.last().0@;
        assert(keys[e.len() - 1] == last);
        assert(!map_of(rest).contains_key(last)) by {
            if keys_of(rest).contains(last) {
                let j = choose|j: int| 0 <= j < rest.len() && keys_of(rest)[j] == last;
                assert(keys[j] == last);
            }
        }
        assert forall|k: Seq<char>| #[trigger]
            map_of(e).contains_key(k) <==> keys.contains(k) by {
            if keys.contains(k) && k != last {
                let j = choose|j: int| 0 <= j < keys.len() && keys[j] == k;
                assert(keys_of(rest)[j] == k);
            }
            if keys_of(rest).contains(k) {
                let j = choose|j: int| 0 <= j < rest.len() && keys_of(rest)[j] == k;
                assert(keys[j] == k);
            }
        }
        assert forall|i: int| 0 <= i < e.len() implies map_of(e).contains_key((#[trigger] e[i]).0@)
            && map_of(e)[e[i].0@] == e[i].1 by {
            if i < e.len() - 1 {
                assert(rest[i] == e[i]);
                assert(keys[i] == e[i].0@);
            }
        }
    }
}

/// The map of entries with distinct keys, cut at a place, with one entry put in
/// there or taken out.
proof fn lemma_map_of_insert<V>(e: Seq<(String, V)>, at: int, x: (String, V))
    requires
        0 <= at <= e.len(),
        keys_of(e).no_duplicates(),
        !keys_of(e).contains(x.0@),
    ensures
        keys_of(e.insert(at, x)).no_duplicates(),
        map_of(e.insert(at, x)) == map_of(e).insert(x.0@, x.1),
{
    let f = e.insert(at, x);
    let ke = keys_of(e);
    let kf = keys_of(f);
    assert forall|i: int, j: int| 0 <= i < kf.len() && 0 <= j < kf.len() && i != j implies kf[i]
        != kf[j] by {
        let i2 = if i < at { i } else { i - 1 };
        let j2 = if j < at { j } else { j - 1 };
        if i != at {
            assert(kf[i] == ke[i2]);
        }
        if j != at {
            assert(kf[j] == ke[j2]);
        }
        if i == at {
            assert(ke[j2] != x.0@);
        } else if j == at {
            assert(ke[i2] != x.0@);
        }
    }
    lemma_map_of(e);
    lemma_map_of(f);
    let m = map_of(f);
    let n = map_of(e).insert(x.0@, x.1);
    assert forall|k: Seq<char>| #[trigger] m.contains_key(k) <==> n.contains_key(k) by {
        if kf.contains(k) {
            let i = choose|i: int| 0 <= i < kf.len() && kf[i] == k;
            if i != at {
                let i2 = if i < at { i } else { i - 1 };
                assert(ke[i2] == k);
            }
        }
        if ke.contains(k) {
            let i = choose|i: int| 0 <= i < ke.len() && ke[i] == k;
            let i2 = if i < at { i } else { i + 1 };
            assert(kf[i2] == k);
        }
        assert(kf[at] == x.0@);
    }
    assert forall|k: Seq<char>| m.contains_key(k) implies m[k] == n[k] by {
        let i = choose|i: int| 0 <= i < kf.len() && kf[i] == k;
        assert(f[i].0@ == k);
        if i != at {
            let i2 = if i < at { i } else { i - 1 };
            assert(e[i2] == f[i]);
            assert(ke[i2] == k);
        }
    }
    assert(m =~= n);
}

/// Taking one of the entries out takes its key out of the map.
proof fn lemma_map_of_remove<V>(e: Seq<(String, V)>, at: int)
    requires
        0 <= at < e.len(),
        keys_of(e).no_duplicates(),
    ensures
        keys_of(e.remove(at)).no_duplicates(),
        !keys_of(e.remove(at)).contains(e[at].0@),
        map_of(e.remove(at)) == map_of(e).remove(e[at].0@),
{
    let f = e.remove(at);
    let ke = keys_of(e);
    let kf = keys_of(f);
    assert(kf =~= ke.remove(at));
    assert forall|i: int| 0 <= i < kf.len() implies kf[i] != ke[at] by {
        let i2 = if i < at { i } else { i + 1 };
        assert(kf[i] == ke[i2]);
    }
    assert forall|i: int, j: int| 0 <= i < kf.len() && 0 <= j < kf.len() && i != j implies kf[i]
        != kf[j] by {
        let i2 = if i < at { i } else { i + 1 };
        let j2 = if j < at { j } else { j + 1 };
        assert(kf[i] == ke[i2] && kf[j] == ke[j2]);
    }
    assert(ke[at] == e[at].0@);
    lemma_map_of_insert(f, at, e[at]);
    assert(f.insert(at, e[at]) =~= e);
    lemma_map_of(f);
    assert(map_of(f) =~= map_of(e).remove(e[at].0@));
}

impl<V> View for StrMap<V> {
    type V = Map<Seq<char>, V>;

    closed spec fn view(&self) -> Map<Seq<char>, V> {
        map_of(self.entries@)
    }
}

/// A map is the map of its entries, and holds them as parts of itself.
pub proof fn lemma_entries<V>(m: StrMap<V>)
    ensures
        m@ == map_of(m.entries()),
        decreases_to!(m => m.entries()),
{
    assert(decreases_to!(m => m.entries));
    assert(decreases_to!(m.entries => m.entries@));
}

/// The pairs of a map of texts, in the order of its keys.
pub open spec fn pairs_of(m: StrMap<String>) -> Seq<(Seq<char>, Seq<char>)> {
    text::pairs_view(m.entries())
}

impl<V> StrMap<V> {
    #[verifier::type_invariant]
    spec fn inv(self) -> bool {
        ascending(keys_of(self.entries@))
    }

    /// The entries in the order of their keys.
    pub closed spec fn entries(&self) -> Seq<(String, V)> {
        self.entries@
    }

    /// An empty map.
    pub fn new() -> (r: Self)
        ensures
            r@ == Map::<Seq<char>, V>::empty(),
            r.entries() == Seq::<(String, V)>::empty(),
    {
        StrMap { entries: Vec::new() }
    }

    /// The number of keys. The entries are the map, in ascending order of keys.
    pub fn len(&self) -> (r: usize)
        ensures
            r == self@.len(),
            r == self.entries().len(),
            self@ == map_of(self.entries()),
            ascending(keys_of(self.entries())),
            self@.dom().finite(),
    {
        proof {
            use_type_invariant(self);
            lemma_ascending_distinct(keys_of(self.entries@));
            lemma_map_of(self.entries@);
        }
        self.entries.len()
    }

    /// Tests whether there is no key.
    pub fn is_empty(&self) -> (r: bool)
        ensures
            r == (self@ == Map::<Seq<char>, V>::empty()),
            r == (self.entries().len() == 0),
    {
        let n = self.len();
        proof {
            if n > 0 {
                lemma_ascending_distinct(keys_of(self.entries@));
                lemma_map_of(self.entries@);
                assert(self@.contains_key(self.entries@[0].0@));
            }
        }
        n == 0
    }

    /// The entry at a place in the order of keys.
    pub fn at(&self, i: usize) -> (r: (&str, &V))
        requires
            i < self.entries().len(),
        ensures
            r.0@ == self.entries()[i as int].0@,
            r.1 == self.entries()[i as int].1,
            self@.contains_key(r.0@),
            self@[r.0@] == r.1,
    {
        proof {
            use_type_invariant(self);
            lemma_ascending_distinct(keys_of(self.entries@));
            lemma_map_of(self.entries@);
        }
        (self.entries[i].0.as_str(), &self.entries[i].1)
    }

    /// Where `key` stands, or would stand.
    fn position(&self, key: &str) -> (r: (usize, bool))
        ensures
            r.0 <= self.entries@.len(),
            forall|k: int|
                0 <= k < r.0 ==> text::precedes(#[trigger] keys_of(self.entries@)[k], key@),
            r.1 ==> r.0 < self.entries@.len() && self.entries@[r.0 as int].0@ == key@,
            !r.1 ==> forall|k: int|
                r.0 <= k < self.entries@.len() ==> text::precedes(
                    key@,
                    #[trigger] keys_of(self.entries@)[k],
                ),
            r.1 == self@.contains_key(key@),
            r.1 == keys_of(self.entries@).contains(key@),
            r.1 ==> self@[key@] == self.entries@[r.0 as int].1,
            ascending(keys_of(self.entries@)),
    {
        proof {
            use_type_invariant(self);
            lemma_ascending_distinct(keys_of(self.entries@));
            lemma_map_of(self.entries@);
        }
        let ghost ks = keys_of(self.entries@);
        let mut i: usize = 0;
        while i < self.entries.len() && text::comes_before(self.entries[i].0.as_str(), key)
            invariant
                i <= self.entries@.len(),
                forall|k: int|
                    0 <= k < i ==> text::precedes(#[trigger] keys_of(self.entries@)[k], key@),
            decreases self.entries@.len() - i,
        {
            i = i + 1;
        }
        if i < self.entries.len() && text::same(self.entries[i].0.as_str(), key) {
            proof {
                assert(ks[i as int] == key@);
            }
            (i, true)
        } else {
            proof {
                assert forall|k: int| i <= k < self.entries@.len() implies text::precedes(
                    key@,
                    #[trigger] ks[k],
                ) by {
                    text::lemma_precedes_total(ks[i as int], key@);
                    if k > i {
                        text::lemma_precedes_transitive(key@, ks[i as int], ks[k]);
                    }
                }
                text::lemma_precedes_irreflexive(key@);
                assert(!ks.contains(key@));
            }
            (i, false)
        }
    }

    /// Tests whether `key` is there.
    pub fn contains_key(&self, key: &str) -> (r: bool)
        ensures
            r == self@.contains_key(key@),
    {
        self.position(key).1
    }

    /// The value under `key`.
    pub fn get(&self, key: &str) -> (r: Option<&V>)
        ensures
            match r {
                Some(v) => self@.contains_key(key@) && *v == self@[key@],
                None => !self@.contains_key(key@),
            },
    {
        let (at, found) = self.position(key);
        if found {
            Some(&self.entries[at].1)
        } else {
            None
        }
    }

    /// Puts `value` under `key`, in place of what stood there.
    pub fn insert(&mut self, key: String, value: V)
        ensures
            final(self)@ == old(self)@.insert(key@, value),
    {
        let (at, found) = self.position(key.as_str());
        let ghost e = self.entries@;
        proof {
            lemma_ascending_distinct(keys_of(e));
            lemma_map_of(e);
        }
        let mut entries: Vec<(String, V)> = Vec::new();
        std::mem::swap(&mut entries, &mut self.entries);
        if found {
            let _ = entries.remove(at);
            proof {
                lemma_map_of_remove(e, at as int);
            }
        }
        let ghost f = entries@;
        entries.insert(at, (key, value));
        proof {
            let x = (key, value);
            lemma_map_of_insert(f, at as int, x);
            assert(map_of(entries@) =~= map_of(e).insert(key@, value));
            let ks = keys_of(entries@);
            assert forall|i: int, j: int| 0 <= i < j < ks.len() implies text::precedes(
                #[trigger] ks[i],
                #[trigger] ks[j],
            ) by {
                let shift = if found { 0int } else { 1int };
                let i2 = if i <= at { i } else { i - shift };
                let j2 = if j <= at { j } else { j - shift };
                assert(keys_of(e)[i2] == e[i2].0@ || i2 >= e.len());
                if i != at {
                    assert(ks[i] == keys_of(e)[i2]);
                }
                if j != at {
                    assert(ks[j] == keys_of(e)[j2]);
                }
                if i == at && found {
                    assert(ks[i] == keys_of(e)[i]);
                }
            }
        }
        self.entries = entries;
    }

    /// Takes `key` out and hands back what stood under it.
    pub fn remove(&mut self, key: &str) -> (r: Option<V>)
        ensures
            final(self)@ == old(self)@.remove(key@),
            match r {
                Some(v) => old(self)@.contains_key(key@) && v == old(self)@[key@],
                None => !old(self)@.contains_key(key@) && *final(self) == *old(self),
            },
    {
        let (at, found) = self.position(key);
        let ghost e = self.entries@;
        proof {
            lemma_ascending_distinct(keys_of(e));
            lemma_map_of(e);
        }
        if !found {
            proof {
                assert(self@ =~= old(self)@.remove(key@));
            }
            return None;
        }
        let mut entries: Vec<(String, V)> = Vec::new();
        std::mem::swap(&mut entries, &mut self.entries);
        let (_, value) = entries.remove(at);
        proof {
            lemma_map_of_remove(e, at as int);
            let ks = keys_of(entries@);
            assert(ks =~= keys_of(e).remove(at as int));
            assert forall|i: int, j: int| 0 <= i < j < ks.len() implies text::precedes(
                #[trigger] ks[i],
                #[trigger] ks[j],
            ) by {
                let i2 = if i < at { i } else { i + 1 };
                let j2 = if j < at { j } else { j + 1 };
                assert(ks[i] == keys_of(e)[i2] && ks[j] == keys_of(e)[j2]);
            }
        }
        self.entries = entries;
        Some(value)
    }

    /// The entries, in the order of their keys.
    pub fn into_entries(self) -> (r: Vec<(String, V)>)
        ensures
            r@ == self.entries(),
            map_of(r@) == self@,
            ascending(keys_of(r@)),
    {
        proof {
            use_type_invariant(&self);
        }
        self.entries
    }

    /// A map of entries that stand in ascending order of keys.
    pub(crate) fn from_entries(entries: Vec<(String, V)>) -> (r: Self)
        requires
            ascending(keys_of(entries@)),
        ensures
            r@ == map_of(entries@),
            r.entries() == entries@,
    {
        StrMap { entries }
    }
}

} // verus!
