//! Lists in the order of a name.

use crate::text;
use vstd::prelude::*;

verus! {

/// Something put into a sorted list: behind everything that does not come after it.
pub open spec fn placed<T>(s: Seq<T>, x: T, key: spec_fn(T) -> Seq<char>) -> Seq<T>
    decreases s.len(),
{
    if s.len() > 0 && text::precedes(key(x), key(s.last())) {
        placed(s.drop_last(), x, key).push(s.last())
    } else {
        s.push(x)
    }
}

/// A list in the order of its keys; what has equal keys keeps its order.
pub open spec fn sorted<T>(s: Seq<T>, key: spec_fn(T) -> Seq<char>) -> Seq<T>
    decreases s.len(),
{
    if s.len() == 0 {
        Seq::empty()
    } else {
        placed(sorted(s.drop_last(), key), s.last(), key)
    }
}

/// Whether no key comes before the one in front of it.
pub open spec fn in_order<T>(s: Seq<T>, key: spec_fn(T) -> Seq<char>) -> bool {
    forall|i: int, j: int|
        0 <= i < j < s.len() ==> !text::precedes(key(#[trigger] s[j]), key(#[trigger] s[i]))
}

/// Where something stands once it is put into a list.
pub proof fn lemma_placed<T>(s: Seq<T>, x: T, key: spec_fn(T) -> Seq<char>, at: int)
    requires
        0 <= at <= s.len(),
        forall|k: int| at <= k < s.len() ==> text::precedes(key(x), key(#[trigger] s[k])),
        at > 0 ==> !text::precedes(key(x), key(s[at - 1])),
    ensures
        placed(s, x, key) == s.insert(at, x),
    decreases s.len(),
{
    if at < s.len() {
        assert(text::precedes(key(x), key(s[s.len() - 1])));
        assert forall|k: int| at <= k < s.drop_last().len() implies text::precedes(
            key(x),
            key(#[trigger] s.drop_last()[k]),
        ) by {
            assert(s.drop_last()[k] == s[k]);
        }
        lemma_placed(s.drop_last(), x, key, at);
        assert(placed(s, x, key) =~= s.insert(at, x));
    } else {
        assert(placed(s, x, key) =~= s.insert(at, x));
    }
}

/// Putting something in keeps a list in order and adds nothing else.
proof fn lemma_placed_in_order<T>(s: Seq<T>, x: T, key: spec_fn(T) -> Seq<char>)
    requires
        in_order(s, key),
    ensures
        in_order(placed(s, x, key), key),
        placed(s, x, key).to_multiset() == s.to_multiset().insert(x),
        forall|i: int|
            0 <= i < placed(s, x, key).len() ==> (#[trigger] placed(s, x, key)[i]) == x
                || s.contains(placed(s, x, key)[i]),
    decreases s.len(),
{
    broadcast use vstd::seq_lib::group_to_multiset_ensures;

    let p = placed(s, x, key);
    if s.len() > 0 && text::precedes(key(x), key(s.last())) {
        let front = s.drop_last();
        let q = placed(front, x, key);
        assert forall|i: int, j: int| 0 <= i < j < front.len() implies !text::precedes(
            key(#[trigger] front[j]),
            key(#[trigger] front[i]),
        ) by {
            assert(front[i] == s[i] && front[j] == s[j]);
        }
        lemma_placed_in_order(front, x, key);
        assert(s =~= front.push(s.last()));
        assert forall|i: int| 0 <= i < p.len() implies (#[trigger] p[i]) == x || s.contains(
            p[i],
        ) by {
            if i < q.len() {
                assert(p[i] == q[i]);
                if q[i] != x {
                    let k = choose|k: int| 0 <= k < front.len() && front[k] == q[i];
                    assert(s[k] == p[i]);
                }
            } else {
                assert(s[s.len() - 1] == p[i]);
            }
        }
        assert forall|i: int, j: int| 0 <= i < j < p.len() implies !text::precedes(
            key(#[trigger] p[j]),
            key(#[trigger] p[i]),
        ) by {
            if j == q.len() {
                assert(p[i] == q[i]);
                assert(p[j] == s.last());
                if q[i] == x {
                    if text::precedes(key(s.last()), key(x)) {
                        text::lemma_precedes_transitive(key(x), key(s.last()), key(x));
                        text::lemma_precedes_irreflexive(key(x));
                    }
                } else {
                    let k = choose|k: int| 0 <= k < front.len() && front[k] == q[i];
                    assert(s[k] == q[i]);
                    assert(s[s.len() - 1] == s.last());
                }
            } else {
                assert(p[i] == q[i] && p[j] == q[j]);
            }
        }
        assert(p.to_multiset() =~= s.to_multiset().insert(x));
    } else {
        assert forall|i: int, j: int| 0 <= i < j < p.len() implies !text::precedes(
            key(#[trigger] p[j]),
            key(#[trigger] p[i]),
        ) by {
            if j == s.len() {
                assert(p[j] == x);
                assert(p[i] == s[i]);
                let last = s[s.len() - 1];
                if text::precedes(key(x), key(s[i])) {
                    if i < s.len() - 1 {
                        assert(!text::precedes(key(last), key(s[i])));
                        text::lemma_precedes_total(key(last), key(s[i]));
                        if text::precedes(key(s[i]), key(last)) {
                            text::lemma_precedes_transitive(key(x), key(s[i]), key(last));
                        }
                    }
                }
            } else {
                assert(p[i] == s[i] && p[j] == s[j]);
            }
        }
        assert forall|i: int| 0 <= i < p.len() implies (#[trigger] p[i]) == x || s.contains(
            p[i],
        ) by {
            if i < s.len() {
                assert(s[i] == p[i]);
            }
        }
    }
}

/// Sorting puts a list in order and neither adds nor drops anything.
pub proof fn law_sorting_keeps_everything<T>(s: Seq<T>, key: spec_fn(T) -> Seq<char>)
    ensures
        in_order(sorted(s, key), key),
        sorted(s, key).to_multiset() == s.to_multiset(),
    decreases s.len(),
{
    broadcast use vstd::seq_lib::group_to_multiset_ensures;

    if s.len() > 0 {
        law_sorting_keeps_everything(s.drop_last(), key);
        lemma_placed_in_order(sorted(s.drop_last(), key), s.last(), key);
        assert(s =~= s.drop_last().push(s.last()));
    } else {
        assert(s =~= Seq::empty());
    }
}

} // verus!
