//! JSON values: claims, settings and the messages filters exchange.

use crate::decimal;
use crate::strmap;
use crate::strmap::StrMap;
use vstd::prelude::*;

verus! {

/// The number of a `serde_json` tree.
#[verifier::external_type_specification]
#[verifier::external_body]
pub struct ExNumber(serde_json::Number);

/// The decimal text of a `serde_json::Number`, as its `Display` writes it.
pub uninterp spec fn number_text(n: serde_json::Number) -> Seq<char>;

/// Whether `serde_json::Number::as_u64` or `serde_json::Number::as_i64` gives a number:
/// whether it is held as a whole one.
pub uninterp spec fn number_whole(n: serde_json::Number) -> bool;

/// `Clone` of `serde_json::Number`, which holds one integer or one float and is
/// copied whole.
pub assume_specification[ <serde_json::Number as Clone>::clone ](n: &serde_json::Number) -> (r:
    serde_json::Number)
    ensures
        r == *n,
;

/// Writes a number with the `Display` of `serde_json::Number`.
#[verifier::external_body]
pub(crate) fn number_to_string(n: &serde_json::Number) -> (r: String)
    ensures
        r@ == number_text(*n),
{
    n.to_string()
}

/// A number that `serde_json` does not hold as a whole one.
pub struct Fraction {
    number: serde_json::Number,
}

impl Fraction {
    /// The number is not held as a whole one.
    #[verifier::type_invariant]
    spec fn not_whole(self) -> bool {
        !number_whole(self.number)
    }

    /// The number as `serde_json` holds it.
    pub closed spec fn inner(&self) -> serde_json::Number {
        self.number
    }

    /// Holds a number that is not a whole one.
    pub(crate) fn new(number: serde_json::Number) -> (r: Self)
        requires
            !number_whole(number),
        ensures
            r.inner() == number,
    {
        Fraction { number }
    }

    /// A copy of the number as `serde_json` holds it.
    pub(crate) fn number(&self) -> (r: serde_json::Number)
        ensures
            r == self.inner(),
            !number_whole(r),
    {
        proof {
            use_type_invariant(self);
        }
        self.number.clone()
    }

    /// Copies the number.
    pub fn copy(&self) -> (r: Self)
        ensures
            r == *self,
    {
        proof {
            use_type_invariant(self);
        }
        Fraction { number: self.number.clone() }
    }

    /// The decimal text of the number.
    pub fn text(&self) -> (r: String)
        ensures
            r@ == number_text(self.inner()),
    {
        number_to_string(&self.number)
    }
}

/// A JSON number: a whole number, or any other.
pub enum Numeric {
    Pos(u64),
    Neg(i64),
    Real(Fraction),
}

/// A JSON value.
pub enum Json {
    Null,
    Bool(bool),
    Numeric(Numeric),
    Text(String),
    Array(Vec<Json>),
    Object(StrMap<Json>),
}

/// What a JSON value says. A number that is not whole is told by its decimal text.
pub enum JsonView {
    Null,
    Bool(bool),
    Int(int),
    Real(Seq<char>),
    Text(Seq<char>),
    Array(Seq<JsonView>),
    Object(Map<Seq<char>, JsonView>),
}

/// What a number says.
pub open spec fn number_view(n: Numeric) -> JsonView {
    match n {
        Numeric::Pos(n) => JsonView::Int(n as int),
        Numeric::Neg(n) => JsonView::Int(n as int),
        Numeric::Real(n) => JsonView::Real(number_text(n.inner())),
    }
}

/// What a value says.
pub open spec fn json_view(j: Json) -> JsonView
    decreases j,
{
    match j {
        Json::Null => JsonView::Null,
        Json::Bool(b) => JsonView::Bool(b),
        Json::Numeric(n) => number_view(n),
        Json::Text(s) => JsonView::Text(s@),
        Json::Array(v) => JsonView::Array(list_view(v@)),
        Json::Object(m) => {
            proof {
                strmap::lemma_entries(m);
            }
            JsonView::Object(fields_view(m.entries()))
        },
    }
}

/// What the values of a list say.
pub open spec fn list_view(v: Seq<Json>) -> Seq<JsonView>
    decreases v,
{
    if v.len() == 0 {
        Seq::empty()
    } else {
        list_view(v.drop_last()).push(json_view(v.last()))
    }
}

/// What the fields of an object say.
pub open spec fn fields_view(e: Seq<(String, Json)>) -> Map<Seq<char>, JsonView>
    decreases e,
{
    if e.len() == 0 {
        Map::empty()
    } else {
        fields_view(e.drop_last()).insert(e.last().0@, json_view(e.last().1))
    }
}

impl View for Json {
    type V = JsonView;

    open spec fn view(&self) -> JsonView {
        json_view(*self)
    }
}

/// What an optional value says.
pub open spec fn opt_view(j: Option<Json>) -> Option<JsonView> {
    match j {
        Some(j) => Some(j@),
        None => None,
    }
}

/// What the fields of an object say.
pub open spec fn fields(m: StrMap<Json>) -> Map<Seq<char>, JsonView> {
    fields_view(m.entries())
}

/// A list says what its values say, place by place.
pub proof fn lemma_list_view(v: Seq<Json>)
    ensures
        list_view(v).len() == v.len(),
        forall|i: int| 0 <= i < v.len() ==> #[trigger] list_view(v)[i] == json_view(v[i]),
    decreases v.len(),
{
    if v.len() > 0 {
        lemma_list_view(v.drop_last());
        assert forall|i: int| 0 <= i < v.len() implies #[trigger] list_view(v)[i] == json_view(
            v[i],
        ) by {
            if i < v.len() - 1 {
                assert(v.drop_last()[i] == v[i]);
            }
        }
    }
}

/// The fields say what the values under them say.
pub proof fn lemma_fields_view(e: Seq<(String, Json)>)
    ensures
        fields_view(e) == strmap::map_of(e).map_values(|j: Json| json_view(j)),
        fields_view(e).dom() == strmap::map_of(e).dom(),
        fields_view(e).dom().finite(),
        forall|k: Seq<char>| #[trigger]
            fields_view(e).contains_key(k) ==> fields_view(e)[k] == json_view(
                strmap::map_of(e)[k],
            ),
    decreases e.len(),
{
    if e.len() > 0 {
        lemma_fields_view(e.drop_last());
    }
    assert(fields_view(e) =~= strmap::map_of(e).map_values(|j: Json| json_view(j)));
    assert(fields_view(e).dom() =~= strmap::map_of(e).dom());
}

/// An object's fields say what the values under them say.
pub proof fn lemma_fields(m: StrMap<Json>)
    ensures
        fields(m).dom() == m@.dom(),
        fields(m).dom().finite(),
        forall|k: Seq<char>| #[trigger]
            fields(m).contains_key(k) ==> m@.contains_key(k) && fields(m)[k] == json_view(m@[k]),
        forall|k: Seq<char>| #[trigger]
            m@.contains_key(k) ==> fields(m).contains_key(k) && fields(m)[k] == json_view(m@[k]),
{
    strmap::lemma_entries(m);
    lemma_fields_view(m.entries());
    assert forall|k: Seq<char>| #[trigger] m@.contains_key(k) implies fields(m).contains_key(k)
        && fields(m)[k] == json_view(m@[k]) by {
        assert(fields(m).dom().contains(k));
        assert(fields_view(m.entries()).contains_key(k));
    }
}

/// Entries with the same keys and values that say the same make the same fields.
pub proof fn lemma_fields_same(a: Seq<(String, Json)>, b: Seq<(String, Json)>)
    requires
        a.len() == b.len(),
        forall|i: int|
            0 <= i < a.len() ==> (#[trigger] a[i]).0@ == b[i].0@ && json_view(a[i].1) == json_view(
                b[i].1,
            ),
    ensures
        fields_view(a) == fields_view(b),
        strmap::keys_of(a) == strmap::keys_of(b),
    decreases a.len(),
{
    if a.len() > 0 {
        assert forall|i: int| 0 <= i < a.drop_last().len() implies (#[trigger] a.drop_last()[i]).0@
            == b.drop_last()[i].0@ && json_view(a.drop_last()[i].1) == json_view(
            b.drop_last()[i].1,
        ) by {
            assert(a.drop_last()[i] == a[i]);
        }
        lemma_fields_same(a.drop_last(), b.drop_last());
        assert(a.last() == a[a.len() - 1]);
    }
    assert(strmap::keys_of(a) =~= strmap::keys_of(b));
}

/// The value of a field.
pub fn get_field<'a>(m: &'a StrMap<Json>, key: &str) -> (r: Option<&'a Json>)
    ensures
        match r {
            Some(v) => fields(*m).contains_key(key@) && v@ == fields(*m)[key@],
            None => !fields(*m).contains_key(key@),
        },
{
    proof {
        lemma_fields(*m);
    }
    m.get(key)
}

/// Sets a field.
pub fn put_field(m: &mut StrMap<Json>, key: String, value: Json)
    ensures
        fields(*final(m)) == fields(*old(m)).insert(key@, value@),
{
    let ghost before = *m;
    let ghost said = value@;
    m.insert(key, value);
    proof {
        lemma_fields(before);
        lemma_fields(*m);
        assert forall|k: Seq<char>| fields(*m).contains_key(k) implies fields(*m)[k] == fields(
            before,
        ).insert(key@, said)[k] by {
            assert(m@.contains_key(k));
        }
        assert(fields(*m) =~= fields(before).insert(key@, said));
    }
}

/// Takes a field out.
pub fn drop_field(m: &mut StrMap<Json>, key: &str) -> (r: Option<Json>)
    ensures
        fields(*final(m)) == fields(*old(m)).remove(key@),
        match r {
            Some(v) => fields(*old(m)).contains_key(key@) && v@ == fields(*old(m))[key@],
            None => !fields(*old(m)).contains_key(key@),
        },
{
    let ghost before = *m;
    let taken = m.remove(key);
    proof {
        lemma_fields(before);
        lemma_fields(*m);
        assert(fields(*m) =~= fields(before).remove(key@));
    }
    taken
}

/// An object without fields.
pub fn empty_object() -> (r: StrMap<Json>)
    ensures
        fields(r) == Map::<Seq<char>, JsonView>::empty(),
{
    let r: StrMap<Json> = StrMap::new();
    proof {
        assert(fields(r) =~= Map::<Seq<char>, JsonView>::empty());
    }
    r
}

impl Numeric {
    /// Copies a number.
    pub fn copy(&self) -> (r: Numeric)
        ensures
            number_view(r) == number_view(*self),
    {
        match self {
            Numeric::Pos(n) => Numeric::Pos(*n),
            Numeric::Neg(n) => Numeric::Neg(*n),
            Numeric::Real(n) => Numeric::Real(n.copy()),
        }
    }
}

/// Copies an object.
pub fn copy_object(m: &StrMap<Json>) -> (r: StrMap<Json>)
    ensures
        fields(r) == fields(*m),
    decreases *m,
{
    let n = m.len();
    let mut out: Vec<(String, Json)> = Vec::new();
    let ghost e = m.entries();
    proof {
        strmap::lemma_entries(*m);
    }
    let mut i: usize = 0;
    while i < n
        invariant
            i <= n,
            n == e.len(),
            e == m.entries(),
            decreases_to!(*m => e),
            out@.len() == i,
            forall|k: int|
                0 <= k < i ==> (#[trigger] out@[k]).0@ == e[k].0@ && json_view(out@[k].1)
                    == json_view(e[k].1),
        decreases n - i,
    {
        let (key, value) = m.at(i);
        proof {
            assert(decreases_to!(e => e[i as int]));
            assert(decreases_to!(e[i as int] => e[i as int].1));
        }
        let copied = value.copy();
        out.push((key.to_owned(), copied));
        i = i + 1;
    }
    proof {
        lemma_fields_same(out@, e);
    }
    StrMap::from_entries(out)
}

impl Json {
    /// Copies a value.
    pub fn copy(&self) -> (r: Json)
        ensures
            r@ == self@,
        decreases *self,
    {
        match self {
            Json::Null => Json::Null,
            Json::Bool(b) => Json::Bool(*b),
            Json::Numeric(n) => Json::Numeric(n.copy()),
            Json::Text(s) => Json::Text(s.clone()),
            Json::Array(v) => {
                let mut out: Vec<Json> = Vec::new();
                let mut i: usize = 0;
                while i < v.len()
                    invariant
                        i <= v@.len(),
                        out@.len() == i,
                        decreases_to!(*self => v@),
                        forall|k: int|
                            0 <= k < i ==> json_view(#[trigger] out@[k]) == json_view(v@[k]),
                    decreases v@.len() - i,
                {
                    proof {
                        assert(decreases_to!(v@ => v@[i as int]));
                    }
                    let copied = v[i].copy();
                    out.push(copied);
                    i = i + 1;
                }
                proof {
                    lemma_list_view(out@);
                    lemma_list_view(v@);
                    assert(list_view(out@) =~= list_view(v@));
                }
                Json::Array(out)
            },
            Json::Object(m) => Json::Object(copy_object(m)),
        }
    }

    /// The largest whole number that is not above the number a value is, where it is
    /// one, or the nearest to it that fits.
    pub fn floor(&self) -> (r: Option<i64>)
        ensures
            r == floor_spec(self@),
    {
        match self {
            Json::Numeric(Numeric::Pos(n)) => {
                if *n <= i64::MAX as u64 {
                    Some(*n as i64)
                } else {
                    Some(i64::MAX)
                }
            },
            Json::Numeric(Numeric::Neg(n)) => Some(*n),
            Json::Numeric(Numeric::Real(n)) => Some(decimal::floor(n.text().as_str())),
            _ => None,
        }
    }

    /// Tests whether a value is a number, and not above another.
    pub fn is_at_most(&self, n: i64) -> (r: bool)
        ensures
            r == at_most(self@, n),
    {
        match self {
            Json::Numeric(Numeric::Pos(m)) => n >= 0 && *m <= n as u64,
            Json::Numeric(Numeric::Neg(m)) => *m <= n,
            Json::Numeric(Numeric::Real(m)) => decimal::ceil(m.text().as_str()) <= n,
            _ => false,
        }
    }

    /// The truth value a value is, where it is one.
    pub fn as_bool(&self) -> (r: Option<bool>)
        ensures
            r == as_bool_spec(self@),
    {
        match self {
            Json::Bool(b) => Some(*b),
            _ => None,
        }
    }
}

/// The largest whole number that is not above the number a value is, where it is one.
pub open spec fn whole_below(v: JsonView) -> Option<int> {
    match v {
        JsonView::Int(n) => Some(n),
        JsonView::Real(s) => Some(decimal::floor_spec(s)),
        _ => None,
    }
}

/// The largest whole number that is not above the number a value is, where it is one, or
/// the nearest to it that fits.
pub open spec fn floor_spec(v: JsonView) -> Option<i64> {
    match whole_below(v) {
        Some(n) => Some(decimal::clamped(n)),
        None => None,
    }
}

/// Whether a value is a number, and not above another.
pub open spec fn at_most(v: JsonView, n: i64) -> bool {
    match v {
        JsonView::Int(m) => m <= n,
        JsonView::Real(s) => decimal::clamped(decimal::ceil_spec(s)) <= n,
        _ => false,
    }
}

/// The truth value a value is, where it is one.
pub open spec fn as_bool_spec(v: JsonView) -> Option<bool> {
    match v {
        JsonView::Bool(b) => Some(b),
        _ => None,
    }
}

/// `overlay` laid over `base`: two objects merge field by field, anything else
/// is replaced.
pub open spec fn merged(base: JsonView, overlay: JsonView) -> JsonView
    decreases overlay,
{
    match (base, overlay) {
        (JsonView::Object(b), JsonView::Object(o)) => JsonView::Object(
            Map::new(
                |k: Seq<char>| b.contains_key(k) || o.contains_key(k),
                |k: Seq<char>|
                    if o.contains_key(k) {
                        if b.contains_key(k) {
                            merged(b[k], o[k])
                        } else {
                            o[k]
                        }
                    } else {
                        b[k]
                    },
            ),
        ),
        _ => overlay,
    }
}

/// Lays `overlay` over `base`. Two objects merge field by field, so one field can
/// change without the rest being restated; anything else replaces outright.
pub fn merge(base: Json, overlay: Json) -> (r: Json)
    ensures
        r@ == merged(base@, overlay@),
    decreases overlay,
{
    match (base, overlay) {
        (Json::Object(mut b), Json::Object(o)) => {
            let ghost b0 = fields(b);
            let ghost e = o.entries();
            proof {
                strmap::lemma_entries(o);
                assert(decreases_to!(overlay => o));
            }
            let mut left = o.into_entries();
            proof {
                strmap::lemma_ascending_distinct(strmap::keys_of(e));
                strmap::lemma_map_of(e);
                lemma_fields_view(e);
            }
            let ghost of = fields_view(e);
            while left.len() > 0
                invariant
                    e == o.entries(),
                    decreases_to!(overlay => e),
                    of == fields_view(e),
                    strmap::keys_of(e).no_duplicates(),
                    forall|i: int|
                        0 <= i < e.len() ==> of.contains_key((#[trigger] e[i]).0@) && of[e[i].0@]
                            == json_view(e[i].1),
                    left@.len() <= e.len(),
                    left@ == e.take(left@.len() as int),
                    forall|k: Seq<char>| #[trigger]
                        fields(b).contains_key(k) <==> b0.contains_key(k) || exists|i: int|
                            left@.len() <= i < e.len() && (#[trigger] e[i]).0@ == k,
                    forall|i: int|
                        left@.len() <= i < e.len() ==> fields(b)[(#[trigger] e[i]).0@] == (
                        if b0.contains_key(e[i].0@) {
                            merged(b0[e[i].0@], json_view(e[i].1))
                        } else {
                            json_view(e[i].1)
                        }),
                    forall|k: Seq<char>| #[trigger]
                        b0.contains_key(k) && !(exists|i: int|
                            left@.len() <= i < e.len() && (#[trigger] e[i]).0@ == k)
                            ==> fields(b)[k] == b0[k],
                decreases left@.len(),
            {
                let ghost n = left@.len() - 1;
                let popped = left.pop();
                match popped {
                    Some((key, value)) => {
                        let ghost b1 = fields(b);
                        let ghost k0 = key@;
                        proof {
                            assert(e[n] == (key, value));
                            assert(decreases_to!(e => e[n]));
                            assert(decreases_to!(e[n] => e[n].1));
                            assert forall|i: int| n < i < e.len() implies (#[trigger] e[i]).0@
                                != k0 by {
                                assert(strmap::keys_of(e)[i] == e[i].0@);
                                assert(strmap::keys_of(e)[n] == k0);
                            }
                            assert(b1.contains_key(k0) <==> b0.contains_key(k0));
                        }
                        let existing = drop_field(&mut b, key.as_str());
                        let value2 = match existing {
                            Some(old_value) => merge(old_value, value),
                            None => value,
                        };
                        let ghost said = value2@;
                        put_field(&mut b, key, value2);
                        proof {
                            assert(fields(b) =~= b1.insert(k0, said));
                            assert forall|k: Seq<char>| #[trigger]
                                fields(b).contains_key(k) <==> b0.contains_key(k) || exists|i: int|
                                    n <= i < e.len() && (#[trigger] e[i]).0@ == k by {
                                if k == k0 {
                                    assert(e[n].0@ == k);
                                } else {
                                    assert(fields(b).contains_key(k) == b1.contains_key(k));
                                    if exists|i: int| n <= i < e.len() && (#[trigger] e[i]).0@ == k {
                                        let i = choose|i: int|
                                            n <= i < e.len() && (#[trigger] e[i]).0@ == k;
                                        assert(n < i);
                                    }
                                }
                            }
                        }
                    },
                    None => {},
                }
            }
            proof {
                let whole = merged(JsonView::Object(b0), JsonView::Object(of))->Object_0;
                assert forall|k: Seq<char>| #[trigger]
                    fields(b).contains_key(k) <==> whole.contains_key(k) by {
                    if of.contains_key(k) {
                        let i = choose|i: int|
                            0 <= i < strmap::keys_of(e).len() && strmap::keys_of(e)[i] == k;
                        assert(e[i].0@ == k);
                    }
                }
                assert forall|k: Seq<char>| whole.contains_key(k) implies fields(b)[k]
                    == whole[k] by {
                    assert(fields(b).contains_key(k));
                    if of.contains_key(k) {
                        let i = choose|i: int|
                            0 <= i < strmap::keys_of(e).len() && strmap::keys_of(e)[i] == k;
                        assert(e[i].0@ == k);
                    } else {
                        assert(b0.contains_key(k));
                    }
                }
                assert(fields(b) =~= whole);
            }
            Json::Object(b)
        },
        (_, overlay) => overlay,
    }
}

/// Laying settings over settings changes what the overlay names and nothing else: a
/// field it does not name stands, a field only it names is taken, two objects under one
/// name merge in turn, and anything else under one name is replaced.
pub proof fn law_an_overlay_changes_what_it_names(
    base: Map<Seq<char>, JsonView>,
    overlay: Map<Seq<char>, JsonView>,
    key: Seq<char>,
)
    ensures
        merged(JsonView::Object(base), JsonView::Object(overlay)) is Object,
        ({
            let r = merged(JsonView::Object(base), JsonView::Object(overlay))->Object_0;
            &&& r.contains_key(key) == (base.contains_key(key) || overlay.contains_key(key))
            &&& base.contains_key(key) && !overlay.contains_key(key) ==> r[key] == base[key]
            &&& !base.contains_key(key) && overlay.contains_key(key) ==> r[key] == overlay[key]
            &&& base.contains_key(key) && overlay.contains_key(key) ==> r[key] == merged(
                base[key],
                overlay[key],
            )
            &&& base.contains_key(key) && overlay.contains_key(key) && !(base[key] is Object
                && overlay[key] is Object) ==> r[key] == overlay[key]
        }),
{
    reveal_with_fuel(merged, 2);
}

/// Laying nothing over an object leaves it as it is.
pub proof fn law_an_empty_overlay_changes_nothing(base: Map<Seq<char>, JsonView>)
    ensures
        merged(JsonView::Object(base), JsonView::Object(Map::empty())) == JsonView::Object(base),
{
    law_an_overlay_changes_what_it_names(base, Map::empty(), Seq::empty());
    let r = merged(JsonView::Object(base), JsonView::Object(Map::empty()))->Object_0;
    assert(r =~= base);
}

} // verus!
