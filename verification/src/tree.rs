//! JSON values to and from the trees of `serde_json`.

use crate::json;
use crate::json::{Fraction, Json, JsonView, Numeric};
use crate::strmap;
use crate::strmap::StrMap;
use vstd::prelude::*;

verus! {

/// The JSON tree of `serde_json`.
#[verifier::external_type_specification]
#[verifier::external_body]
pub struct ExValue(serde_json::Value);

/// What a `serde_json` tree says.
pub uninterp spec fn value_view(v: serde_json::Value) -> JsonView;

/// One level of a `serde_json` tree.
pub enum Level {
    Null,
    Bool(bool),
    Pos(u64),
    Neg(i64),
    Real(serde_json::Number),
    Text(String),
    Array(Vec<serde_json::Value>),
    Object(Vec<(String, serde_json::Value)>),
}

/// What the trees in a list say.
pub open spec fn values_view(v: Seq<serde_json::Value>) -> Seq<JsonView> {
    v.map_values(|x: serde_json::Value| value_view(x))
}

/// What the trees under the keys say; where a key stands twice the later entry counts.
pub open spec fn members_view(e: Seq<(String, serde_json::Value)>) -> Map<Seq<char>, JsonView>
    decreases e.len(),
{
    if e.len() == 0 {
        Map::empty()
    } else {
        members_view(e.drop_last()).insert(e.last().0@, value_view(e.last().1))
    }
}

/// What one level says.
pub open spec fn level_view(l: Level) -> JsonView {
    match l {
        Level::Null => JsonView::Null,
        Level::Bool(b) => JsonView::Bool(b),
        Level::Pos(n) => JsonView::Int(n as int),
        Level::Neg(n) => JsonView::Int(n as int),
        Level::Real(n) => JsonView::Real(json::number_text(n)),
        Level::Text(s) => JsonView::Text(s@),
        Level::Array(v) => JsonView::Array(values_view(v@)),
        Level::Object(e) => JsonView::Object(members_view(e@)),
    }
}

/// Takes one level of a `serde_json::Value` apart, variant by variant, with
/// `Number::as_u64` and `Number::as_i64` for a whole number. A number for which both
/// give nothing comes out as it is. The members of an object come out once each.
#[verifier::external_body]
fn open_level(v: serde_json::Value) -> (r: Level)
    ensures
        level_view(r) == value_view(v),
        r matches Level::Real(n) ==> !json::number_whole(n),
{
    match v {
        serde_json::Value::Null => Level::Null,
        serde_json::Value::Bool(b) => Level::Bool(b),
        serde_json::Value::Number(n) => match (n.as_u64(), n.as_i64()) {
            (Some(n), _) => Level::Pos(n),
            (_, Some(n)) => Level::Neg(n),
            _ => Level::Real(n),
        },
        serde_json::Value::String(s) => Level::Text(s),
        serde_json::Value::Array(v) => Level::Array(v),
        serde_json::Value::Object(m) => Level::Object(m.into_iter().collect()),
    }
}

/// Puts one level of a `serde_json::Value` together, variant by variant. A number that is
/// put in as it is must not be a whole one.
#[verifier::external_body]
fn close_level(l: Level) -> (r: serde_json::Value)
    requires
        l matches Level::Real(n) ==> !json::number_whole(n),
    ensures
        value_view(r) == level_view(l),
{
    match l {
        Level::Null => serde_json::Value::Null,
        Level::Bool(b) => serde_json::Value::Bool(b),
        Level::Pos(n) => serde_json::Value::Number(n.into()),
        Level::Neg(n) => serde_json::Value::Number(n.into()),
        Level::Real(n) => serde_json::Value::Number(n),
        Level::Text(s) => serde_json::Value::String(s),
        Level::Array(v) => serde_json::Value::Array(v),
        Level::Object(e) => serde_json::Value::Object(e.into_iter().collect()),
    }
}

/// The members of a list of entries are finitely many.
proof fn lemma_members_finite(e: Seq<(String, serde_json::Value)>)
    ensures
        members_view(e).dom().finite(),
    decreases e.len(),
{
    if e.len() > 0 {
        lemma_members_finite(e.drop_last());
    }
}

/// Reads the members of an object.
fn read_members(members: Vec<(String, serde_json::Value)>) -> (r: StrMap<Json>)
    ensures
        json::fields(r) == members_view(members@),
    decreases members_view(members@), 0nat,
{
    let ghost e = members@;
    let ghost whole = members_view(e);
    proof {
        lemma_members_finite(e);
    }
    let mut left = members;
    let mut out: StrMap<Json> = json::empty_object();
    proof {
        assert(whole.union_prefer_right(json::fields(out)) =~= whole);
    }
    while left.len() > 0
        invariant
            whole == members_view(e),
            whole == members_view(members@),
            whole.dom().finite(),
            members_view(left@).union_prefer_right(json::fields(out)) == whole,
        decreases left@.len(),
    {
        let ghost before = left@;
        let ghost said = json::fields(out);
        let popped = left.pop();
        match popped {
            Some((key, value)) => {
                proof {
                    assert(before.drop_last() =~= left@);
                    assert(before.last() == (key, value));
                }
                if !out.contains_key(key.as_str()) {
                    proof {
                        json::lemma_fields(out);
                        assert(whole.contains_key(key@));
                        assert(whole[key@] == value_view(value));
                        assert(decreases_to!(whole => whole[key@]));
                    }
                    let read = read_value(value);
                    json::put_field(&mut out, key, read);
                } else {
                    proof {
                        json::lemma_fields(out);
                    }
                }
                proof {
                    assert(members_view(left@).union_prefer_right(json::fields(out))
                        =~= members_view(before).union_prefer_right(said));
                }
            },
            None => {},
        }
    }
    proof {
        assert(left@ =~= Seq::empty());
        assert(json::fields(out) =~= whole);
    }
    out
}

/// Reads a tree.
pub fn read_value(v: serde_json::Value) -> (r: Json)
    ensures
        r@ == value_view(v),
    decreases value_view(v), 1nat,
{
    match open_level(v) {
        Level::Null => Json::Null,
        Level::Bool(b) => Json::Bool(b),
        Level::Pos(n) => Json::Numeric(Numeric::Pos(n)),
        Level::Neg(n) => Json::Numeric(Numeric::Neg(n)),
        Level::Real(n) => Json::Numeric(Numeric::Real(Fraction::new(n))),
        Level::Text(s) => Json::Text(s),
        Level::Array(items) => {
            let ghost all = values_view(items@);
            let ghost first = items@;
            let mut left = items;
            let mut backwards: Vec<Json> = Vec::new();
            while left.len() > 0
                invariant
                    all == values_view(first),
                    value_view(v) == JsonView::Array(all),
                    left@.len() + backwards@.len() == first.len(),
                    left@ == first.take(left@.len() as int),
                    forall|k: int|
                        0 <= k < backwards@.len() ==> json::json_view(#[trigger] backwards@[k])
                            == all[first.len() - 1 - k],
                decreases left@.len(),
            {
                let ghost n = left@.len() - 1;
                let popped = left.pop();
                match popped {
                    Some(item) => {
                        proof {
                            assert(item == first[n]);
                            assert(all[n] == value_view(item));
                            assert(decreases_to!(value_view(v) => value_view(v)->Array_0));
                            assert(decreases_to!(all => all[n]));
                        }
                        let read = read_value(item);
                        backwards.push(read);
                    },
                    None => {},
                }
            }
            let mut out: Vec<Json> = Vec::new();
            let ghost total = backwards@;
            while backwards.len() > 0
                invariant
                    total.len() == first.len(),
                    all.len() == first.len(),
                    backwards@.len() + out@.len() == first.len(),
                    backwards@ == total.take(backwards@.len() as int),
                    forall|k: int|
                        0 <= k < total.len() ==> json::json_view(#[trigger] total[k])
                            == all[first.len() - 1 - k],
                    forall|k: int|
                        0 <= k < out@.len() ==> json::json_view(#[trigger] out@[k]) == all[k],
                decreases backwards@.len(),
            {
                let ghost n = backwards@.len() - 1;
                let popped = backwards.pop();
                match popped {
                    Some(item) => {
                        proof {
                            assert(item == total[n]);
                        }
                        out.push(item);
                    },
                    None => {},
                }
            }
            proof {
                json::lemma_list_view(out@);
                assert(json::list_view(out@) =~= all);
            }
            Json::Array(out)
        },
        Level::Object(members) => {
            proof {
                assert(value_view(v) == JsonView::Object(members_view(members@)));
                assert(decreases_to!(value_view(v) => value_view(v)->Object_0));
            }
            Json::Object(read_members(members))
        },
    }
}

/// Writes the fields of an object as members.
fn write_members(m: &StrMap<Json>) -> (r: Vec<(String, serde_json::Value)>)
    ensures
        members_view(r@) == json::fields(*m),
    decreases *m,
{
    let n = m.len();
    let ghost e = m.entries();
    proof {
        strmap::lemma_entries(*m);
        strmap::lemma_ascending_distinct(strmap::keys_of(e));
        strmap::lemma_map_of(e);
        json::lemma_fields(*m);
    }
    let mut out: Vec<(String, serde_json::Value)> = Vec::new();
    let mut i: usize = 0;
    proof {
        assert(e.take(0) =~= Seq::empty());
    }
    while i < n
        invariant
            i <= n,
            n == e.len(),
            e == m.entries(),
            decreases_to!(*m => e),
            members_view(out@) == json::fields_view(e.take(i as int)),
        decreases n - i,
    {
        let (key, value) = m.at(i);
        proof {
            assert(decreases_to!(e => e[i as int]));
            assert(decreases_to!(e[i as int] => e[i as int].1));
        }
        let written = write_value(value);
        let ghost before = out@;
        out.push((key.to_owned(), written));
        proof {
            assert(out@.drop_last() =~= before);
            assert(e.take(i + 1).drop_last() =~= e.take(i as int));
            assert(e.take(i + 1).last() == e[i as int]);
        }
        i = i + 1;
    }
    proof {
        assert(e.take(n as int) =~= e);
    }
    out
}

/// Writes a value as a tree.
pub fn write_value(j: &Json) -> (r: serde_json::Value)
    ensures
        value_view(r) == j@,
    decreases *j,
{
    match j {
        Json::Null => close_level(Level::Null),
        Json::Bool(b) => close_level(Level::Bool(*b)),
        Json::Numeric(Numeric::Pos(n)) => close_level(Level::Pos(*n)),
        Json::Numeric(Numeric::Neg(n)) => close_level(Level::Neg(*n)),
        Json::Numeric(Numeric::Real(n)) => close_level(Level::Real(n.number())),
        Json::Text(s) => close_level(Level::Text(s.clone())),
        Json::Array(v) => {
            let mut out: Vec<serde_json::Value> = Vec::new();
            let mut i: usize = 0;
            proof {
                json::lemma_list_view(v@);
            }
            while i < v.len()
                invariant
                    i <= v@.len(),
                    out@.len() == i,
                    decreases_to!(*j => v@),
                    json::json_view(*j) == JsonView::Array(json::list_view(v@)),
                    json::list_view(v@).len() == v@.len(),
                    forall|k: int|
                        0 <= k < v@.len() ==> #[trigger] json::list_view(v@)[k] == json::json_view(
                            v@[k],
                        ),
                    forall|k: int|
                        0 <= k < i ==> value_view(#[trigger] out@[k]) == json::list_view(v@)[k],
                decreases v@.len() - i,
            {
                proof {
                    assert(decreases_to!(v@ => v@[i as int]));
                }
                let written = write_value(&v[i]);
                out.push(written);
                i = i + 1;
            }
            proof {
                assert(values_view(out@) =~= json::list_view(v@));
            }
            close_level(Level::Array(out))
        },
        Json::Object(m) => close_level(Level::Object(write_members(m))),
    }
}

/// The bytes `serde_json::to_vec` writes a value as, or the text of its error.
pub uninterp spec fn json_bytes(v: JsonView) -> Result<Seq<u8>, Seq<char>>;

/// `serde_json::to_vec` of a `serde_json::Value`. The result is a function of what the
/// value says.
#[verifier::external_body]
fn encode(v: &serde_json::Value) -> (r: Result<Vec<u8>, String>)
    ensures
        match r {
            Ok(b) => json_bytes(value_view(*v)) == Ok::<Seq<u8>, Seq<char>>(b@),
            Err(e) => json_bytes(value_view(*v)) == Err::<Seq<u8>, Seq<char>>(e@),
        },
{
    serde_json::to_vec(v).map_err(|error| error.to_string())
}

/// Writes a value as JSON text.
pub fn to_bytes(j: &Json) -> (r: Result<Vec<u8>, String>)
    ensures
        match r {
            Ok(b) => json_bytes(j@) == Ok::<Seq<u8>, Seq<char>>(b@),
            Err(e) => json_bytes(j@) == Err::<Seq<u8>, Seq<char>>(e@),
        },
{
    encode(&write_value(j))
}

} // verus!
