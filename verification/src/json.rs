//! Documents in JSON: read by `serde_json`, taken apart here.

use vstd::prelude::*;
use crate::text::{opt_text, text_before, texts};

verus! {

/// What a JSON document says. The members of an object stand in ascending
/// order of their names, each name once.
pub enum Json {
    Null,
    Bool(bool),
    /// The number, where it is whole, not negative and fits.
    Number(Option<u64>),
    Str(Seq<char>),
    Arr(Seq<Json>),
    Obj(Seq<(Seq<char>, Json)>),
}

/// A document as `serde_json` holds it.
#[verifier::external_type_specification]
#[verifier::external_body]
pub struct ExValue(serde_json::Value);

/// What a `serde_json::Value` holds.
pub uninterp spec fn tree(value: serde_json::Value) -> Json;

/// What `serde_json::from_str` reads a text as, or what it says is wrong.
pub uninterp spec fn parsed(text: Seq<char>) -> Result<Json, Seq<char>>;

/// `serde_json::from_str` into a `Value`, its error as text. What comes of it
/// depends on the text alone; which texts it refuses, and what it makes of a name
/// that an object gives twice, is left to it.
#[verifier::external_body]
pub(crate) fn parse(text: &str) -> (r: Result<serde_json::Value, String>)
    ensures
        parsed(text@) == (match r {
            Ok(value) => Ok::<Json, Seq<char>>(tree(value)),
            Err(message) => Err(message@),
        }),
{
    serde_json::from_str(text).map_err(|error| error.to_string())
}

/// `Value::is_null`: true of null alone.
pub assume_specification[ serde_json::Value::is_null ](v: &serde_json::Value) -> (r: bool)
    ensures
        r == (tree(*v) is Null),
;

/// `Value::as_bool`: the truth value, of nothing but a truth value.
pub assume_specification[ serde_json::Value::as_bool ](v: &serde_json::Value) -> (r: Option<bool>)
    ensures
        r == (match tree(*v) {
            Json::Bool(b) => Some(b),
            _ => None,
        }),
;

/// `Value::as_u64`: the number, of a whole number that fits.
pub assume_specification[ serde_json::Value::as_u64 ](v: &serde_json::Value) -> (r: Option<u64>)
    ensures
        r == (match tree(*v) {
            Json::Number(n) => n,
            _ => None,
        }),
;

/// `Value::as_str`: the text, of nothing but a text.
pub assume_specification[ serde_json::Value::as_str ](v: &serde_json::Value) -> (r: Option<&str>)
    ensures
        opt_text(r) == (match tree(*v) {
            Json::Str(s) => Some(s),
            _ => None,
        }),
;

pub open spec fn opt_tree(v: Option<&serde_json::Value>) -> Option<Json> {
    match v {
        Some(value) => Some(tree(*value)),
        None => None,
    }
}

pub open spec fn trees(items: Seq<serde_json::Value>) -> Seq<Json> {
    items.map_values(|v: serde_json::Value| tree(v))
}

/// `Value::as_array`: the items, of nothing but an array.
pub assume_specification[ serde_json::Value::as_array ](v: &serde_json::Value) -> (r: Option<
    &Vec<serde_json::Value>,
>)
    ensures
        match r {
            Some(items) => tree(*v) == Json::Arr(trees(items@)),
            None => !(tree(*v) is Arr),
        },
;

pub open spec fn names(members: Seq<(Seq<char>, Json)>) -> Seq<Seq<char>> {
    members.map_values(|m: (Seq<char>, Json)| m.0)
}

/// The names in strictly ascending order.
pub open spec fn ordered(list: Seq<Seq<char>>) -> bool {
    forall|i: int, j: int| 0 <= i < j < list.len() ==> #[trigger] text_before(list[i], list[j])
}

/// `Value::as_object` and `Map::keys`: the names of an object's members, in the
/// ascending order of the `BTreeMap` behind it.
#[verifier::external_body]
fn member_names(v: &serde_json::Value) -> (r: Option<Vec<String>>)
    ensures
        match r {
            Some(list) => tree(*v) is Obj && texts(list@) == names(tree(*v)->Obj_0) && ordered(
                texts(list@),
            ),
            None => !(tree(*v) is Obj),
        },
{
    v.as_object().map(|members| members.keys().cloned().collect())
}

/// The member of that name.
pub open spec fn lookup(members: Seq<(Seq<char>, Json)>, name: Seq<char>) -> Option<Json>
    decreases members.len(),
{
    if members.len() == 0 {
        None
    } else if members.last().0 == name {
        Some(members.last().1)
    } else {
        lookup(members.drop_last(), name)
    }
}

/// `Value::get` with a name: the member of an object, and nothing of anything
/// else.
#[verifier::external_body]
fn member<'a>(v: &'a serde_json::Value, name: &str) -> (r: Option<&'a serde_json::Value>)
    ensures
        match r {
            Some(value) => tree(*v) is Obj && lookup(tree(*v)->Obj_0, name@) == Some(tree(*value)),
            None => tree(*v) is Obj ==> lookup(tree(*v)->Obj_0, name@) is None,
        },
{
    v.get(name)
}

proof fn lemma_lookup_at(members: Seq<(Seq<char>, Json)>, i: int)
    requires
        ordered(names(members)),
        0 <= i < members.len(),
    ensures
        lookup(members, members[i].0) == Some(members[i].1),
    decreases members.len(),
{
    if i < members.len() - 1 {
        let front = members.drop_last();
        assert(names(members)[i] == members[i].0);
        assert(names(members)[members.len() - 1] == members.last().0);
        assert(text_before(names(members)[i], names(members)[members.len() - 1]));
        crate::text::lemma_text_order(members[i].0, members.last().0);
        assert forall|a: int, b: int| 0 <= a < b < names(front).len() implies #[trigger] text_before(
            names(front)[a],
            names(front)[b],
        ) by {
            assert(names(front)[a] == names(members)[a]);
            assert(names(front)[b] == names(members)[b]);
            assert(text_before(names(members)[a], names(members)[b]));
        }
        lemma_lookup_at(front, i);
    }
}

/// The members of an object, in ascending order of their names.
pub(crate) fn members(v: &serde_json::Value) -> (r: Option<Vec<(String, &serde_json::Value)>>)
    ensures
        match r {
            Some(list) => {
                &&& tree(*v) is Obj
                &&& list@.len() == tree(*v)->Obj_0.len()
                &&& forall|i: int|
                    0 <= i < list@.len() ==> {
                        &&& (#[trigger] list@[i]).0@ == tree(*v)->Obj_0[i].0
                        &&& tree(*list@[i].1) == tree(*v)->Obj_0[i].1
                    }
                &&& ordered(names(tree(*v)->Obj_0))
            },
            None => !(tree(*v) is Obj),
        },
{
    match member_names(v) {
        None => None,
        Some(list) => {
            let ghost all = tree(*v)->Obj_0;
            let mut out: Vec<(String, &serde_json::Value)> = Vec::new();
            let mut i: usize = 0;
            assert(names(all).len() == all.len());
            assert(texts(list@).len() == list@.len());
            while i < list.len()
                invariant
                    i <= list@.len(),
                    tree(*v) is Obj,
                    all == tree(*v)->Obj_0,
                    texts(list@) == names(all),
                    list@.len() == all.len(),
                    ordered(names(all)),
                    out@.len() == i,
                    forall|j: int|
                        0 <= j < i ==> {
                            &&& (#[trigger] out@[j]).0@ == all[j].0
                            &&& tree(*out@[j].1) == all[j].1
                        },
                decreases list@.len() - i,
            {
                proof {
                    assert(texts(list@)[i as int] == list@[i as int]@);
                    assert(names(all)[i as int] == all[i as int].0);
                    lemma_lookup_at(all, i as int);
                }
                match member(v, list[i].as_str()) {
                    Some(value) => {
                        out.push((list[i].clone(), value));
                    },
                    None => {
                        assert(false);
                    },
                }
                i += 1;
            }
            Some(out)
        },
    }
}

/// A record of up to `fields` fields: an object, or its fields in order.
pub open spec fn record(j: Json, fields: nat) -> bool {
    match j {
        Json::Obj(_) => true,
        Json::Arr(items) => items.len() <= fields,
        _ => false,
    }
}

/// The field of a record: the member of that name, or the item at that place.
pub open spec fn field(j: Json, name: Seq<char>, place: int) -> Option<Json> {
    match j {
        Json::Obj(all) => lookup(all, name),
        Json::Arr(items) => if place < items.len() {
            Some(items[place])
        } else {
            None
        },
        _ => None,
    }
}

pub(crate) fn is_record(v: &serde_json::Value, fields: usize) -> (r: bool)
    ensures
        r == record(tree(*v), fields as nat),
{
    match v.as_array() {
        Some(items) => items.len() <= fields,
        None => member_names(v).is_some(),
    }
}

pub(crate) fn field_of<'a>(v: &'a serde_json::Value, name: &str, place: usize) -> (r: Option<
    &'a serde_json::Value,
>)
    ensures
        match r {
            Some(value) => field(tree(*v), name@, place as int) == Some(tree(*value)),
            None => field(tree(*v), name@, place as int) is None,
        },
{
    match v.as_array() {
        Some(items) => if place < items.len() {
            Some(&items[place])
        } else {
            None
        },
        None => member(v, name),
    }
}

/// Every item, where there is one for each.
pub open spec fn every<T>(s: Seq<Option<T>>) -> Option<Seq<T>> {
    if forall|i: int| 0 <= i < s.len() ==> (#[trigger] s[i]) is Some {
        Some(s.map_values(|o: Option<T>| o->0))
    } else {
        None
    }
}

pub open spec fn as_text(j: Json) -> Option<Seq<char>> {
    match j {
        Json::Str(s) => Some(s),
        _ => None,
    }
}

pub open spec fn as_flag(j: Json) -> Option<bool> {
    match j {
        Json::Bool(b) => Some(b),
        _ => None,
    }
}

/// The texts of an array of texts.
pub open spec fn as_texts(j: Json) -> Option<Seq<Seq<char>>> {
    match j {
        Json::Arr(items) => every(items.map_values(|i: Json| as_text(i))),
        _ => None,
    }
}

pub(crate) fn text_items(v: &serde_json::Value) -> (r: Option<Vec<String>>)
    ensures
        (match r {
            Some(list) => Some(texts(list@)),
            None => None,
        }) == as_texts(tree(*v)),
{
    match v.as_array() {
        None => None,
        Some(items) => {
            let ghost read = trees(items@).map_values(|i: Json| as_text(i));
            let mut out: Vec<String> = Vec::new();
            let mut i: usize = 0;
            while i < items.len()
                invariant
                    i <= items@.len(),
                    read == trees(items@).map_values(|i: Json| as_text(i)),
                    out@.len() == i,
                    tree(*v) == Json::Arr(trees(items@)),
                    forall|j: int| 0 <= j < i ==> #[trigger] read[j] == Some(out@[j]@),
                decreases items@.len() - i,
            {
                assert(read[i as int] == as_text(tree(items@[i as int])));
                match items[i].as_str() {
                    Some(s) => {
                        out.push(s.to_owned());
                    },
                    None => {
                        assert(read[i as int] is None);
                        return None;
                    },
                }
                i += 1;
            }
            assert(texts(out@) =~= read.map_values(|o: Option<Seq<char>>| o->0));
            Some(out)
        },
    }
}

} // verus!
