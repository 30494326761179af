//! JSON values.

use vstd::prelude::*;
use vstd::string::*;

use crate::text::{same, texts};

verus! {

/// A number of a JSON document.
#[derive(Debug)]
pub enum Number {
    /// A whole number from zero up.
    Unsigned(u64),
    /// A whole number below zero.
    Negative(i64),
    /// Any other number, as it is written.
    Decimal(String),
}

/// A JSON value. An object that was read has its fields in the order of their names, each once.
#[derive(Debug)]
pub enum Value {
    Null,
    Bool(bool),
    Number(Number),
    Text(String),
    List(Vec<Value>),
    Object(Vec<(String, Value)>),
}

/// What a JSON value stands for.
pub enum Json {
    Null,
    Bool(bool),
    Whole(int),
    Decimal(Seq<char>),
    Text(Seq<char>),
    List(Seq<Json>),
    Object(Seq<(Seq<char>, Json)>),
}

impl Value {
    /// What the value stands for.
    pub open spec fn model(self) -> Json
        decreases self,
    {
        match self {
            Value::Null => Json::Null,
            Value::Bool(b) => Json::Bool(b),
            Value::Number(Number::Unsigned(n)) => Json::Whole(n as int),
            Value::Number(Number::Negative(n)) => Json::Whole(n as int),
            Value::Number(Number::Decimal(s)) => Json::Decimal(s@),
            Value::Text(s) => Json::Text(s@),
            Value::List(items) => Json::List(
                Seq::new(
                    items@.len(),
                    |i: int|
                        if 0 <= i < items@.len() {
                            items@[i].model()
                        } else {
                            Json::Null
                        },
                ),
            ),
            Value::Object(fields) => Json::Object(
                Seq::new(
                    fields@.len(),
                    |i: int|
                        if 0 <= i < fields@.len() {
                            (fields@[i].0@, fields@[i].1.model())
                        } else {
                            (Seq::empty(), Json::Null)
                        },
                ),
            ),
        }
    }
}

impl View for Value {
    type V = Json;

    open spec fn view(&self) -> Json {
        self.model()
    }
}

impl Json {
    /// The value of the first field of that name.
    pub open spec fn field(self, name: Seq<char>) -> Option<Json> {
        match self {
            Json::Object(fields) => field_of(fields, name),
            _ => None,
        }
    }

    /// The value of the field of that name, or nothing where there is none.
    pub open spec fn inner(self, name: Seq<char>) -> Json {
        match self.field(name) {
            Some(v) => v,
            None => Json::Null,
        }
    }

    /// The signed number of the field of that name, or another where there is none.
    pub open spec fn i64_or(self, name: Seq<char>, other: int) -> int {
        match self.whole_at(name, i64::MIN as int, i64::MAX as int) {
            Some(n) => n,
            None => other,
        }
    }

    /// The text, where the value is one.
    pub open spec fn text(self) -> Option<Seq<char>> {
        match self {
            Json::Text(s) => Some(s),
            _ => None,
        }
    }

    /// The truth value, where the value is one.
    pub open spec fn flag(self) -> Option<bool> {
        match self {
            Json::Bool(b) => Some(b),
            _ => None,
        }
    }

    /// The whole number, where the value is one and lies between the bounds.
    pub open spec fn whole_in(self, least: int, greatest: int) -> Option<int> {
        match self {
            Json::Whole(n) => if least <= n <= greatest {
                Some(n)
            } else {
                None
            },
            _ => None,
        }
    }

    /// The items, where the value is a list.
    pub open spec fn list(self) -> Option<Seq<Json>> {
        match self {
            Json::List(items) => Some(items),
            _ => None,
        }
    }

    /// The text of the field of that name.
    pub open spec fn text_at(self, name: Seq<char>) -> Option<Seq<char>> {
        match self.field(name) {
            Some(v) => v.text(),
            None => None,
        }
    }

    /// The text of the field of that name, or nothing where there is none.
    pub open spec fn text_or_empty(self, name: Seq<char>) -> Seq<char> {
        match self.text_at(name) {
            Some(s) => s,
            None => Seq::empty(),
        }
    }

    /// The truth value of the field of that name.
    pub open spec fn flag_at(self, name: Seq<char>) -> Option<bool> {
        match self.field(name) {
            Some(v) => v.flag(),
            None => None,
        }
    }

    /// The whole number of the field of that name, within the bounds.
    pub open spec fn whole_at(self, name: Seq<char>, least: int, greatest: int) -> Option<int> {
        match self.field(name) {
            Some(v) => v.whole_in(least, greatest),
            None => None,
        }
    }

    /// The items of the field of that name, or none where it is no list.
    pub open spec fn list_at(self, name: Seq<char>) -> Seq<Json> {
        match self.field(name) {
            Some(Json::List(items)) => items,
            _ => Seq::empty(),
        }
    }
}

/// What each value of a list stands for.
pub open spec fn models(values: Seq<Value>) -> Seq<Json> {
    values.map_values(|v: Value| v@)
}

/// The name and the meaning of each field of a list.
pub open spec fn field_models(fields: Seq<(String, Value)>) -> Seq<(Seq<char>, Json)> {
    fields.map_values(|f: (String, Value)| (f.0@, f.1@))
}

/// A list stands for what its items stand for.
pub broadcast proof fn list_model(items: Vec<Value>)
    ensures
        #[trigger] Value::List(items)@ == Json::List(models(items@)),
{
    assert(Value::List(items)@->List_0 =~= models(items@));
}

/// An object stands for what its fields stand for.
pub broadcast proof fn object_model(fields: Vec<(String, Value)>)
    ensures
        #[trigger] Value::Object(fields)@ == Json::Object(field_models(fields@)),
{
    assert(Value::Object(fields)@->Object_0 =~= field_models(fields@));
}

pub broadcast group group_models {
    list_model,
    object_model,
}

/// The value of the first of the fields that has the name.
pub open spec fn field_of(fields: Seq<(Seq<char>, Json)>, name: Seq<char>) -> Option<Json>
    decreases fields.len(),
{
    if fields.len() == 0 {
        None
    } else if fields[0].0 == name {
        Some(fields[0].1)
    } else {
        field_of(fields.drop_first(), name)
    }
}

/// Where the names of fields differ, each has its own value.
pub proof fn a_field_is_found(fields: Seq<(Seq<char>, Json)>, k: int)
    requires
        0 <= k < fields.len(),
        forall|a: int, b: int|
            0 <= a < b < fields.len() ==> (#[trigger] fields[a]).0 != (#[trigger] fields[b]).0,
    ensures
        field_of(fields, fields[k].0) == Some(fields[k].1),
    decreases fields.len(),
{
    if k > 0 {
        assert(fields[0].0 != fields[k].0);
        let rest = fields.drop_first();
        assert forall|a: int, b: int| 0 <= a < b < rest.len() implies (#[trigger] rest[a]).0 != (
        #[trigger] rest[b]).0 by {
            assert(fields[a + 1].0 != fields[b + 1].0);
        }
        a_field_is_found(rest, k - 1);
        assert(rest[k - 1] == fields[k]);
    }
}

impl Value {
    /// The value of the field of that name.
    pub fn get(&self, name: &str) -> (r: Option<&Value>)
        ensures
            match r {
                Some(v) => self@.field(name@) == Some(v@),
                None => self@.field(name@) is None,
            },
    {
        match self {
            Value::Object(fields) => {
                let ghost all = self@->Object_0;
                let mut i: usize = 0;
                assert(all.skip(0) =~= all);
                while i < fields.len()
                    invariant
                        i <= fields@.len(),
                        self@ == Json::Object(all),
                        *self == Value::Object(*fields),
                        all.len() == fields@.len(),
                        field_of(all, name@) == field_of(all.skip(i as int), name@),
                    decreases fields.len() - i,
                {
                    assert(all.skip(i as int).drop_first() =~= all.skip(i + 1));
                    assert(all[i as int] == (fields@[i as int].0@, fields@[i as int].1@));
                    if same(fields[i].0.as_str(), name) {
                        return Some(&fields[i].1);
                    }
                    i += 1;
                }
                None
            },
            _ => None,
        }
    }

    /// The value of the field of that name within the field of another.
    pub fn get_in(&self, outer: &str, name: &str) -> (r: Option<&Value>)
        ensures
            match r {
                Some(v) => self@.inner(outer@).field(name@) == Some(v@),
                None => self@.inner(outer@).field(name@) is None,
            },
    {
        match self.get(outer) {
            Some(v) => v.get(name),
            None => None,
        }
    }

    /// The signed number of the field of that name, or another where there is none.
    pub fn i64_or(&self, name: &str, other: i64) -> (r: i64)
        ensures
            r == self@.i64_or(name@, other as int),
    {
        match self.i64_at(name) {
            Some(n) => n,
            None => other,
        }
    }

    /// The text, where the value is one.
    pub fn as_str(&self) -> (r: Option<&str>)
        ensures
            match r {
                Some(s) => self@.text() == Some(s@),
                None => self@.text() is None,
            },
    {
        match self {
            Value::Text(s) => Some(s.as_str()),
            _ => None,
        }
    }

    /// The truth value, where the value is one.
    pub fn as_bool(&self) -> (r: Option<bool>)
        ensures
            r == self@.flag(),
    {
        match self {
            Value::Bool(b) => Some(*b),
            _ => None,
        }
    }

    /// The number, where the value is a whole one that fits.
    pub fn as_i64(&self) -> (r: Option<i64>)
        ensures
            match r {
                Some(n) => self@.whole_in(i64::MIN as int, i64::MAX as int) == Some(n as int),
                None => self@.whole_in(i64::MIN as int, i64::MAX as int) is None,
            },
    {
        match self {
            Value::Number(Number::Unsigned(n)) => if *n <= i64::MAX as u64 {
                Some(*n as i64)
            } else {
                None
            },
            Value::Number(Number::Negative(n)) => Some(*n),
            _ => None,
        }
    }

    /// The number, where the value is a whole one from zero up.
    pub fn as_u64(&self) -> (r: Option<u64>)
        ensures
            match r {
                Some(n) => self@.whole_in(0, u64::MAX as int) == Some(n as int),
                None => self@.whole_in(0, u64::MAX as int) is None,
            },
    {
        match self {
            Value::Number(Number::Unsigned(n)) => Some(*n),
            Value::Number(Number::Negative(n)) => if *n >= 0 {
                Some(*n as u64)
            } else {
                None
            },
            _ => None,
        }
    }

    /// The items, where the value is a list.
    pub fn as_array(&self) -> (r: Option<&Vec<Value>>)
        ensures
            match r {
                Some(items) => self@ == Json::List(models(items@)),
                None => self@.list() is None,
            },
    {
        broadcast use group_models;

        match self {
            Value::List(items) => Some(items),
            _ => None,
        }
    }

    /// The fields, where the value is an object.
    pub fn as_object(&self) -> (r: Option<&Vec<(String, Value)>>)
        ensures
            match r {
                Some(fields) => self@ == Json::Object(field_models(fields@)),
                None => !(self@ is Object),
            },
    {
        broadcast use group_models;

        match self {
            Value::Object(fields) => Some(fields),
            _ => None,
        }
    }

    /// The text of the field of that name.
    pub fn text_at(&self, name: &str) -> (r: Option<String>)
        ensures
            match r {
                Some(s) => self@.text_at(name@) == Some(s@),
                None => self@.text_at(name@) is None,
            },
    {
        match self.get(name) {
            Some(v) => match v.as_str() {
                Some(s) => Some(s.to_owned()),
                None => None,
            },
            None => None,
        }
    }

    /// The text of the field of that name, or nothing.
    pub fn text_or_empty(&self, name: &str) -> (r: String)
        ensures
            r@ == self@.text_or_empty(name@),
    {
        match self.text_at(name) {
            Some(s) => s,
            None => String::new(),
        }
    }

    /// The truth value of the field of that name.
    pub fn flag_at(&self, name: &str) -> (r: Option<bool>)
        ensures
            r == self@.flag_at(name@),
    {
        match self.get(name) {
            Some(v) => v.as_bool(),
            None => None,
        }
    }

    /// The number of the field of that name.
    pub fn i64_at(&self, name: &str) -> (r: Option<i64>)
        ensures
            match r {
                Some(n) => self@.whole_at(name@, i64::MIN as int, i64::MAX as int) == Some(n as int),
                None => self@.whole_at(name@, i64::MIN as int, i64::MAX as int) is None,
            },
    {
        match self.get(name) {
            Some(v) => v.as_i64(),
            None => None,
        }
    }

    /// The number from zero up of the field of that name.
    pub fn u64_at(&self, name: &str) -> (r: Option<u64>)
        ensures
            match r {
                Some(n) => self@.whole_at(name@, 0, u64::MAX as int) == Some(n as int),
                None => self@.whole_at(name@, 0, u64::MAX as int) is None,
            },
    {
        match self.get(name) {
            Some(v) => v.as_u64(),
            None => None,
        }
    }

    /// A value that stands for the same.
    pub fn copy(&self) -> (r: Value)
        ensures
            r@ == self@,
        decreases self,
    {
        broadcast use group_models;

        match self {
            Value::Null => Value::Null,
            Value::Bool(b) => Value::Bool(*b),
            Value::Number(Number::Unsigned(n)) => Value::Number(Number::Unsigned(*n)),
            Value::Number(Number::Negative(n)) => Value::Number(Number::Negative(*n)),
            Value::Number(Number::Decimal(s)) => Value::Number(Number::Decimal(s.clone())),
            Value::Text(s) => Value::Text(s.clone()),
            Value::List(items) => {
                let mut out: Vec<Value> = Vec::new();
                let mut i: usize = 0;
                while i < items.len()
                    invariant
                        *self == Value::List(*items),
                        i <= items@.len(),
                        models(out@) =~= models(items@).take(i as int),
                    decreases items.len() - i,
                {
                    assert(decreases_to!(*self => self->List_0));
                    let item = items[i].copy();
                    let ghost before = models(out@);
                    out.push(item);
                    assert(models(out@) =~= before.push(items@[i as int]@));
                    i += 1;
                }
                assert(models(items@).take(i as int) =~= models(items@));
                Value::List(out)
            },
            Value::Object(fields) => {
                let mut out: Vec<(String, Value)> = Vec::new();
                let mut i: usize = 0;
                while i < fields.len()
                    invariant
                        *self == Value::Object(*fields),
                        i <= fields@.len(),
                        field_models(out@) =~= field_models(fields@).take(i as int),
                    decreases fields.len() - i,
                {
                    assert(decreases_to!(*self => self->Object_0));
                    let item = fields[i].1.copy();
                    let ghost before = field_models(out@);
                    out.push((fields[i].0.clone(), item));
                    assert(field_models(out@) =~= before.push(
                        (fields@[i as int].0@, fields@[i as int].1@),
                    ));
                    i += 1;
                }
                assert(field_models(fields@).take(i as int) =~= field_models(fields@));
                Value::Object(out)
            },
        }
    }
}

/// A text as a value.
pub fn text(s: &str) -> (r: Value)
    ensures
        r@ == Json::Text(s@),
{
    Value::Text(s.to_owned())
}

/// A whole number as a value.
pub fn whole(n: u64) -> (r: Value)
    ensures
        r@ == Json::Whole(n as int),
{
    Value::Number(Number::Unsigned(n))
}

/// A field of an object.
pub fn pair(name: &str, value: Value) -> (r: (String, Value))
    ensures
        r.0@ == name@,
        r.1 == value,
{
    (name.to_owned(), value)
}

/// The object with the given fields.
pub fn object(fields: Vec<(String, Value)>) -> (r: Value)
    ensures
        r@ == Json::Object(field_models(fields@)),
{
    broadcast use group_models;

    Value::Object(fields)
}

/// The list of the given values.
pub fn list(items: Vec<Value>) -> (r: Value)
    ensures
        r@ == Json::List(models(items@)),
{
    broadcast use group_models;

    Value::List(items)
}

/// A list of texts as a value.
pub fn text_list(items: &Vec<String>) -> (r: Value)
    ensures
        r@ == Json::List(texts(items@).map_values(|s: Seq<char>| Json::Text(s))),
{
    let mut out: Vec<Value> = Vec::new();
    let ghost all = texts(items@).map_values(|s: Seq<char>| Json::Text(s));
    let mut i: usize = 0;
    while i < items.len()
        invariant
            i <= items@.len(),
            all == texts(items@).map_values(|s: Seq<char>| Json::Text(s)),
            out@.len() == i,
            forall|k: int| 0 <= k < i ==> (#[trigger] out@[k])@ == all[k],
        decreases items.len() - i,
    {
        out.push(text(items[i].as_str()));
        i += 1;
    }
    assert(models(out@) =~= all);
    list(out)
}

/// The texts among some values.
pub open spec fn texts_among(items: Seq<Json>) -> Seq<Seq<char>>
    decreases items.len(),
{
    if items.len() == 0 {
        Seq::empty()
    } else {
        let before = texts_among(items.drop_last());
        match items.last().text() {
            Some(s) => before.push(s),
            None => before,
        }
    }
}

/// The texts among some values.
pub fn texts_in(items: &Vec<Value>) -> (r: Vec<String>)
    ensures
        texts(r@) == texts_among(models(items@)),
{
    let ghost all = models(items@);
    let mut out: Vec<String> = Vec::new();
    assert(all.take(0) =~= Seq::empty());
    assert(texts(out@) =~= Seq::empty());
    let mut i: usize = 0;
    while i < items.len()
        invariant
            all == models(items@),
            i <= items@.len(),
            texts(out@) == texts_among(all.take(i as int)),
        decreases items.len() - i,
    {
        let ghost before = texts(out@);
        assert(all.take(i + 1).drop_last() =~= all.take(i as int));
        assert(all.take(i + 1).last() == items@[i as int]@);
        if let Some(s) = items[i].as_str() {
            out.push(s.to_owned());
            assert(texts(out@) =~= before.push(s@));
        }
        i += 1;
    }
    assert(all.take(i as int) =~= all);
    out
}

/// The texts among some values are those that are texts, and no others.
pub proof fn texts_are_told_from_the_rest(items: Seq<Json>, s: Seq<char>)
    ensures
        texts_among(items).contains(s) <==> items.contains(Json::Text(s)),
        texts_among(items).len() <= items.len(),
    decreases items.len(),
{
    if items.len() > 0 {
        let front = items.drop_last();
        let before = texts_among(front);
        let all = texts_among(items);
        texts_are_told_from_the_rest(front, s);
        if before.contains(s) {
            let x = choose|x: int| 0 <= x < before.len() && before[x] == s;
            assert(all[x] == s);
            let y = choose|y: int| 0 <= y < front.len() && front[y] == Json::Text(s);
            assert(items[y] == front[y]);
        }
        if items.contains(Json::Text(s)) {
            let y = choose|y: int| 0 <= y < items.len() && items[y] == Json::Text(s);
            if y < front.len() {
                assert(front[y] == items[y]);
            } else {
                assert(all[before.len() as int] == s);
            }
        }
        if all.contains(s) && !before.contains(s) {
            let x = choose|x: int| 0 <= x < all.len() && all[x] == s;
            if x < before.len() {
                assert(before[x] == s);
            }
            assert(items[items.len() - 1] == Json::Text(s));
        }
    }
}

} // verus!
