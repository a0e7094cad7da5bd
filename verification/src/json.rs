//! JSON values as plain data. Numbers keep their text.
use vstd::prelude::*;
use crate::numeral;
use crate::numeral::{parse_i64, parse_micros, parse_size};
use crate::text::same;

verus! {

/// A JSON value.
#[derive(Debug)]
pub enum Json {
    Null,
    Bool(bool),
    /// The number's text.
    Num(String),
    Str(String),
    Arr(Vec<Json>),
    /// The fields, each key once.
    Obj(Vec<(String, Json)>),
}

/// A JSON value, as the contracts see it.
pub enum JsonV {
    Null,
    Bool(bool),
    Num(Seq<char>),
    Str(Seq<char>),
    Arr(Seq<JsonV>),
    Obj(Seq<(Seq<char>, JsonV)>),
}

impl Json {
    /// The value, as the contracts see it.
    pub open spec fn view(&self) -> JsonV
        decreases self,
    {
        match self {
            Json::Null => JsonV::Null,
            Json::Bool(b) => JsonV::Bool(*b),
            Json::Num(s) => JsonV::Num(s@),
            Json::Str(s) => JsonV::Str(s@),
            Json::Arr(v) => JsonV::Arr(
                Seq::new(
                    v@.len(),
                    |i: int|
                        if 0 <= i < v@.len() {
                            v@[i].view()
                        } else {
                            JsonV::Null
                        },
                ),
            ),
            Json::Obj(v) => JsonV::Obj(
                Seq::new(
                    v@.len(),
                    |i: int|
                        if 0 <= i < v@.len() {
                            (v@[i].0@, v@[i].1.view())
                        } else {
                            (Seq::empty(), JsonV::Null)
                        },
                ),
            ),
        }
    }
}

/// The value of the first field with this key.
pub open spec fn find(fields: Seq<(Seq<char>, JsonV)>, k: Seq<char>) -> Option<JsonV>
    decreases fields.len(),
{
    if fields.len() == 0 {
        None
    } else if fields[0].0 == k {
        Some(fields[0].1)
    } else {
        find(fields.skip(1), k)
    }
}

impl JsonV {
    /// The field of an object.
    pub open spec fn field(self, k: Seq<char>) -> Option<JsonV> {
        match self {
            JsonV::Obj(fs) => find(fs, k),
            _ => None,
        }
    }

    /// The element of an array.
    pub open spec fn elem(self, i: int) -> Option<JsonV> {
        match self {
            JsonV::Arr(v) => if 0 <= i < v.len() {
                Some(v[i])
            } else {
                None
            },
            _ => None,
        }
    }

    /// The characters of a string.
    pub open spec fn text(self) -> Option<Seq<char>> {
        match self {
            JsonV::Str(s) => Some(s),
            _ => None,
        }
    }

    /// The elements of an array.
    pub open spec fn items(self) -> Option<Seq<JsonV>> {
        match self {
            JsonV::Arr(v) => Some(v),
            _ => None,
        }
    }

    /// A number that is an integer.
    pub open spec fn integer(self) -> Option<i64> {
        match self {
            JsonV::Num(t) => fit64(numeral::signed_value(t)),
            _ => None,
        }
    }

    /// A number, in micro-units.
    pub open spec fn number(self) -> Option<i64> {
        match self {
            JsonV::Num(t) => fit64(numeral::micros(t)),
            _ => None,
        }
    }

    /// A number, or a string that spells one, in micro-units as a size.
    pub open spec fn size(self) -> Option<i64> {
        match self {
            JsonV::Num(t) => fit64(numeral::size_micros(t)),
            JsonV::Str(t) => fit64(numeral::size_micros(t)),
            _ => None,
        }
    }

    /// A number, or a string that spells one, in micro-units.
    pub open spec fn amount(self) -> Option<i64> {
        match self {
            JsonV::Num(t) => fit64(numeral::micros(t)),
            JsonV::Str(t) => fit64(numeral::micros(t)),
            _ => None,
        }
    }
}

/// A number that fits in `i64`.
pub open spec fn fit64(x: Option<int>) -> Option<i64> {
    match x {
        Some(v) => if i64::MIN <= v <= i64::MAX {
            Some(v as i64)
        } else {
            None
        },
        None => None,
    }
}

/// The field of an object that may be missing.
pub open spec fn at(j: Option<JsonV>, k: Seq<char>) -> Option<JsonV> {
    match j {
        Some(v) => v.field(k),
        None => None,
    }
}

/// The text of a value that may be missing.
pub open spec fn text_at(j: Option<JsonV>) -> Option<Seq<char>> {
    match j {
        Some(v) => v.text(),
        None => None,
    }
}

/// The amount of a value that may be missing.
pub open spec fn amount_at(j: Option<JsonV>) -> Option<i64> {
    match j {
        Some(v) => v.amount(),
        None => None,
    }
}

/// The size of a value that may be missing.
pub open spec fn size_at(j: Option<JsonV>) -> Option<i64> {
    match j {
        Some(v) => v.size(),
        None => None,
    }
}

/// The integer of a value that may be missing.
pub open spec fn integer_at(j: Option<JsonV>) -> Option<i64> {
    match j {
        Some(v) => v.integer(),
        None => None,
    }
}

/// The view of a reference that may be missing.
pub open spec fn seen(j: Option<&Json>) -> Option<JsonV> {
    match j {
        Some(v) => Some(v@),
        None => None,
    }
}

/// The characters of a text that may be missing.
pub open spec fn chars(s: Option<&str>) -> Option<Seq<char>> {
    match s {
        Some(t) => Some(t@),
        None => None,
    }
}

impl Json {
    /// The field of an object.
    pub fn get(&self, k: &str) -> (r: Option<&Json>)
        ensures
            seen(r) == self@.field(k@),
            r matches Some(j) ==> decreases_to!(self => j),
    {
        match self {
            Json::Obj(v) => {
                let ghost fs = self@->Obj_0;
                let n: usize = v.len();
                let mut i: usize = 0;
                assert(fs.skip(0) =~= fs);
                while i < n
                    invariant
                        *self == Json::Obj(*v),
                        n == v@.len(),
                        fs == self@->Obj_0,
                        fs.len() == n,
                        i <= n,
                        find(fs, k@) == find(fs.skip(i as int), k@),
                    decreases n - i,
                {
                    assert(fs.skip(i as int)[0] == fs[i as int]);
                    assert(fs.skip(i as int).skip(1) =~= fs.skip(i + 1));
                    assert(fs[i as int] == (v@[i as int].0@, v@[i as int].1@));
                    if same(v[i].0.as_str(), k) {
                        return Some(&v[i].1);
                    }
                    i = i + 1;
                }
                None
            },
            _ => None,
        }
    }

    /// The element of an array.
    pub fn idx(&self, i: usize) -> (r: Option<&Json>)
        ensures
            seen(r) == self@.elem(i as int),
    {
        match self {
            Json::Arr(v) => if i < v.len() {
                Some(&v[i])
            } else {
                None
            },
            _ => None,
        }
    }

    /// The characters of a string.
    pub fn as_str(&self) -> (r: Option<&str>)
        ensures
            chars(r) == self@.text(),
    {
        match self {
            Json::Str(s) => Some(s.as_str()),
            _ => None,
        }
    }

    /// The elements of an array.
    pub fn as_array(&self) -> (r: Option<&Vec<Json>>)
        ensures
            match r {
                Some(v) => {
                    &&& self@.items() is Some
                    &&& (self@.items()->0).len() == v@.len()
                    &&& forall|i: int| 0 <= i < v@.len() ==> #[trigger] (self@.items()->0)[i] == v@[i]@
                },
                None => self@.items() is None,
            },
    {
        match self {
            Json::Arr(v) => Some(v),
            _ => None,
        }
    }

    /// A number that is an integer.
    pub fn as_i64(&self) -> (r: Option<i64>)
        ensures
            r == self@.integer(),
    {
        match self {
            Json::Num(t) => parse_i64(t.as_str()),
            _ => None,
        }
    }

    /// A number, in micro-units.
    pub fn as_micros(&self) -> (r: Option<i64>)
        ensures
            r == self@.number(),
    {
        match self {
            Json::Num(t) => parse_micros(t.as_str()),
            _ => None,
        }
    }

    /// A number, or a string that spells one, in micro-units as a size.
    pub fn size(&self) -> (r: Option<i64>)
        ensures
            r == self@.size(),
    {
        match self {
            Json::Num(t) => parse_size(t.as_str()),
            Json::Str(t) => parse_size(t.as_str()),
            _ => None,
        }
    }

    /// A number, or a string that spells one, in micro-units.
    pub fn amount(&self) -> (r: Option<i64>)
        ensures
            r == self@.amount(),
    {
        match self {
            Json::Num(t) => parse_micros(t.as_str()),
            Json::Str(t) => parse_micros(t.as_str()),
            _ => None,
        }
    }

    /// Whether the value is true.
    pub fn as_bool(&self) -> (r: Option<bool>)
        ensures
            r == (match self@ {
                JsonV::Bool(b) => Some(b),
                _ => None,
            }),
    {
        match self {
            Json::Bool(b) => Some(*b),
            _ => None,
        }
    }
}

/// The text of a field.
pub fn str_field<'a>(j: &'a Json, k: &str) -> (r: Option<&'a str>)
    ensures
        chars(r) == text_at(j@.field(k@)),
{
    match j.get(k) {
        Some(v) => v.as_str(),
        None => None,
    }
}

/// The amount of a field.
pub fn amount_field(j: &Json, k: &str) -> (r: Option<i64>)
    ensures
        r == amount_at(j@.field(k@)),
{
    match j.get(k) {
        Some(v) => v.amount(),
        None => None,
    }
}

/// The size of a field.
pub fn size_field(j: &Json, k: &str) -> (r: Option<i64>)
    ensures
        r == size_at(j@.field(k@)),
{
    match j.get(k) {
        Some(v) => v.size(),
        None => None,
    }
}

/// The integer of a field.
pub fn i64_field(j: &Json, k: &str) -> (r: Option<i64>)
    ensures
        r == integer_at(j@.field(k@)),
{
    match j.get(k) {
        Some(v) => v.as_i64(),
        None => None,
    }
}

/// The views of a run of fields.
pub open spec fn field_views(s: Seq<(String, Json)>) -> Seq<(Seq<char>, JsonV)> {
    Seq::new(s.len(), |i: int| (s[i].0@, s[i].1@))
}

/// The views of a run of values.
pub open spec fn value_views(s: Seq<Json>) -> Seq<JsonV> {
    Seq::new(s.len(), |i: int| s[i]@)
}

/// The views of a run of texts.
pub open spec fn text_values(s: Seq<Seq<char>>) -> Seq<JsonV> {
    Seq::new(s.len(), |i: int| JsonV::Str(s[i]))
}

/// An object with these fields.
pub fn object(fields: Vec<(String, Json)>) -> (r: Json)
    ensures
        r@ == JsonV::Obj(field_views(fields@)),
{
    let r = Json::Obj(fields);
    assert(r@->Obj_0 =~= field_views(fields@));
    r
}

/// An array of these values.
pub fn array(values: Vec<Json>) -> (r: Json)
    ensures
        r@ == JsonV::Arr(value_views(values@)),
{
    let r = Json::Arr(values);
    assert(r@->Arr_0 =~= value_views(values@));
    r
}

/// A string.
pub fn string(s: &str) -> (r: Json)
    ensures
        r@ == JsonV::Str(s@),
{
    Json::Str(s.to_string())
}

/// A field that holds a string.
pub fn text_pair(k: &str, v: &str) -> (r: (String, Json))
    ensures
        r.0@ == k@,
        r.1@ == JsonV::Str(v@),
{
    (k.to_string(), Json::Str(v.to_string()))
}

/// A field.
pub fn pair(k: &str, v: Json) -> (r: (String, Json))
    ensures
        r.0@ == k@,
        r.1 == v,
{
    (k.to_string(), v)
}

/// A value of `serde_json`.
#[verifier::external_type_specification]
#[verifier::external_body]
pub struct ExValue(serde_json::Value);

/// What a value of `serde_json` holds.
pub uninterp spec fn value_json(v: serde_json::Value) -> JsonV;

/// What `serde_json` reads a text as; nothing where it is not JSON.
pub uninterp spec fn json_text(s: Seq<char>) -> Option<JsonV>;

/// `serde_json::from_str`, which reads a text as JSON. What it reads is a function of the
/// text alone.
#[verifier::external_body]
fn read_value(s: &str) -> (r: Option<serde_json::Value>)
    ensures
        match r {
            Some(v) => json_text(s@) == Some(value_json(v)),
            None => json_text(s@) is None,
        },
{
    serde_json::from_str::<serde_json::Value>(s).ok()
}

/// The contents of a `serde_json::Value`, variant by variant; a number gives the text that
/// its `Display` writes.
#[verifier::external_body]
fn plain(v: serde_json::Value) -> (r: Json)
    ensures
        r@ == value_json(v),
{
    match v {
        serde_json::Value::Null => Json::Null,
        serde_json::Value::Bool(b) => Json::Bool(b),
        serde_json::Value::Number(n) => Json::Num(n.to_string()),
        serde_json::Value::String(s) => Json::Str(s),
        serde_json::Value::Array(a) => Json::Arr(a.into_iter().map(plain).collect()),
        serde_json::Value::Object(o) => {
            Json::Obj(o.into_iter().map(|(k, x)| (k, plain(x))).collect())
        },
    }
}

/// Reads a text as JSON.
pub fn parse(s: &str) -> (r: Option<Json>)
    ensures
        match r {
            Some(j) => json_text(s@) == Some(j@),
            None => json_text(s@) is None,
        },
{
    match read_value(s) {
        Some(v) => Some(plain(v)),
        None => None,
    }
}

} // verus!
