//! JSON values.

use serde_json::Value;
use vstd::prelude::*;
use vstd::string::*;

use crate::text;

verus! {

/// A number of a JSON value: a natural number, a negative integer, or the decimal text of any
/// other number.
#[derive(Debug)]
pub enum JsonNumber {
    Unsigned(u64),
    Negative(i64),
    Decimal(String),
}

/// What a number says.
pub enum NumberValue {
    Unsigned(u64),
    Negative(i64),
    Decimal(Seq<char>),
}

impl JsonNumber {
    /// What the number says.
    pub open spec fn model(&self) -> NumberValue {
        match self {
            JsonNumber::Unsigned(n) => NumberValue::Unsigned(*n),
            JsonNumber::Negative(n) => NumberValue::Negative(*n),
            JsonNumber::Decimal(t) => NumberValue::Decimal(t@),
        }
    }
}

impl Clone for JsonNumber {
    fn clone(&self) -> (r: Self)
        ensures
            r == *self,
    {
        match self {
            JsonNumber::Unsigned(n) => JsonNumber::Unsigned(*n),
            JsonNumber::Negative(n) => JsonNumber::Negative(*n),
            JsonNumber::Decimal(t) => JsonNumber::Decimal(t.clone()),
        }
    }
}

/// A JSON value.
#[derive(Debug)]
pub enum Json {
    Null,
    Bool(bool),
    Number(JsonNumber),
    String(String),
    Array(Vec<Json>),
    Object(Vec<(String, Json)>),
}

/// The fields of an object that is being built.
pub struct Fields {
    pub list: Vec<(String, Json)>,
}

impl Fields {
    /// What the fields say.
    pub open spec fn model(&self) -> Seq<(Seq<char>, JsonValue)> {
        field_models(self.list@)
    }

    /// No fields.
    pub fn new() -> (r: Self)
        ensures
            r.model() == Seq::<(Seq<char>, JsonValue)>::empty(),
    {
        let r = Fields { list: Vec::new() };
        assert(r.model() =~= Seq::<(Seq<char>, JsonValue)>::empty());
        r
    }

    /// The same fields and one more.
    pub fn with(self, key: &str, value: Json) -> (r: Self)
        ensures
            r.model() == self.model().push((key@, value.model())),
    {
        let ghost before = self.model();
        let mut list = self.list;
        list.push((key.to_owned(), value));
        let r = Fields { list };
        assert(r.model() =~= before.push((key@, value.model())));
        r
    }

    /// The object with these fields.
    pub fn object(self) -> (r: Json)
        ensures
            r.model() == JsonValue::Object(self.model()),
    {
        Json::object(self.list)
    }
}

/// What a JSON value says.
pub enum JsonValue {
    Null,
    Bool(bool),
    Number(NumberValue),
    String(Seq<char>),
    Array(Seq<JsonValue>),
    Object(Seq<(Seq<char>, JsonValue)>),
}

impl Json {
    /// What the value says.
    pub open spec fn model(&self) -> JsonValue
        decreases self,
    {
        match self {
            Json::Null => JsonValue::Null,
            Json::Bool(b) => JsonValue::Bool(*b),
            Json::Number(n) => JsonValue::Number(n.model()),
            Json::String(s) => JsonValue::String(s@),
            Json::Array(v) => JsonValue::Array(
                Seq::new(
                    v@.len(),
                    |i: int|
                        if 0 <= i < v@.len() {
                            v@[i].model()
                        } else {
                            JsonValue::Null
                        },
                ),
            ),
            Json::Object(v) => JsonValue::Object(
                Seq::new(
                    v@.len(),
                    |i: int|
                        if 0 <= i < v@.len() {
                            (v@[i].0@, v@[i].1.model())
                        } else {
                            (Seq::empty(), JsonValue::Null)
                        },
                ),
            ),
        }
    }
}

impl JsonValue {
    /// The value of a field of an object; of two fields with one name, the later.
    pub open spec fn field(self, key: Seq<char>) -> Option<JsonValue> {
        match self {
            JsonValue::Object(fields) => field_of(fields, key),
            _ => None,
        }
    }

    /// The text of a string.
    pub open spec fn as_text(self) -> Option<Seq<char>> {
        match self {
            JsonValue::String(s) => Some(s),
            _ => None,
        }
    }

    /// The value of a natural number.
    pub open spec fn as_natural(self) -> Option<u64> {
        match self {
            JsonValue::Number(NumberValue::Unsigned(n)) => Some(n),
            _ => None,
        }
    }

    /// The value of an integer that fits 64 bits with a sign.
    pub open spec fn as_integer(self) -> Option<i64> {
        match self {
            JsonValue::Number(NumberValue::Unsigned(n)) => if n <= i64::MAX {
                Some(n as i64)
            } else {
                None
            },
            JsonValue::Number(NumberValue::Negative(n)) => Some(n),
            _ => None,
        }
    }

    /// A truth value.
    pub open spec fn as_truth(self) -> Option<bool> {
        match self {
            JsonValue::Bool(b) => Some(b),
            _ => None,
        }
    }

    /// The items of an array.
    pub open spec fn items(self) -> Option<Seq<JsonValue>> {
        match self {
            JsonValue::Array(v) => Some(v),
            _ => None,
        }
    }
}

/// The value of the last field of a name.
pub open spec fn field_of(fields: Seq<(Seq<char>, JsonValue)>, key: Seq<char>) -> Option<JsonValue>
    decreases fields.len(),
{
    if fields.len() == 0 {
        None
    } else if fields.last().0 == key {
        Some(fields.last().1)
    } else {
        field_of(fields.drop_last(), key)
    }
}

/// A field is read back from an object under its key, as long as no later field has the same key.
pub proof fn lemma_field(fields: Seq<(Seq<char>, JsonValue)>, i: int)
    requires
        0 <= i < fields.len(),
        forall|j: int| i < j < fields.len() ==> (#[trigger] fields[j]).0 != fields[i].0,
    ensures
        field_of(fields, fields[i].0) == Some(fields[i].1),
        JsonValue::Object(fields).field(fields[i].0) == Some(fields[i].1),
    decreases fields.len(),
{
    if i < fields.len() - 1 {
        assert(fields[fields.len() - 1].0 != fields[i].0);
        lemma_field(fields.drop_last(), i);
    }
}

/// What optional values say.
pub open spec fn opt_model(o: Option<&Json>) -> Option<JsonValue> {
    match o {
        Some(j) => Some(j.model()),
        None => None,
    }
}

/// What a list of values says.
pub open spec fn models(v: Seq<Json>) -> Seq<JsonValue> {
    Seq::new(v.len(), |i: int| v[i].model())
}

/// What a list of fields says.
pub open spec fn field_models(v: Seq<(String, Json)>) -> Seq<(Seq<char>, JsonValue)> {
    Seq::new(v.len(), |i: int| (v[i].0@, v[i].1.model()))
}

impl Json {
    /// What an array says, item by item.
    pub proof fn lemma_array_model(v: Vec<Json>)
        ensures
            Json::Array(v).model() == JsonValue::Array(models(v@)),
    {
        assert(Json::Array(v).model()->Array_0 =~= models(v@));
    }

    /// What an object says, field by field.
    pub proof fn lemma_object_model(v: Vec<(String, Json)>)
        ensures
            Json::Object(v).model() == JsonValue::Object(field_models(v@)),
    {
        assert(Json::Object(v).model()->Object_0 =~= field_models(v@));
    }

    /// A string.
    pub fn text(s: &str) -> (r: Json)
        ensures
            r.model() == JsonValue::String(s@),
    {
        Json::String(s.to_owned())
    }

    /// A natural number.
    pub fn natural(n: u64) -> (r: Json)
        ensures
            r.model() == JsonValue::Number(NumberValue::Unsigned(n)),
    {
        Json::Number(JsonNumber::Unsigned(n))
    }

    /// An integer.
    pub fn integer(n: i64) -> (r: Json)
        ensures
            r.model() == integer_value(n),
    {
        if n >= 0 {
            Json::Number(JsonNumber::Unsigned(n as u64))
        } else {
            Json::Number(JsonNumber::Negative(n))
        }
    }

    /// A truth value.
    pub fn truth(b: bool) -> (r: Json)
        ensures
            r.model() == JsonValue::Bool(b),
    {
        Json::Bool(b)
    }

    /// An array.
    pub fn array(v: Vec<Json>) -> (r: Json)
        ensures
            r.model() == JsonValue::Array(models(v@)),
    {
        proof {
            Json::lemma_array_model(v);
        }
        Json::Array(v)
    }

    /// An array of strings.
    pub fn texts(v: &Vec<String>) -> (r: Json)
        ensures
            r.model() == JsonValue::Array(text_values(text::views(v@))),
    {
        let mut out: Vec<Json> = Vec::new();
        let mut i: usize = 0;
        while i < v.len()
            invariant
                i <= v@.len(),
                models(out@) == text_values(text::views(v@).take(i as int)),
            decreases v@.len() - i,
        {
            let ghost before = models(out@);
            out.push(Json::text(v[i].as_str()));
            i += 1;
            assert(models(out@) =~= before.push(JsonValue::String(v@[i - 1]@)));
            assert(models(out@) =~= text_values(text::views(v@).take(i as int)));
        }
        assert(text::views(v@).take(v@.len() as int) =~= text::views(v@));
        Json::array(out)
    }

    /// An object.
    pub fn object(v: Vec<(String, Json)>) -> (r: Json)
        ensures
            r.model() == JsonValue::Object(field_models(v@)),
    {
        proof {
            Json::lemma_object_model(v);
        }
        Json::Object(v)
    }

    /// The value of a field of an object.
    pub fn field(&self, key: &str) -> (r: Option<&Json>)
        ensures
            opt_model(r) == self.model().field(key@),
    {
        match self {
            Json::Object(v) => {
                proof {
                    Json::lemma_object_model(*v);
                }
                let ghost all = field_models(v@);
                let mut i: usize = v.len();
                assert(all.take(i as int) =~= all);
                while i > 0
                    invariant
                        *self == Json::Object(*v),
                        i <= v@.len(),
                        all == field_models(v@),
                        field_of(all, key@) == field_of(all.take(i as int), key@),
                        self.model() == JsonValue::Object(all),
                    decreases i,
                {
                    assert(all.take(i as int).drop_last() =~= all.take(i - 1));
                    assert(all.take(i as int).last() == all[i - 1]);
                    if text::same_text(v[i - 1].0.as_str(), key) {
                        return Some(&v[i - 1].1);
                    }
                    i -= 1;
                }
                None
            },
            _ => None,
        }
    }

    /// The text of a string.
    pub fn as_str(&self) -> (r: Option<&str>)
        ensures
            crate::model::opt_str_view(r) == self.model().as_text(),
    {
        match self {
            Json::String(s) => Some(s.as_str()),
            _ => None,
        }
    }

    /// The value of a natural number.
    pub fn as_u64(&self) -> (r: Option<u64>)
        ensures
            r == self.model().as_natural(),
    {
        match self {
            Json::Number(JsonNumber::Unsigned(n)) => Some(*n),
            _ => None,
        }
    }

    /// The value of an integer.
    pub fn as_i64(&self) -> (r: Option<i64>)
        ensures
            r == self.model().as_integer(),
    {
        match self {
            Json::Number(JsonNumber::Unsigned(n)) => if *n <= 9223372036854775807 {
                Some(*n as i64)
            } else {
                None
            },
            Json::Number(JsonNumber::Negative(n)) => Some(*n),
            _ => None,
        }
    }

    /// A truth value.
    pub fn as_bool(&self) -> (r: Option<bool>)
        ensures
            r == self.model().as_truth(),
    {
        match self {
            Json::Bool(b) => Some(*b),
            _ => None,
        }
    }

    /// The items of an array.
    pub fn as_array(&self) -> (r: Option<&Vec<Json>>)
        ensures
            match r {
                Some(v) => self.model().items() == Some(models(v@)),
                None => self.model().items() is None,
            },
    {
        match self {
            Json::Array(v) => {
                proof {
                    Json::lemma_array_model(*v);
                }
                Some(v)
            },
            _ => None,
        }
    }
}

/// The natural number in a field of a value; 0 if there is none.
pub open spec fn natural_of(v: JsonValue, key: Seq<char>) -> u64 {
    match v.field(key) {
        Some(f) => match f.as_natural() {
            Some(n) => n,
            None => 0,
        },
        None => 0,
    }
}

/// Reads the natural number in a field of a value; 0 if there is none.
pub fn natural_field(j: &Json, key: &str) -> (n: u64)
    ensures
        n == natural_of(j.model(), key@),
{
    match j.field(key) {
        Some(f) => match f.as_u64() {
            Some(n) => n,
            None => 0,
        },
        None => 0,
    }
}

/// The truth value in a field of a value; false if there is none.
pub open spec fn truth_of(v: JsonValue, key: Seq<char>) -> bool {
    match v.field(key) {
        Some(f) => f.as_truth() == Some(true),
        None => false,
    }
}

/// Reads the truth value in a field of a value; false if there is none.
pub fn truth_field(j: &Json, key: &str) -> (b: bool)
    ensures
        b == truth_of(j.model(), key@),
{
    match j.field(key) {
        Some(f) => match f.as_bool() {
            Some(b) => b,
            None => false,
        },
        None => false,
    }
}

/// The text in a field of a value, or another text if there is none.
pub open spec fn text_of(v: JsonValue, key: Seq<char>, default: Seq<char>) -> Seq<char> {
    match v.field(key) {
        Some(f) => match f.as_text() {
            Some(s) => s,
            None => default,
        },
        None => default,
    }
}

/// Reads the text in a field of a value, or another text if there is none.
pub fn text_field(j: &Json, key: &str, default: &str) -> (s: String)
    ensures
        s@ == text_of(j.model(), key@, default@),
{
    match j.field(key) {
        Some(f) => match f.as_str() {
            Some(s) => s.to_owned(),
            None => default.to_owned(),
        },
        None => default.to_owned(),
    }
}

/// A natural number as a value.
pub open spec fn natural_value(n: nat) -> JsonValue {
    JsonValue::Number(NumberValue::Unsigned(n as u64))
}

/// The value of an integer.
pub open spec fn integer_value(n: i64) -> JsonValue {
    if n >= 0 {
        JsonValue::Number(NumberValue::Unsigned(n as u64))
    } else {
        JsonValue::Number(NumberValue::Negative(n))
    }
}

/// A field is read as what it holds, and a field that is not there as what stands for it.
pub proof fn law_fields_read_as_what_they_hold(
    v: JsonValue,
    key: Seq<char>,
    default: Seq<char>,
    s: Seq<char>,
    n: u64,
    b: bool,
)
    ensures
        v.field(key) == Some(JsonValue::String(s)) ==> text_of(v, key, default) == s,
        v.field(key) == Some(natural_value(n as nat)) ==> natural_of(v, key) == n,
        v.field(key) == Some(JsonValue::Bool(b)) ==> truth_of(v, key) == b,
        v.field(key) is None ==> text_of(v, key, default) == default && natural_of(v, key) == 0
            && !truth_of(v, key),
{
}

/// A number is read as it was written, as a natural number where it is one.
pub proof fn law_numbers_are_read_back(n: i64, m: u64)
    ensures
        integer_value(n).as_integer() == Some(n),
        natural_value(m as nat).as_natural() == Some(m),
        n >= 0 ==> integer_value(n).as_natural() == Some(n as u64),
        n < 0 ==> integer_value(n).as_natural() is None,
        m <= i64::MAX ==> natural_value(m as nat).as_integer() == Some(m as i64),
        m > i64::MAX ==> natural_value(m as nat).as_integer() is None,
{
}

/// Texts as values.
pub open spec fn text_values(texts: Seq<Seq<char>>) -> Seq<JsonValue> {
    texts.map_values(|t: Seq<char>| JsonValue::String(t))
}

/// `serde_json::Value`.
#[verifier::external_type_specification]
#[verifier::external_body]
pub struct ExSerdeValue(serde_json::Value);

/// Turns a value into a `serde_json::Value`, variant by variant.
#[verifier::external_body]
fn to_serde(j: &Json) -> Value {
    match j {
        Json::Null => Value::Null,
        Json::Bool(b) => Value::Bool(*b),
        Json::Number(JsonNumber::Unsigned(n)) => Value::from(*n),
        Json::Number(JsonNumber::Negative(n)) => Value::from(*n),
        Json::Number(JsonNumber::Decimal(t)) => t.parse().map_or(Value::Null, Value::Number),
        Json::String(s) => Value::String(s.clone()),
        Json::Array(v) => Value::Array(v.iter().map(to_serde).collect()),
        Json::Object(v) => Value::Object(v.iter().map(|f| (f.0.clone(), to_serde(&f.1))).collect()),
    }
}

/// Turns a `serde_json::Value` into a value, variant by variant.
#[verifier::external_body]
fn from_serde(v: &Value) -> Json {
    match v {
        Value::Null => Json::Null,
        Value::Bool(b) => Json::Bool(*b),
        Value::Number(n) => Json::Number(match (n.as_u64(), n.as_i64()) {
            (Some(u), _) => JsonNumber::Unsigned(u),
            (None, Some(i)) => JsonNumber::Negative(i),
            (None, None) => JsonNumber::Decimal(n.to_string()),
        }),
        Value::String(s) => Json::String(s.clone()),
        Value::Array(a) => Json::Array(a.iter().map(from_serde).collect()),
        Value::Object(m) => Json::Object(m.iter().map(|(k, x)| (k.clone(), from_serde(x))).collect()),
    }
}

/// The value nests arrays and objects at most `depth` deep, and every number in it is written as it
/// is read: whole, and with a sign only if it is below 0.
pub open spec fn readable(v: JsonValue, depth: nat) -> bool
    decreases v,
{
    match v {
        JsonValue::Number(NumberValue::Negative(n)) => n < 0,
        JsonValue::Number(NumberValue::Decimal(_)) => false,
        JsonValue::Array(items) => depth > 0 && forall|i: int|
            0 <= i < items.len() ==> readable(#[trigger] items[i], (depth - 1) as nat),
        JsonValue::Object(fields) => depth > 0 && forall|i: int|
            0 <= i < fields.len() ==> readable((#[trigger] fields[i]).1, (depth - 1) as nat),
        _ => true,
    }
}

/// No later field has the name of field `i`.
pub open spec fn counts(fields: Seq<(Seq<char>, JsonValue)>, i: int) -> bool {
    0 <= i < fields.len() && forall|k: int|
        i < k < fields.len() ==> (#[trigger] fields[k]).0 != fields[i].0
}

/// Two values say the same: the order of an object's fields does not matter, and of fields with one
/// name only the last does.
pub open spec fn same_value(a: JsonValue, b: JsonValue) -> bool
    decreases a,
{
    match (a, b) {
        (JsonValue::Array(x), JsonValue::Array(y)) => x.len() == y.len() && forall|i: int|
            0 <= i < x.len() ==> same_value(#[trigger] x[i], y[i]),
        (JsonValue::Object(x), JsonValue::Object(y)) => {
            &&& forall|i: int| #[trigger]
                counts(x, i) ==> exists|j: int| #[trigger]
                    counts(y, j) && x[i].0 == y[j].0 && same_value(x[i].1, y[j].1)
            &&& forall|j: int| #[trigger]
                counts(y, j) ==> exists|i: int| #[trigger] counts(x, i) && x[i].0 == y[j].0
        },
        _ => a == b,
    }
}

/// What `serde_json` writes for a value, without white space.
pub uninterp spec fn json_text(v: JsonValue) -> Seq<char>;

/// The value that `serde_json` reads from a text, if the text is JSON.
pub uninterp spec fn json_value(s: Seq<char>) -> Option<JsonValue>;

/// `serde_json::Value::to_string` writes a value as compact JSON. The text depends on the value
/// alone. `serde_json::from_str` reads from it what was written, as long as it does not nest deeper
/// than the reader goes; what becomes of a number with a fraction is not stated.
#[verifier::external_body]
pub(crate) fn compact(j: &Json) -> (r: String)
    ensures
        r@ == json_text(j.model()),
        readable(j.model(), 127) ==> json_value(r@) is Some && same_value(
            j.model(),
            json_value(r@)->0,
        ),
{
    to_serde(j).to_string()
}

/// What `serde_json` writes for a value, over several lines.
pub uninterp spec fn pretty_json_text(v: JsonValue) -> Seq<char>;

/// `serde_json::to_string_pretty` writes a value as indented JSON, which cannot fail for a
/// `serde_json::Value`. The text depends on the value alone.
#[verifier::external_body]
pub(crate) fn pretty(j: &Json) -> (r: String)
    ensures
        r@ == pretty_json_text(j.model()),
{
    serde_json::to_string_pretty(&to_serde(j)).unwrap_or_default()
}

/// `serde_json::from_str` reads a text as JSON. Whether it is JSON and which value it holds depends
/// on the text alone.
#[verifier::external_body]
pub(crate) fn parse_json(s: &str) -> (r: Option<Json>)
    ensures
        match r {
            Some(j) => json_value(s@) == Some(j.model()),
            None => json_value(s@) is None,
        },
{
    serde_json::from_str::<Value>(s).ok().map(|v| from_serde(&v))
}

impl Clone for Json {
    fn clone(&self) -> (r: Self)
        ensures
            r.model() == self.model(),
        decreases self,
    {
        match self {
            Json::Null => Json::Null,
            Json::Bool(b) => Json::Bool(*b),
            Json::Number(n) => Json::Number(n.clone()),
            Json::String(s) => Json::String(s.clone()),
            Json::Array(v) => {
                let mut out: Vec<Json> = Vec::new();
                let mut i: usize = 0;
                while i < v.len()
                    invariant
                        *self == Json::Array(*v),
                        i <= v@.len(),
                        out@.len() == i,
                        forall|j: int| 0 <= j < i ==> (#[trigger] out@[j]).model() == v@[j].model(),
                    decreases v@.len() - i,
                {
                    assert(decreases_to!(v@ => v@[i as int]));
                    assert(decreases_to!(v => v@));
                    assert(decreases_to!(*self => self->Array_0));
                    let c = v[i].clone();
                    out.push(c);
                    i += 1;
                }
                let r = Json::Array(out);
                assert(r.model()->Array_0 =~= self.model()->Array_0);
                r
            },
            Json::Object(v) => {
                let mut out: Vec<(String, Json)> = Vec::new();
                let mut i: usize = 0;
                while i < v.len()
                    invariant
                        *self == Json::Object(*v),
                        i <= v@.len(),
                        out@.len() == i,
                        forall|j: int|
                            0 <= j < i ==> (#[trigger] out@[j]).0@ == v@[j].0@ && out@[j].1.model()
                                == v@[j].1.model(),
                    decreases v@.len() - i,
                {
                    assert(decreases_to!(v@ => v@[i as int]));
                    assert(decreases_to!(v => v@));
                    assert(decreases_to!(v@[i as int] => v@[i as int].1));
                    assert(decreases_to!(*self => self->Object_0));
                    let c = v[i].1.clone();
                    out.push((v[i].0.clone(), c));
                    i += 1;
                }
                let r = Json::Object(out);
                assert(r.model()->Object_0 =~= self.model()->Object_0);
                r
            },
        }
    }
}

} // verus!
