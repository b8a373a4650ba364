//! JSON values as the library reads and builds them.
use crate::text::{is_among, same, views};
use serde_json::Value;
use vstd::prelude::*;

verus! {

/// The text of a non-integer number, as the JSON parser printed it.
#[derive(Debug)]
pub struct FloatText {
    text: String,
}

/// A negative integer.
#[derive(Debug, Clone, Copy)]
pub struct NegativeInt {
    value: i64,
}

impl NegativeInt {
    #[verifier::type_invariant]
    spec fn is_negative(self) -> bool {
        self.value < 0
    }
}

/// A JSON number: a non-negative integer, a negative integer, or any other.
#[derive(Debug)]
pub enum JsonNumber {
    Unsigned(u64),
    Negative(NegativeInt),
    Float(FloatText),
}

/// A JSON value. In an object a later entry shadows an earlier one of the
/// same key.
#[derive(Debug)]
pub enum Json {
    Null,
    Bool(bool),
    Number(JsonNumber),
    Str(String),
    Arr(Vec<Json>),
    Obj(Vec<(String, Json)>),
}

/// What a [`JsonNumber`] denotes.
pub enum NumberV {
    Unsigned(u64),
    Negative(i64),
    Float(Seq<char>),
}

/// What a [`Json`] denotes.
pub enum JsonV {
    Null,
    Bool(bool),
    Number(NumberV),
    Str(Seq<char>),
    Arr(Seq<JsonV>),
    Obj(Map<Seq<char>, JsonV>),
}

pub closed spec fn float_text(f: FloatText) -> Seq<char> {
    f.text@
}

pub closed spec fn negative_value(n: NegativeInt) -> i64 {
    n.value
}

pub open spec fn number_view(n: JsonNumber) -> NumberV {
    match n {
        JsonNumber::Unsigned(u) => NumberV::Unsigned(u),
        JsonNumber::Negative(i) => NumberV::Negative(negative_value(i)),
        JsonNumber::Float(f) => NumberV::Float(float_text(f)),
    }
}

/// The value that `j` denotes.
pub open spec fn json_view(j: Json) -> JsonV
    decreases j,
{
    match j {
        Json::Null => JsonV::Null,
        Json::Bool(b) => JsonV::Bool(b),
        Json::Number(n) => JsonV::Number(number_view(n)),
        Json::Str(s) => JsonV::Str(s@),
        Json::Arr(items) => JsonV::Arr(items_view(items@)),
        Json::Obj(fields) => JsonV::Obj(fields_view(fields@)),
    }
}

/// The values that a sequence of JSON values denotes.
pub open spec fn items_view(s: Seq<Json>) -> Seq<JsonV>
    decreases s,
{
    if s.len() == 0 {
        Seq::empty()
    } else {
        items_view(s.drop_last()).push(json_view(s.last()))
    }
}

/// The map that a sequence of entries denotes.
pub open spec fn fields_view(s: Seq<(String, Json)>) -> Map<Seq<char>, JsonV>
    decreases s,
{
    if s.len() == 0 {
        Map::empty()
    } else {
        fields_view(s.drop_last()).insert(s.last().0@, json_view(s.last().1))
    }
}

impl View for Json {
    type V = JsonV;

    open spec fn view(&self) -> JsonV {
        json_view(*self)
    }
}

pub broadcast proof fn lemma_items_view(s: Seq<Json>)
    ensures
        #[trigger] items_view(s).len() == s.len(),
        forall|i: int| 0 <= i < s.len() ==> #[trigger] items_view(s)[i] == json_view(s[i]),
    decreases s.len(),
{
    if s.len() > 0 {
        lemma_items_view(s.drop_last());
    }
}

pub broadcast proof fn lemma_items_push(s: Seq<Json>, j: Json)
    ensures
        #[trigger] items_view(s.push(j)) == items_view(s).push(json_view(j)),
{
    assert(s.push(j).drop_last() =~= s);
}

pub broadcast proof fn lemma_fields_push(s: Seq<(String, Json)>, f: (String, Json))
    ensures
        #[trigger] fields_view(s.push(f)) == fields_view(s).insert(f.0@, json_view(f.1)),
{
    assert(s.push(f).drop_last() =~= s);
}

impl JsonV {
    /// The object without fields.
    pub open spec fn object() -> JsonV {
        JsonV::Obj(Map::empty())
    }

    /// The object with field `k` set to `v`, where null counts as the object
    /// without fields; any other value as it is.
    pub open spec fn set(self, k: Seq<char>, v: JsonV) -> JsonV {
        match self {
            JsonV::Obj(m) => JsonV::Obj(m.insert(k, v)),
            JsonV::Null => JsonV::Obj(Map::empty().insert(k, v)),
            _ => self,
        }
    }

    /// The object without the fields of those names; any other value as it is.
    pub open spec fn without(self, names: Seq<Seq<char>>) -> JsonV {
        match self {
            JsonV::Obj(m) => JsonV::Obj(m.remove_keys(names.to_set())),
            _ => self,
        }
    }

    /// The field `k` of an object.
    pub open spec fn get(self, k: Seq<char>) -> Option<JsonV> {
        match self {
            JsonV::Obj(m) => if m.dom().contains(k) {
                Some(m[k])
            } else {
                None
            },
            _ => None,
        }
    }

    pub open spec fn as_str(self) -> Option<Seq<char>> {
        match self {
            JsonV::Str(s) => Some(s),
            _ => None,
        }
    }

    pub open spec fn as_arr(self) -> Option<Seq<JsonV>> {
        match self {
            JsonV::Arr(s) => Some(s),
            _ => None,
        }
    }

    pub open spec fn as_u64(self) -> Option<u64> {
        match self {
            JsonV::Number(NumberV::Unsigned(n)) => Some(n),
            _ => None,
        }
    }

    /// A number as a double; none where the value is no number.
    pub open spec fn as_double(self) -> Option<NumberV> {
        match self {
            JsonV::Number(NumberV::Unsigned(n)) => Some(NumberV::Float(double_text(n as int))),
            JsonV::Number(NumberV::Negative(n)) => Some(NumberV::Float(double_text(n as int))),
            JsonV::Number(NumberV::Float(t)) => Some(NumberV::Float(t)),
            _ => None,
        }
    }

    pub open spec fn as_bool(self) -> Option<bool> {
        match self {
            JsonV::Bool(b) => Some(b),
            _ => None,
        }
    }

    /// The string field `k`.
    pub open spec fn get_str(self, k: Seq<char>) -> Option<Seq<char>> {
        match self.get(k) {
            Some(v) => v.as_str(),
            None => None,
        }
    }

    /// The field `k`; null where there is none.
    pub open spec fn at(self, k: Seq<char>) -> JsonV {
        match self.get(k) {
            Some(v) => v,
            None => JsonV::Null,
        }
    }

    /// The array field `k`.
    pub open spec fn get_arr(self, k: Seq<char>) -> Option<Seq<JsonV>> {
        match self.get(k) {
            Some(v) => v.as_arr(),
            None => None,
        }
    }

    /// A non-negative integer.
    pub open spec fn uint(n: u64) -> JsonV {
        JsonV::Number(NumberV::Unsigned(n))
    }

    /// The array of one value.
    pub open spec fn one(v: JsonV) -> JsonV {
        JsonV::Arr(seq![v])
    }
}

impl Json {
    /// The object without fields.
    pub fn object() -> (r: Json)
        ensures
            r@ == JsonV::object(),
    {
        Json::Obj(Vec::new())
    }

    /// A string value.
    pub fn str(s: &str) -> (r: Json)
        ensures
            r@ == JsonV::Str(s@),
    {
        Json::Str(s.to_owned())
    }

    /// A non-negative integer.
    pub fn uint(n: u64) -> (r: Json)
        ensures
            r@ == JsonV::uint(n),
    {
        Json::Number(JsonNumber::Unsigned(n))
    }

    /// The array of one value.
    pub fn one(v: Json) -> (r: Json)
        ensures
            r@ == JsonV::one(v@),
    {
        let mut items: Vec<Json> = Vec::new();
        proof {
            lemma_items_push(items@, v);
            assert(Seq::<JsonV>::empty().push(v@) =~= seq![v@]);
        }
        items.push(v);
        Json::Arr(items)
    }

    /// The string that this value is.
    pub fn as_str(&self) -> (r: Option<&str>)
        ensures
            match r {
                Some(s) => self@.as_str() == Some(s@),
                None => self@.as_str() is None,
            },
    {
        match self {
            Json::Str(s) => Some(s.as_str()),
            _ => None,
        }
    }

    /// The items of the array that this value is.
    pub fn as_array(&self) -> (r: Option<&Vec<Json>>)
        ensures
            match r {
                Some(v) => self@.as_arr() == Some(items_view(v@)),
                None => self@.as_arr() is None,
            },
    {
        match self {
            Json::Arr(v) => Some(v),
            _ => None,
        }
    }

    /// The non-negative integer that this value is.
    pub fn as_u64(&self) -> (r: Option<u64>)
        ensures
            r == self@.as_u64(),
    {
        match self {
            Json::Number(JsonNumber::Unsigned(n)) => Some(*n),
            _ => None,
        }
    }


    /// The boolean that this value is.
    pub fn as_bool(&self) -> (r: Option<bool>)
        ensures
            r == self@.as_bool(),
    {
        match self {
            Json::Bool(b) => Some(*b),
            _ => None,
        }
    }

    /// The string field `k`.
    pub fn get_str(&self, k: &str) -> (r: Option<&str>)
        ensures
            match r {
                Some(s) => self@.get_str(k@) == Some(s@),
                None => self@.get_str(k@) is None,
            },
    {
        match self.get(k) {
            Some(v) => v.as_str(),
            None => None,
        }
    }

    /// Whether field `k` is the string `s`.
    pub fn field_is(&self, k: &str, s: &str) -> (r: bool)
        ensures
            r == (self@.get_str(k@) == Some(s@)),
    {
        match self.get_str(k) {
            Some(x) => same(x, s),
            None => false,
        }
    }

    /// The items of the array field `k`.
    pub fn get_array(&self, k: &str) -> (r: Option<&Vec<Json>>)
        ensures
            match r {
                Some(v) => self@.get_arr(k@) == Some(items_view(v@)),
                None => self@.get_arr(k@) is None,
            },
    {
        match self.get(k) {
            Some(v) => v.as_array(),
            None => None,
        }
    }

    /// The object with field `k` set to `v`, where null counts as the object
    /// without fields; any other value as it is.
    pub fn set(self, k: &str, v: Json) -> (r: Json)
        ensures
            r@ == self@.set(k@, v@),
    {
        match self {
            Json::Null => {
                let mut fields: Vec<(String, Json)> = Vec::new();
                let key = k.to_owned();
                proof {
                    lemma_fields_push(fields@, (key, v));
                }
                fields.push((key, v));
                Json::Obj(fields)
            },
            Json::Obj(fields) => {
                let mut fields = fields;
                let key = k.to_owned();
                proof {
                    lemma_fields_push(fields@, (key, v));
                }
                fields.push((key, v));
                Json::Obj(fields)
            },
            other => other,
        }
    }

    /// The field `k` of an object.
    pub fn get(&self, k: &str) -> (r: Option<&Json>)
        ensures
            match r {
                Some(v) => self@.get(k@) == Some(v@),
                None => self@.get(k@) is None,
            },
    {
        match self {
            Json::Obj(fields) => {
                let mut i: usize = fields.len();
                assert(fields@.take(i as int) =~= fields@);
                while i > 0
                    invariant
                        *self == Json::Obj(*fields),
                        i <= fields@.len(),
                        fields_view(fields@.take(i as int)).dom().contains(k@) == fields_view(
                            fields@,
                        ).dom().contains(k@),
                        fields_view(fields@.take(i as int)).dom().contains(k@) ==> fields_view(
                            fields@.take(i as int),
                        )[k@] == fields_view(fields@)[k@],
                    decreases i,
                {
                    i = i - 1;
                    assert(fields@.take(i + 1).drop_last() =~= fields@.take(i as int));
                    assert(fields@.take(i + 1).last() == fields@[i as int]);
                    if same(fields[i].0.as_str(), k) {
                        return Some(&fields[i].1);
                    }
                }
                None
            },
            _ => None,
        }
    }

    /// A copy that denotes the same value.
    pub fn dup(&self) -> (r: Json)
        ensures
            r@ == self@,
        decreases *self,
    {
        match self {
            Json::Null => Json::Null,
            Json::Bool(b) => Json::Bool(*b),
            Json::Number(n) => Json::Number(dup_number(n)),
            Json::Str(s) => Json::Str(s.clone()),
            Json::Arr(items) => {
                let mut out: Vec<Json> = Vec::new();
                let mut i: usize = 0;
                while i < items.len()
                    invariant
                        *self == Json::Arr(*items),
                        i <= items@.len(),
                        items_view(out@) == items_view(items@.take(i as int)),
                    decreases items@.len() - i,
                {
                    proof {
                        assert(items@.take(i + 1) =~= items@.take(i as int).push(items@[i as int]));
                        lemma_items_push(items@.take(i as int), items@[i as int]);
                    }
                    assert(decreases_to!(*self => self->Arr_0));
                    assert(decreases_to!(*items => items@));
                    assert(decreases_to!(items@ => items@[i as int]));
                    let copy = items[i].dup();
                    proof {
                        lemma_items_push(out@, copy);
                    }
                    out.push(copy);
                    i = i + 1;
                }
                assert(items@.take(i as int) =~= items@);
                Json::Arr(out)
            },
            Json::Obj(fields) => {
                let mut out: Vec<(String, Json)> = Vec::new();
                let mut i: usize = 0;
                while i < fields.len()
                    invariant
                        *self == Json::Obj(*fields),
                        i <= fields@.len(),
                        fields_view(out@) == fields_view(fields@.take(i as int)),
                    decreases fields@.len() - i,
                {
                    proof {
                        assert(fields@.take(i + 1) =~= fields@.take(i as int).push(
                            fields@[i as int],
                        ));
                        lemma_fields_push(fields@.take(i as int), fields@[i as int]);
                    }
                    let key = fields[i].0.clone();
                    assert(decreases_to!(*self => self->Obj_0));
                    assert(decreases_to!(*fields => fields@));
                    assert(decreases_to!(fields@ => fields@[i as int]));
                    assert(decreases_to!(fields@[i as int] => fields@[i as int].1));
                    let copy = fields[i].1.dup();
                    proof {
                        lemma_fields_push(out@, (key, copy));
                    }
                    out.push((key, copy));
                    i = i + 1;
                }
                assert(fields@.take(i as int) =~= fields@);
                Json::Obj(out)
            },
        }
    }
}

/// A copy that denotes the same number.
pub fn dup_number(n: &JsonNumber) -> (r: JsonNumber)
    ensures
        number_view(r) == number_view(*n),
{
    match n {
        JsonNumber::Unsigned(u) => JsonNumber::Unsigned(*u),
        JsonNumber::Negative(i) => JsonNumber::Negative(*i),
        JsonNumber::Float(f) => JsonNumber::Float(FloatText { text: f.text.clone() }),
    }
}

/// The JSON value type of `serde_json`.
#[verifier::external_type_specification]
#[verifier::external_body]
pub struct ExValue(serde_json::Value);

/// The JSON value that a `serde_json::Value` holds.
pub uninterp spec fn value_content(v: Value) -> JsonV;

/// What `serde_json::from_str` reads out of a text, or its error message.
pub uninterp spec fn json_read(text: Seq<char>) -> Result<JsonV, Seq<char>>;

/// What `serde_json::from_str` reads out of a text; none where it reports an
/// error.
pub open spec fn json_parse(text: Seq<char>) -> Option<JsonV> {
    match json_read(text) {
        Ok(v) => Some(v),
        Err(_) => None,
    }
}

/// What `serde_json::from_slice` reads out of bytes; none where it reports an
/// error.
pub uninterp spec fn json_parse_bytes(bytes: Seq<u8>) -> Option<JsonV>;

/// The compact text that `serde_json::to_string` prints of a value.
pub uninterp spec fn json_text(v: JsonV) -> Seq<char>;

/// Calls `serde_json::from_str`: the result depends on the text alone, and its
/// content, or the message of the error, is named by [`json_read`].
#[verifier::external_body]
fn read_value(text: &str) -> (r: Result<Value, String>)
    ensures
        match r {
            Ok(v) => json_read(text@) == Ok::<JsonV, Seq<char>>(value_content(v)),
            Err(e) => json_read(text@) == Err::<JsonV, Seq<char>>(e@),
        },
{
    match serde_json::from_str(text) {
        Ok(v) => Ok(v),
        Err(e) => Err(e.to_string()),
    }
}

/// Calls `serde_json::from_slice`: the result depends on the bytes alone, and
/// its content is named by [`json_parse_bytes`].
#[verifier::external_body]
fn read_value_bytes(bytes: &[u8]) -> (r: Option<Value>)
    ensures
        match r {
            Some(v) => json_parse_bytes(bytes@) == Some(value_content(v)),
            None => json_parse_bytes(bytes@) is None,
        },
{
    serde_json::from_slice(bytes).ok()
}

/// Prints a `serde_json::Value` compactly, through its `Display`: the text
/// depends on the content alone and is named by [`json_text`].
#[verifier::external_body]
fn write_value(v: &Value) -> (r: String)
    ensures
        r@ == json_text(value_content(*v)),
{
    v.to_string()
}

/// The indented text that `serde_json::to_string_pretty` prints of a value.
pub uninterp spec fn json_pretty(v: JsonV) -> Seq<char>;

/// Prints a `serde_json::Value` indented, through its alternate `Display`,
/// which writes what `serde_json::to_string_pretty` does: the text depends on
/// the content alone and is named by [`json_pretty`].
#[verifier::external_body]
fn write_pretty(v: &Value) -> (r: String)
    ensures
        r@ == json_pretty(value_content(*v)),
{
    format!("{v:#}")
}

/// The double that `serde_json::Value::as_f64` makes of an integer, printed.
pub uninterp spec fn double_text(n: int) -> Seq<char>;

/// Calls `serde_json::Value::as_f64`, and puts the double into a value again.
/// What it makes of an integer depends on the integer alone and is named by
/// [`double_text`]; a double stays the same, and any value but a number gives
/// null.
#[verifier::external_body]
fn as_double_value(v: &Value) -> (r: Value)
    ensures
        match value_content(*v) {
            JsonV::Number(NumberV::Unsigned(n)) => value_content(r) == JsonV::Number(
                NumberV::Float(double_text(n as int)),
            ),
            JsonV::Number(NumberV::Negative(n)) => value_content(r) == JsonV::Number(
                NumberV::Float(double_text(n as int)),
            ),
            JsonV::Number(n) => value_content(r) == JsonV::Number(n),
            _ => value_content(r) is Null,
        },
{
    Value::from(v.as_f64())
}

/// Converts a `serde_json::Value`, variant by variant; the content is the same.
#[verifier::external_body]
fn of_value(v: Value) -> (r: Json)
    ensures
        r@ == value_content(v),
{
    match v {
        Value::Null => Json::Null,
        Value::Bool(b) => Json::Bool(b),
        Value::Number(n) => Json::Number(
            n.as_u64().map(JsonNumber::Unsigned).or(
                n.as_i64().map(|value| JsonNumber::Negative(NegativeInt { value })),
            ).unwrap_or(JsonNumber::Float(FloatText { text: n.to_string() })),
        ),
        Value::String(s) => Json::Str(s),
        Value::Array(items) => Json::Arr(items.into_iter().map(of_value).collect()),
        Value::Object(fields) => Json::Obj(
            fields.into_iter().map(|(k, v)| (k, of_value(v))).collect(),
        ),
    }
}

/// Converts into a `serde_json::Value`, variant by variant; the content is the
/// same. Of two entries of one key the later one is kept, as a `Map` does.
#[verifier::external_body]
fn to_value(j: &Json) -> (r: Value)
    ensures
        value_content(r) == j@,
{
    match j {
        Json::Null => Value::Null,
        Json::Bool(b) => Value::from(*b),
        Json::Number(JsonNumber::Unsigned(n)) => Value::from(*n),
        Json::Number(JsonNumber::Negative(n)) => Value::from(n.value),
        Json::Number(JsonNumber::Float(f)) => Value::from(f.text.parse::<serde_json::Number>().ok()),
        Json::Str(s) => Value::from(s.as_str()),
        Json::Arr(items) => Value::Array(items.iter().map(to_value).collect()),
        Json::Obj(fields) => Value::Object(
            fields.iter().map(|(k, v)| (k.clone(), to_value(v))).collect(),
        ),
    }
}

impl Json {
    /// Reads a JSON text; none where it is not one.
    pub fn parse(text: &str) -> (r: Option<Json>)
        ensures
            match r {
                Some(j) => json_parse(text@) == Some(j@),
                None => json_parse(text@) is None,
            },
    {
        match read_value(text) {
            Ok(v) => Some(of_value(v)),
            Err(_) => None,
        }
    }

    /// A number as a double; none where the value is no number.
    pub fn as_double(&self) -> (r: Option<JsonNumber>)
        ensures
            match r {
                Some(n) => self@.as_double() == Some(number_view(n)),
                None => self@.as_double() is None,
            },
    {
        match of_value(as_double_value(&to_value(self))) {
            Json::Number(n) => Some(n),
            _ => None,
        }
    }

    /// Reads a JSON text, or gives the message of its error.
    pub fn read(text: &str) -> (r: Result<Json, String>)
        ensures
            match r {
                Ok(j) => json_read(text@) == Ok::<JsonV, Seq<char>>(j@),
                Err(e) => json_read(text@) == Err::<JsonV, Seq<char>>(e@),
            },
    {
        match read_value(text) {
            Ok(v) => Ok(of_value(v)),
            Err(e) => Err(e),
        }
    }

    /// Reads JSON bytes; none where they are not JSON.
    pub fn parse_bytes(bytes: &[u8]) -> (r: Option<Json>)
        ensures
            match r {
                Some(j) => json_parse_bytes(bytes@) == Some(j@),
                None => json_parse_bytes(bytes@) is None,
            },
    {
        match read_value_bytes(bytes) {
            Some(v) => Some(of_value(v)),
            None => None,
        }
    }

    /// The compact text of the value.
    pub fn to_text(&self) -> (r: String)
        ensures
            r@ == json_text(self@),
    {
        let v = to_value(self);
        write_value(&v)
    }

    /// The indented text of the value.
    pub fn to_pretty_text(&self) -> (r: String)
        ensures
            r@ == json_pretty(self@),
    {
        let v = to_value(self);
        write_pretty(&v)
    }
}

/// Whether `entries` lists the fields of `m`, each once.
pub open spec fn lists(entries: Seq<(Seq<char>, JsonV)>, m: Map<Seq<char>, JsonV>) -> bool {
    &&& forall|i: int|
        0 <= i < entries.len() ==> m.dom().contains((#[trigger] entries[i]).0) && m[entries[i].0]
            == entries[i].1
    &&& forall|i: int, j: int|
        0 <= i < j < entries.len() ==> (#[trigger] entries[i]).0 != (#[trigger] entries[j]).0
    &&& forall|k: Seq<char>|
        m.dom().contains(k) ==> exists|i: int|
            0 <= i < entries.len() && (#[trigger] entries[i]).0 == k
}

/// What a list of entries denotes, entry by entry.
pub open spec fn entries_view(s: Seq<(String, Json)>) -> Seq<(Seq<char>, JsonV)> {
    Seq::new(s.len(), |i: int| (s[i].0@, s[i].1@))
}

/// Whether no later entry has the key of the `i`-th.
spec fn is_last_of_key(s: Seq<(String, Json)>, i: int) -> bool {
    forall|j: int| i < j < s.len() ==> (#[trigger] s[j]).0@ != s[i].0@
}

proof fn lemma_fields_lookup(s: Seq<(String, Json)>, i: int)
    requires
        0 <= i < s.len(),
        is_last_of_key(s, i),
    ensures
        fields_view(s).dom().contains(s[i].0@),
        fields_view(s)[s[i].0@] == s[i].1@,
    decreases s.len(),
{
    if i < s.len() - 1 {
        let r = s.drop_last();
        assert(s[s.len() - 1].0@ != s[i].0@);
        assert forall|j: int| i < j < r.len() implies (#[trigger] r[j]).0@ != r[i].0@ by {
            assert(r[j] == s[j]);
        }
        lemma_fields_lookup(r, i);
    }
}

proof fn lemma_fields_dom(s: Seq<(String, Json)>, k: Seq<char>)
    requires
        fields_view(s).dom().contains(k),
    ensures
        exists|i: int| 0 <= i < s.len() && (#[trigger] s[i]).0@ == k && is_last_of_key(s, i),
    decreases s.len(),
{
    let last = s.len() - 1;
    if s[last].0@ == k {
        assert(is_last_of_key(s, last));
    } else {
        let r = s.drop_last();
        lemma_fields_dom(r, k);
        let i = choose|i: int|
            0 <= i < r.len() && (#[trigger] r[i]).0@ == k && is_last_of_key(r, i);
        assert(s[i] == r[i]);
        assert forall|j: int| i < j < s.len() implies (#[trigger] s[j]).0@ != s[i].0@ by {
            if j < last {
                assert(r[j] == s[j]);
            }
        }
        assert(is_last_of_key(s, i));
    }
}

impl Json {
    /// The fields of an object, each once; none for any other value.
    pub fn entries(&self) -> (r: Vec<(String, Json)>)
        ensures
            match self@ {
                JsonV::Obj(m) => lists(entries_view(r@), m),
                _ => r@.len() == 0,
            },
    {
        let mut out: Vec<(String, Json)> = Vec::new();
        if let Json::Obj(fields) = self {
            let ghost s = fields@;
            let ghost mut from: Seq<int> = Seq::empty();
            let mut i: usize = 0;
            while i < fields.len()
                invariant
                    *self == Json::Obj(*fields),
                    s == fields@,
                    i <= s.len(),
                    from.len() == out@.len(),
                    forall|a: int|
                        0 <= a < from.len() ==> 0 <= #[trigger] from[a] < i && is_last_of_key(
                            s,
                            from[a],
                        ) && out@[a].0@ == s[from[a]].0@ && out@[a].1@ == s[from[a]].1@,
                    forall|a: int, b: int|
                        0 <= a < b < from.len() ==> #[trigger] from[a] < #[trigger] from[b],
                    forall|k: int|
                        0 <= k < i && #[trigger] is_last_of_key(s, k) ==> exists|a: int|
                            0 <= a < from.len() && #[trigger] from[a] == k,
                decreases s.len() - i,
            {
                let mut last = true;
                let mut j: usize = i + 1;
                while j < fields.len() && last
                    invariant
                        s == fields@,
                        i < j <= s.len(),
                        last ==> forall|l: int| i < l < j ==> (#[trigger] s[l]).0@ != s[i as int].0@,
                        !last ==> !is_last_of_key(s, i as int),
                    decreases s.len() - j,
                {
                    if same(fields[j].0.as_str(), fields[i].0.as_str()) {
                        last = false;
                    }
                    j = j + 1;
                }
                if last {
                    assert(is_last_of_key(s, i as int));
                    let entry = (fields[i].0.clone(), fields[i].1.dup());
                    let ghost old_from = from;
                    proof {
                        from = from.push(i as int);
                    }
                    out.push(entry);
                    proof {
                        assert forall|k: int| 0 <= k < i + 1 && #[trigger] is_last_of_key(
                            s,
                            k,
                        ) implies exists|a: int| 0 <= a < from.len() && #[trigger] from[a] == k by {
                            if k == i {
                                assert(from[from.len() - 1] == k);
                            } else {
                                let a = choose|a: int|
                                    0 <= a < old_from.len() && #[trigger] old_from[a] == k;
                                assert(from[a] == k);
                            }
                        }
                    }
                }
                i = i + 1;
            }
            proof {
                let m = fields_view(s);
                let e = entries_view(out@);
                assert forall|a: int| 0 <= a < e.len() implies m.dom().contains((#[trigger] e[a]).0)
                    && m[e[a].0] == e[a].1 by {
                    assert(0 <= from[a] < s.len());
                    lemma_fields_lookup(s, from[a]);
                }
                assert forall|a: int, b: int| 0 <= a < b < e.len() implies (#[trigger] e[a]).0 != (
                #[trigger] e[b]).0 by {
                    assert(from[a] < from[b]);
                    assert(is_last_of_key(s, from[a]));
                    assert(s[from[b]].0@ != s[from[a]].0@);
                }
                assert forall|k: Seq<char>| m.dom().contains(k) implies exists|a: int|
                    0 <= a < e.len() && (#[trigger] e[a]).0 == k by {
                    lemma_fields_dom(s, k);
                    let i = choose|i: int|
                        0 <= i < s.len() && (#[trigger] s[i]).0@ == k && is_last_of_key(s, i);
                    let a = choose|a: int| 0 <= a < from.len() && #[trigger] from[a] == i;
                    assert(e[a].0 == k);
                }
            }
        }
        out
    }
}

/// Copies that denote the same values.
pub fn dup_items(items: &Vec<Json>) -> (r: Vec<Json>)
    ensures
        items_view(r@) == items_view(items@),
        r@.len() == items@.len(),
{
    let mut out: Vec<Json> = Vec::new();
    let mut i: usize = 0;
    while i < items.len()
        invariant
            i <= items@.len(),
            out@.len() == i,
            items_view(out@) == items_view(items@.take(i as int)),
        decreases items@.len() - i,
    {
        let copy = items[i].dup();
        proof {
            assert(items@.take(i + 1) =~= items@.take(i as int).push(items@[i as int]));
            lemma_items_push(items@.take(i as int), items@[i as int]);
            lemma_items_push(out@, copy);
        }
        out.push(copy);
        i = i + 1;
    }
    assert(items@.take(i as int) =~= items@);
    out
}

impl Json {
    /// The object without the fields of those names; any other value as it is.
    pub fn without(&self, names: &Vec<String>) -> (r: Json)
        ensures
            r@ == self@.without(views(names@)),
    {
        match self {
            Json::Obj(_) => {},
            _ => {
                return self.dup();
            },
        }
        let ghost m = self@->Obj_0;
        let ghost gone = views(names@);
        let entries = self.entries();
        let ghost l = entries_view(entries@);
        let mut out = Json::object();
        let mut i: usize = 0;
        while i < entries.len()
            invariant
                i <= entries@.len(),
                gone == views(names@),
                l == entries_view(entries@),
                lists(l, m),
                out@ is Obj,
                forall|k: Seq<char>| #[trigger]
                    out@->Obj_0.dom().contains(k) <==> !gone.contains(k) && exists|j: int|
                        0 <= j < i && (#[trigger] l[j]).0 == k,
                forall|k: Seq<char>| #[trigger]
                    out@->Obj_0.dom().contains(k) ==> out@->Obj_0[k] == m[k],
            decreases entries@.len() - i,
        {
            let ghost before = out@->Obj_0;
            assert(l[i as int] == (entries@[i as int].0@, entries@[i as int].1@));
            if !is_among(names, entries[i].0.as_str()) {
                out = out.set(entries[i].0.as_str(), entries[i].1.dup());
            }
            proof {
                let after = out@->Obj_0;
                assert forall|k: Seq<char>| #[trigger] after.dom().contains(k) <==> !gone.contains(k)
                    && exists|j: int| 0 <= j < i + 1 && (#[trigger] l[j]).0 == k by {
                    if k != l[i as int].0 && before.dom().contains(k) {
                        let j = choose|j: int| 0 <= j < i && (#[trigger] l[j]).0 == k;
                        assert(l[j].0 == k);
                    }
                }
            }
            i = i + 1;
        }
        proof {
            assert forall|k: Seq<char>| gone.to_set().contains(k) == gone.contains(k) by {}
            assert(out@->Obj_0 =~= m.remove_keys(gone.to_set()));
        }
        out
    }
}

/// What `toml::from_str` reads out of a text, as JSON, or its error message.
pub uninterp spec fn toml_parse(text: Seq<char>) -> Result<JsonV, Seq<char>>;

/// Calls `toml::from_str` for a `serde_json::Value`: the result depends on the
/// text alone, and is named by [`toml_parse`].
#[verifier::external_body]
fn read_toml(text: &str) -> (r: Result<Value, String>)
    ensures
        match r {
            Ok(v) => toml_parse(text@) == Ok::<JsonV, Seq<char>>(value_content(v)),
            Err(e) => toml_parse(text@) == Err::<JsonV, Seq<char>>(e@),
        },
{
    match toml::from_str(text) {
        Ok(v) => Ok(v),
        Err(e) => Err(e.to_string()),
    }
}

impl Json {
    /// Reads a TOML text as JSON, or gives the message of its error.
    pub fn parse_toml(text: &str) -> (r: Result<Json, String>)
        ensures
            match r {
                Ok(j) => toml_parse(text@) == Ok::<JsonV, Seq<char>>(j@),
                Err(e) => toml_parse(text@) == Err::<JsonV, Seq<char>>(e@),
            },
    {
        match read_toml(text) {
            Ok(v) => Ok(of_value(v)),
            Err(e) => Err(e),
        }
    }
}

} // verus!
