//! A JSON value as the library reads and builds it (the text itself is parsed and
//! printed by serde_json outside the library).
use vstd::prelude::*;
use crate::text::{chars_of, seq_eq};

verus! {

/// A JSON number: its value when it is a non-negative integer that fits a `u64`
/// (what `as_u64` gives), and its text (what `to_string` gives).
pub struct JsonNumber {
    pub as_u64: Option<u64>,
    pub text: String,
}

pub enum JsonValue {
    Null,
    Bool(bool),
    Number(JsonNumber),
    Str(String),
    Array(Vec<JsonValue>),
    Object(Vec<JsonField>),
}

/// One member of a JSON object.
pub struct JsonField {
    pub key: String,
    pub value: JsonValue,
}

/// The mathematical JSON value: numbers as their `u64` value (if any) and text,
/// objects as their members in order.
pub ghost enum JsonV {
    Null,
    Bool(bool),
    Number(Option<u64>, Seq<char>),
    Str(Seq<char>),
    Array(Seq<JsonV>),
    Object(Seq<(Seq<char>, JsonV)>),
}

pub open spec fn view_of(j: JsonValue) -> JsonV
    decreases j,
{
    match j {
        JsonValue::Null => JsonV::Null,
        JsonValue::Bool(b) => JsonV::Bool(b),
        JsonValue::Number(n) => JsonV::Number(n.as_u64, n.text@),
        JsonValue::Str(s) => JsonV::Str(s@),
        JsonValue::Array(v) => JsonV::Array(views_of(v@)),
        JsonValue::Object(fs) => JsonV::Object(fviews_of(fs@)),
    }
}

pub open spec fn views_of(s: Seq<JsonValue>) -> Seq<JsonV>
    decreases s,
{
    if s.len() == 0 {
        Seq::empty()
    } else {
        views_of(s.drop_last()).push(view_of(s.last()))
    }
}

pub open spec fn fviews_of(s: Seq<JsonField>) -> Seq<(Seq<char>, JsonV)>
    decreases s,
{
    if s.len() == 0 {
        Seq::empty()
    } else {
        fviews_of(s.drop_last()).push((s.last().key@, view_of(s.last().value)))
    }
}

impl View for JsonValue {
    type V = JsonV;

    open spec fn view(&self) -> JsonV {
        view_of(*self)
    }
}

pub proof fn lemma_views_of(s: Seq<JsonValue>)
    ensures
        views_of(s).len() == s.len(),
        forall|i: int| 0 <= i < s.len() ==> #[trigger] views_of(s)[i] == view_of(s[i]),
    decreases s.len(),
{
    if s.len() > 0 {
        lemma_views_of(s.drop_last());
    }
}

pub proof fn lemma_fviews_of(s: Seq<JsonField>)
    ensures
        fviews_of(s).len() == s.len(),
        forall|i: int|
            0 <= i < s.len() ==> #[trigger] fviews_of(s)[i] == (s[i].key@, view_of(s[i].value)),
    decreases s.len(),
{
    if s.len() > 0 {
        lemma_fviews_of(s.drop_last());
    }
}

/// Number of values in `j`, itself included.
pub open spec fn jsize(j: JsonV) -> nat
    decreases j,
{
    match j {
        JsonV::Array(v) => 1 + jsizes(v),
        JsonV::Object(fs) => 1 + fsizes(fs),
        _ => 1,
    }
}

pub open spec fn jsizes(s: Seq<JsonV>) -> nat
    decreases s,
{
    if s.len() == 0 {
        0
    } else {
        jsizes(s.drop_last()) + jsize(s.last())
    }
}

pub open spec fn fsizes(s: Seq<(Seq<char>, JsonV)>) -> nat
    decreases s,
{
    if s.len() == 0 {
        0
    } else {
        fsizes(s.drop_last()) + jsize(s.last().1)
    }
}

/// The value of the first member named `key`.
pub open spec fn field_of(fs: Seq<(Seq<char>, JsonV)>, key: Seq<char>) -> Option<JsonV>
    decreases fs.len(),
{
    if fs.len() == 0 {
        None
    } else if fs[0].0 == key {
        Some(fs[0].1)
    } else {
        field_of(fs.drop_first(), key)
    }
}

/// `Value::get(key)`: the member of an object, `None` for anything else.
pub open spec fn get(j: JsonV, key: Seq<char>) -> Option<JsonV> {
    match j {
        JsonV::Object(fs) => field_of(fs, key),
        _ => None,
    }
}

/// `Value::get(key)` on an optional value.
pub open spec fn get_opt(o: Option<JsonV>, key: Seq<char>) -> Option<JsonV> {
    match o {
        Some(j) => get(j, key),
        None => None,
    }
}

/// `Value::as_str` on an optional value.
pub open spec fn str_of(o: Option<JsonV>) -> Option<Seq<char>> {
    match o {
        Some(JsonV::Str(s)) => Some(s),
        _ => None,
    }
}

/// `Value::as_bool` on an optional value.
pub open spec fn bool_of(o: Option<JsonV>) -> Option<bool> {
    match o {
        Some(JsonV::Bool(b)) => Some(b),
        _ => None,
    }
}

/// `Value::as_u64` on an optional value.
pub open spec fn u64_of(o: Option<JsonV>) -> Option<u64> {
    match o {
        Some(JsonV::Number(n, _)) => n,
        _ => None,
    }
}

/// `Value::as_array` on an optional value.
pub open spec fn array_of(o: Option<JsonV>) -> Option<Seq<JsonV>> {
    match o {
        Some(JsonV::Array(v)) => Some(v),
        _ => None,
    }
}

pub open spec fn opt_view(o: Option<&JsonValue>) -> Option<JsonV> {
    match o {
        Some(v) => Some(v@),
        None => None,
    }
}

pub proof fn lemma_jsizes_elem(s: Seq<JsonV>, i: int)
    requires
        0 <= i < s.len(),
    ensures
        jsize(s[i]) <= jsizes(s),
    decreases s.len(),
{
    if i < s.len() - 1 {
        lemma_jsizes_elem(s.drop_last(), i);
    }
}

proof fn lemma_fsizes_front(fs: Seq<(Seq<char>, JsonV)>)
    requires
        fs.len() > 0,
    ensures
        fsizes(fs) == jsize(fs[0].1) + fsizes(fs.drop_first()),
    decreases fs.len(),
{
    if fs.len() > 1 {
        lemma_fsizes_front(fs.drop_last());
        assert(fs.drop_last().drop_first() =~= fs.drop_first().drop_last());
        assert(fs.drop_last()[0] == fs[0]);
    } else {
        assert(fs.drop_last() =~= Seq::<(Seq<char>, JsonV)>::empty());
        assert(fs.drop_first() =~= Seq::<(Seq<char>, JsonV)>::empty());
    }
}

pub proof fn lemma_field_size(fs: Seq<(Seq<char>, JsonV)>, key: Seq<char>)
    ensures
        field_of(fs, key) matches Some(v) ==> jsize(v) <= fsizes(fs),
    decreases fs.len(),
{
    if fs.len() > 0 {
        lemma_fsizes_front(fs);
        lemma_field_size(fs.drop_first(), key);
    }
}

/// A member's value is smaller than the object holding it.
pub proof fn lemma_get_smaller(j: JsonV, key: Seq<char>)
    ensures
        get(j, key) matches Some(v) ==> jsize(v) < jsize(j),
{
    if let JsonV::Object(fs) = j {
        lemma_field_size(fs, key);
    }
}

impl JsonValue {
    /// `Value::get(key)`.
    pub fn get_field(&self, key: &str) -> (r: Option<&JsonValue>)
        ensures
            opt_view(r) == get(self@, key@),
    {
        match self {
            JsonValue::Object(fs) => {
                let k = chars_of(key);
                let ghost fv = fviews_of(fs@);
                proof {
                    lemma_fviews_of(fs@);
                }
                let mut i: usize = 0;
                assert(fv.skip(0) =~= fv);
                while i < fs.len()
                    invariant
                        i <= fs@.len(),
                        k@ == key@,
                        fv == fviews_of(fs@),
                        fv.len() == fs@.len(),
                        forall|j: int|
                            0 <= j < fs@.len() ==> #[trigger] fv[j] == (fs@[j].key@, view_of(
                                fs@[j].value,
                            )),
                        field_of(fv.skip(i as int), key@) == field_of(fv, key@),
                        get(self@, key@) == field_of(fv, key@),
                    decreases fs@.len() - i,
                {
                    assert(fv.skip(i as int)[0] == fv[i as int]);
                    assert(fv.skip(i as int).drop_first() =~= fv.skip(i + 1));
                    if seq_eq(chars_of(fs[i].key.as_str()).as_slice(), k.as_slice()) {
                        return Some(&fs[i].value);
                    }
                    i = i + 1;
                }
                assert(fv.skip(i as int) =~= Seq::<(Seq<char>, JsonV)>::empty());
                None
            },
            _ => None,
        }
    }

    pub fn is_object(&self) -> (b: bool)
        ensures
            b == (self@ is Object),
    {
        match self {
            JsonValue::Object(_) => true,
            _ => false,
        }
    }
}

/// `Value::as_str`.
pub fn as_str_opt(o: Option<&JsonValue>) -> (r: Option<&String>)
    ensures
        match r {
            Some(s) => str_of(opt_view(o)) == Some(s@),
            None => str_of(opt_view(o)) is None,
        },
{
    match o {
        Some(JsonValue::Str(s)) => Some(s),
        _ => None,
    }
}

/// `Value::as_bool`.
pub fn as_bool_opt(o: Option<&JsonValue>) -> (r: Option<bool>)
    ensures
        r == bool_of(opt_view(o)),
{
    match o {
        Some(JsonValue::Bool(b)) => Some(*b),
        _ => None,
    }
}

/// `Value::as_u64`.
pub fn as_u64_opt(o: Option<&JsonValue>) -> (r: Option<u64>)
    ensures
        r == u64_of(opt_view(o)),
{
    match o {
        Some(JsonValue::Number(n)) => n.as_u64,
        _ => None,
    }
}

/// `Value::as_array`.
pub fn as_array_opt(o: Option<&JsonValue>) -> (r: Option<&Vec<JsonValue>>)
    ensures
        match r {
            Some(v) => array_of(opt_view(o)) == Some(views_of(v@)),
            None => array_of(opt_view(o)) is None,
        },
{
    match o {
        Some(JsonValue::Array(v)) => Some(v),
        _ => None,
    }
}

/// `Value::get(key)` on an optional value.
pub fn get_opt_exec<'a>(o: Option<&'a JsonValue>, key: &str) -> (r: Option<&'a JsonValue>)
    ensures
        opt_view(r) == get_opt(opt_view(o), key@),
{
    match o {
        Some(v) => v.get_field(key),
        None => None,
    }
}

} // verus!
