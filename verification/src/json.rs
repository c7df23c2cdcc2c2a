//! A small JSON document model.
//!
//! The upstream quote feed and the persisted watchlist file are both JSON,
//! and the rules of this crate (tolerant field lookup with defaults) are
//! stated and verified over this model. Parsing and printing are done by
//! serde_json behind trusted wrappers; everything that walks a document is
//! verified. Numbers are carried as their decimal text: the quote values are
//! only ever stored and displayed, never computed with, so the text is a
//! faithful stand-in.

use vstd::prelude::*;

verus! {

/// Mathematical view of a JSON document.
#[verifier::ext_equal]
pub enum JsonV {
    Null,
    Bool(bool),
    Num(Seq<char>),
    Str(Seq<char>),
    Arr(Seq<JsonV>),
    Obj(Seq<(Seq<char>, JsonV)>),
}

/// A JSON document. Object members keep the order in which the parser hands
/// them over; lookups take the first member with a matching key.
pub enum JVal {
    Null,
    Bool(bool),
    Num(String),
    Str(String),
    Arr(Vec<JVal>),
    Obj(Vec<(String, JVal)>),
}

pub open spec fn jval_view(v: JVal) -> JsonV
    decreases v,
{
    match v {
        JVal::Null => JsonV::Null,
        JVal::Bool(b) => JsonV::Bool(b),
        JVal::Num(s) => JsonV::Num(s@),
        JVal::Str(s) => JsonV::Str(s@),
        JVal::Arr(a) => JsonV::Arr(jarr_view(a@)),
        JVal::Obj(o) => JsonV::Obj(jobj_view(o@)),
    }
}

pub open spec fn jarr_view(a: Seq<JVal>) -> Seq<JsonV>
    decreases a,
{
    if a.len() == 0 {
        Seq::empty()
    } else {
        seq![jval_view(a[0])] + jarr_view(a.drop_first())
    }
}

pub open spec fn jobj_view(o: Seq<(String, JVal)>) -> Seq<(Seq<char>, JsonV)>
    decreases o,
{
    if o.len() == 0 {
        Seq::empty()
    } else {
        seq![(o[0].0@, jval_view(o[0].1))] + jobj_view(o.drop_first())
    }
}

impl View for JVal {
    type V = JsonV;

    open spec fn view(&self) -> JsonV {
        jval_view(*self)
    }
}

pub proof fn lemma_jarr_view_props(a: Seq<JVal>)
    ensures
        jarr_view(a).len() == a.len(),
        forall|i: int| 0 <= i < a.len() ==> jarr_view(a)[i] == jval_view(a[i]),
    decreases a.len(),
{
    if a.len() > 0 {
        lemma_jarr_view_props(a.drop_first());
        assert forall|i: int| 0 <= i < a.len() implies jarr_view(a)[i] == jval_view(a[i]) by {
            if i > 0 {
                assert(a.drop_first()[i - 1] == a[i]);
            }
        }
    }
}

pub proof fn lemma_jobj_view_props(o: Seq<(String, JVal)>)
    ensures
        jobj_view(o).len() == o.len(),
        forall|i: int| 0 <= i < o.len() ==> jobj_view(o)[i] == (o[i].0@, jval_view(o[i].1)),
    decreases o.len(),
{
    if o.len() > 0 {
        lemma_jobj_view_props(o.drop_first());
        assert forall|i: int| 0 <= i < o.len() implies jobj_view(o)[i] == (o[i].0@, jval_view(
            o[i].1,
        )) by {
            if i > 0 {
                assert(o.drop_first()[i - 1] == o[i]);
            }
        }
    }
}

/// The first member of `o` whose key is `key`, if any.
pub open spec fn obj_lookup(o: Seq<(Seq<char>, JsonV)>, key: Seq<char>) -> Option<JsonV>
    decreases o.len(),
{
    if o.len() == 0 {
        None
    } else if o[0].0 == key {
        Some(o[0].1)
    } else {
        obj_lookup(o.drop_first(), key)
    }
}

/// A reference to the first member of `o` named `key`.
pub fn obj_get<'a>(o: &'a Vec<(String, JVal)>, key: &String) -> (r: Option<&'a JVal>)
    ensures
        match r {
            Some(v) => obj_lookup(jobj_view(o@), key@) == Some(jval_view(*v)),
            None => obj_lookup(jobj_view(o@), key@) is None,
        },
{
    proof {
        lemma_jobj_view_props(o@);
        assert(jobj_view(o@).skip(0) =~= jobj_view(o@));
    }
    let ghost m = jobj_view(o@);
    let mut i: usize = 0;
    while i < o.len()
        invariant
            0 <= i <= o.len(),
            m == jobj_view(o@),
            m.len() == o.len(),
            forall|j: int| 0 <= j < o.len() ==> m[j] == (o@[j].0@, jval_view(o@[j].1)),
            obj_lookup(m, key@) == obj_lookup(m.skip(i as int), key@),
        decreases o.len() - i,
    {
        if o[i].0 == *key {
            proof {
                assert(m.skip(i as int)[0] == m[i as int]);
            }
            return Some(&o[i].1);
        }
        proof {
            assert(m.skip(i as int)[0] == m[i as int]);
            assert(m.skip(i as int).drop_first() =~= m.skip(i as int + 1));
        }
        i += 1;
    }
    proof {
        assert(m.skip(o.len() as int) =~= Seq::empty());
    }
    None
}

/// What serde_json parses a given text into, if anything. Parsing depends on
/// the text alone: object members come back sorted by key with a duplicate
/// key keeping its last value, and each number carries its canonical decimal
/// text.
pub uninterp spec fn parsed_json(s: Seq<char>) -> Option<JsonV>;

/// What serde_json prints a given document as. Printing depends on the
/// document alone.
pub uninterp spec fn json_text(v: JsonV) -> Seq<char>;

pub open spec fn parse_result_view(r: Option<JVal>) -> Option<JsonV> {
    match r {
        Some(v) => Some(jval_view(v)),
        None => None,
    }
}

/// Relies on serde_json::from_str::<Value>: the parse outcome is a function
/// of the input text alone, recorded by the name `parsed_json`.
#[verifier::external_body]
pub(crate) fn parse_json(s: &str) -> (r: Option<JVal>)
    ensures
        parse_result_view(r) == parsed_json(s@),
{
    serde_json::from_str::<serde_json::Value>(s).ok().map(|v| value_to_jval(&v))
}

#[verifier::external_type_specification]
#[verifier::external_body]
pub struct ExValue(serde_json::Value);

/// Relies on serde_json::Value: carries the parsed tree over one node at a
/// time, one arm per variant; a number becomes its decimal text.
#[verifier::external_body]
fn value_to_jval(v: &serde_json::Value) -> JVal {
    match v {
        serde_json::Value::Null => JVal::Null,
        serde_json::Value::Bool(b) => JVal::Bool(*b),
        serde_json::Value::Number(n) => JVal::Num(n.to_string()),
        serde_json::Value::String(s) => JVal::Str(s.clone()),
        serde_json::Value::Array(a) => JVal::Arr(a.iter().map(value_to_jval).collect()),
        serde_json::Value::Object(m) => JVal::Obj(
            m.iter().map(|(k, x)| (k.clone(), value_to_jval(x))).collect(),
        ),
    }
}

/// Relies on serde_json::to_string: printing a Value never fails and its
/// output is a function of the document alone, recorded by the name
/// `json_text`.
#[verifier::external_body]
pub(crate) fn jval_to_string(v: &JVal) -> (r: String)
    ensures
        r@ == json_text(jval_view(*v)),
{
    serde_json::to_string(&jval_to_value(v)).unwrap_or(String::new())
}

/// Relies on serde_json::Value: rebuilds the tree one node at a time, one arm
/// per variant; number text that does not parse back becomes null.
#[verifier::external_body]
fn jval_to_value(v: &JVal) -> serde_json::Value {
    match v {
        JVal::Null => serde_json::Value::Null,
        JVal::Bool(b) => serde_json::Value::Bool(*b),
        JVal::Num(s) => s.parse::<serde_json::Number>().map(serde_json::Value::Number).unwrap_or(
            serde_json::Value::Null,
        ),
        JVal::Str(s) => serde_json::Value::String(s.clone()),
        JVal::Arr(a) => serde_json::Value::Array(a.iter().map(jval_to_value).collect()),
        JVal::Obj(o) => serde_json::Value::Object(
            o.iter().map(|(k, x)| (k.clone(), jval_to_value(x))).collect(),
        ),
    }
}

} // verus!
