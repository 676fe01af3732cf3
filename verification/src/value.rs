//! The value model: a tagged tree for parsed JSON documents.
//!
//! `JsonValue` is the executable tree; `Json` is its mathematical model,
//! with text as `Seq<char>` and composite payloads as `Seq`.  A numeric
//! value keeps the accumulated literal text; reading it as a machine float
//! is left to callers, outside this crate's verified core.

use vstd::prelude::*;

verus! {

broadcast use vstd::std_specs::vec::axiom_vec_index_decreases, vstd::std_specs::vec::axiom_vec_decreases_to_view;

/// The mathematical model of a parsed value.
pub enum Json {
    Object(Seq<(Seq<char>, Json)>),
    Array(Seq<Json>),
    String(Seq<char>),
    Number(Seq<char>),
    Bool(bool),
    Null,
}

/// A parsed JSON value: a closed tagged union with six variants.
///
/// An object is an ordered sequence of key/value pairs; keys need not be
/// unique, insertion order is preserved, and lookup returns the first
/// match.  A number keeps the literal text it was written with.
#[derive(Debug, PartialEq)]
pub enum JsonValue {
    Object(Vec<(String, JsonValue)>),
    Array(Vec<JsonValue>),
    String(String),
    Number(String),
    Bool(bool),
    Null,
}

/// The structural errors: the cursor ran out where a character was
/// required, a character violated the grammar, or a numeric literal was
/// malformed.
#[derive(Debug, Clone, Copy, PartialEq, Eq, Structural)]
pub enum JsonError {
    UnexpectedEnd,
    UnexpectedToken,
    InvalidNumber,
}

/// The model of an object's pair vector.
pub open spec fn pairs_model(pv: Seq<(String, JsonValue)>) -> Seq<(Seq<char>, Json)>
    decreases pv,
{
    Seq::new(
        pv.len(),
        |i: int|
            if 0 <= i < pv.len() {
                (pv[i].0@, pv[i].1.model())
            } else {
                arbitrary()
            },
    )
}

/// The model of an array's element vector.
pub open spec fn elems_model(ev: Seq<JsonValue>) -> Seq<Json>
    decreases ev,
{
    Seq::new(
        ev.len(),
        |i: int|
            if 0 <= i < ev.len() {
                ev[i].model()
            } else {
                arbitrary()
            },
    )
}

/// First-match lookup among an object's pairs.
pub open spec fn lookup_pairs(ps: Seq<(Seq<char>, Json)>, k: Seq<char>) -> Option<Json>
    decreases ps.len(),
{
    if ps.len() == 0 {
        None
    } else if ps[0].0 == k {
        Some(ps[0].1)
    } else {
        lookup_pairs(ps.skip(1), k)
    }
}

/// First-match lookup on a value: objects are searched, anything else has
/// no members.
pub open spec fn lookup(m: Json, k: Seq<char>) -> Option<Json> {
    match m {
        Json::Object(ps) => lookup_pairs(ps, k),
        _ => None,
    }
}

/// The pairs with the value of the first match for `k` replaced by `nv`.
pub open spec fn update_pairs(ps: Seq<(Seq<char>, Json)>, k: Seq<char>, nv: Json) -> Seq<
    (Seq<char>, Json),
>
    decreases ps.len(),
{
    if ps.len() == 0 {
        ps
    } else if ps[0].0 == k {
        seq![(ps[0].0, nv)] + ps.skip(1)
    } else {
        seq![ps[0]] + update_pairs(ps.skip(1), k, nv)
    }
}

/// The value with the first match for `k` replaced by `nv`; anything but
/// an object is unchanged.
pub open spec fn replace_first(m: Json, k: Seq<char>, nv: Json) -> Json {
    match m {
        Json::Object(ps) => Json::Object(update_pairs(ps, k, nv)),
        _ => m,
    }
}

pub proof fn lemma_lookup_pairs_first(ps: Seq<(Seq<char>, Json)>, k: Seq<char>, i: int)
    requires
        0 <= i < ps.len(),
        ps[i].0 == k,
        forall|j: int| 0 <= j < i ==> ps[j].0 != k,
    ensures
        lookup_pairs(ps, k) == Some(ps[i].1),
    decreases i,
{
    if i > 0 {
        lemma_lookup_pairs_first(ps.skip(1), k, i - 1);
    }
}

pub proof fn lemma_lookup_pairs_none(ps: Seq<(Seq<char>, Json)>, k: Seq<char>)
    requires
        forall|j: int| 0 <= j < ps.len() ==> ps[j].0 != k,
    ensures
        lookup_pairs(ps, k) is None,
    decreases ps.len(),
{
    if ps.len() > 0 {
        lemma_lookup_pairs_none(ps.skip(1), k);
    }
}

pub proof fn lemma_update_pairs_at(ps: Seq<(Seq<char>, Json)>, k: Seq<char>, nv: Json, i: int)
    requires
        0 <= i < ps.len(),
        ps[i].0 == k,
        forall|j: int| 0 <= j < i ==> ps[j].0 != k,
    ensures
        update_pairs(ps, k, nv) == ps.update(i, (ps[i].0, nv)),
    decreases i,
{
    if i == 0 {
        assert(update_pairs(ps, k, nv) =~= ps.update(0, (ps[0].0, nv)));
    } else {
        lemma_update_pairs_at(ps.skip(1), k, nv, i - 1);
        assert(seq![ps[0]] + ps.skip(1).update(i - 1, (ps[i].0, nv)) =~= ps.update(
            i,
            (ps[i].0, nv),
        ));
    }
}

/// The index of the first pair whose key matches, if any.
fn key_index(obj: &Vec<(String, JsonValue)>, key: &str) -> (r: Option<usize>)
    ensures
        match r {
            Some(i) => i < obj@.len() && obj@[i as int].0@ == key@ && (forall|j: int|
                0 <= j < i ==> obj@[j].0@ != key@),
            None => forall|j: int| 0 <= j < obj@.len() ==> obj@[j].0@ != key@,
        },
{
    let kstr: String = key.to_owned();
    let mut i: usize = 0;
    while i < obj.len()
        invariant
            i <= obj@.len(),
            kstr@ == key@,
            forall|j: int| 0 <= j < i ==> obj@[j].0@ != key@,
        decreases obj@.len() - i,
    {
        if obj[i].0 == kstr {
            return Some(i);
        }
        i = i + 1;
    }
    None
}

impl JsonValue {
    /// The mathematical model of this tree.
    pub open spec fn model(self) -> Json
        decreases self,
    {
        match self {
            JsonValue::Object(pairs) => Json::Object(pairs_model(pairs@)),
            JsonValue::Array(items) => Json::Array(elems_model(items@)),
            JsonValue::String(s) => Json::String(s@),
            JsonValue::Number(lit) => Json::Number(lit@),
            JsonValue::Bool(b) => Json::Bool(b),
            JsonValue::Null => Json::Null,
        }
    }

    /// The pair vector, if this value is an object.
    pub fn get_object(&self) -> (r: Option<&Vec<(String, JsonValue)>>)
        ensures
            r is Some <==> self is Object,
            r is Some ==> *r.unwrap() == self->Object_0,
    {
        if let JsonValue::Object(ref obj) = *self {
            Some(obj)
        } else {
            None
        }
    }

    /// The element vector, if this value is an array.
    pub fn get_array(&self) -> (r: Option<&Vec<JsonValue>>)
        ensures
            r is Some <==> self is Array,
            r is Some ==> *r.unwrap() == self->Array_0,
    {
        if let JsonValue::Array(ref array) = *self {
            Some(array)
        } else {
            None
        }
    }

    /// The text, if this value is a string.
    pub fn get_string(&self) -> (r: Option<&String>)
        ensures
            r is Some <==> self is String,
            r is Some ==> *r.unwrap() == self->String_0,
    {
        if let JsonValue::String(ref s) = *self {
            Some(s)
        } else {
            None
        }
    }

    /// The numeric literal's text, if this value is a number.
    pub fn get_number(&self) -> (r: Option<&String>)
        ensures
            r is Some <==> self is Number,
            r is Some ==> *r.unwrap() == self->Number_0,
    {
        if let JsonValue::Number(ref lit) = *self {
            Some(lit)
        } else {
            None
        }
    }

    /// The boolean, if this value is a boolean.
    pub fn get_bool(&self) -> (r: Option<bool>)
        ensures
            r is Some <==> self is Bool,
            r is Some ==> r.unwrap() == self->Bool_0,
    {
        if let JsonValue::Bool(b) = *self {
            Some(b)
        } else {
            None
        }
    }

    /// Whether this value is the null value.
    pub fn is_null(&self) -> (r: bool)
        ensures
            r == (self is Null),
    {
        if let JsonValue::Null = *self {
            true
        } else {
            false
        }
    }

    /// The first member under `key`, if this value is an object holding
    /// one: a linear scan, first match wins.
    pub fn get(&self, key: &str) -> (r: Option<&JsonValue>)
        ensures
            match r {
                Some(v) => lookup(self.model(), key@) == Some(v.model()),
                None => lookup(self.model(), key@) is None,
            },
    {
        if let JsonValue::Object(ref obj) = *self {
            match key_index(obj, key) {
                Some(i) => {
                    proof {
                        lemma_lookup_pairs_first(pairs_model(obj@), key@, i as int);
                    }
                    let pair = &obj[i];
                    Some(&pair.1)
                },
                None => {
                    proof {
                        lemma_lookup_pairs_none(pairs_model(obj@), key@);
                    }
                    None
                },
            }
        } else {
            None
        }
    }

    /// The first member under `key` as a mutable reference, enabling
    /// in-place replacement of that child; the lookup is the same linear
    /// scan as `get`.
    pub fn get_mut(&mut self, key: &str) -> (r: Option<&mut JsonValue>)
        ensures
            match r {
                Some(v) => lookup(old(self).model(), key@) == Some((*v).model())
                    && (*final(self)).model() == replace_first(
                    old(self).model(),
                    key@,
                    (*final(v)).model(),
                ),
                None => lookup(old(self).model(), key@) is None && *final(self) == *old(self),
            },
    {
        match self {
            JsonValue::Object(obj) => {
                let ghost ps = pairs_model(obj@);
                match key_index(obj, key) {
                    Some(i) => {
                        proof {
                            lemma_lookup_pairs_first(ps, key@, i as int);
                        }
                        let ghost pv = obj@;
                        let ghost row = obj@[i as int];
                        let pair = &mut obj[i];
                        let r = &mut pair.1;
                        proof {
                            lemma_update_pairs_at(ps, key@, (*final(r)).model(), i as int);
                            assert(pairs_model(pv.update(i as int, (row.0, *final(r))))
                                =~= ps.update(i as int, (row.0@, (*final(r)).model())));
                        }
                        Some(r)
                    },
                    None => {
                        proof {
                            lemma_lookup_pairs_none(ps, key@);
                        }
                        None
                    },
                }
            },
            _ => None,
        }
    }
}

} // verus!
