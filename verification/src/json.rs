//! A self-contained model of JSON documents.
//!
//! `JsonValue` is the executable representation; its view is the ghost
//! datatype `Jv`, over `Seq<char>` and `Seq` children, which all contracts
//! speak of. Numbers are split into `Int` for integers that fit an `i64` and
//! `Num` carrying the numeral text of anything else, so the type stays free of
//! floating point while still carrying every JSON number through unchanged.

use vstd::prelude::*;

use crate::text::string_eq_str;

verus! {

/// Ghost mirror of `JsonValue`: the view a JSON document denotes.
#[verifier::ext_equal]
pub enum Jv {
    Null,
    Bool(bool),
    Int(i64),
    Num(Seq<char>),
    Str(Seq<char>),
    Arr(Seq<Jv>),
    Obj(Seq<(Seq<char>, Jv)>),
}

/// An executable JSON document.
#[derive(Debug, PartialEq)]
pub enum JsonValue {
    Null,
    Bool(bool),
    Int(i64),
    /// A number that is not an integer in `i64` range, kept as its numeral text.
    Num(String),
    Str(String),
    Arr(Vec<JsonValue>),
    Obj(Vec<(String, JsonValue)>),
}

impl JsonValue {
    pub open spec fn deep(self) -> Jv
        decreases self,
    {
        match self {
            JsonValue::Null => Jv::Null,
            JsonValue::Bool(b) => Jv::Bool(b),
            JsonValue::Int(i) => Jv::Int(i),
            JsonValue::Num(s) => Jv::Num(s@),
            JsonValue::Str(s) => Jv::Str(s@),
            JsonValue::Arr(xs) => Jv::Arr(deep_elems(xs@)),
            JsonValue::Obj(ps) => Jv::Obj(deep_pairs(ps@)),
        }
    }
}

pub open spec fn deep_elems(xs: Seq<JsonValue>) -> Seq<Jv>
    decreases xs,
{
    if xs.len() == 0 {
        Seq::empty()
    } else {
        deep_elems(xs.drop_last()).push(xs.last().deep())
    }
}

pub open spec fn deep_pairs(ps: Seq<(String, JsonValue)>) -> Seq<(Seq<char>, Jv)>
    decreases ps,
{
    if ps.len() == 0 {
        Seq::empty()
    } else {
        deep_pairs(ps.drop_last()).push((ps.last().0@, ps.last().1.deep()))
    }
}

impl View for JsonValue {
    type V = Jv;

    open spec fn view(&self) -> Jv {
        self.deep()
    }
}

impl DeepView for JsonValue {
    type V = Jv;

    open spec fn deep_view(&self) -> Jv {
        self.deep()
    }
}

pub broadcast proof fn lemma_deep_elems_len(xs: Seq<JsonValue>)
    ensures
        (#[trigger] deep_elems(xs)).len() == xs.len(),
    decreases xs,
{
    if xs.len() > 0 {
        lemma_deep_elems_len(xs.drop_last());
    }
}

pub broadcast proof fn lemma_deep_elems_index(xs: Seq<JsonValue>, i: int)
    requires
        0 <= i < xs.len(),
    ensures
        (#[trigger] deep_elems(xs)[i]) == xs[i].deep(),
    decreases xs,
{
    lemma_deep_elems_len(xs);
    if i < xs.len() - 1 {
        lemma_deep_elems_index(xs.drop_last(), i);
        lemma_deep_elems_len(xs.drop_last());
    } else {
        lemma_deep_elems_len(xs.drop_last());
    }
}

pub broadcast proof fn lemma_deep_pairs_len(ps: Seq<(String, JsonValue)>)
    ensures
        (#[trigger] deep_pairs(ps)).len() == ps.len(),
    decreases ps,
{
    if ps.len() > 0 {
        lemma_deep_pairs_len(ps.drop_last());
    }
}

pub broadcast proof fn lemma_deep_pairs_index(ps: Seq<(String, JsonValue)>, i: int)
    requires
        0 <= i < ps.len(),
    ensures
        (#[trigger] deep_pairs(ps)[i]) == (ps[i].0@, ps[i].1.deep()),
    decreases ps,
{
    lemma_deep_pairs_len(ps);
    if i < ps.len() - 1 {
        lemma_deep_pairs_index(ps.drop_last(), i);
        lemma_deep_pairs_len(ps.drop_last());
    } else {
        lemma_deep_pairs_len(ps.drop_last());
    }
}

/// Looks a key up in an object's pair list; the first occurrence wins.
pub open spec fn obj_get(ps: Seq<(Seq<char>, Jv)>, k: Seq<char>) -> Option<Jv>
    decreases ps.len(),
{
    if ps.len() == 0 {
        None
    } else if ps[0].0 == k {
        Some(ps[0].1)
    } else {
        obj_get(ps.drop_first(), k)
    }
}

/// Looks a key up in a JSON value: `None` unless the value is an object
/// holding the key.
pub open spec fn jv_get(v: Jv, k: Seq<char>) -> Option<Jv> {
    match v {
        Jv::Obj(ps) => obj_get(ps, k),
        _ => None,
    }
}

/// Binds a key in an object's pair list: the first occurrence is replaced in
/// place, or the pair is appended when the key is new.
pub open spec fn obj_put(ps: Seq<(Seq<char>, Jv)>, k: Seq<char>, v: Jv) -> Seq<(Seq<char>, Jv)>
    decreases ps.len(),
{
    if ps.len() == 0 {
        seq![(k, v)]
    } else if ps[0].0 == k {
        seq![(ps[0].0, v)] + ps.drop_first()
    } else {
        seq![ps[0]] + obj_put(ps.drop_first(), k, v)
    }
}

/// Merges `extra` into `base`, key by key in order; `extra` wins on clashes.
pub open spec fn obj_merge(
    base: Seq<(Seq<char>, Jv)>,
    extra: Seq<(Seq<char>, Jv)>,
) -> Seq<(Seq<char>, Jv)>
    decreases extra.len(),
{
    if extra.len() == 0 {
        base
    } else {
        obj_put(obj_merge(base, extra.drop_last()), extra.last().0, extra.last().1)
    }
}

proof fn lemma_obj_put_found(s: Seq<(Seq<char>, Jv)>, k: Seq<char>, v: Jv, i: int)
    requires
        0 <= i < s.len(),
        forall|j: int| 0 <= j < i ==> (#[trigger] s[j]).0 != k,
        s[i].0 == k,
    ensures
        obj_put(s, k, v) == s.update(i, (s[i].0, v)),
    decreases i,
{
    if i == 0 {
        assert(obj_put(s, k, v) =~= s.update(0, (s[0].0, v)));
    } else {
        let t = s.drop_first();
        assert(forall|j: int| 0 <= j < i - 1 ==> (#[trigger] t[j]).0 == s[j + 1].0);
        lemma_obj_put_found(t, k, v, i - 1);
        assert(seq![s[0]] + t.update(i - 1, (t[i - 1].0, v)) =~= s.update(i, (s[i].0, v)));
    }
}

proof fn lemma_obj_put_missing(s: Seq<(Seq<char>, Jv)>, k: Seq<char>, v: Jv)
    requires
        forall|j: int| 0 <= j < s.len() ==> (#[trigger] s[j]).0 != k,
    ensures
        obj_put(s, k, v) == s.push((k, v)),
    decreases s.len(),
{
    if s.len() == 0 {
        assert(obj_put(s, k, v) =~= s.push((k, v)));
    } else {
        let t = s.drop_first();
        assert(forall|j: int| 0 <= j < t.len() ==> (#[trigger] t[j]).0 == s[j + 1].0);
        lemma_obj_put_missing(t, k, v);
        assert(seq![s[0]] + t.push((k, v)) =~= s.push((k, v)));
    }
}

impl JsonValue {
    /// A structurally equal copy.
    #[verifier::loop_isolation(false)]
    pub fn dup(&self) -> (r: JsonValue)
        ensures
            r@ == self@,
        decreases *self,
    {
        match self {
            JsonValue::Null => JsonValue::Null,
            JsonValue::Bool(b) => JsonValue::Bool(*b),
            JsonValue::Int(i) => JsonValue::Int(*i),
            JsonValue::Num(s) => JsonValue::Num(s.clone()),
            JsonValue::Str(s) => JsonValue::Str(s.clone()),
            JsonValue::Arr(xs) => {
                let mut out: Vec<JsonValue> = Vec::new();
                let mut i: usize = 0;
                while i < xs.len()
                    invariant
                        0 <= i <= xs@.len(),
                        out@.len() == i,
                        forall|j: int| 0 <= j < i ==> (#[trigger] out@[j])@ == xs@[j]@,
                    decreases xs@.len() - i,
                {
                    proof {
                        broadcast use vstd::std_specs::vec::axiom_vec_index_decreases;

                        assert(decreases_to!(*self => self->Arr_0));
                        assert(decreases_to!(self->Arr_0 => self->Arr_0[i as int]));
                    }
                    let x = xs[i].dup();
                    out.push(x);
                    i += 1;
                }
                proof {
                    broadcast use lemma_deep_elems_len, lemma_deep_elems_index;

                    assert(deep_elems(out@) =~= deep_elems(xs@));
                }
                JsonValue::Arr(out)
            },
            JsonValue::Obj(ps) => {
                let mut out: Vec<(String, JsonValue)> = Vec::new();
                let mut i: usize = 0;
                while i < ps.len()
                    invariant
                        0 <= i <= ps@.len(),
                        out@.len() == i,
                        forall|j: int|
                            0 <= j < i ==> (#[trigger] out@[j]).0@ == ps@[j].0@ && out@[j].1@
                                == ps@[j].1@,
                    decreases ps@.len() - i,
                {
                    proof {
                        broadcast use vstd::std_specs::vec::axiom_vec_index_decreases;

                        assert(decreases_to!(*self => self->Obj_0));
                        assert(decreases_to!(self->Obj_0 => self->Obj_0[i as int]));
                        assert(decreases_to!(self->Obj_0[i as int] => self->Obj_0[i as int].1));
                    }
                    let k = ps[i].0.clone();
                    let x = ps[i].1.dup();
                    out.push((k, x));
                    i += 1;
                }
                proof {
                    broadcast use lemma_deep_pairs_len, lemma_deep_pairs_index;

                    assert(deep_pairs(out@) =~= deep_pairs(ps@));
                }
                JsonValue::Obj(out)
            },
        }
    }

    /// Key lookup, as `serde_json::Value::get` behaves on objects.
    #[verifier::loop_isolation(false)]
    pub fn get<'a>(&'a self, key: &str) -> (r: Option<&'a JsonValue>)
        ensures
            match r {
                Some(v) => jv_get(self@, key@) == Some(v@),
                None => jv_get(self@, key@) is None,
            },
    {
        match self {
            JsonValue::Obj(ps) => {
                let ghost t = deep_pairs(ps@);
                proof {
                    broadcast use lemma_deep_pairs_len, lemma_deep_pairs_index;

                    assert(t.skip(0) =~= t);
                }
                let mut i: usize = 0;
                while i < ps.len()
                    invariant
                        0 <= i <= ps@.len(),
                        t == deep_pairs(ps@),
                        t.len() == ps@.len(),
                        forall|j: int|
                            0 <= j < ps@.len() ==> #[trigger] t[j] == (ps@[j].0@, ps@[j].1@),
                        obj_get(t, key@) == obj_get(t.skip(i as int), key@),
                    decreases ps@.len() - i,
                {
                    if string_eq_str(&ps[i].0, key) {
                        proof {
                            assert(t.skip(i as int)[0] == t[i as int]);
                            assert(t.skip(i as int).len() > 0);
                            assert(obj_get(t.skip(i as int), key@) == Some(t[i as int].1));
                            assert(self@ == Jv::Obj(t));
                        }
                        return Some(&ps[i].1);
                    }
                    proof {
                        assert(t.skip(i as int)[0] == t[i as int]);
                        assert(t.skip(i as int).drop_first() =~= t.skip(i + 1));
                    }
                    i += 1;
                }
                proof {
                    assert(t.skip(ps@.len() as int) =~= Seq::<(Seq<char>, Jv)>::empty());
                }
                None
            },
            _ => None,
        }
    }

    /// The integer behind the value, when it is an integer.
    pub fn as_i64(&self) -> (r: Option<i64>)
        ensures
            r == (match self@ {
                Jv::Int(i) => Some(i),
                _ => None::<i64>,
            }),
    {
        match self {
            JsonValue::Int(i) => Some(*i),
            _ => None,
        }
    }

    /// The value as an unsigned integer, when it is one.
    pub fn as_u64(&self) -> (r: Option<u64>)
        ensures
            r == (match self@ {
                Jv::Int(i) => if i >= 0 {
                    Some(i as u64)
                } else {
                    None::<u64>
                },
                _ => None::<u64>,
            }),
    {
        match self {
            JsonValue::Int(i) => {
                if *i >= 0 {
                    Some(*i as u64)
                } else {
                    None
                }
            },
            _ => None,
        }
    }

    /// The text behind the value, when it is a string.
    pub fn as_str_ref<'a>(&'a self) -> (r: Option<&'a String>)
        ensures
            match r {
                Some(s) => self@ == Jv::Str(s@),
                None => !(self@ is Str),
            },
    {
        match self {
            JsonValue::Str(s) => Some(s),
            _ => None,
        }
    }

    /// The elements behind the value, when it is an array.
    pub fn as_array_ref<'a>(&'a self) -> (r: Option<&'a Vec<JsonValue>>)
        ensures
            match r {
                Some(xs) => self@ == Jv::Arr(deep_elems(xs@)),
                None => !(self@ is Arr),
            },
    {
        match self {
            JsonValue::Arr(xs) => Some(xs),
            _ => None,
        }
    }

    /// The pairs behind the value, when it is an object.
    pub fn as_object_ref<'a>(&'a self) -> (r: Option<&'a Vec<(String, JsonValue)>>)
        ensures
            match r {
                Some(ps) => self@ == Jv::Obj(deep_pairs(ps@)),
                None => !(self@ is Obj),
            },
    {
        match self {
            JsonValue::Obj(ps) => Some(ps),
            _ => None,
        }
    }
}

/// Binds a key in an object's backing pair list, first occurrence replaced or
/// pair appended, as `serde_json::Map::insert` behaves.
pub fn obj_put_pairs(ps: &mut Vec<(String, JsonValue)>, key: &str, val: JsonValue)
    ensures
        deep_pairs(final(ps)@) == obj_put(deep_pairs(old(ps)@), key@, val@),
{
    let ghost t = deep_pairs(old(ps)@);
    proof {
        broadcast use lemma_deep_pairs_len, lemma_deep_pairs_index;

    }
    let mut i: usize = 0;
    while i < ps.len()
        invariant
            0 <= i <= ps@.len(),
            ps@ == old(ps)@,
            t == deep_pairs(ps@),
            t.len() == ps@.len(),
            forall|j: int| 0 <= j < ps@.len() ==> #[trigger] t[j] == (ps@[j].0@, ps@[j].1@),
            forall|j: int| 0 <= j < i ==> (#[trigger] t[j]).0 != key@,
        decreases ps@.len() - i,
    {
        if string_eq_str(&ps[i].0, key) {
            let ghost vv = val@;
            let pair = ps.remove(i);
            ps.insert(i, (pair.0, val));
            proof {
                broadcast use lemma_deep_pairs_len, lemma_deep_pairs_index;

                lemma_obj_put_found(t, key@, vv, i as int);
                assert(ps@ =~= old(ps)@.update(i as int, (old(ps)@[i as int].0, ps@[i as int].1)));
                assert(deep_pairs(ps@) =~= t.update(i as int, (t[i as int].0, vv)));
            }
            return ;
        }
        i += 1;
    }
    let ghost vv = val@;
    ps.push((String::from_str(key), val));
    proof {
        broadcast use lemma_deep_pairs_len, lemma_deep_pairs_index;

        lemma_obj_put_missing(t, key@, vv);
        assert(deep_pairs(ps@) =~= t.push((key@, vv)));
    }
}

#[verifier::external_type_specification]
#[verifier::external_body]
pub struct ExSerdeValue(serde_json::Value);

/// What `serde_json::from_str` makes of a text: `None` where it rejects the
/// text, otherwise the parsed document.
pub uninterp spec fn json_of(s: Seq<char>) -> Option<Jv>;

/// The description `serde_json::from_str` gives a text it rejects; like the
/// parse itself, it depends on the text alone.
pub uninterp spec fn json_err_of(s: Seq<char>) -> Seq<char>;

/// The text `serde_json` renders a document as.
pub uninterp spec fn json_text_of(v: Jv) -> Seq<char>;

/// Converts a parsed `serde_json` tree into the library's representation,
/// variant for variant. Relies on `serde_json::Number::as_i64` and
/// `to_string`: integers in `i64` range become `Int`, every other number
/// keeps its numeral text.
#[verifier::external_body]
fn json_from_serde(v: serde_json::Value) -> JsonValue {
    match v {
        serde_json::Value::Null => JsonValue::Null,
        serde_json::Value::Bool(b) => JsonValue::Bool(b),
        serde_json::Value::Number(n) => match n.as_i64() {
            Some(i) => JsonValue::Int(i),
            None => JsonValue::Num(n.to_string()),
        },
        serde_json::Value::String(s) => JsonValue::Str(s),
        serde_json::Value::Array(xs) => JsonValue::Arr(
            xs.into_iter().map(json_from_serde).collect(),
        ),
        serde_json::Value::Object(m) => JsonValue::Obj(
            m.into_iter().map(|p| (p.0, json_from_serde(p.1))).collect(),
        ),
    }
}

/// Converts the library's representation back into a `serde_json` tree,
/// variant for variant. Relies on `serde_json::Number`'s `FromStr` for
/// numeral text; text no numeral could have produced renders as null.
#[verifier::external_body]
fn json_to_serde(v: &JsonValue) -> serde_json::Value {
    match v {
        JsonValue::Null => serde_json::Value::Null,
        JsonValue::Bool(b) => serde_json::Value::Bool(*b),
        JsonValue::Int(i) => serde_json::Value::from(*i),
        JsonValue::Num(s) => s.parse::<serde_json::Number>().map(serde_json::Value::Number)
            .unwrap_or(serde_json::Value::Null),
        JsonValue::Str(s) => serde_json::Value::String(s.clone()),
        JsonValue::Arr(xs) => serde_json::Value::Array(xs.iter().map(json_to_serde).collect()),
        JsonValue::Obj(ps) => serde_json::Value::Object(
            ps.iter().map(|p| (p.0.clone(), json_to_serde(&p.1))).collect(),
        ),
    }
}

/// Relies on `serde_json::from_str`: whether a text parses, to what value,
/// and with what error description, all depend on the text alone.
#[verifier::external_body]
pub(crate) fn parse_json(s: &str) -> (r: Result<JsonValue, String>)
    ensures
        r is Ok <==> json_of(s@) is Some,
        r matches Ok(v) ==> json_of(s@) == Some(v@),
        r matches Err(e) ==> e@ == json_err_of(s@),
{
    match serde_json::from_str::<serde_json::Value>(s) {
        Ok(v) => Ok(json_from_serde(v)),
        Err(e) => Err(e.to_string()),
    }
}

/// Relies on `serde_json::Value::to_string`: the rendered text depends on the
/// value alone.
#[verifier::external_body]
pub(crate) fn json_to_text(v: &JsonValue) -> (r: String)
    ensures
        r@ == json_text_of(v@),
{
    json_to_serde(v).to_string()
}

} // verus!
