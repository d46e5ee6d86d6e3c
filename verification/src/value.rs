//! The GraphQL value algebra and its JSON projection.
//!
//! `Value` is the algebra of GraphQL input literals; `Json` models the JSON
//! documents that resolution produces and that variables arrive in.  Floats
//! are carried as their raw bit pattern (`u64`), never computed with.

use vstd::prelude::*;

verus! {

/// A GraphQL input value.
#[derive(Debug, PartialEq)]
pub enum Value {
    Null,
    Variable(String),
    Int(i32),
    Float(u64),
    Str(String),
    Boolean(bool),
    Enum(String),
    List(Vec<Value>),
    Object(Vec<(String, Value)>),
}

/// Mathematical model of a `Value`.
#[verifier::ext_equal]
pub enum ValueV {
    Null,
    Variable(Seq<char>),
    Int(i32),
    Float(u64),
    Str(Seq<char>),
    Boolean(bool),
    Enum(Seq<char>),
    List(Seq<ValueV>),
    Object(Seq<(Seq<char>, ValueV)>),
}

pub open spec fn value_view(v: Value) -> ValueV
    decreases v,
{
    match v {
        Value::Null => ValueV::Null,
        Value::Variable(s) => ValueV::Variable(s@),
        Value::Int(n) => ValueV::Int(n),
        Value::Float(bits) => ValueV::Float(bits),
        Value::Str(s) => ValueV::Str(s@),
        Value::Boolean(b) => ValueV::Boolean(b),
        Value::Enum(s) => ValueV::Enum(s@),
        Value::List(xs) => ValueV::List(
            Seq::new(
                xs@.len(),
                |i: int|
                    if 0 <= i < xs@.len() {
                        value_view(xs@[i])
                    } else {
                        ValueV::Null
                    },
            ),
        ),
        Value::Object(ps) => ValueV::Object(
            Seq::new(
                ps@.len(),
                |i: int|
                    if 0 <= i < ps@.len() {
                        (ps@[i].0@, value_view(ps@[i].1))
                    } else {
                        (Seq::empty(), ValueV::Null)
                    },
            ),
        ),
    }
}

impl View for Value {
    type V = ValueV;

    open spec fn view(&self) -> ValueV {
        value_view(*self)
    }
}

/// A JSON document.
#[derive(Debug, PartialEq)]
pub enum Json {
    Null,
    Bool(bool),
    Int(i64),
    Float(u64),
    Str(String),
    Array(Vec<Json>),
    Object(Vec<(String, Json)>),
}

/// Mathematical model of a `Json` document.
#[verifier::ext_equal]
pub enum JsonV {
    Null,
    Bool(bool),
    Int(i64),
    Float(u64),
    Str(Seq<char>),
    Array(Seq<JsonV>),
    Object(Seq<(Seq<char>, JsonV)>),
}

pub open spec fn json_view(j: Json) -> JsonV
    decreases j,
{
    match j {
        Json::Null => JsonV::Null,
        Json::Bool(b) => JsonV::Bool(b),
        Json::Int(n) => JsonV::Int(n),
        Json::Float(bits) => JsonV::Float(bits),
        Json::Str(s) => JsonV::Str(s@),
        Json::Array(xs) => JsonV::Array(
            Seq::new(
                xs@.len(),
                |i: int|
                    if 0 <= i < xs@.len() {
                        json_view(xs@[i])
                    } else {
                        JsonV::Null
                    },
            ),
        ),
        Json::Object(ps) => JsonV::Object(
            Seq::new(
                ps@.len(),
                |i: int|
                    if 0 <= i < ps@.len() {
                        (ps@[i].0@, json_view(ps@[i].1))
                    } else {
                        (Seq::empty(), JsonV::Null)
                    },
            ),
        ),
    }
}

impl View for Json {
    type V = JsonV;

    open spec fn view(&self) -> JsonV {
        json_view(*self)
    }
}

/// First value bound to `name` in an ordered GraphQL object, if any.
pub open spec fn obj_get(ps: Seq<(Seq<char>, ValueV)>, name: Seq<char>) -> Option<ValueV>
    decreases ps.len(),
{
    if ps.len() == 0 {
        None
    } else if ps[0].0 == name {
        Some(ps[0].1)
    } else {
        obj_get(ps.skip(1), name)
    }
}

/// The first binding of `name` replaced by `v`; absent keys leave the
/// object unchanged.
pub open spec fn obj_update(
    ps: Seq<(Seq<char>, ValueV)>,
    name: Seq<char>,
    v: ValueV,
) -> Seq<(Seq<char>, ValueV)>
    decreases ps.len(),
{
    if ps.len() == 0 {
        ps
    } else if ps[0].0 == name {
        seq![(name, v)] + ps.skip(1)
    } else {
        seq![ps[0]] + obj_update(ps.skip(1), name, v)
    }
}

/// The views of a list of values.
pub open spec fn values_view(s: Seq<Value>) -> Seq<ValueV> {
    s.map_values(|x: Value| value_view(x))
}

/// First value bound to `name` in a JSON object, if any.
pub open spec fn json_obj_get(ps: Seq<(Seq<char>, JsonV)>, name: Seq<char>) -> Option<JsonV>
    decreases ps.len(),
{
    if ps.len() == 0 {
        None
    } else if ps[0].0 == name {
        Some(ps[0].1)
    } else {
        json_obj_get(ps.skip(1), name)
    }
}

/// The first binding of `name` in a JSON object replaced by `v`; absent
/// keys leave the object unchanged.
pub open spec fn json_obj_update(
    ps: Seq<(Seq<char>, JsonV)>,
    name: Seq<char>,
    v: JsonV,
) -> Seq<(Seq<char>, JsonV)>
    decreases ps.len(),
{
    if ps.len() == 0 {
        ps
    } else if ps[0].0 == name {
        seq![(name, v)] + ps.skip(1)
    } else {
        seq![ps[0]] + json_obj_update(ps.skip(1), name, v)
    }
}

/// In a JSON object whose first binding of `name` is at `j`, lookup finds
/// that binding and update rewrites exactly it.
pub proof fn lemma_json_obj_first_binding(
    ps: Seq<(Seq<char>, JsonV)>,
    name: Seq<char>,
    v: JsonV,
    j: int,
)
    requires
        0 <= j < ps.len(),
        ps[j].0 == name,
        forall|k: int| 0 <= k < j ==> ps[k].0 != name,
    ensures
        json_obj_get(ps, name) == Some(ps[j].1),
        json_obj_update(ps, name, v) =~= ps.update(j, (name, v)),
    decreases j,
{
    if j == 0 {
        assert(json_obj_update(ps, name, v) =~= ps.update(0, (name, v)));
    } else {
        lemma_json_obj_first_binding(ps.skip(1), name, v, j - 1);
        assert(ps.skip(1).update(j - 1, (name, v)) =~= ps.update(j, (name, v)).skip(1));
        assert(json_obj_update(ps, name, v) =~= ps.update(j, (name, v)));
    }
}

/// A scan of a JSON object that saw no binding of `name` finds none.
pub proof fn lemma_json_obj_get_none(ps: Seq<(Seq<char>, JsonV)>, name: Seq<char>)
    requires
        forall|k: int| 0 <= k < ps.len() ==> ps[k].0 != name,
    ensures
        json_obj_get(ps, name) is None,
    decreases ps.len(),
{
    if ps.len() > 0 {
        lemma_json_obj_get_none(ps.skip(1), name);
    }
}

/// The GraphQL value a JSON document maps to: null, booleans, strings, lists
/// and objects map structurally; integers are narrowed to 32 bits by
/// truncation; floats keep their bits.
pub open spec fn json_to_gql(j: JsonV) -> ValueV
    decreases j,
{
    match j {
        JsonV::Null => ValueV::Null,
        JsonV::Bool(b) => ValueV::Boolean(b),
        JsonV::Int(n) => ValueV::Int(n as i32),
        JsonV::Float(bits) => ValueV::Float(bits),
        JsonV::Str(s) => ValueV::Str(s),
        JsonV::Array(xs) => ValueV::List(
            Seq::new(
                xs.len(),
                |i: int|
                    if 0 <= i < xs.len() {
                        json_to_gql(xs[i])
                    } else {
                        ValueV::Null
                    },
            ),
        ),
        JsonV::Object(ps) => ValueV::Object(
            Seq::new(
                ps.len(),
                |i: int|
                    if 0 <= i < ps.len() {
                        (ps[i].0, json_to_gql(ps[i].1))
                    } else {
                        (Seq::empty(), ValueV::Null)
                    },
            ),
        ),
    }
}

/// Maps a JSON document into the GraphQL value algebra, exactly as
/// [`json_to_gql`] states.
#[verifier::loop_isolation(false)]
pub fn json_value_to_gql_value(value: &Json) -> (r: Value)
    ensures
        r@ == json_to_gql(value@),
    decreases *value,
{
    match value {
        Json::Null => Value::Null,
        Json::Bool(b) => Value::Boolean(*b),
        Json::Int(n) => Value::Int(#[verifier::truncate] (*n as i32)),
        Json::Float(bits) => Value::Float(*bits),
        Json::Str(s) => Value::Str(s.clone()),
        Json::Array(xs) => {
            let mut out: Vec<Value> = Vec::new();
            let n = xs.len();
            for i in 0..n
                invariant
                    n == xs@.len(),
                    out@.len() == i,
                    forall|k: int| #![trigger out@[k]]
                        0 <= k < i ==> out@[k]@ == json_to_gql(json_view(xs@[k])),
                decreases n - i,
            {
                proof {
                    assert(*value == Json::Array(*xs));
                    assert(decreases_to!(*value => *xs));
                    assert(decreases_to!(*value => xs@[i as int]));
                }
                let elem = json_value_to_gql_value(&xs[i]);
                out.push(elem);
            }
            proof {
                assert(value_view(Value::List(out)) matches ValueV::List(m) && json_to_gql(
                    value@,
                ) matches ValueV::List(sm) && m =~= sm);
            }
            Value::List(out)
        },
        Json::Object(ps) => {
            let mut out: Vec<(String, Value)> = Vec::new();
            let n = ps.len();
            for i in 0..n
                invariant
                    n == ps@.len(),
                    out@.len() == i,
                    forall|k: int| #![trigger out@[k]]
                        0 <= k < i ==> out@[k].0@ == ps@[k].0@ && out@[k].1@
                            == json_to_gql(json_view(ps@[k].1)),
                decreases n - i,
            {
                let key = ps[i].0.clone();
                proof {
                    assert(*value == Json::Object(*ps));
                    assert(decreases_to!(*value => *ps));
                    assert(decreases_to!(*ps => ps@[i as int]));
                    assert(decreases_to!(ps@[i as int] => ps@[i as int].1));
                    assert(decreases_to!(*value => ps@[i as int].1));
                }
                let elem = json_value_to_gql_value(&ps[i].1);
                out.push((key, elem));
            }
            proof {
                assert(value_view(Value::Object(out)) matches ValueV::Object(m) && json_to_gql(
                    value@,
                ) matches ValueV::Object(sm) && m =~= sm);
            }
            Value::Object(out)
        },
    }
}

/// View of an ordered argument or object-field list.
pub open spec fn args_view(ps: Seq<(String, Value)>) -> Seq<(Seq<char>, ValueV)> {
    ps.map_values(|p: (String, Value)| (p.0@, value_view(p.1)))
}

/// Structure-preserving clone of an argument list.
#[verifier::loop_isolation(false)]
pub fn clone_arguments(ps: &Vec<(String, Value)>) -> (r: Vec<(String, Value)>)
    ensures
        args_view(r@) == args_view(ps@),
{
    let mut out: Vec<(String, Value)> = Vec::new();
    let n = ps.len();
    for i in 0..n
        invariant
            n == ps@.len(),
            out@.len() == i,
            forall|k: int| #![trigger out@[k]]
                0 <= k < i ==> out@[k].0@ == ps@[k].0@ && value_view(out@[k].1) == value_view(
                    ps@[k].1,
                ),
        decreases n - i,
    {
        let key = ps[i].0.clone();
        let elem = clone_value(&ps[i].1);
        out.push((key, elem));
    }
    proof {
        assert(args_view(out@) =~= args_view(ps@));
    }
    out
}

/// Structure-preserving clone of a `Value`.
#[verifier::loop_isolation(false)]
pub fn clone_value(v: &Value) -> (r: Value)
    ensures
        r@ == v@,
    decreases *v,
{
    match v {
        Value::Null => Value::Null,
        Value::Variable(s) => Value::Variable(s.clone()),
        Value::Int(n) => Value::Int(*n),
        Value::Float(bits) => Value::Float(*bits),
        Value::Str(s) => Value::Str(s.clone()),
        Value::Boolean(b) => Value::Boolean(*b),
        Value::Enum(s) => Value::Enum(s.clone()),
        Value::List(xs) => {
            let mut out: Vec<Value> = Vec::new();
            let n = xs.len();
            for i in 0..n
                invariant
                    n == xs@.len(),
                    out@.len() == i,
                    forall|k: int| #![trigger out@[k]] 0 <= k < i ==> value_view(out@[k])
                        == value_view(xs@[k]),
                decreases n - i,
            {
                proof {
                    assert(*v == Value::List(*xs));
                    assert(decreases_to!(*v => *xs));
                    assert(decreases_to!(*v => xs@[i as int]));
                }
                let elem = clone_value(&xs[i]);
                out.push(elem);
            }
            proof {
                let sm = Seq::new(
                    xs@.len(),
                    |i: int|
                        if 0 <= i < xs@.len() {
                            value_view(xs@[i])
                        } else {
                            ValueV::Null
                        },
                );
                assert forall|k: int| 0 <= k < out@.len() implies value_view(out@[k])
                    == value_view(xs@[k]) by {}
                assert(value_view(Value::List(out)) is List);
                let lm = value_view(Value::List(out))->List_0;
                assert(lm.len() == out@.len());
                assert(lm =~= sm);
                assert(value_view(*v) is List);
                let rm = value_view(*v)->List_0;
                assert(rm =~= sm);
                assert(value_view(Value::List(out)) == value_view(*v));
            }
            Value::List(out)
        },
        Value::Object(ps) => {
            let mut out: Vec<(String, Value)> = Vec::new();
            let n = ps.len();
            for i in 0..n
                invariant
                    n == ps@.len(),
                    out@.len() == i,
                    forall|k: int| #![trigger out@[k]]
                        0 <= k < i ==> out@[k].0@ == ps@[k].0@ && out@[k].1@
                            == value_view(ps@[k].1),
                decreases n - i,
            {
                let key = ps[i].0.clone();
                proof {
                    assert(*v == Value::Object(*ps));
                    assert(decreases_to!(*v => *ps));
                    assert(decreases_to!(*ps => ps@[i as int]));
                    assert(decreases_to!(ps@[i as int] => ps@[i as int].1));
                    assert(decreases_to!(*v => ps@[i as int].1));
                }
                let elem = clone_value(&ps[i].1);
                out.push((key, elem));
            }
            proof {
                assert(value_view(Value::Object(out)) matches ValueV::Object(m) && value_view(
                    *v,
                ) matches ValueV::Object(sm) && m =~= sm);
            }
            Value::Object(out)
        },
    }
}

impl Clone for Value {
    fn clone(&self) -> (r: Self)
        ensures
            r@ == self@,
    {
        clone_value(self)
    }
}

/// Structure-preserving clone of a `Json` document.
#[verifier::loop_isolation(false)]
pub fn clone_json(j: &Json) -> (r: Json)
    ensures
        r@ == j@,
    decreases *j,
{
    match j {
        Json::Null => Json::Null,
        Json::Bool(b) => Json::Bool(*b),
        Json::Int(n) => Json::Int(*n),
        Json::Float(bits) => Json::Float(*bits),
        Json::Str(s) => Json::Str(s.clone()),
        Json::Array(xs) => {
            let mut out: Vec<Json> = Vec::new();
            let n = xs.len();
            for i in 0..n
                invariant
                    n == xs@.len(),
                    out@.len() == i,
                    forall|k: int| #![trigger out@[k]] 0 <= k < i ==> json_view(out@[k])
                        == json_view(xs@[k]),
                decreases n - i,
            {
                proof {
                    assert(*j == Json::Array(*xs));
                    assert(decreases_to!(*j => *xs));
                    assert(decreases_to!(*j => xs@[i as int]));
                }
                let elem = clone_json(&xs[i]);
                out.push(elem);
            }
            proof {
                let sm = Seq::new(
                    xs@.len(),
                    |i: int|
                        if 0 <= i < xs@.len() {
                            json_view(xs@[i])
                        } else {
                            JsonV::Null
                        },
                );
                assert forall|k: int| 0 <= k < out@.len() implies json_view(out@[k])
                    == json_view(xs@[k]) by {}
                assert(json_view(Json::Array(out)) is Array);
                let lm = json_view(Json::Array(out))->Array_0;
                assert(lm =~= sm);
                assert(json_view(*j) is Array);
                let rm = json_view(*j)->Array_0;
                assert(rm =~= sm);
                assert(json_view(Json::Array(out)) == json_view(*j));
            }
            Json::Array(out)
        },
        Json::Object(ps) => {
            let mut out: Vec<(String, Json)> = Vec::new();
            let n = ps.len();
            for i in 0..n
                invariant
                    n == ps@.len(),
                    out@.len() == i,
                    forall|k: int| #![trigger out@[k]]
                        0 <= k < i ==> out@[k].0@ == ps@[k].0@ && out@[k].1@
                            == json_view(ps@[k].1),
                decreases n - i,
            {
                let key = ps[i].0.clone();
                proof {
                    assert(*j == Json::Object(*ps));
                    assert(decreases_to!(*j => *ps));
                    assert(decreases_to!(*ps => ps@[i as int]));
                    assert(decreases_to!(ps@[i as int] => ps@[i as int].1));
                    assert(decreases_to!(*j => ps@[i as int].1));
                }
                let elem = clone_json(&ps[i].1);
                out.push((key, elem));
            }
            proof {
                assert(json_view(Json::Object(out)) matches JsonV::Object(m) && json_view(
                    *j,
                ) matches JsonV::Object(sm) && m =~= sm);
            }
            Json::Object(out)
        },
    }
}

impl Clone for Json {
    fn clone(&self) -> (r: Self)
        ensures
            r@ == self@,
    {
        clone_json(self)
    }
}

} // verus!
