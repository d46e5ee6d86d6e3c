//! The input-value protocol and the per-field context.

use vstd::prelude::*;
use vstd::string::StringExecFns;
use crate::ast::{field_view, Field, Pos};
use crate::context::{
    resolve_input_value, resolve_input_value_spec, Environment, EnvironmentV,
};
use crate::error::{error_at, Error, ErrorV, QueryError, QueryErrorV};
use crate::path::QueryPathNode;
use crate::value::{clone_value, obj_get, value_view, Value, ValueV};

verus! {

/// The context a field resolver receives: the field being resolved and the
/// response path down to it.
pub struct FieldContext {
    /// The field AST node, alias and arguments included.
    pub field: Field,
    /// The response path ending in this field's result key, absent only
    /// for deferred work driven outside a tree walk.
    pub path: Option<QueryPathNode>,
}

/// A value that can be parsed from a GraphQL input value and turned back
/// into one.
pub trait InputValueType: Sized {
    /// The GraphQL name of this type, non-null qualified.
    spec fn qualified_type_name_spec() -> Seq<char>;

    /// Whether `v` is recognized as this type.
    spec fn parses(v: ValueV) -> bool;

    /// Whether `r` is the parse of `v`.
    spec fn parse_ok(v: ValueV, r: Self) -> bool;

    /// The input value this value renders back to.
    spec fn value_of(&self) -> ValueV;

    /// The GraphQL name of this type, non-null qualified.
    fn qualified_type_name() -> (r: String)
        ensures
            r@ == Self::qualified_type_name_spec(),
    ;

    /// Parses `value`, returning the recognized value or nothing.
    fn parse(value: &Value) -> (r: Option<Self>)
        ensures
            (r is Some) == Self::parses(value_view(*value)),
            r matches Some(x) ==> Self::parse_ok(value_view(*value), x),
    ;

    /// Renders this value back into the value algebra.
    fn to_value(&self) -> (r: Value)
        ensures
            value_view(r) == self.value_of(),
    ;
}

impl InputValueType for bool {
    open spec fn qualified_type_name_spec() -> Seq<char> {
        "Boolean!"@
    }

    open spec fn parses(v: ValueV) -> bool {
        v is Boolean
    }

    open spec fn parse_ok(v: ValueV, r: Self) -> bool {
        v == ValueV::Boolean(r)
    }

    open spec fn value_of(&self) -> ValueV {
        ValueV::Boolean(*self)
    }

    fn qualified_type_name() -> (r: String) {
        "Boolean!".to_owned()
    }

    fn parse(value: &Value) -> (r: Option<Self>) {
        match value {
            Value::Boolean(b) => Some(*b),
            _ => None,
        }
    }

    fn to_value(&self) -> (r: Value) {
        Value::Boolean(*self)
    }
}

impl InputValueType for i32 {
    open spec fn qualified_type_name_spec() -> Seq<char> {
        "Int!"@
    }

    open spec fn parses(v: ValueV) -> bool {
        v is Int
    }

    open spec fn parse_ok(v: ValueV, r: Self) -> bool {
        v == ValueV::Int(r)
    }

    open spec fn value_of(&self) -> ValueV {
        ValueV::Int(*self)
    }

    fn qualified_type_name() -> (r: String) {
        "Int!".to_owned()
    }

    fn parse(value: &Value) -> (r: Option<Self>) {
        match value {
            Value::Int(n) => Some(*n),
            _ => None,
        }
    }

    fn to_value(&self) -> (r: Value) {
        Value::Int(*self)
    }
}

impl InputValueType for String {
    open spec fn qualified_type_name_spec() -> Seq<char> {
        "String!"@
    }

    open spec fn parses(v: ValueV) -> bool {
        v is Str
    }

    open spec fn parse_ok(v: ValueV, r: Self) -> bool {
        v == ValueV::Str(r@)
    }

    open spec fn value_of(&self) -> ValueV {
        ValueV::Str(self@)
    }

    fn qualified_type_name() -> (r: String) {
        "String!".to_owned()
    }

    fn parse(value: &Value) -> (r: Option<Self>) {
        match value {
            Value::Str(s) => Some(s.clone()),
            _ => None,
        }
    }

    fn to_value(&self) -> (r: Value) {
        Value::Str(self.clone())
    }
}

/// The `Any` scalar of federation: every input value is recognized as
/// itself.
impl InputValueType for Value {
    open spec fn qualified_type_name_spec() -> Seq<char> {
        "_Any!"@
    }

    open spec fn parses(v: ValueV) -> bool {
        true
    }

    open spec fn parse_ok(v: ValueV, r: Self) -> bool {
        value_view(r) == v
    }

    open spec fn value_of(&self) -> ValueV {
        value_view(*self)
    }

    fn qualified_type_name() -> (r: String) {
        "_Any!".to_owned()
    }

    fn parse(value: &Value) -> (r: Option<Self>) {
        Some(clone_value(value))
    }

    fn to_value(&self) -> (r: Value) {
        clone_value(self)
    }
}

impl<T: InputValueType> InputValueType for Vec<T> {
    open spec fn qualified_type_name_spec() -> Seq<char> {
        "["@ + T::qualified_type_name_spec() + "]!"@
    }

    open spec fn parses(v: ValueV) -> bool {
        match v {
            ValueV::List(xs) => forall|i: int| 0 <= i < xs.len() ==> T::parses(#[trigger] xs[i]),
            _ => false,
        }
    }

    open spec fn parse_ok(v: ValueV, r: Self) -> bool {
        match v {
            ValueV::List(xs) => r@.len() == xs.len() && forall|i: int|
                0 <= i < xs.len() ==> T::parse_ok(xs[i], #[trigger] r@[i]),
            _ => false,
        }
    }

    open spec fn value_of(&self) -> ValueV {
        ValueV::List(
            Seq::new(
                self@.len(),
                |i: int|
                    if 0 <= i < self@.len() {
                        self@[i].value_of()
                    } else {
                        ValueV::Null
                    },
            ),
        )
    }

    fn qualified_type_name() -> (r: String) {
        let mut s = "[".to_owned();
        let inner = T::qualified_type_name();
        s.append(inner.as_str());
        s.append("]!");
        proof {
            assert(s@ =~= Self::qualified_type_name_spec());
        }
        s
    }

    #[verifier::loop_isolation(false)]
    fn parse(value: &Value) -> (r: Option<Self>) {
        match value {
            Value::List(xs) => {
                let ghost vxs = (value_view(*value))->List_0;
                let mut out: Vec<T> = Vec::new();
                let n = xs.len();
                for i in 0..n
                    invariant
                        n == xs@.len(),
                        vxs.len() == n,
                        forall|k: int| 0 <= k < n ==> vxs[k] == value_view(xs@[k]),
                        out@.len() == i,
                        forall|k: int| #![trigger vxs[k]] 0 <= k < i ==> T::parses(vxs[k]),
                        forall|k: int| #![trigger out@[k]] 0 <= k < i ==> T::parse_ok(
                            vxs[k],
                            out@[k],
                        ),
                    decreases n - i,
                {
                    match T::parse(&xs[i]) {
                        Some(x) => {
                            out.push(x);
                        },
                        None => {
                            proof {
                                assert(!T::parses(vxs[i as int]));
                            }
                            return None;
                        },
                    }
                }
                Some(out)
            },
            _ => None,
        }
    }

    #[verifier::loop_isolation(false)]
    fn to_value(&self) -> (r: Value) {
        let mut out: Vec<Value> = Vec::new();
        let n = self.len();
        for i in 0..n
            invariant
                n == self@.len(),
                out@.len() == i,
                forall|k: int| #![trigger out@[k]]
                    0 <= k < i ==> value_view(out@[k]) == self@[k].value_of(),
            decreases n - i,
        {
            let elem = self[i].to_value();
            out.push(elem);
        }
        proof {
            assert(value_view(Value::List(out)) matches ValueV::List(m) && self.value_of()
                matches ValueV::List(sm) && m =~= sm);
        }
        Value::List(out)
    }
}

/// What argument binding returns: the supplied argument, resolved and
/// parsed; absent arguments fall back to the declared default; a value the
/// type does not recognize is an `ExpectedType` error.
pub open spec fn param_value_spec<T: InputValueType>(
    env: EnvironmentV,
    args: Seq<(Seq<char>, ValueV)>,
    name: Seq<char>,
    pos: Pos,
    default: ValueV,
) -> Result<ValueV, ErrorV> {
    match obj_get(args, name) {
        Some(supplied) => match resolve_input_value_spec(env, supplied, pos) {
            Err(e) => Err(e),
            Ok(rv) => if T::parses(rv) {
                Ok(rv)
            } else {
                Err(error_at(pos, QueryErrorV::ExpectedType {
                    expect: T::qualified_type_name_spec(),
                    actual: rv,
                }))
            },
        },
        None => if T::parses(default) {
            Ok(default)
        } else {
            Err(error_at(pos, QueryErrorV::ExpectedType {
                expect: T::qualified_type_name_spec(),
                actual: default,
            }))
        },
    }
}

/// Binds one declared argument of a field, exactly as [`param_value_spec`]
/// states: on success the returned value is the parse of the value that
/// spec selects.
#[verifier::loop_isolation(false)]
pub fn param_value<T: InputValueType>(
    env: &Environment,
    field: &Field,
    name: &str,
    pos: Pos,
    default: Value,
) -> (r: Result<T, Error>)
    ensures
        match r {
            Ok(x) => param_value_spec::<T>(
                env@,
                field_view(*field).arguments,
                name@,
                pos,
                value_view(default),
            ) matches Ok(rv) && T::parse_ok(rv, x),
            Err(e) => param_value_spec::<T>(
                env@,
                field_view(*field).arguments,
                name@,
                pos,
                value_view(default),
            ) == Err::<ValueV, ErrorV>(crate::error::error_view(e)),
        },
{
    let ghost argsv = field_view(*field).arguments;
    let args = &field.arguments;
    let n = args.len();
    let mut j: usize = 0;
    let mut supplied: Option<&Value> = None;
    while j < n
        invariant
            0 <= j <= n,
            n == args@.len(),
            argsv.len() == n,
            forall|k: int| 0 <= k < n ==> argsv[k] == (args@[k].0@, value_view(args@[k].1)),
            forall|k: int| 0 <= k < j ==> argsv[k].0 != name@,
            supplied is None,
        decreases n - j,
    {
        if crate::context::str_eq_lit(&args[j].0, name) {
            proof {
                crate::context::lemma_obj_first_binding(argsv, name@, ValueV::Null, j as int);
            }
            supplied = Some(&args[j].1);
            break ;
        }
        j += 1;
    }
    let chosen = match supplied {
        Some(v) => {
            match resolve_input_value(env, clone_value(v), pos) {
                Ok(rv) => rv,
                Err(e) => {
                    return Err(e);
                },
            }
        },
        None => {
            proof {
                crate::context::lemma_obj_get_none(argsv, name@);
            }
            default
        },
    };
    match T::parse(&chosen) {
        Some(x) => Ok(x),
        None => Err(
            QueryError::ExpectedType { expect: T::qualified_type_name(), actual: chosen }.into_error(
                pos,
            ),
        ),
    }
}

} // verus!
