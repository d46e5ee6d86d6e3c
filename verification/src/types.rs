//! Schema-bound building blocks: scalar output values, lists, optional
//! values, and the empty mutation root.

use vstd::prelude::*;
use crate::ast::{selection_set_view, Pos, SelectionSet, SelectionSetV};
use crate::base::FieldContext;
use crate::context::{Environment, EnvironmentV};
use crate::error::{error_at, Error, ErrorV, QueryError, QueryErrorV};
use crate::path::{node_segs, QueryPathNode, QueryPathSegment, QueryPathSegmentV};
use crate::registry::{MetaType, Registry, RegistryV};
use crate::resolver::{opt_path_view, DeferredField, ObjectType, OutputValueType};
use crate::value::{Json, JsonV, Value};

verus! {

impl OutputValueType for i32 {
    open spec fn resolves_to(
        &self,
        env: EnvironmentV,
        reg: RegistryV,
        ss: SelectionSetV,
        path: Option<Seq<QueryPathSegmentV>>,
        depth: nat,
        r: Result<JsonV, ErrorV>,
    ) -> bool {
        r == Ok::<JsonV, ErrorV>(JsonV::Int(*self as i64))
    }

    fn resolve_output(
        &self,
        ss: &SelectionSet,
        path: &Option<QueryPathNode>,
        env: &Environment,
        registry: &Registry,
        depth: u32,
    ) -> (r: Result<Json, Error>) {
        Ok(Json::Int(*self as i64))
    }
}

impl OutputValueType for bool {
    open spec fn resolves_to(
        &self,
        env: EnvironmentV,
        reg: RegistryV,
        ss: SelectionSetV,
        path: Option<Seq<QueryPathSegmentV>>,
        depth: nat,
        r: Result<JsonV, ErrorV>,
    ) -> bool {
        r == Ok::<JsonV, ErrorV>(JsonV::Bool(*self))
    }

    fn resolve_output(
        &self,
        ss: &SelectionSet,
        path: &Option<QueryPathNode>,
        env: &Environment,
        registry: &Registry,
        depth: u32,
    ) -> (r: Result<Json, Error>) {
        Ok(Json::Bool(*self))
    }
}

impl OutputValueType for String {
    open spec fn resolves_to(
        &self,
        env: EnvironmentV,
        reg: RegistryV,
        ss: SelectionSetV,
        path: Option<Seq<QueryPathSegmentV>>,
        depth: nat,
        r: Result<JsonV, ErrorV>,
    ) -> bool {
        r == Ok::<JsonV, ErrorV>(JsonV::Str(self@))
    }

    fn resolve_output(
        &self,
        ss: &SelectionSet,
        path: &Option<QueryPathNode>,
        env: &Environment,
        registry: &Registry,
        depth: u32,
    ) -> (r: Result<Json, Error>) {
        Ok(Json::Str(self.clone()))
    }
}

impl<T: OutputValueType> OutputValueType for Option<T> {
    /// An absent value answers `null`; a present one answers as the inner
    /// value does, one depth level down.
    open spec fn resolves_to(
        &self,
        env: EnvironmentV,
        reg: RegistryV,
        ss: SelectionSetV,
        path: Option<Seq<QueryPathSegmentV>>,
        depth: nat,
        r: Result<JsonV, ErrorV>,
    ) -> bool {
        match self {
            None => r == Ok::<JsonV, ErrorV>(JsonV::Null),
            Some(x) => if depth == 0 {
                r == Err::<JsonV, ErrorV>(error_at(ss.span.0, QueryErrorV::TooDeep))
            } else {
                x.resolves_to(env, reg, ss, path, (depth - 1) as nat, r)
            },
        }
    }

    fn resolve_output(
        &self,
        ss: &SelectionSet,
        path: &Option<QueryPathNode>,
        env: &Environment,
        registry: &Registry,
        depth: u32,
    ) -> (r: Result<Json, Error>)
        decreases depth, 2int,
    {
        match self {
            None => Ok(Json::Null),
            Some(x) => {
                if depth == 0 {
                    return Err(QueryError::TooDeep.into_error(ss.span.0));
                }
                x.resolve_output(ss, path, env, registry, depth - 1)
            },
        }
    }
}

/// The path segments of a list element `i` positions into the list at
/// `parent`.
pub open spec fn index_segs(
    parent: Option<Seq<QueryPathSegmentV>>,
    i: usize,
) -> Seq<QueryPathSegmentV> {
    match parent {
        Some(ps) => ps.push(QueryPathSegmentV::Index(i)),
        None => seq![QueryPathSegmentV::Index(i)],
    }
}

/// The path node of a list element below `path`.
pub fn index_path(path: &Option<QueryPathNode>, i: usize) -> (r: QueryPathNode)
    ensures
        node_segs(r) == index_segs(opt_path_view(*path), i),
{
    let parent = match path {
        Some(p) => Some(Box::new(p.clone_node())),
        None => None,
    };
    let r = QueryPathNode { parent, segment: QueryPathSegment::Index(i) };
    proof {
        assert(node_segs(r) =~= index_segs(opt_path_view(*path), i));
    }
    r
}

impl<T: OutputValueType> OutputValueType for Vec<T> {
    /// A list answers element by element: the output array has one entry
    /// per element, in list order, each a correct resolution of that
    /// element against a path extended with its index; a failing list
    /// resolution is the failure of some element resolved under a path
    /// ending in its index.
    open spec fn resolves_to(
        &self,
        env: EnvironmentV,
        reg: RegistryV,
        ss: SelectionSetV,
        path: Option<Seq<QueryPathSegmentV>>,
        depth: nat,
        r: Result<JsonV, ErrorV>,
    ) -> bool {
        if depth == 0 {
            r == Err::<JsonV, ErrorV>(error_at(ss.span.0, QueryErrorV::TooDeep))
        } else {
        let d = (depth - 1) as nat;
        match r {
            Ok(jv) => match jv {
                JsonV::Array(m) => m.len() == self@.len() && forall|i: int|
                    0 <= i < self@.len() ==> (#[trigger] self@[i]).resolves_to(
                        env,
                        reg,
                        ss,
                        Some(index_segs(path, i as usize)),
                        d,
                        Ok(m[i]),
                    ),
                _ => false,
            },
            Err(e) => exists|i: int|
                0 <= i < self@.len() && (#[trigger] self@[i]).resolves_to(
                    env,
                    reg,
                    ss,
                    Some(index_segs(path, i as usize)),
                    d,
                    Err(e),
                ),
        }
        }
    }

    #[verifier::loop_isolation(false)]
    fn resolve_output(
        &self,
        ss: &SelectionSet,
        path: &Option<QueryPathNode>,
        env: &Environment,
        registry: &Registry,
        depth: u32,
    ) -> (r: Result<Json, Error>)
        decreases depth, 2int,
    {
        if depth == 0 {
            return Err(QueryError::TooDeep.into_error(ss.span.0));
        }
        let d = depth - 1;
        let mut out: Vec<Json> = Vec::new();
        let n = self.len();
        for i in 0..n
            invariant
                n == self@.len(),
                out@.len() == i,
                forall|k: int| #![trigger out@[k]]
                    0 <= k < i ==> self@[k].resolves_to(
                        env@,
                        registry@,
                        selection_set_view(*ss),
                        Some(index_segs(opt_path_view(*path), k as usize)),
                        (depth - 1) as nat,
                        Ok(crate::value::json_view(out@[k])),
                    ),
            decreases n - i,
        {
            let child = index_path(path, i);
            match self[i].resolve_output(ss, &Some(child), env, registry, d) {
                Ok(v) => {
                    out.push(v);
                },
                Err(e) => {
                    proof {
                        assert(self@[i as int].resolves_to(
                            env@,
                            registry@,
                            selection_set_view(*ss),
                            Some(index_segs(opt_path_view(*path), i)),
                            (depth - 1) as nat,
                            Err(crate::error::error_view(e)),
                        ));
                    }
                    return Err(e);
                },
            }
        }
        proof {
            let jv = crate::value::json_view(Json::Array(out));
            assert(jv is Array);
            assert(jv->Array_0.len() == out@.len());
            assert forall|k: int| 0 <= k < self@.len() implies (#[trigger] self@[k]).resolves_to(
                env@,
                registry@,
                selection_set_view(*ss),
                Some(index_segs(opt_path_view(*path), k as usize)),
                (depth - 1) as nat,
                Ok(jv->Array_0[k]),
            ) by {
                assert(jv->Array_0[k] == crate::value::json_view(out@[k]));
            }
        }
        Ok(Json::Array(out))
    }
}

/// The empty mutation root: only a parameter for schemas without
/// mutations.
pub struct EmptyMutation;

impl ObjectType for EmptyMutation {
    open spec fn type_name_spec() -> Seq<char> {
        "EmptyMutation"@
    }

    open spec fn concrete_name_spec(&self) -> Seq<char> {
        "EmptyMutation"@
    }

    open spec fn is_empty_spec() -> bool {
        true
    }

    fn type_name_of() -> (r: String) {
        "EmptyMutation".to_owned()
    }

    fn introspection_type_name(&self) -> (r: String) {
        "EmptyMutation".to_owned()
    }

    fn is_empty() -> (r: bool) {
        true
    }

    fn create_type_info(registry: &mut Registry) -> (r: String) {
        let name = "EmptyMutation".to_owned();
        let info = MetaType::Object {
            name: "EmptyMutation".to_owned(),
            description: None,
            fields: Vec::new(),
            cache_control: crate::registry::CacheControl { public: true, max_age: 0 },
            extends: false,
            keys: None,
        };
        registry.register_type(&name, info)
    }

    /// Resolving any field of the empty root is always exactly the
    /// `NotConfiguredMutations` error at the field's position.
    open spec fn resolve_field_ens(
        &self,
        ctx: FieldContext,
        env: EnvironmentV,
        reg: RegistryV,
        depth: nat,
        r: Result<JsonV, ErrorV>,
    ) -> bool {
        r == Err::<JsonV, ErrorV>(
            error_at(
                crate::ast::field_view(ctx.field).position,
                QueryErrorV::NotConfiguredMutations,
            ),
        )
    }

    /// The empty root has no fields to resolve.
    fn resolve_field(
        &self,
        ctx: &FieldContext,
        env: &Environment,
        registry: &Registry,
        depth: u32,
    ) -> (r: Result<Json, Error>) {
        Err(QueryError::NotConfiguredMutations.into_error(ctx.field.position))
    }

    /// The empty root resolves no entity: always exactly the
    /// `NotSupported` error at the field's position.
    fn find_entity(
        &self,
        ctx: &FieldContext,
        env: &Environment,
        registry: &Registry,
        depth: u32,
        params: &Value,
    ) -> (r: Result<Json, Error>)
        ensures
            r matches Err(e) && e@ == error_at(
                crate::ast::field_view(ctx.field).position,
                QueryErrorV::NotSupported,
            ),
    {
        Err(QueryError::NotSupported.into_error(ctx.field.position))
    }

    fn matches_type_condition(&self, name: &String, registry: &Registry) -> (r: bool) {
        crate::resolver::default_matches_type_condition(
            &"EmptyMutation".to_owned(),
            name,
            registry,
        )
    }
}

impl OutputValueType for EmptyMutation {
    /// Selecting an unconfigured mutation root is always the
    /// `NotConfiguredMutations` error, raised at the selection's start.
    open spec fn resolves_to(
        &self,
        env: EnvironmentV,
        reg: RegistryV,
        ss: SelectionSetV,
        path: Option<Seq<QueryPathSegmentV>>,
        depth: nat,
        r: Result<JsonV, ErrorV>,
    ) -> bool {
        r == Err::<JsonV, ErrorV>(error_at(ss.span.0, QueryErrorV::NotConfiguredMutations))
    }

    fn resolve_output(
        &self,
        ss: &SelectionSet,
        path: &Option<QueryPathNode>,
        env: &Environment,
        registry: &Registry,
        depth: u32,
    ) -> (r: Result<Json, Error>) {
        Err(QueryError::NotConfiguredMutations.into_error(ss.span.0))
    }
}

} // verus!
