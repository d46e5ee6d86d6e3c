//! The field resolution engine: selection-set walking, fragment and
//! directive handling, `@defer`, and interface dispatch.

use vstd::prelude::*;
use crate::ast::{
    field_view, result_key, selection_set_view, Field, FieldV, Pos, SelectionSet, SelectionSetV,
    SelectionV, TypeConditionV,
};
use crate::base::FieldContext;
use crate::context::{
    find_fragment, is_defer_spec, skip_spec, Environment, EnvironmentV,
};
use crate::error::{Error, ErrorV};
use crate::path::{node_segs, path_json, QueryPathNode, QueryPathSegmentV};
use crate::registry::{reg_implements, Registry, RegistryV};
use crate::value::{Json, JsonV, Value};

verus! {

/// The model of a type name: a sequence of characters.  Exported so
/// that unverified implementors of the object protocol can write the
/// model signatures without naming the verifier's own library.
pub type NameModel = Seq<char>;

/// The model of a depth budget.  Exported for the same reason as
/// [`NameModel`].
pub type DepthModel = nat;

/// The view of an optional path node: the segments down to it.
pub open spec fn opt_path_view(p: Option<QueryPathNode>) -> Option<Seq<QueryPathSegmentV>> {
    match p {
        Some(n) => Some(node_segs(n)),
        None => None,
    }
}

/// The path segments of a child one result key below `parent`.
pub open spec fn child_segs(
    parent: Option<Seq<QueryPathSegmentV>>,
    key: Seq<char>,
) -> Seq<QueryPathSegmentV> {
    match parent {
        Some(ps) => ps.push(QueryPathSegmentV::Name(key)),
        None => seq![QueryPathSegmentV::Name(key)],
    }
}

/// View of a JSON-or-error result.
pub open spec fn res_json_view(r: Result<Json, Error>) -> Result<JsonV, ErrorV> {
    match r {
        Ok(j) => Ok(crate::value::json_view(j)),
        Err(e) => Err(crate::error::error_view(e)),
    }
}

/// A deferred unit of work: the serialized path the incremental response
/// will carry, and the field to resolve when driven.
pub struct DeferredField {
    pub path: Json,
    pub field: Field,
}

/// Mathematical model of a deferred unit.
pub struct DeferredFieldV {
    pub path: JsonV,
    pub field: FieldV,
}

pub open spec fn deferred_field_view(d: DeferredField) -> DeferredFieldV {
    DeferredFieldV { path: crate::value::json_view(d.path), field: field_view(d.field) }
}

impl View for DeferredField {
    type V = DeferredFieldV;

    open spec fn view(&self) -> DeferredFieldV {
        deferred_field_view(*self)
    }
}

pub open spec fn deferred_views(s: Seq<DeferredField>) -> Seq<DeferredFieldV> {
    s.map_values(|d: DeferredField| deferred_field_view(d))
}

/// How one surviving field will be answered.
pub enum FieldKindV {
    /// A `__typename` request: answered with the concrete type name.
    Typename,
    /// A deferred field: answered `null` now, resolved later.
    Deferred(FieldV),
    /// An ordinary field: answered by the object's resolver.
    User(FieldV),
}

/// One surviving field of a walk: its result key and how it is answered.
pub struct FieldPlanV {
    pub key: Seq<char>,
    pub kind: FieldKindV,
}

/// How a single surviving field will be answered.
pub open spec fn field_plan(f: FieldV, defer_active: bool) -> FieldPlanV {
    if f.name == "__typename"@ {
        FieldPlanV { key: result_key(f), kind: FieldKindV::Typename }
    } else if defer_active && is_defer_spec(f.directives) {
        FieldPlanV { key: result_key(f), kind: FieldKindV::Deferred(f) }
    } else {
        FieldPlanV { key: result_key(f), kind: FieldKindV::User(f) }
    }
}

/// The directives of a selection-set member.
pub open spec fn sel_directives(s: SelectionV) -> Seq<crate::ast::DirectiveV> {
    match s {
        SelectionV::Field(f) => f.directives,
        SelectionV::FragmentSpread(fs) => fs.directives,
        SelectionV::InlineFragment(inf) => inf.directives,
    }
}

/// Whether an object whose concrete type name is `cname` enters an inline
/// fragment conditioned on `cond`: the names match, or the registry
/// records that the type implements an interface of that name.
pub open spec fn incl_spec(cname: Seq<char>, reg: RegistryV, cond: Seq<char>) -> bool {
    cond == cname || reg_implements(reg, cname).contains(cond)
}

/// A walk failure: the error itself, and the fields the walk had already
/// answered before failing.  Tracking the prefix lets a caller know when
/// the engine's result must be exactly this error: only an earlier
/// user-resolved field could fail first.
pub struct WalkErrV {
    pub pre: Seq<FieldPlanV>,
    pub err: ErrorV,
}

/// Whether no plan in the list is answered by a user resolver.
pub open spec fn all_non_user(ps: Seq<FieldPlanV>) -> bool {
    forall|k: int| 0 <= k < ps.len() ==> !((#[trigger] ps[k]).kind is User)
}

/// The fields one selection-set member answers, or how evaluating the
/// member fails: a directive-policy error aborts with that error; a
/// spread of an unbound fragment is `UnknownFragment` at its position; an
/// exhausted depth budget is `TooDeep`; an elided or excluded member
/// answers no fields.
pub open spec fn one_sel_plans(
    env: EnvironmentV,
    reg: RegistryV,
    sel: SelectionV,
    cname: Seq<char>,
    defer_active: bool,
    depth: nat,
) -> Result<Seq<FieldPlanV>, WalkErrV>
    decreases depth, 0int, 0int,
{
    match skip_spec(env, sel_directives(sel)) {
        Err(e) => Err(WalkErrV { pre: Seq::empty(), err: e }),
        Ok(true) => Ok(Seq::empty()),
        Ok(false) => match sel {
            SelectionV::Field(f) => Ok(seq![field_plan(f, defer_active)]),
            SelectionV::FragmentSpread(fs) => match find_fragment(env.fragments, fs.fragment_name) {
                None => Err(
                    WalkErrV {
                        pre: Seq::empty(),
                        err: crate::error::error_at(
                            fs.position,
                            crate::error::QueryErrorV::UnknownFragment { name: fs.fragment_name },
                        ),
                    },
                ),
                Some(frag) => if depth == 0 {
                    Err(
                        WalkErrV {
                            pre: Seq::empty(),
                            err: crate::error::error_at(
                                fs.position,
                                crate::error::QueryErrorV::TooDeep,
                            ),
                        },
                    )
                } else {
                    sel_plans_set(env, reg, frag.selection_set, cname, defer_active, (depth - 1) as nat)
                },
            },
            SelectionV::InlineFragment(inf) => match inf.type_condition {
                Some(TypeConditionV::On(nm)) => if incl_spec(cname, reg, nm) {
                    if depth == 0 {
                        Err(
                            WalkErrV {
                                pre: Seq::empty(),
                                err: crate::error::error_at(
                                    inf.position,
                                    crate::error::QueryErrorV::TooDeep,
                                ),
                            },
                        )
                    } else {
                        sel_plans_set(env, reg, inf.selection_set, cname, defer_active, (depth - 1) as nat)
                    }
                } else {
                    Ok(Seq::empty())
                },
                None => if depth == 0 {
                    Err(
                        WalkErrV {
                            pre: Seq::empty(),
                            err: crate::error::error_at(
                                inf.position,
                                crate::error::QueryErrorV::TooDeep,
                            ),
                        },
                    )
                } else {
                    sel_plans_set(env, reg, inf.selection_set, cname, defer_active, (depth - 1) as nat)
                },
            },
        },
    }
}

/// The fields a list of members answers, in order; the first failing
/// member fails the list, the fields answered before it recorded.
pub open spec fn sel_plans_items(
    env: EnvironmentV,
    reg: RegistryV,
    items: Seq<SelectionV>,
    cname: Seq<char>,
    defer_active: bool,
    depth: nat,
) -> Result<Seq<FieldPlanV>, WalkErrV>
    decreases depth, 1int, items.len(),
{
    if items.len() == 0 {
        Ok(Seq::empty())
    } else {
        match one_sel_plans(env, reg, items[0], cname, defer_active, depth) {
            Err(w) => Err(w),
            Ok(p) => match sel_plans_items(env, reg, items.skip(1), cname, defer_active, depth) {
                Err(w) => Err(WalkErrV { pre: p + w.pre, err: w.err }),
                Ok(t) => Ok(p + t),
            },
        }
    }
}

/// The fields a whole selection set answers; an empty selection set is
/// the `MustHaveSubFields` failure at the set's start, naming the
/// object's concrete type.
pub open spec fn sel_plans_set(
    env: EnvironmentV,
    reg: RegistryV,
    ss: SelectionSetV,
    cname: Seq<char>,
    defer_active: bool,
    depth: nat,
) -> Result<Seq<FieldPlanV>, WalkErrV>
    decreases depth, 2int, 0int,
{
    if ss.items.len() == 0 {
        Err(
            WalkErrV {
                pre: Seq::empty(),
                err: crate::error::error_at(
                    ss.span.0,
                    crate::error::QueryErrorV::MustHaveSubFields { object: cname },
                ),
            },
        )
    } else {
        sel_plans_items(env, reg, ss.items, cname, defer_active, depth)
    }
}

/// The deferred units a plan list queues, in order: one per deferred
/// field, carrying the serialized child path and the field.
pub open spec fn deferred_of(
    plans: Seq<FieldPlanV>,
    parent: Option<Seq<QueryPathSegmentV>>,
) -> Seq<DeferredFieldV>
    decreases plans.len(),
{
    if plans.len() == 0 {
        Seq::empty()
    } else {
        let rest = deferred_of(plans.skip(1), parent);
        match plans[0].kind {
            FieldKindV::Deferred(f) => seq![
                DeferredFieldV { path: path_json(child_segs(parent, plans[0].key)), field: f },
            ] + rest,
            _ => rest,
        }
    }
}

/// Whether a produced response pair answers a planned field: the key
/// matches; a `__typename` plan is answered with the concrete type name; a
/// deferred plan is answered `null`.
pub open spec fn pair_matches(p: (String, Json), plan: FieldPlanV, cname: Seq<char>) -> bool {
    &&& p.0@ == plan.key
    &&& match plan.kind {
        FieldKindV::Typename => crate::value::json_view(p.1) == JsonV::Str(cname),
        FieldKindV::Deferred(_) => crate::value::json_view(p.1) == JsonV::Null,
        FieldKindV::User(_) => true,
    }
}

/// That a walk appended exactly the planned pairs to `out` and the planned
/// deferred units to the defer list.
pub open spec fn plans_applied(
    plans: Seq<FieldPlanV>,
    cname: Seq<char>,
    parent: Option<Seq<QueryPathSegmentV>>,
    out0: Seq<(String, Json)>,
    out1: Seq<(String, Json)>,
    d0: Seq<DeferredFieldV>,
    d1: Seq<DeferredFieldV>,
) -> bool {
    &&& out1.len() == out0.len() + plans.len()
    &&& forall|k: int| 0 <= k < out0.len() ==> out1[k] == out0[k]
    &&& forall|k: int|
        0 <= k < plans.len() ==> pair_matches(out1[out0.len() + k], #[trigger] plans[k], cname)
    &&& d1 == d0 + deferred_of(plans, parent)
}

/// The contract of a selection-set walk appending to `out` and `defer`,
/// stated over the walk's outcome `res` (`None` for success, the error's
/// view otherwise): when the walk plan fails, the call fails, and with
/// that very error unless a user-resolved field preceded the failure;
/// when the plan succeeds, a successful call applied exactly the planned
/// pairs, and success is owed whenever no planned field needs a user
/// resolver.
pub open spec fn collect_ens(
    env: EnvironmentV,
    reg: RegistryV,
    ss: SelectionSetV,
    cname: Seq<char>,
    defer_active: bool,
    depth: nat,
    parent: Option<Seq<QueryPathSegmentV>>,
    out0: Seq<(String, Json)>,
    out1: Seq<(String, Json)>,
    d0: Seq<DeferredFieldV>,
    d1: Seq<DeferredFieldV>,
    res: Option<ErrorV>,
) -> bool {
    match sel_plans_set(env, reg, ss, cname, defer_active, depth) {
        Err(w) => res is Some && (all_non_user(w.pre) ==> res == Some(w.err)),
        Ok(plans) => {
            &&& (res is None ==> plans_applied(plans, cname, parent, out0, out1, d0, d1))
            &&& (all_non_user(plans) ==> res is None)
        },
    }
}

/// The view of a walk's result: `None` for success, the error otherwise.
pub open spec fn res_unit_view(r: Result<(), Error>) -> Option<ErrorV> {
    match r {
        Ok(_) => None,
        Err(e) => Some(crate::error::error_view(e)),
    }
}

/// The contract of an object's contribution to a type-conditioned inline
/// fragment: outside the condition nothing changes and no error arises;
/// inside it, an exhausted depth budget is exactly `TooDeep` at the
/// fragment's position, else the walk of the fragment's selection set
/// applies one level down.
pub open spec fn inline_ens(
    env: EnvironmentV,
    reg: RegistryV,
    cond: Seq<char>,
    pos: Pos,
    ss: SelectionSetV,
    cname: Seq<char>,
    defer_active: bool,
    depth: nat,
    parent: Option<Seq<QueryPathSegmentV>>,
    out0: Seq<(String, Json)>,
    out1: Seq<(String, Json)>,
    d0: Seq<DeferredFieldV>,
    d1: Seq<DeferredFieldV>,
    res: Option<ErrorV>,
) -> bool {
    if incl_spec(cname, reg, cond) {
        if depth == 0 {
            res == Some(crate::error::error_at(pos, crate::error::QueryErrorV::TooDeep)) && out1
                == out0 && d1 == d0
        } else {
            collect_ens(
                env,
                reg,
                ss,
                cname,
                defer_active,
                (depth - 1) as nat,
                parent,
                out0,
                out1,
                d0,
                d1,
                res,
            )
        }
    } else {
        res is None && out1 == out0 && d1 == d0
    }
}

/// A GraphQL object: a type whose fields the engine resolves one by one.
pub trait ObjectType {
    /// The schema-level name of this type.
    spec fn type_name_spec() -> Seq<char>;

    /// The concrete type tag of this value; differs from the schema name
    /// only for interface values, where it names the active variant.
    spec fn concrete_name_spec(&self) -> Seq<char>;

    /// Whether this type is the empty unit root.
    spec fn is_empty_spec() -> bool;

    /// The schema-level name of this type.
    fn type_name_of() -> (r: String)
        ensures
            r@ == Self::type_name_spec(),
    ;

    /// The concrete type tag of this value, as `__typename` reports it.
    fn introspection_type_name(&self) -> (r: String)
        ensures
            r@ == self.concrete_name_spec(),
    ;

    /// Whether this type is the empty unit root.
    fn is_empty() -> (r: bool)
        ensures
            r == Self::is_empty_spec(),
    ;

    /// Registers this type and what it depends on; returns the type
    /// name, under which an entry is then registered.
    fn create_type_info(registry: &mut Registry) -> (r: String)
        ensures
            r@ == Self::type_name_spec(),
            crate::registry::reg_type(final (registry)@, Self::type_name_spec()) is Some,
            forall|nm: Seq<char>|
                #[trigger] crate::registry::reg_type(old(registry)@, nm) is Some
                    ==> crate::registry::reg_type(final (registry)@, nm) is Some,
    ;

    /// Which results are admissible when this object resolves one
    /// field: each implementation's own contract for its resolvers.  An
    /// implementation with nothing to promise states `true`.
    spec fn resolve_field_ens(
        &self,
        ctx: FieldContext,
        env: EnvironmentV,
        reg: RegistryV,
        depth: nat,
        r: Result<JsonV, ErrorV>,
    ) -> bool;

    /// Resolves one field of this object, yielding a result
    /// [`Self::resolve_field_ens`] admits; beyond that, what it returns
    /// is the object's own business, stored under the field's result
    /// key.
    fn resolve_field(
        &self,
        ctx: &FieldContext,
        env: &Environment,
        registry: &Registry,
        depth: u32,
    ) -> (r: Result<Json, Error>)
        ensures
            self.resolve_field_ens(*ctx, env@, registry@, depth as nat, res_json_view(r)),
        decreases depth, 3int,
    ;

    /// Resolves a federation entity representation.
    fn find_entity(
        &self,
        ctx: &FieldContext,
        env: &Environment,
        registry: &Registry,
        depth: u32,
        params: &Value,
    ) -> (r: Result<Json, Error>)
        decreases depth, 3int,
    ;

    /// Whether this value enters an inline fragment conditioned on
    /// `name`: the condition names its concrete type, or an interface the
    /// registry records that type as implementing.  Interface values
    /// answer for their active variant.
    fn matches_type_condition(&self, name: &String, registry: &Registry) -> (r: bool)
        ensures
            r == incl_spec(self.concrete_name_spec(), registry@, name@),
    ;
}

/// The inclusion rule every plain object follows: its own type name, or
/// an interface the registry records it as implementing.
pub fn default_matches_type_condition(cname: &String, name: &String, registry: &Registry) -> (r:
    bool)
    ensures
        r == incl_spec(cname@, registry@, name@),
{
    if crate::context::str_eq_lit(name, cname.as_str()) {
        true
    } else {
        registry.implements_interface(cname, name)
    }
}

/// A value that can stand in a response: scalars serialize directly,
/// lists element by element, objects by a selection-set walk.
pub trait OutputValueType {
    /// Which results are correct resolutions of this value against the
    /// given selection set and path.
    spec fn resolves_to(
        &self,
        env: EnvironmentV,
        reg: RegistryV,
        ss: SelectionSetV,
        path: Option<Seq<QueryPathSegmentV>>,
        depth: nat,
        r: Result<JsonV, ErrorV>,
    ) -> bool;

    /// Resolves this value, yielding a result [`Self::resolves_to`]
    /// admits.
    fn resolve_output(
        &self,
        ss: &SelectionSet,
        path: &Option<QueryPathNode>,
        env: &Environment,
        registry: &Registry,
        depth: u32,
    ) -> (r: Result<Json, Error>)
        ensures
            self.resolves_to(
                env@,
                registry@,
                selection_set_view(*ss),
                opt_path_view(*path),
                depth as nat,
                res_json_view(r),
            ),
        decreases depth, 3int,
    ;
}

/// Splitting the plans of a member list at its head.
proof fn lemma_plans_take_step(
    env: EnvironmentV,
    reg: RegistryV,
    items: Seq<SelectionV>,
    cname: Seq<char>,
    defer_active: bool,
    depth: nat,
    i: int,
)
    requires
        0 <= i < items.len(),
    ensures
        sel_plans_items(env, reg, items.take(i + 1), cname, defer_active, depth) == (match (
            sel_plans_items(env, reg, items.take(i), cname, defer_active, depth),
            one_sel_plans(env, reg, items[i], cname, defer_active, depth),
        ) {
            (Ok(p), Ok(q)) => Ok::<Seq<FieldPlanV>, WalkErrV>(p + q),
            (Ok(p), Err(w)) => Err(WalkErrV { pre: p + w.pre, err: w.err }),
            (Err(w), _) => Err(w),
        }),
    decreases i,
{
    let pre = items.take(i);
    let pre1 = items.take(i + 1);
    if i == 0 {
        assert(pre =~= Seq::<SelectionV>::empty());
        assert(pre1 =~= seq![items[0]]);
        assert(pre1[0] == items[0]);
        assert(pre1.skip(1) =~= Seq::<SelectionV>::empty());
        assert(sel_plans_items(env, reg, Seq::<SelectionV>::empty(), cname, defer_active, depth)
            == Ok::<Seq<FieldPlanV>, WalkErrV>(Seq::<FieldPlanV>::empty()));
        match one_sel_plans(env, reg, items[0], cname, defer_active, depth) {
            Ok(q) => {
                assert(Seq::<FieldPlanV>::empty() + q =~= q);
                assert(q + Seq::<FieldPlanV>::empty() =~= q);
            },
            Err(w) => {
                assert(Seq::<FieldPlanV>::empty() + w.pre =~= w.pre);
            },
        }
    } else {
        lemma_plans_take_step(env, reg, items.skip(1), cname, defer_active, depth, i - 1);
        assert(pre[0] == items[0]);
        assert(pre1[0] == items[0]);
        assert(pre.skip(1) =~= items.skip(1).take(i - 1));
        assert(pre1.skip(1) =~= items.skip(1).take(i));
        assert(items.skip(1)[i - 1] == items[i]);
        match (
            sel_plans_items(env, reg, items.skip(1).take(i - 1), cname, defer_active, depth),
            one_sel_plans(env, reg, items[i], cname, defer_active, depth),
            one_sel_plans(env, reg, items[0], cname, defer_active, depth),
        ) {
            (Ok(p), Ok(q), Ok(h)) => {
                assert(h + (p + q) =~= (h + p) + q);
            },
            (Ok(p), Err(w), Ok(h)) => {
                assert(h + (p + w.pre) =~= (h + p) + w.pre);
            },
            _ => {},
        }
    }
}

/// Splitting the plans of a member list at any point: the whole list's
/// outcome is the prefix's plans joined with the suffix's outcome.
proof fn lemma_plans_split(
    env: EnvironmentV,
    reg: RegistryV,
    items: Seq<SelectionV>,
    cname: Seq<char>,
    defer_active: bool,
    depth: nat,
    i: int,
)
    requires
        0 <= i <= items.len(),
    ensures
        sel_plans_items(env, reg, items, cname, defer_active, depth) == (match (
            sel_plans_items(env, reg, items.take(i), cname, defer_active, depth),
            sel_plans_items(env, reg, items.skip(i), cname, defer_active, depth),
        ) {
            (Ok(a), Ok(b)) => Ok::<Seq<FieldPlanV>, WalkErrV>(a + b),
            (Ok(a), Err(w)) => Err(WalkErrV { pre: a + w.pre, err: w.err }),
            (Err(w), _) => Err(w),
        }),
    decreases i,
{
    if i == 0 {
        assert(items.take(0) =~= Seq::<SelectionV>::empty());
        assert(items.skip(0) =~= items);
        match sel_plans_items(env, reg, items, cname, defer_active, depth) {
            Ok(b) => {
                assert(Seq::<FieldPlanV>::empty() + b =~= b);
            },
            Err(w) => {
                assert(Seq::<FieldPlanV>::empty() + w.pre =~= w.pre);
            },
        }
    } else {
        lemma_plans_split(env, reg, items.skip(1), cname, defer_active, depth, i - 1);
        assert(items.take(i)[0] == items[0]);
        assert(items.take(i).skip(1) =~= items.skip(1).take(i - 1));
        assert(items.skip(1).skip(i - 1) =~= items.skip(i));
        match (
            sel_plans_items(env, reg, items.skip(1).take(i - 1), cname, defer_active, depth),
            sel_plans_items(env, reg, items.skip(i), cname, defer_active, depth),
            one_sel_plans(env, reg, items[0], cname, defer_active, depth),
        ) {
            (Ok(a), Ok(b), Ok(h)) => {
                assert(h + (a + b) =~= (h + a) + b);
            },
            (Ok(a), Err(w), Ok(h)) => {
                assert(h + (a + w.pre) =~= (h + a) + w.pre);
            },
            _ => {},
        }
    }
}

/// No plan of a concatenation is user-resolved exactly when none of
/// either part is.
proof fn lemma_all_non_user_concat(p1: Seq<FieldPlanV>, p2: Seq<FieldPlanV>)
    ensures
        all_non_user(p1 + p2) == (all_non_user(p1) && all_non_user(p2)),
{
    if all_non_user(p1) && all_non_user(p2) {
        assert forall|k: int| 0 <= k < (p1 + p2).len() implies !((#[trigger] (p1 + p2)[k]).kind
            is User) by {
            if k < p1.len() {
                assert((p1 + p2)[k] == p1[k]);
            } else {
                assert((p1 + p2)[k] == p2[k - p1.len()]);
            }
        }
    }
    if all_non_user(p1 + p2) {
        assert forall|k: int| 0 <= k < p1.len() implies !((#[trigger] p1[k]).kind is User) by {
            assert((p1 + p2)[k] == p1[k]);
        }
        assert forall|k: int| 0 <= k < p2.len() implies !((#[trigger] p2[k]).kind is User) by {
            assert((p1 + p2)[p1.len() + k] == p2[k]);
        }
    }
}

/// When the member at `i` fails after a successful prefix, the whole
/// list fails with that member's error, behind the prefix's plans.
proof fn lemma_item_fails(
    env: EnvironmentV,
    reg: RegistryV,
    items: Seq<SelectionV>,
    cname: Seq<char>,
    defer_active: bool,
    depth: nat,
    i: int,
)
    requires
        0 <= i < items.len(),
        sel_plans_items(env, reg, items.take(i), cname, defer_active, depth) is Ok,
        one_sel_plans(env, reg, items[i], cname, defer_active, depth) is Err,
    ensures
        sel_plans_items(env, reg, items, cname, defer_active, depth) matches Err(w) && w.err
            == one_sel_plans(env, reg, items[i], cname, defer_active, depth)->Err_0.err && w.pre
            == sel_plans_items(env, reg, items.take(i), cname, defer_active, depth)->Ok_0
            + one_sel_plans(env, reg, items[i], cname, defer_active, depth)->Err_0.pre,
{
    lemma_plans_split(env, reg, items, cname, defer_active, depth, i);
    assert(items.skip(i).len() == items.len() - i);
    assert(items.skip(i)[0] == items[i]);
    assert(items.skip(i).skip(1) =~= items.skip(i + 1));
}

/// When the member at `i` answers a user-resolved field, no outcome of
/// the whole list is free of user-resolved fields.
proof fn lemma_user_prefix_absolves(
    env: EnvironmentV,
    reg: RegistryV,
    items: Seq<SelectionV>,
    cname: Seq<char>,
    defer_active: bool,
    depth: nat,
    i: int,
)
    requires
        0 <= i < items.len(),
        sel_plans_items(env, reg, items.take(i), cname, defer_active, depth) is Ok,
        one_sel_plans(env, reg, items[i], cname, defer_active, depth) is Ok,
        !all_non_user(one_sel_plans(env, reg, items[i], cname, defer_active, depth)->Ok_0),
    ensures
        match sel_plans_items(env, reg, items, cname, defer_active, depth) {
            Ok(ps) => !all_non_user(ps),
            Err(w) => !all_non_user(w.pre),
        },
{
    lemma_plans_split(env, reg, items, cname, defer_active, depth, i);
    assert(items.skip(i).len() == items.len() - i);
    assert(items.skip(i)[0] == items[i]);
    assert(items.skip(i).skip(1) =~= items.skip(i + 1));
    let pre = sel_plans_items(env, reg, items.take(i), cname, defer_active, depth)->Ok_0;
    let p = one_sel_plans(env, reg, items[i], cname, defer_active, depth)->Ok_0;
    match sel_plans_items(env, reg, items.skip(i + 1), cname, defer_active, depth) {
        Ok(t) => {
            lemma_all_non_user_concat(p, t);
            lemma_all_non_user_concat(pre, p + t);
        },
        Err(w2) => {
            lemma_all_non_user_concat(p, w2.pre);
            lemma_all_non_user_concat(pre, p + w2.pre);
        },
    }
}

/// Deferred units distribute over plan concatenation.
proof fn lemma_deferred_of_concat(
    p1: Seq<FieldPlanV>,
    p2: Seq<FieldPlanV>,
    parent: Option<Seq<QueryPathSegmentV>>,
)
    ensures
        deferred_of(p1 + p2, parent) == deferred_of(p1, parent) + deferred_of(p2, parent),
    decreases p1.len(),
{
    if p1.len() == 0 {
        assert(p1 + p2 =~= p2);
        assert(deferred_of(p1, parent) =~= Seq::<DeferredFieldV>::empty());
        assert(deferred_of(p1, parent) + deferred_of(p2, parent) =~= deferred_of(p2, parent));
    } else {
        lemma_deferred_of_concat(p1.skip(1), p2, parent);
        assert((p1 + p2)[0] == p1[0]);
        assert((p1 + p2).skip(1) =~= p1.skip(1) + p2);
        match p1[0].kind {
            FieldKindV::Deferred(f) => {
                let u = seq![
                    DeferredFieldV { path: path_json(child_segs(parent, p1[0].key)), field: f },
                ];
                assert(u + (deferred_of(p1.skip(1), parent) + deferred_of(p2, parent)) =~= (u
                    + deferred_of(p1.skip(1), parent)) + deferred_of(p2, parent));
            },
            _ => {},
        }
    }
}

/// Two applied walks in sequence apply their concatenated plans.
proof fn lemma_plans_applied_concat(
    p1: Seq<FieldPlanV>,
    p2: Seq<FieldPlanV>,
    cname: Seq<char>,
    parent: Option<Seq<QueryPathSegmentV>>,
    out0: Seq<(String, Json)>,
    out1: Seq<(String, Json)>,
    out2: Seq<(String, Json)>,
    d0: Seq<DeferredFieldV>,
    d1: Seq<DeferredFieldV>,
    d2: Seq<DeferredFieldV>,
)
    requires
        plans_applied(p1, cname, parent, out0, out1, d0, d1),
        plans_applied(p2, cname, parent, out1, out2, d1, d2),
    ensures
        plans_applied(p1 + p2, cname, parent, out0, out2, d0, d2),
{
    lemma_deferred_of_concat(p1, p2, parent);
    assert(d2 =~= d0 + deferred_of(p1 + p2, parent));
    assert forall|k: int| 0 <= k < (p1 + p2).len() implies pair_matches(
        out2[out0.len() + k],
        #[trigger] (p1 + p2)[k],
        cname,
    ) by {
        if k < p1.len() {
            assert((p1 + p2)[k] == p1[k]);
            assert(out2[out0.len() + k] == out1[out0.len() + k]);
        } else {
            assert((p1 + p2)[k] == p2[k - p1.len()]);
            assert(out2[out0.len() + k] == out2[out1.len() + (k - p1.len())]);
        }
    }
}

/// Looks up a fragment definition by name in the environment.
#[verifier::loop_isolation(false)]
pub fn lookup_fragment<'a>(env: &'a Environment, name: &String) -> (r: Option<
    &'a crate::ast::FragmentDefinition,
>)
    ensures
        match r {
            Some(f) => find_fragment(env@.fragments, name@) == Some(
                crate::ast::fragment_definition_view(*f),
            ),
            None => find_fragment(env@.fragments, name@) is None,
        },
{
    let ghost fsv = env@.fragments;
    let n = env.fragments.len();
    for j in 0..n
        invariant
            n == env.fragments@.len(),
            fsv.len() == n,
            forall|k: int|
                0 <= k < n ==> fsv[k] == (
                env.fragments@[k].0@,
                crate::ast::fragment_definition_view(env.fragments@[k].1),
                ),
            forall|k: int| 0 <= k < j ==> fsv[k].0 != name@,
        decreases n - j,
    {
        if crate::context::str_eq_lit(&env.fragments[j].0, name.as_str()) {
            proof {
                lemma_find_fragment_at(fsv, name@, j as int);
            }
            return Some(&env.fragments[j].1);
        }
    }
    proof {
        lemma_find_fragment_none(fsv, name@);
    }
    None
}

/// Fragment lookup finds the first binding.
proof fn lemma_find_fragment_at(
    fs: Seq<(Seq<char>, crate::ast::FragmentDefinitionV)>,
    name: Seq<char>,
    j: int,
)
    requires
        0 <= j < fs.len(),
        fs[j].0 == name,
        forall|k: int| 0 <= k < j ==> fs[k].0 != name,
    ensures
        find_fragment(fs, name) == Some(fs[j].1),
    decreases j,
{
    if j > 0 {
        lemma_find_fragment_at(fs.skip(1), name, j - 1);
    }
}

/// Fragment lookup finds nothing when nothing is bound.
proof fn lemma_find_fragment_none(
    fs: Seq<(Seq<char>, crate::ast::FragmentDefinitionV)>,
    name: Seq<char>,
)
    requires
        forall|k: int| 0 <= k < fs.len() ==> fs[k].0 != name,
    ensures
        find_fragment(fs, name) is None,
    decreases fs.len(),
{
    if fs.len() > 0 {
        lemma_find_fragment_none(fs.skip(1), name);
    }
}

/// The path node one result key below `path`.
pub fn child_path(path: &Option<QueryPathNode>, key: &String) -> (r: QueryPathNode)
    ensures
        node_segs(r) == child_segs(opt_path_view(*path), key@),
{
    let parent = match path {
        Some(p) => Some(Box::new(p.clone_node())),
        None => None,
    };
    let r = QueryPathNode {
        parent,
        segment: crate::path::QueryPathSegment::Name(key.clone()),
    };
    proof {
        assert(node_segs(r) =~= child_segs(opt_path_view(*path), key@));
    }
    r
}

/// Walks a selection set against `root`, appending one response pair per
/// surviving field to `out` and one deferred unit per deferred field to
/// `defer`, exactly as [`collect_ens`] states; fragment and inline
/// descents consume one level of `depth`, as does handing a field to its
/// resolver.
#[verifier::loop_isolation(false)]
pub fn collect_fields<T: ObjectType>(
    root: &T,
    ss: &SelectionSet,
    path: &Option<QueryPathNode>,
    env: &Environment,
    registry: &Registry,
    depth: u32,
    defer_active: bool,
    defer: &mut Vec<DeferredField>,
    out: &mut Vec<(String, Json)>,
) -> (r: Result<(), Error>)
    ensures
        collect_ens(
            env@,
            registry@,
            selection_set_view(*ss),
            root.concrete_name_spec(),
            defer_active,
            depth as nat,
            opt_path_view(*path),
            old(out)@,
            final (out)@,
            deferred_views(old(defer)@),
            deferred_views(final (defer)@),
            res_unit_view(r),
        ),
    decreases depth, 1int,
{
    let ghost cname = root.concrete_name_spec();
    let ghost parentv = opt_path_view(*path);
    let ghost ssv = selection_set_view(*ss);
    let ghost itemsv = ssv.items;
    let ghost dep = depth as nat;
    let ghost out0 = out@;
    let ghost d0 = deferred_views(defer@);
    if ss.items.len() == 0 {
        let tn = root.introspection_type_name();
        let e = crate::error::QueryError::MustHaveSubFields { object: tn }.into_error(ss.span.0);
        proof {
            assert(crate::error::error_view(e) == sel_plans_set(
                env@,
                registry@,
                ssv,
                cname,
                defer_active,
                dep,
            )->Err_0.err);
        }
        return Err(e);
    }
    let n = ss.items.len();
    let mut i: usize = 0;
    proof {
        assert(itemsv.take(0) =~= Seq::<SelectionV>::empty());
        assert(plans_applied(
            Seq::<FieldPlanV>::empty(),
            cname,
            parentv,
            out0,
            out@,
            d0,
            deferred_views(defer@),
        )) by {
            assert(deferred_views(defer@) =~= d0 + deferred_of(
                Seq::<FieldPlanV>::empty(),
                parentv,
            ));
        };
    }
    while i < n
        invariant
            0 <= i <= n,
            n == ss.items@.len(),
            itemsv.len() == n,
            forall|k: int| 0 <= k < n ==> itemsv[k] == crate::ast::selection_view(ss.items@[k]),
            sel_plans_items(env@, registry@, itemsv.take(i as int), cname, defer_active, dep)
                is Ok,
            plans_applied(
                sel_plans_items(env@, registry@, itemsv.take(i as int), cname, defer_active, dep)
                    ->Ok_0,
                cname,
                parentv,
                out0,
                out@,
                d0,
                deferred_views(defer@),
            ),
        decreases n - i,
    {
        let ghost pre = sel_plans_items(
            env@,
            registry@,
            itemsv.take(i as int),
            cname,
            defer_active,
            dep,
        )->Ok_0;
        let ghost one = one_sel_plans(env@, registry@, itemsv[i as int], cname, defer_active, dep);
        let ghost out_pre = out@;
        let ghost d_pre = deferred_views(defer@);
        proof {
            lemma_plans_take_step(env@, registry@, itemsv, cname, defer_active, dep, i as int);
        }
        let sel = &ss.items[i];
        match sel {
            crate::ast::Selection::Field(field) => {
                match crate::context::is_skip(env, &field.directives) {
                    Err(e) => {
                        proof {
                            assert(one matches Err(w) && w.pre == Seq::<FieldPlanV>::empty()
                                && w.err == crate::error::error_view(e));
                            lemma_item_fails(env@, registry@, itemsv, cname, defer_active, dep, i as int);
                        }
                        return Err(e);
                    },
                    Ok(true) => {
                        proof {
                            assert(one == Ok::<Seq<FieldPlanV>, WalkErrV>(Seq::<FieldPlanV>::empty()));
                            assert(pre + Seq::<FieldPlanV>::empty() =~= pre);
                        }
                    },
                    Ok(false) => {
                        let ghost f = crate::ast::field_view(*field);
                        let ghost plan = field_plan(f, defer_active);
                        let key = crate::context::result_name(field);
                        if crate::context::str_eq_lit(&field.name, "__typename") {
                            let tn = root.introspection_type_name();
                            let keyc = key.clone();
                            out.push((keyc, Json::Str(tn)));
                            proof {
                                assert(f.name == "__typename"@);
                                assert(plan.kind is Typename);
                                lemma_one_plan_applied(plan, cname, parentv, out_pre, out@, d_pre, deferred_views(defer@));
                                lemma_plans_applied_concat(pre, seq![plan], cname, parentv, out0, out_pre, out@, d0, d_pre, deferred_views(defer@));
                                assert(pre.push(plan) =~= pre + seq![plan]);
                            }
                        } else {
                            let deferred = if defer_active {
                                crate::context::is_defer(&field.directives)
                            } else {
                                false
                            };
                            if deferred {
                                let child = child_path(path, key);
                                let pj = child.to_json();
                                let fc = crate::ast::clone_field(field);
                                let keyc = key.clone();
                                defer.push(DeferredField { path: pj, field: fc });
                                out.push((keyc, Json::Null));
                                proof {
                                    assert(f.name != "__typename"@);
                                    assert(plan.kind is Deferred);
                                    assert(deferred_views(defer@) =~= d_pre.push(
                                        DeferredFieldV {
                                            path: path_json(child_segs(parentv, plan.key)),
                                            field: f,
                                        },
                                    ));
                                    lemma_one_plan_applied(plan, cname, parentv, out_pre, out@, d_pre, deferred_views(defer@));
                                    lemma_plans_applied_concat(pre, seq![plan], cname, parentv, out0, out_pre, out@, d0, d_pre, deferred_views(defer@));
                                    assert(pre.push(plan) =~= pre + seq![plan]);
                                }
                            } else {
                                proof {
                                    assert(f.name != "__typename"@);
                                    assert(plan.kind is User);
                                    assert(one == Ok::<Seq<FieldPlanV>, WalkErrV>(seq![plan]));
                                    assert(!all_non_user(seq![plan])) by {
                                        assert(seq![plan][0].kind is User);
                                    };
                                    lemma_user_prefix_absolves(env@, registry@, itemsv, cname, defer_active, dep, i as int);
                                }
                                if depth == 0 {
                                    return Err(
                                        crate::error::QueryError::TooDeep.into_error(
                                            field.position,
                                        ),
                                    );
                                }
                                let child = child_path(path, key);
                                let fc = crate::ast::clone_field(field);
                                let ctx = FieldContext { field: fc, path: Some(child) };
                                match root.resolve_field(&ctx, env, registry, depth - 1) {
                                    Err(e) => {
                                        return Err(e);
                                    },
                                    Ok(v) => {
                                        let keyc = key.clone();
                                        out.push((keyc, v));
                                        proof {
                                            lemma_one_plan_applied(plan, cname, parentv, out_pre, out@, d_pre, deferred_views(defer@));
                                            lemma_plans_applied_concat(pre, seq![plan], cname, parentv, out0, out_pre, out@, d0, d_pre, deferred_views(defer@));
                                            assert(pre.push(plan) =~= pre + seq![plan]);
                                        }
                                    },
                                }
                            }
                        }
                    },
                }
            },
            crate::ast::Selection::FragmentSpread(spread) => {
                match crate::context::is_skip(env, &spread.directives) {
                    Err(e) => {
                        proof {
                            assert(one matches Err(w) && w.pre == Seq::<FieldPlanV>::empty()
                                && w.err == crate::error::error_view(e));
                            lemma_item_fails(env@, registry@, itemsv, cname, defer_active, dep, i as int);
                        }
                        return Err(e);
                    },
                    Ok(true) => {
                        proof {
                            assert(pre + Seq::<FieldPlanV>::empty() =~= pre);
                        }
                    },
                    Ok(false) => {
                        match lookup_fragment(env, &spread.fragment_name) {
                            None => {
                                let e = crate::error::QueryError::UnknownFragment {
                                    name: spread.fragment_name.clone(),
                                }.into_error(spread.position);
                                proof {
                                    assert(one matches Err(w) && w.pre == Seq::<
                                        FieldPlanV,
                                    >::empty() && w.err == crate::error::error_view(e));
                                    lemma_item_fails(env@, registry@, itemsv, cname, defer_active, dep, i as int);
                                }
                                return Err(e);
                            },
                            Some(fragment) => {
                                if depth == 0 {
                                    let e = crate::error::QueryError::TooDeep.into_error(
                                        spread.position,
                                    );
                                    proof {
                                        assert(one matches Err(w) && w.pre == Seq::<
                                            FieldPlanV,
                                        >::empty() && w.err == crate::error::error_view(e));
                                        lemma_item_fails(env@, registry@, itemsv, cname, defer_active, dep, i as int);
                                    }
                                    return Err(e);
                                }
                                let frag_ss = clone_fragment_selection_set(fragment);
                                let ghost sub = sel_plans_set(
                                    env@,
                                    registry@,
                                    selection_set_view(frag_ss),
                                    cname,
                                    defer_active,
                                    (dep - 1) as nat,
                                );
                                match collect_fields(
                                    root,
                                    &frag_ss,
                                    path,
                                    env,
                                    registry,
                                    depth - 1,
                                    defer_active,
                                    defer,
                                    out,
                                ) {
                                    Err(e) => {
                                        proof {
                                            match sub {
                                                Err(sw) => {
                                                    assert(one == Err::<Seq<FieldPlanV>, WalkErrV>(sw));
                                                    lemma_item_fails(env@, registry@, itemsv, cname, defer_active, dep, i as int);
                                                    let w = sel_plans_items(env@, registry@, itemsv, cname, defer_active, dep)->Err_0;
                                                    if all_non_user(w.pre) {
                                                        lemma_all_non_user_concat(pre, sw.pre);
                                                    }
                                                },
                                                Ok(pp) => {
                                                    assert(!all_non_user(pp));
                                                    assert(one == Ok::<Seq<FieldPlanV>, WalkErrV>(pp));
                                                    lemma_user_prefix_absolves(env@, registry@, itemsv, cname, defer_active, dep, i as int);
                                                },
                                            }
                                        }
                                        return Err(e);
                                    },
                                    Ok(()) => {
                                        proof {
                                            assert(sub is Ok);
                                            lemma_plans_applied_concat(
                                                pre,
                                                sub->Ok_0,
                                                cname,
                                                parentv,
                                                out0,
                                                out_pre,
                                                out@,
                                                d0,
                                                d_pre,
                                                deferred_views(defer@),
                                            );
                                        }
                                    },
                                }
                            },
                        }
                    },
                }
            },
            crate::ast::Selection::InlineFragment(inline) => {
                match crate::context::is_skip(env, &inline.directives) {
                    Err(e) => {
                        proof {
                            assert(one matches Err(w) && w.pre == Seq::<FieldPlanV>::empty()
                                && w.err == crate::error::error_view(e));
                            lemma_item_fails(env@, registry@, itemsv, cname, defer_active, dep, i as int);
                        }
                        return Err(e);
                    },
                    Ok(true) => {
                        proof {
                            assert(pre + Seq::<FieldPlanV>::empty() =~= pre);
                        }
                    },
                    Ok(false) => {
                        match &inline.type_condition {
                            Some(crate::ast::TypeCondition::On(nm)) => {
                                let ghost sub = sel_plans_set(
                                    env@,
                                    registry@,
                                    selection_set_view(inline.selection_set),
                                    cname,
                                    defer_active,
                                    (dep - 1) as nat,
                                );
                                match collect_inline_fields(
                                    root,
                                    nm,
                                    inline.position,
                                    &inline.selection_set,
                                    path,
                                    env,
                                    registry,
                                    depth,
                                    defer_active,
                                    defer,
                                    out,
                                ) {
                                    Err(e) => {
                                        proof {
                                            assert(incl_spec(cname, registry@, nm@));
                                            if dep == 0 {
                                                assert(one matches Err(w) && w.pre == Seq::<
                                                    FieldPlanV,
                                                >::empty() && w.err == crate::error::error_view(
                                                    e,
                                                ));
                                                lemma_item_fails(env@, registry@, itemsv, cname, defer_active, dep, i as int);
                                            } else {
                                                match sub {
                                                    Err(sw) => {
                                                        assert(one == Err::<Seq<FieldPlanV>, WalkErrV>(sw));
                                                        lemma_item_fails(env@, registry@, itemsv, cname, defer_active, dep, i as int);
                                                        let w = sel_plans_items(env@, registry@, itemsv, cname, defer_active, dep)->Err_0;
                                                        if all_non_user(w.pre) {
                                                            lemma_all_non_user_concat(pre, sw.pre);
                                                        }
                                                    },
                                                    Ok(pp) => {
                                                        assert(!all_non_user(pp));
                                                        assert(one == Ok::<Seq<FieldPlanV>, WalkErrV>(pp));
                                                        lemma_user_prefix_absolves(env@, registry@, itemsv, cname, defer_active, dep, i as int);
                                                    },
                                                }
                                            }
                                        }
                                        return Err(e);
                                    },
                                    Ok(()) => {
                                        proof {
                                            if incl_spec(cname, registry@, nm@) {
                                                assert(dep > 0);
                                                assert(sub is Ok);
                                                lemma_plans_applied_concat(
                                                    pre,
                                                    sub->Ok_0,
                                                    cname,
                                                    parentv,
                                                    out0,
                                                    out_pre,
                                                    out@,
                                                    d0,
                                                    d_pre,
                                                    deferred_views(defer@),
                                                );
                                            } else {
                                                assert(one == Ok::<Seq<FieldPlanV>, WalkErrV>(
                                                    Seq::<FieldPlanV>::empty(),
                                                ));
                                                assert(pre + Seq::<FieldPlanV>::empty() =~= pre);
                                            }
                                        }
                                    },
                                }
                            },
                            None => {
                                if depth == 0 {
                                    let e = crate::error::QueryError::TooDeep.into_error(
                                        inline.position,
                                    );
                                    proof {
                                        assert(one matches Err(w) && w.pre == Seq::<
                                            FieldPlanV,
                                        >::empty() && w.err == crate::error::error_view(e));
                                        lemma_item_fails(env@, registry@, itemsv, cname, defer_active, dep, i as int);
                                    }
                                    return Err(e);
                                }
                                let ghost sub = sel_plans_set(
                                    env@,
                                    registry@,
                                    selection_set_view(inline.selection_set),
                                    cname,
                                    defer_active,
                                    (dep - 1) as nat,
                                );
                                match collect_fields(
                                    root,
                                    &inline.selection_set,
                                    path,
                                    env,
                                    registry,
                                    depth - 1,
                                    defer_active,
                                    defer,
                                    out,
                                ) {
                                    Err(e) => {
                                        proof {
                                            match sub {
                                                Err(sw) => {
                                                    assert(one == Err::<Seq<FieldPlanV>, WalkErrV>(sw));
                                                    lemma_item_fails(env@, registry@, itemsv, cname, defer_active, dep, i as int);
                                                    let w = sel_plans_items(env@, registry@, itemsv, cname, defer_active, dep)->Err_0;
                                                    if all_non_user(w.pre) {
                                                        lemma_all_non_user_concat(pre, sw.pre);
                                                    }
                                                },
                                                Ok(pp) => {
                                                    assert(!all_non_user(pp));
                                                    assert(one == Ok::<Seq<FieldPlanV>, WalkErrV>(pp));
                                                    lemma_user_prefix_absolves(env@, registry@, itemsv, cname, defer_active, dep, i as int);
                                                },
                                            }
                                        }
                                        return Err(e);
                                    },
                                    Ok(()) => {
                                        proof {
                                            assert(sub is Ok);
                                            lemma_plans_applied_concat(
                                                pre,
                                                sub->Ok_0,
                                                cname,
                                                parentv,
                                                out0,
                                                out_pre,
                                                out@,
                                                d0,
                                                d_pre,
                                                deferred_views(defer@),
                                            );
                                        }
                                    },
                                }
                            },
                        }
                    },
                }
            },
        }
        i += 1;
    }
    proof {
        assert(itemsv.take(n as int) =~= itemsv);
    }
    Ok(())
}

/// A clone of a fragment definition's selection set.
fn clone_fragment_selection_set(f: &crate::ast::FragmentDefinition) -> (r: SelectionSet)
    ensures
        selection_set_view(r) == crate::ast::fragment_definition_view(*f).selection_set,
{
    crate::ast::clone_selection_set(&f.selection_set)
}

/// A single planned field, once answered, is an applied plan list of one.
proof fn lemma_one_plan_applied(
    plan: FieldPlanV,
    cname: Seq<char>,
    parent: Option<Seq<QueryPathSegmentV>>,
    out0: Seq<(String, Json)>,
    out1: Seq<(String, Json)>,
    d0: Seq<DeferredFieldV>,
    d1: Seq<DeferredFieldV>,
)
    requires
        out1.len() == out0.len() + 1,
        forall|k: int| 0 <= k < out0.len() ==> out1[k] == out0[k],
        pair_matches(out1[out0.len() as int], plan, cname),
        match plan.kind {
            FieldKindV::Deferred(f) => d1 == d0.push(
                DeferredFieldV { path: path_json(child_segs(parent, plan.key)), field: f },
            ),
            _ => d1 == d0,
        },
    ensures
        plans_applied(seq![plan], cname, parent, out0, out1, d0, d1),
{
    assert(seq![plan][0] == plan);
    assert(seq![plan].skip(1) =~= Seq::<FieldPlanV>::empty());
    assert(deferred_of(Seq::<FieldPlanV>::empty(), parent) =~= Seq::<DeferredFieldV>::empty());
    assert(deferred_of(seq![plan].skip(1), parent) =~= Seq::<DeferredFieldV>::empty());
    match plan.kind {
        FieldKindV::Deferred(f) => {
            assert(deferred_of(seq![plan], parent) =~= seq![
                DeferredFieldV { path: path_json(child_segs(parent, plan.key)), field: f },
            ]);
            assert(d1 =~= d0 + deferred_of(seq![plan], parent));
        },
        _ => {
            assert(deferred_of(seq![plan], parent) =~= Seq::<DeferredFieldV>::empty());
            assert(d1 =~= d0 + deferred_of(seq![plan], parent));
        },
    }
}

/// Whether a response object answers a plan list: one pair per plan, in
/// order, keys equal, `__typename` answered with the type tag, deferred
/// fields answered `null`.
pub open spec fn response_obj_matches(
    m: Seq<(Seq<char>, JsonV)>,
    plans: Seq<FieldPlanV>,
    cname: Seq<char>,
) -> bool {
    &&& m.len() == plans.len()
    &&& forall|k: int|
        0 <= k < plans.len() ==> m[k].0 == (#[trigger] plans[k]).key && match plans[k].kind {
            FieldKindV::Typename => m[k].1 == JsonV::Str(cname),
            FieldKindV::Deferred(_) => m[k].1 == JsonV::Null,
            FieldKindV::User(_) => true,
        }
}

/// Resolves a selection set against `root` into an ordered response
/// object: one key per surviving field, in selection-set order, each key
/// the field's alias if present, else its name; deferred fields are
/// answered `null` and queued on `defer`.  A failing walk fails the call,
/// with the walk's own error unless a user-resolved field preceded the
/// failure; a walk whose plans need no user resolver succeeds.
#[verifier::loop_isolation(false)]
pub fn do_resolve<T: ObjectType>(
    root: &T,
    ss: &SelectionSet,
    path: &Option<QueryPathNode>,
    env: &Environment,
    registry: &Registry,
    depth: u32,
    defer_active: bool,
    defer: &mut Vec<DeferredField>,
) -> (r: Result<Json, Error>)
    ensures
        ({
            let plans = sel_plans_set(
                env@,
                registry@,
                selection_set_view(*ss),
                root.concrete_name_spec(),
                defer_active,
                depth as nat,
            );
            match plans {
                Err(w) => r is Err && (all_non_user(w.pre) ==> (r matches Err(e) && e@ == w.err)),
                Ok(ps) => {
                    &&& (r matches Ok(j) ==> (j@ matches JsonV::Object(m)
                        && response_obj_matches(m, ps, root.concrete_name_spec())
                        && deferred_views(final (defer)@) == deferred_views(old(defer)@)
                        + deferred_of(ps, opt_path_view(*path))))
                    &&& (all_non_user(ps) ==> r is Ok)
                },
            }
        }),
    decreases depth, 2int,
{
    let mut out: Vec<(String, Json)> = Vec::new();
    match collect_fields(root, ss, path, env, registry, depth, defer_active, defer, &mut out) {
        Err(e) => Err(e),
        Ok(()) => {
            proof {
                let plans = sel_plans_set(
                    env@,
                    registry@,
                    selection_set_view(*ss),
                    root.concrete_name_spec(),
                    defer_active,
                    depth as nat,
                )->Ok_0;
                let jv = crate::value::json_view(Json::Object(out));
                assert(jv is Object);
                let m = jv->Object_0;
                assert(m.len() == out@.len());
                assert forall|k: int| 0 <= k < plans.len() implies m[k].0 == (
                #[trigger] plans[k]).key && match plans[k].kind {
                    FieldKindV::Typename => m[k].1 == JsonV::Str(root.concrete_name_spec()),
                    FieldKindV::Deferred(_) => m[k].1 == JsonV::Null,
                    FieldKindV::User(_) => true,
                } by {
                    assert(pair_matches(out@[k], plans[k], root.concrete_name_spec()));
                    assert(m[k] == (out@[k].0@, crate::value::json_view(out@[k].1)));
                }
            }
            Ok(Json::Object(out))
        },
    }
}

/// An object's contribution to a type-conditioned inline fragment: the
/// object decides inclusion through its type-condition rule; when
/// included, an exhausted depth budget is `TooDeep` at the fragment's
/// position, else the fragment's selection set is walked against the
/// object one level down.
#[verifier::loop_isolation(false)]
pub fn collect_inline_fields<T: ObjectType>(
    root: &T,
    name: &String,
    pos: Pos,
    ss: &SelectionSet,
    path: &Option<QueryPathNode>,
    env: &Environment,
    registry: &Registry,
    depth: u32,
    defer_active: bool,
    defer: &mut Vec<DeferredField>,
    out: &mut Vec<(String, Json)>,
) -> (r: Result<(), Error>)
    ensures
        inline_ens(
            env@,
            registry@,
            name@,
            pos,
            selection_set_view(*ss),
            root.concrete_name_spec(),
            defer_active,
            depth as nat,
            opt_path_view(*path),
            old(out)@,
            final (out)@,
            deferred_views(old(defer)@),
            deferred_views(final (defer)@),
            res_unit_view(r),
        ),
    decreases depth, 0int,
{
    if root.matches_type_condition(name, registry) {
        if depth == 0 {
            Err(crate::error::QueryError::TooDeep.into_error(pos))
        } else {
            collect_fields(root, ss, path, env, registry, depth - 1, defer_active, defer, out)
        }
    } else {
        Ok(())
    }
}

/// Drives one deferred unit: resolves the captured field against `root`
/// in a fresh context with no path, and returns the unit's serialized
/// path together with the field's data.
pub fn resolve_deferred<T: ObjectType>(
    root: &T,
    item: &DeferredField,
    env: &Environment,
    registry: &Registry,
    depth: u32,
) -> (r: Result<(Json, Json), Error>)
    ensures
        r matches Ok(pd) ==> crate::value::json_view(pd.0) == item@.path,
    decreases depth, 4int,
{
    let ctx = FieldContext { field: crate::ast::clone_field(&item.field), path: None };
    match root.resolve_field(&ctx, env, registry, depth) {
        Ok(v) => Ok((crate::value::clone_json(&item.path), v)),
        Err(e) => Err(e),
    }
}

} // verus!
