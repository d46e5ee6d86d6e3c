//! Mutation resolution: the same walk as a query, but strictly
//! sequential, in selection-set order, with `@defer` not honored.

use vstd::prelude::*;
use crate::ast::{selection_set_view, SelectionSet};
use crate::context::Environment;
use crate::error::Error;
use crate::path::QueryPathNode;
use crate::registry::Registry;
use crate::resolver::{
    collect_fields, pair_matches, response_obj_matches, sel_plans_set, DeferredField, FieldKindV,
    ObjectType,
};
use crate::value::{Json, JsonV};

verus! {

/// Resolves a mutation selection set against `root`: fields are resolved
/// one after another in selection-set order, each before the next is
/// examined, and the response object lists their keys in that same
/// order.  `@defer` is not honored here: no defer list is installed, so
/// every field is resolved in place.  A failing walk fails the call,
/// with the walk's own error unless a user-resolved field preceded the
/// failure; a walk whose plans need no user resolver succeeds.
#[verifier::loop_isolation(false)]
pub fn do_mutation_resolve<T: ObjectType>(
    root: &T,
    ss: &SelectionSet,
    path: &Option<QueryPathNode>,
    env: &Environment,
    registry: &Registry,
    depth: u32,
) -> (r: Result<Json, Error>)
    ensures
        ({
            let plans = sel_plans_set(
                env@,
                registry@,
                selection_set_view(*ss),
                root.concrete_name_spec(),
                false,
                depth as nat,
            );
            match plans {
                Err(w) => r is Err && (crate::resolver::all_non_user(w.pre) ==> (r matches Err(e)
                    && e@ == w.err)),
                Ok(ps) => {
                    &&& (r matches Ok(j) ==> (j@ matches JsonV::Object(m)
                        && response_obj_matches(m, ps, root.concrete_name_spec()) && (forall|
                        k: int,
                    |
                        0 <= k < ps.len() ==> !((#[trigger] ps[k]).kind is Deferred))))
                    &&& (crate::resolver::all_non_user(ps) ==> r is Ok)
                },
            }
        }),
{
    let mut defer: Vec<DeferredField> = Vec::new();
    let mut out: Vec<(String, Json)> = Vec::new();
    match collect_fields(root, ss, path, env, registry, depth, false, &mut defer, &mut out) {
        Err(e) => Err(e),
        Ok(()) => {
            proof {
                let cname = root.concrete_name_spec();
                let plans = sel_plans_set(
                    env@,
                    registry@,
                    selection_set_view(*ss),
                    cname,
                    false,
                    depth as nat,
                )->Ok_0;
                let jv = crate::value::json_view(Json::Object(out));
                assert(jv is Object);
                let m = jv->Object_0;
                assert(m.len() == out@.len());
                assert forall|k: int| 0 <= k < plans.len() implies m[k].0 == (
                #[trigger] plans[k]).key && !(plans[k].kind is Deferred) && match plans[k].kind {
                    FieldKindV::Typename => m[k].1 == JsonV::Str(cname),
                    FieldKindV::Deferred(_) => m[k].1 == JsonV::Null,
                    FieldKindV::User(_) => true,
                } by {
                    assert(pair_matches(out@[k], plans[k], cname));
                    assert(m[k] == (out@[k].0@, crate::value::json_view(out@[k].1)));
                    lemma_no_defer_plans(
                        env@,
                        registry@,
                        selection_set_view(*ss),
                        cname,
                        depth as nat,
                        k,
                    );
                }
            }
            Ok(Json::Object(out))
        },
    }
}

/// With no defer list installed, no planned field is deferred.
proof fn lemma_no_defer_plans(
    env: crate::context::EnvironmentV,
    reg: crate::registry::RegistryV,
    ss: crate::ast::SelectionSetV,
    cname: Seq<char>,
    depth: nat,
    k: int,
)
    requires
        sel_plans_set(env, reg, ss, cname, false, depth) is Ok,
        0 <= k < sel_plans_set(env, reg, ss, cname, false, depth)->Ok_0.len(),
    ensures
        !(sel_plans_set(env, reg, ss, cname, false, depth)->Ok_0[k].kind is Deferred),
{
    lemma_no_defer_items(env, reg, ss.items, cname, depth, k);
}

/// Plans built without an active defer list mark no field deferred.
proof fn lemma_no_defer_items(
    env: crate::context::EnvironmentV,
    reg: crate::registry::RegistryV,
    items: Seq<crate::ast::SelectionV>,
    cname: Seq<char>,
    depth: nat,
    k: int,
)
    requires
        crate::resolver::sel_plans_items(env, reg, items, cname, false, depth) is Ok,
        0 <= k < crate::resolver::sel_plans_items(env, reg, items, cname, false, depth)->Ok_0.len(),
    ensures
        !(crate::resolver::sel_plans_items(env, reg, items, cname, false, depth)->Ok_0[k].kind
            is Deferred),
    decreases depth, 3int, items.len(),
{
    let whole = crate::resolver::sel_plans_items(env, reg, items, cname, false, depth)->Ok_0;
    if items.len() > 0 {
        let p = crate::resolver::one_sel_plans(env, reg, items[0], cname, false, depth)->Ok_0;
        let t = crate::resolver::sel_plans_items(
            env,
            reg,
            items.skip(1),
            cname,
            false,
            depth,
        )->Ok_0;
        if k < p.len() {
            lemma_no_defer_one(env, reg, items[0], cname, depth, k);
        } else {
            lemma_no_defer_items(env, reg, items.skip(1), cname, depth, k - p.len());
        }
    }
}

/// One member's plans built without an active defer list mark no field
/// deferred.
proof fn lemma_no_defer_one(
    env: crate::context::EnvironmentV,
    reg: crate::registry::RegistryV,
    sel: crate::ast::SelectionV,
    cname: Seq<char>,
    depth: nat,
    k: int,
)
    requires
        crate::resolver::one_sel_plans(env, reg, sel, cname, false, depth) is Ok,
        0 <= k < crate::resolver::one_sel_plans(env, reg, sel, cname, false, depth)->Ok_0.len(),
    ensures
        !(crate::resolver::one_sel_plans(env, reg, sel, cname, false, depth)->Ok_0[k].kind
            is Deferred),
    decreases depth, 2int, 0int,
{
    match sel {
        crate::ast::SelectionV::Field(_) => {},
        crate::ast::SelectionV::FragmentSpread(fs) => {
            if depth > 0 {
                match crate::context::find_fragment(env.fragments, fs.fragment_name) {
                    Some(frag) => {
                        if frag.selection_set.items.len() > 0 {
                            lemma_no_defer_items(
                                env,
                                reg,
                                frag.selection_set.items,
                                cname,
                                (depth - 1) as nat,
                                k,
                            );
                        }
                    },
                    None => {},
                }
            }
        },
        crate::ast::SelectionV::InlineFragment(inf) => {
            if depth > 0 {
                if inf.selection_set.items.len() > 0 {
                    lemma_no_defer_items(
                        env,
                        reg,
                        inf.selection_set.items,
                        cname,
                        (depth - 1) as nat,
                        k,
                    );
                }
            }
        },
    }
}

} // verus!
