//! The query root wrapper: it answers the reserved fields `__schema`,
//! `__type`, `_entities` and `_service` itself and hands every other
//! field to the wrapped root object.

use vstd::prelude::*;
use crate::ast::{field_view, result_key, Field, FieldV, Pos, SelectionSet, SelectionV};
use crate::base::{param_value, FieldContext, InputValueType};
use crate::context::{str_eq_lit, Environment, EnvironmentV};
use crate::error::{error_at, opt_json_view, Error, ErrorV, QueryError, QueryErrorV};
use crate::path::{path_json, QueryPathNode};
use crate::registry::{
    reg_type, MetaType, MetaTypeV, Registry, RegistryV, sdl_spec,
};
use crate::resolver::{
    default_matches_type_condition, opt_path_view, DeferredField, ObjectType,
};
use crate::value::{Json, JsonV, Value, ValueV};

verus! {

/// The introspection kind tag of a registered type.
pub open spec fn intro_kind(t: MetaTypeV) -> Seq<char> {
    match t {
        MetaTypeV::Scalar { .. } => "SCALAR"@,
        MetaTypeV::Object { .. } => "OBJECT"@,
        MetaTypeV::Interface { .. } => "INTERFACE"@,
        MetaTypeV::Union { .. } => "UNION"@,
        MetaTypeV::Enum { .. } => "ENUM"@,
        MetaTypeV::InputObject { .. } => "INPUT_OBJECT"@,
    }
}

/// The name a registered type reports.
pub open spec fn meta_name(t: MetaTypeV) -> Seq<char> {
    match t {
        MetaTypeV::Scalar { name, .. } => name,
        MetaTypeV::Object { name, .. } => name,
        MetaTypeV::Interface { name, .. } => name,
        MetaTypeV::Union { name, .. } => name,
        MetaTypeV::Enum { name, .. } => name,
        MetaTypeV::InputObject { name, .. } => name,
    }
}

/// The response pairs a `__Type` introspection selection produces: `name`
/// and `kind` are answered; anything else is a `FieldNotFound` failure;
/// only plain fields are accepted here.
pub open spec fn intro_type_pairs(t: MetaTypeV, items: Seq<SelectionV>) -> Result<
    Seq<(Seq<char>, JsonV)>,
    ErrorV,
>
    decreases items.len(),
{
    if items.len() == 0 {
        Ok(Seq::empty())
    } else {
        match items[0] {
            SelectionV::Field(f) => {
                let pair = if f.name == "name"@ {
                    Ok::<(Seq<char>, JsonV), ErrorV>((result_key(f), JsonV::Str(meta_name(t))))
                } else if f.name == "kind"@ {
                    Ok::<(Seq<char>, JsonV), ErrorV>((result_key(f), JsonV::Str(intro_kind(t))))
                } else {
                    Err::<(Seq<char>, JsonV), ErrorV>(
                        error_at(f.position, QueryErrorV::FieldNotFound {
                            field_name: f.name,
                            object: "__Type"@,
                        }),
                    )
                };
                match pair {
                    Err(e) => Err(e),
                    Ok(p) => match intro_type_pairs(t, items.skip(1)) {
                        Err(e) => Err(e),
                        Ok(rest) => Ok(seq![p] + rest),
                    },
                }
            },
            _ => Err(error_at(sel_pos(items[0]), QueryErrorV::NotSupported)),
        }
    }
}

/// The position of a selection-set member.
pub open spec fn sel_pos(s: SelectionV) -> Pos {
    match s {
        SelectionV::Field(f) => f.position,
        SelectionV::FragmentSpread(fs) => fs.position,
        SelectionV::InlineFragment(inf) => inf.position,
    }
}

/// One introspection object per registered type, in registration order.
pub open spec fn intro_types_array(
    ts: Seq<(Seq<char>, MetaTypeV)>,
    items: Seq<SelectionV>,
) -> Result<Seq<JsonV>, ErrorV>
    decreases ts.len(),
{
    if ts.len() == 0 {
        Ok(Seq::empty())
    } else {
        match intro_type_pairs(ts[0].1, items) {
            Err(e) => Err(e),
            Ok(ps) => match intro_types_array(ts.skip(1), items) {
                Err(e) => Err(e),
                Ok(rest) => Ok(seq![JsonV::Object(ps)] + rest),
            },
        }
    }
}

/// The response pairs a `__Schema` introspection selection produces:
/// `types` lists every registered type; the three root-type fields report
/// `{ name }`-shaped objects or `null`; anything else is a
/// `FieldNotFound` failure.
pub open spec fn intro_schema_pairs(reg: RegistryV, items: Seq<SelectionV>) -> Result<
    Seq<(Seq<char>, JsonV)>,
    ErrorV,
>
    decreases items.len(),
{
    if items.len() == 0 {
        Ok(Seq::empty())
    } else {
        match items[0] {
            SelectionV::Field(f) => {
                let pair = if f.name == "types"@ {
                    match intro_types_array(reg.types, f.selection_set.items) {
                        Err(e) => Err::<(Seq<char>, JsonV), ErrorV>(e),
                        Ok(vs) => Ok::<(Seq<char>, JsonV), ErrorV>(
                            (result_key(f), JsonV::Array(vs)),
                        ),
                    }
                } else if f.name == "queryType"@ {
                    Ok::<(Seq<char>, JsonV), ErrorV>(
                        (
                            result_key(f),
                            JsonV::Object(seq![("name"@, JsonV::Str(reg.query_type))]),
                        ),
                    )
                } else if f.name == "mutationType"@ {
                    Ok::<(Seq<char>, JsonV), ErrorV>(
                        (
                            result_key(f),
                            match reg.mutation_type {
                                Some(n) => JsonV::Object(seq![("name"@, JsonV::Str(n))]),
                                None => JsonV::Null,
                            },
                        ),
                    )
                } else if f.name == "subscriptionType"@ {
                    Ok::<(Seq<char>, JsonV), ErrorV>(
                        (
                            result_key(f),
                            match reg.subscription_type {
                                Some(n) => JsonV::Object(seq![("name"@, JsonV::Str(n))]),
                                None => JsonV::Null,
                            },
                        ),
                    )
                } else {
                    Err::<(Seq<char>, JsonV), ErrorV>(
                        error_at(f.position, QueryErrorV::FieldNotFound {
                            field_name: f.name,
                            object: "__Schema"@,
                        }),
                    )
                };
                match pair {
                    Err(e) => Err(e),
                    Ok(p) => match intro_schema_pairs(reg, items.skip(1)) {
                        Err(e) => Err(e),
                        Ok(rest) => Ok(seq![p] + rest),
                    },
                }
            },
            _ => Err(error_at(sel_pos(items[0]), QueryErrorV::NotSupported)),
        }
    }
}

/// The response pairs a `_service` selection produces: `sdl` is answered
/// with the federation SDL; anything else is a `FieldNotFound` failure.
pub open spec fn service_pairs(reg: RegistryV, items: Seq<SelectionV>) -> Result<
    Seq<(Seq<char>, JsonV)>,
    ErrorV,
>
    decreases items.len(),
{
    if items.len() == 0 {
        Ok(Seq::empty())
    } else {
        match items[0] {
            SelectionV::Field(f) => {
                let pair = if f.name == "sdl"@ {
                    Ok::<(Seq<char>, JsonV), ErrorV>((result_key(f), JsonV::Str(sdl_spec(reg))))
                } else {
                    Err::<(Seq<char>, JsonV), ErrorV>(
                        error_at(f.position, QueryErrorV::FieldNotFound {
                            field_name: f.name,
                            object: "_Service"@,
                        }),
                    )
                };
                match pair {
                    Err(e) => Err(e),
                    Ok(p) => match service_pairs(reg, items.skip(1)) {
                        Err(e) => Err(e),
                        Ok(rest) => Ok(seq![p] + rest),
                    },
                }
            },
            _ => Err(error_at(sel_pos(items[0]), QueryErrorV::NotSupported)),
        }
    }
}

/// Resolves a `__Type` introspection selection, exactly as
/// [`intro_type_pairs`] states.
#[verifier::loop_isolation(false)]
fn resolve_type_pairs(t: &MetaType, ss: &SelectionSet) -> (r: Result<Vec<(String, Json)>, Error>)
    ensures
        match r {
            Ok(ps) => intro_type_pairs(t@, crate::ast::selection_set_view(*ss).items) matches Ok(
                psv,
            ) && psv.len() == ps@.len() && forall|k: int|
                0 <= k < ps@.len() ==> psv[k] == (#[trigger] ps@[k].0@, ps@[k].1@),
            Err(e) => intro_type_pairs(t@, crate::ast::selection_set_view(*ss).items) == Err::<
                Seq<(Seq<char>, JsonV)>,
                ErrorV,
            >(e@),
        },
{
    let ghost itemsv = crate::ast::selection_set_view(*ss).items;
    let mut out: Vec<(String, Json)> = Vec::new();
    let n = ss.items.len();
    let mut i: usize = 0;
    proof {
        assert(itemsv.skip(0) =~= itemsv);
    }
    while i < n
        invariant
            0 <= i <= n,
            n == ss.items@.len(),
            itemsv.len() == n,
            forall|k: int| 0 <= k < n ==> itemsv[k] == crate::ast::selection_view(ss.items@[k]),
            intro_type_pairs(t@, itemsv) == (match intro_type_pairs(t@, itemsv.skip(i as int)) {
                Ok(rest) => Ok::<Seq<(Seq<char>, JsonV)>, ErrorV>(pairs_views(out@) + rest),
                Err(e) => Err::<Seq<(Seq<char>, JsonV)>, ErrorV>(e),
            }),
        decreases n - i,
    {
        proof {
            assert(itemsv.skip(i as int).skip(1) =~= itemsv.skip(i + 1 as int));
        }
        match &ss.items[i] {
            crate::ast::Selection::Field(f) => {
                let key = crate::context::result_name(f);
                let value = if str_eq_lit(&f.name, "name") {
                    Json::Str(meta_type_name(t))
                } else if str_eq_lit(&f.name, "kind") {
                    Json::Str(meta_type_kind(t))
                } else {
                    return Err(
                        QueryError::FieldNotFound {
                            field_name: f.name.clone(),
                            object: "__Type".to_owned(),
                        }.into_error(f.position),
                    );
                };
                let ghost outv0 = out@;
                let keyc = key.clone();
                out.push((keyc, value));
                proof {
                    assert(pairs_views(out@) =~= pairs_views(outv0).push(
                        (out@.last().0@, out@.last().1@),
                    ));
                    let p = (out@.last().0@, out@.last().1@);
                    if intro_type_pairs(t@, itemsv.skip(i + 1 as int)) is Ok {
                        let rest = intro_type_pairs(t@, itemsv.skip(i + 1 as int))->Ok_0;
                        assert(pairs_views(outv0) + (seq![p] + rest) =~= pairs_views(out@) + rest);
                    }
                }
            },
            other => {
                return Err(QueryError::NotSupported.into_error(selection_position(other)));
            },
        }
        i += 1;
    }
    proof {
        assert(itemsv.skip(n as int) =~= Seq::<SelectionV>::empty());
        assert(pairs_views(out@) + Seq::<(Seq<char>, JsonV)>::empty() =~= pairs_views(out@));
    }
    Ok(out)
}

/// The `{ name: <n> }` object the root-type introspection fields report.
fn name_obj(n: &String) -> (r: Json)
    ensures
        r@ == JsonV::Object(seq![("name"@, JsonV::Str(n@))]),
{
    let mut pairs: Vec<(String, Json)> = Vec::new();
    pairs.push(("name".to_owned(), Json::Str(n.clone())));
    proof {
        assert(pairs@.len() == 1);
        assert(pairs@[0].0@ == "name"@);
        assert(pairs@[0].1@ == JsonV::Str(n@));
    }
    let r = Json::Object(pairs);
    proof {
        assert(r@ matches JsonV::Object(m) && m =~= seq![("name"@, JsonV::Str(n@))]);
    }
    r
}

/// The views of produced response pairs.
pub open spec fn pairs_views(s: Seq<(String, Json)>) -> Seq<(Seq<char>, JsonV)> {
    s.map_values(|p: (String, Json)| (p.0@, crate::value::json_view(p.1)))
}

/// The source position of a selection-set member.
fn selection_position(s: &crate::ast::Selection) -> (r: Pos)
    ensures
        r == sel_pos(crate::ast::selection_view(*s)),
{
    match s {
        crate::ast::Selection::Field(f) => f.position,
        crate::ast::Selection::FragmentSpread(fs) => fs.position,
        crate::ast::Selection::InlineFragment(inf) => inf.position,
    }
}

/// The name a registered type reports.
fn meta_type_name(t: &MetaType) -> (r: String)
    ensures
        r@ == meta_name(t@),
{
    match t {
        MetaType::Scalar { name, .. } => name.clone(),
        MetaType::Object { name, .. } => name.clone(),
        MetaType::Interface { name, .. } => name.clone(),
        MetaType::Union { name, .. } => name.clone(),
        MetaType::Enum { name, .. } => name.clone(),
        MetaType::InputObject { name, .. } => name.clone(),
    }
}

/// The introspection kind tag of a registered type.
fn meta_type_kind(t: &MetaType) -> (r: String)
    ensures
        r@ == intro_kind(t@),
{
    match t {
        MetaType::Scalar { .. } => "SCALAR".to_owned(),
        MetaType::Object { .. } => "OBJECT".to_owned(),
        MetaType::Interface { .. } => "INTERFACE".to_owned(),
        MetaType::Union { .. } => "UNION".to_owned(),
        MetaType::Enum { .. } => "ENUM".to_owned(),
        MetaType::InputObject { .. } => "INPUT_OBJECT".to_owned(),
    }
}

/// Resolves the `types` list of `__schema`, exactly as
/// [`intro_types_array`] states.
#[verifier::loop_isolation(false)]
fn resolve_types_array(registry: &Registry, ss: &SelectionSet) -> (r: Result<Vec<Json>, Error>)
    ensures
        match r {
            Ok(vs) => intro_types_array(
                registry@.types,
                crate::ast::selection_set_view(*ss).items,
            ) matches Ok(vsv) && vsv.len() == vs@.len() && forall|k: int|
                0 <= k < vs@.len() ==> vsv[k] == crate::value::json_view(#[trigger] vs@[k]),
            Err(e) => intro_types_array(registry@.types, crate::ast::selection_set_view(*ss).items)
                == Err::<Seq<JsonV>, ErrorV>(e@),
        },
{
    let ghost tsv = registry@.types;
    let ghost itemsv = crate::ast::selection_set_view(*ss).items;
    let mut out: Vec<Json> = Vec::new();
    let n = registry.types.len();
    let mut i: usize = 0;
    proof {
        assert(tsv.skip(0) =~= tsv);
    }
    while i < n
        invariant
            0 <= i <= n,
            n == registry.types@.len(),
            tsv.len() == n,
            forall|k: int|
                0 <= k < n ==> tsv[k] == (
                registry.types@[k].0@,
                crate::registry::meta_type_view(registry.types@[k].1),
                ),
            itemsv == crate::ast::selection_set_view(*ss).items,
            intro_types_array(tsv, itemsv) == (match intro_types_array(
                tsv.skip(i as int),
                itemsv,
            ) {
                Ok(rest) => Ok::<Seq<JsonV>, ErrorV>(jsons_views(out@) + rest),
                Err(e) => Err::<Seq<JsonV>, ErrorV>(e),
            }),
        decreases n - i,
    {
        proof {
            assert(tsv.skip(i as int).skip(1) =~= tsv.skip(i + 1 as int));
        }
        match resolve_type_pairs(&registry.types[i].1, ss) {
            Err(e) => {
                return Err(e);
            },
            Ok(ps) => {
                let ghost outv0 = out@;
                out.push(Json::Object(ps));
                proof {
                    assert(jsons_views(out@) =~= jsons_views(outv0).push(
                        crate::value::json_view(out@.last()),
                    ));
                    let psv = intro_type_pairs(tsv[i as int].1, itemsv)->Ok_0;
                    assert(crate::value::json_view(out@.last()) matches JsonV::Object(m) && m
                        =~= psv);
                    if intro_types_array(tsv.skip(i + 1 as int), itemsv) is Ok {
                        let rest = intro_types_array(tsv.skip(i + 1 as int), itemsv)->Ok_0;
                        assert(jsons_views(outv0) + (seq![JsonV::Object(psv)] + rest)
                            =~= jsons_views(out@) + rest);
                    }
                }
            },
        }
        i += 1;
    }
    proof {
        assert(tsv.skip(n as int) =~= Seq::<(Seq<char>, MetaTypeV)>::empty());
        assert(jsons_views(out@) + Seq::<JsonV>::empty() =~= jsons_views(out@));
    }
    Ok(out)
}

/// The views of a list of JSON documents.
pub open spec fn jsons_views(s: Seq<Json>) -> Seq<JsonV> {
    s.map_values(|j: Json| crate::value::json_view(j))
}

/// Resolves a `__schema` selection, exactly as [`intro_schema_pairs`]
/// states.
#[verifier::rlimit(100)]
#[verifier::spinoff_prover]
#[verifier::loop_isolation(false)]
fn resolve_schema_pairs(registry: &Registry, ss: &SelectionSet) -> (r: Result<
    Vec<(String, Json)>,
    Error,
>)
    ensures
        match r {
            Ok(ps) => intro_schema_pairs(registry@, crate::ast::selection_set_view(*ss).items)
                matches Ok(psv) && psv.len() == ps@.len() && forall|k: int|
                0 <= k < ps@.len() ==> psv[k] == (#[trigger] ps@[k].0@, ps@[k].1@),
            Err(e) => intro_schema_pairs(registry@, crate::ast::selection_set_view(*ss).items)
                == Err::<Seq<(Seq<char>, JsonV)>, ErrorV>(e@),
        },
{
    let ghost itemsv = crate::ast::selection_set_view(*ss).items;
    let mut out: Vec<(String, Json)> = Vec::new();
    let n = ss.items.len();
    let mut i: usize = 0;
    proof {
        assert(itemsv.skip(0) =~= itemsv);
    }
    while i < n
        invariant
            0 <= i <= n,
            n == ss.items@.len(),
            itemsv.len() == n,
            forall|k: int| 0 <= k < n ==> itemsv[k] == crate::ast::selection_view(ss.items@[k]),
            intro_schema_pairs(registry@, itemsv) == (match intro_schema_pairs(
                registry@,
                itemsv.skip(i as int),
            ) {
                Ok(rest) => Ok::<Seq<(Seq<char>, JsonV)>, ErrorV>(pairs_views(out@) + rest),
                Err(e) => Err::<Seq<(Seq<char>, JsonV)>, ErrorV>(e),
            }),
        decreases n - i,
    {
        proof {
            assert(itemsv.skip(i as int).skip(1) =~= itemsv.skip(i + 1 as int));
        }
        match &ss.items[i] {
            crate::ast::Selection::Field(f) => {
                let key = crate::context::result_name(f);
                let value = if str_eq_lit(&f.name, "types") {
                    match resolve_types_array(registry, &f.selection_set) {
                        Err(e) => {
                            return Err(e);
                        },
                        Ok(vs) => Json::Array(vs),
                    }
                } else if str_eq_lit(&f.name, "queryType") {
                    name_obj(&registry.query_type)
                } else if str_eq_lit(&f.name, "mutationType") {
                    match &registry.mutation_type {
                        Some(nm) => name_obj(nm),
                        None => Json::Null,
                    }
                } else if str_eq_lit(&f.name, "subscriptionType") {
                    match &registry.subscription_type {
                        Some(nm) => name_obj(nm),
                        None => Json::Null,
                    }
                } else {
                    return Err(
                        QueryError::FieldNotFound {
                            field_name: f.name.clone(),
                            object: "__Schema".to_owned(),
                        }.into_error(f.position),
                    );
                };
                let ghost outv0 = out@;
                let keyc = key.clone();
                out.push((keyc, value));
                proof {
                    assert(pairs_views(out@) =~= pairs_views(outv0).push(
                        (out@.last().0@, out@.last().1@),
                    ));
                    let fv = itemsv[i as int]->Field_0;
                    if fv.name == "types"@ {
                        let vsv = intro_types_array(registry@.types, fv.selection_set.items)->Ok_0;
                        assert(out@.last().1@ matches JsonV::Array(m) && m =~= vsv);
                    }
                    let specpair = (out@.last().0@, out@.last().1@);
                    if intro_schema_pairs(registry@, itemsv.skip(i + 1 as int)) is Ok {
                        let rest = intro_schema_pairs(registry@, itemsv.skip(i + 1 as int))->Ok_0;
                        assert(pairs_views(outv0) + (seq![specpair] + rest) =~= pairs_views(out@)
                            + rest);
                    }
                }
            },
            other => {
                return Err(QueryError::NotSupported.into_error(selection_position(other)));
            },
        }
        i += 1;
    }
    proof {
        assert(itemsv.skip(n as int) =~= Seq::<SelectionV>::empty());
        assert(pairs_views(out@) + Seq::<(Seq<char>, JsonV)>::empty() =~= pairs_views(out@));
    }
    Ok(out)
}

/// Resolves a `_service` selection, exactly as [`service_pairs`] states.
#[verifier::rlimit(100)]
#[verifier::spinoff_prover]
#[verifier::loop_isolation(false)]
fn resolve_service_pairs(registry: &Registry, ss: &SelectionSet) -> (r: Result<
    Vec<(String, Json)>,
    Error,
>)
    ensures
        match r {
            Ok(ps) => service_pairs(registry@, crate::ast::selection_set_view(*ss).items)
                matches Ok(psv) && psv.len() == ps@.len() && forall|k: int|
                0 <= k < ps@.len() ==> psv[k] == (#[trigger] ps@[k].0@, ps@[k].1@),
            Err(e) => service_pairs(registry@, crate::ast::selection_set_view(*ss).items) == Err::<
                Seq<(Seq<char>, JsonV)>,
                ErrorV,
            >(e@),
        },
{
    let ghost itemsv = crate::ast::selection_set_view(*ss).items;
    let mut out: Vec<(String, Json)> = Vec::new();
    let n = ss.items.len();
    let mut i: usize = 0;
    proof {
        assert(itemsv.skip(0) =~= itemsv);
    }
    while i < n
        invariant
            0 <= i <= n,
            n == ss.items@.len(),
            itemsv.len() == n,
            forall|k: int| 0 <= k < n ==> itemsv[k] == crate::ast::selection_view(ss.items@[k]),
            service_pairs(registry@, itemsv) == (match service_pairs(
                registry@,
                itemsv.skip(i as int),
            ) {
                Ok(rest) => Ok::<Seq<(Seq<char>, JsonV)>, ErrorV>(pairs_views(out@) + rest),
                Err(e) => Err::<Seq<(Seq<char>, JsonV)>, ErrorV>(e),
            }),
        decreases n - i,
    {
        proof {
            assert(itemsv.skip(i as int).skip(1) =~= itemsv.skip(i + 1 as int));
        }
        match &ss.items[i] {
            crate::ast::Selection::Field(f) => {
                let key = crate::context::result_name(f);
                let value = if str_eq_lit(&f.name, "sdl") {
                    Json::Str(registry.create_federation_sdl())
                } else {
                    return Err(
                        QueryError::FieldNotFound {
                            field_name: f.name.clone(),
                            object: "_Service".to_owned(),
                        }.into_error(f.position),
                    );
                };
                let ghost outv0 = out@;
                let keyc = key.clone();
                out.push((keyc, value));
                proof {
                    assert(pairs_views(out@) =~= pairs_views(outv0).push(
                        (out@.last().0@, out@.last().1@),
                    ));
                    let specpair = (out@.last().0@, out@.last().1@);
                    if service_pairs(registry@, itemsv.skip(i + 1 as int)) is Ok {
                        let rest = service_pairs(registry@, itemsv.skip(i + 1 as int))->Ok_0;
                        assert(pairs_views(outv0) + (seq![specpair] + rest) =~= pairs_views(out@)
                            + rest);
                    }
                }
            },
            other => {
                return Err(QueryError::NotSupported.into_error(selection_position(other)));
            },
        }
        i += 1;
    }
    proof {
        assert(itemsv.skip(n as int) =~= Seq::<SelectionV>::empty());
        assert(pairs_views(out@) + Seq::<(Seq<char>, JsonV)>::empty() =~= pairs_views(out@));
    }
    Ok(out)
}

/// The serialized response path of a field context, when one is present.
pub open spec fn ctx_path_json(ctx: FieldContext) -> Option<JsonV> {
    match opt_path_view(ctx.path) {
        Some(segs) => Some(path_json(segs)),
        None => None,
    }
}

/// The reserved `__schema` field's declaration, as registration wires it
/// onto the root object's entry.
pub open spec fn reserved_schema_field() -> crate::registry::MetaFieldV {
    crate::registry::MetaFieldV {
        name: "__schema"@,
        description: Some("Access the current type schema of this server."@),
        args: Seq::empty(),
        ty: "__Schema"@,
        deprecation: None,
        cache_control: crate::registry::CacheControl { public: true, max_age: 0 },
        external: false,
        requires: None,
        provides: None,
    }
}

/// The reserved `__type` field's declaration: one required `String!`
/// argument `name`.
pub open spec fn reserved_type_field() -> crate::registry::MetaFieldV {
    crate::registry::MetaFieldV {
        name: "__type"@,
        description: Some("Request the type information of a single type."@),
        args: seq![
            (
                "name"@,
                crate::registry::MetaInputValueV {
                    name: "name"@,
                    description: None,
                    ty: "String!"@,
                    default_value: None,
                },
            ),
        ],
        ty: "__Type"@,
        deprecation: None,
        cache_control: crate::registry::CacheControl { public: true, max_age: 0 },
        external: false,
        requires: None,
        provides: None,
    }
}

/// The query root: wraps the user's root object and answers the reserved
/// introspection and federation fields itself.
pub struct QueryRoot<T> {
    /// The user's root object.
    pub inner: T,
    /// When set, `__schema` is refused with `FieldNotFound`.
    pub disable_introspection: bool,
}

/// The four field names the query root answers itself.
pub open spec fn reserved_field_name(n: Seq<char>) -> bool {
    n == "__schema"@ || n == "__type"@ || n == "_entities"@ || n == "_service"@
}

/// The contract of resolving one field of the query root: `__schema` is
/// introspection, refused with `FieldNotFound` exactly when disabled;
/// `__type` is a single-type lookup, `null` for an unregistered name;
/// `_entities` answers one array entry per representation; `_service`
/// reports the SDL; any other field is `TooDeep` on an exhausted depth
/// budget and otherwise a result the inner root's own resolver contract
/// admits.
pub open spec fn query_root_resolve_ens<T: ObjectType>(
    root: QueryRoot<T>,
    ctx: FieldContext,
    env: EnvironmentV,
    reg: RegistryV,
    depth: nat,
    r: Result<JsonV, ErrorV>,
) -> bool {
    let f = field_view(ctx.field);
    &&& (f.name == "__schema"@ && root.disable_introspection) ==> (r matches Err(e) && e
        == ErrorV::Query {
        pos: f.position,
        path: ctx_path_json(ctx),
        err: QueryErrorV::FieldNotFound { field_name: f.name, object: T::type_name_spec() },
    })
    &&& (f.name == "__schema"@ && !root.disable_introspection) ==> (match r {
        Ok(jv) => jv matches JsonV::Object(m) && intro_schema_pairs(reg, f.selection_set.items)
            == Ok::<Seq<(Seq<char>, JsonV)>, ErrorV>(m),
        Err(e) => intro_schema_pairs(reg, f.selection_set.items) == Err::<
            Seq<(Seq<char>, JsonV)>,
            ErrorV,
        >(e),
    })
    &&& (f.name == "_service"@) ==> (match r {
        Ok(jv) => jv matches JsonV::Object(m) && service_pairs(reg, f.selection_set.items)
            == Ok::<Seq<(Seq<char>, JsonV)>, ErrorV>(m),
        Err(e) => service_pairs(reg, f.selection_set.items) == Err::<
            Seq<(Seq<char>, JsonV)>,
            ErrorV,
        >(e),
    })
    &&& (f.name == "__type"@) ==> (match crate::base::param_value_spec::<String>(
        env,
        f.arguments,
        "name"@,
        f.position,
        ValueV::Null,
    ) {
        Err(e) => r matches Err(re) && re == e,
        Ok(rv) => rv matches ValueV::Str(nm) && (match reg_type(reg, nm) {
            None => r matches Ok(jv) && jv == JsonV::Null,
            Some(t) => match r {
                Ok(jv) => jv matches JsonV::Object(m) && intro_type_pairs(
                    t,
                    f.selection_set.items,
                ) == Ok::<Seq<(Seq<char>, JsonV)>, ErrorV>(m),
                Err(re) => intro_type_pairs(t, f.selection_set.items) == Err::<
                    Seq<(Seq<char>, JsonV)>,
                    ErrorV,
                >(re),
            },
        }),
    })
    &&& (f.name == "_entities"@) ==> (match crate::base::param_value_spec::<Vec<Value>>(
        env,
        f.arguments,
        "representations"@,
        f.position,
        ValueV::Null,
    ) {
        Err(e) => r matches Err(re) && re == e,
        Ok(rv) => rv matches ValueV::List(reps) && (r matches Ok(jv) ==> (jv
            matches JsonV::Array(vs) && vs.len() == reps.len())),
    })
    &&& (!reserved_field_name(f.name)) ==> (if depth == 0 {
        r == Err::<JsonV, ErrorV>(crate::error::error_at(f.position, QueryErrorV::TooDeep))
    } else {
        root.inner.resolve_field_ens(ctx, env, reg, (depth - 1) as nat, r)
    })
}

/// Resolves one field of the query root, as the reserved-field protocol
/// demands: `__schema` is introspection (refused exactly when disabled),
/// `__type` is a single-type lookup, `_entities` resolves federation
/// representations through the inner root, `_service` reports the SDL,
/// and every other field is the inner root's business.
#[verifier::rlimit(100)]
#[verifier::loop_isolation(false)]
pub fn resolve_query_root_field<T: ObjectType>(
    root: &QueryRoot<T>,
    ctx: &FieldContext,
    env: &Environment,
    registry: &Registry,
    depth: u32,
) -> (r: Result<Json, Error>)
    ensures
        query_root_resolve_ens(*root, *ctx, env@, registry@, depth as nat, crate::resolver::res_json_view(r)),
    decreases depth, 3int,
{
    proof {
        reveal_strlit("__schema");
        reveal_strlit("__type");
        reveal_strlit("_entities");
        reveal_strlit("_service");
        assert("__schema"@.len() == 8);
        assert("__type"@.len() == 6);
        assert("_entities"@.len() == 9);
        assert("_service"@.len() == 8);
        assert("__schema"@[1] == '_' && "_service"@[1] == 's');
        assert("__schema"@ != "__type"@);
        assert("__schema"@ != "_entities"@);
        assert("__schema"@ != "_service"@);
        assert("__type"@ != "_entities"@);
        assert("__type"@ != "_service"@);
        assert("_entities"@ != "_service"@);
    }
    let f = &ctx.field;
    if str_eq_lit(&f.name, "__schema") {
        if root.disable_introspection {
            let path = match &ctx.path {
                Some(p) => Some(p.to_json()),
                None => None,
            };
            return Err(
                Error::Query {
                    pos: f.position,
                    path,
                    err: QueryError::FieldNotFound {
                        field_name: f.name.clone(),
                        object: T::type_name_of(),
                    },
                },
            );
        }
        match resolve_schema_pairs(registry, &f.selection_set) {
            Ok(ps) => {
                let r = Json::Object(ps);
                proof {
                    assert(r@ matches JsonV::Object(m) && m =~= intro_schema_pairs(
                        registry@,
                        field_view(ctx.field).selection_set.items,
                    )->Ok_0);
                }
                Ok(r)
            },
            Err(e) => Err(e),
        }
    } else if str_eq_lit(&f.name, "__type") {
        let wanted: String = match param_value::<String>(
            env,
            f,
            "name",
            f.position,
            Value::Null,
        ) {
            Ok(n) => n,
            Err(e) => {
                return Err(e);
            },
        };
        match registry.get_type(&wanted) {
            Some(t) => {
                match resolve_type_pairs(t, &f.selection_set) {
                    Ok(ps) => {
                        let out = Json::Object(ps);
                        proof {
                            assert(out@ matches JsonV::Object(m) && m =~= intro_type_pairs(
                                crate::registry::meta_type_view(*t),
                                field_view(ctx.field).selection_set.items,
                            )->Ok_0);
                        }
                        Ok(out)
                    },
                    Err(e) => Err(e),
                }
            },
            None => Ok(Json::Null),
        }
    } else if str_eq_lit(&f.name, "_entities") {
        let representations: Vec<Value> = match param_value::<Vec<Value>>(
            env,
            f,
            "representations",
            f.position,
            Value::Null,
        ) {
            Ok(v) => v,
            Err(e) => {
                return Err(e);
            },
        };
        let mut res: Vec<Json> = Vec::new();
        let n = representations.len();
        for i in 0..n
            invariant
                n == representations@.len(),
                res@.len() == i,
            decreases n - i,
        {
            if depth == 0 {
                return Err(QueryError::TooDeep.into_error(f.position));
            }
            match root.inner.find_entity(ctx, env, registry, depth - 1, &representations[i]) {
                Ok(v) => {
                    res.push(v);
                },
                Err(e) => {
                    return Err(e);
                },
            }
        }
        Ok(Json::Array(res))
    } else if str_eq_lit(&f.name, "_service") {
        match resolve_service_pairs(registry, &f.selection_set) {
            Ok(ps) => {
                let r = Json::Object(ps);
                proof {
                    assert(r@ matches JsonV::Object(m) && m =~= service_pairs(
                        registry@,
                        field_view(ctx.field).selection_set.items,
                    )->Ok_0);
                }
                Ok(r)
            },
            Err(e) => Err(e),
        }
    } else {
        if depth == 0 {
            return Err(QueryError::TooDeep.into_error(f.position));
        }
        root.inner.resolve_field(ctx, env, registry, depth - 1)
    }
}

impl<T: ObjectType> ObjectType for QueryRoot<T> {
    open spec fn type_name_spec() -> Seq<char> {
        T::type_name_spec()
    }

    open spec fn concrete_name_spec(&self) -> Seq<char> {
        T::type_name_spec()
    }

    open spec fn is_empty_spec() -> bool {
        T::is_empty_spec()
    }

    fn type_name_of() -> (r: String) {
        T::type_name_of()
    }

    fn introspection_type_name(&self) -> (r: String) {
        T::type_name_of()
    }

    fn is_empty() -> (r: bool) {
        T::is_empty()
    }

    /// Registers the introspection meta types, the wrapped root, and the
    /// reserved `__schema` and `__type` fields on it.
    fn create_type_info(registry: &mut Registry) -> (r: String)
        ensures
            reg_type(final (registry)@, "__Schema"@) is Some,
            reg_type(final (registry)@, "__Type"@) is Some,
            match reg_type(final (registry)@, T::type_name_spec()) {
                Some(MetaTypeV::Object { fields, .. }) => {
                    &&& crate::registry::assoc_get(fields, "__schema"@) == Some(
                        reserved_schema_field(),
                    )
                    &&& crate::registry::assoc_get(fields, "__type"@) == Some(
                        reserved_type_field(),
                    )
                },
                _ => true,
            },
    {
        let ghost g0 = registry@;
        let schema_meta = MetaType::Scalar { name: "__Schema".to_owned(), description: None };
        let schema_name = "__Schema".to_owned();
        registry.register_type(&schema_name, schema_meta);
        let type_meta = MetaType::Scalar { name: "__Type".to_owned(), description: None };
        let type_name_s = "__Type".to_owned();
        registry.register_type(&type_name_s, type_meta);
        let root = T::create_type_info(registry);
        let ghost g1 = registry@;
        proof {
            assert(reg_type(g1, "__Schema"@) is Some);
            assert(reg_type(g1, "__Type"@) is Some);
            assert(reg_type(g1, T::type_name_spec()) is Some);
        }
        let schema_field = crate::registry::MetaField {
            name: "__schema".to_owned(),
            description: Some("Access the current type schema of this server.".to_owned()),
            args: Vec::new(),
            ty: "__Schema".to_owned(),
            deprecation: None,
            cache_control: crate::registry::CacheControl { public: true, max_age: 0 },
            external: false,
            requires: None,
            provides: None,
        };
        let fname = "__schema".to_owned();
        let ghost g2 = registry@;
        let ghost sfv = crate::registry::meta_field_view(schema_field);
        proof {
            assert(sfv =~= reserved_schema_field());
        }
        registry.object_add_field(&root, &fname, schema_field);
        proof {
            assert forall|nm: Seq<char>| #[trigger] reg_type(g2, nm) is Some implies reg_type(
                registry@,
                nm,
            ) is Some by {};
        }
        let mut args: Vec<(String, crate::registry::MetaInputValue)> = Vec::new();
        args.push(
            (
                "name".to_owned(),
                crate::registry::MetaInputValue {
                    name: "name".to_owned(),
                    description: None,
                    ty: "String!".to_owned(),
                    default_value: None,
                },
            ),
        );
        let type_field = crate::registry::MetaField {
            name: "__type".to_owned(),
            description: Some("Request the type information of a single type.".to_owned()),
            args,
            ty: "__Type".to_owned(),
            deprecation: None,
            cache_control: crate::registry::CacheControl { public: true, max_age: 0 },
            external: false,
            requires: None,
            provides: None,
        };
        let fname2 = "__type".to_owned();
        let ghost g3 = registry@;
        let ghost tfv = crate::registry::meta_field_view(type_field);
        proof {
            assert(tfv =~= reserved_type_field());
        }
        registry.object_add_field(&root, &fname2, type_field);
        proof {
            assert forall|nm: Seq<char>| #[trigger] reg_type(g3, nm) is Some implies reg_type(
                registry@,
                nm,
            ) is Some by {};
            assert("__schema"@ != "__type"@) by {
                reveal_strlit("__schema");
                reveal_strlit("__type");
                assert("__schema"@.len() == 8);
                assert("__type"@.len() == 6);
            };
            match reg_type(g2, T::type_name_spec()) {
                Some(MetaTypeV::Object { .. }) => {
                    assert(reg_type(g3, T::type_name_spec()) matches Some(MetaTypeV::Object {
                        fields: f2,
                        ..
                    }) && crate::registry::assoc_get(f2, "__schema"@) == Some(sfv));
                    assert(reg_type(registry@, T::type_name_spec()) matches Some(
                        MetaTypeV::Object { fields: f3, .. },
                    ) && crate::registry::assoc_get(f3, "__type"@) == Some(tfv)
                        && crate::registry::assoc_get(f3, "__schema"@) == Some(sfv));
                },
                _ => {},
            }
        }
        root
    }

    /// The reserved-field protocol itself, stated by
    /// [`query_root_resolve_ens`].
    open spec fn resolve_field_ens(
        &self,
        ctx: FieldContext,
        env: EnvironmentV,
        reg: RegistryV,
        depth: nat,
        r: Result<JsonV, ErrorV>,
    ) -> bool {
        query_root_resolve_ens(*self, ctx, env, reg, depth, r)
    }

    fn resolve_field(
        &self,
        ctx: &FieldContext,
        env: &Environment,
        registry: &Registry,
        depth: u32,
    ) -> (r: Result<Json, Error>) {
        resolve_query_root_field(self, ctx, env, registry, depth)
    }

    fn find_entity(
        &self,
        ctx: &FieldContext,
        env: &Environment,
        registry: &Registry,
        depth: u32,
        params: &Value,
    ) -> (r: Result<Json, Error>) {
        if depth == 0 {
            return Err(QueryError::TooDeep.into_error(ctx.field.position));
        }
        self.inner.find_entity(ctx, env, registry, depth - 1, params)
    }

    fn matches_type_condition(&self, name: &String, registry: &Registry) -> (r: bool) {
        let tn = T::type_name_of();
        default_matches_type_condition(&tn, name, registry)
    }
}

} // verus!
