//! The query pipeline: the builder callers hand a request to, operation
//! selection, execution, and the merging of incremental responses.

use vstd::prelude::*;
use crate::ast::{
    clone_fragment_definition, clone_selection_set, clone_variable_definition, definition_view,
    document_view, selection_set_view, variable_definitions_view, Definition, DefinitionV,
    Document, DocumentV, FragmentDefinitionV, OperationDefinition, Pos, SelectionSet,
    SelectionSetV, VariableDefinition, VariableDefinitionV,
};
use crate::context::{Environment, EnvironmentV, Variables};
use crate::error::{error_at, Error, ErrorV, QueryError, QueryErrorV};
use crate::mutation_resolver::do_mutation_resolve;
use crate::registry::CacheControl;
use crate::resolver::{
    all_non_user, deferred_of, deferred_views, do_resolve, resolve_deferred, response_obj_matches,
    sel_plans_set, DeferredField, DeferredFieldV, ObjectType,
};
use crate::schema::Schema;
use crate::subscription::SubscriptionType;
use crate::value::{
    json_obj_get, json_obj_update, json_view, lemma_json_obj_first_binding,
    lemma_json_obj_get_none, value_view, Json, JsonV,
};

verus! {

/// The depth budget a request is resolved under: fragment and inline
/// descents, field resolutions and list nestings each consume one level.
pub const MAX_RESOLVE_DEPTH: u32 = 64;

/// The fragments of a document, by name, in definition order.
pub open spec fn doc_fragments(defs: Seq<DefinitionV>) -> Seq<(Seq<char>, FragmentDefinitionV)>
    decreases defs.len(),
{
    if defs.len() == 0 {
        Seq::empty()
    } else {
        let rest = doc_fragments(defs.skip(1));
        match defs[0] {
            DefinitionV::Fragment(f) => seq![(f.name, f)] + rest,
            _ => rest,
        }
    }
}

/// The operation a request selects: the first definition that is a bare
/// selection set, or a query or mutation matching the requested name; a
/// matching subscription selects nothing here.
pub open spec fn current_operation_spec(
    defs: Seq<DefinitionV>,
    operation_name: Option<Seq<char>>,
) -> Option<(SelectionSetV, Seq<VariableDefinitionV>, bool)>
    decreases defs.len(),
{
    if defs.len() == 0 {
        None
    } else {
        match defs[0] {
            DefinitionV::Operation(op) => match op {
                crate::ast::OperationDefinitionV::SelectionSet(ss) => Some(
                    (ss, Seq::empty(), true),
                ),
                crate::ast::OperationDefinitionV::Query(q) => if q.name is None
                    || operation_name is None || q.name == operation_name {
                    Some((q.selection_set, q.variable_definitions, true))
                } else {
                    current_operation_spec(defs.skip(1), operation_name)
                },
                crate::ast::OperationDefinitionV::Mutation(m) => if m.name is None
                    || operation_name is None || m.name == operation_name {
                    Some((m.selection_set, m.variable_definitions, false))
                } else {
                    current_operation_spec(defs.skip(1), operation_name)
                },
                crate::ast::OperationDefinitionV::Subscription(s) => if s.name is None
                    || operation_name is None || s.name == operation_name {
                    None
                } else {
                    current_operation_spec(defs.skip(1), operation_name)
                },
            },
            DefinitionV::Fragment(_) => current_operation_spec(defs.skip(1), operation_name),
        }
    }
}

/// Selects the operation of a document, exactly as
/// [`current_operation_spec`] states.
#[verifier::loop_isolation(false)]
pub fn current_operation(document: &Document, operation_name: Option<&String>) -> (r: Option<
    (SelectionSet, Vec<VariableDefinition>, bool),
>)
    ensures
        ({
            let opn = match operation_name {
                Some(n) => Some(n@),
                None => None,
            };
            match r {
                Some(t) => current_operation_spec(document_view(*document).definitions, opn)
                    == Some(
                    (
                        selection_set_view(t.0),
                        variable_definitions_view(t.1@),
                        t.2,
                    ),
                ),
                None => current_operation_spec(document_view(*document).definitions, opn) is None,
            }
        }),
{
    let ghost defsv = document_view(*document).definitions;
    let ghost opn: Option<Seq<char>> = match operation_name {
        Some(n) => Some(n@),
        None => None,
    };
    let n = document.definitions.len();
    let mut i: usize = 0;
    proof {
        assert(defsv.skip(0) =~= defsv);
    }
    while i < n
        invariant
            0 <= i <= n,
            n == document.definitions@.len(),
            defsv.len() == n,
            forall|k: int| 0 <= k < n ==> defsv[k] == definition_view(document.definitions@[k]),
            current_operation_spec(defsv, opn) == current_operation_spec(
                defsv.skip(i as int),
                opn,
            ),
        decreases n - i,
    {
        proof {
            assert(defsv.skip(i as int).skip(1) =~= defsv.skip(i + 1 as int));
        }
        match &document.definitions[i] {
            Definition::Operation(op) => {
                match op {
                    OperationDefinition::SelectionSet(ss) => {
                        return Some((clone_selection_set(ss), Vec::new(), true));
                    },
                    OperationDefinition::Query(q) => {
                        let matches_name = match (&q.name, operation_name) {
                            (None, _) => true,
                            (_, None) => true,
                            (Some(a), Some(b)) => crate::context::str_eq_lit(a, b.as_str()),
                        };
                        if matches_name {
                            let defs = clone_variable_definitions(&q.variable_definitions);
                            return Some((clone_selection_set(&q.selection_set), defs, true));
                        }
                    },
                    OperationDefinition::Mutation(m) => {
                        let matches_name = match (&m.name, operation_name) {
                            (None, _) => true,
                            (_, None) => true,
                            (Some(a), Some(b)) => crate::context::str_eq_lit(a, b.as_str()),
                        };
                        if matches_name {
                            let defs = clone_variable_definitions(&m.variable_definitions);
                            return Some((clone_selection_set(&m.selection_set), defs, false));
                        }
                    },
                    OperationDefinition::Subscription(sdef) => {
                        let matches_name = match (&sdef.name, operation_name) {
                            (None, _) => true,
                            (_, None) => true,
                            (Some(a), Some(b)) => crate::context::str_eq_lit(a, b.as_str()),
                        };
                        if matches_name {
                            return None;
                        }
                    },
                }
            },
            Definition::Fragment(_) => {},
        }
        i += 1;
    }
    proof {
        assert(defsv.skip(n as int) =~= Seq::<DefinitionV>::empty());
    }
    None
}

/// Structure-preserving clone of a variable-definition list.
#[verifier::loop_isolation(false)]
fn clone_variable_definitions(defs: &Vec<VariableDefinition>) -> (r: Vec<VariableDefinition>)
    ensures
        variable_definitions_view(r@) == variable_definitions_view(defs@),
{
    let mut out: Vec<VariableDefinition> = Vec::new();
    let n = defs.len();
    for i in 0..n
        invariant
            n == defs@.len(),
            out@.len() == i,
            forall|k: int| #![trigger out@[k]]
                0 <= k < i ==> crate::ast::variable_definition_view(out@[k])
                    == crate::ast::variable_definition_view(defs@[k]),
        decreases n - i,
    {
        let d = clone_variable_definition(&defs[i]);
        out.push(d);
    }
    proof {
        assert(variable_definitions_view(out@) =~= variable_definitions_view(defs@));
    }
    out
}

/// Collects a document's fragments by name, exactly as [`doc_fragments`]
/// states.
#[verifier::loop_isolation(false)]
pub fn collect_document_fragments(document: &Document) -> (r: Vec<
    (String, crate::ast::FragmentDefinition),
>)
    ensures
        r@.map_values(
            |p: (String, crate::ast::FragmentDefinition)|
                (p.0@, crate::ast::fragment_definition_view(p.1)),
        ) == doc_fragments(document_view(*document).definitions),
{
    let ghost defsv = document_view(*document).definitions;
    let ghost target = doc_fragments(defsv);
    let mut out: Vec<(String, crate::ast::FragmentDefinition)> = Vec::new();
    let n = document.definitions.len();
    let mut i: usize = 0;
    proof {
        assert(defsv.skip(0) =~= defsv);
        assert(out@.map_values(
            |p: (String, crate::ast::FragmentDefinition)|
                (p.0@, crate::ast::fragment_definition_view(p.1)),
        ) + doc_fragments(defsv) =~= doc_fragments(defsv));
    }
    while i < n
        invariant
            0 <= i <= n,
            n == document.definitions@.len(),
            defsv.len() == n,
            forall|k: int| 0 <= k < n ==> defsv[k] == definition_view(document.definitions@[k]),
            doc_fragments(defsv) == out@.map_values(
                |p: (String, crate::ast::FragmentDefinition)|
                    (p.0@, crate::ast::fragment_definition_view(p.1)),
            ) + doc_fragments(defsv.skip(i as int)),
        decreases n - i,
    {
        proof {
            assert(defsv.skip(i as int).skip(1) =~= defsv.skip(i + 1 as int));
        }
        let ghost outv0 = out@.map_values(
            |p: (String, crate::ast::FragmentDefinition)|
                (p.0@, crate::ast::fragment_definition_view(p.1)),
        );
        match &document.definitions[i] {
            Definition::Fragment(f) => {
                let name = f.name.clone();
                let fc = clone_fragment_definition(f);
                out.push((name, fc));
                proof {
                    let outv1 = out@.map_values(
                        |p: (String, crate::ast::FragmentDefinition)|
                            (p.0@, crate::ast::fragment_definition_view(p.1)),
                    );
                    assert(outv1 =~= outv0.push(
                        (out@.last().0@, crate::ast::fragment_definition_view(out@.last().1)),
                    ));
                    let fv = defsv[i as int]->Fragment_0;
                    if doc_fragments(defsv.skip(i + 1 as int)) == doc_fragments(
                        defsv.skip(i + 1 as int),
                    ) {
                        assert(outv0 + (seq![(fv.name, fv)] + doc_fragments(
                            defsv.skip(i + 1 as int),
                        )) =~= outv1 + doc_fragments(defsv.skip(i + 1 as int)));
                    }
                }
            },
            _ => {},
        }
        i += 1;
    }
    proof {
        assert(defsv.skip(n as int) =~= Seq::<DefinitionV>::empty());
        assert(doc_fragments(defsv.skip(n as int)) =~= Seq::<
            (Seq<char>, FragmentDefinitionV),
        >::empty());
        assert(out@.map_values(
            |p: (String, crate::ast::FragmentDefinition)|
                (p.0@, crate::ast::fragment_definition_view(p.1)),
        ) + Seq::<(Seq<char>, FragmentDefinitionV)>::empty() =~= out@.map_values(
            |p: (String, crate::ast::FragmentDefinition)|
                (p.0@, crate::ast::fragment_definition_view(p.1)),
        ));
    }
    out
}

/// One response of a request: the data, the path it applies at when it is
/// incremental, and propagated cache metadata.
#[derive(Debug)]
pub struct QueryResponse {
    /// Where an incremental response applies; the primary response has
    /// none.
    pub path: Option<Json>,
    /// The data of this response.
    pub data: Json,
    /// Propagated cache-control metadata.
    pub cache_control: CacheControl,
}

/// Merging an incremental value into a response tree: the path's string
/// segments descend into objects, its integer segments into arrays, and
/// the value replaces what the full path addresses; a path that does not
/// resolve leaves the tree unchanged.
pub open spec fn merge_json(data: JsonV, segs: Seq<JsonV>, v: JsonV) -> JsonV
    decreases segs.len(),
{
    if segs.len() == 0 {
        v
    } else {
        match (data, segs[0]) {
            (JsonV::Object(ps), JsonV::Str(k)) => match json_obj_get(ps, k) {
                Some(inner) => JsonV::Object(
                    json_obj_update(ps, k, merge_json(inner, segs.skip(1), v)),
                ),
                None => JsonV::Object(ps),
            },
            (JsonV::Array(xs), JsonV::Int(ix)) => if 0 <= ix < xs.len() {
                JsonV::Array(xs.update(ix as int, merge_json(xs[ix as int], segs.skip(1), v)))
            } else {
                JsonV::Array(xs)
            },
            (d, _) => d,
        }
    }
}

/// Applies an incremental value at a path, exactly as [`merge_json`]
/// states.
#[verifier::loop_isolation(false)]
fn apply_merge(data: Json, segs: &Vec<Json>, idx: usize, v: &Json) -> (r: Json)
    requires
        idx <= segs@.len(),
    ensures
        json_view(r) == merge_json(
            json_view(data),
            crate::path::json_seq_views(segs@).skip(idx as int),
            json_view(*v),
        ),
    decreases segs@.len() - idx,
{
    let ghost tsegs = crate::path::json_seq_views(segs@).skip(idx as int);
    let ghost dv = json_view(data);
    if idx >= segs.len() {
        proof {
            assert(tsegs.len() == 0);
        }
        return crate::value::clone_json(v);
    }
    proof {
        assert(tsegs[0] == json_view(segs@[idx as int]));
        assert(tsegs.skip(1) =~= crate::path::json_seq_views(segs@).skip(idx + 1 as int));
    }
    match data {
        Json::Object(mut ps) => {
            match &segs[idx] {
                Json::Str(k) => {
                    let ghost psv0 = ps@;
                    let n = ps.len();
                    let mut j: usize = 0;
                    let mut found = false;
                    while j < n
                        invariant
                            0 <= j <= n,
                            !found,
                            n == ps@.len(),
                            psv0 == ps@,
                            forall|k2: int| 0 <= k2 < j ==> ps@[k2].0@ != k@,
                        decreases n - j,
                    {
                        if crate::context::str_eq_lit(&ps[j].0, k.as_str()) {
                            found = true;
                            break ;
                        }
                        j += 1;
                    }
                    let ghost opv = json_view(Json::Object(ps));
                    if found {
                        proof {
                            lemma_json_obj_first_binding(
                                opv->Object_0,
                                k@,
                                JsonV::Null,
                                j as int,
                            );
                        }
                        let pair = ps.remove(j);
                        let key = pair.0;
                        let inner = pair.1;
                        let merged = apply_merge(inner, segs, idx + 1, v);
                        proof {
                            lemma_json_obj_first_binding(
                                opv->Object_0,
                                k@,
                                json_view(merged),
                                j as int,
                            );
                        }
                        ps.insert(j, (key, merged));
                        proof {
                            assert(ps@ =~= psv0.update(j as int, ps@[j as int]));
                            assert(json_view(Json::Object(ps)) matches JsonV::Object(m)
                                && merge_json(opv, tsegs, json_view(*v)) matches JsonV::Object(sm)
                                && m =~= sm);
                        }
                        Json::Object(ps)
                    } else {
                        proof {
                            assert(forall|k2: int|
                                0 <= k2 < psv0.len() ==> (opv->Object_0)[k2].0 == psv0[k2].0@);
                            lemma_json_obj_get_none(opv->Object_0, k@);
                        }
                        Json::Object(ps)
                    }
                },
                _ => Json::Object(ps),
            }
        },
        Json::Array(mut xs) => {
            match &segs[idx] {
                Json::Int(ix) => {
                    let ghost xsv0 = xs@;
                    let ixv = *ix;
                    if ixv >= 0 && (ixv as u64) < (xs.len() as u64) {
                        let iu = ixv as usize;
                        let elem = xs.remove(iu);
                        let merged = apply_merge(elem, segs, idx + 1, v);
                        let ghost mv = json_view(merged);
                        xs.insert(iu, merged);
                        proof {
                            let w = Seq::new(
                                xsv0.len(),
                                |q: int|
                                    if 0 <= q < xsv0.len() {
                                        json_view(xsv0[q])
                                    } else {
                                        JsonV::Null
                                    },
                            );
                            assert(dv is Array && dv->Array_0 =~= w);
                            assert(xs@ =~= xsv0.update(iu as int, xs@[iu as int]));
                            assert(json_view(xs@[iu as int]) == mv);
                            assert(json_view(Json::Array(xs)) is Array);
                            let m = json_view(Json::Array(xs))->Array_0;
                            assert(m =~= w.update(iu as int, mv));
                            assert(iu as int == ixv as int);
                            assert(merge_json(dv, tsegs, json_view(*v)) == JsonV::Array(
                                (dv->Array_0).update(
                                    iu as int,
                                    merge_json((dv->Array_0)[iu as int], tsegs.skip(1), json_view(*v)),
                                ),
                            ));
                            assert(merge_json(w[iu as int], tsegs.skip(1), json_view(*v))
                                == merge_json(
                                (dv->Array_0)[iu as int],
                                tsegs.skip(1),
                                json_view(*v),
                            ));
                        }
                        Json::Array(xs)
                    } else {
                        Json::Array(xs)
                    }
                },
                _ => Json::Array(xs),
            }
        },
        other => other,
    }
}

impl QueryResponse {
    /// Merges an incremental response into this one: the incremental
    /// data replaces what its path addresses; a response without an
    /// array path changes nothing.
    pub fn merge(&mut self, resp: QueryResponse)
        ensures
            final (self).path == old(self).path,
            final (self).cache_control == old(self).cache_control,
            json_view(final (self).data) == (match resp.path {
                Some(Json::Array(segs)) => merge_json(
                    json_view(old(self).data),
                    crate::path::json_seq_views(segs@),
                    json_view(resp.data),
                ),
                _ => json_view(old(self).data),
            }),
    {
        match resp.path {
            Some(Json::Array(segs)) => {
                let mut data = Json::Null;
                core::mem::swap(&mut self.data, &mut data);
                let merged = apply_merge(data, &segs, 0, &resp.data);
                proof {
                    assert(crate::path::json_seq_views(segs@).skip(0) =~= crate::path::json_seq_views(
                        segs@,
                    ));
                }
                self.data = merged;
            },
            _ => {},
        }
    }
}

/// The environment a request resolves under.
pub open spec fn request_env(
    vars: crate::value::ValueV,
    defs: Seq<VariableDefinitionV>,
    doc: DocumentV,
) -> EnvironmentV {
    EnvironmentV { variables: vars, variable_definitions: defs, fragments: doc_fragments(
        doc.definitions,
    ) }
}

/// Options for building a request from a transport payload: where
/// uploaded files are spooled and the limits applied to them.
#[derive(Clone)]
pub struct IntoQueryBuilderOpts {
    /// A directory to store the contents of uploaded files; the system
    /// temporary path when absent.
    pub temp_dir: Option<String>,
    /// Maximum size of one uploaded file, in bytes.
    pub max_file_size: Option<usize>,
    /// Maximum number of uploaded files.
    pub max_num_files: Option<usize>,
}

impl Default for IntoQueryBuilderOpts {
    /// No spool directory and no limits.
    fn default() -> (r: Self)
        ensures
            r.temp_dir is None && r.max_file_size is None && r.max_num_files is None,
    {
        IntoQueryBuilderOpts { temp_dir: None, max_file_size: None, max_num_files: None }
    }
}

/// The serialized paths of a list of deferred units.
pub open spec fn deferred_paths(dfs: Seq<DeferredFieldV>) -> Seq<JsonV> {
    dfs.map_values(|df: DeferredFieldV| df.path)
}

/// A response tree with a list of incremental data assigned in order,
/// each at its path.
pub open spec fn merge_fold(d: JsonV, paths: Seq<JsonV>, datas: Seq<JsonV>) -> JsonV
    decreases paths.len(),
{
    if paths.len() == 0 || datas.len() == 0 {
        d
    } else {
        let d1 = match paths[0] {
            JsonV::Array(segs) => merge_json(d, segs, datas[0]),
            _ => d,
        };
        merge_fold(d1, paths.skip(1), datas.skip(1))
    }
}

/// That a collapsed response's data is a primary response answering the
/// plans with every deferred datum assigned at its path, in order.
pub open spec fn merged_response_ok(
    data: JsonV,
    ps: Seq<crate::resolver::FieldPlanV>,
    qname: Seq<char>,
    dfs: Seq<DeferredFieldV>,
) -> bool {
    exists|m0: Seq<(Seq<char>, JsonV)>, datas: Seq<JsonV>|
        response_obj_matches(m0, ps, qname) && datas.len() == dfs.len() && data == merge_fold(
            JsonV::Object(m0),
            deferred_paths(dfs),
            datas,
        )
}

/// A request under construction: source text, the requested operation
/// name, and the supplied variables.
pub struct QueryBuilder {
    /// The query source the document was parsed from.
    pub query_source: String,
    /// The operation to execute, when the document holds several.
    pub operation_name: Option<String>,
    /// The request's variables.
    pub variables: Variables,
}

impl QueryBuilder {
    /// A request for the given source, with no operation name and empty
    /// variables.
    pub fn new(query_source: String) -> (r: QueryBuilder)
        ensures
            r.query_source@ == query_source@,
            r.operation_name is None,
            value_view(r.variables.0) == crate::value::ValueV::Object(
                Seq::<(Seq<char>, crate::value::ValueV)>::empty(),
            ),
    {
        QueryBuilder { query_source, operation_name: None, variables: Variables::default() }
    }

    /// Selects the operation to execute.
    pub fn operator_name(self, name: String) -> (r: Self)
        ensures
            r.query_source == self.query_source,
            r.operation_name matches Some(n) && n@ == name@,
            r.variables == self.variables,
    {
        QueryBuilder {
            query_source: self.query_source,
            operation_name: Some(name),
            variables: self.variables,
        }
    }

    /// Supplies the request's variables.
    pub fn variables(self, variables: Variables) -> (r: Self)
        ensures
            r.query_source == self.query_source,
            r.operation_name == self.operation_name,
            r.variables == variables,
    {
        QueryBuilder {
            query_source: self.query_source,
            operation_name: self.operation_name,
            variables,
        }
    }

    /// Replaces the scalar addressed by `var_path` with the
    /// file-reference string, as [`crate::context::set_upload_spec`]
    /// states.
    pub fn set_upload(
        &mut self,
        var_path: &str,
        filename: &str,
        content_type: Option<&str>,
        path: &str,
    )
        ensures
            final (self).query_source == old(self).query_source,
            final (self).operation_name == old(self).operation_name,
            value_view(final (self).variables.0) == crate::context::set_upload_spec(
                value_view(old(self).variables.0),
                crate::context::split_dots(var_path@),
                crate::context::file_string_spec(
                    filename@,
                    match content_type {
                        Some(c) => Some(c@),
                        None => None,
                    },
                    path@,
                ),
            ),
    {
        self.variables.set_upload(var_path, filename, content_type, path);
    }

    /// Executes the selected operation once: queries resolve with an
    /// active defer list, mutations sequentially without one.  Returns
    /// the primary response, the queued deferred work, and the
    /// environment the request resolved under.  A request selecting no
    /// operation is exactly `MissingOperation`; a failing walk fails the
    /// call with the walk's own error unless a user-resolved field
    /// preceded the failure; a walk needing no user resolver succeeds.
    pub fn execute_first<Q: ObjectType, M: ObjectType, S: SubscriptionType>(
        self,
        schema: &Schema<Q, M, S>,
        document: &Document,
    ) -> (r: Result<(QueryResponse, Vec<DeferredField>, Environment), Error>)
        ensures
            ({
                let opn = match self.operation_name {
                    Some(n) => Some(n@),
                    None => None,
                };
                match current_operation_spec(document_view(*document).definitions, opn) {
                    None => r matches Err(e) && e@ == error_at(
                        Pos { line: 0, column: 0 },
                        QueryErrorV::MissingOperation,
                    ),
                    Some(op) => {
                        let envv = request_env(
                            value_view(self.variables.0),
                            op.1,
                            document_view(*document),
                        );
                        let qname = schema.query.concrete_name_spec();
                        let mname = schema.mutation.concrete_name_spec();
                        let qplans = sel_plans_set(
                            envv,
                            schema.registry@,
                            op.0,
                            qname,
                            true,
                            MAX_RESOLVE_DEPTH as nat,
                        );
                        let mplans = sel_plans_set(
                            envv,
                            schema.registry@,
                            op.0,
                            mname,
                            false,
                            MAX_RESOLVE_DEPTH as nat,
                        );
                        &&& (r matches Ok(t) ==> t.2@ == envv && t.0.path is None)
                        &&& (op.2 ==> (match qplans {
                            Err(w) => r is Err && (all_non_user(w.pre) ==> (r matches Err(e) && e@
                                == w.err)),
                            Ok(ps) => {
                                &&& (r matches Ok(t) ==> (json_view(t.0.data)
                                    matches JsonV::Object(m) && response_obj_matches(m, ps, qname)
                                    && deferred_views(t.1@) == deferred_of(ps, None)))
                                &&& (all_non_user(ps) ==> r is Ok)
                            },
                        }))
                        &&& (!op.2 ==> (match mplans {
                            Err(w) => r is Err && (all_non_user(w.pre) ==> (r matches Err(e) && e@
                                == w.err)),
                            Ok(ps) => {
                                &&& (r matches Ok(t) ==> (json_view(t.0.data)
                                    matches JsonV::Object(m) && response_obj_matches(m, ps, mname)
                                    && t.1@.len() == 0))
                                &&& (all_non_user(ps) ==> r is Ok)
                            },
                        }))
                    },
                }
            }),
    {
        let operation_name_ref = match &self.operation_name {
            Some(n) => Some(n),
            None => None,
        };
        let op = match current_operation(document, operation_name_ref) {
            Some(t) => t,
            None => {
                return Err(
                    QueryError::MissingOperation.into_error(Pos { line: 0, column: 0 }),
                );
            },
        };
        let (ss, variable_definitions, is_query) = op;
        let fragments = collect_document_fragments(document);
        let env = Environment { variables: self.variables, variable_definitions, fragments };
        let mut defer: Vec<DeferredField> = Vec::new();
        let data = if is_query {
            match do_resolve(
                &schema.query,
                &ss,
                &None,
                &env,
                &schema.registry,
                MAX_RESOLVE_DEPTH,
                true,
                &mut defer,
            ) {
                Ok(d) => d,
                Err(e) => {
                    return Err(e);
                },
            }
        } else {
            match do_mutation_resolve(
                &schema.mutation,
                &ss,
                &None,
                &env,
                &schema.registry,
                MAX_RESOLVE_DEPTH,
            ) {
                Ok(d) => d,
                Err(e) => {
                    return Err(e);
                },
            }
        };
        let resp = QueryResponse {
            path: None,
            data,
            cache_control: CacheControl { public: true, max_age: 0 },
        };
        Ok((resp, defer, env))
    }

    /// Executes the request and returns every response in order: the
    /// primary response first, then one incremental response per queued
    /// deferred field, each carrying that field's serialized path.
    #[verifier::loop_isolation(false)]
    pub fn execute_stream<Q: ObjectType, M: ObjectType, S: SubscriptionType>(
        self,
        schema: &Schema<Q, M, S>,
        document: &Document,
    ) -> (r: Result<Vec<QueryResponse>, Error>)
        ensures
            ({
                let opn = match self.operation_name {
                    Some(n) => Some(n@),
                    None => None,
                };
                match current_operation_spec(document_view(*document).definitions, opn) {
                    None => r matches Err(e) && e@ == error_at(
                        Pos { line: 0, column: 0 },
                        QueryErrorV::MissingOperation,
                    ),
                    Some(op) => {
                        let envv = request_env(
                            value_view(self.variables.0),
                            op.1,
                            document_view(*document),
                        );
                        let qname = schema.query.concrete_name_spec();
                        let qplans = sel_plans_set(
                            envv,
                            schema.registry@,
                            op.0,
                            qname,
                            true,
                            MAX_RESOLVE_DEPTH as nat,
                        );
                        &&& (r matches Ok(v) ==> v@.len() >= 1 && v@[0].path is None)
                        &&& (op.2 ==> (match qplans {
                            Err(w) => r is Err && (all_non_user(w.pre) ==> (r matches Err(e) && e@
                                == w.err)),
                            Ok(ps) => {
                                let dfs = deferred_of(ps, None);
                                &&& (r matches Ok(v) ==> {
                                    &&& json_view(v@[0].data) matches JsonV::Object(m)
                                        && response_obj_matches(m, ps, qname)
                                    &&& v@.len() == 1 + dfs.len()
                                    &&& forall|k: int|
                                        0 <= k < dfs.len() ==> ((#[trigger] v@[1 + k].path)
                                            matches Some(p) && json_view(p) == dfs[k].path)
                                })
                                &&& (all_non_user(ps) && dfs.len() == 0 ==> r is Ok)
                            },
                        }))
                    },
                }
            }),
    {
        let (first, defer, env) = match self.execute_first(schema, document) {
            Ok(t) => t,
            Err(e) => {
                return Err(e);
            },
        };
        let mut responses: Vec<QueryResponse> = Vec::new();
        let ghost firstg = first;
        responses.push(first);
        let n = defer.len();
        let mut i: usize = 0;
        while i < n
            invariant
                0 <= i <= n,
                n == defer@.len(),
                responses@.len() == 1 + i,
                responses@[0] == firstg,
                forall|k: int|
                    0 <= k < i ==> ((#[trigger] responses@[1 + k].path) matches Some(p)
                        && json_view(p) == deferred_views(defer@)[k].path),
            decreases n - i,
        {
            match resolve_deferred(
                &schema.query,
                &defer[i],
                &env,
                &schema.registry,
                MAX_RESOLVE_DEPTH,
            ) {
                Ok(pd) => {
                    let (p, d) = pd;
                    responses.push(
                        QueryResponse {
                            path: Some(p),
                            data: d,
                            cache_control: CacheControl { public: true, max_age: 0 },
                        },
                    );
                },
                Err(e) => {
                    return Err(e);
                },
            }
            i += 1;
        }
        Ok(responses)
    }

    /// Executes the request and collapses the response stream into one
    /// complete response: each incremental response's data is assigned
    /// into the primary data at that response's path, in stream order.
    #[verifier::rlimit(100)]
    #[verifier::spinoff_prover]
    #[verifier::loop_isolation(false)]
    pub fn execute<Q: ObjectType, M: ObjectType, S: SubscriptionType>(
        self,
        schema: &Schema<Q, M, S>,
        document: &Document,
    ) -> (r: Result<QueryResponse, Error>)
        ensures
            ({
                let opn = match self.operation_name {
                    Some(n) => Some(n@),
                    None => None,
                };
                match current_operation_spec(document_view(*document).definitions, opn) {
                    None => r matches Err(e) && e@ == error_at(
                        Pos { line: 0, column: 0 },
                        QueryErrorV::MissingOperation,
                    ),
                    Some(op) => {
                        let envv = request_env(
                            value_view(self.variables.0),
                            op.1,
                            document_view(*document),
                        );
                        let qname = schema.query.concrete_name_spec();
                        let qplans = sel_plans_set(
                            envv,
                            schema.registry@,
                            op.0,
                            qname,
                            true,
                            MAX_RESOLVE_DEPTH as nat,
                        );
                        &&& (r matches Ok(resp) ==> resp.path is None)
                        &&& (op.2 ==> (match qplans {
                            Err(w) => r is Err && (all_non_user(w.pre) ==> (r matches Err(e) && e@
                                == w.err)),
                            Ok(ps) => {
                                let dfs = deferred_of(ps, None);
                                &&& (r matches Ok(resp) ==> merged_response_ok(
                                    json_view(resp.data),
                                    ps,
                                    qname,
                                    dfs,
                                ))
                                &&& (r matches Ok(resp) ==> (dfs.len() == 0 ==> (json_view(
                                    resp.data,
                                ) matches JsonV::Object(m) && response_obj_matches(
                                    m,
                                    ps,
                                    qname,
                                ))))
                                &&& (all_non_user(ps) && dfs.len() == 0 ==> r is Ok)
                            },
                        }))
                    },
                }
            }),
    {
        let ghost opn: Option<Seq<char>> = match &self.operation_name {
            Some(n) => Some(n@),
            None => None,
        };
        let ghost varsv = value_view(self.variables.0);
        let responses = match self.execute_stream(schema, document) {
            Ok(v) => v,
            Err(e) => {
                return Err(e);
            },
        };
        let mut responses = responses;
        let ghost all0 = responses@;
        let mut first = responses.remove(0);
        let ghost first0 = first;
        let ghost rest0 = responses@;
        proof {
            assert(rest0 =~= all0.skip(1));
        }
        let ghost alldatas = Seq::new(responses@.len(), |k: int| json_view(rest0[k].data));
        let ghost allpaths = Seq::new(
            responses@.len(),
            |k: int|
                match rest0[k].path {
                    Some(p) => json_view(p),
                    None => JsonV::Null,
                },
        );
        let n = responses.len();
        let mut i: usize = 0;
        proof {
            assert(allpaths.skip(0) =~= allpaths);
            assert(alldatas.skip(0) =~= alldatas);
        }
        while i < n
            invariant
                0 <= i <= n,
                n == responses@.len(),
                n == rest0.len(),
                first.path == first0.path,
                i == 0 ==> first == first0,
                forall|k: int| i <= k < n ==> responses@[k] == rest0[k],
                merge_fold(json_view(first0.data), allpaths, alldatas) == merge_fold(
                    json_view(first.data),
                    allpaths.skip(i as int),
                    alldatas.skip(i as int),
                ),
            decreases n - i,
        {
            let mut part = QueryResponse {
                path: None,
                data: Json::Null,
                cache_control: CacheControl { public: true, max_age: 0 },
            };
            core::mem::swap(&mut responses[i], &mut part);
            let ghost first_pre = first;
            first.merge(part);
            proof {
                assert(allpaths.skip(i as int).len() > 0);
                assert(allpaths.skip(i as int)[0] == allpaths[i as int]);
                assert(alldatas.skip(i as int)[0] == alldatas[i as int]);
                assert(allpaths.skip(i as int).skip(1) =~= allpaths.skip(i + 1 as int));
                assert(alldatas.skip(i as int).skip(1) =~= alldatas.skip(i + 1 as int));
                match rest0[i as int].path {
                    Some(p) => {
                        match crate::value::json_view(p) {
                            JsonV::Array(m) => {
                                assert(p@ matches JsonV::Array(pm) && (match p {
                                    Json::Array(segs) => crate::path::json_seq_views(segs@)
                                        =~= pm,
                                    _ => false,
                                }));
                            },
                            _ => {},
                        }
                    },
                    None => {},
                }
            }
            i += 1;
        }
        proof {
            assert(allpaths.skip(n as int) =~= Seq::<JsonV>::empty());
            assert(alldatas.skip(n as int) =~= Seq::<JsonV>::empty());
            if n == 0 {
                assert(first == first0);
            }
            match current_operation_spec(document_view(*document).definitions, opn) {
                Some(op) => {
                    if op.2 {
                        let envv = request_env(varsv, op.1, document_view(*document));
                        let qname = schema.query.concrete_name_spec();
                        match sel_plans_set(
                            envv,
                            schema.registry@,
                            op.0,
                            qname,
                            true,
                            MAX_RESOLVE_DEPTH as nat,
                        ) {
                            Ok(ps) => {
                                let dfs = deferred_of(ps, None);
                                let m0 = json_view(first0.data)->Object_0;
                                assert(first0 == all0[0]);
                                assert(n == dfs.len());
                                assert forall|k: int| 0 <= k < n implies allpaths[k] == dfs[k].path
                                    by {
                                    assert(all0[1 + k].path matches Some(p) && json_view(p)
                                        == dfs[k].path);
                                    assert(rest0[k] == all0[1 + k]);
                                };
                                assert(allpaths =~= deferred_paths(dfs));
                                assert(response_obj_matches(m0, ps, qname) && alldatas.len()
                                    == dfs.len() && json_view(first.data) == merge_fold(
                                    JsonV::Object(m0),
                                    deferred_paths(dfs),
                                    alldatas,
                                ));
                                assert(merged_response_ok(json_view(first.data), ps, qname, dfs));
                            },
                            Err(_) => {},
                        }
                    }
                },
                None => {},
            }
        }
        Ok(first)
    }
}

} // verus!
