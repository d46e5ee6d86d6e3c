//! Unit tests of the value model, upload substitution, directive policy,
//! path handling and response merging.

use graphql_core::ast::{Directive, Field, Pos, SelectionSet};
use graphql_core::context::{
    file_string, is_defer, is_skip, parse_i32_digits, resolve_input_value, split_path, var_value,
    Environment, Variables,
};
use graphql_core::error::{Error, QueryError};
use graphql_core::path::{QueryPathNode, QueryPathSegment};
use graphql_core::query::QueryResponse;
use graphql_core::registry::CacheControl;
use graphql_core::value::{json_value_to_gql_value, Json, Value};
use graphql_core::ast::VariableDefinition;
use graphql_core::resolver::OutputValueType;

fn pos() -> Pos {
    Pos { line: 1, column: 1 }
}

fn env_with(vars: Vec<(&str, Value)>, defs: Vec<(&str, Option<Value>)>) -> Environment {
    Environment {
        variables: Variables(Value::Object(
            vars.into_iter().map(|(k, v)| (k.to_string(), v)).collect(),
        )),
        variable_definitions: defs
            .into_iter()
            .map(|(n, d)| VariableDefinition {
                position: pos(),
                name: n.to_string(),
                var_type: "Int".to_string(),
                default_value: d,
            })
            .collect(),
        fragments: Vec::new(),
    }
}

/// Decimal strings parse as Rust's `i32` parsing does: signs, leading
/// zeros, the extremes, and rejection of junk and overflow.
#[test]
fn parse_i32_matches_std() {
    for s in [
        "0", "1", "42", "-1", "+7", "007", "2147483647", "-2147483648", "2147483648",
        "-2147483649", "", "-", "+", "12a", "a12", " 1", "00000000000000123", "99999999999999999999",
    ] {
        assert_eq!(parse_i32_digits(&s.to_string()), s.parse::<i32>().ok(), "input {:?}", s);
    }
}

/// Dotted paths split on every dot, keeping empty segments.
#[test]
fn split_path_segments() {
    assert_eq!(split_path("variables.a.0"), vec!["variables", "a", "0"]);
    assert_eq!(split_path(""), vec![""]);
    assert_eq!(split_path("a..b."), vec!["a", "", "b", ""]);
}

/// The file reference string carries name, optional content type and
/// local path.
#[test]
fn file_string_encoding() {
    assert_eq!(file_string("f.txt", Some("text/plain"), "/tmp/u1"), "file:f.txt:text/plain|/tmp/u1");
    assert_eq!(file_string("f.txt", None, "/tmp/u1"), "file:f.txt|/tmp/u1");
}

/// `set_upload` replaces the addressed scalar, descending through
/// objects by key and lists by index; a path that misses, or one whose
/// first segment is not `variables`, changes nothing.
#[test]
fn set_upload_replaces_addressed_scalar() {
    let mut vars = Variables(Value::Object(vec![(
        "file".to_string(),
        Value::List(vec![Value::Null, Value::Null]),
    )]));
    vars.set_upload("variables.file.1", "a.png", Some("image/png"), "/tmp/a");
    assert_eq!(
        vars.0,
        Value::Object(vec![(
            "file".to_string(),
            Value::List(vec![
                Value::Null,
                Value::Str("file:a.png:image/png|/tmp/a".to_string())
            ]),
        )])
    );

    let mut vars = Variables(Value::Object(vec![("x".to_string(), Value::Null)]));
    vars.set_upload("other.x", "a", None, "/tmp/a");
    assert_eq!(vars.0, Value::Object(vec![("x".to_string(), Value::Null)]));

    let mut vars = Variables(Value::Object(vec![("x".to_string(), Value::Null)]));
    vars.set_upload("variables.missing", "a", None, "/tmp/a");
    assert_eq!(vars.0, Value::Object(vec![("x".to_string(), Value::Null)]));
}

/// JSON maps into the value algebra structurally; large integers narrow
/// to 32 bits by truncation.
#[test]
fn json_to_gql_mapping() {
    let j = Json::Object(vec![
        ("b".to_string(), Json::Bool(true)),
        ("n".to_string(), Json::Int(5)),
        ("big".to_string(), Json::Int(0x1_0000_0001)),
        ("s".to_string(), Json::Str("hi".to_string())),
        ("l".to_string(), Json::Array(vec![Json::Null])),
    ]);
    let v = json_value_to_gql_value(&j);
    assert_eq!(
        v,
        Value::Object(vec![
            ("b".to_string(), Value::Boolean(true)),
            ("n".to_string(), Value::Int(5)),
            ("big".to_string(), Value::Int(1)),
            ("s".to_string(), Value::Str("hi".to_string())),
            ("l".to_string(), Value::List(vec![Value::Null])),
        ])
    );
}

/// A variable resolves to its supplied value, else its declared default,
/// else `VarNotDefined`; an undeclared variable is refused even when a
/// value was supplied.
#[test]
fn var_value_resolution() {
    let env = env_with(
        vec![("x", Value::Int(3)), ("undeclared", Value::Int(9))],
        vec![("x", None), ("d", Some(Value::Int(7)))],
    );
    assert_eq!(var_value(&env, &"x".to_string(), pos()).unwrap(), Value::Int(3));
    assert_eq!(var_value(&env, &"d".to_string(), pos()).unwrap(), Value::Int(7));
    let Error::Query { err, .. } = var_value(&env, &"undeclared".to_string(), pos()).unwrap_err();
    assert!(matches!(err, QueryError::VarNotDefined { ref var_name } if var_name == "undeclared"));
}

/// Substitution replaces variables at the top level and one level inside
/// lists and objects, and is the identity on values without them, so a
/// second application changes nothing.
#[test]
fn substitution_and_idempotence() {
    let env = env_with(vec![("x", Value::Int(3))], vec![("x", None)]);
    let v = Value::List(vec![Value::Variable("x".to_string()), Value::Int(1)]);
    let once = resolve_input_value(&env, v, pos()).unwrap();
    assert_eq!(once, Value::List(vec![Value::Int(3), Value::Int(1)]));
    let twice = resolve_input_value(&env, once, pos()).unwrap();
    assert_eq!(twice, Value::List(vec![Value::Int(3), Value::Int(1)]));
}

fn directive(name: &str, args: Vec<(&str, Value)>) -> Directive {
    Directive {
        position: pos(),
        name: name.to_string(),
        arguments: args.into_iter().map(|(k, v)| (k.to_string(), v)).collect(),
    }
}

/// For every boolean `v`, `@skip(if: v)` decides elision exactly as
/// `@include(if: !v)` does.
#[test]
fn skip_equals_negated_include() {
    let env = env_with(vec![], vec![]);
    for v in [true, false] {
        let skip = is_skip(&env, &vec![directive("skip", vec![("if", Value::Boolean(v))])])
            .unwrap();
        let kept = is_skip(&env, &vec![directive("include", vec![("if", Value::Boolean(!v))])])
            .unwrap();
        assert_eq!(skip, kept);
        assert_eq!(skip, v);
    }
}

/// `@defer` is recognized among a member's directives.
#[test]
fn defer_detection() {
    assert!(is_defer(&vec![directive("defer", vec![])]));
    assert!(!is_defer(&vec![directive("skip", vec![("if", Value::Boolean(true))])]));
    assert!(!is_defer(&vec![]));
}

/// A path serializes root first: names as strings, indexes as integers;
/// the nearest name segment provides the field name.
#[test]
fn path_serialization_and_field_name() {
    let root = QueryPathNode { parent: None, segment: QueryPathSegment::Name("items".to_string()) };
    let child = QueryPathNode {
        parent: Some(Box::new(root)),
        segment: QueryPathSegment::Index(2),
    };
    assert_eq!(
        child.to_json(),
        Json::Array(vec![Json::Str("items".to_string()), Json::Int(2)])
    );
    assert_eq!(child.field_name(), "items");
}

/// Merging an incremental response navigates its path and replaces the
/// `null` placeholder there.
#[test]
fn merge_incremental_response() {
    let mut primary = QueryResponse {
        path: None,
        data: Json::Object(vec![
            ("a".to_string(), Json::Int(1)),
            ("b".to_string(), Json::Null),
        ]),
        cache_control: CacheControl::default(),
    };
    let part = QueryResponse {
        path: Some(Json::Array(vec![Json::Str("b".to_string())])),
        data: Json::Int(2),
        cache_control: CacheControl::default(),
    };
    primary.merge(part);
    assert_eq!(
        primary.data,
        Json::Object(vec![
            ("a".to_string(), Json::Int(1)),
            ("b".to_string(), Json::Int(2)),
        ])
    );

    let part = QueryResponse {
        path: Some(Json::Array(vec![Json::Str("missing".to_string())])),
        data: Json::Int(9),
        cache_control: CacheControl::default(),
    };
    primary.merge(part);
    assert_eq!(
        primary.data,
        Json::Object(vec![
            ("a".to_string(), Json::Int(1)),
            ("b".to_string(), Json::Int(2)),
        ])
    );
}

/// Variables parse from a JSON object; any other JSON yields the empty
/// variables object.
#[test]
fn variables_parse_from_json() {
    let vars = Variables::parse_from_json(&Json::Object(vec![(
        "x".to_string(),
        Json::Int(1),
    )]))
    .unwrap();
    assert_eq!(vars.0, Value::Object(vec![("x".to_string(), Value::Int(1))]));
    let vars = Variables::parse_from_json(&Json::Int(1)).unwrap();
    assert_eq!(vars.0, Value::Object(vec![]));
}

fn bare_field(name: &str) -> Field {
    Field {
        position: pos(),
        alias: None,
        name: name.to_string(),
        arguments: Vec::new(),
        directives: Vec::new(),
        selection_set: SelectionSet { span: (pos(), pos()), items: Vec::new() },
    }
}

/// A per-message resolution wraps the message's value under the field's
/// result key; list elements keep their order and length.
#[test]
fn message_resolution_and_lists() {
    let env = env_with(vec![], vec![]);
    let registry = graphql_core::registry::Registry::new("Q".to_string());
    let field = bare_field("ticks");
    let msg: i32 = 7;
    let (key, value) =
        graphql_core::subscription::resolve_message(&msg, &field, &env, &registry, 8).unwrap();
    assert_eq!(key, "ticks");
    assert_eq!(value, Json::Int(7));

    let list: Vec<i32> = vec![3, 1, 2];
    let out = list
        .resolve_output(&field.selection_set, &None, &env, &registry, 8)
        .unwrap();
    assert_eq!(out, Json::Array(vec![Json::Int(3), Json::Int(1), Json::Int(2)]));
}

/// An output value that always fails, reporting the path it was handed.
struct FailingLeaf;

impl OutputValueType for FailingLeaf {
    fn resolves_to(
        &self,
        _env: graphql_core::context::EnvironmentV,
        _reg: graphql_core::registry::RegistryV,
        _ss: graphql_core::ast::SelectionSetV,
        _path: Option<vstd::prelude::Seq<graphql_core::path::QueryPathSegmentV>>,
        _depth: vstd::prelude::nat,
        _r: Result<graphql_core::value::JsonV, graphql_core::error::ErrorV>,
    ) -> bool {
        panic!()
    }
    fn resolve_output(
        &self,
        ss: &SelectionSet,
        path: &Option<QueryPathNode>,
        _env: &Environment,
        _registry: &graphql_core::registry::Registry,
        _depth: u32,
    ) -> Result<Json, Error> {
        let path_json = path.as_ref().map(|p| p.to_json());
        Err(Error::Query {
            pos: ss.span.0,
            path: path_json,
            err: QueryError::NotSupported,
        })
    }
}

/// A failing list element reports a path ending in its own index.
#[test]
fn list_error_path_ends_in_index() {
    let env = env_with(vec![], vec![]);
    let registry = graphql_core::registry::Registry::new("Q".to_string());
    let field = bare_field("xs");
    let list: Vec<FailingLeaf> = vec![FailingLeaf];
    let err = list
        .resolve_output(&field.selection_set, &None, &env, &registry, 8)
        .unwrap_err();
    let Error::Query { path, .. } = err;
    assert_eq!(path, Some(Json::Array(vec![Json::Int(0)])));
}

/// `for_each` visits the path's segments from the root downward.
#[test]
fn for_each_visits_segments_in_order() {
    let root = QueryPathNode { parent: None, segment: QueryPathSegment::Name("a".to_string()) };
    let node = QueryPathNode {
        parent: Some(Box::new(root)),
        segment: QueryPathSegment::Index(4),
    };
    let seen: std::cell::RefCell<Vec<String>> = std::cell::RefCell::new(Vec::new());
    node.for_each(|seg: &QueryPathSegment| {
        let rendered = match seg {
            QueryPathSegment::Name(n) => n.clone(),
            QueryPathSegment::Index(i) => format!("{}", i),
        };
        seen.borrow_mut().push(rendered);
    });
    assert_eq!(*seen.borrow(), vec!["a".to_string(), "4".to_string()]);
}

/// A subscription root for the stream-setup walk.
struct SubRoot;

impl graphql_core::subscription::SubscriptionType for SubRoot {
    fn type_name_spec() -> vstd::prelude::Seq<char> {
        panic!()
    }
    fn is_empty_spec() -> bool {
        panic!()
    }
    fn type_name_of() -> String {
        "SubRoot".to_string()
    }
    fn is_empty() -> bool {
        false
    }
    fn create_type_info(registry: &mut graphql_core::registry::Registry) -> String {
        registry.create_type(
            &"SubRoot".to_string(),
            graphql_core::registry::MetaType::Object {
                name: "SubRoot".to_string(),
                description: None,
                fields: Vec::new(),
                cache_control: CacheControl::default(),
                extends: false,
                keys: None,
            },
        )
    }
    fn create_field_stream(
        &self,
        ctx: &graphql_core::base::FieldContext,
        _env: &Environment,
        _registry: &graphql_core::registry::Registry,
    ) -> Result<graphql_core::subscription::FieldStream, Error> {
        Ok(graphql_core::subscription::FieldStream {
            field: graphql_core::ast::clone_field(&ctx.field),
        })
    }
}

fn sel_field(name: &str) -> graphql_core::ast::Selection {
    graphql_core::ast::Selection::Field(bare_field(name))
}

/// The subscription walk subscribes one stream per surviving field; an
/// inline fragment is entered only when its condition names the
/// subscription type.
#[test]
fn subscription_stream_setup_walk() {
    let env = env_with(vec![], vec![]);
    let registry = graphql_core::registry::Registry::new("Q".to_string());
    let inline_on = |tc: &str, inner: &str| {
        graphql_core::ast::Selection::InlineFragment(graphql_core::ast::InlineFragment {
            position: pos(),
            type_condition: Some(graphql_core::ast::TypeCondition::On(tc.to_string())),
            directives: Vec::new(),
            selection_set: SelectionSet {
                span: (pos(), pos()),
                items: vec![sel_field(inner)],
            },
        })
    };
    let ss = SelectionSet {
        span: (pos(), pos()),
        items: vec![
            sel_field("ticks"),
            inline_on("SubRoot", "more"),
            inline_on("Other", "nope"),
        ],
    };
    let mut streams: Vec<graphql_core::subscription::FieldStream> = Vec::new();
    graphql_core::subscription::create_subscription_stream(
        &SubRoot,
        &ss,
        &env,
        &registry,
        8,
        &mut streams,
    )
    .unwrap();
    let names: Vec<String> = streams.iter().map(|fs| fs.field.name.clone()).collect();
    assert_eq!(names, vec!["ticks".to_string(), "more".to_string()]);
}

/// A subscription spread naming a fragment the document lacks is the
/// `UnknownFragment` error.
#[test]
fn subscription_unknown_fragment_is_error() {
    let env = env_with(vec![], vec![]);
    let registry = graphql_core::registry::Registry::new("Q".to_string());
    let ss = SelectionSet {
        span: (pos(), pos()),
        items: vec![graphql_core::ast::Selection::FragmentSpread(
            graphql_core::ast::FragmentSpread {
                position: pos(),
                fragment_name: "missing".to_string(),
                directives: Vec::new(),
            },
        )],
    };
    let mut streams: Vec<graphql_core::subscription::FieldStream> = Vec::new();
    let err = graphql_core::subscription::create_subscription_stream(
        &SubRoot,
        &ss,
        &env,
        &registry,
        8,
        &mut streams,
    )
    .unwrap_err();
    let Error::Query { err, .. } = err;
    assert!(matches!(err, QueryError::UnknownFragment { ref name } if name == "missing"));
}

/// An empty selection set is the `MustHaveSubFields` error at the set's
/// start, naming the object's concrete type.
#[test]
fn empty_selection_set_is_error() {
    let env = env_with(vec![], vec![]);
    let registry = graphql_core::registry::Registry::new("Q".to_string());
    let ss = SelectionSet { span: (pos(), pos()), items: Vec::new() };
    let mut defer: Vec<graphql_core::resolver::DeferredField> = Vec::new();
    let err = graphql_core::resolver::do_resolve(
        &graphql_core::types::EmptyMutation,
        &ss,
        &None,
        &env,
        &registry,
        8,
        false,
        &mut defer,
    )
    .unwrap_err();
    let Error::Query { pos: p, err, .. } = err;
    assert_eq!(p, pos());
    assert!(matches!(err, QueryError::MustHaveSubFields { ref object } if object == "EmptyMutation"));
}

/// Inserting a field under an existing name replaces the binding instead
/// of duplicating it, so registering the same root twice keeps one
/// `__schema` and one `__type` field.
#[test]
fn object_field_insert_replaces_not_duplicates() {
    let mut registry = graphql_core::registry::Registry::new("Q".to_string());
    let info = graphql_core::registry::MetaType::Object {
        name: "Q".to_string(),
        description: None,
        fields: Vec::new(),
        cache_control: CacheControl::default(),
        extends: false,
        keys: None,
    };
    registry.create_type(&"Q".to_string(), info);
    let field = |ty: &str| graphql_core::registry::MetaField {
        name: "__schema".to_string(),
        description: None,
        args: Vec::new(),
        ty: ty.to_string(),
        deprecation: None,
        cache_control: CacheControl::default(),
        external: false,
        requires: None,
        provides: None,
    };
    registry.object_add_field(&"Q".to_string(), &"__schema".to_string(), field("A"));
    registry.object_add_field(&"Q".to_string(), &"__schema".to_string(), field("B"));
    let entry = registry.get_type(&"Q".to_string()).unwrap();
    let graphql_core::registry::MetaType::Object { fields, .. } = entry else {
        panic!("object expected");
    };
    assert_eq!(fields.len(), 1);
    assert_eq!(fields[0].1.ty, "B");
}
