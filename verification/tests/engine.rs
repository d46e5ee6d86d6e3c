//! End-to-end execution tests: queries parsed by graphql-parser are
//! converted into the library's AST and run against test schemas.

use graphql_core::base::{param_value, FieldContext};
use graphql_core::query::QueryBuilder;
use graphql_core::registry::{CacheControl, MetaField, MetaType, Registry};
use graphql_core::resolver::{default_matches_type_condition, do_resolve, DeferredField, ObjectType};
use graphql_core::schema::Schema;
use graphql_core::subscription::EmptySubscription;
use graphql_core::types::EmptyMutation;
use graphql_core::value::{Json, Value};
use graphql_core::ast;
use graphql_core::error::{Error, QueryError};
use graphql_parser::query::Definition as GpDefinition;
use graphql_parser::query::OperationDefinition as GpOperation;
use graphql_parser::query::Selection as GpSelection;
use graphql_parser::query::Type as GpType;
use graphql_parser::query::Value as GpValue;
use std::cell::RefCell;

type GpDoc = graphql_parser::query::Document<'static, String>;

fn conv_pos(p: graphql_parser::Pos) -> ast::Pos {
    ast::Pos { line: p.line, column: p.column }
}

fn conv_value(v: graphql_parser::query::Value<'static, String>) -> Value {
    match v {
        GpValue::Variable(n) => Value::Variable(n),
        GpValue::Int(n) => Value::Int(n.as_i64().unwrap() as i32),
        GpValue::Float(f) => Value::Float(f.to_bits()),
        GpValue::String(s) => Value::Str(s),
        GpValue::Boolean(b) => Value::Boolean(b),
        GpValue::Null => Value::Null,
        GpValue::Enum(e) => Value::Enum(e),
        GpValue::List(xs) => Value::List(xs.into_iter().map(conv_value).collect()),
        GpValue::Object(ps) => Value::Object(ps.into_iter().map(|(k, v)| (k, conv_value(v))).collect()),
    }
}

fn conv_type(t: &graphql_parser::query::Type<'static, String>) -> String {
    match t {
        GpType::NamedType(n) => n.clone(),
        GpType::ListType(inner) => format!("[{}]", conv_type(inner)),
        GpType::NonNullType(inner) => format!("{}!", conv_type(inner)),
    }
}

fn conv_dirs(ds: Vec<graphql_parser::query::Directive<'static, String>>) -> Vec<ast::Directive> {
    ds.into_iter()
        .map(|d| ast::Directive {
            position: conv_pos(d.position),
            name: d.name,
            arguments: d.arguments.into_iter().map(|(k, v)| (k, conv_value(v))).collect(),
        })
        .collect()
}

fn conv_ss(ss: graphql_parser::query::SelectionSet<'static, String>) -> ast::SelectionSet {
    ast::SelectionSet {
        span: (conv_pos(ss.span.0), conv_pos(ss.span.1)),
        items: ss.items.into_iter().map(conv_sel).collect(),
    }
}

fn conv_sel(s: graphql_parser::query::Selection<'static, String>) -> ast::Selection {
    match s {
        GpSelection::Field(f) => ast::Selection::Field(ast::Field {
            position: conv_pos(f.position),
            alias: f.alias,
            name: f.name,
            arguments: f.arguments.into_iter().map(|(k, v)| (k, conv_value(v))).collect(),
            directives: conv_dirs(f.directives),
            selection_set: conv_ss(f.selection_set),
        }),
        GpSelection::FragmentSpread(fs) => ast::Selection::FragmentSpread(ast::FragmentSpread {
            position: conv_pos(fs.position),
            fragment_name: fs.fragment_name,
            directives: conv_dirs(fs.directives),
        }),
        GpSelection::InlineFragment(inf) => ast::Selection::InlineFragment(ast::InlineFragment {
            position: conv_pos(inf.position),
            type_condition: inf.type_condition.map(|tc| {
                let graphql_parser::query::TypeCondition::On(n) = tc;
                ast::TypeCondition::On(n)
            }),
            directives: conv_dirs(inf.directives),
            selection_set: conv_ss(inf.selection_set),
        }),
    }
}

fn conv_var_defs(
    ds: Vec<graphql_parser::query::VariableDefinition<'static, String>>,
) -> Vec<ast::VariableDefinition> {
    ds.into_iter()
        .map(|d| ast::VariableDefinition {
            position: conv_pos(d.position),
            name: d.name,
            var_type: conv_type(&d.var_type),
            default_value: d.default_value.map(conv_value),
        })
        .collect()
}

fn conv_op(
    op: graphql_parser::query::OperationDefinition<'static, String>,
) -> ast::OperationDefinition {
    match op {
        GpOperation::SelectionSet(ss) => ast::OperationDefinition::SelectionSet(conv_ss(ss)),
        GpOperation::Query(q) => ast::OperationDefinition::Query(ast::OperationBody {
            position: conv_pos(q.position),
            name: q.name,
            variable_definitions: conv_var_defs(q.variable_definitions),
            directives: conv_dirs(q.directives),
            selection_set: conv_ss(q.selection_set),
        }),
        GpOperation::Mutation(m) => ast::OperationDefinition::Mutation(ast::OperationBody {
            position: conv_pos(m.position),
            name: m.name,
            variable_definitions: conv_var_defs(m.variable_definitions),
            directives: conv_dirs(m.directives),
            selection_set: conv_ss(m.selection_set),
        }),
        GpOperation::Subscription(s) => ast::OperationDefinition::Subscription(ast::OperationBody {
            position: conv_pos(s.position),
            name: s.name,
            variable_definitions: conv_var_defs(s.variable_definitions),
            directives: conv_dirs(s.directives),
            selection_set: conv_ss(s.selection_set),
        }),
    }
}

pub fn parse_doc(source: &str) -> ast::Document {
    let doc: GpDoc = graphql_parser::parse_query::<String>(source).unwrap().into_static();
    ast::Document {
        definitions: doc
            .definitions
            .into_iter()
            .map(|d| {
                match d {
                    GpDefinition::Operation(op) => ast::Definition::Operation(conv_op(op)),
                    GpDefinition::Fragment(f) => {
                        let graphql_parser::query::TypeCondition::On(n) = f.type_condition;
                        ast::Definition::Fragment(ast::FragmentDefinition {
                            position: conv_pos(f.position),
                            name: f.name,
                            type_condition: ast::TypeCondition::On(n),
                            directives: conv_dirs(f.directives),
                            selection_set: conv_ss(f.selection_set),
                        })
                    }
                }
            })
            .collect(),
    }
}

fn int_field(name: &str) -> (String, MetaField) {
    (
        name.to_string(),
        MetaField {
            name: name.to_string(),
            description: None,
            args: Vec::new(),
            ty: "Int!".to_string(),
            deprecation: None,
            cache_control: CacheControl::default(),
            external: false,
            requires: None,
            provides: None,
        },
    )
}

fn not_found(ctx: &FieldContext, object: &str) -> Error {
    QueryError::FieldNotFound {
        field_name: ctx.field.name.clone(),
        object: object.to_string(),
    }
    .into_error(ctx.field.position)
}

struct AddRoot;

impl ObjectType for AddRoot {
    fn resolve_field_ens(
        &self,
        _ctx: graphql_core::base::FieldContext,
        _env: graphql_core::context::EnvironmentV,
        _reg: graphql_core::registry::RegistryV,
        _depth: vstd::prelude::nat,
        _r: Result<graphql_core::value::JsonV, graphql_core::error::ErrorV>,
    ) -> bool {
        panic!()
    }
    fn type_name_spec() -> vstd::prelude::Seq<char> {
        panic!()
    }
    fn concrete_name_spec(&self) -> vstd::prelude::Seq<char> {
        panic!()
    }
    fn is_empty_spec() -> bool {
        panic!()
    }
    fn type_name_of() -> String {
        "QueryRoot".to_string()
    }
    fn introspection_type_name(&self) -> String {
        "QueryRoot".to_string()
    }
    fn is_empty() -> bool {
        false
    }
    fn create_type_info(registry: &mut Registry) -> String {
        let name = "QueryRoot".to_string();
        let mut args = Vec::new();
        for a in ["a", "b"] {
            args.push((
                a.to_string(),
                graphql_core::registry::MetaInputValue {
                    name: a.to_string(),
                    description: None,
                    ty: "Int".to_string(),
                    default_value: None,
                },
            ));
        }
        let add_field = MetaField {
            name: "add".to_string(),
            description: Some("Returns the sum of a and b".to_string()),
            args,
            ty: "Int!".to_string(),
            deprecation: None,
            cache_control: CacheControl::default(),
            external: false,
            requires: None,
            provides: None,
        };
        let info = MetaType::Object {
            name: "QueryRoot".to_string(),
            description: None,
            fields: vec![("add".to_string(), add_field)],
            cache_control: CacheControl::default(),
            extends: false,
            keys: None,
        };
        registry.create_type(&name, info)
    }
    fn resolve_field(
        &self,
        ctx: &FieldContext,
        env: &graphql_core::context::Environment,
        registry: &Registry,
        _depth: u32,
    ) -> Result<Json, Error> {
        let _ = registry;
        if ctx.field.name == "add" {
            let a: i32 = param_value::<i32>(env, &ctx.field, "a", ctx.field.position, Value::Null)?;
            let b: i32 = param_value::<i32>(env, &ctx.field, "b", ctx.field.position, Value::Null)?;
            Ok(Json::Int((a as i64) + (b as i64)))
        } else {
            Err(not_found(ctx, "QueryRoot"))
        }
    }
    fn find_entity(
        &self,
        ctx: &FieldContext,
        _env: &graphql_core::context::Environment,
        _registry: &Registry,
        _depth: u32,
        _params: &Value,
    ) -> Result<Json, Error> {
        Err(QueryError::NotSupported.into_error(ctx.field.position))
    }
    fn matches_type_condition(&self, name: &String, registry: &Registry) -> bool {
        default_matches_type_condition(&"QueryRoot".to_string(), name, registry)
    }
}

fn obj(pairs: Vec<(&str, Json)>) -> Json {
    Json::Object(pairs.into_iter().map(|(k, v)| (k.to_string(), v)).collect())
}

/// Query `{ add(a: 10, b: 20) }` answers `{"data":{"add":30}}`.
#[test]
fn quickstart() {
    let schema = Schema::new(AddRoot, EmptyMutation, EmptySubscription);
    let query = r#"{ add(a: 10, b: 20) }"#;
    let doc = parse_doc(query);
    let resp = QueryBuilder::new(query.to_string()).execute(&schema, &doc).unwrap();
    assert_eq!(resp.data, obj(vec![("add", Json::Int(30))]));
}

struct HelloRoot {
    name: Option<String>,
}

impl ObjectType for HelloRoot {
    fn resolve_field_ens(
        &self,
        _ctx: graphql_core::base::FieldContext,
        _env: graphql_core::context::EnvironmentV,
        _reg: graphql_core::registry::RegistryV,
        _depth: vstd::prelude::nat,
        _r: Result<graphql_core::value::JsonV, graphql_core::error::ErrorV>,
    ) -> bool {
        panic!()
    }
    fn type_name_spec() -> vstd::prelude::Seq<char> {
        panic!()
    }
    fn concrete_name_spec(&self) -> vstd::prelude::Seq<char> {
        panic!()
    }
    fn is_empty_spec() -> bool {
        panic!()
    }
    fn type_name_of() -> String {
        "QueryRoot".to_string()
    }
    fn introspection_type_name(&self) -> String {
        "QueryRoot".to_string()
    }
    fn is_empty() -> bool {
        false
    }
    fn create_type_info(registry: &mut Registry) -> String {
        let name = "QueryRoot".to_string();
        let hello = MetaField {
            name: "hello".to_string(),
            description: Some("Returns hello".to_string()),
            args: Vec::new(),
            ty: "String!".to_string(),
            deprecation: None,
            cache_control: CacheControl::default(),
            external: false,
            requires: None,
            provides: None,
        };
        let info = MetaType::Object {
            name: "QueryRoot".to_string(),
            description: None,
            fields: vec![("hello".to_string(), hello)],
            cache_control: CacheControl::default(),
            extends: false,
            keys: None,
        };
        registry.create_type(&name, info)
    }
    fn resolve_field(
        &self,
        ctx: &FieldContext,
        _env: &graphql_core::context::Environment,
        _registry: &Registry,
        _depth: u32,
    ) -> Result<Json, Error> {
        if ctx.field.name == "hello" {
            let name = self.name.as_deref().unwrap_or("world");
            Ok(Json::Str(format!("Hello, {}!", name)))
        } else {
            Err(not_found(ctx, "QueryRoot"))
        }
    }
    fn find_entity(
        &self,
        ctx: &FieldContext,
        _env: &graphql_core::context::Environment,
        _registry: &Registry,
        _depth: u32,
        _params: &Value,
    ) -> Result<Json, Error> {
        Err(QueryError::NotSupported.into_error(ctx.field.position))
    }
    fn matches_type_condition(&self, name: &String, registry: &Registry) -> bool {
        default_matches_type_condition(&"QueryRoot".to_string(), name, registry)
    }
}

/// Query `{ hello }` reads per-request data: with `name="Foo"` it answers
/// `Hello, Foo!`, without it `Hello, world!`.
#[test]
fn hello() {
    let query = r#"{ hello }"#;
    let doc = parse_doc(query);

    let schema = Schema::new(HelloRoot { name: Some("Foo".to_string()) }, EmptyMutation, EmptySubscription);
    let resp = QueryBuilder::new(query.to_string()).execute(&schema, &doc).unwrap();
    assert_eq!(resp.data, obj(vec![("hello", Json::Str("Hello, Foo!".to_string()))]));

    let schema = Schema::new(HelloRoot { name: None }, EmptyMutation, EmptySubscription);
    let resp = QueryBuilder::new(query.to_string()).execute(&schema, &doc).unwrap();
    assert_eq!(resp.data, obj(vec![("hello", Json::Str("Hello, world!".to_string()))]));
}

struct MyObj {
    a: i32,
    b: i32,
    value_aa: i32,
}

impl ObjectType for MyObj {
    fn resolve_field_ens(
        &self,
        _ctx: graphql_core::base::FieldContext,
        _env: graphql_core::context::EnvironmentV,
        _reg: graphql_core::registry::RegistryV,
        _depth: vstd::prelude::nat,
        _r: Result<graphql_core::value::JsonV, graphql_core::error::ErrorV>,
    ) -> bool {
        panic!()
    }
    fn type_name_spec() -> vstd::prelude::Seq<char> {
        panic!()
    }
    fn concrete_name_spec(&self) -> vstd::prelude::Seq<char> {
        panic!()
    }
    fn is_empty_spec() -> bool {
        panic!()
    }
    fn type_name_of() -> String {
        "MyObj".to_string()
    }
    fn introspection_type_name(&self) -> String {
        "MyObj".to_string()
    }
    fn is_empty() -> bool {
        false
    }
    fn create_type_info(registry: &mut Registry) -> String {
        let name = "MyObj".to_string();
        let info = MetaType::Object {
            name: "MyObj".to_string(),
            description: None,
            fields: vec![int_field("a"), int_field("b"), int_field("valueAa")],
            cache_control: CacheControl::default(),
            extends: false,
            keys: None,
        };
        registry.create_type(&name, info)
    }
    fn resolve_field(
        &self,
        ctx: &FieldContext,
        _env: &graphql_core::context::Environment,
        _registry: &Registry,
        _depth: u32,
    ) -> Result<Json, Error> {
        match ctx.field.name.as_str() {
            "a" => Ok(Json::Int(self.a as i64)),
            "b" => Ok(Json::Int(self.b as i64)),
            "valueAa" => Ok(Json::Int(self.value_aa as i64)),
            _ => Err(not_found(ctx, "MyObj")),
        }
    }
    fn find_entity(
        &self,
        ctx: &FieldContext,
        _env: &graphql_core::context::Environment,
        _registry: &Registry,
        _depth: u32,
        _params: &Value,
    ) -> Result<Json, Error> {
        Err(QueryError::NotSupported.into_error(ctx.field.position))
    }
    fn matches_type_condition(&self, name: &String, registry: &Registry) -> bool {
        default_matches_type_condition(&"MyObj".to_string(), name, registry)
    }
}

/// Whether the registered object `ty` has a field named `name`.
fn registered_field(registry: &Registry, ty: &str, name: &String) -> bool {
    match registry.get_type(&ty.to_string()) {
        Some(t) => t.field_by_name(name).is_some(),
        None => false,
    }
}

struct FlattenRoot;

impl ObjectType for FlattenRoot {
    fn resolve_field_ens(
        &self,
        _ctx: graphql_core::base::FieldContext,
        _env: graphql_core::context::EnvironmentV,
        _reg: graphql_core::registry::RegistryV,
        _depth: vstd::prelude::nat,
        _r: Result<graphql_core::value::JsonV, graphql_core::error::ErrorV>,
    ) -> bool {
        panic!()
    }
    fn type_name_spec() -> vstd::prelude::Seq<char> {
        panic!()
    }
    fn concrete_name_spec(&self) -> vstd::prelude::Seq<char> {
        panic!()
    }
    fn is_empty_spec() -> bool {
        panic!()
    }
    fn type_name_of() -> String {
        "Query".to_string()
    }
    fn introspection_type_name(&self) -> String {
        "Query".to_string()
    }
    fn is_empty() -> bool {
        false
    }
    fn create_type_info(registry: &mut Registry) -> String {
        MyObj::create_type_info(registry);
        let name = "Query".to_string();
        let info = MetaType::Object {
            name: "Query".to_string(),
            description: None,
            fields: vec![int_field("a"), int_field("b"), int_field("valueAa"), int_field("c")],
            cache_control: CacheControl::default(),
            extends: false,
            keys: None,
        };
        registry.create_type(&name, info)
    }
    fn resolve_field(
        &self,
        ctx: &FieldContext,
        env: &graphql_core::context::Environment,
        registry: &Registry,
        depth: u32,
    ) -> Result<Json, Error> {
        if registered_field(registry, "MyObj", &ctx.field.name) {
            let inner = MyObj { a: 1, b: 2, value_aa: 99 };
            return inner.resolve_field(ctx, env, registry, depth);
        }
        if ctx.field.name == "c" {
            return Ok(Json::Int(3));
        }
        Err(not_found(ctx, "Query"))
    }
    fn find_entity(
        &self,
        ctx: &FieldContext,
        _env: &graphql_core::context::Environment,
        _registry: &Registry,
        _depth: u32,
        _params: &Value,
    ) -> Result<Json, Error> {
        Err(QueryError::NotSupported.into_error(ctx.field.position))
    }
    fn matches_type_condition(&self, name: &String, registry: &Registry) -> bool {
        default_matches_type_condition(&"Query".to_string(), name, registry)
    }
}

/// A root field declared flatten answers the inner object's fields as its
/// own, beside its sibling scalar.
#[test]
fn test_object_field_flatten() {
    let schema = Schema::new(FlattenRoot, EmptyMutation, EmptySubscription);
    let query = "{ a b valueAa c }";
    let doc = parse_doc(query);
    let resp = QueryBuilder::new(query.to_string()).execute(&schema, &doc).unwrap();
    assert_eq!(
        resp.data,
        obj(vec![
            ("a", Json::Int(1)),
            ("b", Json::Int(2)),
            ("valueAa", Json::Int(99)),
            ("c", Json::Int(3)),
        ])
    );
}

struct SmallObj {
    a: i32,
    b: i32,
}

impl ObjectType for SmallObj {
    fn resolve_field_ens(
        &self,
        _ctx: graphql_core::base::FieldContext,
        _env: graphql_core::context::EnvironmentV,
        _reg: graphql_core::registry::RegistryV,
        _depth: vstd::prelude::nat,
        _r: Result<graphql_core::value::JsonV, graphql_core::error::ErrorV>,
    ) -> bool {
        panic!()
    }
    fn type_name_spec() -> vstd::prelude::Seq<char> {
        panic!()
    }
    fn concrete_name_spec(&self) -> vstd::prelude::Seq<char> {
        panic!()
    }
    fn is_empty_spec() -> bool {
        panic!()
    }
    fn type_name_of() -> String {
        "MyObjSmall".to_string()
    }
    fn introspection_type_name(&self) -> String {
        "MyObjSmall".to_string()
    }
    fn is_empty() -> bool {
        false
    }
    fn create_type_info(registry: &mut Registry) -> String {
        let name = "MyObjSmall".to_string();
        let info = MetaType::Object {
            name: "MyObjSmall".to_string(),
            description: None,
            fields: vec![int_field("a"), int_field("b")],
            cache_control: CacheControl::default(),
            extends: false,
            keys: None,
        };
        registry.create_type(&name, info)
    }
    fn resolve_field(
        &self,
        ctx: &FieldContext,
        _env: &graphql_core::context::Environment,
        _registry: &Registry,
        _depth: u32,
    ) -> Result<Json, Error> {
        match ctx.field.name.as_str() {
            "a" => Ok(Json::Int(self.a as i64)),
            "b" => Ok(Json::Int(self.b as i64)),
            _ => Err(not_found(ctx, "MyObjSmall")),
        }
    }
    fn find_entity(
        &self,
        ctx: &FieldContext,
        _env: &graphql_core::context::Environment,
        _registry: &Registry,
        _depth: u32,
        _params: &Value,
    ) -> Result<Json, Error> {
        Err(QueryError::NotSupported.into_error(ctx.field.position))
    }
    fn matches_type_condition(&self, name: &String, registry: &Registry) -> bool {
        default_matches_type_condition(&"MyObjSmall".to_string(), name, registry)
    }
}

struct SimpleFlattenRoot {
    obj: SmallObj,
    c: i32,
}

impl ObjectType for SimpleFlattenRoot {
    fn resolve_field_ens(
        &self,
        _ctx: graphql_core::base::FieldContext,
        _env: graphql_core::context::EnvironmentV,
        _reg: graphql_core::registry::RegistryV,
        _depth: vstd::prelude::nat,
        _r: Result<graphql_core::value::JsonV, graphql_core::error::ErrorV>,
    ) -> bool {
        panic!()
    }
    fn type_name_spec() -> vstd::prelude::Seq<char> {
        panic!()
    }
    fn concrete_name_spec(&self) -> vstd::prelude::Seq<char> {
        panic!()
    }
    fn is_empty_spec() -> bool {
        panic!()
    }
    fn type_name_of() -> String {
        "Query".to_string()
    }
    fn introspection_type_name(&self) -> String {
        "Query".to_string()
    }
    fn is_empty() -> bool {
        false
    }
    fn create_type_info(registry: &mut Registry) -> String {
        SmallObj::create_type_info(registry);
        let name = "Query".to_string();
        let info = MetaType::Object {
            name: "Query".to_string(),
            description: None,
            fields: vec![int_field("a"), int_field("b"), int_field("c")],
            cache_control: CacheControl::default(),
            extends: false,
            keys: None,
        };
        registry.create_type(&name, info)
    }
    fn resolve_field(
        &self,
        ctx: &FieldContext,
        env: &graphql_core::context::Environment,
        registry: &Registry,
        depth: u32,
    ) -> Result<Json, Error> {
        if registered_field(registry, "MyObjSmall", &ctx.field.name) {
            return self.obj.resolve_field(ctx, env, registry, depth);
        }
        if ctx.field.name == "c" {
            return Ok(Json::Int(self.c as i64));
        }
        Err(not_found(ctx, "Query"))
    }
    fn find_entity(
        &self,
        ctx: &FieldContext,
        _env: &graphql_core::context::Environment,
        _registry: &Registry,
        _depth: u32,
        _params: &Value,
    ) -> Result<Json, Error> {
        Err(QueryError::NotSupported.into_error(ctx.field.position))
    }
    fn matches_type_condition(&self, name: &String, registry: &Registry) -> bool {
        default_matches_type_condition(&"Query".to_string(), name, registry)
    }
}

/// A flatten field on a value-holding object answers the inner values.
#[test]
fn test_simple_object_field_flatten() {
    let schema = Schema::new(
        SimpleFlattenRoot { obj: SmallObj { a: 1, b: 2 }, c: 3 },
        EmptyMutation,
        EmptySubscription,
    );
    let query = "{ a b c }";
    let doc = parse_doc(query);
    let resp = QueryBuilder::new(query.to_string()).execute(&schema, &doc).unwrap();
    assert_eq!(
        resp.data,
        obj(vec![("a", Json::Int(1)), ("b", Json::Int(2)), ("c", Json::Int(3))])
    );
}

struct MyObj2 {
    obj: MyObj,
    c: i32,
}

impl ObjectType for MyObj2 {
    fn resolve_field_ens(
        &self,
        _ctx: graphql_core::base::FieldContext,
        _env: graphql_core::context::EnvironmentV,
        _reg: graphql_core::registry::RegistryV,
        _depth: vstd::prelude::nat,
        _r: Result<graphql_core::value::JsonV, graphql_core::error::ErrorV>,
    ) -> bool {
        panic!()
    }
    fn type_name_spec() -> vstd::prelude::Seq<char> {
        panic!()
    }
    fn concrete_name_spec(&self) -> vstd::prelude::Seq<char> {
        panic!()
    }
    fn is_empty_spec() -> bool {
        panic!()
    }
    fn type_name_of() -> String {
        "MyObj2".to_string()
    }
    fn introspection_type_name(&self) -> String {
        "MyObj2".to_string()
    }
    fn is_empty() -> bool {
        false
    }
    fn create_type_info(registry: &mut Registry) -> String {
        MyObj::create_type_info(registry);
        let name = "MyObj2".to_string();
        let info = MetaType::Object {
            name: "MyObj2".to_string(),
            description: None,
            fields: vec![int_field("a"), int_field("b"), int_field("valueAa"), int_field("c")],
            cache_control: CacheControl::default(),
            extends: false,
            keys: None,
        };
        registry.create_type(&name, info)
    }
    fn resolve_field(
        &self,
        ctx: &FieldContext,
        env: &graphql_core::context::Environment,
        registry: &Registry,
        depth: u32,
    ) -> Result<Json, Error> {
        if registered_field(registry, "MyObj", &ctx.field.name) {
            return self.obj.resolve_field(ctx, env, registry, depth);
        }
        if ctx.field.name == "c" {
            return Ok(Json::Int(self.c as i64));
        }
        Err(not_found(ctx, "MyObj2"))
    }
    fn find_entity(
        &self,
        ctx: &FieldContext,
        _env: &graphql_core::context::Environment,
        _registry: &Registry,
        _depth: u32,
        _params: &Value,
    ) -> Result<Json, Error> {
        Err(QueryError::NotSupported.into_error(ctx.field.position))
    }
    fn matches_type_condition(&self, name: &String, registry: &Registry) -> bool {
        default_matches_type_condition(&"MyObj2".to_string(), name, registry)
    }
}

enum MyInterface {
    MyObj2(MyObj2),
}

impl From<MyObj2> for MyInterface {
    fn from(obj: MyObj2) -> Self {
        MyInterface::MyObj2(obj)
    }
}

impl ObjectType for MyInterface {
    fn resolve_field_ens(
        &self,
        _ctx: graphql_core::base::FieldContext,
        _env: graphql_core::context::EnvironmentV,
        _reg: graphql_core::registry::RegistryV,
        _depth: vstd::prelude::nat,
        _r: Result<graphql_core::value::JsonV, graphql_core::error::ErrorV>,
    ) -> bool {
        panic!()
    }
    fn type_name_spec() -> vstd::prelude::Seq<char> {
        panic!()
    }
    fn concrete_name_spec(&self) -> vstd::prelude::Seq<char> {
        panic!()
    }
    fn is_empty_spec() -> bool {
        panic!()
    }
    fn type_name_of() -> String {
        "MyInterface".to_string()
    }
    fn introspection_type_name(&self) -> String {
        match self {
            MyInterface::MyObj2(_) => "MyObj2".to_string(),
        }
    }
    fn is_empty() -> bool {
        false
    }
    fn create_type_info(registry: &mut Registry) -> String {
        MyObj2::create_type_info(registry);
        registry.add_implements(&"MyObj2".to_string(), &"MyInterface".to_string());
        let name = "MyInterface".to_string();
        let info = MetaType::Interface {
            name: "MyInterface".to_string(),
            description: None,
            fields: vec![int_field("a")],
            possible_types: vec!["MyObj2".to_string()],
            extends: false,
            keys: None,
        };
        registry.create_type(&name, info)
    }
    fn resolve_field(
        &self,
        ctx: &FieldContext,
        env: &graphql_core::context::Environment,
        registry: &Registry,
        depth: u32,
    ) -> Result<Json, Error> {
        match self {
            MyInterface::MyObj2(v) => v.resolve_field(ctx, env, registry, depth),
        }
    }
    fn find_entity(
        &self,
        ctx: &FieldContext,
        _env: &graphql_core::context::Environment,
        _registry: &Registry,
        _depth: u32,
        _params: &Value,
    ) -> Result<Json, Error> {
        Err(QueryError::NotSupported.into_error(ctx.field.position))
    }
    fn matches_type_condition(&self, name: &String, registry: &Registry) -> bool {
        match self {
            MyInterface::MyObj2(v) => v.matches_type_condition(name, registry),
        }
    }
}

struct InterfaceRoot;

impl ObjectType for InterfaceRoot {
    fn resolve_field_ens(
        &self,
        _ctx: graphql_core::base::FieldContext,
        _env: graphql_core::context::EnvironmentV,
        _reg: graphql_core::registry::RegistryV,
        _depth: vstd::prelude::nat,
        _r: Result<graphql_core::value::JsonV, graphql_core::error::ErrorV>,
    ) -> bool {
        panic!()
    }
    fn type_name_spec() -> vstd::prelude::Seq<char> {
        panic!()
    }
    fn concrete_name_spec(&self) -> vstd::prelude::Seq<char> {
        panic!()
    }
    fn is_empty_spec() -> bool {
        panic!()
    }
    fn type_name_of() -> String {
        "Query".to_string()
    }
    fn introspection_type_name(&self) -> String {
        "Query".to_string()
    }
    fn is_empty() -> bool {
        false
    }
    fn create_type_info(registry: &mut Registry) -> String {
        MyInterface::create_type_info(registry);
        let name = "Query".to_string();
        let mut obj_field = int_field("obj").1;
        obj_field.ty = "MyInterface!".to_string();
        let info = MetaType::Object {
            name: "Query".to_string(),
            description: None,
            fields: vec![("obj".to_string(), obj_field)],
            cache_control: CacheControl::default(),
            extends: false,
            keys: None,
        };
        registry.create_type(&name, info)
    }
    fn resolve_field(
        &self,
        ctx: &FieldContext,
        env: &graphql_core::context::Environment,
        registry: &Registry,
        depth: u32,
    ) -> Result<Json, Error> {
        if ctx.field.name == "obj" {
            let value: MyInterface =
                MyObj2 { obj: MyObj { a: 1, b: 2, value_aa: 99 }, c: 3 }.into();
            let mut defer: Vec<DeferredField> = Vec::new();
            return do_resolve(
                &value,
                &ctx.field.selection_set,
                &ctx.path,
                env,
                registry,
                depth,
                false,
                &mut defer,
            );
        }
        Err(not_found(ctx, "Query"))
    }
    fn find_entity(
        &self,
        ctx: &FieldContext,
        _env: &graphql_core::context::Environment,
        _registry: &Registry,
        _depth: u32,
        _params: &Value,
    ) -> Result<Json, Error> {
        Err(QueryError::NotSupported.into_error(ctx.field.position))
    }
    fn matches_type_condition(&self, name: &String, registry: &Registry) -> bool {
        default_matches_type_condition(&"Query".to_string(), name, registry)
    }
}

/// Inline fragments on the interface and on the concrete variant both
/// reach the variant's fields; the alias keys the second copy.
#[test]
fn test_object_field_flatten_interface() {
    let schema = Schema::new(InterfaceRoot, EmptyMutation, EmptySubscription);
    let query = r#"{
        obj {
            ... on MyObj2 {
                a b c
            }
        }
        obj1:obj {
            ... on MyInterface {
                a
            }
            ... on MyObj2 {
                b c
            }
        }
    }"#;
    let doc = parse_doc(query);
    let resp = QueryBuilder::new(query.to_string()).execute(&schema, &doc).unwrap();
    let inner = obj(vec![("a", Json::Int(1)), ("b", Json::Int(2)), ("c", Json::Int(3))]);
    let inner1 = obj(vec![("a", Json::Int(1)), ("b", Json::Int(2)), ("c", Json::Int(3))]);
    assert_eq!(resp.data, obj(vec![("obj", inner), ("obj1", inner1)]));
}

/// The response object holds exactly the surviving fields, in
/// selection-set order, keyed by alias when one is given, and answers
/// `__typename` with the concrete type name.
#[test]
fn selection_order_and_aliases() {
    let schema = Schema::new(AddRoot, EmptyMutation, EmptySubscription);
    let query = r#"{ second: add(a: 2, b: 2) __typename first: add(a: 1, b: 1) }"#;
    let doc = parse_doc(query);
    let resp = QueryBuilder::new(query.to_string()).execute(&schema, &doc).unwrap();
    assert_eq!(
        resp.data,
        obj(vec![
            ("second", Json::Int(4)),
            ("__typename", Json::Str("QueryRoot".to_string())),
            ("first", Json::Int(2)),
        ])
    );
}

/// `@skip(if: true)` and `@include(if: false)` both elide a field;
/// `@skip(if: false)` and `@include(if: true)` both keep it.
#[test]
fn skip_and_include_directives() {
    let schema = Schema::new(AddRoot, EmptyMutation, EmptySubscription);
    let query = r#"{
        kept: add(a: 1, b: 1) @skip(if: false)
        gone: add(a: 2, b: 2) @skip(if: true)
        also: add(a: 3, b: 3) @include(if: true)
        not: add(a: 4, b: 4) @include(if: false)
    }"#;
    let doc = parse_doc(query);
    let resp = QueryBuilder::new(query.to_string()).execute(&schema, &doc).unwrap();
    assert_eq!(
        resp.data,
        obj(vec![("kept", Json::Int(2)), ("also", Json::Int(6))])
    );
}

/// An unknown directive on a member is an `UnknownDirective` error.
#[test]
fn unknown_directive_is_error() {
    let schema = Schema::new(AddRoot, EmptyMutation, EmptySubscription);
    let query = r#"{ add(a: 1, b: 1) @nope }"#;
    let doc = parse_doc(query);
    let err = QueryBuilder::new(query.to_string()).execute(&schema, &doc).unwrap_err();
    let Error::Query { err, .. } = err;
    assert!(matches!(err, QueryError::UnknownDirective { ref name } if name == "nope"));
}

/// A spread of a fragment the document lacks is an `UnknownFragment`
/// error; a defined one expands in place.
#[test]
fn fragments_expand_and_unknown_fragment_errors() {
    let schema = Schema::new(AddRoot, EmptyMutation, EmptySubscription);
    let query = r#"query { ...good } fragment good on QueryRoot { add(a: 5, b: 5) }"#;
    let doc = parse_doc(query);
    let resp = QueryBuilder::new(query.to_string()).execute(&schema, &doc).unwrap();
    assert_eq!(resp.data, obj(vec![("add", Json::Int(10))]));

    let query = r#"{ ...missing }"#;
    let doc = parse_doc(query);
    let err = QueryBuilder::new(query.to_string()).execute(&schema, &doc).unwrap_err();
    let Error::Query { err, .. } = err;
    assert!(matches!(err, QueryError::UnknownFragment { ref name } if name == "missing"));
}

/// Variables resolve from the supplied variables object, fall back to
/// declared defaults, and are substituted inside arguments.
#[test]
fn variables_resolve_and_default() {
    let schema = Schema::new(AddRoot, EmptyMutation, EmptySubscription);
    let query = r#"query($x: Int!, $y: Int = 7) { add(a: $x, b: $y) }"#;
    let doc = parse_doc(query);
    let vars = graphql_core::context::Variables(Value::Object(vec![(
        "x".to_string(),
        Value::Int(35),
    )]));
    let resp = QueryBuilder::new(query.to_string())
        .variables(vars)
        .execute(&schema, &doc)
        .unwrap();
    assert_eq!(resp.data, obj(vec![("add", Json::Int(42))]));
}

/// An operation that uses an undeclared, unsupplied variable is a
/// `VarNotDefined` error.
#[test]
fn variable_missing_is_error() {
    let schema = Schema::new(AddRoot, EmptyMutation, EmptySubscription);
    let query = r#"query($x: Int!) { add(a: $x, b: 1) }"#;
    let doc = parse_doc(query);
    let err = QueryBuilder::new(query.to_string()).execute(&schema, &doc).unwrap_err();
    let Error::Query { err, .. } = err;
    assert!(matches!(err, QueryError::VarNotDefined { ref var_name } if var_name == "x"));
}

/// A non-boolean `if` on `@skip` is an `ExpectedType` error, and a
/// missing `if` a `RequiredDirectiveArgs` error.
#[test]
fn skip_argument_errors() {
    let schema = Schema::new(AddRoot, EmptyMutation, EmptySubscription);
    let query = r#"{ add(a: 1, b: 1) @skip(if: 3) }"#;
    let doc = parse_doc(query);
    let err = QueryBuilder::new(query.to_string()).execute(&schema, &doc).unwrap_err();
    let Error::Query { err, .. } = err;
    assert!(matches!(err, QueryError::ExpectedType { ref expect, .. } if expect == "Boolean!"));

    let query = r#"{ add(a: 1, b: 1) @skip }"#;
    let doc = parse_doc(query);
    let err = QueryBuilder::new(query.to_string()).execute(&schema, &doc).unwrap_err();
    let Error::Query { err, .. } = err;
    assert!(matches!(err, QueryError::RequiredDirectiveArgs { ref directive, .. } if directive == "@skip"));
}

struct MutationRoot {
    log: RefCell<Vec<i32>>,
}

impl ObjectType for MutationRoot {
    fn resolve_field_ens(
        &self,
        _ctx: graphql_core::base::FieldContext,
        _env: graphql_core::context::EnvironmentV,
        _reg: graphql_core::registry::RegistryV,
        _depth: vstd::prelude::nat,
        _r: Result<graphql_core::value::JsonV, graphql_core::error::ErrorV>,
    ) -> bool {
        panic!()
    }
    fn type_name_spec() -> vstd::prelude::Seq<char> {
        panic!()
    }
    fn concrete_name_spec(&self) -> vstd::prelude::Seq<char> {
        panic!()
    }
    fn is_empty_spec() -> bool {
        panic!()
    }
    fn type_name_of() -> String {
        "MutationRoot".to_string()
    }
    fn introspection_type_name(&self) -> String {
        "MutationRoot".to_string()
    }
    fn is_empty() -> bool {
        false
    }
    fn create_type_info(registry: &mut Registry) -> String {
        let name = "MutationRoot".to_string();
        let info = MetaType::Object {
            name: "MutationRoot".to_string(),
            description: None,
            fields: vec![int_field("first"), int_field("second"), int_field("third")],
            cache_control: CacheControl::default(),
            extends: false,
            keys: None,
        };
        registry.create_type(&name, info)
    }
    fn resolve_field(
        &self,
        ctx: &FieldContext,
        _env: &graphql_core::context::Environment,
        _registry: &Registry,
        _depth: u32,
    ) -> Result<Json, Error> {
        let marker = match ctx.field.name.as_str() {
            "first" => 1,
            "second" => 2,
            "third" => 3,
            _ => return Err(not_found(ctx, "MutationRoot")),
        };
        self.log.borrow_mut().push(marker);
        Ok(Json::Int(marker as i64))
    }
    fn find_entity(
        &self,
        ctx: &FieldContext,
        _env: &graphql_core::context::Environment,
        _registry: &Registry,
        _depth: u32,
        _params: &Value,
    ) -> Result<Json, Error> {
        Err(QueryError::NotSupported.into_error(ctx.field.position))
    }
    fn matches_type_condition(&self, name: &String, registry: &Registry) -> bool {
        default_matches_type_condition(&"MutationRoot".to_string(), name, registry)
    }
}

/// Mutation fields run strictly in selection-set order: the side effects
/// land in that order and so do the response keys.
#[test]
fn mutation_side_effect_order() {
    let root = MutationRoot { log: RefCell::new(Vec::new()) };
    let schema = Schema::new(AddRoot, root, EmptySubscription);
    let query = "mutation { second third first }";
    let doc = parse_doc(query);
    let resp = QueryBuilder::new(query.to_string()).execute(&schema, &doc).unwrap();
    assert_eq!(
        resp.data,
        obj(vec![
            ("second", Json::Int(2)),
            ("third", Json::Int(3)),
            ("first", Json::Int(1)),
        ])
    );
    assert_eq!(*schema.mutation.log.borrow(), vec![2, 3, 1]);
}

/// A mutation against the empty mutation root is the
/// `NotConfiguredMutations` error.
#[test]
fn mutation_not_configured() {
    let schema = Schema::new(AddRoot, EmptyMutation, EmptySubscription);
    let query = "mutation { anything }";
    let doc = parse_doc(query);
    let err = QueryBuilder::new(query.to_string()).execute(&schema, &doc).unwrap_err();
    let Error::Query { err, .. } = err;
    assert!(matches!(err, QueryError::NotConfiguredMutations));
}

/// A document with no matching operation is a `MissingOperation` error.
#[test]
fn missing_operation_is_error() {
    let schema = Schema::new(AddRoot, EmptyMutation, EmptySubscription);
    let query = r#"query other { add(a: 1, b: 1) }"#;
    let doc = parse_doc(query);
    let err = QueryBuilder::new(query.to_string())
        .operator_name("nothere".to_string())
        .execute(&schema, &doc)
        .unwrap_err();
    let Error::Query { err, .. } = err;
    assert!(matches!(err, QueryError::MissingOperation));
}

struct DeferRoot;

impl ObjectType for DeferRoot {
    fn resolve_field_ens(
        &self,
        _ctx: graphql_core::base::FieldContext,
        _env: graphql_core::context::EnvironmentV,
        _reg: graphql_core::registry::RegistryV,
        _depth: vstd::prelude::nat,
        _r: Result<graphql_core::value::JsonV, graphql_core::error::ErrorV>,
    ) -> bool {
        panic!()
    }
    fn type_name_spec() -> vstd::prelude::Seq<char> {
        panic!()
    }
    fn concrete_name_spec(&self) -> vstd::prelude::Seq<char> {
        panic!()
    }
    fn is_empty_spec() -> bool {
        panic!()
    }
    fn type_name_of() -> String {
        "Query".to_string()
    }
    fn introspection_type_name(&self) -> String {
        "Query".to_string()
    }
    fn is_empty() -> bool {
        false
    }
    fn create_type_info(registry: &mut Registry) -> String {
        let name = "Query".to_string();
        let info = MetaType::Object {
            name: "Query".to_string(),
            description: None,
            fields: vec![int_field("now"), int_field("later")],
            cache_control: CacheControl::default(),
            extends: false,
            keys: None,
        };
        registry.create_type(&name, info)
    }
    fn resolve_field(
        &self,
        ctx: &FieldContext,
        _env: &graphql_core::context::Environment,
        _registry: &Registry,
        _depth: u32,
    ) -> Result<Json, Error> {
        match ctx.field.name.as_str() {
            "now" => Ok(Json::Int(1)),
            "later" => Ok(Json::Int(2)),
            _ => Err(not_found(ctx, "Query")),
        }
    }
    fn find_entity(
        &self,
        ctx: &FieldContext,
        _env: &graphql_core::context::Environment,
        _registry: &Registry,
        _depth: u32,
        _params: &Value,
    ) -> Result<Json, Error> {
        Err(QueryError::NotSupported.into_error(ctx.field.position))
    }
    fn matches_type_condition(&self, name: &String, registry: &Registry) -> bool {
        default_matches_type_condition(&"Query".to_string(), name, registry)
    }
}

/// `@defer` answers `null` in the primary response and a later response
/// carries the field's path and its non-null data; the collapsed
/// response merges it back in.
#[test]
fn defer_primary_null_then_incremental() {
    let schema = Schema::new(DeferRoot, EmptyMutation, EmptySubscription);
    let query = "{ now later @defer }";
    let doc = parse_doc(query);
    let responses = QueryBuilder::new(query.to_string())
        .execute_stream(&schema, &doc)
        .unwrap();
    assert_eq!(responses.len(), 2);
    assert!(responses[0].path.is_none());
    assert_eq!(
        responses[0].data,
        obj(vec![("now", Json::Int(1)), ("later", Json::Null)])
    );
    assert_eq!(
        responses[1].path,
        Some(Json::Array(vec![Json::Str("later".to_string())]))
    );
    assert_eq!(responses[1].data, Json::Int(2));

    let merged = QueryBuilder::new(query.to_string()).execute(&schema, &doc).unwrap();
    assert_eq!(
        merged.data,
        obj(vec![("now", Json::Int(1)), ("later", Json::Int(2))])
    );
}

/// With introspection disabled, `__schema` is refused with a
/// `FieldNotFound` at the field's position.
#[test]
fn introspection_disabled_field_not_found() {
    let schema = Schema::build(AddRoot, EmptyMutation, EmptySubscription)
        .disable_introspection()
        .finish();
    let query = "{ __schema { types { name } } }";
    let doc = parse_doc(query);
    let err = QueryBuilder::new(query.to_string()).execute(&schema, &doc).unwrap_err();
    let Error::Query { pos, err, .. } = err;
    assert_eq!(pos, ast::Pos { line: 1, column: 3 });
    assert!(
        matches!(err, QueryError::FieldNotFound { ref field_name, .. } if field_name == "__schema")
    );
}

/// With introspection enabled, `__schema { types { name } }` lists the
/// registered type names.
#[test]
fn introspection_lists_types() {
    let schema = Schema::new(AddRoot, EmptyMutation, EmptySubscription);
    let query = "{ __schema { types { name } } }";
    let doc = parse_doc(query);
    let resp = QueryBuilder::new(query.to_string()).execute(&schema, &doc).unwrap();
    let Json::Object(pairs) = &resp.data else { panic!("object expected") };
    let Json::Object(schema_pairs) = &pairs[0].1 else { panic!("object expected") };
    let Json::Array(types) = &schema_pairs[0].1 else { panic!("array expected") };
    let names: Vec<String> = types
        .iter()
        .map(|t| {
            let Json::Object(ps) = t else { panic!("object expected") };
            let Json::Str(n) = &ps[0].1 else { panic!("string expected") };
            n.clone()
        })
        .collect();
    assert!(names.contains(&"QueryRoot".to_string()));
    assert!(names.contains(&"EmptyMutation".to_string()));
    assert!(names.contains(&"__Schema".to_string()));
}

/// `_service { sdl }` reparses as a schema whose type and field names
/// match the registry, scalars and internal types aside.
#[test]
fn service_sdl_round_trip() {
    let schema = Schema::new(AddRoot, EmptyMutation, EmptySubscription);
    let query = "{ _service { sdl } }";
    let doc = parse_doc(query);
    let resp = QueryBuilder::new(query.to_string()).execute(&schema, &doc).unwrap();
    let Json::Object(pairs) = &resp.data else { panic!("object expected") };
    let Json::Object(service) = &pairs[0].1 else { panic!("object expected") };
    let Json::Str(sdl) = &service[0].1 else { panic!("string expected") };

    let reparsed = graphql_parser::parse_schema::<String>(sdl).unwrap();
    let mut type_fields: Vec<(String, Vec<String>)> = Vec::new();
    for def in &reparsed.definitions {
        if let graphql_parser::schema::Definition::TypeDefinition(
            graphql_parser::schema::TypeDefinition::Object(o),
        ) = def
        {
            type_fields.push((
                o.name.clone(),
                o.fields.iter().map(|f| f.name.clone()).collect(),
            ));
        }
    }
    let mut expected = vec![
        (
            "QueryRoot".to_string(),
            vec!["add".to_string(), "__schema".to_string(), "__type".to_string()],
        ),
        ("EmptyMutation".to_string(), vec![]),
        ("EmptySubscription".to_string(), vec![]),
    ];
    type_fields.sort();
    expected.sort();
    assert_eq!(type_fields, expected);
}

/// `__type(name:)` answers the single type's introspection object, and
/// `null` for an unregistered name.
#[test]
fn type_lookup_by_name() {
    let schema = Schema::new(AddRoot, EmptyMutation, EmptySubscription);
    let query = r#"{ __type(name: "QueryRoot") { name kind } }"#;
    let doc = parse_doc(query);
    let resp = QueryBuilder::new(query.to_string()).execute(&schema, &doc).unwrap();
    assert_eq!(
        resp.data,
        obj(vec![(
            "__type",
            obj(vec![
                ("name", Json::Str("QueryRoot".to_string())),
                ("kind", Json::Str("OBJECT".to_string())),
            ]),
        )])
    );

    let query = r#"{ __type(name: "Nope") { name } }"#;
    let doc = parse_doc(query);
    let resp = QueryBuilder::new(query.to_string()).execute(&schema, &doc).unwrap();
    assert_eq!(resp.data, obj(vec![("__type", Json::Null)]));
}
