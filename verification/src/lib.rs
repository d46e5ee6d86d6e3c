//! A verified core of a GraphQL server execution engine.
//!
//! Given an already-parsed and validated query document together with typed
//! root objects, the engine produces the JSON response demanded by the
//! GraphQL specification: selection-set walking, fragment handling,
//! `@skip`/`@include`/`@defer` directives, variable resolution, interface
//! dispatch, introspection and federation hooks.
//!
//! Two reductions against the full wire protocol are deliberate.  First,
//! per-request user state reaches resolvers through the root objects
//! themselves: a type-keyed context bag, extension hooks and a resolve-id
//! counter all rest on runtime type dispatch, which has no place in
//! verified code.  Second, `@defer` is honored for fields reached from
//! the query root's own walk, fragments included; a deferred unit is
//! driven against the query root and yields no further deferred units,
//! so `@defer` nested below a user resolver is not re-queued, and a
//! failing deferred unit fails the whole collapsed request.

pub mod ast;
pub mod base;
pub mod context;
pub mod error;
pub mod path;
pub mod query;
pub mod query_root;
pub mod registry;
pub mod mutation_resolver;
pub mod resolver;
pub mod schema;
pub mod subscription;
pub mod types;
pub mod value;

pub use ast::{
    Definition, Directive, Document, Field, FragmentDefinition, FragmentSpread, InlineFragment,
    OperationBody, OperationDefinition, Pos, Selection, SelectionSet, TypeCondition,
    VariableDefinition,
};
pub use context::{Environment, Variables};
pub use error::{Error, QueryError};
pub use query::{IntoQueryBuilderOpts, QueryBuilder, QueryResponse};
pub use query_root::QueryRoot;
pub use registry::{CacheControl, MetaField, MetaInputValue, MetaType, Registry};
pub use resolver::{DeferredField, ObjectType, OutputValueType};
pub use schema::Schema;
pub use subscription::{EmptySubscription, FieldStream, SubscriptionType};
pub use types::EmptyMutation;
pub use value::{Json, JsonV, Value, ValueV};
