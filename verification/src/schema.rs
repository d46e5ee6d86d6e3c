//! The schema: the three typed roots together with the registry their
//! registration built.

use vstd::prelude::*;
use crate::query_root::QueryRoot;
use crate::registry::Registry;
use crate::resolver::ObjectType;
use crate::subscription::SubscriptionType;

verus! {

/// A complete schema: query, mutation and subscription roots plus the
/// immutable type registry.
pub struct Schema<Query, Mutation, Subscription> {
    pub query: QueryRoot<Query>,
    pub mutation: Mutation,
    pub subscription: Subscription,
    pub registry: Registry,
}

/// A schema under construction.
pub struct SchemaBuilder<Query, Mutation, Subscription> {
    pub query: Query,
    pub mutation: Mutation,
    pub subscription: Subscription,
    pub disable_introspection: bool,
}

impl<Q: ObjectType, M: ObjectType, S: SubscriptionType> SchemaBuilder<Q, M, S> {
    /// Refuses `__schema` requests on the finished schema.
    pub fn disable_introspection(self) -> (r: Self)
        ensures
            r.disable_introspection == true,
            r.query == self.query,
            r.mutation == self.mutation,
            r.subscription == self.subscription,
    {
        SchemaBuilder {
            query: self.query,
            mutation: self.mutation,
            subscription: self.subscription,
            disable_introspection: true,
        }
    }

    /// Builds the registry by registering the three roots, and finishes
    /// the schema.
    pub fn finish(self) -> (r: Schema<Q, M, S>)
        ensures
            r.query.disable_introspection == self.disable_introspection,
            r.query.inner == self.query,
            r.mutation == self.mutation,
            r.subscription == self.subscription,
    {
        let mut registry = Registry::new(Q::type_name_of());
        QueryRoot::<Q>::create_type_info(&mut registry);
        M::create_type_info(&mut registry);
        S::create_type_info(&mut registry);
        if !M::is_empty() {
            registry.mutation_type = Some(M::type_name_of());
        }
        if !S::is_empty() {
            registry.subscription_type = Some(S::type_name_of());
        }
        Schema {
            query: QueryRoot {
                inner: self.query,
                disable_introspection: self.disable_introspection,
            },
            mutation: self.mutation,
            subscription: self.subscription,
            registry,
        }
    }
}

impl<Q: ObjectType, M: ObjectType, S: SubscriptionType> Schema<Q, M, S> {
    /// Starts building a schema from the three roots.
    pub fn build(query: Q, mutation: M, subscription: S) -> (r: SchemaBuilder<Q, M, S>)
        ensures
            r.query == query,
            r.mutation == mutation,
            r.subscription == subscription,
            r.disable_introspection == false,
    {
        SchemaBuilder { query, mutation, subscription, disable_introspection: false }
    }

    /// Builds a schema with introspection enabled.
    pub fn new(query: Q, mutation: M, subscription: S) -> (r: Schema<Q, M, S>)
        ensures
            r.query.disable_introspection == false,
            r.query.inner == query,
            r.mutation == mutation,
            r.subscription == subscription,
    {
        Schema::build(query, mutation, subscription).finish()
    }
}

} // verus!
