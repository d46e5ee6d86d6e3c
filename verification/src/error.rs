//! The error taxonomy of the engine.
//!
//! Every failure carries a kind, the source position it arose at, and
//! optionally the response path serialized at the failure site.

use vstd::prelude::*;
use crate::ast::Pos;
use crate::value::{value_view, Json, JsonV, Value, ValueV};

verus! {

/// The kind of a query failure.
#[derive(Debug)]
pub enum QueryError {
    /// Parsing the document failed; the parser's message is kept.
    ParseError { message: String },
    /// A feature off the happy path was requested.
    NotSupported,
    /// No operation of the document matched the requested name.
    MissingOperation,
    /// The mutation root is the empty unit.
    NotConfiguredMutations,
    /// The subscription root is the empty unit.
    NotConfiguredSubscriptions,
    /// A selection referred to a field the object does not have.
    FieldNotFound { field_name: String, object: String },
    /// A composite object was selected without sub-fields.
    MustHaveSubFields { object: String },
    /// A directive other than `skip`, `include` or `defer` was used.
    UnknownDirective { name: String },
    /// A directive was missing a required argument.
    RequiredDirectiveArgs { directive: String, arg_name: String, arg_type: String },
    /// A fragment spread referred to a fragment the document lacks.
    UnknownFragment { name: String },
    /// The operation declares no such variable and no default exists.
    VarNotDefined { var_name: String },
    /// A value could not be coerced to the expected input type.
    ExpectedType { expect: String, actual: Value },
    /// The pre-execution complexity guard triggered.
    TooComplex,
    /// The pre-execution depth guard triggered.
    TooDeep,
}

/// Mathematical model of a [`QueryError`].
pub enum QueryErrorV {
    ParseError { message: Seq<char> },
    NotSupported,
    MissingOperation,
    NotConfiguredMutations,
    NotConfiguredSubscriptions,
    FieldNotFound { field_name: Seq<char>, object: Seq<char> },
    MustHaveSubFields { object: Seq<char> },
    UnknownDirective { name: Seq<char> },
    RequiredDirectiveArgs { directive: Seq<char>, arg_name: Seq<char>, arg_type: Seq<char> },
    UnknownFragment { name: Seq<char> },
    VarNotDefined { var_name: Seq<char> },
    ExpectedType { expect: Seq<char>, actual: ValueV },
    TooComplex,
    TooDeep,
}

pub open spec fn query_error_view(e: QueryError) -> QueryErrorV {
    match e {
        QueryError::ParseError { message } => QueryErrorV::ParseError { message: message@ },
        QueryError::NotSupported => QueryErrorV::NotSupported,
        QueryError::MissingOperation => QueryErrorV::MissingOperation,
        QueryError::NotConfiguredMutations => QueryErrorV::NotConfiguredMutations,
        QueryError::NotConfiguredSubscriptions => QueryErrorV::NotConfiguredSubscriptions,
        QueryError::FieldNotFound { field_name, object } => QueryErrorV::FieldNotFound {
            field_name: field_name@,
            object: object@,
        },
        QueryError::MustHaveSubFields { object } => QueryErrorV::MustHaveSubFields {
            object: object@,
        },
        QueryError::UnknownDirective { name } => QueryErrorV::UnknownDirective { name: name@ },
        QueryError::RequiredDirectiveArgs { directive, arg_name, arg_type } => {
            QueryErrorV::RequiredDirectiveArgs {
                directive: directive@,
                arg_name: arg_name@,
                arg_type: arg_type@,
            }
        },
        QueryError::UnknownFragment { name } => QueryErrorV::UnknownFragment { name: name@ },
        QueryError::VarNotDefined { var_name } => QueryErrorV::VarNotDefined {
            var_name: var_name@,
        },
        QueryError::ExpectedType { expect, actual } => QueryErrorV::ExpectedType {
            expect: expect@,
            actual: value_view(actual),
        },
        QueryError::TooComplex => QueryErrorV::TooComplex,
        QueryError::TooDeep => QueryErrorV::TooDeep,
    }
}

impl View for QueryError {
    type V = QueryErrorV;

    open spec fn view(&self) -> QueryErrorV {
        query_error_view(*self)
    }
}

/// A user-visible failure: the kind, where it arose, and the response path
/// if one was known at the failure site.
#[derive(Debug)]
pub enum Error {
    Query { pos: Pos, path: Option<Json>, err: QueryError },
}

/// Mathematical model of an [`Error`].
pub enum ErrorV {
    Query { pos: Pos, path: Option<JsonV>, err: QueryErrorV },
}

pub open spec fn opt_json_view(o: Option<Json>) -> Option<JsonV> {
    match o {
        Some(j) => Some(j@),
        None => None,
    }
}

pub open spec fn error_view(e: Error) -> ErrorV {
    match e {
        Error::Query { pos, path, err } => ErrorV::Query {
            pos,
            path: opt_json_view(path),
            err: query_error_view(err),
        },
    }
}

impl View for Error {
    type V = ErrorV;

    open spec fn view(&self) -> ErrorV {
        error_view(*self)
    }
}

/// The error `e` raised at position `pos`, with no path.
pub open spec fn error_at(pos: Pos, e: QueryErrorV) -> ErrorV {
    ErrorV::Query { pos, path: None, err: e }
}

impl QueryError {
    /// Wraps this kind into an [`Error`] at the given position.
    pub fn into_error(self, pos: Pos) -> (r: Error)
        ensures
            r@ == error_at(pos, self@),
    {
        Error::Query { pos, path: None, err: self }
    }
}

} // verus!
