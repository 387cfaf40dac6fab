//! Errors that abort a request, and the error kinds of the transport.

use vstd::prelude::*;
use vstd::std_specs::convert::FromSpecImpl;

verus! {

/// The error with which `graphql_parser` rejects a query text. Opaque here: it
/// is only carried to the client.
#[verifier::external_type_specification]
#[verifier::external_body]
pub struct ExParseError(graphql_parser::query::ParseError);

/// The error of `futures::sync::oneshot` for a sender that went away. Opaque
/// here: it is only carried to the client.
#[verifier::external_type_specification]
#[verifier::external_body]
pub struct ExCanceled(futures::sync::oneshot::Canceled);

/// Why the execution of an operation was aborted.
#[derive(Clone, Debug, PartialEq)]
pub enum QueryExecutionError {
    /// No operation name was given and the document does not hold exactly one operation.
    OperationNameRequired,
    /// No operation of the document carries the given name.
    OperationNotFound(String),
    /// A fragment refers to itself, directly or through other fragments.
    CycleDetected,
    /// The deadline passed or the subscriber left.
    Canceled,
}

/// Why a query could not be answered.
#[derive(Debug)]
pub enum QueryError {
    ParseError(graphql_parser::query::ParseError),
    ExecutionError(QueryExecutionError),
}

/// Errors that the transport reports to a client.
#[derive(Debug)]
pub enum GraphQLServerError {
    /// The request was malformed.
    ClientError(String),
    /// The query could not be parsed or executed.
    QueryError(QueryError),
    /// The request was abandoned before an answer was there.
    Canceled(futures::sync::oneshot::Canceled),
    /// The server failed.
    InternalError(String),
}

impl From<graphql_parser::query::ParseError> for QueryError {
    fn from(e: graphql_parser::query::ParseError) -> (error: QueryError) {
        QueryError::ParseError(e)
    }
}

impl FromSpecImpl<graphql_parser::query::ParseError> for QueryError {
    open spec fn obeys_from_spec() -> bool {
        true
    }

    open spec fn from_spec(e: graphql_parser::query::ParseError) -> QueryError {
        QueryError::ParseError(e)
    }
}

impl From<QueryExecutionError> for QueryError {
    fn from(e: QueryExecutionError) -> (error: QueryError) {
        QueryError::ExecutionError(e)
    }
}

impl FromSpecImpl<QueryExecutionError> for QueryError {
    open spec fn obeys_from_spec() -> bool {
        true
    }

    open spec fn from_spec(e: QueryExecutionError) -> QueryError {
        QueryError::ExecutionError(e)
    }
}

impl From<QueryError> for GraphQLServerError {
    fn from(e: QueryError) -> (error: GraphQLServerError) {
        GraphQLServerError::QueryError(e)
    }
}

impl FromSpecImpl<QueryError> for GraphQLServerError {
    open spec fn obeys_from_spec() -> bool {
        true
    }

    open spec fn from_spec(e: QueryError) -> GraphQLServerError {
        GraphQLServerError::QueryError(e)
    }
}

impl From<futures::sync::oneshot::Canceled> for GraphQLServerError {
    fn from(e: futures::sync::oneshot::Canceled) -> (error: GraphQLServerError) {
        GraphQLServerError::Canceled(e)
    }
}

impl FromSpecImpl<futures::sync::oneshot::Canceled> for GraphQLServerError {
    open spec fn obeys_from_spec() -> bool {
        true
    }

    open spec fn from_spec(e: futures::sync::oneshot::Canceled) -> GraphQLServerError {
        GraphQLServerError::Canceled(e)
    }
}

impl GraphQLServerError {
    /// An internal error with the given message.
    pub fn internal(message: &str) -> (error: GraphQLServerError)
        ensures
            error matches GraphQLServerError::InternalError(m) && m@ == message@,
    {
        GraphQLServerError::InternalError(message.to_owned())
    }
}

impl From<&'static str> for GraphQLServerError {
    /// A bare message is an internal error.
    fn from(message: &'static str) -> (error: GraphQLServerError)
        ensures
            error matches GraphQLServerError::InternalError(m) && m@ == message@,
    {
        GraphQLServerError::internal(message)
    }
}

impl FromSpecImpl<&'static str> for GraphQLServerError {
    /// The text of the message is kept; which `String` holds it is not fixed.
    open spec fn obeys_from_spec() -> bool {
        false
    }

    open spec fn from_spec(message: &'static str) -> GraphQLServerError {
        GraphQLServerError::InternalError(choose|m: String| m@ == message@)
    }
}

} // verus!
