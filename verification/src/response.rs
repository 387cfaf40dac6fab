//! What the transport answers to a query request.

use vstd::prelude::*;
use crate::error::GraphQLServerError;
use crate::query::QueryResult;

verus! {

/// The HTTP status for the outcome of a request: 200 for a result, 400 where
/// the client or its query is at fault, 500 where the server failed or the
/// request was canceled.
pub open spec fn status_of(result: Result<QueryResult, GraphQLServerError>) -> u16 {
    match result {
        Ok(_) => 200,
        Err(GraphQLServerError::ClientError(_)) => 400,
        Err(GraphQLServerError::InternalError(_)) => 500,
        Err(GraphQLServerError::QueryError(_)) => 400,
        Err(GraphQLServerError::Canceled(_)) => 500,
    }
}

/// The response to a GraphQL query request.
pub struct GraphQLResponse {
    result: Result<QueryResult, GraphQLServerError>,
}

impl GraphQLResponse {
    /// The outcome that the response reports.
    pub closed spec fn result(&self) -> Result<QueryResult, GraphQLServerError> {
        self.result
    }

    /// Creates a new GraphQLResponse based on the result generated by running a query.
    pub fn new(result: Result<QueryResult, GraphQLServerError>) -> (response: Self)
        ensures
            response.result() == result,
    {
        GraphQLResponse { result }
    }

    /// The HTTP status code of the response.
    pub fn status(&self) -> (code: u16)
        ensures
            code == status_of(self.result()),
    {
        match &self.result {
            Ok(_) => 200,
            Err(GraphQLServerError::ClientError(_)) => 400,
            Err(GraphQLServerError::InternalError(_)) => 500,
            Err(GraphQLServerError::QueryError(_)) => 400,
            Err(GraphQLServerError::Canceled(_)) => 500,
        }
    }

    /// The outcome that the response reports, for the transport to write the body from.
    pub fn as_result(&self) -> (result: &Result<QueryResult, GraphQLServerError>)
        ensures
            *result == self.result(),
    {
        &self.result
    }

    /// Hands the outcome back.
    pub fn into_result(self) -> (result: Result<QueryResult, GraphQLServerError>)
        ensures
            result == self.result(),
    {
        self.result
    }
}

} // verus!
