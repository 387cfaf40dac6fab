use http::status::StatusCode;

use thegraph_graphql::error::{GraphQLServerError, QueryError, QueryExecutionError};
use thegraph_graphql::query::QueryResult;
use thegraph_graphql::response::GraphQLResponse;

fn status(response: &GraphQLResponse) -> Result<StatusCode, http::status::InvalidStatusCode> {
    StatusCode::from_u16(response.status())
}

#[test]
fn generates_500_for_internal_errors() {
    let request = GraphQLResponse::new(Err(GraphQLServerError::from("Some error")));
    let result = status(&request);
    let response = result.expect("Should generate a response");
    assert_eq!(response, StatusCode::INTERNAL_SERVER_ERROR);
}

#[test]
fn generates_401_for_client_errors() {
    let request = GraphQLResponse::new(Err(GraphQLServerError::ClientError(String::from("foo"))));
    let result = status(&request);
    let response = result.expect("Should generate a response");
    assert_eq!(response, StatusCode::BAD_REQUEST);
}

#[test]
fn generates_401_for_query_errors() {
    let parse_error = graphql_parser::parse_query("<>?><").unwrap_err();
    let query_error = QueryError::from(parse_error);
    let request = GraphQLResponse::new(Err(GraphQLServerError::from(query_error)));
    let result = status(&request);
    let response = result.expect("Should generate a response");
    assert_eq!(response, StatusCode::BAD_REQUEST);
}

#[test]
fn generates_200_for_query_results() {
    let query_result = QueryResult { data: None, errors: vec![] };
    let request = GraphQLResponse::new(Ok(query_result));
    let result = status(&request);
    let response = result.expect("Should generate a response");
    assert_eq!(response, StatusCode::OK);
}

#[test]
fn generates_500_for_canceled_requests() {
    let request =
        GraphQLResponse::new(Err(GraphQLServerError::from(futures::sync::oneshot::Canceled)));
    assert_eq!(request.status(), 500);
}

#[test]
fn generates_400_for_execution_errors() {
    let error = QueryError::from(QueryExecutionError::OperationNameRequired);
    let request = GraphQLResponse::new(Err(GraphQLServerError::from(error)));
    assert_eq!(request.status(), 400);
    assert!(matches!(
        request.into_result(),
        Err(GraphQLServerError::QueryError(QueryError::ExecutionError(
            QueryExecutionError::OperationNameRequired
        )))
    ));
}

#[test]
fn a_bare_message_is_an_internal_error() {
    match GraphQLServerError::from("Some error") {
        GraphQLServerError::InternalError(message) => assert_eq!(message, "Some error"),
        other => panic!("unexpected error: {:?}", other),
    }
    match GraphQLServerError::internal("boom") {
        GraphQLServerError::InternalError(message) => assert_eq!(message, "boom"),
        other => panic!("unexpected error: {:?}", other),
    }
}

#[test]
fn the_outcome_can_be_read_back() {
    let response = GraphQLResponse::new(Ok(QueryResult { data: None, errors: vec![] }));
    assert!(matches!(response.as_result(), Ok(result) if result.data.is_none()));
    let response = GraphQLResponse::new(Err(GraphQLServerError::ClientError("foo".to_string())));
    assert!(matches!(response.as_result(), Err(GraphQLServerError::ClientError(m)) if m == "foo"));
}
