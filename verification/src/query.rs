//! Query documents, the functions that read them, and what a query yields.

pub mod ast;
pub mod fragments;

use vstd::prelude::*;
use crate::error::QueryExecutionError;
use crate::execution::engine::execute_selection_set;
use crate::execution::{checked_execution, root_type_name, ExecutionContext, Resolver};
use crate::query::ast::{get_operation, selected_operation, Document, Name, OperationDefinition};
use crate::query::fragments::{root_selection_set, validate_fragments};
use crate::schema::Schema;
use crate::values::{same_value, Value, ValueView};

verus! {

/// A failure to resolve one field, with the response keys that lead to it.
#[derive(Clone, Debug, PartialEq)]
pub struct FieldError {
    pub path: Vec<String>,
    pub message: String,
}

/// What a query yields: a data tree, `None` where the root itself was nulled,
/// and the field errors in the order in which they arose.
#[derive(Clone, Debug, PartialEq)]
pub struct QueryResult {
    pub data: Option<Value>,
    pub errors: Vec<FieldError>,
}

/// The mathematical form of a [`FieldError`].
pub struct FieldErrorView {
    pub path: Seq<Seq<char>>,
    pub message: Seq<char>,
}

/// The mathematical form of a [`QueryResult`].
pub struct QueryResultView {
    pub data: Option<ValueView>,
    pub errors: Seq<FieldErrorView>,
}

/// The views of a sequence of names.
pub open spec fn names_view(names: Seq<String>) -> Seq<Seq<char>> {
    Seq::new(names.len(), |i: int| names[i]@)
}

/// The views of a sequence of field errors.
pub open spec fn errors_view(errors: Seq<FieldError>) -> Seq<FieldErrorView> {
    Seq::new(errors.len(), |i: int| errors[i]@)
}

impl View for FieldError {
    type V = FieldErrorView;

    open spec fn view(&self) -> FieldErrorView {
        FieldErrorView { path: names_view(self.path@), message: self.message@ }
    }
}

impl View for QueryResult {
    type V = QueryResultView;

    open spec fn view(&self) -> QueryResultView {
        QueryResultView {
            data: match self.data {
                Some(value) => Some(value@),
                None => None,
            },
            errors: errors_view(self.errors@),
        }
    }
}

/// The mathematical form of what a query yields or is aborted by.
pub open spec fn outcome_view(result: Result<QueryResult, QueryExecutionError>) -> Result<
    QueryResultView,
    QueryExecutionError,
> {
    match result {
        Ok(response) => Ok(response@),
        Err(e) => Err(e),
    }
}

/// Executes the operation `operation` of a request from its root: checks
/// that its fragment spreads form no cycle, then runs its selection set on the
/// null root value.
pub fn execute_operation<R: Resolver>(ctx: &ExecutionContext, resolver: &R) -> (result: Result<
    QueryResult,
    QueryExecutionError,
>)
    ensures
        outcome_view(result) == checked_execution(
            *ctx,
            *resolver,
            ValueView::Null,
            root_type_name(*ctx.operation),
            root_selection_set(*ctx.operation),
        ),
{
    match validate_fragments(ctx.document, ctx.operation) {
        Err(e) => Err(e),
        Ok(_) => {
            let (root, set) = match ctx.operation {
                OperationDefinition::SelectionSet(set) => ("Query".to_owned(), set),
                OperationDefinition::Query(q) => ("Query".to_owned(), &q.selection_set),
                OperationDefinition::Mutation(m) => ("Mutation".to_owned(), &m.selection_set),
                OperationDefinition::Subscription(s) => (
                    "Subscription".to_owned(),
                    &s.selection_set,
                ),
            };
            execute_selection_set(ctx, resolver, &Value::Null, &root, set)
        },
    }
}

/// Executes a query: selects the operation by `operation_name`, then
/// executes it with `variables` through `resolver`.
pub fn execute_query<R: Resolver>(
    schema: &Schema,
    document: &Document,
    operation_name: Option<&str>,
    variables: Vec<(Name, Value)>,
    canceled: bool,
    resolver: &R,
) -> (result: Result<QueryResult, QueryExecutionError>)
    ensures
        match selected_operation(*document, operation_name) {
            None => match operation_name {
                None => result matches Err(QueryExecutionError::OperationNameRequired),
                Some(wanted) => result matches Err(QueryExecutionError::OperationNotFound(n)) && n@
                    == wanted@,
            },
            Some(operation) => outcome_view(result) == checked_execution(
                ExecutionContext { schema, document, operation: &operation, variables, canceled },
                *resolver,
                ValueView::Null,
                root_type_name(operation),
                root_selection_set(operation),
            ),
        },
{
    match get_operation(document, operation_name) {
        Err(e) => Err(e),
        Ok(operation) => {
            let ctx = ExecutionContext { schema, document, operation, variables, canceled };
            execute_operation(&ctx, resolver)
        },
    }
}

/// Whether two sequences of names read the same.
pub fn same_names(a: &Vec<String>, b: &Vec<String>) -> (same: bool)
    ensures
        same == (names_view(a@) == names_view(b@)),
{
    if a.len() != b.len() {
        assert(names_view(a@).len() != names_view(b@).len());
        return false;
    }
    let mut i: usize = 0;
    while i < a.len()
        invariant
            i <= a.len(),
            a.len() == b.len(),
            forall|j: int| 0 <= j < i ==> a@[j]@ == b@[j]@,
        decreases a.len() - i,
    {
        if !(a[i] == b[i]) {
            assert(names_view(a@)[i as int] != names_view(b@)[i as int]);
            return false;
        }
        i += 1;
    }
    assert(names_view(a@) =~= names_view(b@));
    true
}

impl FieldError {
    /// Whether two field errors read the same.
    pub fn same_as(&self, other: &FieldError) -> (same: bool)
        ensures
            same == (self@ == other@),
    {
        same_names(&self.path, &other.path) && self.message == other.message
    }

    /// A copy that reads the same.
    pub fn duplicate(&self) -> (copy: FieldError)
        ensures
            copy@ == self@,
    {
        let mut path: Vec<String> = Vec::new();
        let mut i: usize = 0;
        while i < self.path.len()
            invariant
                i <= self.path.len(),
                path@ == self.path@.take(i as int),
            decreases self.path.len() - i,
        {
            path.push(self.path[i].clone());
            assert(path@ =~= self.path@.take(i + 1));
            i += 1;
        }
        assert(self.path@.take(i as int) =~= self.path@);
        FieldError { path, message: self.message.clone() }
    }
}

impl QueryResult {
    /// Whether two results read the same: the same data and the same errors in the same order.
    pub fn same_as(&self, other: &QueryResult) -> (same: bool)
        ensures
            same == (self@ == other@),
    {
        let same_data = match (&self.data, &other.data) {
            (Some(a), Some(b)) => same_value(a, b),
            (None, None) => true,
            _ => false,
        };
        if !same_data {
            return false;
        }
        if self.errors.len() != other.errors.len() {
            assert(errors_view(self.errors@).len() != errors_view(other.errors@).len());
            return false;
        }
        let mut i: usize = 0;
        while i < self.errors.len()
            invariant
                i <= self.errors.len(),
                self.errors.len() == other.errors.len(),
                forall|j: int| 0 <= j < i ==> self.errors@[j]@ == other.errors@[j]@,
            decreases self.errors.len() - i,
        {
            if !self.errors[i].same_as(&other.errors[i]) {
                assert(errors_view(self.errors@)[i as int] != errors_view(other.errors@)[i as int]);
                return false;
            }
            i += 1;
        }
        assert(errors_view(self.errors@) =~= errors_view(other.errors@));
        true
    }

    /// A copy that reads the same.
    pub fn duplicate(&self) -> (copy: QueryResult)
        ensures
            copy@ == self@,
    {
        let data = match &self.data {
            Some(value) => Some(value.clone()),
            None => None,
        };
        let mut errors: Vec<FieldError> = Vec::new();
        let mut i: usize = 0;
        while i < self.errors.len()
            invariant
                i <= self.errors.len(),
                errors@.len() == i,
                forall|j: int| 0 <= j < i ==> errors@[j]@ == self.errors@[j]@,
            decreases self.errors.len() - i,
        {
            errors.push(self.errors[i].duplicate());
            i += 1;
        }
        assert(errors_view(errors@) =~= errors_view(self.errors@));
        QueryResult { data, errors }
    }
}

} // verus!
