//! The selection-set execution engine: walks a selection set in order,
//! expands fragments, filters fields by their directives, asks the resolver
//! for each field and assembles the response with its field errors.

pub mod engine;
pub mod propagation;
pub mod transparency;

use vstd::prelude::*;
use crate::error::QueryExecutionError;
use crate::query::ast::{
    argument_named, fragment_named, response_key, should_include, should_skip, Document, Name,
    OperationDefinition, Selection, SelectionSet, Type,
};
use crate::query::fragments::{all_acyclic, lemma_entering_shrinks, unvisited};
use crate::query::{FieldErrorView, QueryResultView};
use crate::schema::{declared_type, lists_name, type_applies, Schema};
use crate::values::{key_index, Value, ValueView};

verus! {

/// Why a resolver did not produce a value.
#[derive(Clone, Debug, PartialEq)]
pub enum ResolveError {
    /// The field could not be resolved; the message says why.
    Failed(String),
    /// The resolver saw the deadline pass.
    Canceled,
}

/// What a resolver makes of one field: the mathematical form of its answer.
pub enum Resolution {
    Value(ValueView),
    Failed(Seq<char>),
    Canceled,
}

/// The mathematical form of a resolver's answer.
pub open spec fn resolution_of(result: Result<Value, ResolveError>) -> Resolution {
    match result {
        Ok(value) => Resolution::Value(value@),
        Err(ResolveError::Failed(message)) => Resolution::Failed(message@),
        Err(ResolveError::Canceled) => Resolution::Canceled,
    }
}

/// The one capability the engine asks of a resolver: given a parent value, a
/// field name and the field's argument values, produce the field's value or
/// fail. What it answers is a function of these three.
pub trait Resolver {
    /// What this resolver makes of a field. A resolver that does not say is
    /// held to nothing more than that it answers the same to the same question.
    open spec fn resolution(
        &self,
        parent: ValueView,
        field: Seq<char>,
        arguments: Seq<(Seq<char>, ValueView)>,
    ) -> Resolution {
        arbitrary()
    }

    /// Resolves one field of `parent`.
    fn resolve(&self, parent: &Value, field: &Name, arguments: &Vec<(Name, Value)>) -> (result:
        Result<Value, ResolveError>)
        ensures
            resolution_of(result) == self.resolution(
                parent@,
                field@,
                crate::values::pairs_view(arguments@),
            ),
    ;
}

/// The state of one request.
pub struct ExecutionContext<'a> {
    /// The schema that types the response.
    pub schema: &'a Schema,
    /// The document of the request; fragments are looked up in it by name.
    pub document: &'a Document,
    /// The operation that is executed.
    pub operation: &'a OperationDefinition,
    /// The values of the request's variables.
    pub variables: Vec<(Name, Value)>,
    /// Whether the deadline has passed or the subscriber has left.
    pub canceled: bool,
}

/// The fields of an object under assembly, whether a failure below has nulled
/// the object, and the field errors of the request so far.
pub struct ProgressView {
    pub fields: Seq<(Seq<char>, ValueView)>,
    pub nulled: bool,
    pub errors: Seq<FieldErrorView>,
}

/// A completed value, `None` where a failure below it must null what holds
/// it, and the field errors of the request so far.
pub struct CompletionView {
    pub value: Option<ValueView>,
    pub errors: Seq<FieldErrorView>,
}

/// The message of the field error for an argument that names an unbound variable.
pub open spec fn unbound_variable_message() -> Seq<char> {
    "argument refers to a variable that is not bound"@
}

/// The value written for `value` once the variables are put in: `None` where
/// it names a variable that `variables` does not bind.
pub open spec fn bound_value(value: Value, variables: Seq<(Name, Value)>) -> Option<ValueView>
    decreases value,
{
    match value {
        Value::Variable(name) => match argument_named(variables, name@) {
            Some(bound) => Some(bound@),
            None => None,
        },
        Value::List(items) => match bound_values(items@, variables) {
            Some(values) => Some(ValueView::List(values)),
            None => None,
        },
        Value::Object(fields) => match bound_pairs(fields@, variables) {
            Some(pairs) => Some(ValueView::Object(pairs)),
            None => None,
        },
        _ => Some(value@),
    }
}

/// The values of a list once the variables are put in.
pub open spec fn bound_values(values: Seq<Value>, variables: Seq<(Name, Value)>) -> Option<
    Seq<ValueView>,
>
    decreases values,
{
    if values.len() == 0 {
        Some(Seq::empty())
    } else {
        match (bound_values(values.drop_last(), variables), bound_value(values.last(), variables)) {
            (Some(front), Some(last)) => Some(front.push(last)),
            _ => None,
        }
    }
}

/// Name/value pairs once the variables are put in.
pub open spec fn bound_pairs(pairs: Seq<(Name, Value)>, variables: Seq<(Name, Value)>) -> Option<
    Seq<(Seq<char>, ValueView)>,
>
    decreases pairs,
{
    if pairs.len() == 0 {
        Some(Seq::empty())
    } else {
        match (bound_pairs(pairs.drop_last(), variables), bound_value(pairs.last().1, variables)) {
            (Some(front), Some(last)) => Some(front.push((pairs.last().0@, last))),
            _ => None,
        }
    }
}

/// The argument values of a field once the variables are put in: `None`
/// where one of them names an unbound variable.
pub open spec fn bound_arguments(
    arguments: Seq<(Name, Value)>,
    variables: Seq<(Name, Value)>,
) -> Option<Seq<(Seq<char>, ValueView)>> {
    bound_pairs(arguments, variables)
}

/// `fields` with `value` under `key`: in place of the value that stood under
/// the key, or behind all others where none did.
pub open spec fn with_field(
    fields: Seq<(Seq<char>, ValueView)>,
    key: Seq<char>,
    value: ValueView,
) -> Seq<(Seq<char>, ValueView)> {
    match key_index(fields, key, 0) {
        Some(i) => fields.update(i, (key, value)),
        None => fields.push((key, value)),
    }
}

/// How many list and non-null wrappers a type has.
pub open spec fn type_depth(ty: Type) -> nat
    decreases ty,
{
    match ty {
        Type::NamedType(_) => 0,
        Type::ListType(inner) => 1 + type_depth(*inner),
        Type::NonNullType(inner) => 1 + type_depth(*inner),
    }
}

/// The name at the core of a type.
pub open spec fn named_type(ty: Type) -> Name
    decreases ty,
{
    match ty {
        Type::NamedType(name) => name,
        Type::ListType(inner) => named_type(*inner),
        Type::NonNullType(inner) => named_type(*inner),
    }
}

/// Whether a type is declared non-null.
pub open spec fn is_non_null(ty: Option<Type>) -> bool {
    ty matches Some(Type::NonNullType(_))
}

/// The object under assembly once a field of it is done: the value stands
/// under the key; a failed field stands as null, or nulls the object where
/// its type is non-null.
pub open spec fn settle(
    progress: ProgressView,
    key: Seq<char>,
    non_null: bool,
    done: CompletionView,
) -> ProgressView {
    match done.value {
        Some(value) => ProgressView {
            fields: with_field(progress.fields, key, value),
            nulled: progress.nulled,
            errors: done.errors,
        },
        None => if non_null {
            ProgressView { fields: progress.fields, nulled: true, errors: done.errors }
        } else {
            ProgressView {
                fields: with_field(progress.fields, key, ValueView::Null),
                nulled: progress.nulled,
                errors: done.errors,
            }
        },
    }
}

/// A field that failed with `message` at `path`.
pub open spec fn failure(
    errors: Seq<FieldErrorView>,
    path: Seq<Seq<char>>,
    message: Seq<char>,
) -> CompletionView {
    CompletionView { value: None, errors: errors.push(FieldErrorView { path, message }) }
}

/// The elements of a list under completion.
pub struct ListProgressView {
    pub done: Seq<ValueView>,
    pub failed: bool,
    pub errors: Seq<FieldErrorView>,
}

/// The list under completion once an element of it is done.
pub open spec fn settle_element(
    so_far: ListProgressView,
    non_null: bool,
    done: CompletionView,
) -> ListProgressView {
    match done.value {
        Some(value) => ListProgressView {
            done: so_far.done.push(value),
            failed: so_far.failed,
            errors: done.errors,
        },
        None => if non_null {
            ListProgressView { done: so_far.done, failed: true, errors: done.errors }
        } else {
            ListProgressView {
                done: so_far.done.push(ValueView::Null),
                failed: so_far.failed,
                errors: done.errors,
            }
        },
    }
}

/// What the selections `items[from..]` make of the object `parent` of type
/// `object_name`, in order, starting from `progress`. `path` holds the
/// fragments that are being expanded, `trail` the response keys that lead to
/// the object.
pub open spec fn selections_outcome<R: Resolver>(
    ctx: ExecutionContext,
    resolver: R,
    path: Seq<Name>,
    trail: Seq<Seq<char>>,
    parent: ValueView,
    object_name: Seq<char>,
    items: Seq<Selection>,
    from: int,
    progress: ProgressView,
) -> Result<ProgressView, QueryExecutionError>
    decreases unvisited(ctx.document.definitions@, path), items, items.len() - from, 0nat,
{
    if from < 0 || from >= items.len() {
        Ok(progress)
    } else {
        match selection_outcome(
            ctx,
            resolver,
            path,
            trail,
            parent,
            object_name,
            items[from],
            progress,
        ) {
            Ok(next) => selections_outcome(
                ctx,
                resolver,
                path,
                trail,
                parent,
                object_name,
                items,
                from + 1,
                next,
            ),
            Err(e) => Err(e),
        }
    }
}

/// What one selection makes of the object under assembly.
///
/// A field that `@skip` removes or `@include` does not keep changes nothing
/// (skip is looked at first). Any other field is resolved, unless the request
/// is canceled, and its completed value is settled under its response key. A
/// fragment spread stands for the selections of the fragment it names, where
/// the fragment is defined and its type condition applies; a spread of a
/// fragment that is being expanded is a cycle. An inline fragment stands for
/// its selections where its type condition applies.
pub open spec fn selection_outcome<R: Resolver>(
    ctx: ExecutionContext,
    resolver: R,
    path: Seq<Name>,
    trail: Seq<Seq<char>>,
    parent: ValueView,
    object_name: Seq<char>,
    selection: Selection,
    progress: ProgressView,
) -> Result<ProgressView, QueryExecutionError>
    decreases unvisited(ctx.document.definitions@, path), selection, 0nat, 0nat,
    via selection_outcome_terminates::<R>
{
    match selection {
        Selection::Field(field) => {
            if should_skip(selection) || !should_include(selection) {
                Ok(progress)
            } else if ctx.canceled {
                Err(QueryExecutionError::Canceled)
            } else {
                let key = response_key(field)@;
                let here = trail.push(key);
                let declared = declared_type(*ctx.schema, object_name, field.name@);
                match bound_arguments(field.arguments@, ctx.variables@) {
                    None => Ok(
                        settle(
                            progress,
                            key,
                            is_non_null(declared),
                            failure(progress.errors, here, unbound_variable_message()),
                        ),
                    ),
                    Some(arguments) => match resolver.resolution(parent, field.name@, arguments) {
                        Resolution::Canceled => Err(QueryExecutionError::Canceled),
                        Resolution::Failed(message) => Ok(
                            settle(
                                progress,
                                key,
                                is_non_null(declared),
                                failure(progress.errors, here, message),
                            ),
                        ),
                        Resolution::Value(value) => {
                            let completed = match declared {
                                Some(ty) => completion(
                                    ctx,
                                    resolver,
                                    path,
                                    here,
                                    value,
                                    ty,
                                    field.selection_set,
                                    progress.errors,
                                ),
                                None => object_completion(
                                    ctx,
                                    resolver,
                                    path,
                                    here,
                                    value,
                                    Seq::empty(),
                                    field.selection_set,
                                    progress.errors,
                                ),
                            };
                            match completed {
                                Ok(done) => Ok(
                                    settle(progress, key, is_non_null(declared), done),
                                ),
                                Err(e) => Err(e),
                            }
                        },
                    },
                }
            }
        },
        Selection::FragmentSpread(spread) => match fragment_named(
            ctx.document.definitions@,
            spread.fragment_name@,
        ) {
            None => Ok(progress),
            Some(fragment) => if lists_name(path, spread.fragment_name@) {
                Err(QueryExecutionError::CycleDetected)
            } else if type_applies(*ctx.schema, object_name, Some(fragment.type_condition)) {
                selections_outcome(
                    ctx,
                    resolver,
                    path.push(spread.fragment_name),
                    trail,
                    parent,
                    object_name,
                    fragment.selection_set.items@,
                    0,
                    progress,
                )
            } else {
                Ok(progress)
            },
        },
        Selection::InlineFragment(inline) => if type_applies(
            *ctx.schema,
            object_name,
            inline.type_condition,
        ) {
            selections_outcome(
                ctx,
                resolver,
                path,
                trail,
                parent,
                object_name,
                inline.selection_set.items@,
                0,
                progress,
            )
        } else {
            Ok(progress)
        },
    }
}

#[via_fn]
proof fn selection_outcome_terminates<R: Resolver>(
    ctx: ExecutionContext,
    resolver: R,
    path: Seq<Name>,
    trail: Seq<Seq<char>>,
    parent: ValueView,
    object_name: Seq<char>,
    selection: Selection,
    progress: ProgressView,
) {
    if let Selection::FragmentSpread(spread) = selection {
        lemma_entering_shrinks(ctx.document.definitions@, path, spread.fragment_name);
    }
}

/// The value of a field of type `ty` once what is selected below it is put
/// in: a non-null type completes as the type it wraps; a list completes
/// element by element; anything else completes as an object of the named type.
pub open spec fn completion<R: Resolver>(
    ctx: ExecutionContext,
    resolver: R,
    path: Seq<Name>,
    trail: Seq<Seq<char>>,
    value: ValueView,
    ty: Type,
    selection_set: SelectionSet,
    errors: Seq<FieldErrorView>,
) -> Result<CompletionView, QueryExecutionError>
    decreases unvisited(ctx.document.definitions@, path), selection_set, type_depth(ty) + 1, 0nat,
{
    match ty {
        Type::NonNullType(inner) => completion(
            ctx,
            resolver,
            path,
            trail,
            value,
            *inner,
            selection_set,
            errors,
        ),
        Type::ListType(inner) => match value {
            ValueView::List(values) => list_completion(
                ctx,
                resolver,
                path,
                trail,
                values,
                0,
                *inner,
                selection_set,
                ListProgressView { done: Seq::empty(), failed: false, errors },
            ),
            _ => object_completion(
                ctx,
                resolver,
                path,
                trail,
                value,
                named_type(*inner)@,
                selection_set,
                errors,
            ),
        },
        Type::NamedType(name) => object_completion(
            ctx,
            resolver,
            path,
            trail,
            value,
            name@,
            selection_set,
            errors,
        ),
    }
}

/// The list `values` completed from index `from` on, each element as a value
/// of type `inner`. An element that fails stands as null, or fails the list
/// where `inner` is non-null.
pub open spec fn list_completion<R: Resolver>(
    ctx: ExecutionContext,
    resolver: R,
    path: Seq<Name>,
    trail: Seq<Seq<char>>,
    values: Seq<ValueView>,
    from: int,
    inner: Type,
    selection_set: SelectionSet,
    so_far: ListProgressView,
) -> Result<CompletionView, QueryExecutionError>
    decreases unvisited(ctx.document.definitions@, path), selection_set, type_depth(inner) + 1,
        values.len() - from + 1,
{
    if from < 0 || from >= values.len() {
        Ok(
            CompletionView {
                value: if so_far.failed {
                    None
                } else {
                    Some(ValueView::List(so_far.done))
                },
                errors: so_far.errors,
            },
        )
    } else {
        match completion(
            ctx,
            resolver,
            path,
            trail,
            values[from],
            inner,
            selection_set,
            so_far.errors,
        ) {
            Ok(done) => list_completion(
                ctx,
                resolver,
                path,
                trail,
                values,
                from + 1,
                inner,
                selection_set,
                settle_element(so_far, is_non_null(Some(inner)), done),
            ),
            Err(e) => Err(e),
        }
    }
}

/// The value `value` once `selection_set` is run on it: an object with a
/// non-empty selection set becomes the object that the selections assemble,
/// or fails where they null it; any other value stays as it is.
pub open spec fn object_completion<R: Resolver>(
    ctx: ExecutionContext,
    resolver: R,
    path: Seq<Name>,
    trail: Seq<Seq<char>>,
    value: ValueView,
    object_name: Seq<char>,
    selection_set: SelectionSet,
    errors: Seq<FieldErrorView>,
) -> Result<CompletionView, QueryExecutionError>
    decreases unvisited(ctx.document.definitions@, path), selection_set, 0nat, 0nat,
{
    if selection_set.items@.len() > 0 && value is Object {
        match selections_outcome(
            ctx,
            resolver,
            path,
            trail,
            value,
            object_name,
            selection_set.items@,
            0,
            ProgressView { fields: Seq::empty(), nulled: false, errors },
        ) {
            Ok(progress) => Ok(
                CompletionView {
                    value: if progress.nulled {
                        None
                    } else {
                        Some(ValueView::Object(progress.fields))
                    },
                    errors: progress.errors,
                },
            ),
            Err(e) => Err(e),
        }
    } else {
        Ok(CompletionView { value: Some(value), errors })
    }
}

/// What running `selection_set` on the object `parent` of type `object_name`
/// yields: the data, `None` where a failure nulled the root, and the field
/// errors in the order in which they arose; or the error that aborted the
/// request.
pub open spec fn execution<R: Resolver>(
    ctx: ExecutionContext,
    resolver: R,
    parent: ValueView,
    object_name: Seq<char>,
    selection_set: SelectionSet,
) -> Result<QueryResultView, QueryExecutionError> {
    match selections_outcome(
        ctx,
        resolver,
        Seq::empty(),
        Seq::empty(),
        parent,
        object_name,
        selection_set.items@,
        0,
        ProgressView { fields: Seq::empty(), nulled: false, errors: Seq::empty() },
    ) {
        Ok(progress) => Ok(
            QueryResultView {
                data: if progress.nulled {
                    None
                } else {
                    Some(ValueView::Object(progress.fields))
                },
                errors: progress.errors,
            },
        ),
        Err(e) => Err(e),
    }
}

/// What a request for `selection_set` yields: the detection of a cycle
/// where its fragment spreads form one, before anything is resolved; else
/// what its execution yields.
pub open spec fn checked_execution<R: Resolver>(
    ctx: ExecutionContext,
    resolver: R,
    parent: ValueView,
    object_name: Seq<char>,
    selection_set: SelectionSet,
) -> Result<QueryResultView, QueryExecutionError> {
    if all_acyclic(ctx.document.definitions@, Seq::empty(), selection_set.items@) {
        execution(ctx, resolver, parent, object_name, selection_set)
    } else {
        Err(QueryExecutionError::CycleDetected)
    }
}

/// The name of the type that an operation starts from.
pub open spec fn root_type_name(operation: OperationDefinition) -> Seq<char> {
    match operation {
        OperationDefinition::SelectionSet(_) => "Query"@,
        OperationDefinition::Query(_) => "Query"@,
        OperationDefinition::Mutation(_) => "Mutation"@,
        OperationDefinition::Subscription(_) => "Subscription"@,
    }
}

} // verus!
