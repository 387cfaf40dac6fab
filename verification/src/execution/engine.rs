//! The executable engine, proved against the model of its parent module.

use vstd::prelude::*;
use crate::error::QueryExecutionError;
use crate::execution::{
    bound_arguments, bound_pairs, bound_value, bound_values, completion, execution, failure,
    list_completion, named_type, object_completion, selection_outcome, selections_outcome, settle,
    type_depth, with_field, CompletionView, ExecutionContext, ListProgressView, ProgressView,
    ResolveError, Resolver,
};
use crate::query::ast::{
    get_argument_value, get_fragment, get_response_key, include_selection, skip_selection, Name,
    Selection, SelectionSet, Type,
};
use crate::query::fragments::{lemma_entering_shrinks, path_contains, unvisited};
use crate::query::{errors_view, names_view, FieldError, QueryResult};
use crate::values::{
    key_index, lemma_pairs_view, lemma_pairs_view_push, lemma_values_view, lemma_values_view_push,
    pairs_view, values_view, Value,
};

verus! {

/// The fields of an object under assembly, with the errors of the request so far.
pub struct Progress {
    pub fields: Vec<(Name, Value)>,
    pub nulled: bool,
    pub errors: Vec<FieldError>,
}

impl View for Progress {
    type V = ProgressView;

    open spec fn view(&self) -> ProgressView {
        ProgressView {
            fields: pairs_view(self.fields@),
            nulled: self.nulled,
            errors: errors_view(self.errors@),
        }
    }
}

/// A completed value, with the errors of the request so far.
pub struct Completion {
    pub value: Option<Value>,
    pub errors: Vec<FieldError>,
}

impl View for Completion {
    type V = CompletionView;

    open spec fn view(&self) -> CompletionView {
        CompletionView {
            value: match self.value {
                Some(value) => Some(value@),
                None => None,
            },
            errors: errors_view(self.errors@),
        }
    }
}

/// The mathematical form of an outcome that carries progress.
pub open spec fn progress_view(result: Result<Progress, QueryExecutionError>) -> Result<
    ProgressView,
    QueryExecutionError,
> {
    match result {
        Ok(progress) => Ok(progress@),
        Err(e) => Err(e),
    }
}

/// The mathematical form of an outcome that carries a completed value.
pub open spec fn completion_view(result: Result<Completion, QueryExecutionError>) -> Result<
    CompletionView,
    QueryExecutionError,
> {
    match result {
        Ok(done) => Ok(done@),
        Err(e) => Err(e),
    }
}

/// Where a value of a list is not bound, the list is not.
proof fn lemma_unbound_value(values: Seq<Value>, variables: Seq<(Name, Value)>, i: int)
    requires
        0 <= i < values.len(),
        bound_value(values[i], variables) is None,
    ensures
        bound_values(values, variables) is None,
    decreases values.len(),
{
    if i < values.len() - 1 {
        lemma_unbound_value(values.drop_last(), variables, i);
    }
}

/// Where the value of a pair is not bound, the pairs are not.
proof fn lemma_unbound_pair(pairs: Seq<(Name, Value)>, variables: Seq<(Name, Value)>, i: int)
    requires
        0 <= i < pairs.len(),
        bound_value(pairs[i].1, variables) is None,
    ensures
        bound_pairs(pairs, variables) is None,
    decreases pairs.len(),
{
    if i < pairs.len() - 1 {
        lemma_unbound_pair(pairs.drop_last(), variables, i);
    }
}

/// Puts the variables into a value.
#[verifier::loop_isolation(false)]
pub fn bind_value(value: &Value, variables: &Vec<(Name, Value)>) -> (bound: Option<Value>)
    ensures
        match bound {
            Some(v) => bound_value(*value, variables@) == Some(v@),
            None => bound_value(*value, variables@) is None,
        },
    decreases value,
{
    match value {
        Value::Variable(name) => match get_argument_value(variables, name) {
            Some(v) => Some(v.clone()),
            None => None,
        },
        Value::List(items) => {
            let mut out: Vec<Value> = Vec::new();
            let mut i: usize = 0;
            while i < items.len()
                invariant
                    i <= items.len(),
                    bound_values(items@.take(i as int), variables@) == Some(values_view(out@)),
                decreases items.len() - i,
            {
                proof {
                    assert(items@.take(i + 1).drop_last() =~= items@.take(i as int));
                }
                match bind_value(&items[i], variables) {
                    Some(v) => {
                        proof {
                            lemma_values_view_push(out@, v);
                        }
                        out.push(v);
                    },
                    None => {
                        proof {
                            lemma_unbound_value(items@, variables@, i as int);
                        }
                        return None;
                    },
                }
                i += 1;
            }
            assert(items@.take(i as int) =~= items@);
            Some(Value::List(out))
        },
        Value::Object(fields) => {
            match bind_arguments(fields, variables) {
                Some(out) => Some(Value::Object(out)),
                None => None,
            }
        },
        _ => Some(value.clone()),
    }
}

/// Puts the variables into the values of name/value pairs.
#[verifier::loop_isolation(false)]
pub fn bind_arguments(arguments: &Vec<(Name, Value)>, variables: &Vec<(Name, Value)>) -> (bound:
    Option<Vec<(Name, Value)>>)
    ensures
        match bound {
            Some(pairs) => bound_arguments(arguments@, variables@) == Some(pairs_view(pairs@)),
            None => bound_arguments(arguments@, variables@) is None,
        },
    decreases arguments,
{
    let mut out: Vec<(Name, Value)> = Vec::new();
    let mut i: usize = 0;
    while i < arguments.len()
        invariant
            i <= arguments.len(),
            bound_pairs(arguments@.take(i as int), variables@) == Some(pairs_view(out@)),
        decreases arguments.len() - i,
    {
        proof {
            assert(arguments@.take(i + 1).drop_last() =~= arguments@.take(i as int));
        }
        match bind_value(&arguments[i].1, variables) {
            Some(v) => {
                let pair = (arguments[i].0.clone(), v);
                proof {
                    lemma_pairs_view_push(out@, pair);
                }
                out.push(pair);
            },
            None => {
                proof {
                    lemma_unbound_pair(arguments@, variables@, i as int);
                }
                return None;
            },
        }
        i += 1;
    }
    assert(arguments@.take(i as int) =~= arguments@);
    Some(out)
}

/// `names` with `name` behind them.
pub fn extend(names: &Vec<String>, name: &String) -> (longer: Vec<String>)
    ensures
        longer@ == names@.push(*name),
{
    let mut longer: Vec<String> = Vec::new();
    let mut i: usize = 0;
    while i < names.len()
        invariant
            i <= names.len(),
            longer@ == names@.take(i as int),
        decreases names.len() - i,
    {
        longer.push(names[i].clone());
        assert(longer@ =~= names@.take(i + 1));
        i += 1;
    }
    assert(names@.take(i as int) =~= names@);
    longer.push(name.clone());
    longer
}

/// Writes `value` under `key`: in place where the key is there, else at the end.
#[verifier::loop_isolation(false)]
pub fn set_field(fields: Vec<(Name, Value)>, key: Name, value: Value) -> (written: Vec<
    (Name, Value),
>)
    ensures
        pairs_view(written@) == with_field(pairs_view(fields@), key@, value@),
{
    let mut fields = fields;
    let ghost before = fields@;
    let ghost views = pairs_view(fields@);
    proof {
        lemma_pairs_view(before);
    }
    let mut i: usize = 0;
    while i < fields.len()
        invariant
            i <= fields.len(),
            fields@ == before,
            views == pairs_view(before),
            views.len() == before.len(),
            forall|j: int| 0 <= j < before.len() ==> #[trigger] views[j] == (before[j].0@, before[j].1@),
            key_index(views, key@, 0) == key_index(views, key@, i as int),
        decreases fields.len() - i,
    {
        if fields[i].0 == key {
            assert(views[i as int].0 == key@);
            assert(key_index(views, key@, 0) == Some(i as int));
            let pair = (key, value);
            fields.set(i, pair);
            proof {
                lemma_pairs_view(fields@);
                assert(pairs_view(fields@) =~= views.update(i as int, (pair.0@, pair.1@)));
            }
            return fields;
        }
        i += 1;
    }
    let pair = (key, value);
    proof {
        lemma_pairs_view_push(fields@, pair);
    }
    fields.push(pair);
    fields
}

/// Adds the error of a field that failed at `path` with `message`.
pub fn fail(errors: Vec<FieldError>, path: Vec<String>, message: String) -> (done: Completion)
    ensures
        done@ == failure(errors_view(errors@), names_view(path@), message@),
{
    let mut errors = errors;
    let ghost before = errors@;
    let error = FieldError { path, message };
    errors.push(error);
    assert(errors_view(errors@) =~= errors_view(before).push(error@));
    Completion { value: None, errors }
}

/// Settles a completed field into the object under assembly.
pub fn settle_field(
    fields: Vec<(Name, Value)>,
    nulled: bool,
    key: Name,
    non_null: bool,
    done: Completion,
) -> (progress: Progress)
    ensures
        progress@ == settle(
            ProgressView { fields: pairs_view(fields@), nulled, errors: Seq::empty() },
            key@,
            non_null,
            done@,
        ),
{
    let Completion { value, errors } = done;
    match value {
        Some(v) => Progress { fields: set_field(fields, key, v), nulled, errors },
        None => {
            if non_null {
                Progress { fields, nulled: true, errors }
            } else {
                Progress { fields: set_field(fields, key, Value::Null), nulled, errors }
            }
        },
    }
}

/// The name at the core of a type.
pub fn base_name(ty: &Type) -> (name: &Name)
    ensures
        *name == named_type(*ty),
    decreases ty,
{
    match ty {
        Type::NamedType(name) => name,
        Type::ListType(inner) => base_name(inner),
        Type::NonNullType(inner) => base_name(inner),
    }
}

/// Runs the selections of `items` on `parent`, in order.
#[verifier::loop_isolation(false)]
fn run_selections<R: Resolver>(
    ctx: &ExecutionContext,
    resolver: &R,
    path: &Vec<Name>,
    trail: &Vec<String>,
    parent: &Value,
    object_name: &Name,
    items: &Vec<Selection>,
    progress: Progress,
) -> (result: Result<Progress, QueryExecutionError>)
    ensures
        progress_view(result) == selections_outcome(
            *ctx,
            *resolver,
            path@,
            names_view(trail@),
            parent@,
            object_name@,
            items@,
            0,
            progress@,
        ),
    decreases unvisited(ctx.document.definitions@, path@), items, 0nat, 0nat,
{
    let ghost start = progress@;
    let mut progress = progress;
    let mut i: usize = 0;
    while i < items.len()
        invariant
            i <= items.len(),
            selections_outcome(
                *ctx,
                *resolver,
                path@,
                names_view(trail@),
                parent@,
                object_name@,
                items@,
                0,
                start,
            ) == selections_outcome(
                *ctx,
                *resolver,
                path@,
                names_view(trail@),
                parent@,
                object_name@,
                items@,
                i as int,
                progress@,
            ),
        decreases items.len() - i,
    {
        match run_selection(ctx, resolver, path, trail, parent, object_name, &items[i], progress) {
            Ok(next) => {
                progress = next;
            },
            Err(e) => {
                return Err(e);
            },
        }
        i += 1;
    }
    Ok(progress)
}

/// Runs one selection on `parent`.
fn run_selection<R: Resolver>(
    ctx: &ExecutionContext,
    resolver: &R,
    path: &Vec<Name>,
    trail: &Vec<String>,
    parent: &Value,
    object_name: &Name,
    selection: &Selection,
    progress: Progress,
) -> (result: Result<Progress, QueryExecutionError>)
    ensures
        progress_view(result) == selection_outcome(
            *ctx,
            *resolver,
            path@,
            names_view(trail@),
            parent@,
            object_name@,
            *selection,
            progress@,
        ),
    decreases unvisited(ctx.document.definitions@, path@), selection, 0nat, 0nat,
{
    match selection {
        Selection::Field(field) => {
            if skip_selection(selection) {
                return Ok(progress);
            }
            if !include_selection(selection) {
                return Ok(progress);
            }
            if ctx.canceled {
                return Err(QueryExecutionError::Canceled);
            }
            let key = get_response_key(field);
            let here = extend(trail, key);
            proof {
                assert(names_view(here@) =~= names_view(trail@).push(key@));
            }
            let declared = ctx.schema.get_field_type(object_name, &field.name);
            let non_null = match declared {
                Some(Type::NonNullType(_)) => true,
                _ => false,
            };
            let Progress { fields, nulled, errors } = progress;
            match bind_arguments(&field.arguments, &ctx.variables) {
                None => {
                    let message = "argument refers to a variable that is not bound".to_owned();
                    let done = fail(errors, here, message);
                    Ok(settle_field(fields, nulled, key.clone(), non_null, done))
                },
                Some(arguments) => match resolver.resolve(parent, &field.name, &arguments) {
                    Err(ResolveError::Canceled) => Err(QueryExecutionError::Canceled),
                    Err(ResolveError::Failed(message)) => {
                        let done = fail(errors, here, message);
                        Ok(settle_field(fields, nulled, key.clone(), non_null, done))
                    },
                    Ok(value) => {
                        let completed = match declared {
                            Some(ty) => complete(
                                ctx,
                                resolver,
                                path,
                                &here,
                                &value,
                                ty,
                                &field.selection_set,
                                errors,
                            ),
                            None => {
                                let unnamed = String::new();
                                complete_object(
                                    ctx,
                                    resolver,
                                    path,
                                    &here,
                                    &value,
                                    &unnamed,
                                    &field.selection_set,
                                    errors,
                                )
                            },
                        };
                        match completed {
                            Ok(done) => Ok(settle_field(fields, nulled, key.clone(), non_null, done)),
                            Err(e) => Err(e),
                        }
                    },
                },
            }
        },
        Selection::FragmentSpread(spread) => match get_fragment(
            ctx.document,
            &spread.fragment_name,
        ) {
            None => Ok(progress),
            Some(fragment) => {
                if path_contains(path, &spread.fragment_name) {
                    return Err(QueryExecutionError::CycleDetected);
                }
                if !ctx.schema.does_condition_apply(object_name, &fragment.type_condition) {
                    return Ok(progress);
                }
                let deeper = extend(path, &spread.fragment_name);
                proof {
                    lemma_entering_shrinks(ctx.document.definitions@, path@, spread.fragment_name);
                }
                run_selections(
                    ctx,
                    resolver,
                    &deeper,
                    trail,
                    parent,
                    object_name,
                    &fragment.selection_set.items,
                    progress,
                )
            },
        },
        Selection::InlineFragment(inline) => {
            if ctx.schema.does_type_apply(object_name, &inline.type_condition) {
                run_selections(
                    ctx,
                    resolver,
                    path,
                    trail,
                    parent,
                    object_name,
                    &inline.selection_set.items,
                    progress,
                )
            } else {
                Ok(progress)
            }
        },
    }
}

/// Completes a resolved value of type `ty`.
#[verifier::loop_isolation(false)]
fn complete<R: Resolver>(
    ctx: &ExecutionContext,
    resolver: &R,
    path: &Vec<Name>,
    trail: &Vec<String>,
    value: &Value,
    ty: &Type,
    selection_set: &SelectionSet,
    errors: Vec<FieldError>,
) -> (result: Result<Completion, QueryExecutionError>)
    ensures
        completion_view(result) == completion(
            *ctx,
            *resolver,
            path@,
            names_view(trail@),
            value@,
            *ty,
            *selection_set,
            errors_view(errors@),
        ),
    decreases unvisited(ctx.document.definitions@, path@), selection_set, type_depth(*ty) + 1, 0nat,
{
    match ty {
        Type::NonNullType(inner) => complete(
            ctx,
            resolver,
            path,
            trail,
            value,
            inner,
            selection_set,
            errors,
        ),
        Type::NamedType(name) => complete_object(
            ctx,
            resolver,
            path,
            trail,
            value,
            name,
            selection_set,
            errors,
        ),
        Type::ListType(inner) => match value {
            Value::List(values) => {
                let non_null = match &**inner {
                    Type::NonNullType(_) => true,
                    _ => false,
                };
                let ghost views = values_view(values@);
                let ghost start = ListProgressView {
                    done: Seq::empty(),
                    failed: false,
                    errors: errors_view(errors@),
                };
                let mut done: Vec<Value> = Vec::new();
                let mut failed = false;
                let mut errors = errors;
                let mut i: usize = 0;
                proof {
                    lemma_values_view(values@);
                }
                while i < values.len()
                    invariant
                        i <= values.len(),
                        list_completion(
                            *ctx,
                            *resolver,
                            path@,
                            names_view(trail@),
                            views,
                            0,
                            **inner,
                            *selection_set,
                            start,
                        ) == list_completion(
                            *ctx,
                            *resolver,
                            path@,
                            names_view(trail@),
                            views,
                            i as int,
                            **inner,
                            *selection_set,
                            ListProgressView {
                                done: values_view(done@),
                                failed,
                                errors: errors_view(errors@),
                            },
                        ),
                    decreases values.len() - i,
                {
                    match complete(
                        ctx,
                        resolver,
                        path,
                        trail,
                        &values[i],
                        inner,
                        selection_set,
                        errors,
                    ) {
                        Err(e) => {
                            return Err(e);
                        },
                        Ok(element) => {
                            let Completion { value: completed, errors: grown } = element;
                            errors = grown;
                            match completed {
                                Some(v) => {
                                    proof {
                                        lemma_values_view_push(done@, v);
                                    }
                                    done.push(v);
                                },
                                None => {
                                    if non_null {
                                        failed = true;
                                    } else {
                                        proof {
                                            lemma_values_view_push(done@, Value::Null);
                                        }
                                        done.push(Value::Null);
                                    }
                                },
                            }
                        },
                    }
                    i += 1;
                }
                Ok(
                    Completion {
                        value: if failed {
                            None
                        } else {
                            Some(Value::List(done))
                        },
                        errors,
                    },
                )
            },
            _ => complete_object(
                ctx,
                resolver,
                path,
                trail,
                value,
                base_name(inner),
                selection_set,
                errors,
            ),
        },
    }
}

/// Completes a value by running `selection_set` on it where it is an object.
fn complete_object<R: Resolver>(
    ctx: &ExecutionContext,
    resolver: &R,
    path: &Vec<Name>,
    trail: &Vec<String>,
    value: &Value,
    object_name: &Name,
    selection_set: &SelectionSet,
    errors: Vec<FieldError>,
) -> (result: Result<Completion, QueryExecutionError>)
    ensures
        completion_view(result) == object_completion(
            *ctx,
            *resolver,
            path@,
            names_view(trail@),
            value@,
            object_name@,
            *selection_set,
            errors_view(errors@),
        ),
    decreases unvisited(ctx.document.definitions@, path@), selection_set, 0nat, 0nat,
{
    let is_object = match value {
        Value::Object(_) => true,
        _ => false,
    };
    if selection_set.items.len() > 0 && is_object {
        let fresh = Progress { fields: Vec::new(), nulled: false, errors };
        assert(fresh@.fields =~= Seq::empty());
        match run_selections(
            ctx,
            resolver,
            path,
            trail,
            value,
            object_name,
            &selection_set.items,
            fresh,
        ) {
            Ok(progress) => {
                let Progress { fields, nulled, errors } = progress;
                Ok(
                    Completion {
                        value: if nulled {
                            None
                        } else {
                            Some(Value::Object(fields))
                        },
                        errors,
                    },
                )
            },
            Err(e) => Err(e),
        }
    } else {
        Ok(Completion { value: Some(value.clone()), errors })
    }
}

/// Runs `selection_set` on the object `parent` of type `object_name` and
/// yields the response: the data tree with the field errors, or the error
/// that aborted the request.
pub fn execute_selection_set<R: Resolver>(
    ctx: &ExecutionContext,
    resolver: &R,
    parent: &Value,
    object_name: &Name,
    selection_set: &SelectionSet,
) -> (result: Result<QueryResult, QueryExecutionError>)
    ensures
        match result {
            Ok(response) => execution(*ctx, *resolver, parent@, object_name@, *selection_set)
                == Ok::<_, QueryExecutionError>(response@),
            Err(e) => execution(*ctx, *resolver, parent@, object_name@, *selection_set) == Err::<
                crate::query::QueryResultView,
                _,
            >(e),
        },
{
    let path: Vec<Name> = Vec::new();
    let trail: Vec<String> = Vec::new();
    let fresh = Progress { fields: Vec::new(), nulled: false, errors: Vec::new() };
    assert(fresh@.fields =~= Seq::empty());
    assert(fresh@.errors =~= Seq::empty());
    assert(names_view(trail@) =~= Seq::empty());
    match run_selections(
        ctx,
        resolver,
        &path,
        &trail,
        parent,
        object_name,
        &selection_set.items,
        fresh,
    ) {
        Ok(progress) => {
            let Progress { fields, nulled, errors } = progress;
            Ok(
                QueryResult {
                    data: if nulled {
                        None
                    } else {
                        Some(Value::Object(fields))
                    },
                    errors,
                },
            )
        },
        Err(e) => Err(e),
    }
}

} // verus!
