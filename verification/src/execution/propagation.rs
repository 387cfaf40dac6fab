//! Null propagation: a failed field leaves one error behind and nulls
//! exactly what the schema says it must.

use vstd::prelude::*;
use crate::error::QueryExecutionError;
use crate::execution::{
    bound_arguments, completion, is_non_null, list_completion, named_type, object_completion,
    selection_outcome, selections_outcome, settle_element, type_depth, unbound_variable_message,
    with_field, ExecutionContext, ListProgressView, ProgressView, Resolution, Resolver,
};
use crate::query::ast::{
    fragment_named, response_key, should_include, should_skip, Field, Name, Selection,
    SelectionSet, Type,
};
use crate::query::fragments::{lemma_entering_shrinks, unvisited};
use crate::query::FieldErrorView;
use crate::schema::{declared_type, lists_name, type_applies};
use crate::values::ValueView;

verus! {

/// A prefix of a prefix is a prefix.
pub proof fn lemma_prefix_of_prefix<T>(a: Seq<T>, b: Seq<T>, c: Seq<T>)
    requires
        a.is_prefix_of(b),
        b.is_prefix_of(c),
    ensures
        a.is_prefix_of(c),
{
    assert(a =~= c.subrange(0, a.len() as int)) by {
        assert forall|i: int| 0 <= i < a.len() implies a[i] == c.subrange(0, a.len() as int)[i] by {
            assert(a[i] == b.subrange(0, a.len() as int)[i]);
            assert(b[i] == c.subrange(0, b.len() as int)[i]);
        }
    }
}

/// What a prefix holds, the whole holds.
pub proof fn lemma_prefix_contains<T>(a: Seq<T>, b: Seq<T>, x: T)
    requires
        a.is_prefix_of(b),
        a.contains(x),
    ensures
        b.contains(x),
{
    let i = choose|i: int| 0 <= i < a.len() && a[i] == x;
    assert(a[i] == b.subrange(0, a.len() as int)[i]);
    assert(b[i] == x);
}

/// A sequence is a prefix of itself with one more element, which that holds.
pub proof fn lemma_prefix_push<T>(a: Seq<T>, x: T)
    ensures
        a.is_prefix_of(a.push(x)),
        a.push(x).contains(x),
{
    assert(a =~= a.push(x).subrange(0, a.len() as int));
    assert(a.push(x)[a.len() as int] == x);
}

/// A sequence is a prefix of itself.
pub proof fn lemma_prefix_of_itself<T>(a: Seq<T>)
    ensures
        a.is_prefix_of(a),
{
    assert(a =~= a.subrange(0, a.len() as int));
}

/// Running selections only adds field errors, behind those that are there,
/// and an object that is nulled stays nulled.
pub proof fn lemma_selections_grow<R: Resolver>(
    ctx: ExecutionContext,
    resolver: R,
    path: Seq<Name>,
    trail: Seq<Seq<char>>,
    parent: ValueView,
    object_name: Seq<char>,
    items: Seq<Selection>,
    from: int,
    progress: ProgressView,
)
    ensures
        selections_outcome(ctx, resolver, path, trail, parent, object_name, items, from, progress) matches Ok(
            after,
        ) ==> progress.errors.is_prefix_of(after.errors) && (progress.nulled ==> after.nulled),
    decreases unvisited(ctx.document.definitions@, path), items, items.len() - from, 0nat,
{
    lemma_prefix_of_itself(progress.errors);
    if 0 <= from < items.len() {
        lemma_selection_grow(ctx, resolver, path, trail, parent, object_name, items[from], progress);
        match selection_outcome(ctx, resolver, path, trail, parent, object_name, items[from], progress) {
            Ok(next) => {
                lemma_selections_grow(
                    ctx,
                    resolver,
                    path,
                    trail,
                    parent,
                    object_name,
                    items,
                    from + 1,
                    next,
                );
                match selections_outcome(
                    ctx,
                    resolver,
                    path,
                    trail,
                    parent,
                    object_name,
                    items,
                    from + 1,
                    next,
                ) {
                    Ok(after) => {
                        lemma_prefix_of_prefix(progress.errors, next.errors, after.errors);
                    },
                    Err(_) => {},
                }
            },
            Err(_) => {},
        }
    }
}

/// Running one selection only adds field errors, behind those that are
/// there, and an object that is nulled stays nulled.
pub proof fn lemma_selection_grow<R: Resolver>(
    ctx: ExecutionContext,
    resolver: R,
    path: Seq<Name>,
    trail: Seq<Seq<char>>,
    parent: ValueView,
    object_name: Seq<char>,
    selection: Selection,
    progress: ProgressView,
)
    ensures
        selection_outcome(ctx, resolver, path, trail, parent, object_name, selection, progress) matches Ok(
            after,
        ) ==> progress.errors.is_prefix_of(after.errors) && (progress.nulled ==> after.nulled),
    decreases unvisited(ctx.document.definitions@, path), selection, 0nat, 0nat,
{
    lemma_prefix_of_itself(progress.errors);
    match selection {
        Selection::Field(field) => {
            if !(should_skip(selection) || !should_include(selection)) && !ctx.canceled {
                let here = trail.push(response_key(field)@);
                let declared = declared_type(*ctx.schema, object_name, field.name@);
                match bound_arguments(field.arguments@, ctx.variables@) {
                    None => {
                        lemma_prefix_push(
                            progress.errors,
                            FieldErrorView {
                                path: here,
                                message: unbound_variable_message(),
                            },
                        );
                    },
                    Some(arguments) => match resolver.resolution(parent, field.name@, arguments) {
                        Resolution::Value(value) => match declared {
                            Some(ty) => {
                                lemma_completion_grow(
                                    ctx,
                                    resolver,
                                    path,
                                    here,
                                    value,
                                    ty,
                                    field.selection_set,
                                    progress.errors,
                                );
                            },
                            None => {
                                lemma_object_completion_grow(
                                    ctx,
                                    resolver,
                                    path,
                                    here,
                                    value,
                                    Seq::empty(),
                                    field.selection_set,
                                    progress.errors,
                                );
                            },
                        },
                        Resolution::Failed(message) => {
                            lemma_prefix_push(
                                progress.errors,
                                FieldErrorView { path: here, message },
                            );
                        },
                        Resolution::Canceled => {},
                    },
                }
            }
        },
        Selection::FragmentSpread(spread) => {
            match fragment_named(ctx.document.definitions@, spread.fragment_name@) {
                None => {},
                Some(fragment) => {
                    if !lists_name(path, spread.fragment_name@) && type_applies(
                        *ctx.schema,
                        object_name,
                        Some(fragment.type_condition),
                    ) {
                        lemma_entering_shrinks(
                            ctx.document.definitions@,
                            path,
                            spread.fragment_name,
                        );
                        lemma_selections_grow(
                            ctx,
                            resolver,
                            path.push(spread.fragment_name),
                            trail,
                            parent,
                            object_name,
                            fragment.selection_set.items@,
                            0,
                            progress,
                        );
                    }
                },
            }
        },
        Selection::InlineFragment(inline) => {
            if type_applies(*ctx.schema, object_name, inline.type_condition) {
                lemma_selections_grow(
                    ctx,
                    resolver,
                    path,
                    trail,
                    parent,
                    object_name,
                    inline.selection_set.items@,
                    0,
                    progress,
                );
            }
        },
    }
}

/// Completing a value only adds field errors, behind those that are there.
pub proof fn lemma_completion_grow<R: Resolver>(
    ctx: ExecutionContext,
    resolver: R,
    path: Seq<Name>,
    trail: Seq<Seq<char>>,
    value: ValueView,
    ty: Type,
    selection_set: SelectionSet,
    errors: Seq<FieldErrorView>,
)
    ensures
        completion(ctx, resolver, path, trail, value, ty, selection_set, errors) matches Ok(done)
            ==> errors.is_prefix_of(done.errors),
    decreases unvisited(ctx.document.definitions@, path), selection_set, type_depth(ty) + 1, 0nat,
{
    match ty {
        Type::NonNullType(inner) => {
            lemma_completion_grow(ctx, resolver, path, trail, value, *inner, selection_set, errors);
        },
        Type::ListType(inner) => match value {
            ValueView::List(values) => {
                lemma_list_completion_grow(
                    ctx,
                    resolver,
                    path,
                    trail,
                    values,
                    0,
                    *inner,
                    selection_set,
                    ListProgressView { done: Seq::empty(), failed: false, errors },
                );
            },
            _ => {
                lemma_object_completion_grow(
                    ctx,
                    resolver,
                    path,
                    trail,
                    value,
                    named_type(*inner)@,
                    selection_set,
                    errors,
                );
            },
        },
        Type::NamedType(name) => {
            lemma_object_completion_grow(
                ctx,
                resolver,
                path,
                trail,
                value,
                name@,
                selection_set,
                errors,
            );
        },
    }
}

/// Completing a list only adds field errors, behind those that are there.
pub proof fn lemma_list_completion_grow<R: Resolver>(
    ctx: ExecutionContext,
    resolver: R,
    path: Seq<Name>,
    trail: Seq<Seq<char>>,
    values: Seq<ValueView>,
    from: int,
    inner: Type,
    selection_set: SelectionSet,
    so_far: ListProgressView,
)
    ensures
        list_completion(ctx, resolver, path, trail, values, from, inner, selection_set, so_far) matches Ok(
            done,
        ) ==> so_far.errors.is_prefix_of(done.errors),
    decreases unvisited(ctx.document.definitions@, path), selection_set, type_depth(inner) + 1,
        values.len() - from + 1,
{
    lemma_prefix_of_itself(so_far.errors);
    if 0 <= from < values.len() {
        lemma_completion_grow(
            ctx,
            resolver,
            path,
            trail,
            values[from],
            inner,
            selection_set,
            so_far.errors,
        );
        match completion(ctx, resolver, path, trail, values[from], inner, selection_set, so_far.errors) {
            Ok(element) => {
                let next = settle_element(so_far, is_non_null(Some(inner)), element);
                lemma_list_completion_grow(
                    ctx,
                    resolver,
                    path,
                    trail,
                    values,
                    from + 1,
                    inner,
                    selection_set,
                    next,
                );
                match list_completion(
                    ctx,
                    resolver,
                    path,
                    trail,
                    values,
                    from + 1,
                    inner,
                    selection_set,
                    next,
                ) {
                    Ok(done) => {
                        lemma_prefix_of_prefix(so_far.errors, next.errors, done.errors);
                    },
                    Err(_) => {},
                }
            },
            Err(_) => {},
        }
    }
}

/// Completing an object only adds field errors, behind those that are there.
pub proof fn lemma_object_completion_grow<R: Resolver>(
    ctx: ExecutionContext,
    resolver: R,
    path: Seq<Name>,
    trail: Seq<Seq<char>>,
    value: ValueView,
    object_name: Seq<char>,
    selection_set: SelectionSet,
    errors: Seq<FieldErrorView>,
)
    ensures
        object_completion(ctx, resolver, path, trail, value, object_name, selection_set, errors) matches Ok(
            done,
        ) ==> errors.is_prefix_of(done.errors),
    decreases unvisited(ctx.document.definitions@, path), selection_set, 0nat, 0nat,
{
    lemma_prefix_of_itself(errors);
    if selection_set.items@.len() > 0 && value is Object {
        lemma_selections_grow(
            ctx,
            resolver,
            path,
            trail,
            value,
            object_name,
            selection_set.items@,
            0,
            ProgressView { fields: Seq::empty(), nulled: false, errors },
        );
    }
}

/// Whether the engine resolves `field` on `parent` and the resolver fails
/// with `message`: the field is kept by its directives, the request is not
/// canceled, and its arguments are bound.
pub open spec fn fails_with<R: Resolver>(
    ctx: ExecutionContext,
    resolver: R,
    parent: ValueView,
    field: Field,
    message: Seq<char>,
) -> bool {
    &&& !should_skip(Selection::Field(field))
    &&& should_include(Selection::Field(field))
    &&& !ctx.canceled
    &&& bound_arguments(field.arguments@, ctx.variables@) matches Some(arguments)
        && resolver.resolution(parent, field.name@, arguments) == Resolution::Failed(message)
}

/// A field whose resolution fails leaves one error with the path of its
/// response key behind. Where its declared type is non-null, the object that
/// holds it is nulled and gets no value for it; else the field is null and the
/// object is as it was. Fields that follow are still run.
pub proof fn law_failed_field<R: Resolver>(
    ctx: ExecutionContext,
    resolver: R,
    path: Seq<Name>,
    trail: Seq<Seq<char>>,
    parent: ValueView,
    object_name: Seq<char>,
    field: Field,
    message: Seq<char>,
    progress: ProgressView,
)
    requires
        fails_with(ctx, resolver, parent, field, message),
    ensures
        ({
            let key = response_key(field)@;
            let errors = progress.errors.push(FieldErrorView { path: trail.push(key), message });
            selection_outcome(
                ctx,
                resolver,
                path,
                trail,
                parent,
                object_name,
                Selection::Field(field),
                progress,
            ) == Ok::<ProgressView, QueryExecutionError>(
                if is_non_null(declared_type(*ctx.schema, object_name, field.name@)) {
                    ProgressView { fields: progress.fields, nulled: true, errors }
                } else {
                    ProgressView {
                        fields: with_field(progress.fields, key, ValueView::Null),
                        nulled: progress.nulled,
                        errors,
                    }
                },
            )
        }),
{
}

/// Where the selection at `j` is a non-null field whose resolution fails,
/// selections that run to their end from `from <= j` on leave the object
/// nulled and the error of that field among the errors.
pub proof fn lemma_failure_nulls<R: Resolver>(
    ctx: ExecutionContext,
    resolver: R,
    path: Seq<Name>,
    trail: Seq<Seq<char>>,
    parent: ValueView,
    object_name: Seq<char>,
    items: Seq<Selection>,
    from: int,
    j: int,
    field: Field,
    message: Seq<char>,
    progress: ProgressView,
)
    requires
        0 <= from <= j < items.len(),
        items[j] == Selection::Field(field),
        fails_with(ctx, resolver, parent, field, message),
        is_non_null(declared_type(*ctx.schema, object_name, field.name@)),
        selections_outcome(ctx, resolver, path, trail, parent, object_name, items, from, progress) is Ok,
    ensures
        ({
            let after = selections_outcome(
                ctx,
                resolver,
                path,
                trail,
                parent,
                object_name,
                items,
                from,
                progress,
            )->Ok_0;
            &&& after.nulled
            &&& after.errors.contains(
                FieldErrorView { path: trail.push(response_key(field)@), message },
            )
            &&& progress.errors.is_prefix_of(after.errors)
        }),
    decreases j - from,
{
    lemma_selections_grow(ctx, resolver, path, trail, parent, object_name, items, from, progress);
    let next = selection_outcome(
        ctx,
        resolver,
        path,
        trail,
        parent,
        object_name,
        items[from],
        progress,
    )->Ok_0;
    if from == j {
        let error = FieldErrorView { path: trail.push(response_key(field)@), message };
        law_failed_field(ctx, resolver, path, trail, parent, object_name, field, message, progress);
        lemma_prefix_push(progress.errors, error);
        lemma_selections_grow(ctx, resolver, path, trail, parent, object_name, items, j + 1, next);
        let after = selections_outcome(
            ctx,
            resolver,
            path,
            trail,
            parent,
            object_name,
            items,
            j + 1,
            next,
        )->Ok_0;
        lemma_prefix_contains(next.errors, after.errors, error);
    } else {
        lemma_failure_nulls(
            ctx,
            resolver,
            path,
            trail,
            parent,
            object_name,
            items,
            from + 1,
            j,
            field,
            message,
            next,
        );
    }
}

/// Null propagation. Let a field `outer`, declared with a nullable object
/// type, resolve to an object, and let its selection set hold at `j` a field
/// `inner`, declared non-null on that type, whose resolution fails. Then,
/// unless the request is aborted, `outer` is null in the object that holds
/// it, that object is as it was otherwise, and the errors hold the one of
/// `inner`, with the path of the two response keys.
pub proof fn law_null_propagation<R: Resolver>(
    ctx: ExecutionContext,
    resolver: R,
    path: Seq<Name>,
    trail: Seq<Seq<char>>,
    parent: ValueView,
    object_name: Seq<char>,
    outer: Field,
    object: ValueView,
    inner: Field,
    j: int,
    message: Seq<char>,
    progress: ProgressView,
)
    requires
        !should_skip(Selection::Field(outer)),
        should_include(Selection::Field(outer)),
        bound_arguments(outer.arguments@, ctx.variables@) matches Some(arguments)
            && resolver.resolution(parent, outer.name@, arguments) == Resolution::Value(object),
        object is Object,
        declared_type(*ctx.schema, object_name, outer.name@) matches Some(Type::NamedType(_)),
        0 <= j < outer.selection_set.items@.len(),
        outer.selection_set.items@[j] == Selection::Field(inner),
        fails_with(ctx, resolver, object, inner, message),
        is_non_null(
            declared_type(
                *ctx.schema,
                named_type(declared_type(*ctx.schema, object_name, outer.name@)->Some_0)@,
                inner.name@,
            ),
        ),
        selection_outcome(
            ctx,
            resolver,
            path,
            trail,
            parent,
            object_name,
            Selection::Field(outer),
            progress,
        ) is Ok,
    ensures
        ({
            let after = selection_outcome(
                ctx,
                resolver,
                path,
                trail,
                parent,
                object_name,
                Selection::Field(outer),
                progress,
            )->Ok_0;
            &&& after.fields == with_field(progress.fields, response_key(outer)@, ValueView::Null)
            &&& after.nulled == progress.nulled
            &&& after.errors.contains(
                FieldErrorView {
                    path: trail.push(response_key(outer)@).push(response_key(inner)@),
                    message,
                },
            )
            &&& progress.errors.is_prefix_of(after.errors)
        }),
{
    let here = trail.push(response_key(outer)@);
    let ty = declared_type(*ctx.schema, object_name, outer.name@)->Some_0;
    let fresh = ProgressView { fields: Seq::empty(), nulled: false, errors: progress.errors };
    let done = completion(
        ctx,
        resolver,
        path,
        here,
        object,
        ty,
        outer.selection_set,
        progress.errors,
    );
    assert(done is Ok);
    assert(done == object_completion(
        ctx,
        resolver,
        path,
        here,
        object,
        named_type(ty)@,
        outer.selection_set,
        progress.errors,
    ));
    assert(selections_outcome(
        ctx,
        resolver,
        path,
        here,
        object,
        named_type(ty)@,
        outer.selection_set.items@,
        0,
        fresh,
    ) is Ok);
    lemma_failure_nulls(
        ctx,
        resolver,
        path,
        here,
        object,
        named_type(ty)@,
        outer.selection_set.items@,
        0,
        j,
        inner,
        message,
        fresh,
    );
}

} // verus!
