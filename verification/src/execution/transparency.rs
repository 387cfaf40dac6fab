//! Fragment spreads are transparent: a fragment written inline in place of
//! its spread gives the same response.

use vstd::prelude::*;
use crate::error::QueryExecutionError;
use crate::execution::{
    bound_arguments, checked_execution, completion, execution, is_non_null, list_completion,
    named_type, object_completion, selection_outcome, selections_outcome, settle_element,
    type_depth, ExecutionContext, ListProgressView, ProgressView, Resolution, Resolver,
};
use crate::query::ast::{
    fragment_named, response_key, should_include, should_skip, FragmentSpread, InlineFragment,
    Name, Selection, SelectionSet, Type,
};
use crate::query::fragments::inlining::{
    all_inlining, covers, inlines, inlining, law_inlining_keeps_validity, lemma_covers_push,
    lemma_push_covers,
};
use crate::query::fragments::{
    acyclic, all_acyclic, lemma_acyclic_spread, lemma_entering_shrinks, unvisited,
};
use crate::query::FieldErrorView;
use crate::schema::{declared_type, lists_name, type_applies};
use crate::values::ValueView;

verus! {

/// Whether an outcome is the detection of a fragment cycle.
pub open spec fn is_cycle<T>(outcome: Result<T, QueryExecutionError>) -> bool {
    outcome matches Err(QueryExecutionError::CycleDetected)
}

/// Selections that run without a cycle under a path run to the same outcome
/// under every path that it covers.
pub proof fn lemma_selections_path<R: Resolver>(
    ctx: ExecutionContext,
    resolver: R,
    big: Seq<Name>,
    small: Seq<Name>,
    trail: Seq<Seq<char>>,
    parent: ValueView,
    object_name: Seq<char>,
    items: Seq<Selection>,
    from: int,
    progress: ProgressView,
)
    requires
        covers(big, small),
        !is_cycle(
            selections_outcome(ctx, resolver, big, trail, parent, object_name, items, from, progress),
        ),
    ensures
        selections_outcome(ctx, resolver, small, trail, parent, object_name, items, from, progress)
            == selections_outcome(
            ctx,
            resolver,
            big,
            trail,
            parent,
            object_name,
            items,
            from,
            progress,
        ),
    decreases unvisited(ctx.document.definitions@, big), items, items.len() - from, 0nat,
{
    if 0 <= from < items.len() {
        lemma_selection_path(
            ctx,
            resolver,
            big,
            small,
            trail,
            parent,
            object_name,
            items[from],
            progress,
        );
        match selection_outcome(ctx, resolver, big, trail, parent, object_name, items[from], progress) {
            Ok(next) => {
                lemma_selections_path(
                    ctx,
                    resolver,
                    big,
                    small,
                    trail,
                    parent,
                    object_name,
                    items,
                    from + 1,
                    next,
                );
            },
            Err(_) => {},
        }
    }
}

/// One selection that runs without a cycle under a path runs to the same
/// outcome under every path that it covers.
pub proof fn lemma_selection_path<R: Resolver>(
    ctx: ExecutionContext,
    resolver: R,
    big: Seq<Name>,
    small: Seq<Name>,
    trail: Seq<Seq<char>>,
    parent: ValueView,
    object_name: Seq<char>,
    selection: Selection,
    progress: ProgressView,
)
    requires
        covers(big, small),
        !is_cycle(
            selection_outcome(ctx, resolver, big, trail, parent, object_name, selection, progress),
        ),
    ensures
        selection_outcome(ctx, resolver, small, trail, parent, object_name, selection, progress)
            == selection_outcome(
            ctx,
            resolver,
            big,
            trail,
            parent,
            object_name,
            selection,
            progress,
        ),
    decreases unvisited(ctx.document.definitions@, big), selection, 0nat, 0nat,
{
    match selection {
        Selection::Field(field) => {
            if !(should_skip(selection) || !should_include(selection)) && !ctx.canceled {
                let here = trail.push(response_key(field)@);
                let declared = declared_type(*ctx.schema, object_name, field.name@);
                match bound_arguments(field.arguments@, ctx.variables@) {
                    None => {},
                    Some(arguments) => match resolver.resolution(parent, field.name@, arguments) {
                        Resolution::Value(value) => match declared {
                            Some(ty) => {
                                lemma_completion_path(
                                    ctx,
                                    resolver,
                                    big,
                                    small,
                                    here,
                                    value,
                                    ty,
                                    field.selection_set,
                                    progress.errors,
                                );
                            },
                            None => {
                                lemma_object_completion_path(
                                    ctx,
                                    resolver,
                                    big,
                                    small,
                                    here,
                                    value,
                                    Seq::empty(),
                                    field.selection_set,
                                    progress.errors,
                                );
                            },
                        },
                        _ => {},
                    },
                }
            }
        },
        Selection::FragmentSpread(spread) => {
            match fragment_named(ctx.document.definitions@, spread.fragment_name@) {
                None => {},
                Some(fragment) => {
                    assert(!lists_name(big, spread.fragment_name@));
                    assert(!lists_name(small, spread.fragment_name@));
                    if type_applies(*ctx.schema, object_name, Some(fragment.type_condition)) {
                        lemma_covers_push(big, small, spread.fragment_name);
                        lemma_entering_shrinks(
                            ctx.document.definitions@,
                            big,
                            spread.fragment_name,
                        );
                        lemma_selections_path(
                            ctx,
                            resolver,
                            big.push(spread.fragment_name),
                            small.push(spread.fragment_name),
                            trail,
                            parent,
                            object_name,
                            fragment.selection_set.items@,
                            0,
                            progress,
                        );
                    }
                },
            }
        },
        Selection::InlineFragment(inline) => {
            if type_applies(*ctx.schema, object_name, inline.type_condition) {
                lemma_selections_path(
                    ctx,
                    resolver,
                    big,
                    small,
                    trail,
                    parent,
                    object_name,
                    inline.selection_set.items@,
                    0,
                    progress,
                );
            }
        },
    }
}

/// A completion that runs without a cycle under a path runs to the same
/// outcome under every path that it covers.
pub proof fn lemma_completion_path<R: Resolver>(
    ctx: ExecutionContext,
    resolver: R,
    big: Seq<Name>,
    small: Seq<Name>,
    trail: Seq<Seq<char>>,
    value: ValueView,
    ty: Type,
    selection_set: SelectionSet,
    errors: Seq<FieldErrorView>,
)
    requires
        covers(big, small),
        !is_cycle(completion(ctx, resolver, big, trail, value, ty, selection_set, errors)),
    ensures
        completion(ctx, resolver, small, trail, value, ty, selection_set, errors) == completion(
            ctx,
            resolver,
            big,
            trail,
            value,
            ty,
            selection_set,
            errors,
        ),
    decreases unvisited(ctx.document.definitions@, big), selection_set, type_depth(ty) + 1, 0nat,
{
    match ty {
        Type::NonNullType(inner) => {
            lemma_completion_path(
                ctx,
                resolver,
                big,
                small,
                trail,
                value,
                *inner,
                selection_set,
                errors,
            );
        },
        Type::ListType(inner) => match value {
            ValueView::List(values) => {
                lemma_list_completion_path(
                    ctx,
                    resolver,
                    big,
                    small,
                    trail,
                    values,
                    0,
                    *inner,
                    selection_set,
                    ListProgressView { done: Seq::empty(), failed: false, errors },
                );
            },
            _ => {
                lemma_object_completion_path(
                    ctx,
                    resolver,
                    big,
                    small,
                    trail,
                    value,
                    named_type(*inner)@,
                    selection_set,
                    errors,
                );
            },
        },
        Type::NamedType(name) => {
            lemma_object_completion_path(
                ctx,
                resolver,
                big,
                small,
                trail,
                value,
                name@,
                selection_set,
                errors,
            );
        },
    }
}

/// The completion of a list that runs without a cycle under a path runs to
/// the same outcome under every path that it covers.
pub proof fn lemma_list_completion_path<R: Resolver>(
    ctx: ExecutionContext,
    resolver: R,
    big: Seq<Name>,
    small: Seq<Name>,
    trail: Seq<Seq<char>>,
    values: Seq<ValueView>,
    from: int,
    inner: Type,
    selection_set: SelectionSet,
    so_far: ListProgressView,
)
    requires
        covers(big, small),
        !is_cycle(
            list_completion(ctx, resolver, big, trail, values, from, inner, selection_set, so_far),
        ),
    ensures
        list_completion(ctx, resolver, small, trail, values, from, inner, selection_set, so_far)
            == list_completion(
            ctx,
            resolver,
            big,
            trail,
            values,
            from,
            inner,
            selection_set,
            so_far,
        ),
    decreases unvisited(ctx.document.definitions@, big), selection_set, type_depth(inner) + 1,
        values.len() - from + 1,
{
    if 0 <= from < values.len() {
        lemma_completion_path(
            ctx,
            resolver,
            big,
            small,
            trail,
            values[from],
            inner,
            selection_set,
            so_far.errors,
        );
        match completion(ctx, resolver, big, trail, values[from], inner, selection_set, so_far.errors) {
            Ok(done) => {
                lemma_list_completion_path(
                    ctx,
                    resolver,
                    big,
                    small,
                    trail,
                    values,
                    from + 1,
                    inner,
                    selection_set,
                    settle_element(so_far, is_non_null(Some(inner)), done),
                );
            },
            Err(_) => {},
        }
    }
}

/// The completion of an object that runs without a cycle under a path runs
/// to the same outcome under every path that it covers.
pub proof fn lemma_object_completion_path<R: Resolver>(
    ctx: ExecutionContext,
    resolver: R,
    big: Seq<Name>,
    small: Seq<Name>,
    trail: Seq<Seq<char>>,
    value: ValueView,
    object_name: Seq<char>,
    selection_set: SelectionSet,
    errors: Seq<FieldErrorView>,
)
    requires
        covers(big, small),
        !is_cycle(
            object_completion(ctx, resolver, big, trail, value, object_name, selection_set, errors),
        ),
    ensures
        object_completion(ctx, resolver, small, trail, value, object_name, selection_set, errors)
            == object_completion(
            ctx,
            resolver,
            big,
            trail,
            value,
            object_name,
            selection_set,
            errors,
        ),
    decreases unvisited(ctx.document.definitions@, big), selection_set, 0nat, 0nat,
{
    if selection_set.items@.len() > 0 && value is Object {
        lemma_selections_path(
            ctx,
            resolver,
            big,
            small,
            trail,
            value,
            object_name,
            selection_set.items@,
            0,
            ProgressView { fields: Seq::empty(), nulled: false, errors },
        );
    }
}

/// A fragment written inline runs as its spread does, where the spread runs
/// without a cycle.
pub proof fn lemma_inlined_selection<R: Resolver>(
    ctx: ExecutionContext,
    resolver: R,
    path: Seq<Name>,
    trail: Seq<Seq<char>>,
    parent: ValueView,
    object_name: Seq<char>,
    spread: FragmentSpread,
    inline: InlineFragment,
    progress: ProgressView,
)
    requires
        inlines(ctx.document.definitions@, spread, inline),
        !is_cycle(
            selection_outcome(
                ctx,
                resolver,
                path,
                trail,
                parent,
                object_name,
                Selection::FragmentSpread(spread),
                progress,
            ),
        ),
    ensures
        selection_outcome(
            ctx,
            resolver,
            path,
            trail,
            parent,
            object_name,
            Selection::InlineFragment(inline),
            progress,
        ) == selection_outcome(
            ctx,
            resolver,
            path,
            trail,
            parent,
            object_name,
            Selection::FragmentSpread(spread),
            progress,
        ),
{
    let fragment = fragment_named(ctx.document.definitions@, spread.fragment_name@)->Some_0;
    if type_applies(*ctx.schema, object_name, Some(fragment.type_condition)) {
        lemma_push_covers(path, spread.fragment_name);
        lemma_selections_path(
            ctx,
            resolver,
            path.push(spread.fragment_name),
            path,
            trail,
            parent,
            object_name,
            fragment.selection_set.items@,
            0,
            progress,
        );
    }
}

/// Selections that pass the cycle check never run into a cycle.
pub proof fn lemma_selections_acyclic<R: Resolver>(
    ctx: ExecutionContext,
    resolver: R,
    path: Seq<Name>,
    trail: Seq<Seq<char>>,
    parent: ValueView,
    object_name: Seq<char>,
    items: Seq<Selection>,
    from: int,
    progress: ProgressView,
)
    requires
        all_acyclic(ctx.document.definitions@, path, items),
    ensures
        !is_cycle(
            selections_outcome(ctx, resolver, path, trail, parent, object_name, items, from, progress),
        ),
    decreases unvisited(ctx.document.definitions@, path), items, items.len() - from, 0nat,
{
    if 0 <= from < items.len() {
        assert(acyclic(ctx.document.definitions@, path, items[from]));
        lemma_selection_acyclic(
            ctx,
            resolver,
            path,
            trail,
            parent,
            object_name,
            items[from],
            progress,
        );
        match selection_outcome(ctx, resolver, path, trail, parent, object_name, items[from], progress) {
            Ok(next) => {
                lemma_selections_acyclic(
                    ctx,
                    resolver,
                    path,
                    trail,
                    parent,
                    object_name,
                    items,
                    from + 1,
                    next,
                );
            },
            Err(_) => {},
        }
    }
}

/// A selection that passes the cycle check never runs into a cycle.
pub proof fn lemma_selection_acyclic<R: Resolver>(
    ctx: ExecutionContext,
    resolver: R,
    path: Seq<Name>,
    trail: Seq<Seq<char>>,
    parent: ValueView,
    object_name: Seq<char>,
    selection: Selection,
    progress: ProgressView,
)
    requires
        acyclic(ctx.document.definitions@, path, selection),
    ensures
        !is_cycle(
            selection_outcome(ctx, resolver, path, trail, parent, object_name, selection, progress),
        ),
    decreases unvisited(ctx.document.definitions@, path), selection, 0nat, 0nat,
{
    match selection {
        Selection::Field(field) => {
            if !(should_skip(selection) || !should_include(selection)) && !ctx.canceled {
                let here = trail.push(response_key(field)@);
                let declared = declared_type(*ctx.schema, object_name, field.name@);
                assert(all_acyclic(ctx.document.definitions@, path, field.selection_set.items@));
                match bound_arguments(field.arguments@, ctx.variables@) {
                    None => {},
                    Some(arguments) => match resolver.resolution(parent, field.name@, arguments) {
                        Resolution::Value(value) => match declared {
                            Some(ty) => {
                                lemma_completion_acyclic(
                                    ctx,
                                    resolver,
                                    path,
                                    here,
                                    value,
                                    ty,
                                    field.selection_set,
                                    progress.errors,
                                );
                            },
                            None => {
                                lemma_object_completion_acyclic(
                                    ctx,
                                    resolver,
                                    path,
                                    here,
                                    value,
                                    Seq::empty(),
                                    field.selection_set,
                                    progress.errors,
                                );
                            },
                        },
                        _ => {},
                    },
                }
            }
        },
        Selection::FragmentSpread(spread) => {
            match fragment_named(ctx.document.definitions@, spread.fragment_name@) {
                None => {},
                Some(fragment) => {
                    assert(!lists_name(path, spread.fragment_name@));
                    if type_applies(*ctx.schema, object_name, Some(fragment.type_condition)) {
                        lemma_acyclic_spread(ctx.document.definitions@, path, spread, fragment);
                        lemma_entering_shrinks(
                            ctx.document.definitions@,
                            path,
                            spread.fragment_name,
                        );
                        lemma_selections_acyclic(
                            ctx,
                            resolver,
                            path.push(spread.fragment_name),
                            trail,
                            parent,
                            object_name,
                            fragment.selection_set.items@,
                            0,
                            progress,
                        );
                    }
                },
            }
        },
        Selection::InlineFragment(inline) => {
            if type_applies(*ctx.schema, object_name, inline.type_condition) {
                assert(all_acyclic(ctx.document.definitions@, path, inline.selection_set.items@));
                lemma_selections_acyclic(
                    ctx,
                    resolver,
                    path,
                    trail,
                    parent,
                    object_name,
                    inline.selection_set.items@,
                    0,
                    progress,
                );
            }
        },
    }
}

/// A completion under selections that pass the cycle check never runs into a cycle.
pub proof fn lemma_completion_acyclic<R: Resolver>(
    ctx: ExecutionContext,
    resolver: R,
    path: Seq<Name>,
    trail: Seq<Seq<char>>,
    value: ValueView,
    ty: Type,
    selection_set: SelectionSet,
    errors: Seq<FieldErrorView>,
)
    requires
        all_acyclic(ctx.document.definitions@, path, selection_set.items@),
    ensures
        !is_cycle(completion(ctx, resolver, path, trail, value, ty, selection_set, errors)),
    decreases unvisited(ctx.document.definitions@, path), selection_set, type_depth(ty) + 1, 0nat,
{
    match ty {
        Type::NonNullType(inner) => {
            lemma_completion_acyclic(
                ctx,
                resolver,
                path,
                trail,
                value,
                *inner,
                selection_set,
                errors,
            );
        },
        Type::ListType(inner) => match value {
            ValueView::List(values) => {
                lemma_list_completion_acyclic(
                    ctx,
                    resolver,
                    path,
                    trail,
                    values,
                    0,
                    *inner,
                    selection_set,
                    ListProgressView { done: Seq::empty(), failed: false, errors },
                );
            },
            _ => {
                lemma_object_completion_acyclic(
                    ctx,
                    resolver,
                    path,
                    trail,
                    value,
                    named_type(*inner)@,
                    selection_set,
                    errors,
                );
            },
        },
        Type::NamedType(name) => {
            lemma_object_completion_acyclic(
                ctx,
                resolver,
                path,
                trail,
                value,
                name@,
                selection_set,
                errors,
            );
        },
    }
}

/// The completion of a list under selections that pass the cycle check never
/// runs into a cycle.
pub proof fn lemma_list_completion_acyclic<R: Resolver>(
    ctx: ExecutionContext,
    resolver: R,
    path: Seq<Name>,
    trail: Seq<Seq<char>>,
    values: Seq<ValueView>,
    from: int,
    inner: Type,
    selection_set: SelectionSet,
    so_far: ListProgressView,
)
    requires
        all_acyclic(ctx.document.definitions@, path, selection_set.items@),
    ensures
        !is_cycle(
            list_completion(ctx, resolver, path, trail, values, from, inner, selection_set, so_far),
        ),
    decreases unvisited(ctx.document.definitions@, path), selection_set, type_depth(inner) + 1,
        values.len() - from + 1,
{
    if 0 <= from < values.len() {
        lemma_completion_acyclic(
            ctx,
            resolver,
            path,
            trail,
            values[from],
            inner,
            selection_set,
            so_far.errors,
        );
        match completion(ctx, resolver, path, trail, values[from], inner, selection_set, so_far.errors) {
            Ok(done) => {
                lemma_list_completion_acyclic(
                    ctx,
                    resolver,
                    path,
                    trail,
                    values,
                    from + 1,
                    inner,
                    selection_set,
                    settle_element(so_far, is_non_null(Some(inner)), done),
                );
            },
            Err(_) => {},
        }
    }
}

/// The completion of an object under selections that pass the cycle check
/// never runs into a cycle.
pub proof fn lemma_object_completion_acyclic<R: Resolver>(
    ctx: ExecutionContext,
    resolver: R,
    path: Seq<Name>,
    trail: Seq<Seq<char>>,
    value: ValueView,
    object_name: Seq<char>,
    selection_set: SelectionSet,
    errors: Seq<FieldErrorView>,
)
    requires
        all_acyclic(ctx.document.definitions@, path, selection_set.items@),
    ensures
        !is_cycle(
            object_completion(ctx, resolver, path, trail, value, object_name, selection_set, errors),
        ),
    decreases unvisited(ctx.document.definitions@, path), selection_set, 0nat, 0nat,
{
    if selection_set.items@.len() > 0 && value is Object {
        lemma_selections_acyclic(
            ctx,
            resolver,
            path,
            trail,
            value,
            object_name,
            selection_set.items@,
            0,
            ProgressView { fields: Seq::empty(), nulled: false, errors },
        );
    }
}

/// A selection set that passes the cycle check is executed without a cycle being met.
pub proof fn law_validated_execution_meets_no_cycle<R: Resolver>(
    ctx: ExecutionContext,
    resolver: R,
    parent: ValueView,
    object_name: Seq<char>,
    selection_set: SelectionSet,
)
    requires
        all_acyclic(ctx.document.definitions@, Seq::empty(), selection_set.items@),
    ensures
        !is_cycle(execution(ctx, resolver, parent, object_name, selection_set)),
{
    lemma_selections_acyclic(
        ctx,
        resolver,
        Seq::empty(),
        Seq::empty(),
        parent,
        object_name,
        selection_set.items@,
        0,
        ProgressView { fields: Seq::empty(), nulled: false, errors: Seq::empty() },
    );
}

/// Selections with fragment spreads written inline run as they do without,
/// where they run without a cycle.
pub proof fn lemma_selections_inlined<R: Resolver>(
    ctx: ExecutionContext,
    resolver: R,
    path: Seq<Name>,
    trail: Seq<Seq<char>>,
    parent: ValueView,
    object_name: Seq<char>,
    first: Seq<Selection>,
    second: Seq<Selection>,
    from: int,
    progress: ProgressView,
)
    requires
        all_inlining(ctx.document.definitions@, first, second),
        !is_cycle(
            selections_outcome(ctx, resolver, path, trail, parent, object_name, first, from, progress),
        ),
    ensures
        selections_outcome(ctx, resolver, path, trail, parent, object_name, second, from, progress)
            == selections_outcome(
            ctx,
            resolver,
            path,
            trail,
            parent,
            object_name,
            first,
            from,
            progress,
        ),
    decreases unvisited(ctx.document.definitions@, path), first, first.len() - from, 0nat,
{
    if 0 <= from < first.len() {
        assert(inlining(ctx.document.definitions@, first[from], second[from]));
        lemma_selection_inlined(
            ctx,
            resolver,
            path,
            trail,
            parent,
            object_name,
            first[from],
            second[from],
            progress,
        );
        match selection_outcome(ctx, resolver, path, trail, parent, object_name, first[from], progress) {
            Ok(next) => {
                lemma_selections_inlined(
                    ctx,
                    resolver,
                    path,
                    trail,
                    parent,
                    object_name,
                    first,
                    second,
                    from + 1,
                    next,
                );
            },
            Err(_) => {},
        }
    }
}

/// A selection with fragment spreads written inline runs as it does without,
/// where it runs without a cycle.
pub proof fn lemma_selection_inlined<R: Resolver>(
    ctx: ExecutionContext,
    resolver: R,
    path: Seq<Name>,
    trail: Seq<Seq<char>>,
    parent: ValueView,
    object_name: Seq<char>,
    first: Selection,
    second: Selection,
    progress: ProgressView,
)
    requires
        inlining(ctx.document.definitions@, first, second),
        !is_cycle(
            selection_outcome(ctx, resolver, path, trail, parent, object_name, first, progress),
        ),
    ensures
        selection_outcome(ctx, resolver, path, trail, parent, object_name, second, progress)
            == selection_outcome(ctx, resolver, path, trail, parent, object_name, first, progress),
    decreases unvisited(ctx.document.definitions@, path), first, 0nat, 0nat,
{
    if first != second {
        match first {
            Selection::FragmentSpread(spread) => {
                lemma_inlined_selection(
                    ctx,
                    resolver,
                    path,
                    trail,
                    parent,
                    object_name,
                    spread,
                    second->InlineFragment_0,
                    progress,
                );
            },
            Selection::Field(a) => {
                let b = second->Field_0;
                if !(should_skip(first) || !should_include(first)) && !ctx.canceled {
                    let here = trail.push(response_key(a)@);
                    let declared = declared_type(*ctx.schema, object_name, a.name@);
                    match bound_arguments(a.arguments@, ctx.variables@) {
                        None => {},
                        Some(arguments) => match resolver.resolution(parent, a.name@, arguments) {
                            Resolution::Value(value) => match declared {
                                Some(ty) => {
                                    lemma_completion_inlined(
                                        ctx,
                                        resolver,
                                        path,
                                        here,
                                        value,
                                        ty,
                                        a.selection_set,
                                        b.selection_set,
                                        progress.errors,
                                    );
                                },
                                None => {
                                    lemma_object_completion_inlined(
                                        ctx,
                                        resolver,
                                        path,
                                        here,
                                        value,
                                        Seq::empty(),
                                        a.selection_set,
                                        b.selection_set,
                                        progress.errors,
                                    );
                                },
                            },
                            _ => {},
                        },
                    }
                }
            },
            Selection::InlineFragment(a) => {
                let b = second->InlineFragment_0;
                if type_applies(*ctx.schema, object_name, a.type_condition) {
                    lemma_selections_inlined(
                        ctx,
                        resolver,
                        path,
                        trail,
                        parent,
                        object_name,
                        a.selection_set.items@,
                        b.selection_set.items@,
                        0,
                        progress,
                    );
                }
            },
        }
    }
}

/// A completion under selections with fragment spreads written inline runs
/// as it does without, where it runs without a cycle.
pub proof fn lemma_completion_inlined<R: Resolver>(
    ctx: ExecutionContext,
    resolver: R,
    path: Seq<Name>,
    trail: Seq<Seq<char>>,
    value: ValueView,
    ty: Type,
    first: SelectionSet,
    second: SelectionSet,
    errors: Seq<FieldErrorView>,
)
    requires
        all_inlining(ctx.document.definitions@, first.items@, second.items@),
        !is_cycle(completion(ctx, resolver, path, trail, value, ty, first, errors)),
    ensures
        completion(ctx, resolver, path, trail, value, ty, second, errors) == completion(
            ctx,
            resolver,
            path,
            trail,
            value,
            ty,
            first,
            errors,
        ),
    decreases unvisited(ctx.document.definitions@, path), first, type_depth(ty) + 1, 0nat,
{
    match ty {
        Type::NonNullType(inner) => {
            lemma_completion_inlined(
                ctx,
                resolver,
                path,
                trail,
                value,
                *inner,
                first,
                second,
                errors,
            );
        },
        Type::ListType(inner) => match value {
            ValueView::List(values) => {
                lemma_list_completion_inlined(
                    ctx,
                    resolver,
                    path,
                    trail,
                    values,
                    0,
                    *inner,
                    first,
                    second,
                    ListProgressView { done: Seq::empty(), failed: false, errors },
                );
            },
            _ => {
                lemma_object_completion_inlined(
                    ctx,
                    resolver,
                    path,
                    trail,
                    value,
                    named_type(*inner)@,
                    first,
                    second,
                    errors,
                );
            },
        },
        Type::NamedType(name) => {
            lemma_object_completion_inlined(
                ctx,
                resolver,
                path,
                trail,
                value,
                name@,
                first,
                second,
                errors,
            );
        },
    }
}

/// The completion of a list under selections with fragment spreads written
/// inline runs as it does without, where it runs without a cycle.
pub proof fn lemma_list_completion_inlined<R: Resolver>(
    ctx: ExecutionContext,
    resolver: R,
    path: Seq<Name>,
    trail: Seq<Seq<char>>,
    values: Seq<ValueView>,
    from: int,
    inner: Type,
    first: SelectionSet,
    second: SelectionSet,
    so_far: ListProgressView,
)
    requires
        all_inlining(ctx.document.definitions@, first.items@, second.items@),
        !is_cycle(list_completion(ctx, resolver, path, trail, values, from, inner, first, so_far)),
    ensures
        list_completion(ctx, resolver, path, trail, values, from, inner, second, so_far)
            == list_completion(ctx, resolver, path, trail, values, from, inner, first, so_far),
    decreases unvisited(ctx.document.definitions@, path), first, type_depth(inner) + 1,
        values.len() - from + 1,
{
    if 0 <= from < values.len() {
        lemma_completion_inlined(
            ctx,
            resolver,
            path,
            trail,
            values[from],
            inner,
            first,
            second,
            so_far.errors,
        );
        match completion(ctx, resolver, path, trail, values[from], inner, first, so_far.errors) {
            Ok(done) => {
                lemma_list_completion_inlined(
                    ctx,
                    resolver,
                    path,
                    trail,
                    values,
                    from + 1,
                    inner,
                    first,
                    second,
                    settle_element(so_far, is_non_null(Some(inner)), done),
                );
            },
            Err(_) => {},
        }
    }
}

/// The completion of an object under selections with fragment spreads
/// written inline runs as it does without, where it runs without a cycle.
pub proof fn lemma_object_completion_inlined<R: Resolver>(
    ctx: ExecutionContext,
    resolver: R,
    path: Seq<Name>,
    trail: Seq<Seq<char>>,
    value: ValueView,
    object_name: Seq<char>,
    first: SelectionSet,
    second: SelectionSet,
    errors: Seq<FieldErrorView>,
)
    requires
        all_inlining(ctx.document.definitions@, first.items@, second.items@),
        !is_cycle(object_completion(ctx, resolver, path, trail, value, object_name, first, errors)),
    ensures
        object_completion(ctx, resolver, path, trail, value, object_name, second, errors)
            == object_completion(ctx, resolver, path, trail, value, object_name, first, errors),
    decreases unvisited(ctx.document.definitions@, path), first, 0nat, 0nat,
{
    if first.items@.len() > 0 && value is Object {
        lemma_selections_inlined(
            ctx,
            resolver,
            path,
            trail,
            value,
            object_name,
            first.items@,
            second.items@,
            0,
            ProgressView { fields: Seq::empty(), nulled: false, errors },
        );
    }
}

/// Fragment spreads are transparent: a request gives the same response, or is
/// aborted by the same error, when fragment spreads of its selection set are
/// replaced by their fragments written inline, at whatever depth of its
/// fields and inline fragments they stand.
pub proof fn law_fragment_spreads_are_transparent<R: Resolver>(
    ctx: ExecutionContext,
    resolver: R,
    parent: ValueView,
    object_name: Seq<char>,
    with_spreads: SelectionSet,
    inlined: SelectionSet,
)
    requires
        all_inlining(ctx.document.definitions@, with_spreads.items@, inlined.items@),
    ensures
        checked_execution(ctx, resolver, parent, object_name, inlined) == checked_execution(
            ctx,
            resolver,
            parent,
            object_name,
            with_spreads,
        ),
{
    law_inlining_keeps_validity(ctx.document.definitions@, with_spreads.items@, inlined.items@);
    if all_acyclic(ctx.document.definitions@, Seq::empty(), with_spreads.items@) {
        let fresh = ProgressView { fields: Seq::empty(), nulled: false, errors: Seq::empty() };
        lemma_selections_acyclic(
            ctx,
            resolver,
            Seq::empty(),
            Seq::empty(),
            parent,
            object_name,
            with_spreads.items@,
            0,
            fresh,
        );
        lemma_selections_inlined(
            ctx,
            resolver,
            Seq::empty(),
            Seq::empty(),
            parent,
            object_name,
            with_spreads.items@,
            inlined.items@,
            0,
            fresh,
        );
    }
}

} // verus!
