//! Fragment references: how far they may nest, and the check that they form no cycle.

pub mod inlining;

use vstd::prelude::*;
use crate::error::QueryExecutionError;
use crate::query::ast::{
    fragment_named, get_fragment, Definition, Document, FragmentDefinition, FragmentSpread, Name,
    OperationDefinition, Selection, SelectionSet,
};
use crate::schema::lists_name;

verus! {

/// The number of fragment definitions whose name is not on `path`. It bounds
/// how many more fragments can be entered below `path`.
pub open spec fn unvisited(definitions: Seq<Definition>, path: Seq<Name>) -> nat
    decreases definitions.len(),
{
    if definitions.len() == 0 {
        0
    } else {
        let rest = unvisited(definitions.drop_last(), path);
        match definitions.last() {
            Definition::Fragment(fragment) => if lists_name(path, fragment.name@) {
                rest
            } else {
                rest + 1
            },
            Definition::Operation(_) => rest,
        }
    }
}

/// A name is on a path with one more name iff it was on the path or is the new name.
pub proof fn lemma_lists_push(path: Seq<Name>, name: Name, wanted: Seq<char>)
    ensures
        lists_name(path.push(name), wanted) <==> lists_name(path, wanted) || name@ == wanted,
{
    if lists_name(path, wanted) {
        let i = choose|i: int| 0 <= i < path.len() && #[trigger] path[i]@ == wanted;
        assert(path.push(name)[i]@ == wanted);
    }
    if name@ == wanted {
        assert(path.push(name)[path.len() as int]@ == wanted);
    }
    if lists_name(path.push(name), wanted) {
        let i = choose|i: int| 0 <= i < path.push(name).len() && #[trigger] path.push(name)[i]@ == wanted;
        if i < path.len() {
            assert(path[i]@ == wanted);
        }
    }
}

/// What `fragment_named` finds is a fragment definition of that name, and it
/// finds one wherever there is one.
pub proof fn lemma_fragment_named(definitions: Seq<Definition>, name: Seq<char>)
    ensures
        match fragment_named(definitions, name) {
            Some(fragment) => fragment.name@ == name && exists|i: int|
                0 <= i < definitions.len() && #[trigger] definitions[i] == Definition::Fragment(
                    fragment,
                ),
            None => forall|i: int|
                0 <= i < definitions.len() ==> !((#[trigger] definitions[i]) matches Definition::Fragment(
                    f,
                ) && f.name@ == name),
        },
    decreases definitions.len(),
{
    if definitions.len() > 0 {
        if definitions[0] matches Definition::Fragment(f) && f.name@ == name {
        } else {
            lemma_fragment_named(definitions.skip(1), name);
            match fragment_named(definitions, name) {
                Some(fragment) => {
                    let i = choose|i: int|
                        0 <= i < definitions.skip(1).len() && #[trigger] definitions.skip(1)[i]
                            == Definition::Fragment(fragment);
                    assert(definitions[i + 1] == Definition::Fragment(fragment));
                },
                None => {
                    assert forall|i: int| 0 <= i < definitions.len() implies !((
                    #[trigger] definitions[i]) matches Definition::Fragment(f) && f.name@
                        == name) by {
                        if i > 0 {
                            assert(definitions.skip(1)[i - 1] == definitions[i]);
                        }
                    }
                },
            }
        }
    }
}

/// Entering a fragment never adds to what is unvisited, and takes from it
/// where the fragment is defined and was not on the path.
pub proof fn lemma_entering_shrinks(definitions: Seq<Definition>, path: Seq<Name>, name: Name)
    ensures
        unvisited(definitions, path.push(name)) <= unvisited(definitions, path),
        fragment_named(definitions, name@) is Some && !lists_name(path, name@) ==> unvisited(
            definitions,
            path.push(name),
        ) < unvisited(definitions, path),
    decreases definitions.len(),
{
    if definitions.len() > 0 {
        let front = definitions.drop_last();
        lemma_entering_shrinks(front, path, name);
        lemma_fragment_named(definitions, name@);
        lemma_fragment_named(front, name@);
        match definitions.last() {
            Definition::Fragment(fragment) => {
                lemma_lists_push(path, name, fragment.name@);
                if fragment_named(definitions, name@) is Some && !lists_name(path, name@)
                    && fragment.name@ != name@ {
                    let found = fragment_named(definitions, name@)->Some_0;
                    let i = choose|i: int|
                        0 <= i < definitions.len() && #[trigger] definitions[i]
                            == Definition::Fragment(found);
                    assert(front[i] == definitions[i]);
                }
            },
            Definition::Operation(_) => {
                if fragment_named(definitions, name@) is Some {
                    let found = fragment_named(definitions, name@)->Some_0;
                    let i = choose|i: int|
                        0 <= i < definitions.len() && #[trigger] definitions[i]
                            == Definition::Fragment(found);
                    assert(front[i] == definitions[i]);
                }
            },
        }
    }
}

/// Whether the fragment spreads below `selection` ever name a fragment that
/// is being expanded: one on `path`, or one entered on the way down. Fields
/// and inline fragments are looked through; directives and type conditions
/// play no part.
pub open spec fn acyclic(definitions: Seq<Definition>, path: Seq<Name>, selection: Selection) -> bool
    decreases unvisited(definitions, path), selection,
    via acyclic_terminates
{
    match selection {
        Selection::Field(field) => forall|i: int|
            0 <= i < field.selection_set.items@.len() ==> acyclic(
                definitions,
                path,
                #[trigger] field.selection_set.items@[i],
            ),
        Selection::InlineFragment(inline) => forall|i: int|
            0 <= i < inline.selection_set.items@.len() ==> acyclic(
                definitions,
                path,
                #[trigger] inline.selection_set.items@[i],
            ),
        Selection::FragmentSpread(spread) => !lists_name(path, spread.fragment_name@)
            && match fragment_named(definitions, spread.fragment_name@) {
            None => true,
            Some(fragment) => forall|i: int|
                0 <= i < fragment.selection_set.items@.len() ==> acyclic(
                    definitions,
                    path.push(spread.fragment_name),
                    #[trigger] fragment.selection_set.items@[i],
                ),
        },
    }
}

#[via_fn]
proof fn acyclic_terminates(definitions: Seq<Definition>, path: Seq<Name>, selection: Selection) {
    if let Selection::FragmentSpread(spread) = selection {
        lemma_entering_shrinks(definitions, path, spread.fragment_name);
    }
}

/// Whether every selection of `items` is acyclic under `path`.
pub open spec fn all_acyclic(definitions: Seq<Definition>, path: Seq<Name>, items: Seq<Selection>) -> bool {
    forall|i: int| 0 <= i < items.len() ==> acyclic(definitions, path, #[trigger] items[i])
}

/// Whether a spread of the fragment `name` stands below `selection`, at any
/// depth of fields and inline fragments.
pub open spec fn spreads(selection: Selection, name: Seq<char>) -> bool
    decreases selection,
{
    match selection {
        Selection::Field(field) => exists|i: int|
            0 <= i < field.selection_set.items@.len() && spreads(
                #[trigger] field.selection_set.items@[i],
                name,
            ),
        Selection::InlineFragment(inline) => exists|i: int|
            0 <= i < inline.selection_set.items@.len() && spreads(
                #[trigger] inline.selection_set.items@[i],
                name,
            ),
        Selection::FragmentSpread(spread) => spread.fragment_name@ == name,
    }
}

/// Whether a spread of the fragment `name` stands anywhere below `items`.
pub open spec fn any_spreads(items: Seq<Selection>, name: Seq<char>) -> bool {
    exists|i: int| 0 <= i < items.len() && spreads(#[trigger] items[i], name)
}

/// Whether the fragment `from` is defined and its body spreads the fragment `to`.
pub open spec fn refers(definitions: Seq<Definition>, from: Seq<char>, to: Seq<char>) -> bool {
    fragment_named(definitions, from) matches Some(fragment) && any_spreads(
        fragment.selection_set.items@,
        to,
    )
}

/// Whether `names` is a chain of fragments, each referring to the next, whose
/// last refers back to the one at `back`: a cycle with the way that leads to it.
pub open spec fn closes_cycle(definitions: Seq<Definition>, names: Seq<Seq<char>>, back: int) -> bool {
    &&& 0 <= back < names.len()
    &&& forall|i: int|
        #![trigger names[i]]
        0 <= i < names.len() - 1 ==> refers(definitions, names[i], names[i + 1])
    &&& refers(definitions, names[names.len() - 1], names[back])
}

/// The selection set that an operation starts from.
pub open spec fn root_selection_set(operation: OperationDefinition) -> SelectionSet {
    match operation {
        OperationDefinition::SelectionSet(set) => set,
        OperationDefinition::Query(q) => q.selection_set,
        OperationDefinition::Mutation(m) => m.selection_set,
        OperationDefinition::Subscription(s) => s.selection_set,
    }
}

/// A selection that reaches a fragment cycle is not acyclic, whatever the
/// path: a fragment that refers to itself, directly or through others, is
/// detected from every selection that spreads it or a fragment leading to it.
pub proof fn law_cycle_is_detected(
    definitions: Seq<Definition>,
    path: Seq<Name>,
    selection: Selection,
    names: Seq<Seq<char>>,
    back: int,
    j: int,
)
    requires
        closes_cycle(definitions, names, back),
        0 <= j < names.len(),
        spreads(selection, names[j]),
    ensures
        !acyclic(definitions, path, selection),
    decreases unvisited(definitions, path), selection,
{
    match selection {
        Selection::Field(field) => {
            let i = choose|i: int|
                0 <= i < field.selection_set.items@.len() && spreads(
                    #[trigger] field.selection_set.items@[i],
                    names[j],
                );
            law_cycle_is_detected(definitions, path, field.selection_set.items@[i], names, back, j);
        },
        Selection::InlineFragment(inline) => {
            let i = choose|i: int|
                0 <= i < inline.selection_set.items@.len() && spreads(
                    #[trigger] inline.selection_set.items@[i],
                    names[j],
                );
            law_cycle_is_detected(
                definitions,
                path,
                inline.selection_set.items@[i],
                names,
                back,
                j,
            );
        },
        Selection::FragmentSpread(spread) => {
            if !lists_name(path, names[j]) {
                let next = if j < names.len() - 1 {
                    j + 1
                } else {
                    back
                };
                assert(refers(definitions, names[j], names[next]));
                let fragment = fragment_named(definitions, names[j])->Some_0;
                let i = choose|i: int|
                    0 <= i < fragment.selection_set.items@.len() && spreads(
                        #[trigger] fragment.selection_set.items@[i],
                        names[next],
                    );
                lemma_entering_shrinks(definitions, path, spread.fragment_name);
                law_cycle_is_detected(
                    definitions,
                    path.push(spread.fragment_name),
                    fragment.selection_set.items@[i],
                    names,
                    back,
                    next,
                );
            }
        },
    }
}

/// A selection set that reaches a fragment cycle fails the check.
pub proof fn law_cycle_fails_validation(
    definitions: Seq<Definition>,
    items: Seq<Selection>,
    names: Seq<Seq<char>>,
    back: int,
    j: int,
)
    requires
        closes_cycle(definitions, names, back),
        0 <= j < names.len(),
        any_spreads(items, names[j]),
    ensures
        !all_acyclic(definitions, Seq::empty(), items),
{
    let i = choose|i: int| 0 <= i < items.len() && spreads(#[trigger] items[i], names[j]);
    law_cycle_is_detected(definitions, Seq::empty(), items[i], names, back, j);
}

/// What is not acyclic reaches a cycle. `chain` holds the fragments that were
/// entered on the way to `selection`, which are those on `path`; the chain
/// that comes back goes on from it and closes a cycle.
pub proof fn lemma_failure_reaches_cycle(
    definitions: Seq<Definition>,
    path: Seq<Name>,
    chain: Seq<Seq<char>>,
    selection: Selection,
) -> (found: (Seq<Seq<char>>, int))
    requires
        !acyclic(definitions, path, selection),
        chain.len() == path.len(),
        forall|i: int| 0 <= i < path.len() ==> #[trigger] chain[i] == path[i]@,
        forall|i: int|
            #![trigger chain[i]]
            0 <= i < chain.len() - 1 ==> refers(definitions, chain[i], chain[i + 1]),
        chain.len() > 0 ==> forall|target: Seq<char>| #[trigger]
            spreads(selection, target) ==> refers(definitions, chain[chain.len() - 1], target),
    ensures
        closes_cycle(definitions, found.0, found.1),
        chain.len() > 0 ==> found.0[0] == chain[0],
        chain.len() == 0 ==> spreads(selection, found.0[0]),
    decreases unvisited(definitions, path), selection,
{
    match selection {
        Selection::Field(field) => {
            let i = choose|i: int|
                0 <= i < field.selection_set.items@.len() && !acyclic(
                    definitions,
                    path,
                    #[trigger] field.selection_set.items@[i],
                );
            let child = field.selection_set.items@[i];
            assert forall|target: Seq<char>| #[trigger] spreads(child, target) implies spreads(
                selection,
                target,
            ) by {}
            lemma_failure_reaches_cycle(definitions, path, chain, child)
        },
        Selection::InlineFragment(inline) => {
            let i = choose|i: int|
                0 <= i < inline.selection_set.items@.len() && !acyclic(
                    definitions,
                    path,
                    #[trigger] inline.selection_set.items@[i],
                );
            let child = inline.selection_set.items@[i];
            assert forall|target: Seq<char>| #[trigger] spreads(child, target) implies spreads(
                selection,
                target,
            ) by {}
            lemma_failure_reaches_cycle(definitions, path, chain, child)
        },
        Selection::FragmentSpread(spread) => {
            assert(spreads(selection, spread.fragment_name@));
            if lists_name(path, spread.fragment_name@) {
                let k = choose|k: int| 0 <= k < path.len() && #[trigger] path[k]@ == spread.fragment_name@;
                assert(chain[k] == path[k]@);
                (chain, k)
            } else {
                let fragment = fragment_named(definitions, spread.fragment_name@)->Some_0;
                lemma_acyclic_spread(definitions, path, spread, fragment);
                let i = choose|i: int|
                    0 <= i < fragment.selection_set.items@.len() && !acyclic(
                        definitions,
                        path.push(spread.fragment_name),
                        #[trigger] fragment.selection_set.items@[i],
                    );
                let child = fragment.selection_set.items@[i];
                let longer = chain.push(spread.fragment_name@);
                lemma_entering_shrinks(definitions, path, spread.fragment_name);
                assert forall|target: Seq<char>| #[trigger] spreads(child, target) implies refers(
                    definitions,
                    longer[longer.len() - 1],
                    target,
                ) by {
                    assert(any_spreads(fragment.selection_set.items@, target));
                }
                assert forall|n: int|
                    #![trigger longer[n]]
                    0 <= n < longer.len() - 1 implies refers(
                    definitions,
                    longer[n],
                    longer[n + 1],
                ) by {
                    if n < chain.len() - 1 {
                        assert(refers(definitions, chain[n], chain[n + 1]));
                    }
                }
                assert forall|n: int| 0 <= n < path.push(spread.fragment_name).len() implies #[trigger] longer[n]
                    == path.push(spread.fragment_name)[n]@ by {
                    if n < path.len() {
                        assert(chain[n] == path[n]@);
                    }
                }
                lemma_failure_reaches_cycle(
                    definitions,
                    path.push(spread.fragment_name),
                    longer,
                    child,
                )
            }
        },
    }
}

/// The check fails exactly where a cycle is reached: selections are not
/// acyclic iff they spread a fragment that leads into a chain of fragments
/// coming back to one of them.
pub proof fn law_cycles_exactly(definitions: Seq<Definition>, items: Seq<Selection>)
    ensures
        !all_acyclic(definitions, Seq::empty(), items) <==> exists|
            names: Seq<Seq<char>>,
            back: int,
        |
            #[trigger] closes_cycle(definitions, names, back) && any_spreads(items, names[0]),
{
    if !all_acyclic(definitions, Seq::empty(), items) {
        let i = choose|i: int|
            0 <= i < items.len() && !acyclic(definitions, Seq::empty(), #[trigger] items[i]);
        let found = lemma_failure_reaches_cycle(definitions, Seq::empty(), Seq::empty(), items[i]);
        assert(closes_cycle(definitions, found.0, found.1) && any_spreads(items, found.0[0]));
    }
    if exists|names: Seq<Seq<char>>, back: int| #[trigger]
        closes_cycle(definitions, names, back) && any_spreads(items, names[0]) {
        let (names, back) = choose|names: Seq<Seq<char>>, back: int| #[trigger]
            closes_cycle(definitions, names, back) && any_spreads(items, names[0]);
        law_cycle_fails_validation(definitions, items, names, back, 0);
    }
}

/// A spread of a defined fragment that is not on the path is acyclic iff the
/// fragment's body is, under the path with the fragment on it.
pub proof fn lemma_acyclic_spread(
    definitions: Seq<Definition>,
    path: Seq<Name>,
    spread: FragmentSpread,
    fragment: FragmentDefinition,
)
    requires
        fragment_named(definitions, spread.fragment_name@) == Some(fragment),
        !lists_name(path, spread.fragment_name@),
    ensures
        acyclic(definitions, path, Selection::FragmentSpread(spread)) == all_acyclic(
            definitions,
            path.push(spread.fragment_name),
            fragment.selection_set.items@,
        ),
{
    assert(acyclic(definitions, path, Selection::FragmentSpread(spread)) == (match fragment_named(
        definitions,
        spread.fragment_name@,
    ) {
        None => true,
        Some(fragment) => forall|i: int|
            0 <= i < fragment.selection_set.items@.len() ==> acyclic(
                definitions,
                path.push(spread.fragment_name),
                #[trigger] fragment.selection_set.items@[i],
            ),
    }));
}

/// Whether `path` holds `name`.
pub fn path_contains(path: &Vec<Name>, name: &Name) -> (listed: bool)
    ensures
        listed == lists_name(path@, name@),
{
    let mut i: usize = 0;
    while i < path.len()
        invariant
            i <= path.len(),
            forall|j: int| 0 <= j < i ==> path@[j]@ != name@,
        decreases path.len() - i,
    {
        if path[i] == *name {
            return true;
        }
        i += 1;
    }
    false
}

/// Checks every selection of `items` under `path`, which it leaves as it was.
fn check_items(document: &Document, path: &mut Vec<Name>, items: &Vec<Selection>) -> (ok: bool)
    ensures
        final(path)@ == old(path)@,
        ok == all_acyclic(document.definitions@, old(path)@, items@),
    decreases unvisited(document.definitions@, old(path)@), items,
{
    let mut i: usize = 0;
    while i < items.len()
        invariant
            i <= items.len(),
            path@ == old(path)@,
            forall|j: int|
                0 <= j < i ==> acyclic(document.definitions@, old(path)@, #[trigger] items@[j]),
        decreases items.len() - i,
    {
        if !check_selection(document, path, &items[i]) {
            return false;
        }
        i += 1;
    }
    true
}

/// Checks one selection under `path`, which it leaves as it was.
fn check_selection(document: &Document, path: &mut Vec<Name>, selection: &Selection) -> (ok: bool)
    ensures
        final(path)@ == old(path)@,
        ok == acyclic(document.definitions@, old(path)@, *selection),
    decreases unvisited(document.definitions@, old(path)@), selection,
{
    let ghost before = path@;
    match selection {
        Selection::Field(field) => check_items(document, path, &field.selection_set.items),
        Selection::InlineFragment(inline) => check_items(
            document,
            path,
            &inline.selection_set.items,
        ),
        Selection::FragmentSpread(spread) => {
            if path_contains(path, &spread.fragment_name) {
                return false;
            }
            match get_fragment(document, &spread.fragment_name) {
                None => true,
                Some(fragment) => {
                    proof {
                        lemma_entering_shrinks(document.definitions@, before, spread.fragment_name);
                    }
                    path.push(spread.fragment_name.clone());
                    let ok = check_items(document, path, &fragment.selection_set.items);
                    path.pop();
                    assert(path@ =~= before);
                    proof {
                        lemma_acyclic_spread(document.definitions@, before, *spread, *fragment);
                    }
                    ok
                },
            }
        },
    }
}

/// Checks, before anything is resolved, that the fragment spreads reachable
/// from `operation` form no cycle.
pub fn validate_fragments(document: &Document, operation: &OperationDefinition) -> (result: Result<
    (),
    QueryExecutionError,
>)
    ensures
        match result {
            Ok(_) => all_acyclic(
                document.definitions@,
                Seq::empty(),
                root_selection_set(*operation).items@,
            ),
            Err(e) => e == QueryExecutionError::CycleDetected && !all_acyclic(
                document.definitions@,
                Seq::empty(),
                root_selection_set(*operation).items@,
            ),
        },
{
    let set = match operation {
        OperationDefinition::SelectionSet(set) => set,
        OperationDefinition::Query(q) => &q.selection_set,
        OperationDefinition::Mutation(m) => &m.selection_set,
        OperationDefinition::Subscription(s) => &s.selection_set,
    };
    let mut path: Vec<Name> = Vec::new();
    if check_items(document, &mut path, &set.items) {
        Ok(())
    } else {
        Err(QueryExecutionError::CycleDetected)
    }
}

} // verus!
