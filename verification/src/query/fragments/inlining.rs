//! Writing a fragment inline in place of its spread: what it does to the cycle check.

use vstd::prelude::*;
use crate::query::ast::{
    fragment_named, Definition, FragmentSpread, InlineFragment, Name, Selection,
};
use crate::query::fragments::{
    acyclic, all_acyclic, any_spreads, closes_cycle, law_cycle_is_detected, lemma_acyclic_spread,
    lemma_entering_shrinks, lemma_lists_push, refers, spreads, unvisited,
};
use crate::schema::lists_name;

verus! {

/// Whether every name on `small` is on `big`.
pub open spec fn covers(big: Seq<Name>, small: Seq<Name>) -> bool {
    forall|name: Seq<char>| #[trigger] lists_name(small, name) ==> lists_name(big, name)
}

/// Paths that cover one another still do with one more name on both.
pub proof fn lemma_covers_push(big: Seq<Name>, small: Seq<Name>, name: Name)
    requires
        covers(big, small),
    ensures
        covers(big.push(name), small.push(name)),
{
    assert forall|wanted: Seq<char>| #[trigger]
        lists_name(small.push(name), wanted) implies lists_name(big.push(name), wanted) by {
        lemma_lists_push(big, name, wanted);
        lemma_lists_push(small, name, wanted);
        if lists_name(small, wanted) {
            assert(lists_name(big, wanted));
        }
    }
}

/// Whether `inline` is the fragment that `spread` names, written in place:
/// the same type condition over the same selections.
pub open spec fn inlines(
    definitions: Seq<Definition>,
    spread: FragmentSpread,
    inline: InlineFragment,
) -> bool {
    fragment_named(definitions, spread.fragment_name@) matches Some(fragment)
        && inline.type_condition == Some(fragment.type_condition) && inline.selection_set.items@
        == fragment.selection_set.items@
}

/// Whether `second` is `first` with fragment spreads written inline, at
/// any depth of its fields and inline fragments; what is not a spread
/// written inline is the same in both.
pub open spec fn inlining(definitions: Seq<Definition>, first: Selection, second: Selection) -> bool
    decreases first,
{
    first == second || match first {
        Selection::FragmentSpread(spread) => (second matches Selection::InlineFragment(inline)
            && inlines(definitions, spread, inline)),
        Selection::Field(a) => (second matches Selection::Field(b) && a.alias == b.alias && a.name
            == b.name && a.arguments == b.arguments && a.directives == b.directives
            && a.selection_set.items@.len() == b.selection_set.items@.len() && forall|i: int|
            0 <= i < a.selection_set.items@.len() ==> inlining(
                definitions,
                #[trigger] a.selection_set.items@[i],
                b.selection_set.items@[i],
            )),
        Selection::InlineFragment(a) => (second matches Selection::InlineFragment(b)
            && a.type_condition == b.type_condition && a.directives == b.directives
            && a.selection_set.items@.len() == b.selection_set.items@.len() && forall|i: int|
            0 <= i < a.selection_set.items@.len() ==> inlining(
                definitions,
                #[trigger] a.selection_set.items@[i],
                b.selection_set.items@[i],
            )),
    }
}

/// Whether `second` is `first` with fragment spreads written inline.
pub open spec fn all_inlining(
    definitions: Seq<Definition>,
    first: Seq<Selection>,
    second: Seq<Selection>,
) -> bool {
    first.len() == second.len() && forall|i: int|
        0 <= i < first.len() ==> inlining(definitions, #[trigger] first[i], second[i])
}

/// A path with one more name covers the path.
pub proof fn lemma_push_covers(path: Seq<Name>, name: Name)
    ensures
        covers(path.push(name), path),
{
    assert forall|wanted: Seq<char>| #[trigger] lists_name(path, wanted) implies lists_name(
        path.push(name),
        wanted,
    ) by {
        lemma_lists_push(path, name, wanted);
    }
}

/// A selection that is acyclic under a path is acyclic under every path that it covers.
pub proof fn lemma_acyclic_path(
    definitions: Seq<Definition>,
    big: Seq<Name>,
    small: Seq<Name>,
    selection: Selection,
)
    requires
        covers(big, small),
        acyclic(definitions, big, selection),
    ensures
        acyclic(definitions, small, selection),
    decreases unvisited(definitions, big), selection,
{
    match selection {
        Selection::Field(field) => {
            assert forall|i: int| 0 <= i < field.selection_set.items@.len() implies acyclic(
                definitions,
                small,
                #[trigger] field.selection_set.items@[i],
            ) by {
                lemma_acyclic_path(definitions, big, small, field.selection_set.items@[i]);
            }
        },
        Selection::InlineFragment(inline) => {
            assert forall|i: int| 0 <= i < inline.selection_set.items@.len() implies acyclic(
                definitions,
                small,
                #[trigger] inline.selection_set.items@[i],
            ) by {
                lemma_acyclic_path(definitions, big, small, inline.selection_set.items@[i]);
            }
        },
        Selection::FragmentSpread(spread) => {
            assert(!lists_name(big, spread.fragment_name@));
            assert(!lists_name(small, spread.fragment_name@));
            match fragment_named(definitions, spread.fragment_name@) {
                None => {},
                Some(fragment) => {
                    lemma_acyclic_spread(definitions, big, spread, fragment);
                    lemma_acyclic_spread(definitions, small, spread, fragment);
                    lemma_covers_push(big, small, spread.fragment_name);
                    lemma_entering_shrinks(definitions, big, spread.fragment_name);
                    assert forall|i: int|
                        0 <= i < fragment.selection_set.items@.len() implies acyclic(
                        definitions,
                        small.push(spread.fragment_name),
                        #[trigger] fragment.selection_set.items@[i],
                    ) by {
                        lemma_acyclic_path(
                            definitions,
                            big.push(spread.fragment_name),
                            small.push(spread.fragment_name),
                            fragment.selection_set.items@[i],
                        );
                    }
                },
            }
        },
    }
}

/// Whether `chain` is a chain of fragments, each referring to the next, and
/// every fragment spread below `selection` is one that the last of them
/// refers to: `selection` stands in the body of the last.
pub open spec fn descends(
    definitions: Seq<Definition>,
    chain: Seq<Seq<char>>,
    selection: Selection,
) -> bool {
    &&& chain.len() > 0
    &&& forall|i: int|
        #![trigger chain[i]]
        0 <= i < chain.len() - 1 ==> refers(definitions, chain[i], chain[i + 1])
    &&& forall|target: Seq<char>| #[trigger]
        spreads(selection, target) ==> refers(definitions, chain[chain.len() - 1], target)
}

/// Two names put on a path in either order give paths that cover one another.
pub proof fn lemma_swap_covers(path: Seq<Name>, first: Name, second: Name)
    ensures
        covers(path.push(first).push(second), path.push(second).push(first)),
{
    assert forall|wanted: Seq<char>| #[trigger]
        lists_name(path.push(second).push(first), wanted) implies lists_name(
        path.push(first).push(second),
        wanted,
    ) by {
        lemma_lists_push(path, first, wanted);
        lemma_lists_push(path, second, wanted);
        lemma_lists_push(path.push(first), second, wanted);
        lemma_lists_push(path.push(second), first, wanted);
    }
}

/// A selection in the body of a fragment, or of fragments that it leads to,
/// that is acyclic under a path is still acyclic with that fragment on the
/// path: had it spread the fragment, it would close a cycle.
pub proof fn lemma_acyclic_within(
    definitions: Seq<Definition>,
    path: Seq<Name>,
    name: Name,
    selection: Selection,
    chain: Seq<Seq<char>>,
)
    requires
        descends(definitions, chain, selection),
        chain[0] == name@,
        acyclic(definitions, path, selection),
        !lists_name(path, name@),
    ensures
        acyclic(definitions, path.push(name), selection),
    decreases unvisited(definitions, path), selection,
{
    match selection {
        Selection::Field(field) => {
            assert forall|i: int| 0 <= i < field.selection_set.items@.len() implies acyclic(
                definitions,
                path.push(name),
                #[trigger] field.selection_set.items@[i],
            ) by {
                let child = field.selection_set.items@[i];
                assert forall|target: Seq<char>| #[trigger] spreads(child, target) implies refers(
                    definitions,
                    chain[chain.len() - 1],
                    target,
                ) by {
                    assert(spreads(selection, target));
                }
                lemma_acyclic_within(definitions, path, name, child, chain);
            }
        },
        Selection::InlineFragment(inline) => {
            assert forall|i: int| 0 <= i < inline.selection_set.items@.len() implies acyclic(
                definitions,
                path.push(name),
                #[trigger] inline.selection_set.items@[i],
            ) by {
                let child = inline.selection_set.items@[i];
                assert forall|target: Seq<char>| #[trigger] spreads(child, target) implies refers(
                    definitions,
                    chain[chain.len() - 1],
                    target,
                ) by {
                    assert(spreads(selection, target));
                }
                lemma_acyclic_within(definitions, path, name, child, chain);
            }
        },
        Selection::FragmentSpread(spread) => {
            assert(spreads(selection, spread.fragment_name@));
            if spread.fragment_name@ == name@ {
                assert(closes_cycle(definitions, chain, 0));
                law_cycle_is_detected(definitions, path, selection, chain, 0, 0);
            } else {
                lemma_lists_push(path, name, spread.fragment_name@);
                match fragment_named(definitions, spread.fragment_name@) {
                    None => {},
                    Some(fragment) => {
                        let entered = spread.fragment_name;
                        let longer = chain.push(entered@);
                        lemma_acyclic_spread(definitions, path, spread, fragment);
                        lemma_acyclic_spread(definitions, path.push(name), spread, fragment);
                        lemma_entering_shrinks(definitions, path, entered);
                        lemma_lists_push(path, entered, name@);
                        lemma_swap_covers(path, entered, name);
                        assert forall|i: int|
                            0 <= i < fragment.selection_set.items@.len() implies acyclic(
                            definitions,
                            path.push(name).push(entered),
                            #[trigger] fragment.selection_set.items@[i],
                        ) by {
                            let child = fragment.selection_set.items@[i];
                            assert forall|target: Seq<char>| #[trigger]
                                spreads(child, target) implies refers(
                                definitions,
                                longer[longer.len() - 1],
                                target,
                            ) by {
                                assert(any_spreads(fragment.selection_set.items@, target));
                            }
                            assert forall|n: int|
                                #![trigger longer[n]]
                                0 <= n < longer.len() - 1 implies refers(
                                definitions,
                                longer[n],
                                longer[n + 1],
                            ) by {
                                if n < chain.len() - 1 {
                                    assert(refers(definitions, chain[n], chain[n + 1]));
                                }
                            }
                            lemma_acyclic_within(
                                definitions,
                                path.push(entered),
                                name,
                                child,
                                longer,
                            );
                            lemma_acyclic_path(
                                definitions,
                                path.push(entered).push(name),
                                path.push(name).push(entered),
                                child,
                            );
                        }
                    },
                }
            }
        },
    }
}

/// A fragment written inline passes the cycle check iff its spread does,
/// where the fragment is not on the path.
pub proof fn lemma_inline_acyclic(
    definitions: Seq<Definition>,
    path: Seq<Name>,
    spread: FragmentSpread,
    inline: InlineFragment,
)
    requires
        inlines(definitions, spread, inline),
        !lists_name(path, spread.fragment_name@),
    ensures
        acyclic(definitions, path, Selection::InlineFragment(inline)) == acyclic(
            definitions,
            path,
            Selection::FragmentSpread(spread),
        ),
{
    let fragment = fragment_named(definitions, spread.fragment_name@)->Some_0;
    let body = fragment.selection_set.items@;
    let entered = path.push(spread.fragment_name);
    let chain = seq![spread.fragment_name@];
    lemma_acyclic_spread(definitions, path, spread, fragment);
    lemma_push_covers(path, spread.fragment_name);
    if all_acyclic(definitions, entered, body) {
        assert forall|i: int| 0 <= i < body.len() implies acyclic(
            definitions,
            path,
            #[trigger] inline.selection_set.items@[i],
        ) by {
            lemma_acyclic_path(definitions, entered, path, body[i]);
        }
    }
    if acyclic(definitions, path, Selection::InlineFragment(inline)) {
        assert forall|i: int| 0 <= i < body.len() implies acyclic(
            definitions,
            entered,
            #[trigger] body[i],
        ) by {
            let child = body[i];
            assert(child == inline.selection_set.items@[i]);
            assert forall|target: Seq<char>| #[trigger] spreads(child, target) implies refers(
                definitions,
                chain[chain.len() - 1],
                target,
            ) by {
                assert(any_spreads(body, target));
            }
            lemma_acyclic_within(definitions, path, spread.fragment_name, child, chain);
        }
    }
}

/// A selection passes the cycle check with fragment spreads written inline
/// iff it passes it as it is.
pub proof fn lemma_inlining_acyclic(
    definitions: Seq<Definition>,
    first: Selection,
    second: Selection,
)
    requires
        inlining(definitions, first, second),
    ensures
        acyclic(definitions, Seq::empty(), second) == acyclic(definitions, Seq::empty(), first),
    decreases first,
{
    let path = Seq::<Name>::empty();
    if first != second {
        match first {
            Selection::FragmentSpread(spread) => {
                lemma_inline_acyclic(definitions, path, spread, second->InlineFragment_0);
            },
            Selection::Field(a) => {
                let b = second->Field_0;
                assert forall|i: int| 0 <= i < a.selection_set.items@.len() implies acyclic(
                    definitions,
                    path,
                    #[trigger] b.selection_set.items@[i],
                ) == acyclic(definitions, path, a.selection_set.items@[i]) by {
                    lemma_inlining_acyclic(
                        definitions,
                        a.selection_set.items@[i],
                        b.selection_set.items@[i],
                    );
                }
                if acyclic(definitions, path, first) {
                    assert forall|i: int| 0 <= i < b.selection_set.items@.len() implies acyclic(
                        definitions,
                        path,
                        #[trigger] b.selection_set.items@[i],
                    ) by {
                        assert(acyclic(definitions, path, a.selection_set.items@[i]));
                    }
                }
                if acyclic(definitions, path, second) {
                    assert forall|i: int| 0 <= i < a.selection_set.items@.len() implies acyclic(
                        definitions,
                        path,
                        #[trigger] a.selection_set.items@[i],
                    ) by {
                        assert(acyclic(definitions, path, b.selection_set.items@[i]));
                    }
                }
            },
            Selection::InlineFragment(a) => {
                let b = second->InlineFragment_0;
                assert forall|i: int| 0 <= i < a.selection_set.items@.len() implies acyclic(
                    definitions,
                    path,
                    #[trigger] b.selection_set.items@[i],
                ) == acyclic(definitions, path, a.selection_set.items@[i]) by {
                    lemma_inlining_acyclic(
                        definitions,
                        a.selection_set.items@[i],
                        b.selection_set.items@[i],
                    );
                }
                if acyclic(definitions, path, first) {
                    assert forall|i: int| 0 <= i < b.selection_set.items@.len() implies acyclic(
                        definitions,
                        path,
                        #[trigger] b.selection_set.items@[i],
                    ) by {
                        assert(acyclic(definitions, path, a.selection_set.items@[i]));
                    }
                }
                if acyclic(definitions, path, second) {
                    assert forall|i: int| 0 <= i < a.selection_set.items@.len() implies acyclic(
                        definitions,
                        path,
                        #[trigger] a.selection_set.items@[i],
                    ) by {
                        assert(acyclic(definitions, path, b.selection_set.items@[i]));
                    }
                }
            },
        }
    }
}

/// Selections pass the cycle check with fragment spreads written inline iff
/// they pass it as they are.
pub proof fn law_inlining_keeps_validity(
    definitions: Seq<Definition>,
    first: Seq<Selection>,
    second: Seq<Selection>,
)
    requires
        all_inlining(definitions, first, second),
    ensures
        all_acyclic(definitions, Seq::empty(), second) == all_acyclic(
            definitions,
            Seq::empty(),
            first,
        ),
{
    let path = Seq::<Name>::empty();
    assert forall|i: int| 0 <= i < first.len() implies acyclic(definitions, path, #[trigger] second[i])
        == acyclic(definitions, path, first[i]) by {
        lemma_inlining_acyclic(definitions, first[i], second[i]);
    }
    if all_acyclic(definitions, path, first) {
        assert forall|i: int| 0 <= i < second.len() implies acyclic(
            definitions,
            path,
            #[trigger] second[i],
        ) by {
            assert(acyclic(definitions, path, first[i]));
        }
    }
    if all_acyclic(definitions, path, second) {
        assert forall|i: int| 0 <= i < first.len() implies acyclic(
            definitions,
            path,
            #[trigger] first[i],
        ) by {
            assert(acyclic(definitions, path, second[i]));
        }
    }
}

} // verus!
