//! The parsed form of a request and pure lookups on it.

use vstd::prelude::*;
use crate::error::QueryExecutionError;
use crate::values::Value;

verus! {

/// A name as GraphQL writes it.
pub type Name = String;

/// A type reference.
#[derive(Debug, PartialEq)]
pub enum Type {
    NamedType(Name),
    ListType(Box<Type>),
    NonNullType(Box<Type>),
}

/// A directive applied to a selection or a definition.
#[derive(Clone, Debug, PartialEq)]
pub struct Directive {
    pub name: Name,
    pub arguments: Vec<(Name, Value)>,
}

/// The type a fragment applies to.
#[derive(Clone, Debug, PartialEq)]
pub enum TypeCondition {
    On(Name),
}

/// An ordered list of selections.
#[derive(Debug, PartialEq)]
pub struct SelectionSet {
    pub items: Vec<Selection>,
}

#[derive(Debug, PartialEq)]
pub enum Selection {
    Field(Field),
    FragmentSpread(FragmentSpread),
    InlineFragment(InlineFragment),
}

#[derive(Debug, PartialEq)]
pub struct Field {
    pub alias: Option<Name>,
    pub name: Name,
    pub arguments: Vec<(Name, Value)>,
    pub directives: Vec<Directive>,
    pub selection_set: SelectionSet,
}

/// A reference, by name, to a fragment of the document.
#[derive(Clone, Debug, PartialEq)]
pub struct FragmentSpread {
    pub fragment_name: Name,
    pub directives: Vec<Directive>,
}

#[derive(Debug, PartialEq)]
pub struct InlineFragment {
    pub type_condition: Option<TypeCondition>,
    pub directives: Vec<Directive>,
    pub selection_set: SelectionSet,
}

#[derive(Clone, Debug, PartialEq)]
pub struct VariableDefinition {
    pub name: Name,
    pub var_type: Type,
    pub default_value: Option<Value>,
}

#[derive(Clone, Debug, PartialEq)]
pub struct Query {
    pub name: Option<Name>,
    pub variable_definitions: Vec<VariableDefinition>,
    pub directives: Vec<Directive>,
    pub selection_set: SelectionSet,
}

#[derive(Clone, Debug, PartialEq)]
pub struct Mutation {
    pub name: Option<Name>,
    pub variable_definitions: Vec<VariableDefinition>,
    pub directives: Vec<Directive>,
    pub selection_set: SelectionSet,
}

#[derive(Clone, Debug, PartialEq)]
pub struct Subscription {
    pub name: Option<Name>,
    pub variable_definitions: Vec<VariableDefinition>,
    pub directives: Vec<Directive>,
    pub selection_set: SelectionSet,
}

#[derive(Clone, Debug, PartialEq)]
pub enum OperationDefinition {
    SelectionSet(SelectionSet),
    Query(Query),
    Mutation(Mutation),
    Subscription(Subscription),
}

#[derive(Clone, Debug, PartialEq)]
pub struct FragmentDefinition {
    pub name: Name,
    pub type_condition: TypeCondition,
    pub directives: Vec<Directive>,
    pub selection_set: SelectionSet,
}

#[derive(Clone, Debug, PartialEq)]
pub enum Definition {
    Operation(OperationDefinition),
    Fragment(FragmentDefinition),
}

/// One parsed request.
#[derive(Clone, Debug, PartialEq)]
pub struct Document {
    pub definitions: Vec<Definition>,
}

impl Clone for Type {
    fn clone(&self) -> (copy: Type)
        ensures
            copy == *self,
        decreases self,
    {
        match self {
            Type::NamedType(name) => Type::NamedType(name.clone()),
            Type::ListType(inner) => Type::ListType(Box::new(Type::clone(inner))),
            Type::NonNullType(inner) => Type::NonNullType(Box::new(Type::clone(inner))),
        }
    }
}

impl Clone for SelectionSet {
    fn clone(&self) -> (copy: SelectionSet)
        decreases self,
    {
        let mut items: Vec<Selection> = Vec::new();
        let mut i: usize = 0;
        while i < self.items.len()
            invariant
                i <= self.items.len(),
            decreases self.items.len() - i,
        {
            items.push(self.items[i].clone());
            i += 1;
        }
        SelectionSet { items }
    }
}

impl Clone for Selection {
    fn clone(&self) -> (copy: Selection)
        decreases self,
    {
        match self {
            Selection::Field(field) => Selection::Field(field.clone()),
            Selection::FragmentSpread(spread) => Selection::FragmentSpread(spread.clone()),
            Selection::InlineFragment(inline) => Selection::InlineFragment(inline.clone()),
        }
    }
}

impl Clone for Field {
    fn clone(&self) -> (copy: Field)
        decreases self,
    {
        Field {
            alias: self.alias.clone(),
            name: self.name.clone(),
            arguments: self.arguments.clone(),
            directives: self.directives.clone(),
            selection_set: self.selection_set.clone(),
        }
    }
}

impl Clone for InlineFragment {
    fn clone(&self) -> (copy: InlineFragment)
        decreases self,
    {
        InlineFragment {
            type_condition: self.type_condition.clone(),
            directives: self.directives.clone(),
            selection_set: self.selection_set.clone(),
        }
    }
}

/// The name an operation carries; a bare selection set carries none.
pub open spec fn operation_name(operation: OperationDefinition) -> Option<Name> {
    match operation {
        OperationDefinition::Mutation(m) => m.name,
        OperationDefinition::Query(q) => q.name,
        OperationDefinition::SelectionSet(_) => None,
        OperationDefinition::Subscription(s) => s.name,
    }
}

/// Returns the name of the given operation (if it has one).
pub fn get_operation_name(operation: &OperationDefinition) -> (name: Option<&Name>)
    ensures
        match name {
            Some(n) => operation_name(*operation) == Some(*n),
            None => operation_name(*operation) is None,
        },
{
    match operation {
        OperationDefinition::Mutation(m) => m.name.as_ref(),
        OperationDefinition::Query(q) => q.name.as_ref(),
        OperationDefinition::SelectionSet(_) => None,
        OperationDefinition::Subscription(s) => s.name.as_ref(),
    }
}

/// The key under which a field's value stands in the response.
pub open spec fn response_key(field: Field) -> Name {
    match field.alias {
        Some(alias) => alias,
        None => field.name,
    }
}

/// Returns the response key of a field, which is either its name or its alias (if there is one).
pub fn get_response_key(field: &Field) -> (key: &Name)
    ensures
        *key == response_key(*field),
{
    match &field.alias {
        Some(alias) => alias,
        None => &field.name,
    }
}

/// Whether a lookup that hands out a reference found exactly what the model names.
pub open spec fn refers_to<T>(found: Option<&T>, expected: Option<T>) -> bool {
    match found {
        Some(r) => expected == Some(*r),
        None => expected is None,
    }
}

/// The operations among `definitions`, in document order.
pub open spec fn operations_of(definitions: Seq<Definition>) -> Seq<OperationDefinition>
    decreases definitions.len(),
{
    if definitions.len() == 0 {
        Seq::empty()
    } else {
        let rest = operations_of(definitions.drop_last());
        match definitions.last() {
            Definition::Operation(op) => rest.push(op),
            Definition::Fragment(_) => rest,
        }
    }
}

/// Whether `operation` carries exactly the name `name`.
pub open spec fn is_named(operation: OperationDefinition, name: Seq<char>) -> bool {
    operation_name(operation) matches Some(n) && n@ == name
}

/// The first of `operations` that carries `name`.
pub open spec fn operation_named(operations: Seq<OperationDefinition>, name: Seq<char>) -> Option<
    OperationDefinition,
>
    decreases operations.len(),
{
    if operations.len() == 0 {
        None
    } else if is_named(operations[0], name) {
        Some(operations[0])
    } else {
        operation_named(operations.skip(1), name)
    }
}

/// The first of `directives` whose name is `name`.
pub open spec fn directive_named(directives: Seq<Directive>, name: Seq<char>) -> Option<Directive>
    decreases directives.len(),
{
    if directives.len() == 0 {
        None
    } else if directives[0].name@ == name {
        Some(directives[0])
    } else {
        directive_named(directives.skip(1), name)
    }
}

/// The directive `name` of a selection. Only fields carry directives.
pub open spec fn selection_directive(selection: Selection, name: Seq<char>) -> Option<Directive> {
    match selection {
        Selection::Field(field) => directive_named(field.directives@, name),
        _ => None,
    }
}

/// The value of the first of `arguments` whose name is `name`.
pub open spec fn argument_named(arguments: Seq<(Name, Value)>, name: Seq<char>) -> Option<Value>
    decreases arguments.len(),
{
    if arguments.len() == 0 {
        None
    } else if arguments[0].0@ == name {
        Some(arguments[0].1)
    } else {
        argument_named(arguments.skip(1), name)
    }
}

/// The first fragment among `definitions` whose name is `name`.
pub open spec fn fragment_named(definitions: Seq<Definition>, name: Seq<char>) -> Option<
    FragmentDefinition,
>
    decreases definitions.len(),
{
    if definitions.len() == 0 {
        None
    } else if definitions[0] matches Definition::Fragment(fragment) && fragment.name@ == name {
        Some(definitions[0]->Fragment_0)
    } else {
        fragment_named(definitions.skip(1), name)
    }
}

/// Whether `@skip` removes the selection: the directive is there and its `if`
/// argument is anything but the boolean `false`.
pub open spec fn should_skip(selection: Selection) -> bool {
    match selection_directive(selection, "skip"@) {
        Some(directive) => !(argument_named(directive.arguments@, "if"@) matches Some(
            Value::Boolean(false),
        )),
        None => false,
    }
}

/// Whether `@include` keeps the selection: it does unless the directive is
/// there and its `if` argument is the boolean `false`.
pub open spec fn should_include(selection: Selection) -> bool {
    match selection_directive(selection, "include"@) {
        Some(directive) => !(argument_named(directive.arguments@, "if"@) matches Some(
            Value::Boolean(false),
        )),
        None => true,
    }
}

/// The operation that a request for `name` selects: the only operation of
/// the document where no name is given, else the first operation that
/// carries `name`; `None` where there is no such operation.
pub open spec fn selected_operation(document: Document, name: Option<&str>) -> Option<
    OperationDefinition,
> {
    let operations = operations_of(document.definitions@);
    match name {
        None => if operations.len() == 1 {
            Some(operations[0])
        } else {
            None
        },
        Some(wanted) => operation_named(operations, wanted@),
    }
}

/// The first match wins: what `argument_named` finds stands under the first
/// of the arguments that carries the name, and it finds nothing only where
/// none carries it.
pub proof fn law_first_argument_wins(arguments: Seq<(Name, Value)>, name: Seq<char>)
    ensures
        match argument_named(arguments, name) {
            Some(value) => exists|i: int|
                0 <= i < arguments.len() && (#[trigger] arguments[i]).0@ == name && arguments[i].1
                    == value && forall|j: int| 0 <= j < i ==> (#[trigger] arguments[j]).0@ != name,
            None => forall|i: int| 0 <= i < arguments.len() ==> (#[trigger] arguments[i]).0@ != name,
        },
    decreases arguments.len(),
{
    if arguments.len() > 0 && arguments[0].0@ != name {
        let rest = arguments.skip(1);
        law_first_argument_wins(rest, name);
        match argument_named(rest, name) {
            Some(value) => {
                let i = choose|i: int|
                    0 <= i < rest.len() && (#[trigger] rest[i]).0@ == name && rest[i].1 == value
                        && forall|j: int| 0 <= j < i ==> (#[trigger] rest[j]).0@ != name;
                assert(arguments[i + 1] == rest[i]);
                assert forall|j: int| 0 <= j < i + 1 implies (#[trigger] arguments[j]).0@ != name by {
                    if j > 0 {
                        assert(arguments[j] == rest[j - 1]);
                    }
                }
            },
            None => {
                assert forall|i: int| 0 <= i < arguments.len() implies (#[trigger] arguments[i]).0@
                    != name by {
                    if i > 0 {
                        assert(arguments[i] == rest[i - 1]);
                    }
                }
            },
        }
    } else if arguments.len() > 0 {
        assert(arguments[0].0@ == name);
    }
}

/// The first match wins: what `directive_named` finds is the first of the
/// directives that carries the name, and it finds nothing only where none
/// carries it.
pub proof fn law_first_directive_wins(directives: Seq<Directive>, name: Seq<char>)
    ensures
        match directive_named(directives, name) {
            Some(directive) => exists|i: int|
                0 <= i < directives.len() && #[trigger] directives[i] == directive
                    && directive.name@ == name && forall|j: int|
                    0 <= j < i ==> (#[trigger] directives[j]).name@ != name,
            None => forall|i: int|
                0 <= i < directives.len() ==> (#[trigger] directives[i]).name@ != name,
        },
    decreases directives.len(),
{
    if directives.len() > 0 && directives[0].name@ != name {
        let rest = directives.skip(1);
        law_first_directive_wins(rest, name);
        match directive_named(rest, name) {
            Some(directive) => {
                let i = choose|i: int|
                    0 <= i < rest.len() && #[trigger] rest[i] == directive && directive.name@
                        == name && forall|j: int| 0 <= j < i ==> (#[trigger] rest[j]).name@ != name;
                assert(directives[i + 1] == rest[i]);
                assert forall|j: int| 0 <= j < i + 1 implies (#[trigger] directives[j]).name@
                    != name by {
                    if j > 0 {
                        assert(directives[j] == rest[j - 1]);
                    }
                }
            },
            None => {
                assert forall|i: int| 0 <= i < directives.len() implies (
                #[trigger] directives[i]).name@ != name by {
                    if i > 0 {
                        assert(directives[i] == rest[i - 1]);
                    }
                }
            },
        }
    } else if directives.len() > 0 {
        assert(directives[0].name@ == name);
    }
}

/// A field is skipped exactly where its `@skip` directive does not carry the
/// boolean `false` under `if`: a missing or unusable argument skips.
pub proof fn law_skip(field: Field, directive: Directive)
    requires
        directive_named(field.directives@, "skip"@) == Some(directive),
    ensures
        argument_named(directive.arguments@, "if"@) == Some(Value::Boolean(true)) ==> should_skip(
            Selection::Field(field),
        ),
        argument_named(directive.arguments@, "if"@) == Some(Value::Boolean(false)) ==> !should_skip(
            Selection::Field(field),
        ),
        argument_named(directive.arguments@, "if"@) is None ==> should_skip(Selection::Field(field)),
        (argument_named(directive.arguments@, "if"@) matches Some(value) && !(value is Boolean))
            ==> should_skip(Selection::Field(field)),
{
}

/// A field is left out exactly where its `@include` directive carries the
/// boolean `false` under `if`: a missing or unusable argument includes.
pub proof fn law_include(field: Field, directive: Directive)
    requires
        directive_named(field.directives@, "include"@) == Some(directive),
    ensures
        argument_named(directive.arguments@, "if"@) == Some(Value::Boolean(false))
            ==> !should_include(Selection::Field(field)),
        argument_named(directive.arguments@, "if"@) == Some(Value::Boolean(true))
            ==> should_include(Selection::Field(field)),
        argument_named(directive.arguments@, "if"@) is None ==> should_include(
            Selection::Field(field),
        ),
        (argument_named(directive.arguments@, "if"@) matches Some(value) && !(value is Boolean))
            ==> should_include(Selection::Field(field)),
{
}

/// A selection without the directives is neither skipped nor left out, and
/// only fields carry directives.
pub proof fn law_without_directives(selection: Selection)
    ensures
        selection_directive(selection, "skip"@) is None ==> !should_skip(selection),
        selection_directive(selection, "include"@) is None ==> should_include(selection),
        !(selection is Field) ==> !should_skip(selection) && should_include(selection),
{
}

/// A document with exactly one operation yields it where no name is given,
/// named or not; one with none or several yields none.
pub proof fn law_single_operation(document: Document)
    ensures
        operations_of(document.definitions@).len() == 1 ==> selected_operation(document, None)
            == Some(operations_of(document.definitions@)[0]),
        operations_of(document.definitions@).len() != 1 ==> selected_operation(document, None)
            is None,
{
}

/// Returns all operation definitions in the document.
pub fn get_operations(document: &Document) -> (operations: Vec<&OperationDefinition>)
    ensures
        operations@.len() == operations_of(document.definitions@).len(),
        forall|i: int|
            0 <= i < operations@.len() ==> *operations@[i] == operations_of(
                document.definitions@,
            )[i],
{
    let mut operations: Vec<&OperationDefinition> = Vec::new();
    let mut i: usize = 0;
    while i < document.definitions.len()
        invariant
            i <= document.definitions.len(),
            operations@.len() == operations_of(document.definitions@.take(i as int)).len(),
            forall|j: int|
                0 <= j < operations@.len() ==> *operations@[j] == operations_of(
                    document.definitions@.take(i as int),
                )[j],
        decreases document.definitions.len() - i,
    {
        proof {
            assert(document.definitions@.take(i + 1).drop_last() =~= document.definitions@.take(
                i as int,
            ));
        }
        match &document.definitions[i] {
            Definition::Operation(op) => {
                operations.push(op);
            },
            Definition::Fragment(_) => {},
        }
        i += 1;
    }
    proof {
        assert(document.definitions@.take(i as int) =~= document.definitions@);
    }
    operations
}

/// Returns the operation for the given name (or the only operation if no name is defined).
#[verifier::loop_isolation(false)]
pub fn get_operation<'a>(document: &'a Document, name: Option<&str>) -> (result: Result<
    &'a OperationDefinition,
    QueryExecutionError,
>)
    ensures
        match selected_operation(*document, name) {
            Some(selected) => result matches Ok(op) && *op == selected,
            None => match name {
                None => result matches Err(QueryExecutionError::OperationNameRequired),
                Some(wanted) => result matches Err(QueryExecutionError::OperationNotFound(n)) && n@
                    == wanted@,
            },
        },
{
    let operations = get_operations(document);
    match name {
        None => {
            if operations.len() == 1 {
                Ok(operations[0])
            } else {
                Err(QueryExecutionError::OperationNameRequired)
            }
        },
        Some(wanted) => {
            let wanted_name: String = wanted.to_owned();
            let ghost all = operations_of(document.definitions@);
            let mut i: usize = 0;
            assert(all.skip(0) =~= all);
            while i < operations.len()
                invariant
                    i <= operations.len(),
                    wanted_name@ == wanted@,
                    all == operations_of(document.definitions@),
                    operations@.len() == all.len(),
                    forall|j: int| 0 <= j < operations@.len() ==> *operations@[j] == all[j],
                    operation_named(all, wanted@) == operation_named(all.skip(i as int), wanted@),
                decreases operations.len() - i,
            {
                let op: &OperationDefinition = operations[i];
                proof {
                    assert(all.skip(i as int)[0] == all[i as int]);
                    assert(all.skip(i as int).skip(1) =~= all.skip(i + 1));
                }
                let named = match get_operation_name(op) {
                    Some(n) => *n == wanted_name,
                    None => false,
                };
                if named {
                    return Ok(op);
                }
                i += 1;
            }
            Err(QueryExecutionError::OperationNotFound(wanted_name))
        },
    }
}

/// Looks up a directive in a selection, if it is provided.
#[verifier::loop_isolation(false)]
pub fn get_directive(selection: &Selection, name: Name) -> (directive: Option<&Directive>)
    ensures
        refers_to(directive, selection_directive(*selection, name@)),
{
    match selection {
        Selection::Field(field) => {
            let mut i: usize = 0;
            assert(field.directives@.skip(0) =~= field.directives@);
            while i < field.directives.len()
                invariant
                    i <= field.directives.len(),
                    directive_named(field.directives@, name@) == directive_named(
                        field.directives@.skip(i as int),
                        name@,
                    ),
                decreases field.directives.len() - i,
            {
                proof {
                    assert(field.directives@.skip(i as int)[0] == field.directives@[i as int]);
                    assert(field.directives@.skip(i as int).skip(1) =~= field.directives@.skip(
                        i + 1,
                    ));
                }
                if field.directives[i].name == name {
                    return Some(&field.directives[i]);
                }
                i += 1;
            }
            None
        },
        _ => None,
    }
}

/// Looks up the value of an argument in a vector of (name, value) tuples.
pub fn get_argument_value<'a>(arguments: &'a Vec<(Name, Value)>, name: &Name) -> (value: Option<
    &'a Value,
>)
    ensures
        refers_to(value, argument_named(arguments@, name@)),
{
    let mut i: usize = 0;
    assert(arguments@.skip(0) =~= arguments@);
    while i < arguments.len()
        invariant
            i <= arguments.len(),
            argument_named(arguments@, name@) == argument_named(arguments@.skip(i as int), name@),
        decreases arguments.len() - i,
    {
        proof {
            assert(arguments@.skip(i as int)[0] == arguments@[i as int]);
            assert(arguments@.skip(i as int).skip(1) =~= arguments@.skip(i + 1));
        }
        if arguments[i].0 == *name {
            return Some(&arguments[i].1);
        }
        i += 1;
    }
    None
}

/// Returns true if a selection should be skipped (as per the `@skip` directive).
pub fn skip_selection(selection: &Selection) -> (skip: bool)
    ensures
        skip == should_skip(*selection),
{
    match get_directive(selection, "skip".to_owned()) {
        Some(directive) => match get_argument_value(&directive.arguments, &"if".to_owned()) {
            Some(Value::Boolean(skip_if)) => *skip_if,
            _ => true,
        },
        None => false,
    }
}

/// Returns true if a selection should be included (as per the `@include` directive).
pub fn include_selection(selection: &Selection) -> (keep: bool)
    ensures
        keep == should_include(*selection),
{
    match get_directive(selection, "include".to_owned()) {
        Some(directive) => match get_argument_value(&directive.arguments, &"if".to_owned()) {
            Some(Value::Boolean(include_if)) => *include_if,
            _ => true,
        },
        None => true,
    }
}

/// Returns the fragment with the given name, if it exists.
pub fn get_fragment<'a>(document: &'a Document, name: &Name) -> (fragment: Option<
    &'a FragmentDefinition,
>)
    ensures
        refers_to(fragment, fragment_named(document.definitions@, name@)),
{
    let mut i: usize = 0;
    assert(document.definitions@.skip(0) =~= document.definitions@);
    while i < document.definitions.len()
        invariant
            i <= document.definitions.len(),
            fragment_named(document.definitions@, name@) == fragment_named(
                document.definitions@.skip(i as int),
                name@,
            ),
        decreases document.definitions.len() - i,
    {
        proof {
            assert(document.definitions@.skip(i as int)[0] == document.definitions@[i as int]);
            assert(document.definitions@.skip(i as int).skip(1) =~= document.definitions@.skip(
                i + 1,
            ));
        }
        match &document.definitions[i] {
            Definition::Fragment(fragment) => {
                if fragment.name == *name {
                    return Some(fragment);
                }
            },
            Definition::Operation(_) => {},
        }
        i += 1;
    }
    None
}

} // verus!
