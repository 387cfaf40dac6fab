use thegraph_graphql::error::QueryExecutionError;
use thegraph_graphql::query::ast::{
    get_argument_value, get_directive, get_fragment, get_operation, get_operation_name,
    get_operations, get_response_key, include_selection, skip_selection, Definition, Directive,
    Document, Field, FragmentDefinition, FragmentSpread, Mutation, OperationDefinition, Query,
    Selection, SelectionSet, Subscription, TypeCondition,
};
use thegraph_graphql::values::Value;

fn empty_set() -> SelectionSet {
    SelectionSet { items: vec![] }
}

fn field(name: &str, alias: Option<&str>, directives: Vec<Directive>) -> Field {
    Field {
        alias: alias.map(|a| a.to_string()),
        name: name.to_string(),
        arguments: vec![],
        directives,
        selection_set: empty_set(),
    }
}

fn directive(name: &str, arguments: Vec<(&str, Value)>) -> Directive {
    Directive {
        name: name.to_string(),
        arguments: arguments.into_iter().map(|(n, v)| (n.to_string(), v)).collect(),
    }
}

fn query(name: Option<&str>) -> OperationDefinition {
    OperationDefinition::Query(Query {
        name: name.map(|n| n.to_string()),
        variable_definitions: vec![],
        directives: vec![],
        selection_set: empty_set(),
    })
}

fn mutation(name: Option<&str>) -> OperationDefinition {
    OperationDefinition::Mutation(Mutation {
        name: name.map(|n| n.to_string()),
        variable_definitions: vec![],
        directives: vec![],
        selection_set: empty_set(),
    })
}

fn subscription(name: Option<&str>) -> OperationDefinition {
    OperationDefinition::Subscription(Subscription {
        name: name.map(|n| n.to_string()),
        variable_definitions: vec![],
        directives: vec![],
        selection_set: empty_set(),
    })
}

fn fragment(name: &str, on: &str) -> FragmentDefinition {
    FragmentDefinition {
        name: name.to_string(),
        type_condition: TypeCondition::On(on.to_string()),
        directives: vec![],
        selection_set: empty_set(),
    }
}

#[test]
fn single_operation_is_selected_without_a_name() {
    let named = Document { definitions: vec![Definition::Operation(query(Some("Users")))] };
    assert_eq!(get_operation(&named, None), Ok(&query(Some("Users"))));

    let anonymous = Document {
        definitions: vec![
            Definition::Fragment(fragment("F", "User")),
            Definition::Operation(OperationDefinition::SelectionSet(empty_set())),
        ],
    };
    assert_eq!(
        get_operation(&anonymous, None),
        Ok(&OperationDefinition::SelectionSet(empty_set()))
    );
}

#[test]
fn several_operations_need_a_name() {
    let doc = Document {
        definitions: vec![
            Definition::Operation(query(Some("A"))),
            Definition::Operation(mutation(Some("B"))),
        ],
    };
    assert_eq!(get_operation(&doc, None), Err(QueryExecutionError::OperationNameRequired));
    assert_eq!(get_operation(&doc, Some("B")), Ok(&mutation(Some("B"))));
    assert_eq!(
        get_operation(&doc, Some("missing")),
        Err(QueryExecutionError::OperationNotFound("missing".to_string()))
    );
}

#[test]
fn no_operation_at_all() {
    let doc = Document { definitions: vec![Definition::Fragment(fragment("F", "User"))] };
    assert_eq!(get_operation(&doc, None), Err(QueryExecutionError::OperationNameRequired));
    assert_eq!(
        get_operation(&doc, Some("A")),
        Err(QueryExecutionError::OperationNotFound("A".to_string()))
    );
    assert!(get_operations(&doc).is_empty());
}

#[test]
fn first_operation_of_a_name_wins() {
    let doc = Document {
        definitions: vec![
            Definition::Operation(OperationDefinition::SelectionSet(empty_set())),
            Definition::Operation(subscription(Some("S"))),
            Definition::Operation(query(Some("S"))),
        ],
    };
    assert_eq!(get_operation(&doc, Some("S")), Ok(&subscription(Some("S"))));
    assert_eq!(get_operations(&doc).len(), 3);
    assert_eq!(get_operations(&doc)[2], &query(Some("S")));
}

#[test]
fn anonymous_operations_never_match_a_name() {
    let doc = Document {
        definitions: vec![Definition::Operation(OperationDefinition::SelectionSet(empty_set()))],
    };
    assert_eq!(
        get_operation(&doc, Some("")),
        Err(QueryExecutionError::OperationNotFound("".to_string()))
    );
    let unnamed_query = Document { definitions: vec![Definition::Operation(query(None))] };
    assert_eq!(
        get_operation(&unnamed_query, Some("Q")),
        Err(QueryExecutionError::OperationNotFound("Q".to_string()))
    );
}

#[test]
fn operation_names() {
    assert_eq!(get_operation_name(&query(Some("Q"))), Some(&"Q".to_string()));
    assert_eq!(get_operation_name(&mutation(Some("M"))), Some(&"M".to_string()));
    assert_eq!(get_operation_name(&subscription(Some("S"))), Some(&"S".to_string()));
    assert_eq!(get_operation_name(&query(None)), None);
    assert_eq!(get_operation_name(&OperationDefinition::SelectionSet(empty_set())), None);
}

#[test]
fn skip_directive() {
    let with = |d: Directive| Selection::Field(field("name", None, vec![d]));
    assert!(skip_selection(&with(directive("skip", vec![("if", Value::Boolean(true))]))));
    assert!(!skip_selection(&with(directive("skip", vec![("if", Value::Boolean(false))]))));
    assert!(skip_selection(&with(directive("skip", vec![]))));
    assert!(skip_selection(&with(directive("skip", vec![("if", Value::Int(0))]))));
    assert!(skip_selection(&with(directive("skip", vec![("unless", Value::Boolean(false))]))));
    assert!(!skip_selection(&with(directive("include", vec![("if", Value::Boolean(true))]))));
    assert!(!skip_selection(&Selection::Field(field("name", None, vec![]))));
}

#[test]
fn include_directive() {
    let with = |d: Directive| Selection::Field(field("name", None, vec![d]));
    assert!(!include_selection(&with(directive("include", vec![("if", Value::Boolean(false))]))));
    assert!(include_selection(&with(directive("include", vec![("if", Value::Boolean(true))]))));
    assert!(include_selection(&with(directive("include", vec![]))));
    assert!(include_selection(&with(directive("include", vec![("if", Value::Null)]))));
    assert!(include_selection(&with(directive("skip", vec![("if", Value::Boolean(false))]))));
    assert!(include_selection(&Selection::Field(field("name", None, vec![]))));
}

#[test]
fn only_fields_carry_directives() {
    let spread = Selection::FragmentSpread(FragmentSpread {
        fragment_name: "F".to_string(),
        directives: vec![directive("skip", vec![("if", Value::Boolean(true))])],
    });
    assert_eq!(get_directive(&spread, "skip".to_string()), None);
    assert!(!skip_selection(&spread));
    assert!(include_selection(&spread));
}

#[test]
fn first_directive_and_first_argument_win() {
    let first = directive("skip", vec![("if", Value::Boolean(false)), ("if", Value::Boolean(true))]);
    let second = directive("skip", vec![("if", Value::Boolean(true))]);
    let selection = Selection::Field(field("name", None, vec![first.clone(), second]));
    assert_eq!(get_directive(&selection, "skip".to_string()), Some(&first));
    assert_eq!(get_directive(&selection, "Skip".to_string()), None);
    assert_eq!(
        get_argument_value(&first.arguments, &"if".to_string()),
        Some(&Value::Boolean(false))
    );
    assert_eq!(get_argument_value(&first.arguments, &"IF".to_string()), None);
    assert!(!skip_selection(&selection));
}

#[test]
fn response_key_is_alias_or_name() {
    assert_eq!(get_response_key(&field("name", Some("label"), vec![])), "label");
    assert_eq!(get_response_key(&field("name", None, vec![])), "name");
}

#[test]
fn fragments_are_found_by_name() {
    let doc = Document {
        definitions: vec![
            Definition::Operation(query(Some("F"))),
            Definition::Fragment(fragment("F", "User")),
            Definition::Fragment(fragment("G", "Post")),
            Definition::Fragment(fragment("F", "Other")),
        ],
    };
    assert_eq!(get_fragment(&doc, &"F".to_string()), Some(&fragment("F", "User")));
    assert_eq!(get_fragment(&doc, &"G".to_string()), Some(&fragment("G", "Post")));
    assert_eq!(get_fragment(&doc, &"H".to_string()), None);
}

#[test]
fn documents_can_be_copied() {
    let nested = Selection::Field(Field {
        alias: Some("a".to_string()),
        name: "n".to_string(),
        arguments: vec![("x".to_string(), Value::List(vec![Value::Int(1)]))],
        directives: vec![directive("skip", vec![("if", Value::Boolean(false))])],
        selection_set: SelectionSet {
            items: vec![
                Selection::FragmentSpread(FragmentSpread {
                    fragment_name: "F".to_string(),
                    directives: vec![],
                }),
                Selection::InlineFragment(thegraph_graphql::query::ast::InlineFragment {
                    type_condition: Some(TypeCondition::On("T".to_string())),
                    directives: vec![],
                    selection_set: SelectionSet { items: vec![Selection::Field(field("leaf", None, vec![]))] },
                }),
            ],
        },
    });
    let doc = Document {
        definitions: vec![
            Definition::Operation(OperationDefinition::SelectionSet(SelectionSet {
                items: vec![nested],
            })),
            Definition::Fragment(fragment("F", "T")),
        ],
    };
    assert_eq!(doc.clone(), doc);
    let ty = thegraph_graphql::query::ast::Type::NonNullType(Box::new(
        thegraph_graphql::query::ast::Type::ListType(Box::new(
            thegraph_graphql::query::ast::Type::NamedType("Int".to_string()),
        )),
    ));
    assert_eq!(ty.clone(), ty);
}
