use thegraph_graphql::error::QueryExecutionError;
use thegraph_graphql::execution::engine::{bind_arguments, bind_value, execute_selection_set};
use thegraph_graphql::execution::{ExecutionContext, ResolveError, Resolver};
use thegraph_graphql::query::ast::{
    Definition, Directive, Document, Field, FragmentDefinition, FragmentSpread, InlineFragment,
    OperationDefinition, Query, Selection, SelectionSet, Type, TypeCondition,
};
use thegraph_graphql::query::fragments::validate_fragments;
use thegraph_graphql::query::{execute_query, FieldError, QueryResult};
use thegraph_graphql::schema::{FieldDefinition, ObjectType, Schema};
use thegraph_graphql::values::Value;

/// Answers from a fixed table: objects hold their fields, and a field whose
/// value is the string "FAIL" fails.
struct TableResolver {
    root: Vec<(String, Value)>,
    canceled_on: Option<String>,
}

impl Resolver for TableResolver {
    fn resolve(
        &self,
        parent: &Value,
        field: &String,
        arguments: &Vec<(String, Value)>,
    ) -> Result<Value, ResolveError> {
        if self.canceled_on.as_ref() == Some(field) {
            return Err(ResolveError::Canceled);
        }
        let table = match parent {
            Value::Null => &self.root,
            Value::Object(fields) => fields,
            _ => return Err(ResolveError::Failed("no fields".to_string())),
        };
        if let Some((_, echoed)) = arguments.iter().find(|(n, _)| n == "echo") {
            return Ok(echoed.clone());
        }
        match table.iter().find(|(n, _)| n == field) {
            Some((_, Value::String(s))) if s == "FAIL" => {
                Err(ResolveError::Failed(format!("cannot resolve {}", field)))
            }
            Some((_, v)) => Ok(v.clone()),
            None => Ok(Value::Null),
        }
    }
}

fn named(name: &str) -> Type {
    Type::NamedType(name.to_string())
}

fn non_null(ty: Type) -> Type {
    Type::NonNullType(Box::new(ty))
}

fn list(ty: Type) -> Type {
    Type::ListType(Box::new(ty))
}

fn object_type(name: &str, interfaces: Vec<&str>, fields: Vec<(&str, Type)>) -> ObjectType {
    ObjectType {
        name: name.to_string(),
        interfaces: interfaces.into_iter().map(|i| i.to_string()).collect(),
        fields: fields
            .into_iter()
            .map(|(n, t)| FieldDefinition { name: n.to_string(), field_type: t, derived_from: None })
            .collect(),
    }
}

fn schema() -> Schema {
    Schema {
        id: "test".to_string(),
        types: vec![
            object_type(
                "Query",
                vec![],
                vec![
                    ("a", named("A")),
                    ("strict", non_null(named("A"))),
                    ("items", list(non_null(named("A")))),
                    ("loose", list(named("A"))),
                    ("name", named("String")),
                    ("must", non_null(named("String"))),
                ],
            ),
            object_type(
                "A",
                vec!["Node"],
                vec![("b", non_null(named("String"))), ("c", named("String")), ("a", named("A"))],
            ),
        ],
    }
}

fn set(items: Vec<Selection>) -> SelectionSet {
    SelectionSet { items }
}

fn field(name: &str, nested: Vec<Selection>) -> Selection {
    Selection::Field(plain_field(name, nested))
}

fn plain_field(name: &str, nested: Vec<Selection>) -> Field {
    Field {
        alias: None,
        name: name.to_string(),
        arguments: vec![],
        directives: vec![],
        selection_set: set(nested),
    }
}

fn aliased(alias: &str, name: &str, nested: Vec<Selection>) -> Selection {
    let mut f = plain_field(name, nested);
    f.alias = Some(alias.to_string());
    Selection::Field(f)
}

fn with_directive(name: &str, directive: &str, flag: Option<bool>) -> Selection {
    let mut f = plain_field(name, vec![]);
    f.directives = vec![Directive {
        name: directive.to_string(),
        arguments: flag.map(|b| ("if".to_string(), Value::Boolean(b))).into_iter().collect(),
    }];
    Selection::Field(f)
}

fn spread(name: &str) -> Selection {
    Selection::FragmentSpread(FragmentSpread { fragment_name: name.to_string(), directives: vec![] })
}

fn inline(on: Option<&str>, items: Vec<Selection>) -> Selection {
    Selection::InlineFragment(InlineFragment {
        type_condition: on.map(|t| TypeCondition::On(t.to_string())),
        directives: vec![],
        selection_set: set(items),
    })
}

fn fragment(name: &str, on: &str, items: Vec<Selection>) -> Definition {
    Definition::Fragment(FragmentDefinition {
        name: name.to_string(),
        type_condition: TypeCondition::On(on.to_string()),
        directives: vec![],
        selection_set: set(items),
    })
}

fn query(items: Vec<Selection>) -> Definition {
    Definition::Operation(OperationDefinition::Query(Query {
        name: None,
        variable_definitions: vec![],
        directives: vec![],
        selection_set: set(items),
    }))
}

fn s(text: &str) -> Value {
    Value::String(text.to_string())
}

fn object(fields: Vec<(&str, Value)>) -> Value {
    Value::Object(fields.into_iter().map(|(n, v)| (n.to_string(), v)).collect())
}

fn resolver(root: Vec<(&str, Value)>) -> TableResolver {
    TableResolver {
        root: root.into_iter().map(|(n, v)| (n.to_string(), v)).collect(),
        canceled_on: None,
    }
}

fn run(document: &Document, resolver: &TableResolver) -> Result<QueryResult, QueryExecutionError> {
    execute_query(&schema(), document, None, vec![], false, resolver)
}

fn error(path: Vec<&str>, message: &str) -> FieldError {
    FieldError {
        path: path.into_iter().map(|p| p.to_string()).collect(),
        message: message.to_string(),
    }
}

#[test]
fn fields_come_out_in_selection_order_under_their_response_keys() {
    let doc = Document {
        definitions: vec![query(vec![
            aliased("label", "name", vec![]),
            field("a", vec![field("c", vec![]), field("b", vec![])]),
            field("name", vec![]),
        ])],
    };
    let r = resolver(vec![
        ("name", s("root")),
        ("a", object(vec![("b", s("bee")), ("c", s("sea")), ("d", s("unselected"))])),
    ]);
    assert_eq!(
        run(&doc, &r),
        Ok(QueryResult {
            data: Some(object(vec![
                ("label", s("root")),
                ("a", object(vec![("c", s("sea")), ("b", s("bee"))])),
                ("name", s("root")),
            ])),
            errors: vec![],
        })
    );
}

#[test]
fn a_repeated_response_key_keeps_its_place_and_takes_the_later_value() {
    let doc = Document {
        definitions: vec![query(vec![
            aliased("x", "name", vec![]),
            field("name", vec![]),
            aliased("x", "must", vec![]),
        ])],
    };
    let r = resolver(vec![("name", s("one")), ("must", s("two"))]);
    assert_eq!(
        run(&doc, &r).unwrap().data,
        Some(object(vec![("x", s("two")), ("name", s("one"))]))
    );
}

#[test]
fn null_propagation_nulls_the_nearest_nullable_ancestor() {
    let doc = Document { definitions: vec![query(vec![field("a", vec![field("b", vec![])])])] };
    let r = resolver(vec![("a", object(vec![("b", s("FAIL"))]))]);
    assert_eq!(
        run(&doc, &r),
        Ok(QueryResult {
            data: Some(object(vec![("a", Value::Null)])),
            errors: vec![error(vec!["a", "b"], "cannot resolve b")],
        })
    );
}

#[test]
fn a_failed_nullable_field_is_null_and_siblings_are_resolved() {
    let doc = Document {
        definitions: vec![query(vec![field(
            "a",
            vec![field("c", vec![]), field("b", vec![])],
        )])],
    };
    let r = resolver(vec![("a", object(vec![("c", s("FAIL")), ("b", s("bee"))]))]);
    assert_eq!(
        run(&doc, &r),
        Ok(QueryResult {
            data: Some(object(vec![("a", object(vec![("c", Value::Null), ("b", s("bee"))]))])),
            errors: vec![error(vec!["a", "c"], "cannot resolve c")],
        })
    );
}

#[test]
fn a_failure_climbs_through_non_null_ancestors_to_the_root() {
    let doc = Document {
        definitions: vec![query(vec![
            field("name", vec![]),
            field("strict", vec![field("b", vec![])]),
        ])],
    };
    let r = resolver(vec![("name", s("root")), ("strict", object(vec![("b", s("FAIL"))]))]);
    assert_eq!(
        run(&doc, &r),
        Ok(QueryResult { data: None, errors: vec![error(vec!["strict", "b"], "cannot resolve b")] })
    );
}

#[test]
fn errors_after_a_nulling_failure_are_still_collected_in_order() {
    let doc = Document {
        definitions: vec![query(vec![field(
            "a",
            vec![field("b", vec![]), field("c", vec![])],
        )])],
    };
    let r = resolver(vec![("a", object(vec![("b", s("FAIL")), ("c", s("FAIL"))]))]);
    assert_eq!(
        run(&doc, &r),
        Ok(QueryResult {
            data: Some(object(vec![("a", Value::Null)])),
            errors: vec![
                error(vec!["a", "b"], "cannot resolve b"),
                error(vec!["a", "c"], "cannot resolve c"),
            ],
        })
    );
}

#[test]
fn a_failed_element_fails_a_list_of_non_null_elements() {
    let doc = Document {
        definitions: vec![query(vec![
            field("items", vec![field("b", vec![])]),
            field("loose", vec![field("b", vec![])]),
        ])],
    };
    let elements =
        Value::List(vec![object(vec![("b", s("one"))]), object(vec![("b", s("FAIL"))])]);
    let r = resolver(vec![("items", elements.clone()), ("loose", elements)]);
    assert_eq!(
        run(&doc, &r),
        Ok(QueryResult {
            data: Some(object(vec![
                ("items", Value::Null),
                ("loose", Value::List(vec![object(vec![("b", s("one"))]), Value::Null])),
            ])),
            errors: vec![
                error(vec!["items", "b"], "cannot resolve b"),
                error(vec!["loose", "b"], "cannot resolve b"),
            ],
        })
    );
}

#[test]
fn skip_takes_precedence_over_include() {
    let mut both = plain_field("name", vec![]);
    both.directives = vec![
        Directive {
            name: "include".to_string(),
            arguments: vec![("if".to_string(), Value::Boolean(true))],
        },
        Directive {
            name: "skip".to_string(),
            arguments: vec![("if".to_string(), Value::Boolean(true))],
        },
    ];
    let doc = Document {
        definitions: vec![query(vec![
            Selection::Field(both),
            with_directive("must", "include", Some(false)),
            with_directive("a", "skip", None),
            aliased("kept", "name", vec![]),
            with_directive("name", "skip", Some(false)),
        ])],
    };
    let r = resolver(vec![("name", s("n")), ("must", s("m")), ("a", s("FAIL"))]);
    assert_eq!(
        run(&doc, &r),
        Ok(QueryResult {
            data: Some(object(vec![("kept", s("n")), ("name", s("n"))])),
            errors: vec![],
        })
    );
}

#[test]
fn a_spread_gives_what_the_inlined_fragment_gives() {
    let body = || vec![field("name", vec![]), field("a", vec![field("c", vec![])])];
    let with_spread = Document {
        definitions: vec![
            query(vec![field("must", vec![]), spread("Parts"), aliased("again", "name", vec![])]),
            fragment("Parts", "Query", body()),
        ],
    };
    let inlined = Document {
        definitions: vec![
            query(vec![
                field("must", vec![]),
                inline(Some("Query"), body()),
                aliased("again", "name", vec![]),
            ]),
            fragment("Parts", "Query", body()),
        ],
    };
    let r = resolver(vec![
        ("name", s("n")),
        ("must", s("m")),
        ("a", object(vec![("c", s("FAIL"))])),
    ]);
    let expected = QueryResult {
        data: Some(object(vec![
            ("must", s("m")),
            ("name", s("n")),
            ("a", object(vec![("c", Value::Null)])),
            ("again", s("n")),
        ])),
        errors: vec![error(vec!["a", "c"], "cannot resolve c")],
    };
    assert_eq!(run(&with_spread, &r), Ok(expected.duplicate()));
    assert_eq!(run(&inlined, &r), Ok(expected));
}

#[test]
fn a_spread_below_a_field_gives_what_the_inlined_fragment_gives() {
    let body = || vec![field("c", vec![]), field("a", vec![field("b", vec![])])];
    let definitions = |inner: Selection| {
        vec![
            query(vec![
                field("name", vec![]),
                inline(None, vec![field("a", vec![field("b", vec![]), inner])]),
            ]),
            fragment("Deep", "A", body()),
        ]
    };
    let with_spread = Document { definitions: definitions(spread("Deep")) };
    let inlined = Document { definitions: definitions(inline(Some("A"), body())) };
    let r = resolver(vec![
        ("name", s("n")),
        (
            "a",
            object(vec![
                ("b", s("bee")),
                ("c", s("FAIL")),
                ("a", object(vec![("b", s("FAIL"))])),
            ]),
        ),
    ]);
    let expected = QueryResult {
        data: Some(object(vec![
            ("name", s("n")),
            ("a", object(vec![("b", s("bee")), ("c", Value::Null), ("a", Value::Null)])),
        ])),
        errors: vec![
            error(vec!["a", "c"], "cannot resolve c"),
            error(vec!["a", "a", "b"], "cannot resolve b"),
        ],
    };
    assert_eq!(run(&with_spread, &r), Ok(expected.duplicate()));
    assert_eq!(run(&inlined, &r), Ok(expected));
}

#[test]
fn a_cyclic_fragment_is_a_cycle_inlined_or_not() {
    let body = || vec![field("name", vec![]), spread("Loop")];
    let with_spread = Document {
        definitions: vec![query(vec![spread("Loop")]), fragment("Loop", "Query", body())],
    };
    let inlined = Document {
        definitions: vec![
            query(vec![inline(Some("Query"), body())]),
            fragment("Loop", "Query", body()),
        ],
    };
    let r = resolver(vec![("name", s("n"))]);
    assert_eq!(run(&with_spread, &r), Err(QueryExecutionError::CycleDetected));
    assert_eq!(run(&inlined, &r), Err(QueryExecutionError::CycleDetected));
}

#[test]
fn fragments_apply_by_type_condition_and_interface() {
    let doc = Document {
        definitions: vec![
            query(vec![field(
                "a",
                vec![
                    spread("OnA"),
                    spread("OnNode"),
                    spread("OnOther"),
                    spread("Undefined"),
                    inline(Some("Other"), vec![field("b", vec![])]),
                    inline(None, vec![aliased("always", "c", vec![])]),
                ],
            )]),
            fragment("OnA", "A", vec![field("c", vec![])]),
            fragment("OnNode", "Node", vec![aliased("viaNode", "c", vec![])]),
            fragment("OnOther", "Other", vec![field("b", vec![])]),
        ],
    };
    let r = resolver(vec![("a", object(vec![("b", s("FAIL")), ("c", s("sea"))]))]);
    assert_eq!(
        run(&doc, &r),
        Ok(QueryResult {
            data: Some(object(vec![(
                "a",
                object(vec![("c", s("sea")), ("viaNode", s("sea")), ("always", s("sea"))])
            )])),
            errors: vec![],
        })
    );
}

#[test]
fn a_fragment_that_spreads_itself_is_a_cycle() {
    let doc = Document {
        definitions: vec![
            query(vec![field("name", vec![]), spread("Loop")]),
            fragment("Loop", "Query", vec![field("name", vec![]), spread("Loop")]),
        ],
    };
    assert_eq!(run(&doc, &resolver(vec![])), Err(QueryExecutionError::CycleDetected));
}

#[test]
fn a_cycle_through_other_fragments_and_fields_is_detected() {
    let doc = Document {
        definitions: vec![
            query(vec![field("a", vec![spread("First")])]),
            fragment("First", "A", vec![inline(None, vec![spread("Second")])]),
            fragment("Second", "A", vec![field("a", vec![spread("Third")])]),
            fragment("Third", "Other", vec![spread("First")]),
        ],
    };
    let operation = match &doc.definitions[0] {
        Definition::Operation(op) => op,
        _ => unreachable!(),
    };
    assert_eq!(validate_fragments(&doc, operation), Err(QueryExecutionError::CycleDetected));
    // Nothing is resolved before the cycle is found: the resolver would fail the request otherwise.
    let mut r = resolver(vec![("a", Value::Null)]);
    r.canceled_on = Some("a".to_string());
    assert_eq!(run(&doc, &r), Err(QueryExecutionError::CycleDetected));
}

#[test]
fn a_fragment_used_twice_is_no_cycle() {
    let doc = Document {
        definitions: vec![
            query(vec![spread("Name"), field("a", vec![spread("Sea"), spread("Sea")])]),
            fragment("Name", "Query", vec![field("name", vec![]), spread("Unused")]),
            fragment("Sea", "A", vec![field("c", vec![])]),
            fragment("Unused", "Nothing", vec![]),
            fragment("Elsewhere", "A", vec![spread("Elsewhere")]),
        ],
    };
    let operation = match &doc.definitions[0] {
        Definition::Operation(op) => op,
        _ => unreachable!(),
    };
    assert_eq!(validate_fragments(&doc, operation), Ok(()));
    let r = resolver(vec![("name", s("n")), ("a", object(vec![("c", s("sea"))]))]);
    assert_eq!(
        run(&doc, &r).unwrap().data,
        Some(object(vec![("name", s("n")), ("a", object(vec![("c", s("sea"))]))]))
    );
}

#[test]
fn the_engine_itself_refuses_to_expand_a_fragment_within_itself() {
    let document = Document {
        definitions: vec![fragment("Loop", "Query", vec![field("name", vec![]), spread("Loop")])],
    };
    let schema = schema();
    let operation = OperationDefinition::SelectionSet(set(vec![]));
    let ctx = ExecutionContext {
        schema: &schema,
        document: &document,
        operation: &operation,
        variables: vec![],
        canceled: false,
    };
    let r = resolver(vec![("name", s("n"))]);
    assert_eq!(
        execute_selection_set(&ctx, &r, &Value::Null, &"Query".to_string(), &set(vec![spread("Loop")])),
        Err(QueryExecutionError::CycleDetected)
    );
}

#[test]
fn cancellation_aborts_the_request() {
    let doc = Document { definitions: vec![query(vec![field("name", vec![]), field("must", vec![])])] };
    let r = resolver(vec![("name", s("n"))]);
    assert_eq!(
        execute_query(&schema(), &doc, None, vec![], true, &r),
        Err(QueryExecutionError::Canceled)
    );
    let mut late = resolver(vec![("name", s("n"))]);
    late.canceled_on = Some("must".to_string());
    assert_eq!(run(&doc, &late), Err(QueryExecutionError::Canceled));
    let empty = Document { definitions: vec![query(vec![])] };
    assert_eq!(
        execute_query(&schema(), &empty, None, vec![], true, &r),
        Ok(QueryResult { data: Some(object(vec![])), errors: vec![] })
    );
}

#[test]
fn operation_selection_errors_abort_the_request() {
    let doc = Document { definitions: vec![query(vec![]), query(vec![])] };
    let r = resolver(vec![]);
    assert_eq!(run(&doc, &r), Err(QueryExecutionError::OperationNameRequired));
    assert_eq!(
        execute_query(&schema(), &doc, Some("missing"), vec![], false, &r),
        Err(QueryExecutionError::OperationNotFound("missing".to_string()))
    );
}

#[test]
fn variables_are_put_into_arguments() {
    let mut echo = plain_field("name", vec![]);
    echo.arguments = vec![(
        "echo".to_string(),
        Value::List(vec![
            Value::Variable("who".to_string()),
            object(vec![("inner", Value::Variable("who".to_string())), ("n", Value::Int(1))]),
        ]),
    )];
    let mut unbound = plain_field("must", vec![]);
    unbound.arguments = vec![("echo".to_string(), Value::Variable("nobody".to_string()))];
    let doc = Document {
        definitions: vec![query(vec![Selection::Field(echo), Selection::Field(unbound)])],
    };
    let r = resolver(vec![]);
    let variables = vec![("who".to_string(), s("me")), ("who".to_string(), s("shadowed"))];
    assert_eq!(
        execute_query(&schema(), &doc, None, variables, false, &r),
        Ok(QueryResult {
            data: None,
            errors: vec![error(
                vec!["must"],
                "argument refers to a variable that is not bound"
            )],
        })
    );
    let variables = vec![("who".to_string(), s("me")), ("nobody".to_string(), s("somebody"))];
    assert_eq!(
        execute_query(&schema(), &doc, None, variables, false, &r).unwrap().data,
        Some(object(vec![
            ("name", Value::List(vec![s("me"), object(vec![("inner", s("me")), ("n", Value::Int(1))])])),
            ("must", s("somebody")),
        ]))
    );
}

#[test]
fn binding_values() {
    let variables = vec![("x".to_string(), Value::Int(7))];
    assert_eq!(bind_value(&Value::Variable("x".to_string()), &variables), Some(Value::Int(7)));
    assert_eq!(bind_value(&Value::Variable("y".to_string()), &variables), None);
    assert_eq!(bind_value(&Value::Enum("E".to_string()), &variables), Some(Value::Enum("E".to_string())));
    assert_eq!(
        bind_value(&Value::List(vec![Value::Float(1), Value::Variable("y".to_string())]), &variables),
        None
    );
    assert_eq!(
        bind_arguments(&vec![("a".to_string(), Value::Variable("x".to_string()))], &variables),
        Some(vec![("a".to_string(), Value::Int(7))])
    );
    assert_eq!(
        bind_arguments(&vec![("a".to_string(), object(vec![("b", Value::Variable("y".to_string()))]))], &variables),
        None
    );
}

#[test]
fn undeclared_fields_are_nullable_and_their_objects_have_no_type() {
    let doc = Document {
        definitions: vec![query(vec![field(
            "extra",
            vec![field("x", vec![]), inline(Some("A"), vec![field("c", vec![])]), field("y", vec![])],
        )])],
    };
    let r = resolver(vec![("extra", object(vec![("x", s("FAIL")), ("y", s("why")), ("c", s("sea"))]))]);
    assert_eq!(
        run(&doc, &r),
        Ok(QueryResult {
            data: Some(object(vec![("extra", object(vec![("x", Value::Null), ("y", s("why"))]))])),
            errors: vec![error(vec!["extra", "x"], "cannot resolve x")],
        })
    );
}
