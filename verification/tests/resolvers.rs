use thegraph_graphql::components::data_sources::host::RuntimeHostEvent;
use thegraph_graphql::components::store::{Entity, Store, StoreKey};
use thegraph_graphql::execution::{ResolveError, Resolver};
use thegraph_graphql::introspection::IntrospectionResolver;
use thegraph_graphql::query::ast::{
    Definition, Document, Field, OperationDefinition, Query, Selection, SelectionSet, Type,
};
use thegraph_graphql::query::{execute_query, QueryResult};
use thegraph_graphql::schema::{FieldDefinition, ObjectType, Schema};
use thegraph_graphql::store::{is_list, join, meets_filter, read_count, take_page, StoreResolver};
use thegraph_graphql::values::{find_value, Value};

fn named(name: &str) -> Type {
    Type::NamedType(name.to_string())
}

fn object_type(name: &str, interfaces: Vec<&str>, fields: Vec<(&str, Type)>) -> ObjectType {
    ObjectType {
        name: name.to_string(),
        interfaces: interfaces.into_iter().map(|i| i.to_string()).collect(),
        fields: fields
            .into_iter()
            .map(|(n, t)| FieldDefinition { name: n.to_string(), field_type: t, derived_from: None })
            .collect(),
    }
}

fn schema() -> Schema {
    let mut schema = plain_schema();
    schema.types[1].fields.push(FieldDefinition {
        name: "posts".to_string(),
        field_type: Type::ListType(Box::new(named("Post"))),
        derived_from: Some("author".to_string()),
    });
    schema.types[1].fields.push(FieldDefinition {
        name: "friend".to_string(),
        field_type: named("User"),
        derived_from: Some("friend".to_string()),
    });
    schema
}

fn plain_schema() -> Schema {
    Schema {
        id: "test".to_string(),
        types: vec![
            object_type(
                "Query",
                vec![],
                vec![
                    ("user", named("User")),
                    (
                        "users",
                        Type::NonNullType(Box::new(Type::ListType(Box::new(Type::NonNullType(
                            Box::new(named("User")),
                        ))))),
                    ),
                    ("posts", Type::ListType(Box::new(named("Post")))),
                ],
            ),
            object_type(
                "User",
                vec!["Node"],
                vec![("id", Type::NonNullType(Box::new(named("ID")))), ("name", named("String"))],
            ),
            object_type("Post", vec![], vec![("title", named("String")), ("author", named("ID"))]),
        ],
    }
}

fn s(text: &str) -> Value {
    Value::String(text.to_string())
}

fn object(fields: Vec<(&str, Value)>) -> Value {
    Value::Object(fields.into_iter().map(|(n, v)| (n.to_string(), v)).collect())
}

fn args(pairs: Vec<(&str, Value)>) -> Vec<(String, Value)> {
    pairs.into_iter().map(|(n, v)| (n.to_string(), v)).collect()
}

fn user(id: &str, name: &str) -> Entity {
    Entity { attributes: args(vec![("id", s(id)), ("name", s(name))]) }
}

fn user_object(id: &str, name: &str) -> Value {
    object(vec![("__typename", s("User")), ("id", s(id)), ("name", s(name))])
}

fn post(title: &str, author: &str) -> Entity {
    Entity { attributes: args(vec![("title", s(title)), ("author", s(author))]) }
}

fn post_object(title: &str, author: &str) -> Value {
    object(vec![("__typename", s("Post")), ("title", s(title)), ("author", s(author))])
}

fn filled_store() -> Store {
    let mut store = Store::new(schema());
    let events = vec![
        RuntimeHostEvent::EntityCreated(
            "a".to_string(),
            StoreKey { entity: "User".to_string(), id: "1".to_string() },
            user("1", "Ann"),
        ),
        RuntimeHostEvent::EntityCreated(
            "b".to_string(),
            StoreKey { entity: "User".to_string(), id: "1".to_string() },
            user("1", "Other source"),
        ),
        RuntimeHostEvent::EntityCreated(
            "a".to_string(),
            StoreKey { entity: "Post".to_string(), id: "p".to_string() },
            post("Hello", "1"),
        ),
        RuntimeHostEvent::EntityCreated(
            "a".to_string(),
            StoreKey { entity: "User".to_string(), id: "2".to_string() },
            user("2", "Bob"),
        ),
        RuntimeHostEvent::EntityCreated(
            "a".to_string(),
            StoreKey { entity: "User".to_string(), id: "3".to_string() },
            user("3", "Cid"),
        ),
        RuntimeHostEvent::EntityCreated(
            "a".to_string(),
            StoreKey { entity: "Post".to_string(), id: "q".to_string() },
            post("World", "2"),
        ),
        RuntimeHostEvent::EntityCreated(
            "a".to_string(),
            StoreKey { entity: "Post".to_string(), id: "r".to_string() },
            post("Again", "1"),
        ),
        RuntimeHostEvent::EntityCreated(
            "b".to_string(),
            StoreKey { entity: "Post".to_string(), id: "s".to_string() },
            post("Elsewhere", "1"),
        ),
    ];
    for answer in store.apply_all(events) {
        assert!(answer.is_ok());
    }
    store
}

fn store_resolver(store: &Store) -> StoreResolver<'_> {
    StoreResolver { store, source: "a".to_string(), root: "Query".to_string() }
}

fn root(resolver: &StoreResolver, field: &str, arguments: Vec<(&str, Value)>) -> Result<Value, ResolveError> {
    resolver.resolve(&Value::Null, &field.to_string(), &args(arguments))
}

#[test]
fn a_list_field_reads_the_entities_of_its_type_in_store_order() {
    let store = filled_store();
    let resolver = store_resolver(&store);
    assert_eq!(
        root(&resolver, "users", vec![]),
        Ok(Value::List(vec![
            user_object("1", "Ann"),
            user_object("2", "Bob"),
            user_object("3", "Cid")
        ]))
    );
    assert_eq!(
        root(&resolver, "posts", vec![]),
        Ok(Value::List(vec![
            post_object("Hello", "1"),
            post_object("World", "2"),
            post_object("Again", "1")
        ]))
    );
}

#[test]
fn pagination_skips_then_takes() {
    let store = filled_store();
    let resolver = store_resolver(&store);
    assert_eq!(
        root(&resolver, "users", vec![("skip", Value::Int(1)), ("first", Value::Int(1))]),
        Ok(Value::List(vec![user_object("2", "Bob")]))
    );
    assert_eq!(
        root(&resolver, "users", vec![("first", Value::Int(2))]),
        Ok(Value::List(vec![user_object("1", "Ann"), user_object("2", "Bob")]))
    );
    assert_eq!(
        root(&resolver, "users", vec![("skip", Value::Int(2)), ("first", Value::Int(i64::MAX))]),
        Ok(Value::List(vec![user_object("3", "Cid")]))
    );
    assert_eq!(root(&resolver, "users", vec![("skip", Value::Int(3))]), Ok(Value::List(vec![])));
    assert_eq!(
        root(&resolver, "users", vec![("skip", Value::Int(i64::MAX))]),
        Ok(Value::List(vec![]))
    );
    assert_eq!(root(&resolver, "users", vec![("first", Value::Int(0))]), Ok(Value::List(vec![])));
}

#[test]
fn a_filter_keeps_the_entities_that_meet_it() {
    let store = filled_store();
    let resolver = store_resolver(&store);
    assert_eq!(
        root(&resolver, "users", vec![("where", object(vec![("name", s("Bob"))]))]),
        Ok(Value::List(vec![user_object("2", "Bob")]))
    );
    assert_eq!(
        root(&resolver, "users", vec![("where", object(vec![("name", s("Bob")), ("id", s("3"))]))]),
        Ok(Value::List(vec![]))
    );
    assert_eq!(
        root(&resolver, "users", vec![("where", object(vec![("age", Value::Null)])), ("skip", Value::Int(1))]),
        Ok(Value::List(vec![user_object("2", "Bob"), user_object("3", "Cid")]))
    );
    assert_eq!(
        root(&resolver, "users", vec![("where", object(vec![("age", Value::Int(3))]))]),
        Ok(Value::List(vec![]))
    );
    assert_eq!(
        root(&resolver, "users", vec![("where", object(vec![]))]),
        Ok(Value::List(vec![
            user_object("1", "Ann"),
            user_object("2", "Bob"),
            user_object("3", "Cid")
        ]))
    );
    assert_eq!(
        root(&resolver, "users", vec![("where", s("name"))]),
        Err(ResolveError::Failed("the argument where takes an object".to_string()))
    );
    assert!(meets_filter(&user("1", "Ann"), &args(vec![("id", s("1")), ("name", s("Ann"))])));
    assert!(!meets_filter(&user("1", "Ann"), &args(vec![("id", s("1")), ("name", s("Bob"))])));
    assert!(meets_filter(&user("1", "Ann"), &vec![]));
    assert_eq!(
        join(&args(vec![("a", Value::Int(1))]), &args(vec![("b", Value::Int(2)), ("a", Value::Null)])),
        args(vec![("a", Value::Int(1)), ("b", Value::Int(2)), ("a", Value::Null)])
    );
    assert!(is_list(&Type::NonNullType(Box::new(Type::ListType(Box::new(named("User")))))));
    assert!(is_list(&Type::ListType(Box::new(named("User")))));
    assert!(!is_list(&Type::NonNullType(Box::new(named("User")))));
}

#[test]
fn pagination_arguments_must_be_counts() {
    let store = filled_store();
    let resolver = store_resolver(&store);
    let failure = Err(ResolveError::Failed(
        "the arguments skip and first take integers that are not negative".to_string(),
    ));
    assert_eq!(root(&resolver, "users", vec![("skip", Value::Int(-1))]), failure);
    assert_eq!(root(&resolver, "users", vec![("first", s("2"))]), failure);
}

#[test]
fn a_single_field_reads_the_entity_with_the_id() {
    let store = filled_store();
    let resolver = store_resolver(&store);
    assert_eq!(root(&resolver, "user", vec![("id", s("2"))]), Ok(user_object("2", "Bob")));
    assert_eq!(root(&resolver, "user", vec![("id", s("1"))]), Ok(user_object("1", "Ann")));
    assert_eq!(root(&resolver, "user", vec![("id", s("9"))]), Ok(Value::Null));
    assert_eq!(
        root(&resolver, "user", vec![]),
        Err(ResolveError::Failed("the argument id takes a string".to_string()))
    );
    assert_eq!(
        root(&resolver, "user", vec![("id", Value::Int(2))]),
        Err(ResolveError::Failed("the argument id takes a string".to_string()))
    );
    let other = StoreResolver { store: &store, source: "b".to_string(), root: "Query".to_string() };
    assert_eq!(root(&other, "user", vec![("id", s("1"))]), Ok(user_object("1", "Other source")));
    assert_eq!(root(&other, "user", vec![("id", s("2"))]), Ok(Value::Null));
}

#[test]
fn undeclared_root_fields_fail() {
    let store = filled_store();
    let resolver = store_resolver(&store);
    assert_eq!(
        root(&resolver, "comments", vec![]),
        Err(ResolveError::Failed("the root type does not declare the field".to_string()))
    );
}

#[test]
fn fields_of_an_entity_are_its_attributes() {
    let store = filled_store();
    let resolver = store_resolver(&store);
    let parent = object(vec![("name", s("Ann")), ("name", s("second"))]);
    assert_eq!(resolver.resolve(&parent, &"name".to_string(), &vec![]), Ok(s("Ann")));
    assert_eq!(resolver.resolve(&parent, &"age".to_string(), &vec![]), Ok(Value::Null));
    assert_eq!(resolver.resolve(&parent, &"posts".to_string(), &vec![]), Ok(Value::Null));
    assert_eq!(
        resolver.resolve(&Value::Int(1), &"name".to_string(), &vec![]),
        Err(ResolveError::Failed("the parent value has no fields".to_string()))
    );
}

#[test]
fn a_derived_field_reads_the_entities_that_refer_to_the_parent() {
    let store = filled_store();
    let resolver = store_resolver(&store);
    let ann = user_object("1", "Ann");
    let posts = "posts".to_string();
    assert_eq!(
        resolver.resolve(&ann, &posts, &vec![]),
        Ok(Value::List(vec![post_object("Hello", "1"), post_object("Again", "1")]))
    );
    assert_eq!(
        resolver.resolve(&ann, &posts, &args(vec![("skip", Value::Int(1))])),
        Ok(Value::List(vec![post_object("Again", "1")]))
    );
    assert_eq!(
        resolver.resolve(&ann, &posts, &args(vec![("where", object(vec![("title", s("Hello"))]))])),
        Ok(Value::List(vec![post_object("Hello", "1")]))
    );
    assert_eq!(
        resolver.resolve(&ann, &posts, &args(vec![("where", object(vec![("author", s("2"))]))])),
        Ok(Value::List(vec![]))
    );
    assert_eq!(
        resolver.resolve(&ann, &posts, &args(vec![("first", Value::Int(-1))])),
        Err(ResolveError::Failed(
            "the arguments skip and first take integers that are not negative".to_string()
        ))
    );
    assert_eq!(
        resolver.resolve(&user_object("3", "Cid"), &posts, &vec![]),
        Ok(Value::List(vec![]))
    );
    // A derived field that is no list, a field that is not derived, one that
    // is not declared, and an object without a type or an id: all null.
    assert_eq!(resolver.resolve(&ann, &"friend".to_string(), &vec![]), Ok(Value::Null));
    assert_eq!(resolver.resolve(&ann, &"age".to_string(), &vec![]), Ok(Value::Null));
    assert_eq!(
        resolver.resolve(&object(vec![("id", s("1"))]), &posts, &vec![]),
        Ok(Value::Null)
    );
    assert_eq!(
        resolver.resolve(&object(vec![("__typename", s("User"))]), &posts, &vec![]),
        Ok(Value::Null)
    );
    assert_eq!(
        resolver.resolve(&object(vec![("__typename", s("Nothing")), ("id", s("1"))]), &posts, &vec![]),
        Ok(Value::Null)
    );
}

#[test]
fn helpers_of_the_store_resolver() {
    let pairs = args(vec![("a", Value::Int(1)), ("b", Value::Int(-2)), ("a", Value::Int(3))]);
    assert_eq!(find_value(&pairs, &"a".to_string()), Some(&Value::Int(1)));
    assert_eq!(find_value(&pairs, &"c".to_string()), None);
    assert_eq!(read_count(&pairs, &"a".to_string()), Some(Some(1)));
    assert_eq!(read_count(&pairs, &"b".to_string()), None);
    assert_eq!(read_count(&pairs, &"c".to_string()), Some(None));
    let all = vec![Value::Int(0), Value::Int(1), Value::Int(2), Value::Int(3)];
    assert_eq!(take_page(&all, 1, Some(2)), vec![Value::Int(1), Value::Int(2)]);
    assert_eq!(take_page(&all, 0, None), all);
    assert_eq!(take_page(&all, 4, Some(1)), vec![]);
    assert_eq!(take_page(&all, 3, Some(5)), vec![Value::Int(3)]);
    assert_eq!(take_page(&all, -1, Some(1)), vec![Value::Int(0)]);
    assert_eq!(take_page(&all, 1, Some(-1)), vec![]);
}

fn field(name: &str, arguments: Vec<(&str, Value)>, nested: Vec<Selection>) -> Selection {
    Selection::Field(Field {
        alias: None,
        name: name.to_string(),
        arguments: args(arguments),
        directives: vec![],
        selection_set: SelectionSet { items: nested },
    })
}

fn query(items: Vec<Selection>) -> Document {
    Document {
        definitions: vec![Definition::Operation(OperationDefinition::Query(Query {
            name: None,
            variable_definitions: vec![],
            directives: vec![],
            selection_set: SelectionSet { items },
        }))],
    }
}

#[test]
fn a_query_is_answered_from_the_store() {
    let store = filled_store();
    let resolver = store_resolver(&store);
    let doc = query(vec![
        field(
            "users",
            vec![("first", Value::Variable("n".to_string()))],
            vec![field("name", vec![], vec![]), field("posts", vec![], vec![field("title", vec![], vec![])])],
        ),
        field("user", vec![("id", s("3"))], vec![field("id", vec![], vec![]), field("name", vec![], vec![])]),
    ]);
    let variables = vec![("n".to_string(), Value::Int(2))];
    assert_eq!(
        execute_query(&schema(), &doc, None, variables, false, &resolver),
        Ok(QueryResult {
            data: Some(object(vec![
                (
                    "users",
                    Value::List(vec![
                        object(vec![
                            ("name", s("Ann")),
                            (
                                "posts",
                                Value::List(vec![
                                    object(vec![("title", s("Hello"))]),
                                    object(vec![("title", s("Again"))])
                                ])
                            ),
                        ]),
                        object(vec![
                            ("name", s("Bob")),
                            ("posts", Value::List(vec![object(vec![("title", s("World"))])])),
                        ]),
                    ])
                ),
                ("user", object(vec![("id", s("3")), ("name", s("Cid"))])),
            ])),
            errors: vec![],
        })
    );
}

fn kind(k: &str, name: Value, of: Value) -> Value {
    object(vec![("kind", Value::Enum(k.to_string())), ("name", name), ("ofType", of)])
}

#[test]
fn introspection_describes_a_type() {
    let schema = plain_schema();
    let resolver = IntrospectionResolver { schema: &schema };
    let expected = object(vec![
        ("kind", Value::Enum("OBJECT".to_string())),
        ("name", s("User")),
        (
            "fields",
            Value::List(vec![
                object(vec![
                    ("name", s("id")),
                    ("type", kind("NON_NULL", Value::Null, kind("SCALAR", s("ID"), Value::Null))),
                ]),
                object(vec![("name", s("name")), ("type", kind("SCALAR", s("String"), Value::Null))]),
            ]),
        ),
        ("interfaces", Value::List(vec![kind("INTERFACE", s("Node"), Value::Null)])),
    ]);
    assert_eq!(
        resolver.resolve(&Value::Null, &"__type".to_string(), &args(vec![("name", s("User"))])),
        Ok(expected.clone())
    );
    assert_eq!(resolver.type_object(&schema.types[1]), expected);
    assert_eq!(
        resolver.resolve(&Value::Null, &"__type".to_string(), &args(vec![("name", s("Nothing"))])),
        Ok(Value::Null)
    );
    assert_eq!(
        resolver.resolve(&Value::Null, &"__type".to_string(), &vec![]),
        Err(ResolveError::Failed("the argument name takes a string".to_string()))
    );
    assert_eq!(
        resolver.resolve(&Value::Null, &"users".to_string(), &vec![]),
        Err(ResolveError::Failed("the field is not an introspection field".to_string()))
    );
    assert_eq!(
        resolver.type_reference(&Type::ListType(Box::new(named("Post")))),
        kind("LIST", Value::Null, kind("OBJECT", s("Post"), Value::Null))
    );
}

#[test]
fn introspection_answers_a_query_on_the_schema() {
    let schema = plain_schema();
    let resolver = IntrospectionResolver { schema: &schema };
    let doc = query(vec![field(
        "__schema",
        vec![],
        vec![field("types", vec![], vec![field("name", vec![], vec![])])],
    )]);
    // The meta-fields are not declared by the schema: their objects are read as they are.
    let response = execute_query(&schema, &doc, None, vec![], false, &resolver).unwrap();
    assert_eq!(response.errors, vec![]);
    match response.data {
        Some(Value::Object(fields)) => {
            assert_eq!(fields.len(), 1);
            assert_eq!(fields[0].0, "__schema");
            assert_eq!(fields[0].1, resolver.schema_object());
            match &fields[0].1 {
                Value::Object(meta) => match &meta[0].1 {
                    Value::List(types) => assert_eq!(types.len(), 3),
                    other => panic!("unexpected types: {:?}", other),
                },
                other => panic!("unexpected schema object: {:?}", other),
            }
        }
        other => panic!("unexpected data: {:?}", other),
    }
}
