use thegraph_graphql::components::data_sources::host::RuntimeHostEvent;
use thegraph_graphql::components::data_sources::provider::{DataSourceProviderEvent, SchemaEvent};
use thegraph_graphql::components::store::{
    Entity, EntityChange, EntityChangeOperation, InvalidEvent, InvalidEventReason, Store, StoreKey,
};
use thegraph_graphql::query::ast::Type;
use thegraph_graphql::schema::{value_fits, FieldDefinition, ObjectType, Schema};
use thegraph_graphql::values::Value;

fn named(name: &str) -> Type {
    Type::NamedType(name.to_string())
}

fn schema() -> Schema {
    Schema {
        id: "schema".to_string(),
        types: vec![
            ObjectType {
                name: "User".to_string(),
                interfaces: vec!["Node".to_string()],
                fields: vec![
                    FieldDefinition {
                        name: "id".to_string(),
                        field_type: Type::NonNullType(Box::new(named("ID"))),
                        derived_from: None,
                    },
                    FieldDefinition {
                        name: "name".to_string(),
                        field_type: named("String"),
                        derived_from: None,
                    },
                ],
            },
            ObjectType {
                name: "Post".to_string(),
                interfaces: vec![],
                fields: vec![FieldDefinition {
                    name: "title".to_string(),
                    field_type: named("String"),
                    derived_from: None,
                }],
            },
        ],
    }
}

fn key(entity: &str, id: &str) -> StoreKey {
    StoreKey { entity: entity.to_string(), id: id.to_string() }
}

fn user(name: &str) -> Entity {
    Entity { attributes: vec![("name".to_string(), Value::String(name.to_string()))] }
}

fn created(source: &str, k: StoreKey, e: Entity) -> RuntimeHostEvent {
    RuntimeHostEvent::EntityCreated(source.to_string(), k, e)
}

fn changed(source: &str, k: StoreKey, e: Entity) -> RuntimeHostEvent {
    RuntimeHostEvent::EntityChanged(source.to_string(), k, e)
}

fn removed(source: &str, k: StoreKey) -> RuntimeHostEvent {
    RuntimeHostEvent::EntityRemoved(source.to_string(), k)
}

#[test]
fn created_then_removed_leaves_no_entity() {
    let mut store = Store::new(schema());
    let a = "a".to_string();
    assert_eq!(
        store.apply(created("a", key("User", "1"), user("Ann"))),
        Ok(EntityChange {
            source: a.clone(),
            key: key("User", "1"),
            operation: EntityChangeOperation::Created
        })
    );
    assert_eq!(store.get(&a, &key("User", "1")), Some(&user("Ann")));
    assert_eq!(store.len(), 1);
    assert_eq!(
        store.apply(removed("a", key("User", "1"))),
        Ok(EntityChange {
            source: a.clone(),
            key: key("User", "1"),
            operation: EntityChangeOperation::Removed
        })
    );
    assert_eq!(store.get(&a, &key("User", "1")), None);
    assert_eq!(store.len(), 0);
}

#[test]
fn changed_replaces_in_place() {
    let mut store = Store::new(schema());
    let a = "a".to_string();
    store.apply(created("a", key("User", "1"), user("Ann"))).unwrap();
    store.apply(created("a", key("User", "2"), user("Bob"))).unwrap();
    assert_eq!(
        store.apply(changed("a", key("User", "1"), user("Anna"))),
        Ok(EntityChange {
            source: a.clone(),
            key: key("User", "1"),
            operation: EntityChangeOperation::Changed
        })
    );
    assert_eq!(store.len(), 2);
    assert_eq!(store.get(&a, &key("User", "1")), Some(&user("Anna")));
    assert_eq!(store.get(&a, &key("User", "2")), Some(&user("Bob")));
}

#[test]
fn changed_creates_where_nothing_stood() {
    let mut store = Store::new(schema());
    store.apply(changed("a", key("User", "1"), user("Ann"))).unwrap();
    assert_eq!(store.get(&"a".to_string(), &key("User", "1")), Some(&user("Ann")));
}

#[test]
fn removing_what_is_not_there_is_accepted() {
    let mut store = Store::new(schema());
    assert!(store.apply(removed("a", key("User", "1"))).is_ok());
    assert_eq!(store.len(), 0);
}

#[test]
fn sources_keep_their_own_key_spaces() {
    let a = "a".to_string();
    let b = "b".to_string();
    let orders: Vec<Vec<usize>> = vec![
        vec![0, 1, 2, 3],
        vec![0, 2, 1, 3],
        vec![0, 2, 3, 1],
        vec![2, 0, 1, 3],
        vec![2, 0, 3, 1],
        vec![2, 3, 0, 1],
    ];
    for order in orders {
        let mut store = Store::new(schema());
        store.apply(created("b", key("User", "9"), user("Zed"))).unwrap();
        for step in order {
            let event = match step {
                0 => created("a", key("User", "1"), user("Ann")),
                1 => removed("a", key("User", "1")),
                2 => created("b", key("User", "1"), user("Bob")),
                _ => removed("b", key("User", "1")),
            };
            assert!(store.apply(event).is_ok());
        }
        assert_eq!(store.get(&a, &key("User", "1")), None);
        assert_eq!(store.get(&b, &key("User", "1")), None);
        assert_eq!(store.get(&b, &key("User", "9")), Some(&user("Zed")));
        assert_eq!(store.len(), 1);
    }
}

#[test]
fn a_removal_of_one_source_leaves_the_other_alone() {
    let mut store = Store::new(schema());
    store.apply(created("a", key("User", "1"), user("Ann"))).unwrap();
    store.apply(created("b", key("User", "1"), user("Bob"))).unwrap();
    store.apply(removed("a", key("User", "1"))).unwrap();
    assert_eq!(store.get(&"a".to_string(), &key("User", "1")), None);
    assert_eq!(store.get(&"b".to_string(), &key("User", "1")), Some(&user("Bob")));
}

#[test]
fn unknown_entity_type_is_rejected() {
    let mut store = Store::new(schema());
    store.apply(created("a", key("User", "1"), user("Ann"))).unwrap();
    assert_eq!(
        store.apply(created("b", key("Comment", "1"), user("x"))),
        Err(InvalidEvent { source: "b".to_string(), reason: InvalidEventReason::UnresolvableKey })
    );
    assert_eq!(
        store.apply(removed("b", key("Comment", "1"))),
        Err(InvalidEvent { source: "b".to_string(), reason: InvalidEventReason::UnresolvableKey })
    );
    assert_eq!(store.len(), 1);
    assert_eq!(store.get(&"a".to_string(), &key("User", "1")), Some(&user("Ann")));
}

#[test]
fn empty_id_is_rejected() {
    let mut store = Store::new(schema());
    assert_eq!(
        store.apply(created("a", key("User", ""), user("Ann"))),
        Err(InvalidEvent { source: "a".to_string(), reason: InvalidEventReason::UnresolvableKey })
    );
    assert_eq!(store.len(), 0);
}

#[test]
fn undeclared_attribute_is_rejected() {
    let mut store = Store::new(schema());
    let payload = Entity {
        attributes: vec![
            ("name".to_string(), Value::String("Ann".to_string())),
            ("title".to_string(), Value::String("Dr".to_string())),
        ],
    };
    assert_eq!(
        store.apply(changed("a", key("User", "1"), payload)),
        Err(InvalidEvent { source: "a".to_string(), reason: InvalidEventReason::InvalidPayload })
    );
    assert_eq!(store.get(&"a".to_string(), &key("User", "1")), None);
}

#[test]
fn provider_events_carry_the_data_source() {
    let added = DataSourceProviderEvent::DataSourceAdded("source");
    let removed = DataSourceProviderEvent::DataSourceRemoved("source");
    assert!(matches!(added.clone(), DataSourceProviderEvent::DataSourceAdded("source")));
    assert!(matches!(removed, DataSourceProviderEvent::DataSourceRemoved("source")));
    assert!(matches!(SchemaEvent::SchemaAdded(schema()), SchemaEvent::SchemaAdded(s) if s == schema()));
}

#[test]
fn a_value_that_the_field_type_does_not_take_is_rejected() {
    let mut store = Store::new(schema());
    let rejected =
        Err(InvalidEvent { source: "a".to_string(), reason: InvalidEventReason::InvalidPayload });
    let with = |name: &str, value: Value| Entity { attributes: vec![(name.to_string(), value)] };
    assert_eq!(store.apply(created("a", key("User", "1"), with("name", Value::Int(1)))), rejected);
    assert_eq!(store.apply(created("a", key("User", "1"), with("id", Value::Null))), rejected);
    assert_eq!(
        store.apply(created("a", key("User", "1"), with("name", Value::Variable("v".to_string())))),
        rejected
    );
    assert_eq!(store.len(), 0);
    assert!(store.apply(created("a", key("User", "1"), with("name", Value::Null))).is_ok());
    assert!(store
        .apply(changed("a", key("User", "1"), with("id", Value::String("1".to_string()))))
        .is_ok());
    assert_eq!(store.len(), 1);
}

#[test]
fn values_fit_their_types() {
    let s = Value::String("x".to_string());
    let non_null = |t: Type| Type::NonNullType(Box::new(t));
    let list = |t: Type| Type::ListType(Box::new(t));
    assert!(value_fits(&s, &named("String")));
    assert!(value_fits(&s, &named("ID")));
    assert!(!value_fits(&s, &named("Int")));
    assert!(value_fits(&Value::Int(1), &named("Int")));
    assert!(value_fits(&Value::Int(1), &named("Float")));
    assert!(value_fits(&Value::Float(0), &named("Float")));
    assert!(!value_fits(&Value::Float(0), &named("Int")));
    assert!(value_fits(&Value::Boolean(true), &named("Boolean")));
    assert!(!value_fits(&Value::Boolean(true), &named("String")));
    assert!(value_fits(&s, &named("User")));
    assert!(value_fits(&Value::Enum("RED".to_string()), &named("Color")));
    assert!(!value_fits(&Value::Variable("v".to_string()), &named("Color")));
    assert!(value_fits(&Value::Null, &named("Int")));
    assert!(!value_fits(&Value::Null, &non_null(named("Int"))));
    assert!(value_fits(&Value::Int(1), &non_null(named("Int"))));
    assert!(value_fits(&Value::Null, &list(non_null(named("Int")))));
    assert!(value_fits(&Value::List(vec![]), &non_null(list(named("Int")))));
    assert!(value_fits(&Value::List(vec![Value::Int(1), Value::Null]), &list(named("Int"))));
    assert!(!value_fits(&Value::List(vec![Value::Int(1), Value::Null]), &list(non_null(named("Int")))));
    assert!(!value_fits(&Value::List(vec![Value::Int(1), s.clone()]), &list(named("Int"))));
    assert!(!value_fits(&Value::Int(1), &list(named("Int"))));
    assert!(value_fits(
        &Value::List(vec![Value::List(vec![Value::Int(1)]), Value::Null]),
        &list(list(named("Int")))
    ));
}

#[test]
fn a_channel_is_applied_in_order_and_each_event_answered() {
    let mut store = Store::new(schema());
    let answers = store.apply_all(vec![
        created("a", key("User", "1"), user("Ann")),
        created("a", key("Nothing", "1"), user("x")),
        changed("a", key("User", "1"), user("Anna")),
        removed("a", key("User", "2")),
        created("a", key("User", "2"), user("Bob")),
    ]);
    assert_eq!(answers.len(), 5);
    assert_eq!(
        answers[0],
        Ok(EntityChange {
            source: "a".to_string(),
            key: key("User", "1"),
            operation: EntityChangeOperation::Created
        })
    );
    assert_eq!(
        answers[1],
        Err(InvalidEvent { source: "a".to_string(), reason: InvalidEventReason::UnresolvableKey })
    );
    assert!(answers[2].is_ok() && answers[3].is_ok() && answers[4].is_ok());
    assert_eq!(store.len(), 2);
    assert_eq!(store.get(&"a".to_string(), &key("User", "1")), Some(&user("Anna")));
    assert_eq!(store.get(&"a".to_string(), &key("User", "2")), Some(&user("Bob")));
    assert_eq!(store.entries()[0].entity, user("Anna"));
    assert_eq!(store.get_schema(), &schema());
    assert!(store.apply_all(vec![]).is_empty());
}
