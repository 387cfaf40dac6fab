//! The introspection resolver: resolves the meta-fields that describe the
//! schema itself, from the schema alone.

use vstd::prelude::*;
use crate::execution::{Resolution, ResolveError, Resolver};
use crate::query::ast::{Name, Type};
use crate::schema::{object_type_named, FieldDefinition, ObjectType, Schema};
use crate::values::{
    attribute, find_value, lemma_pairs_view_push, lemma_values_view_push, pairs_view, value_named,
    values_view, Value, ValueView,
};

verus! {

/// An object of three fields.
pub open spec fn object3(
    first: (Seq<char>, ValueView),
    second: (Seq<char>, ValueView),
    third: (Seq<char>, ValueView),
) -> ValueView {
    ValueView::Object(Seq::empty().push(first).push(second).push(third))
}

/// The reference to a named type: an object type where the schema defines
/// one of the name, a scalar where it does not.
pub open spec fn named_reference(schema: Schema, name: Seq<char>) -> ValueView {
    object3(
        (
            "kind"@,
            ValueView::Enum(
                if object_type_named(schema.types@, name) is Some {
                    "OBJECT"@
                } else {
                    "SCALAR"@
                },
            ),
        ),
        ("name"@, ValueView::String(name)),
        ("ofType"@, ValueView::Null),
    )
}

/// The meta-object of a type reference: its kind, its name where it is a
/// named type, and the type it wraps where it is a list or non-null.
pub open spec fn type_reference(schema: Schema, ty: Type) -> ValueView
    decreases ty,
{
    match ty {
        Type::NamedType(name) => named_reference(schema, name@),
        Type::ListType(inner) => object3(
            ("kind"@, ValueView::Enum("LIST"@)),
            ("name"@, ValueView::Null),
            ("ofType"@, type_reference(schema, *inner)),
        ),
        Type::NonNullType(inner) => object3(
            ("kind"@, ValueView::Enum("NON_NULL"@)),
            ("name"@, ValueView::Null),
            ("ofType"@, type_reference(schema, *inner)),
        ),
    }
}

/// The meta-object of a field: its name and its type.
pub open spec fn field_object(schema: Schema, field: FieldDefinition) -> ValueView {
    ValueView::Object(
        Seq::empty().push(("name"@, ValueView::String(field.name@))).push(
            ("type"@, type_reference(schema, field.field_type)),
        ),
    )
}

/// The meta-objects of fields, in order.
pub open spec fn field_objects(schema: Schema, fields: Seq<FieldDefinition>) -> Seq<ValueView>
    decreases fields.len(),
{
    if fields.len() == 0 {
        Seq::empty()
    } else {
        field_objects(schema, fields.drop_last()).push(field_object(schema, fields.last()))
    }
}

/// The references to the interfaces of a type, in order.
pub open spec fn interface_objects(names: Seq<Name>) -> Seq<ValueView>
    decreases names.len(),
{
    if names.len() == 0 {
        Seq::empty()
    } else {
        interface_objects(names.drop_last()).push(
            object3(
                ("kind"@, ValueView::Enum("INTERFACE"@)),
                ("name"@, ValueView::String(names.last()@)),
                ("ofType"@, ValueView::Null),
            ),
        )
    }
}

/// The meta-object of an object type: its kind, name, fields and interfaces.
pub open spec fn type_object(schema: Schema, object_type: ObjectType) -> ValueView {
    ValueView::Object(
        Seq::empty().push(("kind"@, ValueView::Enum("OBJECT"@))).push(
            ("name"@, ValueView::String(object_type.name@)),
        ).push(("fields"@, ValueView::List(field_objects(schema, object_type.fields@)))).push(
            ("interfaces"@, ValueView::List(interface_objects(object_type.interfaces@))),
        ),
    )
}

/// The meta-objects of types, in order.
pub open spec fn type_objects(schema: Schema, types: Seq<ObjectType>) -> Seq<ValueView>
    decreases types.len(),
{
    if types.len() == 0 {
        Seq::empty()
    } else {
        type_objects(schema, types.drop_last()).push(type_object(schema, types.last()))
    }
}

/// The meta-object of the schema: its types.
pub open spec fn schema_object(schema: Schema) -> ValueView {
    ValueView::Object(
        Seq::empty().push(("types"@, ValueView::List(type_objects(schema, schema.types@)))),
    )
}

/// Resolves meta-fields from the schema; it never reads the store.
pub struct IntrospectionResolver<'a> {
    pub schema: &'a Schema,
}

/// `fields` with one more pair.
fn with_pair(fields: Vec<(Name, Value)>, name: &str, value: Value) -> (longer: Vec<(Name, Value)>)
    ensures
        pairs_view(longer@) == pairs_view(fields@).push((name@, value@)),
{
    let mut fields = fields;
    let pair = (name.to_owned(), value);
    proof {
        lemma_pairs_view_push(fields@, pair);
    }
    fields.push(pair);
    fields
}

/// No pairs.
fn no_pairs() -> (fields: Vec<(Name, Value)>)
    ensures
        pairs_view(fields@) == Seq::<(Seq<char>, ValueView)>::empty(),
{
    Vec::new()
}

impl<'a> IntrospectionResolver<'a> {
    /// The reference to a named type.
    pub fn named_reference(&self, name: &Name) -> (object: Value)
        ensures
            object@ == named_reference(*self.schema, name@),
    {
        let kind = if self.schema.get_object_type(name).is_some() {
            "OBJECT"
        } else {
            "SCALAR"
        };
        let fields = with_pair(no_pairs(), "kind", Value::Enum(kind.to_owned()));
        let fields = with_pair(fields, "name", Value::String(name.clone()));
        let fields = with_pair(fields, "ofType", Value::Null);
        Value::Object(fields)
    }

    /// The meta-object of a type reference.
    pub fn type_reference(&self, ty: &Type) -> (object: Value)
        ensures
            object@ == type_reference(*self.schema, *ty),
        decreases ty,
    {
        match ty {
            Type::NamedType(name) => self.named_reference(name),
            Type::ListType(inner) => {
                let wrapped = self.type_reference(inner);
                let fields = with_pair(no_pairs(), "kind", Value::Enum("LIST".to_owned()));
                let fields = with_pair(fields, "name", Value::Null);
                let fields = with_pair(fields, "ofType", wrapped);
                Value::Object(fields)
            },
            Type::NonNullType(inner) => {
                let wrapped = self.type_reference(inner);
                let fields = with_pair(no_pairs(), "kind", Value::Enum("NON_NULL".to_owned()));
                let fields = with_pair(fields, "name", Value::Null);
                let fields = with_pair(fields, "ofType", wrapped);
                Value::Object(fields)
            },
        }
    }

    /// The meta-object of an object type.
    pub fn type_object(&self, object_type: &ObjectType) -> (object: Value)
        ensures
            object@ == type_object(*self.schema, *object_type),
    {
        let mut fields: Vec<Value> = Vec::new();
        let mut i: usize = 0;
        while i < object_type.fields.len()
            invariant
                i <= object_type.fields.len(),
                values_view(fields@) == field_objects(
                    *self.schema,
                    object_type.fields@.take(i as int),
                ),
            decreases object_type.fields.len() - i,
        {
            let field = &object_type.fields[i];
            let pairs = with_pair(no_pairs(), "name", Value::String(field.name.clone()));
            let pairs = with_pair(pairs, "type", self.type_reference(&field.field_type));
            let object = Value::Object(pairs);
            proof {
                lemma_values_view_push(fields@, object);
                assert(object_type.fields@.take(i + 1).drop_last() =~= object_type.fields@.take(
                    i as int,
                ));
            }
            fields.push(object);
            i += 1;
        }
        assert(object_type.fields@.take(i as int) =~= object_type.fields@);
        let mut interfaces: Vec<Value> = Vec::new();
        let mut j: usize = 0;
        while j < object_type.interfaces.len()
            invariant
                j <= object_type.interfaces.len(),
                values_view(interfaces@) == interface_objects(
                    object_type.interfaces@.take(j as int),
                ),
            decreases object_type.interfaces.len() - j,
        {
            let pairs = with_pair(no_pairs(), "kind", Value::Enum("INTERFACE".to_owned()));
            let pairs = with_pair(pairs, "name", Value::String(object_type.interfaces[j].clone()));
            let pairs = with_pair(pairs, "ofType", Value::Null);
            let object = Value::Object(pairs);
            proof {
                lemma_values_view_push(interfaces@, object);
                assert(object_type.interfaces@.take(j + 1).drop_last()
                    =~= object_type.interfaces@.take(j as int));
            }
            interfaces.push(object);
            j += 1;
        }
        assert(object_type.interfaces@.take(j as int) =~= object_type.interfaces@);
        let pairs = with_pair(no_pairs(), "kind", Value::Enum("OBJECT".to_owned()));
        let pairs = with_pair(pairs, "name", Value::String(object_type.name.clone()));
        let pairs = with_pair(pairs, "fields", Value::List(fields));
        let pairs = with_pair(pairs, "interfaces", Value::List(interfaces));
        Value::Object(pairs)
    }

    /// The meta-object of the schema.
    pub fn schema_object(&self) -> (object: Value)
        ensures
            object@ == schema_object(*self.schema),
    {
        let mut types: Vec<Value> = Vec::new();
        let mut i: usize = 0;
        while i < self.schema.types.len()
            invariant
                i <= self.schema.types.len(),
                values_view(types@) == type_objects(*self.schema, self.schema.types@.take(i as int)),
            decreases self.schema.types.len() - i,
        {
            let object = self.type_object(&self.schema.types[i]);
            proof {
                lemma_values_view_push(types@, object);
                assert(self.schema.types@.take(i + 1).drop_last() =~= self.schema.types@.take(
                    i as int,
                ));
            }
            types.push(object);
            i += 1;
        }
        assert(self.schema.types@.take(i as int) =~= self.schema.types@);
        Value::Object(with_pair(no_pairs(), "types", Value::List(types)))
    }
}

impl<'a> Resolver for IntrospectionResolver<'a> {
    /// At the root, `__schema` is the meta-object of the schema and `__type`
    /// that of the type that the argument `name` gives, null where the schema
    /// has none of that name. The fields of a meta-object are its attributes.
    open spec fn resolution(
        &self,
        parent: ValueView,
        field: Seq<char>,
        arguments: Seq<(Seq<char>, ValueView)>,
    ) -> Resolution {
        match parent {
            ValueView::Object(attributes) => Resolution::Value(attribute(attributes, field)),
            ValueView::Null => if field == "__schema"@ {
                Resolution::Value(schema_object(*self.schema))
            } else if field == "__type"@ {
                match value_named(arguments, "name"@) {
                    Some(ValueView::String(name)) => Resolution::Value(
                        match object_type_named(self.schema.types@, name) {
                            Some(object_type) => type_object(*self.schema, object_type),
                            None => ValueView::Null,
                        },
                    ),
                    _ => Resolution::Failed("the argument name takes a string"@),
                }
            } else {
                Resolution::Failed("the field is not an introspection field"@)
            },
            _ => Resolution::Failed("the parent value has no fields"@),
        }
    }

    fn resolve(&self, parent: &Value, field: &Name, arguments: &Vec<(Name, Value)>) -> (result:
        Result<Value, ResolveError>) {
        match parent {
            Value::Object(attributes) => match find_value(attributes, field) {
                Some(value) => Ok(value.clone()),
                None => Ok(Value::Null),
            },
            Value::Null => {
                if *field == "__schema".to_owned() {
                    Ok(self.schema_object())
                } else if *field == "__type".to_owned() {
                    match find_value(arguments, &"name".to_owned()) {
                        Some(Value::String(name)) => Ok(
                            match self.schema.get_object_type(name) {
                                Some(object_type) => self.type_object(object_type),
                                None => Value::Null,
                            },
                        ),
                        _ => Err(
                            ResolveError::Failed("the argument name takes a string".to_owned()),
                        ),
                    }
                } else {
                    Err(ResolveError::Failed("the field is not an introspection field".to_owned()))
                }
            },
            _ => Err(ResolveError::Failed("the parent value has no fields".to_owned())),
        }
    }
}

} // verus!
