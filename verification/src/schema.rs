//! The schema a request is resolved against: object types, their fields and
//! the interfaces they implement.

use vstd::prelude::*;
use crate::query::ast::{Name, Type, TypeCondition};
use crate::values::Value;

verus! {

/// A field that an object type declares.
#[derive(Clone, Debug, PartialEq)]
pub struct FieldDefinition {
    pub name: Name,
    pub field_type: Type,
    /// Where the field lists the entities that refer to the entity that holds
    /// it: the attribute of theirs that carries its id.
    pub derived_from: Option<Name>,
}

/// An object type: the unit that entities and response objects are typed by.
#[derive(Clone, Debug, PartialEq)]
pub struct ObjectType {
    pub name: Name,
    pub interfaces: Vec<Name>,
    pub fields: Vec<FieldDefinition>,
}

/// The schema of one data source.
#[derive(Clone, Debug, PartialEq)]
pub struct Schema {
    pub id: String,
    pub types: Vec<ObjectType>,
}

/// The first of `types` whose name is `name`.
pub open spec fn object_type_named(types: Seq<ObjectType>, name: Seq<char>) -> Option<ObjectType>
    decreases types.len(),
{
    if types.len() == 0 {
        None
    } else if types[0].name@ == name {
        Some(types[0])
    } else {
        object_type_named(types.skip(1), name)
    }
}

/// The first of `fields` whose name is `name`.
pub open spec fn field_named(fields: Seq<FieldDefinition>, name: Seq<char>) -> Option<
    FieldDefinition,
>
    decreases fields.len(),
{
    if fields.len() == 0 {
        None
    } else if fields[0].name@ == name {
        Some(fields[0])
    } else {
        field_named(fields.skip(1), name)
    }
}

/// Whether `names` holds `name`.
pub open spec fn lists_name(names: Seq<Name>, name: Seq<char>) -> bool {
    exists|i: int| 0 <= i < names.len() && #[trigger] names[i]@ == name
}

/// The field `field` that `schema` declares on the object type `object_name`,
/// if it declares one.
pub open spec fn field_definition(
    schema: Schema,
    object_name: Seq<char>,
    field: Seq<char>,
) -> Option<FieldDefinition> {
    match object_type_named(schema.types@, object_name) {
        Some(object_type) => field_named(object_type.fields@, field),
        None => None,
    }
}

/// The type that `schema` declares for the field `field` of the object type
/// `object_name`, if it declares one.
pub open spec fn declared_type(schema: Schema, object_name: Seq<char>, field: Seq<char>) -> Option<
    Type,
> {
    match field_definition(schema, object_name, field) {
        Some(definition) => Some(definition.field_type),
        None => None,
    }
}

/// Whether a value of the object type `object_name` meets a type condition: there
/// is none, it names the type itself, or it names an interface that the schema
/// says the type implements.
pub open spec fn type_applies(
    schema: Schema,
    object_name: Seq<char>,
    condition: Option<TypeCondition>,
) -> bool {
    match condition {
        None => true,
        Some(TypeCondition::On(wanted)) => wanted@ == object_name || (object_type_named(
            schema.types@,
            object_name,
        ) matches Some(object_type) && lists_name(object_type.interfaces@, wanted@)),
    }
}

/// Whether a value that is not null is one that the named type takes: the
/// built-in scalars take values of their kind, `Float` integers too; other
/// names stand for references, enums and scalars of the schema's own, which
/// are not looked into.
pub open spec fn fits_named(value: Value, name: Seq<char>) -> bool {
    if name == "String"@ || name == "ID"@ {
        value is String
    } else if name == "Int"@ {
        value is Int
    } else if name == "Float"@ {
        value is Float || value is Int
    } else if name == "Boolean"@ {
        value is Boolean
    } else {
        !(value is Variable)
    }
}

/// Whether a value is one that the type takes: null only where the type is
/// not non-null, a list type lists of what it wraps, a named type what its
/// name stands for.
pub open spec fn fits(value: Value, ty: Type) -> bool
    decreases ty,
{
    match ty {
        Type::NonNullType(inner) => !(value is Null) && fits(value, *inner),
        Type::ListType(inner) => value is Null || (value matches Value::List(items) && forall|
            i: int,
        |
            0 <= i < items@.len() ==> fits(#[trigger] items@[i], *inner)),
        Type::NamedType(name) => value is Null || fits_named(value, name@),
    }
}

/// A list fits a list type iff each of its items fits the type that is wrapped.
pub proof fn lemma_list_fits(items: Vec<Value>, inner: Type)
    ensures
        fits(Value::List(items), Type::ListType(Box::new(inner))) == (forall|i: int|
            0 <= i < items@.len() ==> fits(#[trigger] items@[i], inner)),
{
    let value = Value::List(items);
    assert(fits(value, Type::ListType(Box::new(inner))) == (value is Null || (
    value matches Value::List(items) && forall|i: int|
        0 <= i < items@.len() ==> fits(#[trigger] items@[i], inner))));
}

/// Whether a value is one that the type takes.
#[verifier::loop_isolation(false)]
pub fn value_fits(value: &Value, ty: &Type) -> (ok: bool)
    ensures
        ok == fits(*value, *ty),
    decreases ty,
{
    match ty {
        Type::NonNullType(inner) => match value {
            Value::Null => false,
            _ => value_fits(value, inner),
        },
        Type::ListType(inner) => match value {
            Value::Null => true,
            Value::List(items) => {
                proof {
                    lemma_list_fits(*items, **inner);
                }
                let mut i: usize = 0;
                while i < items.len()
                    invariant
                        i <= items.len(),
                        forall|j: int| 0 <= j < i ==> fits(#[trigger] items@[j], **inner),
                    decreases items.len() - i,
                {
                    if !value_fits(&items[i], inner) {
                        return false;
                    }
                    i += 1;
                }
                true
            },
            _ => false,
        },
        Type::NamedType(name) => {
            match value {
                Value::Null => {
                    return true;
                },
                _ => {},
            }
            if *name == "String".to_owned() || *name == "ID".to_owned() {
                match value {
                    Value::String(_) => true,
                    _ => false,
                }
            } else if *name == "Int".to_owned() {
                match value {
                    Value::Int(_) => true,
                    _ => false,
                }
            } else if *name == "Float".to_owned() {
                match value {
                    Value::Float(_) => true,
                    Value::Int(_) => true,
                    _ => false,
                }
            } else if *name == "Boolean".to_owned() {
                match value {
                    Value::Boolean(_) => true,
                    _ => false,
                }
            } else {
                match value {
                    Value::Variable(_) => false,
                    _ => true,
                }
            }
        },
    }
}

impl Schema {
    /// Looks up an object type by name.
    pub fn get_object_type(&self, name: &Name) -> (found: Option<&ObjectType>)
        ensures
            match found {
                Some(t) => object_type_named(self.types@, name@) == Some(*t),
                None => object_type_named(self.types@, name@) is None,
            },
    {
        let mut i: usize = 0;
        assert(self.types@.skip(0) =~= self.types@);
        while i < self.types.len()
            invariant
                i <= self.types.len(),
                object_type_named(self.types@, name@) == object_type_named(
                    self.types@.skip(i as int),
                    name@,
                ),
            decreases self.types.len() - i,
        {
            proof {
                assert(self.types@.skip(i as int)[0] == self.types@[i as int]);
                assert(self.types@.skip(i as int).skip(1) =~= self.types@.skip(i + 1));
            }
            if self.types[i].name == *name {
                return Some(&self.types[i]);
            }
            i += 1;
        }
        None
    }

    /// The declaration of a field of an object type.
    pub fn get_field_definition(&self, object_name: &Name, field: &Name) -> (found: Option<
        &FieldDefinition,
    >)
        ensures
            match found {
                Some(definition) => field_definition(*self, object_name@, field@) == Some(
                    *definition,
                ),
                None => field_definition(*self, object_name@, field@) is None,
            },
    {
        match self.get_object_type(object_name) {
            Some(object_type) => object_type.get_field(field),
            None => None,
        }
    }

    /// The declared type of a field of an object type.
    pub fn get_field_type(&self, object_name: &Name, field: &Name) -> (found: Option<&Type>)
        ensures
            match found {
                Some(t) => declared_type(*self, object_name@, field@) == Some(*t),
                None => declared_type(*self, object_name@, field@) is None,
            },
    {
        match self.get_field_definition(object_name, field) {
            Some(definition) => Some(&definition.field_type),
            None => None,
        }
    }

    /// Whether a value of the object type `object_name` meets `condition`.
    pub fn does_type_apply(&self, object_name: &Name, condition: &Option<TypeCondition>) -> (applies:
        bool)
        ensures
            applies == type_applies(*self, object_name@, *condition),
    {
        match condition {
            None => true,
            Some(condition) => self.does_condition_apply(object_name, condition),
        }
    }

    /// Whether a value of the object type `object_name` meets the type condition `condition`.
    pub fn does_condition_apply(&self, object_name: &Name, condition: &TypeCondition) -> (applies:
        bool)
        ensures
            applies == type_applies(*self, object_name@, Some(*condition)),
    {
        match condition {
            TypeCondition::On(wanted) => {
                if *wanted == *object_name {
                    return true;
                }
                match self.get_object_type(object_name) {
                    Some(object_type) => object_type.implements(wanted),
                    None => false,
                }
            },
        }
    }
}

impl ObjectType {
    /// Looks up a field of this type by name.
    pub fn get_field(&self, name: &Name) -> (found: Option<&FieldDefinition>)
        ensures
            match found {
                Some(f) => field_named(self.fields@, name@) == Some(*f),
                None => field_named(self.fields@, name@) is None,
            },
    {
        let mut i: usize = 0;
        assert(self.fields@.skip(0) =~= self.fields@);
        while i < self.fields.len()
            invariant
                i <= self.fields.len(),
                field_named(self.fields@, name@) == field_named(self.fields@.skip(i as int), name@),
            decreases self.fields.len() - i,
        {
            proof {
                assert(self.fields@.skip(i as int)[0] == self.fields@[i as int]);
                assert(self.fields@.skip(i as int).skip(1) =~= self.fields@.skip(i + 1));
            }
            if self.fields[i].name == *name {
                return Some(&self.fields[i]);
            }
            i += 1;
        }
        None
    }

    /// Whether this type lists `interface` among the interfaces it implements.
    pub fn implements(&self, interface: &Name) -> (listed: bool)
        ensures
            listed == lists_name(self.interfaces@, interface@),
    {
        let mut i: usize = 0;
        while i < self.interfaces.len()
            invariant
                i <= self.interfaces.len(),
                forall|j: int| 0 <= j < i ==> self.interfaces@[j]@ != interface@,
            decreases self.interfaces.len() - i,
        {
            if self.interfaces[i] == *interface {
                return true;
            }
            i += 1;
        }
        false
    }
}

} // verus!
