//! The store resolver: resolves root fields by reading the entities of one
//! data source from the store, and the fields of an entity by reading its
//! attributes, or the entities that refer to it.

use vstd::prelude::*;
use crate::components::data_sources::host::DataSourceID;
use crate::components::store::{Entity, Store, StoreEntry};
use crate::execution::engine::base_name;
use crate::execution::{named_type, Resolution, ResolveError, Resolver};
use crate::query::ast::{Name, Type};
use crate::schema::{declared_type, field_definition};
use crate::values::{
    attribute, find_value, lemma_pairs_view, lemma_pairs_view_push, lemma_values_view_push,
    pairs_view, same_value, value_named, values_view, Value, ValueView,
};

verus! {

/// What an argument that counts entities holds: `Some(None)` where it is
/// absent, `Some(Some(n))` where it is the integer `n >= 0`, `None` where it
/// is anything else.
pub open spec fn count_argument(arguments: Seq<(Seq<char>, ValueView)>, name: Seq<char>) -> Option<
    Option<i64>,
> {
    match value_named(arguments, name) {
        None => Some(None),
        Some(ValueView::Int(n)) => if n >= 0 {
            Some(Some(n))
        } else {
            None
        },
        Some(_) => None,
    }
}

/// What the argument that filters entities holds: no conditions where it is
/// absent, the pairs of the object that it is, `None` where it is anything else.
pub open spec fn filter_argument(arguments: Seq<(Seq<char>, ValueView)>, name: Seq<char>) -> Option<
    Seq<(Seq<char>, ValueView)>,
> {
    match value_named(arguments, name) {
        None => Some(Seq::empty()),
        Some(ValueView::Object(conditions)) => Some(conditions),
        Some(_) => None,
    }
}

/// Whether an object meets a filter: for each pair of the filter, the
/// attribute of that name is that value.
pub open spec fn meets(
    attributes: Seq<(Seq<char>, ValueView)>,
    filter: Seq<(Seq<char>, ValueView)>,
) -> bool {
    forall|i: int|
        0 <= i < filter.len() ==> attribute(attributes, (#[trigger] filter[i]).0) == filter[i].1
}

/// An entity as a response value: the object of its attributes, behind the
/// name of its type under `__typename`.
pub open spec fn entity_object(entity_name: Seq<char>, entity: Entity) -> ValueView {
    ValueView::Object(
        Seq::empty().push(("__typename"@, ValueView::String(entity_name))) + pairs_view(
            entity.attributes@,
        ),
    )
}

/// Whether `entry` is an entity of the type `entity` that `source` holds.
pub open spec fn is_of_type(entry: StoreEntry, source: Seq<char>, entity: Seq<char>) -> bool {
    entry.source@ == source && entry.key.entity@ == entity
}

/// The entities of the type `entity` that `source` holds among the first
/// `upto` entries and that meet `filter`, as objects, in store order.
pub open spec fn objects_of(
    entries: Seq<StoreEntry>,
    source: Seq<char>,
    entity: Seq<char>,
    filter: Seq<(Seq<char>, ValueView)>,
    upto: int,
) -> Seq<ValueView>
    decreases upto,
{
    if upto <= 0 || upto > entries.len() {
        Seq::empty()
    } else {
        let rest = objects_of(entries, source, entity, filter, upto - 1);
        if is_of_type(entries[upto - 1], source, entity) && meets(
            pairs_view(entries[upto - 1].entity.attributes@),
            filter,
        ) {
            rest.push(entity_object(entity, entries[upto - 1].entity))
        } else {
            rest
        }
    }
}

/// The first entity at or after `from` that `source` holds under the type
/// `entity` and the id `id`.
pub open spec fn entity_at(
    entries: Seq<StoreEntry>,
    source: Seq<char>,
    entity: Seq<char>,
    id: Seq<char>,
    from: int,
) -> Option<Entity>
    decreases entries.len() - from,
{
    if from < 0 || from >= entries.len() {
        None
    } else if is_of_type(entries[from], source, entity) && entries[from].key.id@ == id {
        Some(entries[from].entity)
    } else {
        entity_at(entries, source, entity, id, from + 1)
    }
}

/// The part of `all` that pagination asks for: `first` values, or all where
/// no number is given, behind the `skip` values that are left out. Numbers
/// below zero count as zero.
pub open spec fn page(all: Seq<ValueView>, skip: int, first: Option<i64>) -> Seq<ValueView> {
    let start = if skip < 0 {
        0
    } else if skip >= all.len() {
        all.len() as int
    } else {
        skip
    };
    let end = match first {
        Some(n) => if n < 0 {
            start
        } else if n >= all.len() - start {
            all.len() as int
        } else {
            start + n
        },
        None => all.len() as int,
    };
    all.subrange(start, end)
}

/// Whether a type is a list, or a non-null list.
pub open spec fn is_list_type(ty: Type) -> bool {
    match ty {
        Type::ListType(_) => true,
        Type::NonNullType(inner) => *inner is ListType,
        Type::NamedType(_) => false,
    }
}

/// Resolves fields from the store.
pub struct StoreResolver<'a> {
    /// The store that is read.
    pub store: &'a Store,
    /// The data source whose entities are read.
    pub source: DataSourceID,
    /// The name of the type whose fields are the root fields.
    pub root: Name,
}

/// What a list field reads: the entities of the type `entity` that meet the
/// filter of the argument `where` and the conditions of `scope`, paginated
/// by the arguments `skip` and `first`.
pub open spec fn collection(
    store: Store,
    source: Seq<char>,
    entity: Seq<char>,
    arguments: Seq<(Seq<char>, ValueView)>,
    scope: Seq<(Seq<char>, ValueView)>,
) -> Resolution {
    match filter_argument(arguments, "where"@) {
        None => Resolution::Failed("the argument where takes an object"@),
        Some(filter) => match (
            count_argument(arguments, "skip"@),
            count_argument(arguments, "first"@),
        ) {
            (Some(skip), Some(first)) => Resolution::Value(
                ValueView::List(
                    page(
                        objects_of(
                            store.contents(),
                            source,
                            entity,
                            filter + scope,
                            store.contents().len() as int,
                        ),
                        match skip {
                            Some(n) => n as int,
                            None => 0,
                        },
                        first,
                    ),
                ),
            ),
            _ => Resolution::Failed(
                "the arguments skip and first take integers that are not negative"@,
            ),
        },
    }
}

/// What the store resolver makes of a root field: a field that the root type
/// declares as a list reads the entities of the list's type; one that it
/// declares otherwise reads the one entity of that type with the id that the
/// argument `id` gives, null where there is none.
pub open spec fn root_resolution(
    store: Store,
    source: Seq<char>,
    root: Seq<char>,
    field: Seq<char>,
    arguments: Seq<(Seq<char>, ValueView)>,
) -> Resolution {
    match declared_type(store.schema(), root, field) {
        None => Resolution::Failed("the root type does not declare the field"@),
        Some(ty) => {
            let entity = named_type(ty)@;
            if is_list_type(ty) {
                collection(store, source, entity, arguments, Seq::empty())
            } else {
                match value_named(arguments, "id"@) {
                    Some(ValueView::String(id)) => Resolution::Value(
                        match entity_at(store.contents(), source, entity, id, 0) {
                            Some(found) => entity_object(entity, found),
                            None => ValueView::Null,
                        },
                    ),
                    _ => Resolution::Failed("the argument id takes a string"@),
                }
            }
        },
    }
}

/// What the store resolver makes of a field that an entity has no attribute
/// for: where the schema declares it, on the type of the entity, as the list
/// of the entities that refer to the entity by an attribute of theirs, it
/// reads those entities, scoped by the id of the entity; else it is null.
pub open spec fn related(
    store: Store,
    source: Seq<char>,
    attributes: Seq<(Seq<char>, ValueView)>,
    field: Seq<char>,
    arguments: Seq<(Seq<char>, ValueView)>,
) -> Resolution {
    match (value_named(attributes, "__typename"@), value_named(attributes, "id"@)) {
        (Some(ValueView::String(owner)), Some(id)) => match field_definition(
            store.schema(),
            owner,
            field,
        ) {
            Some(definition) => match definition.derived_from {
                Some(link) => if is_list_type(definition.field_type) {
                    collection(
                        store,
                        source,
                        named_type(definition.field_type)@,
                        arguments,
                        Seq::empty().push((link@, id)),
                    )
                } else {
                    Resolution::Value(ValueView::Null)
                },
                None => Resolution::Value(ValueView::Null),
            },
            None => Resolution::Value(ValueView::Null),
        },
        _ => Resolution::Value(ValueView::Null),
    }
}

/// Reads an argument that counts entities.
pub fn read_count(arguments: &Vec<(Name, Value)>, name: &Name) -> (count: Option<Option<i64>>)
    ensures
        count == count_argument(pairs_view(arguments@), name@),
{
    match find_value(arguments, name) {
        None => Some(None),
        Some(Value::Int(n)) => {
            if *n >= 0 {
                Some(Some(*n))
            } else {
                None
            }
        },
        Some(_) => None,
    }
}

/// Whether an entity meets a filter.
pub fn meets_filter(entity: &Entity, filter: &Vec<(Name, Value)>) -> (ok: bool)
    ensures
        ok == meets(pairs_view(entity.attributes@), pairs_view(filter@)),
{
    proof {
        lemma_pairs_view(filter@);
    }
    let mut i: usize = 0;
    while i < filter.len()
        invariant
            i <= filter.len(),
            pairs_view(filter@).len() == filter@.len(),
            forall|j: int|
                0 <= j < filter@.len() ==> #[trigger] pairs_view(filter@)[j] == (
                    filter@[j].0@,
                    filter@[j].1@,
                ),
            forall|j: int|
                0 <= j < i ==> attribute(
                    pairs_view(entity.attributes@),
                    (#[trigger] pairs_view(filter@)[j]).0,
                ) == pairs_view(filter@)[j].1,
        decreases filter.len() - i,
    {
        let same = match find_value(&entity.attributes, &filter[i].0) {
            Some(value) => same_value(value, &filter[i].1),
            None => match &filter[i].1 {
                Value::Null => true,
                _ => false,
            },
        };
        if !same {
            assert(attribute(pairs_view(entity.attributes@), pairs_view(filter@)[i as int].0)
                != pairs_view(filter@)[i as int].1);
            return false;
        }
        i += 1;
    }
    true
}

/// Two sequences of pairs in a row, copied.
pub fn join(first: &Vec<(Name, Value)>, second: &Vec<(Name, Value)>) -> (both: Vec<(Name, Value)>)
    ensures
        pairs_view(both@) == pairs_view(first@) + pairs_view(second@),
{
    let mut both: Vec<(Name, Value)> = Vec::new();
    proof {
        assert(pairs_view(both@) =~= pairs_view(first@.take(0)));
    }
    let mut i: usize = 0;
    while i < first.len()
        invariant
            i <= first.len(),
            pairs_view(both@) == pairs_view(first@.take(i as int)),
        decreases first.len() - i,
    {
        let pair = (first[i].0.clone(), first[i].1.clone());
        proof {
            lemma_pairs_view_push(both@, pair);
            lemma_pairs_view_push(first@.take(i as int), first@[i as int]);
            assert(first@.take(i as int).push(first@[i as int]) =~= first@.take(i + 1));
        }
        both.push(pair);
        i += 1;
    }
    proof {
        assert(first@.take(i as int) =~= first@);
        assert(pairs_view(both@) =~= pairs_view(first@) + pairs_view(second@.take(0)));
    }
    let mut j: usize = 0;
    while j < second.len()
        invariant
            j <= second.len(),
            pairs_view(both@) == pairs_view(first@) + pairs_view(second@.take(j as int)),
        decreases second.len() - j,
    {
        let pair = (second[j].0.clone(), second[j].1.clone());
        proof {
            lemma_pairs_view_push(both@, pair);
            lemma_pairs_view_push(second@.take(j as int), second@[j as int]);
            assert(second@.take(j as int).push(second@[j as int]) =~= second@.take(j + 1));
            assert((pairs_view(first@) + pairs_view(second@.take(j as int))).push(
                (pair.0@, pair.1@),
            ) =~= pairs_view(first@) + pairs_view(second@.take(j as int)).push((pair.0@, pair.1@)));
        }
        both.push(pair);
        j += 1;
    }
    proof {
        assert(second@.take(j as int) =~= second@);
    }
    both
}

/// The object of an entity of the type `entity_name`.
pub fn object_of(entity_name: &Name, entity: &Entity) -> (object: Value)
    ensures
        object@ == entity_object(entity_name@, *entity),
{
    let mut head: Vec<(Name, Value)> = Vec::new();
    let pair = ("__typename".to_owned(), Value::String(entity_name.clone()));
    proof {
        lemma_pairs_view_push(head@, pair);
    }
    head.push(pair);
    Value::Object(join(&head, &entity.attributes))
}

/// Whether a type is a list, or a non-null list.
pub fn is_list(ty: &Type) -> (list: bool)
    ensures
        list == is_list_type(*ty),
{
    match ty {
        Type::ListType(_) => true,
        Type::NonNullType(inner) => match &**inner {
            Type::ListType(_) => true,
            _ => false,
        },
        Type::NamedType(_) => false,
    }
}

/// The part of `all` that pagination asks for.
pub fn take_page(all: &Vec<Value>, skip: i64, first: Option<i64>) -> (part: Vec<Value>)
    ensures
        values_view(part@) == page(values_view(all@), skip as int, first),
{
    proof {
        crate::values::lemma_values_view(all@);
    }
    let len = all.len();
    let start: usize = if skip < 0 {
        0
    } else if skip as u64 >= len as u64 {
        len
    } else {
        skip as usize
    };
    let end: usize = match first {
        Some(n) => {
            if n < 0 {
                start
            } else if n as u64 >= (len - start) as u64 {
                len
            } else {
                start + n as usize
            }
        },
        None => len,
    };
    let mut part: Vec<Value> = Vec::new();
    let mut i: usize = start;
    while i < end
        invariant
            start <= i <= end <= all.len(),
            values_view(all@).len() == all@.len(),
            forall|j: int| 0 <= j < all@.len() ==> #[trigger] values_view(all@)[j] == all@[j]@,
            values_view(part@) == values_view(all@).subrange(start as int, i as int),
        decreases end - i,
    {
        let item = all[i].clone();
        proof {
            lemma_values_view_push(part@, item);
            assert(values_view(all@).subrange(start as int, i as int).push(item@) =~= values_view(
                all@,
            ).subrange(start as int, i + 1));
        }
        part.push(item);
        i += 1;
    }
    part
}

impl<'a> StoreResolver<'a> {
    /// The entities of the type `entity` that the data source holds and
    /// that meet `filter`, as objects.
    pub fn collect(&self, entity: &Name, filter: &Vec<(Name, Value)>) -> (all: Vec<Value>)
        ensures
            values_view(all@) == objects_of(
                self.store.contents(),
                self.source@,
                entity@,
                pairs_view(filter@),
                self.store.contents().len() as int,
            ),
    {
        let entries = self.store.entries();
        let mut all: Vec<Value> = Vec::new();
        let mut i: usize = 0;
        while i < entries.len()
            invariant
                i <= entries.len(),
                entries@ == self.store.contents(),
                values_view(all@) == objects_of(
                    entries@,
                    self.source@,
                    entity@,
                    pairs_view(filter@),
                    i as int,
                ),
            decreases entries.len() - i,
        {
            let entry = &entries[i];
            if entry.source == self.source && entry.key.entity == *entity && meets_filter(
                &entry.entity,
                filter,
            ) {
                let object = object_of(entity, &entry.entity);
                proof {
                    lemma_values_view_push(all@, object);
                }
                all.push(object);
            }
            i += 1;
        }
        all
    }

    /// The entity of the type `entity` that the data source holds under `id`.
    pub fn find_entity(&self, entity: &Name, id: &String) -> (found: Option<&'a Entity>)
        ensures
            match found {
                Some(e) => entity_at(self.store.contents(), self.source@, entity@, id@, 0) == Some(
                    *e,
                ),
                None => entity_at(self.store.contents(), self.source@, entity@, id@, 0) is None,
            },
    {
        let entries = self.store.entries();
        let mut i: usize = 0;
        while i < entries.len()
            invariant
                i <= entries.len(),
                entries@ == self.store.contents(),
                entity_at(entries@, self.source@, entity@, id@, 0) == entity_at(
                    entries@,
                    self.source@,
                    entity@,
                    id@,
                    i as int,
                ),
            decreases entries.len() - i,
        {
            let entry = &entries[i];
            if entry.source == self.source && entry.key.entity == *entity && entry.key.id == *id {
                return Some(&entry.entity);
            }
            i += 1;
        }
        None
    }

    /// Reads what a list field asks for.
    pub fn list(&self, entity: &Name, arguments: &Vec<(Name, Value)>, scope: &Vec<(Name, Value)>) -> (result:
        Result<Value, ResolveError>)
        ensures
            crate::execution::resolution_of(result) == collection(
                *self.store,
                self.source@,
                entity@,
                pairs_view(arguments@),
                pairs_view(scope@),
            ),
    {
        let none: Vec<(Name, Value)> = Vec::new();
        let filter = match find_value(arguments, &"where".to_owned()) {
            None => &none,
            Some(Value::Object(conditions)) => conditions,
            Some(_) => {
                return Err(ResolveError::Failed("the argument where takes an object".to_owned()));
            },
        };
        let skip = read_count(arguments, &"skip".to_owned());
        let first = read_count(arguments, &"first".to_owned());
        match (skip, first) {
            (Some(skip), Some(first)) => {
                let conditions = join(filter, scope);
                let all = self.collect(entity, &conditions);
                let skipped: i64 = match skip {
                    Some(n) => n,
                    None => 0,
                };
                Ok(Value::List(take_page(&all, skipped, first)))
            },
            _ => Err(
                ResolveError::Failed(
                    "the arguments skip and first take integers that are not negative".to_owned(),
                ),
            ),
        }
    }

    /// Resolves a root field.
    pub fn resolve_root(&self, field: &Name, arguments: &Vec<(Name, Value)>) -> (result: Result<
        Value,
        ResolveError,
    >)
        ensures
            crate::execution::resolution_of(result) == root_resolution(
                *self.store,
                self.source@,
                self.root@,
                field@,
                pairs_view(arguments@),
            ),
    {
        match self.store.get_schema().get_field_type(&self.root, field) {
            None => Err(ResolveError::Failed("the root type does not declare the field".to_owned())),
            Some(ty) => {
                let entity = base_name(ty);
                if is_list(ty) {
                    let unscoped: Vec<(Name, Value)> = Vec::new();
                    self.list(entity, arguments, &unscoped)
                } else {
                    match find_value(arguments, &"id".to_owned()) {
                        Some(Value::String(id)) => Ok(
                            match self.find_entity(entity, id) {
                                Some(found) => object_of(entity, found),
                                None => Value::Null,
                            },
                        ),
                        _ => Err(ResolveError::Failed("the argument id takes a string".to_owned())),
                    }
                }
            },
        }
    }

    /// Resolves a field that an entity has no attribute for.
    pub fn resolve_related(
        &self,
        attributes: &Vec<(Name, Value)>,
        field: &Name,
        arguments: &Vec<(Name, Value)>,
    ) -> (result: Result<Value, ResolveError>)
        ensures
            crate::execution::resolution_of(result) == related(
                *self.store,
                self.source@,
                pairs_view(attributes@),
                field@,
                pairs_view(arguments@),
            ),
    {
        let owner = match find_value(attributes, &"__typename".to_owned()) {
            Some(Value::String(owner)) => owner,
            _ => {
                return Ok(Value::Null);
            },
        };
        let id = match find_value(attributes, &"id".to_owned()) {
            Some(id) => id,
            None => {
                return Ok(Value::Null);
            },
        };
        match self.store.get_schema().get_field_definition(owner, field) {
            Some(definition) => match &definition.derived_from {
                Some(link) => {
                    if is_list(&definition.field_type) {
                        let mut scope: Vec<(Name, Value)> = Vec::new();
                        let condition = (link.clone(), id.clone());
                        proof {
                            lemma_pairs_view_push(scope@, condition);
                        }
                        scope.push(condition);
                        self.list(base_name(&definition.field_type), arguments, &scope)
                    } else {
                        Ok(Value::Null)
                    }
                },
                None => Ok(Value::Null),
            },
            None => Ok(Value::Null),
        }
    }
}

impl<'a> Resolver for StoreResolver<'a> {
    /// The fields of an object are its attributes; a field that it has no
    /// attribute for is read from the entities that refer to it, or is null.
    /// The fields of the null root are read from the store. No other value
    /// has fields.
    open spec fn resolution(
        &self,
        parent: ValueView,
        field: Seq<char>,
        arguments: Seq<(Seq<char>, ValueView)>,
    ) -> Resolution {
        match parent {
            ValueView::Object(attributes) => match value_named(attributes, field) {
                Some(value) => Resolution::Value(value),
                None => related(*self.store, self.source@, attributes, field, arguments),
            },
            ValueView::Null => root_resolution(
                *self.store,
                self.source@,
                self.root@,
                field,
                arguments,
            ),
            _ => Resolution::Failed("the parent value has no fields"@),
        }
    }

    fn resolve(&self, parent: &Value, field: &Name, arguments: &Vec<(Name, Value)>) -> (result:
        Result<Value, ResolveError>) {
        match parent {
            Value::Object(attributes) => match find_value(attributes, field) {
                Some(value) => Ok(value.clone()),
                None => self.resolve_related(attributes, field, arguments),
            },
            Value::Null => self.resolve_root(field, arguments),
            _ => Err(ResolveError::Failed("the parent value has no fields".to_owned())),
        }
    }
}

} // verus!
