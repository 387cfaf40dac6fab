//! The entity store: entities keyed by data source, entity type and id, in the
//! order in which they were first written.

use vstd::prelude::*;
use crate::components::data_sources::host::{DataSourceID, RuntimeHostEvent};
use crate::query::ast::Name;
use crate::schema::{field_named, fits, object_type_named, value_fits, ObjectType, Schema};
use crate::values::Value;

verus! {

/// Addresses an entity within one data source: its type and its id.
#[derive(Clone, Debug, PartialEq)]
pub struct StoreKey {
    /// Name of the entity type.
    pub entity: String,
    /// ID of the individual entity.
    pub id: String,
}

/// A record: attribute names and their values, in order.
#[derive(Clone, Debug, PartialEq)]
pub struct Entity {
    pub attributes: Vec<(Name, Value)>,
}

/// One stored entity with its address.
#[derive(Clone, Debug, PartialEq)]
pub struct StoreEntry {
    pub source: DataSourceID,
    pub key: StoreKey,
    pub entity: Entity,
}

/// What an applied event did.
#[derive(Clone, Copy, Debug, PartialEq, Eq)]
pub enum EntityChangeOperation {
    Created,
    Changed,
    Removed,
}

/// The notification that the store publishes after it applied an event.
#[derive(Clone, Debug, PartialEq)]
pub struct EntityChange {
    pub source: DataSourceID,
    pub key: StoreKey,
    pub operation: EntityChangeOperation,
}

/// Why the store rejected an event.
#[derive(Clone, Copy, Debug, PartialEq, Eq)]
pub enum InvalidEventReason {
    /// The schema has no entity type of that name, or the id is empty.
    UnresolvableKey,
    /// The payload holds an attribute that the entity type does not declare,
    /// or a value that the declared type of its attribute does not take.
    InvalidPayload,
}

/// The rejection of an event, reported to the data source that emitted it.
#[derive(Clone, Debug, PartialEq)]
pub struct InvalidEvent {
    pub source: DataSourceID,
    pub reason: InvalidEventReason,
}

/// Whether `entry` is the entity that `source` holds under `key`.
pub open spec fn addresses(entry: StoreEntry, source: Seq<char>, key: StoreKey) -> bool {
    entry.source@ == source && entry.key.entity@ == key.entity@ && entry.key.id@ == key.id@
}

/// The first index at or after `start` whose entry is addressed by `source` and `key`.
pub open spec fn position_from(
    entries: Seq<StoreEntry>,
    source: Seq<char>,
    key: StoreKey,
    start: int,
) -> Option<int>
    decreases entries.len() - start,
{
    if start < 0 || start >= entries.len() {
        None
    } else if addresses(entries[start], source, key) {
        Some(start)
    } else {
        position_from(entries, source, key, start + 1)
    }
}

/// Where `entries` holds the entity that `source` keeps under `key`.
pub open spec fn position(entries: Seq<StoreEntry>, source: Seq<char>, key: StoreKey) -> Option<
    int,
> {
    position_from(entries, source, key, 0)
}

/// No two entries share data source, entity type and id.
pub open spec fn unique(entries: Seq<StoreEntry>) -> bool {
    forall|i: int, j: int|
        0 <= i < entries.len() && 0 <= j < entries.len() && i != j ==> !addresses(
            #[trigger] entries[j],
            (#[trigger] entries[i]).source@,
            entries[i].key,
        )
}

/// `entries` after `entry` was written: in place of the entry with its
/// address, or behind all others where there was none.
pub open spec fn upserted(entries: Seq<StoreEntry>, entry: StoreEntry) -> Seq<StoreEntry> {
    match position(entries, entry.source@, entry.key) {
        Some(i) => entries.update(i, entry),
        None => entries.push(entry),
    }
}

/// `entries` without the entity that `source` keeps under `key`.
pub open spec fn removed(entries: Seq<StoreEntry>, source: Seq<char>, key: StoreKey) -> Seq<
    StoreEntry,
> {
    match position(entries, source, key) {
        Some(i) => entries.remove(i),
        None => entries,
    }
}

/// `entries` after a well-formed `event` was applied: creation and change
/// write the entity, removal deletes it.
pub open spec fn applied(entries: Seq<StoreEntry>, event: RuntimeHostEvent) -> Seq<StoreEntry> {
    match event {
        RuntimeHostEvent::EntityCreated(source, key, entity) => upserted(
            entries,
            StoreEntry { source, key, entity },
        ),
        RuntimeHostEvent::EntityChanged(source, key, entity) => upserted(
            entries,
            StoreEntry { source, key, entity },
        ),
        RuntimeHostEvent::EntityRemoved(source, key) => removed(entries, source@, key),
    }
}

/// Whether `object_type` declares a field for the attribute and its type
/// takes the attribute's value.
pub open spec fn attribute_fits(object_type: ObjectType, attribute: (Name, Value)) -> bool {
    field_named(object_type.fields@, attribute.0@) matches Some(definition) && fits(
        attribute.1,
        definition.field_type,
    )
}

/// Every attribute of the payload is a field that `object_type` declares,
/// with a value that the field's type takes.
pub open spec fn payload_fits(object_type: ObjectType, attributes: Seq<(Name, Value)>) -> bool {
    forall|i: int| 0 <= i < attributes.len() ==> attribute_fits(object_type, #[trigger] attributes[i])
}

/// Why `event` is malformed under `schema`, or `None` where it is well formed:
/// its key names an entity type of the schema and a non-empty id, and its
/// payload, where it has one, fits that type.
pub open spec fn rejection(schema: Schema, event: RuntimeHostEvent) -> Option<InvalidEventReason> {
    match object_type_named(schema.types@, event.key().entity@) {
        None => Some(InvalidEventReason::UnresolvableKey),
        Some(object_type) => if event.key().id@.len() == 0 {
            Some(InvalidEventReason::UnresolvableKey)
        } else {
            match event.payload() {
                Some(entity) => if payload_fits(object_type, entity.attributes@) {
                    None
                } else {
                    Some(InvalidEventReason::InvalidPayload)
                },
                None => None,
            }
        },
    }
}

/// The notification for an applied `event`.
pub open spec fn change_of(event: RuntimeHostEvent) -> EntityChange {
    EntityChange {
        source: event.source(),
        key: event.key(),
        operation: match event {
            RuntimeHostEvent::EntityCreated(_, _, _) => EntityChangeOperation::Created,
            RuntimeHostEvent::EntityChanged(_, _, _) => EntityChangeOperation::Changed,
            RuntimeHostEvent::EntityRemoved(_, _) => EntityChangeOperation::Removed,
        },
    }
}

/// What the store answers to an event: the notification to publish, or the
/// rejection to report to the data source.
pub open spec fn answer(schema: Schema, event: RuntimeHostEvent) -> Result<
    EntityChange,
    InvalidEvent,
> {
    match rejection(schema, event) {
        None => Ok(change_of(event)),
        Some(reason) => Err(InvalidEvent { source: event.source(), reason }),
    }
}

/// What `position_from` finds is the first addressed entry from `start` on.
pub proof fn lemma_position_from(
    entries: Seq<StoreEntry>,
    source: Seq<char>,
    key: StoreKey,
    start: int,
)
    requires
        0 <= start,
    ensures
        match position_from(entries, source, key, start) {
            Some(i) => start <= i < entries.len() && addresses(entries[i], source, key) && forall|
                j: int,
            |
                start <= j < i ==> !addresses(#[trigger] entries[j], source, key),
            None => forall|j: int|
                start <= j < entries.len() ==> !addresses(#[trigger] entries[j], source, key),
        },
    decreases entries.len() - start,
{
    if start < entries.len() && !addresses(entries[start], source, key) {
        lemma_position_from(entries, source, key, start + 1);
    }
}

/// Writing an entry keeps addresses unique.
pub proof fn lemma_upserted_unique(entries: Seq<StoreEntry>, entry: StoreEntry)
    requires
        unique(entries),
    ensures
        unique(upserted(entries, entry)),
{
    lemma_position_from(entries, entry.source@, entry.key, 0);
}

/// Deleting an entry keeps addresses unique.
pub proof fn lemma_removed_unique(entries: Seq<StoreEntry>, source: Seq<char>, key: StoreKey)
    requires
        unique(entries),
    ensures
        unique(removed(entries, source, key)),
{
    lemma_position_from(entries, source, key, 0);
}

/// The entries that belong to the data source `source`, in store order: its key space.
pub open spec fn of_source(entries: Seq<StoreEntry>, source: Seq<char>) -> Seq<StoreEntry>
    decreases entries.len(),
{
    if entries.len() == 0 {
        Seq::empty()
    } else {
        let rest = of_source(entries.drop_last(), source);
        if entries.last().source@ == source {
            rest.push(entries.last())
        } else {
            rest
        }
    }
}

/// `entries` after the events of `events` were applied in order, the
/// malformed ones left out.
pub open spec fn applied_all(
    schema: Schema,
    entries: Seq<StoreEntry>,
    events: Seq<RuntimeHostEvent>,
) -> Seq<StoreEntry>
    decreases events.len(),
{
    if events.len() == 0 {
        entries
    } else {
        let before = applied_all(schema, entries, events.drop_last());
        if rejection(schema, events.last()) is None {
            applied(before, events.last())
        } else {
            before
        }
    }
}

/// An entry that is addressed and has no addressed entry before it is the one that `position` finds.
pub proof fn lemma_position_at(entries: Seq<StoreEntry>, source: Seq<char>, key: StoreKey, k: int)
    requires
        0 <= k < entries.len(),
        addresses(entries[k], source, key),
        forall|j: int| 0 <= j < k ==> !addresses(#[trigger] entries[j], source, key),
    ensures
        position(entries, source, key) == Some(k),
{
    lemma_position_from(entries, source, key, 0);
}

/// The key space of a source, taken of two sequences in a row, is the two key spaces in a row.
pub proof fn lemma_of_source_concat(a: Seq<StoreEntry>, b: Seq<StoreEntry>, source: Seq<char>)
    ensures
        of_source(a + b, source) == of_source(a, source) + of_source(b, source),
    decreases b.len(),
{
    if b.len() == 0 {
        assert(a + b =~= a);
        assert(of_source(a, source) + of_source(b, source) =~= of_source(a, source));
    } else {
        assert((a + b).drop_last() =~= a + b.drop_last());
        assert((a + b).last() == b.last());
        lemma_of_source_concat(a, b.drop_last(), source);
        if b.last().source@ == source {
            assert(of_source(a, source) + of_source(b.drop_last(), source).push(b.last())
                =~= (of_source(a, source) + of_source(b.drop_last(), source)).push(b.last()));
        }
    }
}

/// The key space of the source of a single entry is that entry; that of any other source is empty.
pub proof fn lemma_of_source_single(entry: StoreEntry, source: Seq<char>)
    ensures
        of_source(seq![entry], source) == if entry.source@ == source {
            seq![entry]
        } else {
            Seq::<StoreEntry>::empty()
        },
{
    assert(seq![entry].drop_last() =~= Seq::<StoreEntry>::empty());
    assert(of_source(seq![entry].drop_last(), source) =~= Seq::<StoreEntry>::empty());
    assert(Seq::<StoreEntry>::empty().push(entry) =~= seq![entry]);
}

/// Where no entry is addressed, none of a key space is.
pub proof fn lemma_of_source_unaddressed(
    entries: Seq<StoreEntry>,
    source: Seq<char>,
    key: StoreKey,
)
    requires
        forall|j: int| 0 <= j < entries.len() ==> !addresses(#[trigger] entries[j], source, key),
    ensures
        forall|j: int|
            0 <= j < of_source(entries, source).len() ==> !addresses(
                #[trigger] of_source(entries, source)[j],
                source,
                key,
            ),
    decreases entries.len(),
{
    if entries.len() > 0 {
        lemma_of_source_unaddressed(entries.drop_last(), source, key);
        let rest = of_source(entries.drop_last(), source);
        assert(!addresses(entries[entries.len() - 1], source, key));
        assert forall|j: int| 0 <= j < of_source(entries, source).len() implies !addresses(
            #[trigger] of_source(entries, source)[j],
            source,
            key,
        ) by {
            if j < rest.len() {
                assert(of_source(entries, source)[j] == rest[j]);
            }
        }
    }
}

/// An event changes the key space of its own source as it would change that
/// key space alone.
pub proof fn lemma_applied_is_local(entries: Seq<StoreEntry>, event: RuntimeHostEvent)
    ensures
        of_source(applied(entries, event), event.source()@) == applied(
            of_source(entries, event.source()@),
            event,
        ),
{
    let source = event.source()@;
    let key = event.key();
    let own = of_source(entries, source);
    lemma_position_from(entries, source, key, 0);
    lemma_position_from(own, source, key, 0);
    match position(entries, source, key) {
        Some(i) => {
            let before = entries.take(i);
            let after = entries.skip(i + 1);
            assert(entries =~= before + seq![entries[i]] + after);
            lemma_of_source_concat(before + seq![entries[i]], after, source);
            lemma_of_source_concat(before, seq![entries[i]], source);
            lemma_of_source_single(entries[i], source);
            lemma_of_source_unaddressed(before, source, key);
            let k = of_source(before, source).len() as int;
            assert(own =~= of_source(before, source) + seq![entries[i]] + of_source(after, source));
            lemma_position_at(own, source, key, k);
            match event.payload() {
                Some(entity) => {
                    let entry = StoreEntry { source: event.source(), key, entity };
                    assert(entries.update(i, entry) =~= before + seq![entry] + after);
                    lemma_of_source_concat(before + seq![entry], after, source);
                    lemma_of_source_concat(before, seq![entry], source);
                    lemma_of_source_single(entry, source);
                    assert(own.update(k, entry) =~= of_source(before, source) + seq![entry]
                        + of_source(after, source));
                },
                None => {
                    assert(entries.remove(i) =~= before + after);
                    lemma_of_source_concat(before, after, source);
                    assert(own.remove(k) =~= of_source(before, source) + of_source(after, source));
                },
            }
        },
        None => {
            lemma_of_source_unaddressed(entries, source, key);
            match event.payload() {
                Some(entity) => {
                    let entry = StoreEntry { source: event.source(), key, entity };
                    assert(entries.push(entry) =~= entries + seq![entry]);
                    lemma_of_source_concat(entries, seq![entry], source);
                    lemma_of_source_single(entry, source);
                    assert(own.push(entry) =~= own + seq![entry]);
                },
                None => {},
            }
        },
    }
}

/// Creating an entity and then removing it, both from one source, leaves the
/// store without that key: it holds what it held before, less any entity that
/// stood under the key.
pub proof fn law_created_then_removed(
    entries: Seq<StoreEntry>,
    source: DataSourceID,
    key: StoreKey,
    entity: Entity,
)
    requires
        unique(entries),
    ensures
        ({
            let after = applied(
                applied(entries, RuntimeHostEvent::EntityCreated(source, key, entity)),
                RuntimeHostEvent::EntityRemoved(source, key),
            );
            &&& position(after, source@, key) is None
            &&& after == removed(entries, source@, key)
        }),
{
    let entry = StoreEntry { source, key, entity };
    let created = upserted(entries, entry);
    let after = removed(created, source@, key);
    lemma_position_from(entries, source@, key, 0);
    lemma_upserted_unique(entries, entry);
    match position(entries, source@, key) {
        Some(i) => {
            lemma_position_at(created, source@, key, i);
            assert(after =~= entries.remove(i));
        },
        None => {
            lemma_position_at(created, source@, key, entries.len() as int);
            assert(after =~= entries);
        },
    }
    lemma_removed_unique(created, source@, key);
    lemma_position_from(after, source@, key, 0);
    lemma_position_from(created, source@, key, 0);
}

/// An event leaves the key space of every source but its own as it was.
pub proof fn law_other_sources_untouched(
    entries: Seq<StoreEntry>,
    event: RuntimeHostEvent,
    other: Seq<char>,
)
    requires
        event.source()@ != other,
    ensures
        of_source(applied(entries, event), other) == of_source(entries, other),
{
    let source = event.source()@;
    let key = event.key();
    lemma_position_from(entries, source, key, 0);
    match position(entries, source, key) {
        Some(i) => {
            let before = entries.take(i);
            let after = entries.skip(i + 1);
            assert(entries =~= before + seq![entries[i]] + after);
            lemma_of_source_concat(before + seq![entries[i]], after, other);
            lemma_of_source_concat(before, seq![entries[i]], other);
            lemma_of_source_single(entries[i], other);
            assert(of_source(before, other) + Seq::<StoreEntry>::empty() =~= of_source(
                before,
                other,
            ));
            match event.payload() {
                Some(entity) => {
                    let entry = StoreEntry { source: event.source(), key, entity };
                    assert(entries.update(i, entry) =~= before + seq![entry] + after);
                    lemma_of_source_concat(before + seq![entry], after, other);
                    lemma_of_source_concat(before, seq![entry], other);
                    lemma_of_source_single(entry, other);
                },
                None => {
                    assert(entries.remove(i) =~= before + after);
                    lemma_of_source_concat(before, after, other);
                },
            }
        },
        None => {
            match event.payload() {
                Some(entity) => {
                    let entry = StoreEntry { source: event.source(), key, entity };
                    assert(entries.push(entry) =~= entries + seq![entry]);
                    lemma_of_source_concat(entries, seq![entry], other);
                    lemma_of_source_single(entry, other);
                    assert(of_source(entries, other) + Seq::<StoreEntry>::empty() =~= of_source(
                        entries,
                        other,
                    ));
                },
                None => {},
            }
        },
    }
}

/// Two events of different sources may be applied in either order: the key
/// space of every source comes out the same.
pub proof fn law_interleaving(
    entries: Seq<StoreEntry>,
    first: RuntimeHostEvent,
    second: RuntimeHostEvent,
    source: Seq<char>,
)
    requires
        first.source()@ != second.source()@,
    ensures
        of_source(applied(applied(entries, first), second), source) == of_source(
            applied(applied(entries, second), first),
            source,
        ),
{
    if source == first.source()@ {
        law_other_sources_untouched(applied(entries, first), second, source);
        lemma_applied_is_local(entries, first);
        lemma_applied_is_local(applied(entries, second), first);
        law_other_sources_untouched(entries, second, source);
    } else if source == second.source()@ {
        law_other_sources_untouched(applied(entries, second), first, source);
        lemma_applied_is_local(entries, second);
        lemma_applied_is_local(applied(entries, first), second);
        law_other_sources_untouched(entries, first, source);
    } else {
        law_other_sources_untouched(applied(entries, first), second, source);
        law_other_sources_untouched(entries, first, source);
        law_other_sources_untouched(applied(entries, second), first, source);
        law_other_sources_untouched(entries, second, source);
    }
}

/// The events among `events` that the data source `source` emitted, in order.
pub open spec fn events_of(events: Seq<RuntimeHostEvent>, source: Seq<char>) -> Seq<
    RuntimeHostEvent,
>
    decreases events.len(),
{
    if events.len() == 0 {
        Seq::empty()
    } else {
        let rest = events_of(events.drop_last(), source);
        if events.last().source()@ == source {
            rest.push(events.last())
        } else {
            rest
        }
    }
}

/// However the channels interleave, the key space of a source is what its
/// own events make of it, applied in the order in which it emitted them.
pub proof fn law_key_space_follows_own_channel(
    schema: Schema,
    entries: Seq<StoreEntry>,
    events: Seq<RuntimeHostEvent>,
    source: Seq<char>,
)
    ensures
        of_source(applied_all(schema, entries, events), source) == applied_all(
            schema,
            of_source(entries, source),
            events_of(events, source),
        ),
    decreases events.len(),
{
    if events.len() > 0 {
        let earlier = events.drop_last();
        let event = events.last();
        let before = applied_all(schema, entries, earlier);
        law_key_space_follows_own_channel(schema, entries, earlier, source);
        if event.source()@ == source {
            assert(events_of(earlier, source).push(event).drop_last() =~= events_of(
                earlier,
                source,
            ));
            if rejection(schema, event) is None {
                lemma_applied_is_local(before, event);
            }
        } else if rejection(schema, event) is None {
            law_other_sources_untouched(before, event, source);
        }
    }
}

/// The entities of every data source, under the schema that their events are
/// held to.
pub struct Store {
    schema: Schema,
    entries: Vec<StoreEntry>,
}

/// Checks an event against the schema.
#[verifier::loop_isolation(false)]
fn check_event(schema: &Schema, event: &RuntimeHostEvent) -> (reason: Option<InvalidEventReason>)
    ensures
        reason == rejection(*schema, *event),
{
    let (key, payload) = match event {
        RuntimeHostEvent::EntityCreated(_, key, entity) => (key, Some(entity)),
        RuntimeHostEvent::EntityChanged(_, key, entity) => (key, Some(entity)),
        RuntimeHostEvent::EntityRemoved(_, key) => (key, None),
    };
    match schema.get_object_type(&key.entity) {
        None => Some(InvalidEventReason::UnresolvableKey),
        Some(object_type) => {
            if key.id.as_str().is_empty() {
                return Some(InvalidEventReason::UnresolvableKey);
            }
            match payload {
                None => None,
                Some(entity) => {
                    let mut i: usize = 0;
                    while i < entity.attributes.len()
                        invariant
                            i <= entity.attributes.len(),
                            forall|j: int|
                                0 <= j < i ==> attribute_fits(
                                    *object_type,
                                    #[trigger] entity.attributes@[j],
                                ),
                        decreases entity.attributes.len() - i,
                    {
                        let fitting = match object_type.get_field(&entity.attributes[i].0) {
                            Some(definition) => value_fits(
                                &entity.attributes[i].1,
                                &definition.field_type,
                            ),
                            None => false,
                        };
                        if !fitting {
                            assert(!attribute_fits(*object_type, entity.attributes@[i as int]));
                            return Some(InvalidEventReason::InvalidPayload);
                        }
                        i += 1;
                    }
                    None
                },
            }
        },
    }
}

impl Store {
    /// The schema that events are held to.
    pub closed spec fn schema(&self) -> Schema {
        self.schema
    }

    /// The stored entities, in the order in which their addresses were first written.
    pub closed spec fn contents(&self) -> Seq<StoreEntry> {
        self.entries@
    }

    #[verifier::type_invariant]
    spec fn well_formed(&self) -> bool {
        unique(self.entries@)
    }

    /// An empty store under `schema`.
    pub fn new(schema: Schema) -> (store: Store)
        ensures
            store.schema() == schema,
            store.contents() == Seq::<StoreEntry>::empty(),
    {
        Store { schema, entries: Vec::new() }
    }

    /// The schema that events are held to.
    pub fn get_schema(&self) -> (schema: &Schema)
        ensures
            *schema == self.schema(),
    {
        &self.schema
    }

    /// The stored entities, in store order.
    pub fn entries(&self) -> (entries: &Vec<StoreEntry>)
        ensures
            entries@ == self.contents(),
    {
        &self.entries
    }

    /// The number of stored entities.
    pub fn len(&self) -> (n: usize)
        ensures
            n == self.contents().len(),
    {
        self.entries.len()
    }

    fn find_position(&self, source: &DataSourceID, key: &StoreKey) -> (found: Option<usize>)
        ensures
            match found {
                Some(i) => position(self.contents(), source@, *key) == Some(i as int),
                None => position(self.contents(), source@, *key) is None,
            },
    {
        let mut i: usize = 0;
        while i < self.entries.len()
            invariant
                i <= self.entries.len(),
                position(self.entries@, source@, *key) == position_from(
                    self.entries@,
                    source@,
                    *key,
                    i as int,
                ),
            decreases self.entries.len() - i,
        {
            let entry = &self.entries[i];
            if entry.source == *source && entry.key.entity == key.entity && entry.key.id == key.id {
                return Some(i);
            }
            i += 1;
        }
        None
    }

    /// Point read: the entity that `source` keeps under `key`.
    pub fn get(&self, source: &DataSourceID, key: &StoreKey) -> (found: Option<&Entity>)
        ensures
            match position(self.contents(), source@, *key) {
                Some(i) => found == Some(&self.contents()[i].entity),
                None => found is None,
            },
    {
        proof {
            lemma_position_from(self.entries@, source@, *key, 0);
        }
        match self.find_position(source, key) {
            Some(i) => Some(&self.entries[i].entity),
            None => None,
        }
    }

    /// Applies one event. A well-formed event changes the store as `applied`
    /// says and yields the notification to publish; a malformed one is
    /// rejected and leaves the store as it was.
    pub fn apply(&mut self, event: RuntimeHostEvent) -> (result: Result<EntityChange, InvalidEvent>)
        ensures
            final(self).schema() == old(self).schema(),
            unique(final(self).contents()),
            result == answer(old(self).schema(), event),
            final(self).contents() == if rejection(old(self).schema(), event) is None {
                applied(old(self).contents(), event)
            } else {
                old(self).contents()
            },
    {
        proof {
            use_type_invariant(&*self);
        }
        let result = match check_event(&self.schema, &event) {
            Some(reason) => {
                let source = match event {
                    RuntimeHostEvent::EntityCreated(source, _, _) => source,
                    RuntimeHostEvent::EntityChanged(source, _, _) => source,
                    RuntimeHostEvent::EntityRemoved(source, _) => source,
                };
                Err(InvalidEvent { source, reason })
            },
            None => {
                match event {
                    RuntimeHostEvent::EntityCreated(source, key, entity) => {
                        let change = EntityChange {
                            source: source.clone(),
                            key: StoreKey { entity: key.entity.clone(), id: key.id.clone() },
                            operation: EntityChangeOperation::Created,
                        };
                        self.write(StoreEntry { source, key, entity });
                        Ok(change)
                    },
                    RuntimeHostEvent::EntityChanged(source, key, entity) => {
                        let change = EntityChange {
                            source: source.clone(),
                            key: StoreKey { entity: key.entity.clone(), id: key.id.clone() },
                            operation: EntityChangeOperation::Changed,
                        };
                        self.write(StoreEntry { source, key, entity });
                        Ok(change)
                    },
                    RuntimeHostEvent::EntityRemoved(source, key) => {
                        proof {
                            lemma_position_from(self.entries@, source@, key, 0);
                            lemma_removed_unique(self.entries@, source@, key);
                        }
                        match self.find_position(&source, &key) {
                            Some(i) => {
                                let mut entries: Vec<StoreEntry> = Vec::new();
                                core::mem::swap(&mut self.entries, &mut entries);
                                entries.remove(i);
                                core::mem::swap(&mut self.entries, &mut entries);
                            },
                            None => {},
                        }
                        Ok(EntityChange { source, key, operation: EntityChangeOperation::Removed })
                    },
                }
            },
        };
        proof {
            use_type_invariant(&*self);
        }
        result
    }

    /// Applies the events of one channel in the order in which they were
    /// delivered, and answers each. A rejected event does not hold up those
    /// that follow.
    pub fn apply_all(&mut self, events: Vec<RuntimeHostEvent>) -> (answers: Vec<
        Result<EntityChange, InvalidEvent>,
    >)
        ensures
            final(self).schema() == old(self).schema(),
            unique(final(self).contents()),
            final(self).contents() == applied_all(old(self).schema(), old(self).contents(), events@),
            answers@.len() == events@.len(),
            forall|i: int|
                0 <= i < events@.len() ==> #[trigger] answers@[i] == answer(
                    old(self).schema(),
                    events@[i],
                ),
    {
        let ghost all = events@;
        let ghost schema = self.schema();
        let ghost before = self.contents();
        let mut answers: Vec<Result<EntityChange, InvalidEvent>> = Vec::new();
        proof {
            use_type_invariant(&*self);
        }
        for event in it: events
            invariant
                it.seq() == all,
                self.schema() == schema,
                unique(self.contents()),
                self.contents() == applied_all(schema, before, all.take(it.index() as int)),
                answers@.len() == it.index(),
                forall|i: int|
                    0 <= i < it.index() ==> #[trigger] answers@[i] == answer(schema, all[i]),
        {
            proof {
                assert(all.take(it.index() + 1).drop_last() =~= all.take(it.index() as int));
            }
            let result = self.apply(event);
            answers.push(result);
        }
        proof {
            assert(all.take(all.len() as int) =~= all);
        }
        answers
    }

    fn write(&mut self, entry: StoreEntry)
        ensures
            final(self).schema() == old(self).schema(),
            final(self).contents() == upserted(old(self).contents(), entry),
    {
        proof {
            use_type_invariant(&*self);
            lemma_position_from(self.entries@, entry.source@, entry.key, 0);
            lemma_upserted_unique(self.entries@, entry);
        }
        let found = self.find_position(&entry.source, &entry.key);
        let mut entries: Vec<StoreEntry> = Vec::new();
        core::mem::swap(&mut self.entries, &mut entries);
        match found {
            Some(i) => {
                entries.set(i, entry);
            },
            None => {
                entries.push(entry);
            },
        }
        core::mem::swap(&mut self.entries, &mut entries);
    }
}

} // verus!
