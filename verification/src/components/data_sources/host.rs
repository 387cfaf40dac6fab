//! Events of a runtime host: the ordered entity mutations of one data source.

use vstd::prelude::*;
use crate::components::store::{Entity, StoreKey};

verus! {

/// Type alias for data source IDs.
pub type DataSourceID = String;

/// Events emitted by a runtime host.
#[derive(Clone, Debug)]
pub enum RuntimeHostEvent {
    /// An entity should be created.
    EntityCreated(DataSourceID, StoreKey, Entity),
    /// An entity should be updated.
    EntityChanged(DataSourceID, StoreKey, Entity),
    /// An entity should be removed.
    EntityRemoved(DataSourceID, StoreKey),
}

impl RuntimeHostEvent {
    /// The data source that emitted the event.
    pub open spec fn source(self) -> DataSourceID {
        match self {
            RuntimeHostEvent::EntityCreated(source, _, _) => source,
            RuntimeHostEvent::EntityChanged(source, _, _) => source,
            RuntimeHostEvent::EntityRemoved(source, _) => source,
        }
    }

    /// The key of the entity that the event is about.
    pub open spec fn key(self) -> StoreKey {
        match self {
            RuntimeHostEvent::EntityCreated(_, key, _) => key,
            RuntimeHostEvent::EntityChanged(_, key, _) => key,
            RuntimeHostEvent::EntityRemoved(_, key) => key,
        }
    }

    /// The entity that the event carries; a removal carries none.
    pub open spec fn payload(self) -> Option<Entity> {
        match self {
            RuntimeHostEvent::EntityCreated(_, _, entity) => Some(entity),
            RuntimeHostEvent::EntityChanged(_, _, entity) => Some(entity),
            RuntimeHostEvent::EntityRemoved(_, _) => None,
        }
    }
}

} // verus!
