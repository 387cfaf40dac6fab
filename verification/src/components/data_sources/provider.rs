//! Events of a data source provider.

use vstd::prelude::*;
use crate::schema::Schema;

verus! {

/// Events emitted by data source providers.
#[derive(Clone, Debug)]
pub enum DataSourceProviderEvent {
    /// A data source was added to the provider.
    DataSourceAdded(&'static str),
    /// A data source was removed from the provider.
    DataSourceRemoved(&'static str),
}

/// Schema-only events emitted by a data source provider.
#[derive(Clone, Debug)]
pub enum SchemaEvent {
    /// A data source with a new schema was added.
    SchemaAdded(Schema),
    /// A data source with an existing schema was removed.
    SchemaRemoved(Schema),
}

} // verus!
