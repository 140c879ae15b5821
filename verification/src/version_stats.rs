//! The statistics of a storage version, as kept in the meta store.
use std::collections::HashMap;
use vstd::prelude::*;
use vstd::string::*;

verus! {

/// The key of a storage version.
pub type HummockVersionId = u64;

/// The column family in which version statistics are kept.
pub const HUMMOCK_VERSION_STATS_CF_NAME: &'static str = "cf/hummock_version_stats";

/// The sizes of one table's data.
#[derive(Clone, Copy, Debug, PartialEq, Eq, Structural)]
pub struct TableStats {
    pub total_key_size: i64,
    pub total_value_size: i64,
    pub total_key_count: i64,
}

/// The statistics of a storage version: the version and each table's sizes.
#[derive(Debug)]
pub struct HummockVersionStats {
    pub hummock_version_id: HummockVersionId,
    pub table_stats: HashMap<u32, TableStats>,
}

/// Version statistics as the version and a map from table to sizes.
pub type VersionStatsView = (HummockVersionId, Map<u32, TableStats>);

impl View for HummockVersionStats {
    type V = VersionStatsView;

    open spec fn view(&self) -> VersionStatsView {
        (self.hummock_version_id, self.table_stats@)
    }
}

/// A failure to read or write a metadata model.
#[derive(Debug)]
pub enum MetadataModelError {
    /// The stored bytes do not decode.
    Decode(String),
    /// The meta store failed.
    MetaStore(String),
}

impl HummockVersionStats {
    /// The column family of the statistics.
    pub fn cf_name() -> (name: String)
        ensures
            name@ == HUMMOCK_VERSION_STATS_CF_NAME@,
    {
        String::from_str(HUMMOCK_VERSION_STATS_CF_NAME)
    }

    /// The message that stores the statistics: a copy of them.
    pub fn to_protobuf(&self) -> (message: HummockVersionStats)
        ensures
            message@ == self@,
    {
        HummockVersionStats { hummock_version_id: self.hummock_version_id, table_stats: self.table_stats.clone() }
    }

    /// The statistics that a stored message holds: the message itself.
    pub fn from_protobuf(message: HummockVersionStats) -> (stats: HummockVersionStats)
        ensures
            stats@ == message@,
    {
        message
    }

    /// The key the statistics are stored under: only the latest version's
    /// statistics are kept, in one row with key 0.
    pub fn key(&self) -> (key: Result<HummockVersionId, MetadataModelError>)
        ensures
            key matches Ok(k) && k == 0,
    {
        Ok(0)
    }
}

} // verus!
