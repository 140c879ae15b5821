//! Data written to the storage engine but not yet committed: flushed
//! sstables and in-memory write batches, and which compaction group each
//! belongs to.
use std::collections::HashMap;
use vstd::prelude::*;
use crate::key::{TableId, UserKey, UserKeyView, decode_user_key, decode_user_key_exec};
use crate::vec_copy::copy_vec;

verus! {

/// The identifier of a compaction group.
pub type CompactionGroupId = u64;

/// The compaction groups that exist from the start.
#[derive(Clone, Copy, Debug, PartialEq, Eq, Structural)]
pub enum StaticCompactionGroupId {
    /// A group yet to be created.
    NewCompactionGroup,
    /// The group of local compaction of the shared buffer.
    SharedBuffer,
    /// The group that state tables belong to unless placed elsewhere.
    StateDefault,
    /// The group of materialized views.
    MaterializedView,
    /// Larger than every static group.
    End,
}

impl StaticCompactionGroupId {
    /// The group's identifier.
    pub open spec fn spec_id(self) -> CompactionGroupId {
        match self {
            StaticCompactionGroupId::NewCompactionGroup => 0,
            StaticCompactionGroupId::SharedBuffer => 1,
            StaticCompactionGroupId::StateDefault => 2,
            StaticCompactionGroupId::MaterializedView => 3,
            StaticCompactionGroupId::End => 4,
        }
    }

    /// The group's identifier.
    #[verifier::when_used_as_spec(spec_id)]
    pub fn id(self) -> (id: CompactionGroupId)
        ensures
            id == self.spec_id(),
    {
        match self {
            StaticCompactionGroupId::NewCompactionGroup => 0,
            StaticCompactionGroupId::SharedBuffer => 1,
            StaticCompactionGroupId::StateDefault => 2,
            StaticCompactionGroupId::MaterializedView => 3,
            StaticCompactionGroupId::End => 4,
        }
    }
}

/// The key range of an sstable: its smallest and largest encoded full keys.
#[derive(Debug)]
pub struct SstKeyRange {
    pub left: Vec<u8>,
    pub right: Vec<u8>,
}

/// The description of an sstable.
#[derive(Debug)]
pub struct SstableInfo {
    pub id: u64,
    pub key_range: Option<SstKeyRange>,
    pub file_size: u64,
    pub table_ids: Vec<u32>,
}

/// An sstable written by this node, with the compaction group it belongs to.
#[derive(Debug)]
pub struct LocalSstableInfo {
    pub compaction_group_id: CompactionGroupId,
    pub sst_info: SstableInfo,
}

/// A batch of writes of one table held in memory: each entry is a table key
/// with its new value, `None` for a delete, sorted by key.
#[derive(Debug)]
pub struct SharedBufferBatch {
    pub table_id: TableId,
    pub payload: Vec<(Vec<u8>, Option<Vec<u8>>)>,
    pub size: usize,
}

/// Data that is written but not committed.
#[derive(Debug)]
pub enum UncommittedData {
    Sst(LocalSstableInfo),
    Batch(SharedBufferBatch),
}

/// Lists of uncommitted data; within a list the data is ordered.
pub type UploadTaskPayload = Vec<Vec<UncommittedData>>;

/// The compaction group of `d`: the sstable's own group, or, for a batch,
/// its table's group in `index`, falling back to the default state group.
pub open spec fn group_of(d: UncommittedData, index: Map<u32, CompactionGroupId>) -> CompactionGroupId {
    match d {
        UncommittedData::Sst(sst) => sst.compaction_group_id,
        UncommittedData::Batch(batch) => if index.contains_key(batch.table_id.table_id) {
            index[batch.table_id.table_id]
        } else {
            StaticCompactionGroupId::StateDefault.spec_id()
        },
    }
}

/// The compaction group of `d`.
pub fn compaction_group_of(d: &UncommittedData, index: &HashMap<u32, CompactionGroupId>) -> (g: CompactionGroupId)
    ensures
        g == group_of(*d, index@),
{
    broadcast use vstd::std_specs::hash::group_hash_axioms;

    match d {
        UncommittedData::Sst(sst) => sst.compaction_group_id,
        UncommittedData::Batch(batch) => match index.get(&batch.table_id.table_id) {
            // The group is only a hint for grouping data: a table without a
            // known group goes to the default one.
            None => StaticCompactionGroupId::StateDefault.id(),
            Some(group_id) => *group_id,
        },
    }
}

/// The first user key of `d` can be read: an sstable has a key range whose
/// smallest key holds at least a table id and an epoch, and a batch is not
/// empty.
pub open spec fn has_start_key(d: UncommittedData) -> bool {
    match d {
        UncommittedData::Sst(sst) => sst.sst_info.key_range matches Some(r) && r.left@.len() >= 12,
        UncommittedData::Batch(batch) => batch.payload@.len() > 0,
    }
}

/// The smallest user key in `d`.
pub open spec fn start_user_key(d: UncommittedData) -> UserKeyView
    recommends
        has_start_key(d),
{
    match d {
        UncommittedData::Sst(sst) => decode_user_key(sst.sst_info.key_range.unwrap().left@),
        UncommittedData::Batch(batch) => (batch.table_id.table_id, batch.payload@[0].0@),
    }
}

/// The number of bytes that `d` adds to a compaction: an sstable's file
/// size, or eight bytes per entry of a batch beyond the batch's size.
pub open spec fn data_size(d: UncommittedData) -> int {
    match d {
        UncommittedData::Sst(sst) => sst.sst_info.file_size as int,
        UncommittedData::Batch(batch) => batch.payload@.len() * 8 + batch.size,
    }
}

impl UncommittedData {
    /// The smallest user key in the data.
    pub fn start_user_key(&self) -> (key: UserKey)
        requires
            has_start_key(*self),
        ensures
            key@ == start_user_key(*self),
    {
        match self {
            UncommittedData::Sst(sst) => match &sst.sst_info.key_range {
                Some(r) => decode_user_key_exec(&r.left),
                None => UserKey::default_key(),
            },
            UncommittedData::Batch(batch) => UserKey {
                table_id: batch.table_id,
                table_key: copy_vec(&batch.payload[0].0),
            },
        }
    }

    /// The number of bytes that the data adds to a compaction.
    pub fn data_size(&self) -> (size: u64)
        requires
            *self is Batch ==> data_size(*self) <= usize::MAX,
        ensures
            size == data_size(*self),
    {
        match self {
            UncommittedData::Sst(sst) => sst.sst_info.file_size,
            UncommittedData::Batch(batch) => (batch.payload.len() * 8 + batch.size) as u64,
        }
    }
}

} // verus!
