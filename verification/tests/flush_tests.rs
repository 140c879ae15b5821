use std::collections::HashMap;

use risingwave::compactor::{
    assign_compaction_groups, collect_level0, CachePolicy, CompactOutput, CompressionAlgorithm, HummockError,
    SharedBufferCompactRunner, SplitOutcome, DEFAULT_RESTART_INTERVAL,
};
use risingwave::flush::{
    existing_table_ids, measure_payload, plan_shared_buffer_compaction, plan_splits, sort_entries_exec,
    StorageOptions,
};
use risingwave::group::group_payload;
use risingwave::key::{bytes_le_exec, decode_user_key_exec, encode_full_key_exec, TableId, UserKey, MAX_EPOCH};
use risingwave::key_range::KeyRange;
use risingwave::uncommitted::{
    compaction_group_of, LocalSstableInfo, SharedBufferBatch, SstKeyRange, SstableInfo, StaticCompactionGroupId,
    UncommittedData,
};

fn batch(table: u32, keys: &[&[u8]], size: usize) -> UncommittedData {
    UncommittedData::Batch(SharedBufferBatch {
        table_id: TableId { table_id: table },
        payload: keys.iter().map(|k| (k.to_vec(), Some(vec![1u8]))).collect(),
        size,
    })
}

fn sst_info(id: u64, table: u32, key: &[u8], file_size: u64) -> SstableInfo {
    let mut left = table.to_be_bytes().to_vec();
    left.extend_from_slice(key);
    left.extend_from_slice(&7u64.to_be_bytes());
    SstableInfo {
        id,
        key_range: Some(SstKeyRange { left: left.clone(), right: left }),
        file_size,
        table_ids: vec![table],
    }
}

fn sst(group: u64, id: u64, table: u32, key: &[u8], file_size: u64) -> UncommittedData {
    UncommittedData::Sst(LocalSstableInfo { compaction_group_id: group, sst_info: sst_info(id, table, key, file_size) })
}

fn local(group: u64, id: u64) -> LocalSstableInfo {
    LocalSstableInfo { compaction_group_id: group, sst_info: sst_info(id, 1, b"k", 100) }
}

fn options() -> StorageOptions {
    StorageOptions { sstable_size_mb: 1, block_size_kb: 64, share_buffers_sync_parallelism: 2 }
}

fn full_key(table: u32, key: &[u8]) -> Vec<u8> {
    let mut v = table.to_be_bytes().to_vec();
    v.extend_from_slice(key);
    v.extend_from_slice(&[0xff; 8]);
    v
}

#[test]
fn full_key_encoding_and_decoding() {
    let key = UserKey { table_id: TableId { table_id: 0x0102_0304 }, table_key: vec![0xaa, 0xbb] };
    let encoded = encode_full_key_exec(&key, MAX_EPOCH);
    assert_eq!(encoded, vec![1, 2, 3, 4, 0xaa, 0xbb, 0xff, 0xff, 0xff, 0xff, 0xff, 0xff, 0xff, 0xff]);
    let decoded = decode_user_key_exec(&encoded);
    assert_eq!(decoded.table_id, key.table_id);
    assert_eq!(decoded.table_key, key.table_key);
    let with_epoch = encode_full_key_exec(&key, 0x0102);
    assert_eq!(&with_epoch[6..], &[0, 0, 0, 0, 0, 0, 1, 2]);
}

#[test]
fn byte_order_is_lexicographic() {
    assert!(bytes_le_exec(&vec![1, 2], &vec![1, 3]));
    assert!(bytes_le_exec(&vec![1, 2], &vec![1, 2, 0]));
    assert!(!bytes_le_exec(&vec![1, 2, 0], &vec![1, 2]));
    assert!(bytes_le_exec(&vec![], &vec![]));
    assert!(!bytes_le_exec(&vec![2], &vec![1, 9]));
}

#[test]
fn batches_go_to_their_table_group_or_the_default_one() {
    let mut index = HashMap::new();
    index.insert(10u32, 100u64);
    assert_eq!(compaction_group_of(&batch(10, &[b"a"], 1), &index), 100);
    assert_eq!(compaction_group_of(&batch(11, &[b"a"], 1), &index), StaticCompactionGroupId::StateDefault.id());
    assert_eq!(StaticCompactionGroupId::StateDefault.id(), 2);
    assert_eq!(compaction_group_of(&sst(5, 1, 10, b"a", 1), &index), 5);
}

#[test]
fn payload_is_split_by_group_in_order_of_appearance() {
    let mut index = HashMap::new();
    index.insert(10u32, 100u64);
    let payload = vec![
        vec![batch(10, &[b"a"], 1), sst(3, 9, 30, b"s", 50), batch(20, &[b"b"], 2)],
        vec![batch(20, &[b"c"], 3), batch(10, &[b"d"], 4), batch(10, &[b"e"], 5)],
        vec![batch(20, &[b"f"], 6)],
    ];
    let grouped = group_payload(payload, &index);
    let ids: Vec<u64> = grouped.iter().map(|(g, _)| *g).collect();
    assert_eq!(ids, vec![100, 3, 2]);
    let sizes = |lists: &Vec<Vec<UncommittedData>>| -> Vec<Vec<usize>> {
        lists
            .iter()
            .map(|l| {
                l.iter()
                    .map(|d| match d {
                        UncommittedData::Batch(b) => b.size,
                        UncommittedData::Sst(s) => s.sst_info.file_size as usize,
                    })
                    .collect()
            })
            .collect()
    };
    assert_eq!(sizes(&grouped[0].1), vec![vec![1], vec![4, 5]]);
    assert_eq!(sizes(&grouped[1].1), vec![vec![50]]);
    assert_eq!(sizes(&grouped[2].1), vec![vec![2], vec![3], vec![6]]);
}

#[test]
fn empty_payload_has_no_group() {
    let grouped = group_payload(vec![vec![], vec![]], &HashMap::new());
    assert!(grouped.is_empty());
}

#[test]
fn items_are_measured_in_order() {
    let payload = vec![vec![batch(1, &[b"\x01", b"\x03"], 10)], vec![sst(2, 1, 7, b"\x05", 40)]];
    let (entries, total) = measure_payload(&payload);
    assert_eq!(total, 2 * 8 + 10 + 40);
    assert_eq!(entries.len(), 2);
    assert_eq!(entries[0].0, 26);
    assert_eq!(entries[0].1.table_id.table_id, 1);
    assert_eq!(entries[0].1.table_key, vec![1]);
    assert_eq!(entries[1].0, 40);
    assert_eq!(entries[1].1.table_id.table_id, 7);
    assert_eq!(entries[1].1.table_key, vec![5]);
}

#[test]
fn entries_sort_by_size_then_key() {
    let e = |size: u64, table: u32, key: &[u8]| (size, UserKey { table_id: TableId { table_id: table }, table_key: key.to_vec() });
    let sorted = sort_entries_exec(vec![e(5, 2, b"b"), e(3, 9, b"z"), e(5, 1, b"z"), e(5, 2, b"a")]);
    let view: Vec<(u64, u32, Vec<u8>)> =
        sorted.iter().map(|(s, k)| (*s, k.table_id.table_id, k.table_key.clone())).collect();
    assert_eq!(
        view,
        vec![(3, 9, b"z".to_vec()), (5, 1, b"z".to_vec()), (5, 2, b"a".to_vec()), (5, 2, b"b".to_vec())]
    );
}

#[test]
fn small_flush_is_one_unbounded_range() {
    let key = |k: &[u8]| UserKey { table_id: TableId { table_id: 1 }, table_key: k.to_vec() };
    let plan = plan_splits(vec![(10, key(b"a")), (20, key(b"b"))], 30, &options());
    assert_eq!(plan.splits.len(), 1);
    assert!(plan.splits[0].left.is_empty() && plan.splits[0].right.is_empty());
    assert_eq!(plan.sub_compaction_sstable_size, 36);
}

#[test]
fn large_flush_is_cut_where_enough_data_gathered() {
    let payload = vec![vec![
        batch(1, &[b"\x01"], 600_000),
        batch(1, &[b"\x02"], 700_000),
        batch(2, &[b"\x00", b"\x05"], 900_000),
    ]];
    let plan = plan_shared_buffer_compaction(&payload, &options());
    assert_eq!(plan.sub_compaction_sstable_size, 1_048_576);
    assert_eq!(plan.splits.len(), 2);
    let bound = full_key(2, b"\x00");
    assert!(plan.splits[0].left.is_empty());
    assert_eq!(&plan.splits[0].right[..], &bound[..]);
    assert_eq!(&plan.splits[1].left[..], &bound[..]);
    assert!(plan.splits[1].right.is_empty());
    let mut tables: Vec<u32> = plan.existing_table_ids.iter().copied().collect();
    tables.sort();
    assert_eq!(tables, vec![1, 2]);
}

#[test]
fn single_parallelism_keeps_one_range() {
    let payload = vec![vec![batch(1, &[b"\x01"], 2_000_000), batch(2, &[b"\x02"], 2_000_000)]];
    let opts = StorageOptions { sstable_size_mb: 1, block_size_kb: 64, share_buffers_sync_parallelism: 1 };
    let plan = plan_shared_buffer_compaction(&payload, &opts);
    assert_eq!(plan.splits.len(), 1);
    assert_eq!(plan.sub_compaction_sstable_size, 1_048_576);
}

#[test]
fn table_ids_of_ssts_and_batches() {
    let payload = vec![vec![sst(3, 1, 7, b"a", 5), batch(8, &[b"b"], 1)], vec![batch(7, &[b"c"], 1)]];
    let mut tables: Vec<u32> = existing_table_ids(&payload).into_iter().collect();
    tables.sort();
    assert_eq!(tables, vec![7, 8]);
}

#[test]
fn runner_writes_sstables_of_the_planned_size() {
    let runner = SharedBufferCompactRunner::new(3, KeyRange::inf(), &options(), 4096);
    assert_eq!(runner.split_index, 3);
    assert_eq!(runner.compactor.options.capacity, 4096);
    assert_eq!(runner.compactor.options.block_capacity, 64 * 1024);
    assert_eq!(runner.compactor.options.restart_interval, DEFAULT_RESTART_INTERVAL);
    assert_eq!(runner.compactor.options.compression_algorithm, CompressionAlgorithm::Uncompressed);
    assert_eq!(runner.compactor.cache_policy, CachePolicy::Fill);
    assert!(!runner.compactor.gc_delete_keys);
    assert_eq!(runner.compactor.watermark, 0);
}

#[test]
fn level0_follows_key_range_order() {
    let outcomes = vec![
        SplitOutcome::Finished(CompactOutput { split_index: 2, ssts: vec![local(0, 20), local(0, 21)] }),
        SplitOutcome::Finished(CompactOutput { split_index: 0, ssts: vec![local(0, 1)] }),
        SplitOutcome::Finished(CompactOutput { split_index: 1, ssts: vec![] }),
    ];
    let level0 = collect_level0(outcomes).unwrap();
    let ids: Vec<u64> = level0.iter().map(|s| s.sst_info.id).collect();
    assert_eq!(ids, vec![1, 20, 21]);
}

#[test]
fn level0_reports_the_last_failure() {
    let outcomes = vec![
        SplitOutcome::Failed(HummockError::Other("first".to_string())),
        SplitOutcome::Finished(CompactOutput { split_index: 0, ssts: vec![local(0, 1)] }),
        SplitOutcome::Failed(HummockError::Other("second".to_string())),
    ];
    match collect_level0(outcomes) {
        Err(HummockError::Other(m)) => assert_eq!(m, "second"),
        other => panic!("unexpected {:?}", other),
    }
    let outcomes = vec![SplitOutcome::Failed(HummockError::Other("x".to_string())), SplitOutcome::Aborted];
    match collect_level0(outcomes) {
        Err(HummockError::CompactionExecutor(m)) => assert_eq!(m, "failed while execute in tokio"),
        other => panic!("unexpected {:?}", other),
    }
}

#[test]
fn results_are_marked_with_their_group() {
    let results = vec![(5u64, vec![local(0, 1), local(9, 2)]), (6u64, vec![]), (7u64, vec![local(1, 3)])];
    let ssts = assign_compaction_groups(results);
    let view: Vec<(u64, u64)> = ssts.iter().map(|s| (s.compaction_group_id, s.sst_info.id)).collect();
    assert_eq!(view, vec![(5, 1), (5, 2), (7, 3)]);
}
