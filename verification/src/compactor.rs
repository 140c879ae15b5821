//! The compactions that a flush runs, one per key range, and how their
//! outputs are put together.
use vstd::prelude::*;
use vstd::string::*;
use crate::flush::StorageOptions;
use crate::key_range::{KeyRange, KeyRangeView};
use crate::uncommitted::{CompactionGroupId, LocalSstableInfo};

verus! {

/// A flush keeps every deleted key: later data may still need the delete.
pub const GC_DELETE_KEYS_FOR_FLUSH: bool = false;

/// A flush keeps every version: no version is old enough to drop.
pub const GC_WATERMARK_FOR_FLUSH: u64 = 0;

/// The number of keys between restart points of a block.
pub const DEFAULT_RESTART_INTERVAL: usize = 16;

/// Whether reads fill the block cache.
#[derive(Clone, Copy, Debug, PartialEq, Eq, Structural)]
pub enum CachePolicy {
    Disable,
    Fill,
    NotFill,
}

/// The compression of sstable blocks.
#[derive(Clone, Copy, Debug, PartialEq, Eq, Structural)]
pub enum CompressionAlgorithm {
    Uncompressed,
    Lz4,
    Zstd,
}

/// How the sstables of a compaction are built.
#[derive(Clone, Copy, Debug)]
pub struct SstableBuilderOptions {
    /// The size at which an sstable is finished, in bytes.
    pub capacity: usize,
    /// The size at which a block is finished, in bytes.
    pub block_capacity: usize,
    pub restart_interval: usize,
    pub compression_algorithm: CompressionAlgorithm,
}

impl SstableBuilderOptions {
    /// The builder options that the storage settings give: sstables and
    /// blocks of the configured sizes, uncompressed.
    pub fn from_storage_options(options: &StorageOptions) -> (b: SstableBuilderOptions)
        requires
            options.sstable_size_mb * 0x10_0000 <= usize::MAX,
            options.block_size_kb * 0x400 <= usize::MAX,
        ensures
            b.capacity == options.sstable_size_mb * 0x10_0000,
            b.block_capacity == options.block_size_kb * 0x400,
            b.restart_interval == DEFAULT_RESTART_INTERVAL,
            b.compression_algorithm == CompressionAlgorithm::Uncompressed,
    {
        SstableBuilderOptions {
            capacity: (options.sstable_size_mb as usize) * 0x10_0000,
            block_capacity: (options.block_size_kb as usize) * 0x400,
            restart_interval: DEFAULT_RESTART_INTERVAL,
            compression_algorithm: CompressionAlgorithm::Uncompressed,
        }
    }
}

/// The settings of one compaction of a key range.
#[derive(Debug)]
pub struct Compactor {
    pub options: SstableBuilderOptions,
    pub key_range: KeyRange,
    pub cache_policy: CachePolicy,
    pub gc_delete_keys: bool,
    pub watermark: u64,
}

/// The compaction of one key range of a flush.
#[derive(Debug)]
pub struct SharedBufferCompactRunner {
    pub compactor: Compactor,
    pub split_index: usize,
}

impl SharedBufferCompactRunner {
    /// The compaction of the key range at `split_index`: it writes sstables
    /// of `sub_compaction_sstable_size` bytes, fills the block cache, and
    /// keeps every delete and every version.
    pub fn new(
        split_index: usize,
        key_range: KeyRange,
        options: &StorageOptions,
        sub_compaction_sstable_size: usize,
    ) -> (runner: SharedBufferCompactRunner)
        requires
            options.sstable_size_mb * 0x10_0000 <= usize::MAX,
            options.block_size_kb * 0x400 <= usize::MAX,
        ensures
            runner.split_index == split_index,
            runner.compactor.key_range@ == key_range@,
            runner.compactor.options.capacity == sub_compaction_sstable_size,
            runner.compactor.options.block_capacity == options.block_size_kb * 0x400,
            runner.compactor.options.restart_interval == DEFAULT_RESTART_INTERVAL,
            runner.compactor.options.compression_algorithm == CompressionAlgorithm::Uncompressed,
            runner.compactor.cache_policy == CachePolicy::Fill,
            runner.compactor.gc_delete_keys == GC_DELETE_KEYS_FOR_FLUSH,
            runner.compactor.watermark == GC_WATERMARK_FOR_FLUSH,
    {
        let mut builder_options = SstableBuilderOptions::from_storage_options(options);
        builder_options.capacity = sub_compaction_sstable_size;
        let compactor = Compactor {
            options: builder_options,
            key_range,
            cache_policy: CachePolicy::Fill,
            gc_delete_keys: GC_DELETE_KEYS_FOR_FLUSH,
            watermark: GC_WATERMARK_FOR_FLUSH,
        };
        SharedBufferCompactRunner { compactor, split_index }
    }
}

/// What a compaction yields: the index of its key range and the sstables it
/// wrote.
#[derive(Debug)]
pub struct CompactOutput {
    pub split_index: usize,
    pub ssts: Vec<LocalSstableInfo>,
}

impl CompactOutput {
    /// The output of the compaction of the key range at `split_index`.
    pub fn new(split_index: usize, ssts: Vec<LocalSstableInfo>) -> (output: CompactOutput)
        ensures
            output.split_index == split_index,
            output.ssts@ == ssts@,
    {
        CompactOutput { split_index, ssts }
    }
}

/// An error of the storage engine.
#[derive(Debug)]
pub enum HummockError {
    /// The executor that ran a compaction failed.
    CompactionExecutor(String),
    /// Any other failure.
    Other(String),
}

/// How a compaction ended.
#[derive(Debug)]
pub enum SplitOutcome {
    /// It finished with its output.
    Finished(CompactOutput),
    /// It failed with an error.
    Failed(HummockError),
    /// The task that ran it did not complete.
    Aborted,
}

/// `e` is the error that the outcome `o` reports: the error it failed with,
/// or, for an aborted task, an executor error.
pub open spec fn reports(o: SplitOutcome, e: HummockError) -> bool {
    match o {
        SplitOutcome::Finished(_) => false,
        SplitOutcome::Failed(e0) => e == e0,
        SplitOutcome::Aborted => e matches HummockError::CompactionExecutor(m) && m@
            == "failed while execute in tokio"@,
    }
}

/// The position of the last outcome that is not a finished one, if any.
pub open spec fn last_failure(outs: Seq<SplitOutcome>) -> Option<int>
    decreases outs.len(),
{
    if outs.len() == 0 {
        None
    } else if outs.last() is Finished {
        last_failure(outs.drop_last())
    } else {
        Some(outs.len() - 1)
    }
}

/// The outputs of the finished outcomes, in order.
pub open spec fn finished_outputs(outs: Seq<SplitOutcome>) -> Seq<CompactOutput>
    decreases outs.len(),
{
    if outs.len() == 0 {
        Seq::empty()
    } else {
        match outs.last() {
            SplitOutcome::Finished(o) => finished_outputs(outs.drop_last()).push(o),
            _ => finished_outputs(outs.drop_last()),
        }
    }
}

/// `s` with `x` placed after every output from the end whose split index is
/// not greater than `x`'s.
pub open spec fn insert_output(s: Seq<CompactOutput>, x: CompactOutput) -> Seq<CompactOutput>
    decreases s.len(),
{
    if s.len() == 0 {
        seq![x]
    } else if s.last().split_index <= x.split_index {
        s.push(x)
    } else {
        insert_output(s.drop_last(), x).push(s.last())
    }
}

/// The outputs sorted by split index, keeping the order of equal indices.
pub open spec fn sort_outputs(s: Seq<CompactOutput>) -> Seq<CompactOutput>
    decreases s.len(),
{
    if s.len() == 0 {
        Seq::empty()
    } else {
        insert_output(sort_outputs(s.drop_last()), s.last())
    }
}

/// The sstables of the outputs, output after output.
pub open spec fn concat_ssts(s: Seq<CompactOutput>) -> Seq<LocalSstableInfo>
    decreases s.len(),
{
    if s.len() == 0 {
        Seq::empty()
    } else {
        concat_ssts(s.drop_last()) + s.last().ssts@
    }
}

proof fn lemma_insert_output_at(s: Seq<CompactOutput>, x: CompactOutput, k: int)
    requires
        0 <= k <= s.len(),
        forall|m: int| k <= m < s.len() ==> (#[trigger] s[m]).split_index > x.split_index,
        k > 0 ==> s[k - 1].split_index <= x.split_index,
    ensures
        insert_output(s, x) == s.insert(k, x),
    decreases s.len() - k,
{
    if s.len() == 0 {
        assert(s.insert(k, x) =~= seq![x]);
    } else if k == s.len() {
        assert(s.insert(k, x) =~= s.push(x));
    } else {
        lemma_insert_output_at(s.drop_last(), x, k);
        assert(s.drop_last().insert(k, x).push(s.last()) =~= s.insert(k, x));
    }
}

proof fn lemma_last_failure_in_range(outs: Seq<SplitOutcome>)
    ensures
        last_failure(outs) matches Some(k) ==> 0 <= k < outs.len() && !(outs[k] is Finished),
    decreases outs.len(),
{
    if outs.len() > 0 {
        lemma_last_failure_in_range(outs.drop_last());
    }
}

/// A flush fails exactly when one of its compactions did not finish, and
/// then with the error of the last such compaction: every compaction after
/// it finished.
pub proof fn lemma_last_failure_exact(outs: Seq<SplitOutcome>)
    ensures
        last_failure(outs) is None <==> forall|k: int| 0 <= k < outs.len() ==> (#[trigger] outs[k]) is Finished,
        last_failure(outs) matches Some(k) ==> {
            &&& 0 <= k < outs.len()
            &&& !(outs[k] is Finished)
            &&& forall|m: int| k < m < outs.len() ==> (#[trigger] outs[m]) is Finished
        },
    decreases outs.len(),
{
    if outs.len() > 0 {
        let init = outs.drop_last();
        lemma_last_failure_exact(init);
        assert forall|k: int| 0 <= k < init.len() implies #[trigger] init[k] == outs[k] by {}
        if outs.last() is Finished {
            if last_failure(init) is None {
                assert forall|k: int| 0 <= k < outs.len() implies (#[trigger] outs[k]) is Finished by {
                    if k < init.len() {
                        assert(init[k] == outs[k]);
                    }
                }
            } else {
                let k = last_failure(init)->0;
                assert(init[k] == outs[k]);
                assert forall|m: int| k < m < outs.len() implies (#[trigger] outs[m]) is Finished by {
                    if m < init.len() {
                        assert(init[m] == outs[m]);
                    }
                }
            }
        } else {
            assert(!(outs[outs.len() - 1] is Finished));
        }
    }
}

/// When every compaction finished, their outputs are taken in the order of
/// the outcomes, each once.
pub proof fn lemma_finished_outputs_all(outs: Seq<SplitOutcome>)
    requires
        forall|k: int| 0 <= k < outs.len() ==> (#[trigger] outs[k]) is Finished,
    ensures
        finished_outputs(outs).len() == outs.len(),
        forall|k: int| 0 <= k < outs.len() ==> (#[trigger] finished_outputs(outs)[k]) == outs[k]->Finished_0,
    decreases outs.len(),
{
    if outs.len() > 0 {
        let init = outs.drop_last();
        assert forall|k: int| 0 <= k < init.len() implies (#[trigger] init[k]) is Finished by {
            assert(init[k] == outs[k]);
        }
        lemma_finished_outputs_all(init);
        assert(outs[outs.len() - 1] is Finished);
        assert forall|k: int| 0 <= k < outs.len() implies (#[trigger] finished_outputs(outs)[k]) == outs[k]->Finished_0 by {
            if k < init.len() {
                assert(init[k] == outs[k]);
            }
        }
    }
}

/// The sstables put together from outputs are those of each output, output
/// after output: the `j`-th sstable of the `i`-th output comes right after
/// the sstables of the outputs before it and its own first `j`.
pub proof fn lemma_concat_ssts_positions(s: Seq<CompactOutput>, i: int, j: int)
    requires
        0 <= i < s.len(),
        0 <= j < s[i].ssts@.len(),
    ensures
        concat_ssts(s.take(i)).len() + j < concat_ssts(s).len(),
        concat_ssts(s)[concat_ssts(s.take(i)).len() + j] == s[i].ssts@[j],
    decreases s.len(),
{
    if i == s.len() - 1 {
        assert(s.take(i) == s.drop_last());
    } else {
        lemma_concat_ssts_positions(s.drop_last(), i, j);
        assert(s.drop_last().take(i) == s.take(i));
        assert(s.drop_last()[i] == s[i]);
    }
}

/// Puts together the level-0 sstables of a flush from the outcomes of its
/// compactions, in whatever order these completed. When every compaction
/// finished, the sstables are those of the outputs ordered by key-range
/// index; otherwise the error reported by the last outcome that did not
/// finish is returned.
pub fn collect_level0(outcomes: Vec<SplitOutcome>) -> (level0: Result<Vec<LocalSstableInfo>, HummockError>)
    ensures
        last_failure(outcomes@) matches Some(k) ==> 0 <= k < outcomes@.len(),
        match last_failure(outcomes@) {
            None => level0 matches Ok(v) && v@ == concat_ssts(sort_outputs(finished_outputs(outcomes@))),
            Some(k) => level0 matches Err(e) && reports(outcomes@[k], e),
        },
        level0 is Ok <==> forall|k: int| 0 <= k < outcomes@.len() ==> (#[trigger] outcomes@[k]) is Finished,
{
    proof {
        lemma_last_failure_exact(outcomes@);
    }
    let mut output_ssts: Vec<CompactOutput> = Vec::new();
    let mut err: Option<HummockError> = None;
    proof {
        assert(outcomes@.take(0) =~= Seq::<SplitOutcome>::empty());
    }
    for outcome in it: outcomes
        invariant
            it.seq() == outcomes@,
            output_ssts@ == finished_outputs(outcomes@.take(it.index() as int)),
            last_failure(outcomes@.take(it.index() as int)) matches Some(k) ==> 0 <= k < it.index(),
            match last_failure(outcomes@.take(it.index() as int)) {
                None => err is None,
                Some(k) => err matches Some(e) && reports(outcomes@[k], e),
            },
    {
        let ghost i = it.index() as int;
        proof {
            assert(outcomes@.take(i + 1).drop_last() == outcomes@.take(i));
            assert(outcomes@.take(i + 1).last() == outcomes@[i]);
            assert(outcome == outcomes@[i]);
        }
        match outcome {
            SplitOutcome::Finished(output) => {
                output_ssts.push(output);
            },
            SplitOutcome::Failed(e) => {
                err = Some(e);
            },
            SplitOutcome::Aborted => {
                err = Some(HummockError::CompactionExecutor(String::from_str("failed while execute in tokio")));
            },
        }
        proof {
            lemma_last_failure_in_range(outcomes@.take(i));
            lemma_last_failure_in_range(outcomes@.take(i + 1));
            if let Some(k) = last_failure(outcomes@.take(i)) {
                assert(outcomes@.take(i)[k] == outcomes@[k]);
            }
        }
    }
    proof {
        assert(outcomes@.take(outcomes@.len() as int) == outcomes@);
    }
    match err {
        Some(e) => {
            return Err(e);
        },
        None => {},
    }
    // Order the outputs by key-range index.
    let ghost outputs = output_ssts@;
    let mut sorted: Vec<CompactOutput> = Vec::new();
    proof {
        assert(outputs.take(0) =~= Seq::<CompactOutput>::empty());
    }
    for output in it: output_ssts
        invariant
            it.seq() == outputs,
            sorted@ == sort_outputs(outputs.take(it.index() as int)),
    {
        let ghost i = it.index() as int;
        let ghost s = sorted@;
        proof {
            assert(outputs.take(i + 1).drop_last() == outputs.take(i));
            assert(outputs.take(i + 1).last() == output);
        }
        let mut k: usize = sorted.len();
        while k > 0 && sorted[k - 1].split_index > output.split_index
            invariant
                k <= sorted@.len(),
                s == sorted@,
                forall|m: int| k <= m < s.len() ==> (#[trigger] s[m]).split_index > output.split_index,
            decreases k,
        {
            k = k - 1;
        }
        proof {
            lemma_insert_output_at(s, output, k as int);
        }
        sorted.insert(k, output);
    }
    proof {
        assert(outputs.take(outputs.len() as int) == outputs);
    }
    let ghost ordered = sorted@;
    let mut level0: Vec<LocalSstableInfo> = Vec::new();
    proof {
        assert(ordered.take(0) =~= Seq::<CompactOutput>::empty());
    }
    for output in it: sorted
        invariant
            it.seq() == ordered,
            level0@ == concat_ssts(ordered.take(it.index() as int)),
    {
        let ghost i = it.index() as int;
        let ghost start = level0@;
        proof {
            assert(ordered.take(i + 1).drop_last() == ordered.take(i));
            assert(ordered.take(i + 1).last() == output);
        }
        let ghost ssts = output.ssts@;
        for sst in jt: output.ssts
            invariant
                jt.seq() == ssts,
                level0@ == start + ssts.take(jt.index() as int),
        {
            let ghost j = jt.index() as int;
            level0.push(sst);
            proof {
                assert(ssts.take(j + 1) == ssts.take(j).push(sst));
            }
        }
        proof {
            assert(ssts.take(ssts.len() as int) == ssts);
        }
    }
    proof {
        assert(ordered.take(ordered.len() as int) == ordered);
    }
    Ok(level0)
}

/// The sstables of per-group results, group after group, each marked with
/// the compaction group it was flushed for.
pub open spec fn assign_groups(results: Seq<(CompactionGroupId, Seq<LocalSstableInfo>)>) -> Seq<LocalSstableInfo>
    decreases results.len(),
{
    if results.len() == 0 {
        Seq::empty()
    } else {
        assign_groups(results.drop_last()) + results.last().1.map_values(mark_group(results.last().0))
    }
}

/// Marks an sstable with a compaction group.
pub open spec fn mark_group(id: CompactionGroupId) -> spec_fn(LocalSstableInfo) -> LocalSstableInfo {
    |s: LocalSstableInfo| LocalSstableInfo { compaction_group_id: id, sst_info: s.sst_info }
}

/// The views of per-group results.
pub open spec fn results_view(v: Seq<(CompactionGroupId, Vec<LocalSstableInfo>)>) -> Seq<(CompactionGroupId, Seq<LocalSstableInfo>)> {
    v.map_values(|r: (CompactionGroupId, Vec<LocalSstableInfo>)| (r.0, r.1@))
}

/// Marks the sstables flushed for each compaction group with that group and
/// puts them together, group after group.
pub fn assign_compaction_groups(results: Vec<(CompactionGroupId, Vec<LocalSstableInfo>)>) -> (ssts: Vec<LocalSstableInfo>)
    ensures
        ssts@ == assign_groups(results_view(results@)),
{
    let ghost input = results_view(results@);
    let mut ssts: Vec<LocalSstableInfo> = Vec::new();
    proof {
        assert(input.take(0) =~= Seq::<(CompactionGroupId, Seq<LocalSstableInfo>)>::empty());
    }
    for result in it: results
        invariant
            it.seq() == results@,
            input == results_view(results@),
            ssts@ == assign_groups(input.take(it.index() as int)),
    {
        let ghost i = it.index() as int;
        let ghost start = ssts@;
        let (id, group_ssts) = result;
        let ghost group = group_ssts@;
        proof {
            assert(input[i] == (id, group));
            assert(input.take(i + 1).drop_last() == input.take(i));
            assert(input.take(i + 1).last() == (id, group));
        }
        for sst in jt: group_ssts
            invariant
                jt.seq() == group,
                ssts@ == start + group.take(jt.index() as int).map_values(mark_group(id)),
        {
            let ghost j = jt.index() as int;
            let ghost item = sst;
            let marked = LocalSstableInfo { compaction_group_id: id, sst_info: sst.sst_info };
            ssts.push(marked);
            proof {
                assert(item == group[j]);
                assert(marked == mark_group(id)(item));
                assert(group.take(j + 1) == group.take(j).push(item));
                assert(group.take(j + 1).map_values(mark_group(id)) =~= group.take(j).map_values(mark_group(id)).push(
                    mark_group(id)(item),
                ));
                assert(ssts@ =~= start + group.take(j + 1).map_values(mark_group(id)));
            }
        }
        proof {
            assert(group.take(group.len() as int) == group);
        }
    }
    proof {
        assert(input.take(input.len() as int) == input);
    }
    ssts
}

/// The outputs are ordered by split index.
pub open spec fn outputs_sorted(s: Seq<CompactOutput>) -> bool {
    forall|i: int, j: int| 0 <= i < j < s.len() ==> (#[trigger] s[i]).split_index <= (#[trigger] s[j]).split_index
}

proof fn lemma_insert_output_props(s: Seq<CompactOutput>, x: CompactOutput)
    requires
        outputs_sorted(s),
    ensures
        outputs_sorted(insert_output(s, x)),
        insert_output(s, x).to_multiset() == s.to_multiset().insert(x),
        forall|i: int| 0 <= i < insert_output(s, x).len() ==> (#[trigger] insert_output(s, x)[i] == x || s.contains(
            insert_output(s, x)[i],
        )),
    decreases s.len(),
{
    broadcast use vstd::seq_lib::group_to_multiset_ensures;

    if s.len() == 0 {
        assert(seq![x] == Seq::<CompactOutput>::empty().push(x));
    } else if s.last().split_index <= x.split_index {
        assert forall|i: int| 0 <= i < s.push(x).len() implies (#[trigger] s.push(x)[i] == x || s.contains(
            s.push(x)[i],
        )) by {
            if i < s.len() {
                assert(s[i] == s.push(x)[i]);
            }
        }
    } else {
        let init = s.drop_last();
        let l = s.last();
        assert(outputs_sorted(init)) by {
            assert forall|i: int, j: int| 0 <= i < j < init.len() implies (#[trigger] init[i]).split_index
                <= (#[trigger] init[j]).split_index by {
                assert(init[i] == s[i] && init[j] == s[j]);
            }
        }
        lemma_insert_output_props(init, x);
        let r = insert_output(init, x);
        assert forall|i: int| 0 <= i < r.len() implies (#[trigger] r[i]).split_index <= l.split_index by {
            if r[i] != x {
                let k = choose|k: int| 0 <= k < init.len() && init[k] == r[i];
                assert(s[k] == init[k]);
            }
        }
        assert forall|i: int, j: int| 0 <= i < j < r.push(l).len() implies (#[trigger] r.push(l)[i]).split_index
            <= (#[trigger] r.push(l)[j]).split_index by {
            assert(r.push(l)[i] == r[i]);
            if j < r.len() {
                assert(r.push(l)[j] == r[j]);
            }
        }
        assert(s == init.push(l));
        assert forall|i: int| 0 <= i < r.push(l).len() implies (#[trigger] r.push(l)[i] == x || s.contains(
            r.push(l)[i],
        )) by {
            if i < r.len() {
                assert(r.push(l)[i] == r[i]);
                if r[i] != x {
                    let k = choose|k: int| 0 <= k < init.len() && init[k] == r[i];
                    assert(s[k] == init[k]);
                }
            } else {
                assert(s[s.len() - 1] == l);
            }
        }
        assert(r.push(l).to_multiset() =~= s.to_multiset().insert(x));
    }
}

/// The outputs of a flush are put together in key-range order: sorting
/// orders them by split index and keeps each output as often as it occurs.
pub proof fn lemma_sort_outputs_sorted(s: Seq<CompactOutput>)
    ensures
        outputs_sorted(sort_outputs(s)),
        sort_outputs(s).to_multiset() == s.to_multiset(),
    decreases s.len(),
{
    broadcast use vstd::seq_lib::group_to_multiset_ensures;

    if s.len() == 0 {
        assert(sort_outputs(s).to_multiset() =~= s.to_multiset());
    } else {
        lemma_sort_outputs_sorted(s.drop_last());
        lemma_insert_output_props(sort_outputs(s.drop_last()), s.last());
        assert(s == s.drop_last().push(s.last()));
    }
}

} // verus!
