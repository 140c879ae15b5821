//! Planning the flush of uncommitted data to level 0: measuring it, ordering
//! it, and cutting the key space into ranges that are compacted in parallel.
use std::collections::HashSet;
use vstd::prelude::*;
use crate::key::{
    UserKey, UserKeyView, bytes_le, bytes_le_exec, encode_full_key, encode_full_key_exec, MAX_EPOCH,
};
use crate::key_range::{KeyRange, KeyRangeView, bytes_content, bytes_from_vec, clone_bytes, empty_bytes};
use crate::uncommitted::{UncommittedData, data_size, has_start_key, start_user_key};

verus! {

/// The items of a payload, list after list.
pub open spec fn flatten(payload: Seq<Seq<UncommittedData>>) -> Seq<UncommittedData>
    decreases payload.len(),
{
    if payload.len() == 0 {
        Seq::empty()
    } else {
        flatten(payload.drop_last()) + payload.last()
    }
}

/// The lists of a payload, each as a sequence.
pub open spec fn payload_lists(payload: Seq<Vec<UncommittedData>>) -> Seq<Seq<UncommittedData>> {
    payload.map_values(|l: Vec<UncommittedData>| l@)
}

/// The items of a payload.
pub open spec fn payload_items(payload: Seq<Vec<UncommittedData>>) -> Seq<UncommittedData> {
    flatten(payload_lists(payload))
}

/// The size and the first user key of an item.
pub type SizeAndKey = (u64, UserKeyView);

/// The size and first user key of each item, in order.
pub open spec fn sizes_and_keys(items: Seq<UncommittedData>) -> Seq<SizeAndKey> {
    items.map_values(|d: UncommittedData| (data_size(d) as u64, start_user_key(d)))
}

/// The total size of items.
pub open spec fn total_size(items: Seq<UncommittedData>) -> int
    decreases items.len(),
{
    if items.len() == 0 {
        0
    } else {
        total_size(items.drop_last()) + data_size(items.last())
    }
}

/// The sum of the sizes of entries.
pub open spec fn sum_sizes(entries: Seq<SizeAndKey>) -> int
    decreases entries.len(),
{
    if entries.len() == 0 {
        0
    } else {
        sum_sizes(entries.drop_last()) + entries.last().0
    }
}

/// The items of a payload can be measured: each has a first user key, each
/// batch's size fits in `usize`, and the total size fits in `u64`.
pub open spec fn measurable(items: Seq<UncommittedData>) -> bool {
    &&& forall|i: int| 0 <= i < items.len() ==> has_start_key(#[trigger] items[i])
    &&& forall|i: int| 0 <= i < items.len() ==> (#[trigger] items[i] is Batch ==> data_size(items[i]) <= usize::MAX)
    &&& total_size(items) <= u64::MAX
}

/// The order of entries: by size, then by table id, then by table key.
pub open spec fn entry_le(a: SizeAndKey, b: SizeAndKey) -> bool {
    ||| a.0 < b.0
    ||| (a.0 == b.0 && a.1.0 < b.1.0)
    ||| (a.0 == b.0 && a.1.0 == b.1.0 && bytes_le(a.1.1, b.1.1))
}

/// `s` with `x` placed after every entry from the end that does not come
/// after it: for a sorted `s`, `x` goes after the entries that are not
/// greater than it.
pub open spec fn insert_entry(s: Seq<SizeAndKey>, x: SizeAndKey) -> Seq<SizeAndKey>
    decreases s.len(),
{
    if s.len() == 0 {
        seq![x]
    } else if entry_le(s.last(), x) {
        s.push(x)
    } else {
        insert_entry(s.drop_last(), x).push(s.last())
    }
}

/// The entries sorted by `entry_le`, keeping the order of equal entries.
pub open spec fn sort_entries(s: Seq<SizeAndKey>) -> Seq<SizeAndKey>
    decreases s.len(),
{
    if s.len() == 0 {
        Seq::empty()
    } else {
        insert_entry(sort_entries(s.drop_last()), s.last())
    }
}

/// An entry of the payload, as the flush handles it.
pub type Entry = (u64, UserKey);

/// The view of entries.
pub open spec fn entries_view(v: Seq<Entry>) -> Seq<SizeAndKey> {
    v.map_values(|e: Entry| (e.0, e.1@))
}

proof fn lemma_total_size_push(items: Seq<UncommittedData>, d: UncommittedData)
    ensures
        total_size(items.push(d)) == total_size(items) + data_size(d),
{
    assert(items.push(d).drop_last() == items);
}

proof fn lemma_total_size_nonneg(items: Seq<UncommittedData>)
    ensures
        total_size(items) >= 0,
    decreases items.len(),
{
    if items.len() > 0 {
        lemma_total_size_nonneg(items.drop_last());
    }
}

/// The total of a prefix does not exceed the total.
proof fn lemma_total_size_prefix(items: Seq<UncommittedData>, k: int)
    requires
        0 <= k <= items.len(),
    ensures
        total_size(items.take(k)) <= total_size(items),
    decreases items.len() - k,
{
    if k < items.len() {
        lemma_total_size_prefix(items, k + 1);
        assert(items.take(k + 1).drop_last() == items.take(k));
        lemma_total_size_push(items.take(k), items[k]);
        assert(data_size(items[k]) >= 0);
    } else {
        assert(items.take(k) == items);
    }
}

/// Measures the items of a payload, list after list: the size and first
/// user key of each item, and their total size.
pub fn measure_payload(payload: &Vec<Vec<UncommittedData>>) -> (measured: (Vec<Entry>, u64))
    requires
        measurable(payload_items(payload@)),
    ensures
        entries_view(measured.0@) == sizes_and_keys(payload_items(payload@)),
        measured.1 == total_size(payload_items(payload@)),
{
    let ghost lists = payload_lists(payload@);
    let ghost items = flatten(lists);
    let mut entries: Vec<Entry> = Vec::new();
    let mut compact_data_size: u64 = 0;
    let mut i: usize = 0;
    proof {
        assert(lists.take(0) =~= Seq::<Seq<UncommittedData>>::empty());
    }
    while i < payload.len()
        invariant
            i <= payload@.len(),
            lists == payload_lists(payload@),
            items == flatten(lists),
            measurable(items),
            flatten(lists.take(i as int)).len() <= items.len(),
            items.take(flatten(lists.take(i as int)).len() as int) == flatten(lists.take(i as int)),
            entries_view(entries@) == sizes_and_keys(flatten(lists.take(i as int))),
            compact_data_size == total_size(flatten(lists.take(i as int))),
        decreases payload@.len() - i,
    {
        let data_list = &payload[i];
        let ghost done = flatten(lists.take(i as int));
        proof {
            assert(lists.take(i + 1).drop_last() == lists.take(i as int));
            assert(lists.take(i + 1).last() == data_list@);
            lemma_flatten_prefix(lists, i as int);
        }
        let mut j: usize = 0;
        while j < data_list.len()
            invariant
                j <= data_list@.len(),
                items == flatten(lists),
                measurable(items),
                done.len() + data_list@.len() <= items.len(),
                items.take((done.len() + data_list@.len()) as int) == done + data_list@,
                entries_view(entries@) == sizes_and_keys(done + data_list@.take(j as int)),
                compact_data_size == total_size(done + data_list@.take(j as int)),
            decreases data_list@.len() - j,
        {
            let data = &data_list[j];
            let ghost pos: int = done.len() + j;
            proof {
                assert(items.take((done.len() + data_list@.len()) as int)[pos] == items[pos]);
                assert((done + data_list@)[pos] == data_list@[j as int]);
                assert(items[pos] == *data);
                assert(done + data_list@.take(j + 1) == (done + data_list@.take(j as int)).push(*data));
                lemma_total_size_push(done + data_list@.take(j as int), *data);
                assert(items.take(pos + 1) == done + data_list@.take(j + 1));
                lemma_total_size_prefix(items, pos + 1);
                lemma_total_size_nonneg(done + data_list@.take(j as int));
            }
            let size = data.data_size();
            compact_data_size = compact_data_size + size;
            let start_key = data.start_user_key();
            let ghost before = entries@;
            entries.push((size, start_key));
            proof {
                let prev = done + data_list@.take(j as int);
                assert(entries@ == before.push((size, start_key)));
                assert(entries_view(entries@) =~= entries_view(before).push((size, start_key@)));
                assert(sizes_and_keys(prev.push(*data)) =~= sizes_and_keys(prev).push(
                    (data_size(*data) as u64, start_user_key(*data)),
                ));
                assert(entries_view(entries@) =~= sizes_and_keys(done + data_list@.take(j + 1)));
            }
            j = j + 1;
        }
        proof {
            assert(data_list@.take(data_list@.len() as int) == data_list@);
            assert(flatten(lists.take(i + 1)) == done + data_list@);
        }
        i = i + 1;
    }
    proof {
        assert(lists.take(lists.len() as int) == lists);
    }
    (entries, compact_data_size)
}

/// The items of the first lists are a prefix of the items of all lists.
proof fn lemma_flatten_prefix(lists: Seq<Seq<UncommittedData>>, i: int)
    requires
        0 <= i < lists.len(),
    ensures
        flatten(lists.take(i)).len() + lists[i].len() <= flatten(lists).len(),
        flatten(lists).take((flatten(lists.take(i)).len() + lists[i].len()) as int) == flatten(lists.take(i)) + lists[i],
    decreases lists.len() - i,
{
    assert(lists.take(i + 1).drop_last() == lists.take(i));
    assert(lists.take(i + 1).last() == lists[i]);
    assert(flatten(lists.take(i + 1)) == flatten(lists.take(i)) + lists[i]);
    if i + 1 == lists.len() {
        assert(lists.take(i + 1) == lists);
        assert(flatten(lists).take(flatten(lists).len() as int) == flatten(lists));
    } else {
        lemma_flatten_prefix(lists, i + 1);
        let a = flatten(lists.take(i + 1));
        let b = flatten(lists);
        assert(b.take((a.len() + lists[i + 1].len()) as int) == a + lists[i + 1]);
        assert(b.take(a.len() as int) =~= a);
    }
}

/// Whether entry `a` comes before entry `b`, or is equal to it.
fn entry_le_exec(a: &Entry, b: &Entry) -> (le: bool)
    ensures
        le == entry_le((a.0, a.1@), (b.0, b.1@)),
{
    if a.0 != b.0 {
        a.0 < b.0
    } else if a.1.table_id.table_id != b.1.table_id.table_id {
        a.1.table_id.table_id < b.1.table_id.table_id
    } else {
        bytes_le_exec(&a.1.table_key, &b.1.table_key)
    }
}

/// Inserting after a run of greater entries at the end places the entry at
/// the start of that run.
proof fn lemma_insert_entry_at(s: Seq<SizeAndKey>, x: SizeAndKey, k: int)
    requires
        0 <= k <= s.len(),
        forall|m: int| k <= m < s.len() ==> !entry_le(#[trigger] s[m], x),
        k > 0 ==> entry_le(s[k - 1], x),
    ensures
        insert_entry(s, x) == s.insert(k, x),
    decreases s.len() - k,
{
    if s.len() == 0 {
        assert(s.insert(k, x) =~= seq![x]);
    } else if k == s.len() {
        assert(s.insert(k, x) =~= s.push(x));
    } else {
        assert(!entry_le(s.last(), x));
        lemma_insert_entry_at(s.drop_last(), x, k);
        assert(s.drop_last().insert(k, x).push(s.last()) =~= s.insert(k, x));
    }
}

/// Sorts entries by size, then table id, then table key; equal entries keep
/// their order.
pub fn sort_entries_exec(entries: Vec<Entry>) -> (sorted: Vec<Entry>)
    ensures
        entries_view(sorted@) == sort_entries(entries_view(entries@)),
{
    let ghost input = entries_view(entries@);
    let mut sorted: Vec<Entry> = Vec::new();
    proof {
        assert(input.take(0) =~= Seq::<SizeAndKey>::empty());
    }
    for e in it: entries
        invariant
            it.seq() == entries@,
            input == entries_view(entries@),
            entries_view(sorted@) == sort_entries(input.take(it.index() as int)),
    {
        let ghost i = it.index() as int;
        let ghost s = entries_view(sorted@);
        let ghost x = (e.0, e.1@);
        proof {
            assert(input[i] == x);
            assert(input.take(i + 1).drop_last() == input.take(i));
            assert(input.take(i + 1).last() == x);
        }
        let mut k: usize = sorted.len();
        while k > 0 && !entry_le_exec(&sorted[k - 1], &e)
            invariant
                k <= sorted@.len(),
                s == entries_view(sorted@),
                x == (e.0, e.1@),
                forall|m: int| k <= m < s.len() ==> !entry_le(#[trigger] s[m], x),
            decreases k,
        {
            k = k - 1;
        }
        proof {
            lemma_insert_entry_at(s, x, k as int);
        }
        sorted.insert(k, e);
        proof {
            assert(entries_view(sorted@) =~= s.insert(k as int, x));
        }
    }
    proof {
        assert(input.take(input.len() as int) == input);
    }
    sorted
}

proof fn lemma_sum_insert_entry(s: Seq<SizeAndKey>, x: SizeAndKey)
    ensures
        sum_sizes(insert_entry(s, x)) == sum_sizes(s) + x.0,
    decreases s.len(),
{
    if s.len() == 0 {
        assert(seq![x].drop_last() =~= Seq::<SizeAndKey>::empty());
        assert(seq![x].last() == x);
        assert(sum_sizes(seq![x].drop_last()) == 0);
        assert(sum_sizes(insert_entry(s, x)) == sum_sizes(s) + x.0);
    } else if entry_le(s.last(), x) {
        assert(s.push(x).drop_last() == s);
        assert(s.push(x).last() == x);
        assert(sum_sizes(insert_entry(s, x)) == sum_sizes(s) + x.0);
    } else {
        let r = insert_entry(s.drop_last(), x);
        lemma_sum_insert_entry(s.drop_last(), x);
        assert(r.push(s.last()).drop_last() == r);
        assert(r.push(s.last()).last() == s.last());
        assert(insert_entry(s, x) == r.push(s.last()));
        assert(sum_sizes(r.push(s.last())) == sum_sizes(r) + s.last().0);
        assert(sum_sizes(insert_entry(s, x)) == sum_sizes(s) + x.0);
    }
}

/// Sorting keeps the sum of the sizes.
pub proof fn lemma_sum_sort_entries(s: Seq<SizeAndKey>)
    ensures
        sum_sizes(sort_entries(s)) == sum_sizes(s),
    decreases s.len(),
{
    if s.len() > 0 {
        lemma_sum_sort_entries(s.drop_last());
        lemma_sum_insert_entry(sort_entries(s.drop_last()), s.last());
    }
}

/// The sum of the sizes of the measured items is their total size.
pub proof fn lemma_sum_sizes_measured(items: Seq<UncommittedData>)
    requires
        forall|i: int| 0 <= i < items.len() ==> (#[trigger] items[i] is Batch ==> data_size(items[i]) <= usize::MAX),
        total_size(items) <= u64::MAX,
    ensures
        sum_sizes(sizes_and_keys(items)) == total_size(items),
    decreases items.len(),
{
    if items.len() > 0 {
        let init = items.drop_last();
        assert forall|i: int| 0 <= i < init.len() && #[trigger] init[i] is Batch implies data_size(init[i])
            <= usize::MAX by {
            assert(init[i] == items[i]);
        }
        lemma_total_size_nonneg(init);
        assert(data_size(items.last()) >= 0);
        lemma_sum_sizes_measured(init);
        assert(sizes_and_keys(items).drop_last() =~= sizes_and_keys(init));
    }
}

/// The storage settings that the flush reads.
#[derive(Clone, Copy, Debug)]
pub struct StorageOptions {
    pub sstable_size_mb: u32,
    pub block_size_kb: u32,
    pub share_buffers_sync_parallelism: u32,
}

/// The target size of an sstable, in bytes.
pub open spec fn sstable_size(o: StorageOptions) -> int {
    o.sstable_size_mb * 0x10_0000
}

/// The number of compactions that may run in parallel for `n` items.
pub open spec fn parallelism(o: StorageOptions, n: int) -> int {
    if o.share_buffers_sync_parallelism <= n {
        o.share_buffers_sync_parallelism as int
    } else {
        n
    }
}

/// The key space is cut into several ranges: there is more data than one
/// sstable holds and more than one compaction may run.
pub open spec fn splits_enabled(total: int, o: StorageOptions, n: int) -> bool {
    parallelism(o, n) > 1 && total > sstable_size(o)
}

/// The amount of data that each parallel compaction aims at.
pub open spec fn sub_compaction_data_size(total: int, o: StorageOptions, n: int) -> int {
    if splits_enabled(total, o, n) {
        total / parallelism(o, n)
    } else {
        total
    }
}

/// The size of the sstables that each compaction writes: a fifth more than
/// its share of the data, but no more than the target sstable size.
pub open spec fn sub_compaction_sstable_size(total: int, o: StorageOptions, n: int) -> int {
    let share = sub_compaction_data_size(total, o, n) * 6 / 5;
    if sstable_size(o) <= share {
        sstable_size(o)
    } else {
        share
    }
}

/// Walking the entries in order: the data gathered since the last cut, the
/// last key seen, and the keys at which the space is cut. A cut is made at
/// an entry when at least `sub` bytes were gathered and the entry's key
/// differs from the last key.
pub open spec fn split_state(entries: Seq<SizeAndKey>, sub: int) -> (int, UserKeyView, Seq<UserKeyView>)
    decreases entries.len(),
{
    if entries.len() == 0 {
        (0, (0u32, Seq::empty()), Seq::empty())
    } else {
        let (gathered, last_key, cuts) = split_state(entries.drop_last(), sub);
        let (size, key) = entries.last();
        if gathered >= sub && last_key != key {
            (size as int, key, cuts.push(key))
        } else {
            (gathered + size, key, cuts)
        }
    }
}

/// The encoded full keys at which the key space is cut.
pub open spec fn split_bounds(entries: Seq<SizeAndKey>, total: int, o: StorageOptions) -> Seq<Seq<u8>> {
    if splits_enabled(total, o, entries.len() as int) {
        split_state(entries, sub_compaction_data_size(total, o, entries.len() as int)).2.map_values(
            |k: UserKeyView| encode_full_key(k, MAX_EPOCH),
        )
    } else {
        Seq::empty()
    }
}

/// The ranges between consecutive bounds, from no lower limit to no upper
/// limit.
pub open spec fn ranges_between(bounds: Seq<Seq<u8>>) -> Seq<KeyRangeView> {
    Seq::new(
        bounds.len() + 1,
        |i: int|
            (
                if i == 0 {
                    Seq::<u8>::empty()
                } else {
                    bounds[i - 1]
                },
                if i == bounds.len() {
                    Seq::<u8>::empty()
                } else {
                    bounds[i]
                },
            ),
    )
}

/// The key ranges of a flush and the size of the sstables it writes.
#[derive(Debug)]
pub struct SplitPlan {
    pub splits: Vec<KeyRange>,
    pub sub_compaction_sstable_size: u64,
}

/// The views of key ranges.
pub open spec fn ranges_view(v: Seq<KeyRange>) -> Seq<KeyRangeView> {
    v.map_values(|r: KeyRange| r@)
}

proof fn lemma_split_state_bounded(entries: Seq<SizeAndKey>, sub: int)
    ensures
        0 <= split_state(entries, sub).0 <= sum_sizes(entries),
    decreases entries.len(),
{
    if entries.len() > 0 {
        lemma_split_state_bounded(entries.drop_last(), sub);
        lemma_sum_sizes_nonneg(entries.drop_last());
    }
}

proof fn lemma_sum_sizes_nonneg(entries: Seq<SizeAndKey>)
    ensures
        sum_sizes(entries) >= 0,
    decreases entries.len(),
{
    if entries.len() > 0 {
        lemma_sum_sizes_nonneg(entries.drop_last());
    }
}

proof fn lemma_sum_sizes_prefix(entries: Seq<SizeAndKey>, k: int)
    requires
        0 <= k <= entries.len(),
    ensures
        sum_sizes(entries.take(k)) <= sum_sizes(entries),
    decreases entries.len() - k,
{
    if k < entries.len() {
        lemma_sum_sizes_prefix(entries, k + 1);
        assert(entries.take(k + 1).drop_last() == entries.take(k));
    } else {
        assert(entries.take(k) == entries);
    }
}

/// The key ranges between consecutive bounds.
fn ranges_from_bounds(bounds: Vec<Vec<u8>>) -> (splits: Vec<KeyRange>)
    ensures
        ranges_view(splits@) == ranges_between(bounds@.map_values(|b: Vec<u8>| b@)),
{
    let ghost bs = bounds@.map_values(|b: Vec<u8>| b@);
    let mut splits: Vec<KeyRange> = Vec::new();
    let mut left = empty_bytes();
    for bound in it: bounds
        invariant
            it.seq() == bounds@,
            bs == bounds@.map_values(|b: Vec<u8>| b@),
            splits@.len() == it.index(),
            forall|m: int| 0 <= m < it.index() ==> (#[trigger] splits@[m])@ == ranges_between(bs)[m],
            bytes_content(left) == (if it.index() == 0 {
                Seq::<u8>::empty()
            } else {
                bs[it.index() - 1]
            }),
    {
        let ghost i = it.index() as int;
        proof {
            assert(bound@ == bs[i]);
        }
        let right = bytes_from_vec(bound);
        splits.push(KeyRange::new(left, clone_bytes(&right)));
        left = right;
    }
    splits.push(KeyRange::new(left, empty_bytes()));
    proof {
        assert(ranges_view(splits@) =~= ranges_between(bs));
    }
    splits
}

/// Cuts the key space of a flush into ranges that are compacted in
/// parallel. The entries are the sizes and first keys of the flushed data in
/// the order in which they are walked; `compact_data_size` is their total.
pub fn plan_splits(entries: Vec<Entry>, compact_data_size: u64, options: &StorageOptions) -> (plan: SplitPlan)
    requires
        sum_sizes(entries_view(entries@)) == compact_data_size,
        sub_compaction_data_size(compact_data_size as int, *options, entries@.len() as int) * 6 <= u64::MAX,
    ensures
        ranges_view(plan.splits@) == ranges_between(
            split_bounds(entries_view(entries@), compact_data_size as int, *options),
        ),
        plan.sub_compaction_sstable_size == sub_compaction_sstable_size(
            compact_data_size as int,
            *options,
            entries@.len() as int,
        ),
{
    let ghost input = entries_view(entries@);
    let n = entries.len();
    let sstable_size: u64 = (options.sstable_size_mb as u64) * 0x10_0000;
    let parallelism: u64 = if (options.share_buffers_sync_parallelism as u64) <= (n as u64) {
        options.share_buffers_sync_parallelism as u64
    } else {
        n as u64
    };
    let sub_compaction_data_size = if compact_data_size > sstable_size && parallelism > 1 {
        compact_data_size / parallelism
    } else {
        compact_data_size
    };
    // A fifth more than the share of data, for the memory that other uses take.
    let share = sub_compaction_data_size * 6 / 5;
    let sub_compaction_sstable_size = if sstable_size <= share {
        sstable_size
    } else {
        share
    };
    let mut bounds: Vec<Vec<u8>> = Vec::new();
    if parallelism > 1 && compact_data_size > sstable_size {
        let mut last_buffer_size: u64 = 0;
        let mut last_user_key = UserKey::default_key();
        let ghost sub = sub_compaction_data_size as int;
        proof {
            assert(input.take(0) =~= Seq::<SizeAndKey>::empty());
            assert(bounds@.map_values(|b: Vec<u8>| b@) =~= Seq::<Seq<u8>>::empty());
        }
        for entry in it: entries
            invariant
                it.seq() == entries@,
                input == entries_view(entries@),
                sum_sizes(input) == compact_data_size,
                sub == sub_compaction_data_size,
                ({
                    let st = split_state(input.take(it.index() as int), sub);
                    &&& last_buffer_size == st.0
                    &&& last_user_key@ == st.1
                    &&& bounds@.map_values(|b: Vec<u8>| b@) == st.2.map_values(
                        |k: UserKeyView| encode_full_key(k, MAX_EPOCH),
                    )
                }),
        {
            let ghost i = it.index() as int;
            let ghost prev = split_state(input.take(i), sub);
            let ghost before = bounds@;
            let (data_size, user_key) = entry;
            proof {
                assert(input[i] == (data_size, user_key@));
                assert(input.take(i + 1).drop_last() == input.take(i));
                assert(input.take(i + 1).last() == (data_size, user_key@));
                lemma_split_state_bounded(input.take(i + 1), sub);
                lemma_sum_sizes_prefix(input, i + 1);
            }
            if last_buffer_size >= sub_compaction_data_size && !last_user_key.same_key(&user_key) {
                bounds.push(encode_full_key_exec(&user_key, MAX_EPOCH));
                proof {
                    assert(bounds@.map_values(|b: Vec<u8>| b@) =~= before.map_values(|b: Vec<u8>| b@).push(
                        encode_full_key(user_key@, MAX_EPOCH),
                    ));
                    assert(prev.2.push(user_key@).map_values(|k: UserKeyView| encode_full_key(k, MAX_EPOCH))
                        =~= prev.2.map_values(|k: UserKeyView| encode_full_key(k, MAX_EPOCH)).push(
                        encode_full_key(user_key@, MAX_EPOCH),
                    ));
                }
                last_user_key = user_key;
                last_buffer_size = data_size;
            } else {
                last_user_key = user_key;
                last_buffer_size = last_buffer_size + data_size;
            }
        }
        proof {
            assert(input.take(input.len() as int) == input);
        }
    } else {
        proof {
            assert(bounds@.map_values(|b: Vec<u8>| b@) =~= Seq::<Seq<u8>>::empty());
        }
    }
    SplitPlan { splits: ranges_from_bounds(bounds), sub_compaction_sstable_size }
}

/// The tables whose data `d` holds.
pub open spec fn table_ids_of(d: UncommittedData) -> Seq<u32> {
    match d {
        UncommittedData::Sst(sst) => sst.sst_info.table_ids@,
        UncommittedData::Batch(batch) => seq![batch.table_id.table_id],
    }
}

/// The tables whose data some of `items` hold.
pub open spec fn tables_in(items: Seq<UncommittedData>) -> Set<u32>
    decreases items.len(),
{
    if items.len() == 0 {
        Set::empty()
    } else {
        tables_in(items.drop_last()) + table_ids_of(items.last()).to_set()
    }
}

/// The tables that a flush collects are exactly those whose data one of its
/// items holds: each table of each sstable, and the table of each batch.
pub proof fn lemma_tables_in_exact(items: Seq<UncommittedData>)
    ensures
        forall|i: int, j: int|
            #![trigger items[i]->Sst_0.sst_info.table_ids@[j]]
            0 <= i < items.len() && items[i] is Sst && 0 <= j < items[i]->Sst_0.sst_info.table_ids@.len()
                ==> tables_in(items).contains(items[i]->Sst_0.sst_info.table_ids@[j]),
        forall|i: int|
            0 <= i < items.len() && (#[trigger] items[i]) is Batch ==> tables_in(items).contains(
                items[i]->Batch_0.table_id.table_id,
            ),
        forall|t: u32|
            #[trigger] tables_in(items).contains(t) ==> exists|i: int|
                0 <= i < items.len() && ((items[i] is Sst && items[i]->Sst_0.sst_info.table_ids@.contains(t)) || (
                items[i] is Batch && items[i]->Batch_0.table_id.table_id == t)),
    decreases items.len(),
{
    if items.len() > 0 {
        let init = items.drop_last();
        let n = init.len() as int;
        let d = items.last();
        lemma_tables_in_exact(init);
        assert forall|i: int, j: int|
            #![trigger items[i]->Sst_0.sst_info.table_ids@[j]]
            0 <= i < items.len() && items[i] is Sst && 0 <= j < items[i]->Sst_0.sst_info.table_ids@.len()
                implies tables_in(items).contains(items[i]->Sst_0.sst_info.table_ids@[j]) by {
            if i < n {
                assert(init[i] == items[i]);
                assert(tables_in(init).contains(init[i]->Sst_0.sst_info.table_ids@[j]));
            } else {
                assert(table_ids_of(d).contains(d->Sst_0.sst_info.table_ids@[j]));
            }
        }
        assert forall|i: int| 0 <= i < items.len() && (#[trigger] items[i]) is Batch implies tables_in(
            items,
        ).contains(items[i]->Batch_0.table_id.table_id) by {
            if i < n {
                assert(init[i] == items[i]);
            } else {
                assert(table_ids_of(d)[0] == d->Batch_0.table_id.table_id);
            }
        }
        assert forall|t: u32| #[trigger] tables_in(items).contains(t) implies exists|i: int|
            0 <= i < items.len() && ((items[i] is Sst && items[i]->Sst_0.sst_info.table_ids@.contains(t)) || (
            items[i] is Batch && items[i]->Batch_0.table_id.table_id == t)) by {
            if tables_in(init).contains(t) {
                let i = choose|i: int|
                    0 <= i < init.len() && ((init[i] is Sst && init[i]->Sst_0.sst_info.table_ids@.contains(t)) || (
                    init[i] is Batch && init[i]->Batch_0.table_id.table_id == t));
                assert(items[i] == init[i]);
            } else {
                assert(table_ids_of(d).contains(t));
                assert(items[n] == d);
            }
        }
    }
}

/// Adds the tables of `d` to `tables`.
fn add_tables(tables: &mut HashSet<u32>, d: &UncommittedData)
    ensures
        final(tables)@ == old(tables)@ + table_ids_of(*d).to_set(),
{
    broadcast use vstd::std_specs::hash::group_hash_axioms;

    match d {
        UncommittedData::Sst(sst) => {
            let ids = &sst.sst_info.table_ids;
            let ghost start = tables@;
            let mut k: usize = 0;
            while k < ids.len()
                invariant
                    k <= ids@.len(),
                    tables@ == start + ids@.take(k as int).to_set(),
                decreases ids@.len() - k,
            {
                tables.insert(ids[k]);
                proof {
                    assert(ids@.take(k + 1).to_set() =~= ids@.take(k as int).to_set().insert(ids@[k as int])) by {
                        assert(ids@.take(k + 1) == ids@.take(k as int).push(ids@[k as int]));
                        broadcast use vstd::seq_lib::group_seq_properties;
                    }
                    assert(tables@ =~= start + ids@.take(k + 1).to_set());
                }
                k = k + 1;
            }
            proof {
                assert(ids@.take(ids@.len() as int) == ids@);
            }
        },
        UncommittedData::Batch(batch) => {
            let ghost start = tables@;
            tables.insert(batch.table_id.table_id);
            proof {
                assert(seq![batch.table_id.table_id].to_set() =~= set![batch.table_id.table_id]) by {
                    broadcast use vstd::seq_lib::group_seq_properties;
                }
                assert(tables@ =~= start + table_ids_of(*d).to_set());
            }
        },
    }
}

/// The tables whose data the payload holds.
pub fn existing_table_ids(payload: &Vec<Vec<UncommittedData>>) -> (tables: HashSet<u32>)
    ensures
        tables@ == tables_in(payload_items(payload@)),
{
    let ghost lists = payload_lists(payload@);
    let mut tables: HashSet<u32> = HashSet::new();
    let mut i: usize = 0;
    proof {
        assert(lists.take(0) =~= Seq::<Seq<UncommittedData>>::empty());
        assert(tables@ =~= tables_in(flatten(lists.take(0))));
    }
    while i < payload.len()
        invariant
            i <= payload@.len(),
            lists == payload_lists(payload@),
            tables@ == tables_in(flatten(lists.take(i as int))),
        decreases payload@.len() - i,
    {
        let data_list = &payload[i];
        let ghost done = flatten(lists.take(i as int));
        proof {
            assert(lists.take(i + 1).drop_last() == lists.take(i as int));
            assert(lists.take(i + 1).last() == data_list@);
            assert(done + data_list@.take(0) == done);
        }
        let mut j: usize = 0;
        while j < data_list.len()
            invariant
                j <= data_list@.len(),
                tables@ == tables_in(done + data_list@.take(j as int)),
            decreases data_list@.len() - j,
        {
            add_tables(&mut tables, &data_list[j]);
            proof {
                let prev = done + data_list@.take(j as int);
                assert(done + data_list@.take(j + 1) == prev.push(data_list@[j as int]));
                assert(prev.push(data_list@[j as int]).drop_last() == prev);
            }
            j = j + 1;
        }
        proof {
            assert(data_list@.take(data_list@.len() as int) == data_list@);
            assert(flatten(lists.take(i + 1)) == done + data_list@);
        }
        i = i + 1;
    }
    proof {
        assert(lists.take(lists.len() as int) == lists);
    }
    tables
}

/// What a flush does before the compactions run: the key ranges to compact
/// in parallel, the size of the sstables they write, and the tables whose
/// data is flushed.
#[derive(Debug)]
pub struct FlushPlan {
    pub splits: Vec<KeyRange>,
    pub sub_compaction_sstable_size: u64,
    pub existing_table_ids: HashSet<u32>,
}


/// The inputs that a flush accepts: its items can be measured, some table's
/// data is flushed, and the share of data per compaction can be enlarged by
/// a fifth within `u64`.
pub open spec fn flushable(items: Seq<UncommittedData>, options: StorageOptions) -> bool {
    &&& measurable(items)
    &&& tables_in(items) != Set::<u32>::empty()
    &&& sub_compaction_data_size(total_size(items), options, items.len() as int) * 6 <= u64::MAX
}

/// Plans the flush of a payload to level 0: measures each item, orders the
/// items by size and first key, cuts the key space where enough data has
/// gathered, and collects the tables whose data is flushed.
pub fn plan_shared_buffer_compaction(
    payload: &Vec<Vec<UncommittedData>>,
    options: &StorageOptions,
) -> (plan: FlushPlan)
    requires
        flushable(payload_items(payload@), *options),
    ensures
        ({
            let items = payload_items(payload@);
            let total = total_size(items);
            &&& ranges_view(plan.splits@) == ranges_between(
                split_bounds(sort_entries(sizes_and_keys(items)), total, *options),
            )
            &&& plan.sub_compaction_sstable_size == sub_compaction_sstable_size(total, *options, items.len() as int)
            &&& plan.existing_table_ids@ == tables_in(items)
        }),
{
    let ghost items = payload_items(payload@);
    let (size_and_start_user_keys, compact_data_size) = measure_payload(payload);
    let sorted = sort_entries_exec(size_and_start_user_keys);
    proof {
        lemma_sum_sizes_measured(items);
        lemma_sum_sort_entries(sizes_and_keys(items));
        lemma_sort_entries_len(sizes_and_keys(items));
    }
    let split_plan = plan_splits(sorted, compact_data_size, options);
    let existing_table_ids = existing_table_ids(payload);
    FlushPlan {
        splits: split_plan.splits,
        sub_compaction_sstable_size: split_plan.sub_compaction_sstable_size,
        existing_table_ids,
    }
}

proof fn lemma_insert_entry_len(s: Seq<SizeAndKey>, x: SizeAndKey)
    ensures
        insert_entry(s, x).len() == s.len() + 1,
    decreases s.len(),
{
    if s.len() > 0 && !entry_le(s.last(), x) {
        lemma_insert_entry_len(s.drop_last(), x);
    }
}

/// Sorting keeps the number of entries.
proof fn lemma_sort_entries_len(s: Seq<SizeAndKey>)
    ensures
        sort_entries(s).len() == s.len(),
    decreases s.len(),
{
    if s.len() > 0 {
        lemma_sort_entries_len(s.drop_last());
        lemma_insert_entry_len(sort_entries(s.drop_last()), s.last());
    }
}

/// The ranges of a flush cover the key space without gap or overlap: the
/// first has no lower limit, the last no upper limit, and each ends where the
/// next begins, at a bound.
pub proof fn lemma_ranges_contiguous(bounds: Seq<Seq<u8>>)
    ensures
        ranges_between(bounds).len() == bounds.len() + 1,
        ranges_between(bounds)[0].0 == Seq::<u8>::empty(),
        ranges_between(bounds)[bounds.len() as int].1 == Seq::<u8>::empty(),
        forall|i: int|
            0 <= i < bounds.len() ==> (#[trigger] ranges_between(bounds)[i]).1 == bounds[i] && ranges_between(
                bounds,
            )[i + 1].0 == bounds[i],
{
}

/// The user key that the walk over `entries` compares the entry at `p`
/// with: that of the entry before it, or the default key before the first.
pub open spec fn key_before(entries: Seq<SizeAndKey>, p: int) -> UserKeyView {
    if p == 0 {
        (0u32, Seq::<u8>::empty())
    } else {
        entries[p - 1].1
    }
}

/// The range that began at entry `start` ends before entry `p`: the entries
/// from `start` up to `p` hold at least `sub` bytes, and `p` starts a user
/// key (table and table key) other than the one before it.
pub open spec fn cut_before(entries: Seq<SizeAndKey>, sub: int, start: int, p: int) -> bool {
    &&& sum_sizes(entries.subrange(start, p)) >= sub
    &&& entries[p].1 != key_before(entries, p)
}

/// Where the range that contains entry `q` began, given the cut positions
/// `pos` of which the first `m` lie before it.
pub open spec fn range_start(pos: Seq<int>, m: int) -> int {
    if m == 0 {
        0
    } else {
        pos[m - 1]
    }
}

/// `pos` are the positions at which a greedy walk cuts `entries` into
/// ranges of at least `sub` bytes: they ascend, each closes a range that
/// reached `sub` bytes at a change of user key, and no earlier entry of a
/// range, nor any entry after the last cut, could have closed it.
#[verifier::opaque]
pub open spec fn greedy_cuts(entries: Seq<SizeAndKey>, sub: int, pos: Seq<int>) -> bool {
    &&& forall|j: int| 0 <= j < pos.len() ==> 0 <= #[trigger] pos[j] < entries.len()
    &&& forall|j: int, l: int| 0 <= j < l < pos.len() ==> pos[j] < pos[l]
    &&& forall|j: int| 0 <= j < pos.len() ==> cut_before(entries, sub, range_start(pos, j), #[trigger] pos[j])
    &&& forall|j: int, q: int|
        0 <= j < pos.len() && (if j == 0 { 0 } else { pos[j - 1] + 1 }) <= q < pos[j] ==> !cut_before(
            entries,
            sub,
            range_start(pos, j),
            q,
        )
    &&& forall|q: int|
        (if pos.len() == 0 { 0 } else { pos.last() + 1 }) <= q < entries.len() ==> !cut_before(
            entries,
            sub,
            range_start(pos, pos.len() as int),
            q,
        )
}

proof fn lemma_sum_sizes_subrange_push(entries: Seq<SizeAndKey>, s: int, k: int)
    requires
        0 <= s <= k < entries.len(),
    ensures
        sum_sizes(entries.subrange(s, k + 1)) == sum_sizes(entries.subrange(s, k)) + entries[k].0,
{
    assert(entries.subrange(s, k + 1).drop_last() == entries.subrange(s, k));
}

/// The walk over the first `k` entries: the data gathered since the range
/// that `k` lies in began, the key of the entry before `k`, and the keys of
/// the first `m` cuts.
proof fn lemma_split_state_greedy(entries: Seq<SizeAndKey>, sub: int, pos: Seq<int>, k: int, m: int)
    requires
        greedy_cuts(entries, sub, pos),
        0 <= k <= entries.len(),
        0 <= m <= pos.len(),
        m > 0 ==> pos[m - 1] < k,
        m < pos.len() ==> pos[m] >= k,
    ensures
        split_state(entries.take(k), sub) == (
            sum_sizes(entries.subrange(range_start(pos, m), k)),
            key_before(entries, k),
            pos.take(m).map_values(|p: int| entries[p].1),
        ),
    decreases k,
{
    reveal(greedy_cuts);
    if k == 0 {
        assert(entries.subrange(0, 0) =~= Seq::<SizeAndKey>::empty());
        assert(pos.take(0).map_values(|p: int| entries[p].1) =~= Seq::<UserKeyView>::empty());
    } else {
        let i = k - 1;
        let cut_at_i = m > 0 && pos[m - 1] == i;
        let m0 = if cut_at_i { m - 1 } else { m };
        if cut_at_i && m0 > 0 {
            assert(pos[m0 - 1] < pos[m0]);
        }
        lemma_split_state_greedy(entries, sub, pos, i, m0);
        let prev = split_state(entries.take(i), sub);
        assert(entries.take(k).drop_last() == entries.take(i));
        assert(entries.take(k).last() == entries[i]);
        let s0 = range_start(pos, m0);
        assert(0 <= s0 <= i);
        lemma_sum_sizes_subrange_push(entries, s0, i);
        assert(prev.1 == key_before(entries, i));
        assert(prev.0 == sum_sizes(entries.subrange(s0, i)));
        if cut_at_i {
            assert(pos[m0] == i);
            assert(cut_before(entries, sub, range_start(pos, m0), pos[m0]));
            lemma_sum_sizes_subrange_push(entries, i, i);
            assert(entries.subrange(i, i) =~= Seq::<SizeAndKey>::empty());
            assert(sum_sizes(entries.subrange(i, k)) == entries[i].0);
            assert(range_start(pos, m) == i);
            assert(pos.take(m).map_values(|p: int| entries[p].1) =~= pos.take(m0).map_values(
                |p: int| entries[p].1,
            ).push(entries[i].1));
            assert(split_state(entries.take(k), sub) == (
                entries[i].0 as int,
                entries[i].1,
                prev.2.push(entries[i].1),
            ));
        } else {
            if m < pos.len() {
                assert(pos[m] >= k);
                assert((if m == 0 { 0 } else { pos[m - 1] + 1 }) <= i < pos[m]);
                assert(!cut_before(entries, sub, range_start(pos, m), i));
            } else {
                assert((if pos.len() == 0 { 0 } else { pos.last() + 1 }) <= i < entries.len());
                assert(!cut_before(entries, sub, range_start(pos, pos.len() as int), i));
            }
            assert(!cut_before(entries, sub, s0, i));
            assert(split_state(entries.take(k), sub) == (
                prev.0 + entries[i].0,
                entries[i].1,
                prev.2,
            ));
        }
    }
}

/// The key space of a flush is cut exactly where a greedy walk over the
/// sorted entries closes a range: at an entry whose user key differs from
/// the one before it, once the entries since the last cut (that cut's
/// entry included) hold at least the share of data per compaction, and
/// nowhere else. Each bound is the full key of such an entry at the
/// largest epoch.
pub proof fn lemma_split_bounds_greedy(entries: Seq<SizeAndKey>, total: int, o: StorageOptions, pos: Seq<int>)
    requires
        splits_enabled(total, o, entries.len() as int),
        greedy_cuts(entries, sub_compaction_data_size(total, o, entries.len() as int), pos),
    ensures
        split_bounds(entries, total, o) == pos.map_values(|p: int| encode_full_key(entries[p].1, MAX_EPOCH)),
{
    let sub = sub_compaction_data_size(total, o, entries.len() as int);
    reveal(greedy_cuts);
    if pos.len() > 0 {
        assert(pos[pos.len() - 1] < entries.len());
    }
    lemma_split_state_greedy(entries, sub, pos, entries.len() as int, pos.len() as int);
    assert(entries.take(entries.len() as int) == entries);
    assert(pos.take(pos.len() as int) == pos);
    let keys = pos.map_values(|p: int| entries[p].1);
    assert(split_state(entries, sub).2 == keys);
    assert(keys.map_values(|k: UserKeyView| encode_full_key(k, MAX_EPOCH)) =~= pos.map_values(
        |p: int| encode_full_key(entries[p].1, MAX_EPOCH),
    ));
}

/// Without enough data for two compactions, or with no parallelism, the key
/// space is not cut.
pub proof fn lemma_split_bounds_disabled(entries: Seq<SizeAndKey>, total: int, o: StorageOptions)
    requires
        !splits_enabled(total, o, entries.len() as int),
    ensures
        split_bounds(entries, total, o) == Seq::<Seq<u8>>::empty(),
{
}

/// `a` does not come after `b` in the order of entries.
proof fn lemma_entry_le_total(a: SizeAndKey, b: SizeAndKey)
    ensures
        entry_le(a, b) || entry_le(b, a),
{
    crate::key::lemma_bytes_le_total(a.1.1, b.1.1);
}

proof fn lemma_entry_le_transitive(a: SizeAndKey, b: SizeAndKey, c: SizeAndKey)
    requires
        entry_le(a, b),
        entry_le(b, c),
    ensures
        entry_le(a, c),
{
    if a.0 == b.0 && b.0 == c.0 && a.1.0 == b.1.0 && b.1.0 == c.1.0 {
        crate::key::lemma_bytes_le_transitive(a.1.1, b.1.1, c.1.1);
    }
}

/// `s` is ordered by `entry_le`.
pub open spec fn entries_sorted(s: Seq<SizeAndKey>) -> bool {
    forall|i: int, j: int| 0 <= i < j < s.len() ==> entry_le(#[trigger] s[i], #[trigger] s[j])
}

proof fn lemma_insert_entry_props(s: Seq<SizeAndKey>, x: SizeAndKey)
    requires
        entries_sorted(s),
    ensures
        entries_sorted(insert_entry(s, x)),
        insert_entry(s, x).to_multiset() == s.to_multiset().insert(x),
        forall|i: int| 0 <= i < insert_entry(s, x).len() ==> (#[trigger] insert_entry(s, x)[i] == x || s.contains(
            insert_entry(s, x)[i],
        )),
    decreases s.len(),
{
    broadcast use vstd::seq_lib::group_to_multiset_ensures;

    if s.len() == 0 {
        assert(seq![x] == Seq::<SizeAndKey>::empty().push(x));
    } else if entry_le(s.last(), x) {
        assert forall|i: int, j: int| 0 <= i < j < s.push(x).len() implies entry_le(
            #[trigger] s.push(x)[i],
            #[trigger] s.push(x)[j],
        ) by {
            if j == s.len() {
                if i < s.len() - 1 {
                    lemma_entry_le_transitive(s[i], s.last(), x);
                }
            }
        }
        assert forall|i: int| 0 <= i < s.push(x).len() implies (#[trigger] s.push(x)[i] == x || s.contains(
            s.push(x)[i],
        )) by {
            if i < s.len() {
                assert(s[i] == s.push(x)[i]);
            }
        }
    } else {
        let init = s.drop_last();
        let l = s.last();
        assert(entries_sorted(init)) by {
            assert forall|i: int, j: int| 0 <= i < j < init.len() implies entry_le(#[trigger] init[i], #[trigger] init[j]) by {
                assert(init[i] == s[i] && init[j] == s[j]);
            }
        }
        lemma_insert_entry_props(init, x);
        let r = insert_entry(init, x);
        lemma_entry_le_total(l, x);
        assert forall|i: int| 0 <= i < r.len() implies entry_le(#[trigger] r[i], l) by {
            if r[i] == x {
            } else {
                let k = choose|k: int| 0 <= k < init.len() && init[k] == r[i];
                assert(s[k] == init[k]);
            }
        }
        assert forall|i: int, j: int| 0 <= i < j < r.push(l).len() implies entry_le(
            #[trigger] r.push(l)[i],
            #[trigger] r.push(l)[j],
        ) by {
            if j == r.len() {
                assert(r.push(l)[i] == r[i]);
            } else {
                assert(r.push(l)[i] == r[i] && r.push(l)[j] == r[j]);
            }
        }
        assert(s == init.push(l));
        assert forall|i: int| 0 <= i < r.push(l).len() implies (#[trigger] r.push(l)[i] == x || s.contains(
            r.push(l)[i],
        )) by {
            if i < r.len() {
                assert(r.push(l)[i] == r[i]);
                if r[i] != x {
                    let k = choose|k: int| 0 <= k < init.len() && init[k] == r[i];
                    assert(s[k] == init[k]);
                }
            } else {
                assert(s[s.len() - 1] == l);
            }
        }
        assert(r.push(l).to_multiset() =~= s.to_multiset().insert(x));
    }
}

/// Sorting the entries orders them by size, then table id, then table key,
/// and keeps each entry as often as it occurs.
pub proof fn lemma_sort_entries_sorted(s: Seq<SizeAndKey>)
    ensures
        entries_sorted(sort_entries(s)),
        sort_entries(s).to_multiset() == s.to_multiset(),
    decreases s.len(),
{
    broadcast use vstd::seq_lib::group_to_multiset_ensures;

    if s.len() == 0 {
        assert(sort_entries(s).to_multiset() =~= s.to_multiset());
    } else {
        lemma_sort_entries_sorted(s.drop_last());
        lemma_insert_entry_props(sort_entries(s.drop_last()), s.last());
        assert(s == s.drop_last().push(s.last()));
    }
}

/// The tables of finitely many items are finitely many.
proof fn lemma_tables_in_finite(items: Seq<UncommittedData>)
    ensures
        tables_in(items).finite(),
    decreases items.len(),
{
    broadcast use vstd::seq_lib::seq_to_set_is_finite;

    if items.len() > 0 {
        lemma_tables_in_finite(items.drop_last());
    }
}

/// Whether a flush accepts the payload: whether the payload can be measured
/// and some table's data is flushed, and whether the share of data per
/// compaction can be enlarged by a fifth within `u64`.
pub fn is_flushable(payload: &Vec<Vec<UncommittedData>>, options: &StorageOptions) -> (ok: bool)
    ensures
        ok == flushable(payload_items(payload@), *options),
{
    let ghost lists = payload_lists(payload@);
    let ghost items = flatten(lists);
    let mut total: u64 = 0;
    let par = options.share_buffers_sync_parallelism as u64;
    // The number of items so far, up to `par`.
    let mut capped: u64 = 0;
    let ghost mut count: int = 0;
    let mut i: usize = 0;
    proof {
        assert(lists.take(0) =~= Seq::<Seq<UncommittedData>>::empty());
    }
    while i < payload.len()
        invariant
            i <= payload@.len(),
            lists == payload_lists(payload@),
            items == flatten(lists),
            count == flatten(lists.take(i as int)).len(),
            count <= items.len(),
            capped == (if count <= par { count } else { par as int }),
            items.take(count) == flatten(lists.take(i as int)),
            total == total_size(flatten(lists.take(i as int))),
            forall|k: int| 0 <= k < count ==> has_start_key(#[trigger] items[k]),
            forall|k: int| 0 <= k < count ==> (#[trigger] items[k] is Batch ==> data_size(items[k]) <= usize::MAX),
        decreases payload@.len() - i,
    {
        let data_list = &payload[i];
        let ghost done = flatten(lists.take(i as int));
        proof {
            assert(lists.take(i + 1).drop_last() == lists.take(i as int));
            assert(lists.take(i + 1).last() == data_list@);
            lemma_flatten_prefix(lists, i as int);
        }
        let mut j: usize = 0;
        while j < data_list.len()
            invariant
                j <= data_list@.len(),
                lists == payload_lists(payload@),
                items == flatten(lists),
                count == done.len() + j,
                capped == (if count <= par { count } else { par as int }),
                done.len() + data_list@.len() <= items.len(),
                items.take((done.len() + data_list@.len()) as int) == done + data_list@,
                total == total_size(done + data_list@.take(j as int)),
                forall|k: int| 0 <= k < count ==> has_start_key(#[trigger] items[k]),
                forall|k: int| 0 <= k < count ==> (#[trigger] items[k] is Batch ==> data_size(items[k]) <= usize::MAX),
            decreases data_list@.len() - j,
        {
            let data = &data_list[j];
            let ghost pos: int = done.len() + j;
            proof {
                assert(items.take((done.len() + data_list@.len()) as int)[pos] == items[pos]);
                assert((done + data_list@)[pos] == data_list@[j as int]);
                assert(items[pos] == *data);
                assert(done + data_list@.take(j + 1) == (done + data_list@.take(j as int)).push(*data));
                lemma_total_size_push(done + data_list@.take(j as int), *data);
                lemma_total_size_nonneg(done + data_list@.take(j as int));
            }
            let size: u64 = match data {
                UncommittedData::Sst(sst) => {
                    match &sst.sst_info.key_range {
                        Some(r) => {
                            if r.left.len() < 12 {
                                proof {
                                    assert(0 <= pos < items.len());
                                    assert(!has_start_key(items[pos]));
                                    assert(!measurable(items));
                                    assert(items == payload_items(payload@));
                                }
                                return false;
                            }
                        },
                        None => {
                            proof {
                                assert(0 <= pos < items.len());
                                assert(!has_start_key(items[pos]));
                            }
                            return false;
                        },
                    }
                    sst.sst_info.file_size
                },
                UncommittedData::Batch(batch) => {
                    if batch.payload.len() == 0 {
                        proof {
                            assert(0 <= pos < items.len());
                            assert(!has_start_key(items[pos]));
                            assert(!measurable(items));
                            assert(items == payload_items(payload@));
                        }
                        return false;
                    }
                    match batch.payload.len().checked_mul(8) {
                        Some(entries) => match entries.checked_add(batch.size) {
                            Some(size) => size as u64,
                            None => {
                                proof {
                                    assert(!(data_size(items[pos]) <= usize::MAX));
                                }
                                return false;
                            },
                        },
                        None => {
                            proof {
                                assert(!(data_size(items[pos]) <= usize::MAX));
                            }
                            return false;
                        },
                    }
                },
            };
            match total.checked_add(size) {
                Some(t) => {
                    total = t;
                },
                None => {
                    proof {
                        lemma_total_size_prefix(items, pos + 1);
                        assert(items.take(pos + 1) == done + data_list@.take(j + 1));
                    }
                    return false;
                },
            }
            if capped < par {
                capped = capped + 1;
            }
            proof {
                count = count + 1;
            }
            j = j + 1;
        }
        proof {
            assert(data_list@.take(data_list@.len() as int) == data_list@);
            assert(flatten(lists.take(i + 1)) == done + data_list@);
        }
        i = i + 1;
    }
    proof {
        assert(lists.take(lists.len() as int) == lists);
        assert(items.take(count) == items);
    }
    let tables = existing_table_ids(payload);
    if tables.len() == 0 {
        proof {
            lemma_tables_in_finite(items);
            tables_in(items).lemma_len0_is_empty();
        }
        return false;
    }
    proof {
        if tables_in(items) == Set::<u32>::empty() {
            assert(tables@.len() == 0);
        }
    }
    let sstable_size: u64 = (options.sstable_size_mb as u64) * 0x10_0000;
    let parallelism: u64 = capped;
    let sub_compaction_data_size = if total > sstable_size && parallelism > 1 {
        total / parallelism
    } else {
        total
    };
    sub_compaction_data_size <= u64::MAX / 6
}

} // verus!
