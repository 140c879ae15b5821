//! Splitting uncommitted data by compaction group before it is flushed.
use std::collections::HashMap;
use vstd::prelude::*;
use crate::uncommitted::{CompactionGroupId, UncommittedData, UploadTaskPayload, compaction_group_of, group_of};

verus! {

/// Whether an item belongs to group `g`.
pub open spec fn in_group(index: Map<u32, CompactionGroupId>, g: CompactionGroupId) -> spec_fn(
    UncommittedData,
) -> bool {
    |d: UncommittedData| group_of(d, index) == g
}

/// Whether a list holds anything.
pub open spec fn non_empty() -> spec_fn(Seq<UncommittedData>) -> bool {
    |l: Seq<UncommittedData>| l.len() > 0
}

/// The part of `payload` that belongs to group `g`: each list cut down to
/// the group's items, in order, leaving out the lists that hold none.
pub open spec fn lists_in_group(
    payload: Seq<Seq<UncommittedData>>,
    index: Map<u32, CompactionGroupId>,
    g: CompactionGroupId,
) -> Seq<Seq<UncommittedData>> {
    payload.map_values(|l: Seq<UncommittedData>| l.filter(in_group(index, g))).filter(non_empty())
}

/// `ids` extended by the groups of `list` that it does not hold yet, in the
/// order in which they first occur.
pub open spec fn add_group_ids(
    ids: Seq<CompactionGroupId>,
    list: Seq<UncommittedData>,
    index: Map<u32, CompactionGroupId>,
) -> Seq<CompactionGroupId>
    decreases list.len(),
{
    if list.len() == 0 {
        ids
    } else {
        let before = add_group_ids(ids, list.drop_last(), index);
        let g = group_of(list.last(), index);
        if before.contains(g) {
            before
        } else {
            before.push(g)
        }
    }
}

/// The groups that the items of `payload` belong to, each once, in the order
/// in which they first occur.
pub open spec fn group_ids(payload: Seq<Seq<UncommittedData>>, index: Map<u32, CompactionGroupId>) -> Seq<
    CompactionGroupId,
>
    decreases payload.len(),
{
    if payload.len() == 0 {
        Seq::empty()
    } else {
        add_group_ids(group_ids(payload.drop_last(), index), payload.last(), index)
    }
}

/// The lists of a payload, each as a sequence.
pub open spec fn payload_view(payload: Seq<Vec<UncommittedData>>) -> Seq<Seq<UncommittedData>> {
    payload.map_values(|l: Vec<UncommittedData>| l@)
}

/// Cutting a payload by group distributes over appending a list: the list
/// adds its part of the group, if it has one.
proof fn lemma_lists_in_group_push(
    a: Seq<Seq<UncommittedData>>,
    l: Seq<UncommittedData>,
    index: Map<u32, CompactionGroupId>,
    g: CompactionGroupId,
)
    ensures
        lists_in_group(a.push(l), index, g) == (if l.filter(in_group(index, g)).len() > 0 {
            lists_in_group(a, index, g).push(l.filter(in_group(index, g)))
        } else {
            lists_in_group(a, index, g)
        }),
{
    reveal(Seq::filter);
    let f = |x: Seq<UncommittedData>| x.filter(in_group(index, g));
    assert(a.push(l).map_values(f) =~= a.map_values(f).push(f(l)));
    assert(a.map_values(f).push(f(l)).drop_last() == a.map_values(f));
}

/// Filtering a list extended by one item.
proof fn lemma_filter_push(l: Seq<UncommittedData>, d: UncommittedData, p: spec_fn(UncommittedData) -> bool)
    ensures
        l.push(d).filter(p) == (if p(d) {
            l.filter(p).push(d)
        } else {
            l.filter(p)
        }),
{
    reveal(Seq::filter);
    assert(l.push(d).drop_last() == l);
}

/// Splits `payload` by compaction group. Each group, in the order in which
/// the groups first occur, comes with the group's part of the payload: each
/// list cut down to the group's items, without the lists that hold none.
///
/// The groups come as a list rather than as a map keyed by group: a hash
/// map would hand them to the caller in an order that depends on its
/// hasher, while this order is fixed by the payload, so that the flush
/// that starts one compaction per group is the same from run to run and
/// can be stated exactly. Each group occurs once, as it would as a key.
pub fn group_payload(
    payload: UploadTaskPayload,
    compaction_group_index: &HashMap<u32, CompactionGroupId>,
) -> (grouped: Vec<(CompactionGroupId, UploadTaskPayload)>)
    ensures
        grouped@.len() == group_ids(payload_view(payload@), compaction_group_index@).len(),
        forall|k: int|
            0 <= k < grouped@.len() ==> {
                &&& (#[trigger] grouped@[k]).0 == group_ids(payload_view(payload@), compaction_group_index@)[k]
                &&& payload_view(grouped@[k].1@) == lists_in_group(
                    payload_view(payload@),
                    compaction_group_index@,
                    grouped@[k].0,
                )
            },
{
    let ghost index = compaction_group_index@;
    let ghost lists_of = payload_view(payload@);
    let mut ids: Vec<CompactionGroupId> = Vec::new();
    let mut lists: Vec<UploadTaskPayload> = Vec::new();
    for uncommitted_list in it: payload
        invariant
            it.seq() == payload@,
            lists_of == payload_view(payload@),
            index == compaction_group_index@,
            ids@ == group_ids(lists_of.take(it.index() as int), index),
            lists@.len() == ids@.len(),
            forall|a: int, b: int| 0 <= a < b < ids@.len() ==> ids@[a] != ids@[b],
            forall|k: int|
                0 <= k < ids@.len() ==> payload_view(#[trigger] lists@[k]@) == lists_in_group(
                    lists_of.take(it.index() as int),
                    index,
                    ids@[k],
                ),
            forall|g: CompactionGroupId|
                !ids@.contains(g) ==> lists_in_group(lists_of.take(it.index() as int), index, g).len() == 0,
    {
        let ghost i = it.index() as int;
        let ghost done = lists_of.take(i);
        let ghost list = uncommitted_list@;
        let ghost start_ids = ids@;
        proof {
            assert(list == lists_of[i]);
            assert(lists_of.take(i + 1) == done.push(list));
            assert(list.take(0) =~= Seq::<UncommittedData>::empty());
            assert forall|g: CompactionGroupId| #[trigger] lists_in_group(done.push(list.take(0)), index, g) == lists_in_group(done, index, g) by {
                lemma_lists_in_group_push(done, list.take(0), index, g);
                reveal(Seq::filter);
                assert(list.take(0).filter(in_group(index, g)) =~= Seq::<UncommittedData>::empty());
            }
        }
        // started[k]: group ids[k] has a list for this list of the payload.
        let mut started: Vec<bool> = Vec::new();
        while started.len() < ids.len()
            invariant
                started@.len() <= ids@.len(),
                forall|k: int| 0 <= k < started@.len() ==> !started@[k],
            decreases ids@.len() - started@.len(),
        {
            started.push(false);
        }
        for uncommitted in jt: uncommitted_list
            invariant
                jt.seq() == list,
                index == compaction_group_index@,
                ids@ == add_group_ids(start_ids, list.take(jt.index() as int), index),
                start_ids == group_ids(done, index),
                lists@.len() == ids@.len(),
                started@.len() == ids@.len(),
                forall|a: int, b: int| 0 <= a < b < ids@.len() ==> ids@[a] != ids@[b],
                forall|k: int|
                    0 <= k < ids@.len() ==> payload_view(#[trigger] lists@[k]@) == lists_in_group(
                        done.push(list.take(jt.index() as int)),
                        index,
                        ids@[k],
                    ),
                forall|k: int|
                    0 <= k < ids@.len() ==> (#[trigger] started@[k] <==> list.take(jt.index() as int).filter(
                        in_group(index, ids@[k]),
                    ).len() > 0),
                forall|g: CompactionGroupId|
                    !ids@.contains(g) ==> lists_in_group(done.push(list.take(jt.index() as int)), index, g).len()
                        == 0,
        {
            let ghost j = jt.index() as int;
            let ghost prefix = list.take(j);
            let ghost before_ids = ids@;
            let ghost before_lists = lists@;
            let ghost before_started = started@;
            let compaction_group_id = compaction_group_of(&uncommitted, compaction_group_index);
            proof {
                assert(uncommitted == list[j]);
                assert(list.take(j + 1) == prefix.push(uncommitted));
                assert(list.take(j + 1).drop_last() == prefix);
                assert forall|g: CompactionGroupId|
                    #[trigger] lists_in_group(done.push(list.take(j + 1)), index, g) == (if g == compaction_group_id {
                        if prefix.filter(in_group(index, g)).len() > 0 {
                            lists_in_group(done, index, g).push(prefix.filter(in_group(index, g)).push(uncommitted))
                        } else {
                            lists_in_group(done, index, g).push(seq![uncommitted])
                        }
                    } else {
                        lists_in_group(done.push(prefix), index, g)
                    }) by {
                    lemma_lists_in_group_push(done, list.take(j + 1), index, g);
                    lemma_lists_in_group_push(done, prefix, index, g);
                    lemma_filter_push(prefix, uncommitted, in_group(index, g));
                    if g == compaction_group_id && prefix.filter(in_group(index, g)).len() == 0 {
                        assert(prefix.filter(in_group(index, g)).push(uncommitted) =~= seq![uncommitted]);
                    }
                }
            }
            // Find the group's position, adding the group when it is new.
            let mut k: usize = 0;
            while k < ids.len() && ids[k] != compaction_group_id
                invariant
                    k <= ids@.len(),
                    forall|m: int| 0 <= m < k ==> ids@[m] != compaction_group_id,
                decreases ids@.len() - k,
            {
                k = k + 1;
            }
            if k == ids.len() {
                proof {
                    assert(!ids@.contains(compaction_group_id));
                    lemma_lists_in_group_push(done, prefix, index, compaction_group_id);
                }
                ids.push(compaction_group_id);
                lists.push(Vec::new());
                started.push(false);
                proof {
                    assert(payload_view(lists@[k as int]@) =~= Seq::<Seq<UncommittedData>>::empty());
                }
            }
            let ghost mid_lists = lists@;
            let ghost mid_started = started@;
            proof {
                lemma_lists_in_group_push(done, prefix, index, compaction_group_id);
                assert(payload_view(mid_lists[k as int]@) == lists_in_group(
                    done.push(prefix),
                    index,
                    compaction_group_id,
                ));
                assert(mid_started[k as int] <==> prefix.filter(in_group(index, compaction_group_id)).len() > 0);
            }
            if !started[k] {
                lists[k].push(Vec::new());
                started.set(k, true);
            }
            let last = lists[k].len() - 1;
            let ghost before_last = lists@[k as int];
            lists[k][last].push(uncommitted);
            proof {
                let g = compaction_group_id;
                let new_prefix = list.take(j + 1);
                let p = in_group(index, g);
                assert(new_prefix.drop_last() == prefix);
                assert(new_prefix.last() == uncommitted);
                assert(ids@ == add_group_ids(start_ids, new_prefix, index));
                assert(payload_view(lists@[k as int]@) =~= payload_view(before_last@).update(
                    last as int,
                    before_last@[last as int]@.push(uncommitted),
                ));
                if mid_started[k as int] {
                    assert(payload_view(before_last@) == payload_view(mid_lists[k as int]@));
                    assert(payload_view(mid_lists[k as int]@) == lists_in_group(done, index, g).push(prefix.filter(p)));
                    assert(last as int == payload_view(before_last@).len() - 1);
                    assert(payload_view(before_last@)[last as int] == before_last@[last as int]@);
                    assert(before_last@[last as int]@ == prefix.filter(p));
                    assert(payload_view(lists@[k as int]@) =~= lists_in_group(done, index, g).push(
                        prefix.filter(p).push(uncommitted),
                    ));
                } else {
                    assert(payload_view(before_last@) =~= payload_view(mid_lists[k as int]@).push(
                        Seq::<UncommittedData>::empty(),
                    ));
                    assert(payload_view(lists@[k as int]@) =~= lists_in_group(done, index, g).push(
                        seq![uncommitted],
                    ));
                }
                assert(payload_view(lists@[k as int]@) == lists_in_group(done.push(new_prefix), index, g));
                assert forall|m: int| 0 <= m < ids@.len() implies payload_view(#[trigger] lists@[m]@)
                    == lists_in_group(done.push(new_prefix), index, ids@[m]) by {
                    if m != k {
                        assert(lists@[m] == before_lists[m]);
                        assert(ids@[m] == before_ids[m]);
                    }
                }
                assert forall|m: int| 0 <= m < ids@.len() implies (#[trigger] started@[m]
                    <==> new_prefix.filter(in_group(index, ids@[m])).len() > 0) by {
                    lemma_filter_push(prefix, uncommitted, in_group(index, ids@[m]));
                    if m != k {
                        assert(started@[m] == before_started[m]);
                        assert(ids@[m] == before_ids[m]);
                    }
                }
                assert forall|a: int, b: int| 0 <= a < b < ids@.len() implies ids@[a] != ids@[b] by {
                    if b == ids@.len() - 1 && ids@.len() > before_ids.len() {
                        assert(ids@[a] == before_ids[a]);
                    } else {
                        assert(ids@[a] == before_ids[a]);
                        assert(ids@[b] == before_ids[b]);
                    }
                }
                assert forall|h: CompactionGroupId| !ids@.contains(h) implies lists_in_group(
                    done.push(new_prefix),
                    index,
                    h,
                ).len() == 0 by {
                    assert(h != g);
                    if before_ids.contains(h) {
                        let w = choose|w: int| 0 <= w < before_ids.len() && before_ids[w] == h;
                        assert(ids@[w] == h);
                    }
                }
            }
        }
        proof {
            assert(list.take(list.len() as int) == list);
            assert(lists_of.take(i + 1).drop_last() == done);
            assert(lists_of.take(i + 1).last() == list);
        }
    }
    proof {
        assert(lists_of.take(lists_of.len() as int) == lists_of);
    }
    let mut grouped: Vec<(CompactionGroupId, UploadTaskPayload)> = Vec::new();
    let ghost final_ids = ids@;
    let ghost final_lists = lists@;
    let mut n: usize = 0;
    let total = ids.len();
    for group_lists in gt: lists
        invariant
            total == final_ids.len(),
            gt.seq() == final_lists,
            final_ids == ids@,
            final_ids.len() == final_lists.len(),
            n == gt.index(),
            n <= final_lists.len(),
            grouped@.len() == n,
            forall|k: int|
                0 <= k < n ==> (#[trigger] grouped@[k]).0 == final_ids[k] && grouped@[k].1 == final_lists[k],
    {
        let id = ids[n];
        grouped.push((id, group_lists));
        n = n + 1;
    }
    grouped
}

proof fn lemma_add_group_ids(ids: Seq<CompactionGroupId>, list: Seq<UncommittedData>, index: Map<u32, CompactionGroupId>)
    ensures
        ids.no_duplicates() ==> add_group_ids(ids, list, index).no_duplicates(),
        forall|g: CompactionGroupId|
            #[trigger] add_group_ids(ids, list, index).contains(g) <==> (ids.contains(g) || list.filter(
                in_group(index, g),
            ).len() > 0),
    decreases list.len(),
{
    reveal(Seq::filter);
    if list.len() == 0 {
    } else {
        let init = list.drop_last();
        let d = list.last();
        lemma_add_group_ids(ids, init, index);
        let before = add_group_ids(ids, init, index);
        assert(list == init.push(d));
        assert forall|g: CompactionGroupId|
            #[trigger] add_group_ids(ids, list, index).contains(g) <==> (ids.contains(g) || list.filter(
                in_group(index, g),
            ).len() > 0) by {
            lemma_filter_push(init, d, in_group(index, g));
            if !before.contains(group_of(d, index)) {
                assert(before.push(group_of(d, index)).contains(g) <==> (before.contains(g) || g == group_of(d, index))) by {
                    if before.push(group_of(d, index)).contains(g) && !before.contains(g) {
                        let w = choose|w: int| 0 <= w < before.len() + 1 && before.push(group_of(d, index))[w] == g;
                        if w < before.len() {
                            assert(before[w] == g);
                        }
                    }
                    if before.contains(g) {
                        let w = choose|w: int| 0 <= w < before.len() && before[w] == g;
                        assert(before.push(group_of(d, index))[w] == g);
                    }
                    if g == group_of(d, index) {
                        assert(before.push(group_of(d, index))[before.len() as int] == g);
                    }
                }
            }
        }
        if ids.no_duplicates() && !before.contains(group_of(d, index)) {
            assert forall|a: int, b: int|
                0 <= a < b < before.push(group_of(d, index)).len() implies before.push(group_of(d, index))[a]
                != before.push(group_of(d, index))[b] by {
                if b == before.len() {
                    assert(before.push(group_of(d, index))[a] == before[a]);
                }
            }
        }
    }
}

/// Each group that the payload's items belong to is listed once, and only
/// those groups are listed: a group is listed exactly when its part of the
/// payload is not empty.
pub proof fn lemma_group_ids_complete(payload: Seq<Seq<UncommittedData>>, index: Map<u32, CompactionGroupId>)
    ensures
        group_ids(payload, index).no_duplicates(),
        forall|g: CompactionGroupId|
            #[trigger] group_ids(payload, index).contains(g) <==> lists_in_group(payload, index, g).len() > 0,
    decreases payload.len(),
{
    reveal(Seq::filter);
    if payload.len() == 0 {
        assert forall|g: CompactionGroupId| #[trigger] group_ids(payload, index).contains(g) <==> lists_in_group(
            payload,
            index,
            g,
        ).len() > 0 by {
            assert(payload.map_values(|l: Seq<UncommittedData>| l.filter(in_group(index, g))) =~= Seq::<
                Seq<UncommittedData>,
            >::empty());
        }
    } else {
        let init = payload.drop_last();
        let l = payload.last();
        lemma_group_ids_complete(init, index);
        lemma_add_group_ids(group_ids(init, index), l, index);
        assert(payload == init.push(l));
        assert forall|g: CompactionGroupId| #[trigger] group_ids(payload, index).contains(g) <==> lists_in_group(
            payload,
            index,
            g,
        ).len() > 0 by {
            lemma_lists_in_group_push(init, l, index, g);
        }
    }
}

/// An item of the payload lies in the part of its own group, and in no
/// other group's part.
pub proof fn lemma_item_in_own_group(
    payload: Seq<Seq<UncommittedData>>,
    index: Map<u32, CompactionGroupId>,
    g: CompactionGroupId,
    i: int,
    j: int,
)
    requires
        0 <= i < payload.len(),
        0 <= j < payload[i].len(),
    ensures
        payload[i].filter(in_group(index, g)).contains(payload[i][j]) <==> group_of(payload[i][j], index) == g,
{
    let l = payload[i];
    let p = in_group(index, g);
    broadcast use vstd::seq_lib::group_filter_ensures;

    if p(l[j]) {
        assert(l.filter(p).contains(l[j]));
    }
}

} // verus!
