//! The store's general guarantees, stated and proved against the operation
//! contracts of [`crate::tree`] and [`crate::store`].

use vstd::prelude::*;

use crate::assoc::lemma_keyed_map_contains;
use crate::error::ErrModel;
use crate::store::{store_confirm_post, store_create_post, store_insert_post, StoreModel};
use crate::tree::{
    conflicts, pairwise_unique, proj_eq, tree_delete_post, tree_insert_post, tree_update_post,
    InfoModel, TreeModel,
};
use crate::value::{lookup_field, ValModel};

verus! {

/// Successful inserts return strictly increasing, pairwise distinct sequence
/// numbers: each one returns and sets `sequence + 1`, and no operation in
/// between can lower the high-water mark (updates and deletes keep it, see
/// [`lemma_update_keeps_sequence`] and [`lemma_delete_keeps_sequence`]).
pub proof fn lemma_insert_sequences_strictly_increase(
    t0: TreeModel,
    t1: TreeModel,
    t2: TreeModel,
    t3: TreeModel,
    i1: InfoModel,
    i2: InfoModel,
    d1: ValModel,
    d2: ValModel,
    nm1: Seq<char>,
    nm2: Seq<char>,
    n1: u64,
    n2: u64,
)
    requires
        t0.sequence < u64::MAX,
        t2.sequence < u64::MAX,
        tree_insert_post(t0, i1, d1, nm1, t1, Ok(n1)),
        t2.sequence >= t1.sequence,
        tree_insert_post(t2, i2, d2, nm2, t3, Ok(n2)),
    ensures
        n2 > n1,
        n1 != n2,
{
}

/// An update never moves the high-water mark.
pub proof fn lemma_update_keeps_sequence(
    pre: TreeModel,
    post: TreeModel,
    info: InfoModel,
    doc: ValModel,
    name: Seq<char>,
    r: Result<(), ErrModel>,
)
    requires
        tree_update_post(pre, info, doc, name, post, r),
    ensures
        post.sequence == pre.sequence,
{
}

/// A delete never moves the high-water mark.
pub proof fn lemma_delete_keeps_sequence(
    pre: TreeModel,
    post: TreeModel,
    key: u64,
    name: Seq<char>,
    r: Result<(), ErrModel>,
)
    requires
        tree_delete_post(pre, key, name, post, r),
    ensures
        post.sequence == pre.sequence,
{
}

/// Inserting into a collection that already holds `capacity` documents always
/// fails with `CapacityExceeded` and leaves the collection untouched.
pub proof fn lemma_insert_at_capacity_fails(
    pre: TreeModel,
    post: TreeModel,
    info: InfoModel,
    doc: ValModel,
    name: Seq<char>,
    r: Result<u64, ErrModel>,
)
    requires
        tree_insert_post(pre, info, doc, name, post, r),
        pre.entries.len() == info.capacity,
    ensures
        r == Err::<u64, ErrModel>(ErrModel::CapacityExceeded(name)),
        post == pre,
{
}

/// A capacity bound once respected is respected forever: no insert grows the
/// collection past it.
pub proof fn lemma_capacity_preserved(
    pre: TreeModel,
    post: TreeModel,
    info: InfoModel,
    doc: ValModel,
    name: Seq<char>,
    r: Result<u64, ErrModel>,
)
    requires
        tree_insert_post(pre, info, doc, name, post, r),
        pre.entries.len() <= info.capacity,
    ensures
        post.entries.len() <= info.capacity,
{
}

/// An insert whose document collides with a stored one on some uniqueness
/// group fails with `DuplicateUniqueFields` and leaves the collection
/// untouched.
pub proof fn lemma_insert_duplicate_fails(
    pre: TreeModel,
    post: TreeModel,
    info: InfoModel,
    doc: ValModel,
    name: Seq<char>,
    r: Result<u64, ErrModel>,
)
    requires
        tree_insert_post(pre, info, doc, name, post, r),
        pre.entries.len() < info.capacity,
        doc is Obj,
        conflicts(pre.entries, info.unique_fields, doc, None),
    ensures
        r == Err::<u64, ErrModel>(ErrModel::DuplicateUniqueFields(name)),
        post == pre,
{
}

/// An update whose document collides with a stored document other than the
/// one it replaces fails with `DuplicateUniqueFields` and leaves the
/// collection untouched.
pub proof fn lemma_update_duplicate_fails(
    pre: TreeModel,
    post: TreeModel,
    info: InfoModel,
    doc: ValModel,
    name: Seq<char>,
    k: u64,
    r: Result<(), ErrModel>,
)
    requires
        tree_update_post(pre, info, doc, name, post, r),
        crate::tree::doc_seq_key(doc, info.sequence_field) == Some(k),
        pre.data().dom().contains(k),
        conflicts(pre.entries, info.unique_fields, doc, Some(k)),
    ensures
        r == Err::<(), ErrModel>(ErrModel::DuplicateUniqueFields(name)),
        post == pre,
{
}

/// An update naming an unknown sequence number fails with `SequenceNotExist`
/// and leaves the collection untouched; so does a delete. (A select on an
/// unknown number fails the same way by `select`'s own contract.)
pub proof fn lemma_unknown_sequence_fails(
    pre: TreeModel,
    post_u: TreeModel,
    post_d: TreeModel,
    info: InfoModel,
    doc: ValModel,
    name: Seq<char>,
    k: u64,
    ru: Result<(), ErrModel>,
    rd: Result<(), ErrModel>,
)
    requires
        tree_update_post(pre, info, doc, name, post_u, ru),
        crate::tree::doc_seq_key(doc, info.sequence_field) == Some(k),
        !pre.data().dom().contains(k),
        tree_delete_post(pre, k, name, post_d, rd),
    ensures
        ru == Err::<(), ErrModel>(ErrModel::SequenceNotExist(name)),
        post_u == pre,
        rd == Err::<(), ErrModel>(ErrModel::SequenceNotExist(name)),
        post_d == pre,
{
}

/// For every uniqueness group whose fields avoid the sequence field, no two
/// stored documents' projections are equal, and an accepted insert keeps it
/// that way. (The scan compares the candidate before the sequence number is
/// written into it — the specified order — so a group naming the sequence
/// field itself is outside this statement; for such a group the assigned
/// numbers, being pairwise distinct, are what keeps stored documents apart.)
pub proof fn lemma_insert_preserves_uniqueness(
    pre: TreeModel,
    post: TreeModel,
    info: InfoModel,
    doc: ValModel,
    name: Seq<char>,
    n: u64,
)
    requires
        tree_insert_post(pre, info, doc, name, post, Ok(n)),
        pairwise_unique(pre.entries, info.unique_fields),
        forall|g: int, k: int|
            0 <= g < info.unique_fields.len() && 0 <= k < info.unique_fields[g].1.len()
                ==> info.unique_fields[g].1[k] != info.sequence_field,
    ensures
        pairwise_unique(post.entries, info.unique_fields),
{
    let stored = crate::value::with_field(
        doc,
        info.sequence_field,
        ValModel::Int((pre.sequence + 1) as u64 as int),
    );
    let groups = info.unique_fields;
    assert forall|g: int, a: int, b: int|
        0 <= g < groups.len() && 0 <= a < b < post.entries.len() implies !proj_eq(
        post.entries[a].1,
        post.entries[b].1,
        groups[g].1,
    ) by {
        assert(post.entries[a] == pre.entries.push(((pre.sequence + 1) as u64, stored))[a]);
        if b < pre.entries.len() {
            assert(post.entries[b].1 == pre.entries[b].1);
        } else {
            assert(post.entries[b].1 == stored);
            assert forall|k: int| 0 <= k < groups[g].1.len() implies lookup_field(
                stored,
                groups[g].1[k],
            ) == lookup_field(doc, groups[g].1[k]) by {
                crate::value::lemma_with_field_keeps_others(
                    doc,
                    info.sequence_field,
                    ValModel::Int((pre.sequence + 1) as u64 as int),
                    groups[g].1[k],
                );
            }
            assert(!proj_eq(doc, pre.entries[a].1, groups[g].1));
            if proj_eq(post.entries[a].1, stored, groups[g].1) {
                assert(proj_eq(doc, pre.entries[a].1, groups[g].1));
            }
        }
    }
}

/// An accepted update keeps stored documents pairwise distinct on every
/// uniqueness group: the replacement was checked against every other stored
/// document, and the rest did not move.
pub proof fn lemma_update_preserves_uniqueness(
    pre: TreeModel,
    post: TreeModel,
    info: InfoModel,
    doc: ValModel,
    name: Seq<char>,
)
    requires
        pre.wf(),
        tree_update_post(pre, info, doc, name, post, Ok(())),
        pairwise_unique(pre.entries, info.unique_fields),
    ensures
        pairwise_unique(post.entries, info.unique_fields),
{
    let groups = info.unique_fields;
    let k = crate::tree::doc_seq_key(doc, info.sequence_field)->Some_0;
    let i = choose|i: int|
        0 <= i < pre.entries.len() && pre.entries[i].0 == k && post.entries == pre.entries.update(
            i,
            (k, doc),
        );
    assert forall|g: int, a: int, b: int|
        0 <= g < groups.len() && 0 <= a < b < post.entries.len() implies !proj_eq(
        post.entries[a].1,
        post.entries[b].1,
        groups[g].1,
    ) by {
        if a != i && b != i {
            assert(post.entries[a].1 == pre.entries[a].1);
            assert(post.entries[b].1 == pre.entries[b].1);
        } else {
            let o = if a == i {
                b
            } else {
                a
            };
            assert(post.entries[o].1 == pre.entries[o].1);
            assert(pre.entries[o].0 != k);
            assert(Some(pre.entries[o].0) != Some(k));
            assert(!proj_eq(doc, pre.entries[o].1, groups[g].1));
            if proj_eq(post.entries[a].1, post.entries[b].1, groups[g].1) {
                assert(proj_eq(doc, pre.entries[o].1, groups[g].1));
            }
        }
    }
}

/// The dirty flag gates persistence: one successful mutation makes exactly
/// the touched collection dirty, so `save_tree` owes its two files once; a
/// confirmed save restores the clean state, after which `save_tree` owes
/// nothing until the next mutation.
pub proof fn lemma_one_save_after_mutation(
    s0: StoreModel,
    s1: StoreModel,
    s2: StoreModel,
    name: Seq<char>,
    doc: ValModel,
    n: u64,
)
    requires
        s0.wf(),
        s0.infos_map().dom().contains(name),
        store_insert_post(s0, name, doc, s1, Ok(n)),
        store_confirm_post(s1, name, s2),
    ensures
        s1.trees_map()[name].changed,
        !s2.trees_map()[name].changed,
        s2.trees_map()[name].entries == s1.trees_map()[name].entries,
        s2.trees_map()[name].sequence == s1.trees_map()[name].sequence,
{
}

/// Creating a collection under a name created before (and not dropped since)
/// fails with `FoundTree` and changes nothing.
pub proof fn lemma_create_twice_fails(
    s0: StoreModel,
    s1: StoreModel,
    s2: StoreModel,
    name: Seq<char>,
    info1: InfoModel,
    info2: InfoModel,
    r: Result<(), ErrModel>,
)
    requires
        store_create_post(s0, name, info1, s1, Ok(())),
        store_create_post(s1, name, info2, s2, r),
    ensures
        r == Err::<(), ErrModel>(ErrModel::FoundTree(name)),
        s2 == s1,
{
    lemma_keyed_map_contains(s1.infos, name);
    assert(s1.infos[s1.infos.len() - 1].0 == name);
}

/// Dropping a name that is not registered fails with `NotFoundTree` and
/// changes nothing. (This is `drop_tree`'s own contract, restated.)
pub proof fn lemma_drop_unknown_fails(
    s0: StoreModel,
    s1: StoreModel,
    name: Seq<char>,
    r: Result<(), ErrModel>,
)
    requires
        !s0.infos_map().dom().contains(name),
        crate::store::store_drop_post(s0, name, s1, r),
    ensures
        r == Err::<(), ErrModel>(ErrModel::NotFoundTree(name)),
        s1 == s0,
{
}

} // verus!
