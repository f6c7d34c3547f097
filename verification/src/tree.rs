//! One collection: its static configuration (`Info`) and its mutable state
//! (`Tree`): the high-water sequence number, the stored documents keyed by
//! sequence number, and the dirty flag that gates persistence.

use vstd::prelude::*;

use crate::assoc::{
    distinct_keys, keyed_map, lemma_keyed_map_contains, lemma_keyed_map_index,
    lemma_keyed_map_push, lemma_keyed_map_remove, lemma_keyed_map_update,
};
use crate::error::{err_view, ErrModel, JsonStoreError};
use crate::value::{
    get_field, is_null, lookup_field, set_field, value_eq, with_field, ValModel, Value,
};

verus! {

broadcast use vstd::std_specs::vec::group_vec_axioms;

/// Mathematical model of an [`Info`].
#[verifier::ext_equal]
pub struct InfoModel {
    pub sequence_field: Seq<char>,
    pub unique_fields: Seq<(Seq<char>, Seq<Seq<char>>)>,
    pub capacity: int,
}

/// The models of a list of named uniqueness groups.
pub open spec fn groups_view(s: Seq<(String, Vec<String>)>) -> Seq<(Seq<char>, Seq<Seq<char>>)> {
    Seq::new(s.len(), |i: int| (s[i].0@, s[i].1.deep_view()))
}

/// Per-collection configuration, immutable once the collection is created:
/// the field that receives the assigned sequence number, the named composite
/// uniqueness groups, and the capacity bound.
pub struct Info {
    pub sequence_field: String,
    pub unique_fields: Vec<(String, Vec<String>)>,
    pub capacity: u32,
}

impl View for Info {
    type V = InfoModel;

    open spec fn view(&self) -> InfoModel {
        InfoModel {
            sequence_field: self.sequence_field@,
            unique_fields: groups_view(self.unique_fields@),
            capacity: self.capacity as int,
        }
    }
}

impl Info {
    /// Bundle the three configuration settings.
    pub fn new(sequence_field: String, unique_fields: Vec<(String, Vec<String>)>, capacity: u32) -> (r: Self)
        ensures
            r@ == (InfoModel {
                sequence_field: sequence_field@,
                unique_fields: groups_view(unique_fields@),
                capacity: capacity as int,
            }),
    {
        Self { sequence_field, unique_fields, capacity }
    }
}

/// Mathematical model of a [`Tree`].
#[verifier::ext_equal]
pub struct TreeModel {
    pub sequence: u64,
    pub entries: Seq<(u64, ValModel)>,
    pub changed: bool,
}

impl TreeModel {
    /// The documents, as the map from sequence number to stored value.
    pub open spec fn data(self) -> Map<u64, ValModel> {
        keyed_map(self.entries)
    }

    /// Well-formedness: sequence numbers are pairwise distinct and never
    /// exceed the high-water mark.
    pub open spec fn wf(self) -> bool {
        &&& distinct_keys(self.entries)
        &&& forall|i: int| 0 <= i < self.entries.len() ==> self.entries[i].0 <= self.sequence
    }
}

/// The models of a document entry list.
pub open spec fn data_view(s: Seq<(u64, Value)>) -> Seq<(u64, ValModel)> {
    Seq::new(s.len(), |i: int| (s[i].0, s[i].1@))
}

/// The models of a named-configuration list.
pub open spec fn infos_view(s: Seq<(String, Info)>) -> Seq<(Seq<char>, InfoModel)> {
    Seq::new(s.len(), |i: int| (s[i].0@, s[i].1@))
}

/// One collection's mutable state.
pub struct Tree {
    pub sequence: u64,
    pub data: Vec<(u64, Value)>,
    pub changed: bool,
}

impl View for Tree {
    type V = TreeModel;

    open spec fn view(&self) -> TreeModel {
        TreeModel { sequence: self.sequence, entries: data_view(self.data@), changed: self.changed }
    }
}

/// Two values agree, field by field, on every field of a uniqueness group.
pub open spec fn proj_eq(a: ValModel, b: ValModel, fields: Seq<Seq<char>>) -> bool {
    forall|i: int| 0 <= i < fields.len() ==> lookup_field(a, fields[i]) == lookup_field(b, fields[i])
}

/// The candidate document collides, on some uniqueness group, with some
/// stored document other than the one keyed `exclude`.
pub open spec fn conflicts(
    entries: Seq<(u64, ValModel)>,
    groups: Seq<(Seq<char>, Seq<Seq<char>>)>,
    cand: ValModel,
    exclude: Option<u64>,
) -> bool {
    exists|g: int, r: int|
        0 <= g < groups.len() && 0 <= r < entries.len() && Some(entries[r].0) != exclude
            && proj_eq(cand, entries[r].1, groups[g].1)
}

/// No two stored documents agree on all fields of any uniqueness group.
pub open spec fn pairwise_unique(
    entries: Seq<(u64, ValModel)>,
    groups: Seq<(Seq<char>, Seq<Seq<char>>)>,
) -> bool {
    forall|g: int, a: int, b: int|
        0 <= g < groups.len() && 0 <= a < b < entries.len() ==> !proj_eq(
            entries[a].1,
            entries[b].1,
            groups[g].1,
        )
}

/// The sequence number a document carries in field `f`: its value there when
/// that is a non-negative integer, `None` otherwise.
pub open spec fn doc_seq_key(doc: ValModel, f: Seq<char>) -> Option<u64> {
    match lookup_field(doc, f) {
        ValModel::Int(n) => if 0 <= n { Some(n as u64) } else { None },
        _ => None,
    }
}

/// Both values read field `f` the same way.
fn field_eq(a: &Value, b: &Value, f: &str) -> (r: bool)
    ensures
        r == (lookup_field(a@, f@) == lookup_field(b@, f@)),
{
    match (get_field(a, f), get_field(b, f)) {
        (None, None) => true,
        (Some(x), None) => is_null(x),
        (None, Some(y)) => is_null(y),
        (Some(x), Some(y)) => value_eq(x, y),
    }
}

/// The two values' projections over one group's fields agree.
#[verifier::loop_isolation(false)]
fn proj_matches(a: &Value, b: &Value, fields: &Vec<String>) -> (r: bool)
    ensures
        r == proj_eq(a@, b@, fields.deep_view()),
{
    let mut i: usize = 0;
    while i < fields.len()
        invariant
            i <= fields.len(),
            forall|k: int|
                0 <= k < i ==> lookup_field(a@, fields.deep_view()[k]) == lookup_field(
                    b@,
                    fields.deep_view()[k],
                ),
        decreases fields.len() - i,
    {
        assert(fields.deep_view()[i as int] == fields@[i as int]@);
        if !field_eq(a, b, fields[i].as_str()) {
            return false;
        }
        i += 1;
    }
    true
}

/// Scan every (group, stored document) pair for a uniqueness collision with
/// the candidate, skipping the stored document keyed `exclude`.
#[verifier::loop_isolation(false)]
fn find_conflict(
    data: &Vec<(u64, Value)>,
    groups: &Vec<(String, Vec<String>)>,
    cand: &Value,
    exclude: Option<u64>,
) -> (r: bool)
    ensures
        r == conflicts(data_view(data@), groups_view(groups@), cand@, exclude),
{
    let ghost entries = data_view(data@);
    let ghost gv = groups_view(groups@);
    let mut g: usize = 0;
    while g < groups.len()
        invariant
            g <= groups.len(),
            forall|gi: int, ri: int|
                0 <= gi < g && 0 <= ri < entries.len() && Some(entries[ri].0) != exclude
                    ==> !proj_eq(cand@, entries[ri].1, gv[gi].1),
        decreases groups.len() - g,
    {
        let mut r: usize = 0;
        while r < data.len()
            invariant
                g < groups.len(),
                r <= data.len(),
                forall|gi: int, ri: int|
                    0 <= gi < g && 0 <= ri < entries.len() && Some(entries[ri].0) != exclude
                        ==> !proj_eq(cand@, entries[ri].1, gv[gi].1),
                forall|ri: int|
                    0 <= ri < r && Some(entries[ri].0) != exclude ==> !proj_eq(
                        cand@,
                        entries[ri].1,
                        gv[g as int].1,
                    ),
            decreases data.len() - r,
        {
            let excluded = match exclude {
                Some(k) => data[r].0 == k,
                None => false,
            };
            if !excluded {
                if proj_matches(cand, &data[r].1, &groups[g].1) {
                    proof {
                        assert(gv[g as int].1 == groups@[g as int].1.deep_view());
                        assert(entries[r as int].1 == data@[r as int].1@);
                        assert(entries[r as int].0 == data@[r as int].0);
                        assert(Some(entries[r as int].0) != exclude);
                        assert(proj_eq(cand@, entries[r as int].1, gv[g as int].1));
                        assert(conflicts(entries, gv, cand@, exclude)) by {
                            let gi = g as int;
                            let ri = r as int;
                            assert(0 <= gi < gv.len() && 0 <= ri < entries.len() && Some(
                                entries[ri].0,
                            ) != exclude && proj_eq(cand@, entries[ri].1, gv[gi].1));
                        }
                    }
                    return true;
                }
            }
            r += 1;
        }
        g += 1;
    }
    false
}

/// Look up the entry index holding the document keyed `key`.
#[verifier::loop_isolation(false)]
fn find_key(data: &Vec<(u64, Value)>, key: u64) -> (r: Option<usize>)
    ensures
        match r {
            Some(i) => i < data@.len() && data@[i as int].0 == key,
            None => forall|j: int| 0 <= j < data@.len() ==> data@[j].0 != key,
        },
{
    let mut i: usize = 0;
    while i < data.len()
        invariant
            i <= data.len(),
            forall|j: int| 0 <= j < i ==> data@[j].0 != key,
        decreases data.len() - i,
    {
        if data[i].0 == key {
            return Some(i);
        }
        i += 1;
    }
    None
}

/// What [`Tree::insert`] does: reject at capacity, reject a non-object
/// document, reject a uniqueness collision — all without mutation — and
/// otherwise assign the next sequence number, write it into the document's
/// sequence field, store the document under it, and mark the tree dirty.
pub open spec fn tree_insert_post(
    pre: TreeModel,
    info: InfoModel,
    doc: ValModel,
    name: Seq<char>,
    post: TreeModel,
    r: Result<u64, ErrModel>,
) -> bool {
    if pre.entries.len() >= info.capacity {
        r == Err::<u64, ErrModel>(ErrModel::CapacityExceeded(name)) && post == pre
    } else if !(doc is Obj) {
        r == Err::<u64, ErrModel>(ErrModel::UnObjectValue) && post == pre
    } else if conflicts(pre.entries, info.unique_fields, doc, None) {
        r == Err::<u64, ErrModel>(ErrModel::DuplicateUniqueFields(name)) && post == pre
    } else {
        let seq = (pre.sequence + 1) as u64;
        let stored = with_field(doc, info.sequence_field, ValModel::Int(seq as int));
        &&& r == Ok::<u64, ErrModel>(seq)
        &&& post.sequence == seq
        &&& post.changed
        &&& post.entries == pre.entries.push((seq, stored))
        &&& post.data() == pre.data().insert(seq, stored)
    }
}

/// What [`Tree::update`] does: reject a document without a valid, known
/// sequence number, reject a uniqueness collision with any other document —
/// all without mutation — and otherwise replace the stored document in full
/// and mark the tree dirty.
pub open spec fn tree_update_post(
    pre: TreeModel,
    info: InfoModel,
    doc: ValModel,
    name: Seq<char>,
    post: TreeModel,
    r: Result<(), ErrModel>,
) -> bool {
    match doc_seq_key(doc, info.sequence_field) {
        None => r == Err::<(), ErrModel>(ErrModel::SequenceNotExist(name)) && post == pre,
        Some(k) => {
            if !pre.data().dom().contains(k) {
                r == Err::<(), ErrModel>(ErrModel::SequenceNotExist(name)) && post == pre
            } else if conflicts(pre.entries, info.unique_fields, doc, Some(k)) {
                r == Err::<(), ErrModel>(ErrModel::DuplicateUniqueFields(name)) && post == pre
            } else {
                &&& r == Ok::<(), ErrModel>(())
                &&& post.sequence == pre.sequence
                &&& post.changed
                &&& exists|i: int|
                    0 <= i < pre.entries.len() && pre.entries[i].0 == k && post.entries
                        == pre.entries.update(i, (k, doc))
                &&& post.data() == pre.data().insert(k, doc)
            }
        },
    }
}

/// What [`Tree::delete`] does: reject an unknown sequence number without
/// mutation, and otherwise remove the document and mark the tree dirty.
pub open spec fn tree_delete_post(
    pre: TreeModel,
    key: u64,
    name: Seq<char>,
    post: TreeModel,
    r: Result<(), ErrModel>,
) -> bool {
    if !pre.data().dom().contains(key) {
        r == Err::<(), ErrModel>(ErrModel::SequenceNotExist(name)) && post == pre
    } else {
        &&& r == Ok::<(), ErrModel>(())
        &&& post.sequence == pre.sequence
        &&& post.changed
        &&& exists|i: int|
            0 <= i < pre.entries.len() && pre.entries[i].0 == key && post.entries
                == pre.entries.remove(i)
        &&& post.data() == pre.data().remove(key)
    }
}

impl Tree {
    /// Assemble a collection from its parts.
    pub fn new(sequence: u64, data: Vec<(u64, Value)>, changed: bool) -> (r: Self)
        ensures
            r@ == (TreeModel { sequence, entries: data_view(data@), changed }),
    {
        Self { sequence, data, changed }
    }

    /// Whether the in-memory state has diverged from the persisted files.
    pub fn is_changed(&self) -> (r: bool)
        ensures
            r == self@.changed,
    {
        self.changed
    }

    /// Insert a document: assign the next sequence number, overwrite the
    /// document's sequence field with it, and store the document — subject to
    /// the capacity bound and the uniqueness groups, which reject without any
    /// mutation. `tname` only names the collection inside errors.
    pub fn insert(&mut self, tname: &str, info: &Info, doc: Value) -> (r: Result<u64, JsonStoreError>)
        requires
            old(self)@.wf(),
            old(self)@.sequence < 0x7fff_ffff_ffff_ffffu64,
        ensures
            final(self)@.wf(),
            tree_insert_post(old(self)@, info@, doc@, tname@, final(self)@, err_view(r)),
    {
        if self.data.len() >= info.capacity as usize {
            return Err(JsonStoreError::CapacityExceeded(tname.to_owned()));
        }
        let is_obj = match &doc {
            Value::Obj(_) => true,
            _ => false,
        };
        if !is_obj {
            return Err(JsonStoreError::UnObjectValue);
        }
        if find_conflict(&self.data, &info.unique_fields, &doc, None) {
            return Err(JsonStoreError::DuplicateUniqueFields(tname.to_owned()));
        }
        let seq = self.sequence + 1;
        self.sequence = seq;
        let ghost pre_entries = data_view(self.data@);
        let stored = match doc {
            Value::Obj(mut entries) => {
                set_field(&mut entries, info.sequence_field.clone(), Value::Int(seq as i64));
                Value::Obj(entries)
            },
            v => v,
        };
        proof {
            assert(forall|i: int| 0 <= i < pre_entries.len() ==> pre_entries[i].0 != seq);
            lemma_keyed_map_push(pre_entries, seq, stored@);
        }
        self.data.push((seq, stored));
        self.changed = true;
        proof {
            assert(data_view(self.data@) =~= pre_entries.push((seq, stored@)));
        }
        Ok(seq)
    }

    /// Replace the stored document carrying the sequence number that `doc`
    /// itself holds in the configured sequence field — subject to the
    /// uniqueness groups (the replaced document itself excluded), which
    /// reject without any mutation.
    pub fn update(&mut self, tname: &str, info: &Info, doc: Value) -> (r: Result<(), JsonStoreError>)
        requires
            old(self)@.wf(),
        ensures
            final(self)@.wf(),
            tree_update_post(old(self)@, info@, doc@, tname@, final(self)@, err_view(r)),
    {
        let key = match doc_key(&doc, info.sequence_field.as_str()) {
            Some(k) => k,
            None => {
                return Err(JsonStoreError::SequenceNotExist(tname.to_owned()));
            },
        };
        proof {
            lemma_keyed_map_contains(data_view(self.data@), key);
        }
        let idx = match find_key(&self.data, key) {
            Some(i) => i,
            None => {
                assert(forall|j: int|
                    0 <= j < data_view(self.data@).len() ==> data_view(self.data@)[j].0 != key);
                return Err(JsonStoreError::SequenceNotExist(tname.to_owned()));
            },
        };
        assert(data_view(self.data@)[idx as int].0 == key);
        if find_conflict(&self.data, &info.unique_fields, &doc, Some(key)) {
            return Err(JsonStoreError::DuplicateUniqueFields(tname.to_owned()));
        }
        let ghost pre_entries = data_view(self.data@);
        proof {
            lemma_keyed_map_update(pre_entries, idx as int, doc@);
        }
        self.data[idx] = (key, doc);
        self.changed = true;
        proof {
            assert(data_view(self.data@) =~= pre_entries.update(idx as int, (key, data_view(
                self.data@,
            )[idx as int].1)));
        }
        Ok(())
    }

    /// Remove the document stored under `sequence`.
    pub fn delete(&mut self, tname: &str, sequence: u64) -> (r: Result<(), JsonStoreError>)
        requires
            old(self)@.wf(),
        ensures
            final(self)@.wf(),
            tree_delete_post(old(self)@, sequence, tname@, final(self)@, err_view(r)),
    {
        proof {
            lemma_keyed_map_contains(data_view(self.data@), sequence);
        }
        let idx = match find_key(&self.data, sequence) {
            Some(i) => i,
            None => {
                return Err(JsonStoreError::SequenceNotExist(tname.to_owned()));
            },
        };
        let ghost pre_entries = data_view(self.data@);
        proof {
            lemma_keyed_map_remove(pre_entries, idx as int);
        }
        self.data.remove(idx);
        self.changed = true;
        proof {
            assert(data_view(self.data@) =~= pre_entries.remove(idx as int));
        }
        Ok(())
    }

    /// Read the document stored under `sequence`.
    pub fn select(&self, tname: &str, sequence: u64) -> (r: Result<&Value, JsonStoreError>)
        requires
            self@.wf(),
        ensures
            match r {
                Ok(v) => self@.data().dom().contains(sequence) && v@ == self@.data()[sequence],
                Err(e) => e@ == ErrModel::SequenceNotExist(tname@) && !self@.data().dom().contains(
                    sequence,
                ),
            },
    {
        proof {
            lemma_keyed_map_contains(data_view(self.data@), sequence);
        }
        match find_key(&self.data, sequence) {
            Some(i) => {
                proof {
                    lemma_keyed_map_index(data_view(self.data@), i as int);
                }
                Ok(&self.data[i].1)
            },
            None => Err(JsonStoreError::SequenceNotExist(tname.to_owned())),
        }
    }

    /// Record that this collection's state has just been fully persisted.
    pub fn mark_saved(&mut self)
        ensures
            final(self)@ == (TreeModel {
                sequence: old(self)@.sequence,
                entries: old(self)@.entries,
                changed: false,
            }),
    {
        self.changed = false;
    }
}

/// The sequence number `doc` carries in field `f`, when that field holds a
/// non-negative integer.
fn doc_key(doc: &Value, f: &str) -> (r: Option<u64>)
    ensures
        r == doc_seq_key(doc@, f@),
{
    match get_field(doc, f) {
        Some(v) => match v {
            Value::Int(n) => {
                if *n >= 0 {
                    Some(*n as u64)
                } else {
                    None
                }
            },
            _ => None,
        },
        None => None,
    }
}

} // verus!
