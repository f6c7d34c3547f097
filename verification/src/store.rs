//! The store: the root path, the configuration registry, and one [`Tree`]
//! per registered collection. Mutations work purely on in-memory state; the
//! persistence functions render and read the file artifacts as plain strings
//! so that a thin caller-side layer can do the actual file traffic.

use vstd::prelude::*;
use vstd::string::StringExecFns;

use crate::assoc::{distinct_keys, keyed_map, lemma_keyed_map_contains, lemma_keyed_map_index};
use crate::codec::{
    data_from_text, data_text, dec_digits, lemma_data_text_nonempty, lemma_marker_value_canonical,
    marker_value, parse_u64_text, registry_from_text, registry_text, render_data,
    render_registry, render_sequence,
};
use crate::error::{err_view, ErrModel, JsonStoreError};
use crate::tree::{
    data_view, infos_view, tree_delete_post, tree_insert_post, tree_update_post, Info, InfoModel,
    Tree, TreeModel,
};
use crate::value::{ValModel, Value};

verus! {

broadcast use vstd::std_specs::vec::group_vec_axioms;

/// Mathematical model of a [`JsonStore`].
#[verifier::ext_equal]
pub struct StoreModel {
    pub path: Seq<char>,
    pub infos: Seq<(Seq<char>, InfoModel)>,
    pub trees: Seq<(Seq<char>, TreeModel)>,
}

impl StoreModel {
    /// The registry, as the map from collection name to configuration.
    pub open spec fn infos_map(self) -> Map<Seq<char>, InfoModel> {
        keyed_map(self.infos)
    }

    /// The collections, as the map from collection name to state.
    pub open spec fn trees_map(self) -> Map<Seq<char>, TreeModel> {
        keyed_map(self.trees)
    }

    /// Well-formedness: distinct collection names, the registry and the
    /// collection list aligned name by name, and every collection well-formed.
    pub open spec fn wf(self) -> bool {
        &&& distinct_keys(self.infos)
        &&& self.trees.len() == self.infos.len()
        &&& (forall|i: int| 0 <= i < self.infos.len() ==> self.trees[i].0 == self.infos[i].0)
        &&& (forall|i: int| 0 <= i < self.trees.len() ==> self.trees[i].1.wf())
    }
}

/// The models of a named-collection list.
pub open spec fn trees_view(s: Seq<(String, Tree)>) -> Seq<(Seq<char>, TreeModel)> {
    Seq::new(s.len(), |i: int| (s[i].0@, s[i].1@))
}

/// The document store: a root path, the per-collection configuration
/// registry, and the named collections themselves.
pub struct JsonStore {
    pub(crate) path: String,
    pub(crate) infos: Vec<(String, Info)>,
    pub(crate) trees: Vec<(String, Tree)>,
}

impl View for JsonStore {
    type V = StoreModel;

    closed spec fn view(&self) -> StoreModel {
        StoreModel {
            path: self.path@,
            infos: infos_view(self.infos@),
            trees: trees_view(self.trees@),
        }
    }
}

/// In a well-formed store the collection names are distinct too.
pub proof fn lemma_trees_distinct(s: StoreModel)
    requires
        s.wf(),
    ensures
        distinct_keys(s.trees),
{
    assert forall|i: int, j: int| 0 <= i < j < s.trees.len() implies s.trees[i].0 != s.trees[j].0
    by {
        assert(s.trees[i].0 == s.infos[i].0);
        assert(s.trees[j].0 == s.infos[j].0);
    }
}

/// The registry and the collection map always cover exactly the same names.
pub proof fn lemma_registry_and_trees_agree(s: StoreModel)
    requires
        s.wf(),
    ensures
        s.infos_map().dom() =~= s.trees_map().dom(),
{
    assert forall|k: Seq<char>| s.infos_map().dom().contains(k) == s.trees_map().dom().contains(
        k,
    ) by {
        lemma_keyed_map_contains(s.infos, k);
        lemma_keyed_map_contains(s.trees, k);
        if exists|i: int| 0 <= i < s.infos.len() && s.infos[i].0 == k {
            let i = choose|i: int| 0 <= i < s.infos.len() && s.infos[i].0 == k;
            assert(s.trees[i].0 == k);
        }
        if exists|i: int| 0 <= i < s.trees.len() && s.trees[i].0 == k {
            let i = choose|i: int| 0 <= i < s.trees.len() && s.trees[i].0 == k;
            assert(s.infos[i].0 == k);
        }
    }
}

/// Look up the entry index carrying `name`.
#[verifier::loop_isolation(false)]
fn find_name<T>(v: &Vec<(String, T)>, name: &str) -> (r: Option<usize>)
    ensures
        match r {
            Some(i) => i < v@.len() && v@[i as int].0@ == name@,
            None => forall|j: int| 0 <= j < v@.len() ==> v@[j].0@ != name@,
        },
{
    let mut i: usize = 0;
    while i < v.len()
        invariant
            i <= v.len(),
            forall|j: int| 0 <= j < i ==> v@[j].0@ != name@,
        decreases v.len() - i,
    {
        if crate::value::str_eq(v[i].0.as_str(), name) {
            return Some(i);
        }
        i += 1;
    }
    None
}

/// Everything but the named collection's state stands as it was.
pub open spec fn same_except(pre: StoreModel, post: StoreModel, name: Seq<char>) -> bool {
    &&& post.path == pre.path
    &&& post.infos == pre.infos
    &&& post.trees.len() == pre.trees.len()
    &&& (forall|j: int|
        0 <= j < pre.trees.len() ==> post.trees[j].0 == pre.trees[j].0 && (pre.trees[j].0 != name
            ==> post.trees[j].1 == pre.trees[j].1))
}

/// What [`JsonStore::insert`] does: an unknown collection is rejected
/// untouched; otherwise exactly that collection steps as [`tree_insert_post`]
/// says.
pub open spec fn store_insert_post(
    pre: StoreModel,
    name: Seq<char>,
    doc: ValModel,
    post: StoreModel,
    r: Result<u64, ErrModel>,
) -> bool {
    if !pre.infos_map().dom().contains(name) {
        r == Err::<u64, ErrModel>(ErrModel::NotFoundTree(name)) && post == pre
    } else {
        &&& same_except(pre, post, name)
        &&& pre.trees_map().dom().contains(name)
        &&& post.trees_map().dom().contains(name)
        &&& tree_insert_post(
            pre.trees_map()[name],
            pre.infos_map()[name],
            doc,
            name,
            post.trees_map()[name],
            r,
        )
    }
}

/// What [`JsonStore::update`] does, shaped like [`store_insert_post`].
pub open spec fn store_update_post(
    pre: StoreModel,
    name: Seq<char>,
    doc: ValModel,
    post: StoreModel,
    r: Result<(), ErrModel>,
) -> bool {
    if !pre.infos_map().dom().contains(name) {
        r == Err::<(), ErrModel>(ErrModel::NotFoundTree(name)) && post == pre
    } else {
        &&& same_except(pre, post, name)
        &&& pre.trees_map().dom().contains(name)
        &&& post.trees_map().dom().contains(name)
        &&& tree_update_post(
            pre.trees_map()[name],
            pre.infos_map()[name],
            doc,
            name,
            post.trees_map()[name],
            r,
        )
    }
}

/// What [`JsonStore::delete`] does, shaped like [`store_insert_post`].
pub open spec fn store_delete_post(
    pre: StoreModel,
    name: Seq<char>,
    sequence: u64,
    post: StoreModel,
    r: Result<(), ErrModel>,
) -> bool {
    if !pre.trees_map().dom().contains(name) {
        r == Err::<(), ErrModel>(ErrModel::NotFoundTree(name)) && post == pre
    } else {
        &&& same_except(pre, post, name)
        &&& post.trees_map().dom().contains(name)
        &&& tree_delete_post(pre.trees_map()[name], sequence, name, post.trees_map()[name], r)
    }
}

/// What a successful [`JsonStore::confirm_saved`] does: the named collection
/// keeps its state but becomes clean; nothing else moves.
pub open spec fn store_confirm_post(pre: StoreModel, name: Seq<char>, post: StoreModel) -> bool {
    &&& pre.trees_map().dom().contains(name)
    &&& same_except(pre, post, name)
    &&& post.trees_map().dom().contains(name)
    &&& post.trees_map()[name] == (TreeModel {
        sequence: pre.trees_map()[name].sequence,
        entries: pre.trees_map()[name].entries,
        changed: false,
    })
}

/// What [`JsonStore::create_tree`] does: an already registered name is
/// rejected untouched; otherwise the configuration is registered and a fresh,
/// dirty, empty collection appended.
pub open spec fn store_create_post(
    pre: StoreModel,
    name: Seq<char>,
    info: InfoModel,
    post: StoreModel,
    r: Result<(), ErrModel>,
) -> bool {
    if pre.infos_map().dom().contains(name) {
        r == Err::<(), ErrModel>(ErrModel::FoundTree(name)) && post == pre
    } else {
        &&& r == Ok::<(), ErrModel>(())
        &&& post.path == pre.path
        &&& post.infos == pre.infos.push((name, info))
        &&& post.trees == pre.trees.push(
            (name, TreeModel { sequence: 0, entries: Seq::empty(), changed: true }),
        )
    }
}

/// What [`JsonStore::drop_tree`] does: an unregistered name is rejected
/// untouched; otherwise the name leaves the registry and the collection map.
pub open spec fn store_drop_post(
    pre: StoreModel,
    name: Seq<char>,
    post: StoreModel,
    r: Result<(), ErrModel>,
) -> bool {
    if !pre.infos_map().dom().contains(name) {
        r == Err::<(), ErrModel>(ErrModel::NotFoundTree(name)) && post == pre
    } else {
        &&& r == Ok::<(), ErrModel>(())
        &&& post.path == pre.path
        &&& exists|i: int|
            0 <= i < pre.infos.len() && pre.infos[i].0 == name && post.infos == pre.infos.remove(i)
                && post.trees == pre.trees.remove(i)
        &&& post.infos_map() == pre.infos_map().remove(name)
        &&& post.trees_map() == pre.trees_map().remove(name)
    }
}

impl JsonStore {
    /// Register a new collection under `tname` with configuration `info`,
    /// starting empty and dirty. The caller then persists the registry and
    /// the new collection (see [`JsonStore::render_registry_file`] and
    /// [`JsonStore::save_tree`]).
    pub fn create_tree(&mut self, tname: &str, info: Info) -> (r: Result<(), JsonStoreError>)
        requires
            old(self)@.wf(),
        ensures
            final(self)@.wf(),
            store_create_post(old(self)@, tname@, info@, final(self)@, err_view(r)),
    {
        proof {
            lemma_keyed_map_contains(self@.infos, tname@);
        }
        match find_name(&self.infos, tname) {
            Some(i) => {
                proof {
                    assert(self@.infos[i as int].0 == tname@);
                }
                Err(JsonStoreError::FoundTree(tname.to_owned()))
            },
            None => {
                let ghost pre = self@;
                self.infos.push((tname.to_owned(), info));
                self.trees.push((tname.to_owned(), Tree::new(0, Vec::new(), true)));
                proof {
                    assert(self@.infos =~= pre.infos.push((tname@, info@)));
                    assert(data_view(Seq::<(u64, Value)>::empty()) =~= Seq::<(
                        u64,
                        ValModel,
                    )>::empty());
                    assert(self@.trees =~= pre.trees.push(
                        (tname@, TreeModel { sequence: 0, entries: Seq::empty(), changed: true }),
                    ));
                }
                Ok(())
            },
        }
    }

    /// Unregister `tname` and drop its in-memory collection. The caller then
    /// persists the registry and removes the collection's files.
    pub fn drop_tree(&mut self, tname: &str) -> (r: Result<(), JsonStoreError>)
        requires
            old(self)@.wf(),
        ensures
            final(self)@.wf(),
            store_drop_post(old(self)@, tname@, final(self)@, err_view(r)),
    {
        proof {
            lemma_keyed_map_contains(self@.infos, tname@);
        }
        let i = match find_name(&self.infos, tname) {
            None => {
                return Err(JsonStoreError::NotFoundTree(tname.to_owned()));
            },
            Some(i) => i,
        };
        let ghost pre = self@;
        proof {
            lemma_trees_distinct(pre);
            crate::assoc::lemma_keyed_map_remove(pre.infos, i as int);
            crate::assoc::lemma_keyed_map_remove(pre.trees, i as int);
        }
        self.infos.remove(i);
        self.trees.remove(i);
        proof {
            assert(self@.infos =~= pre.infos.remove(i as int));
            assert(self@.trees =~= pre.trees.remove(i as int));
        }
        Ok(())
    }

    /// Insert `value` into collection `tname` (see [`tree_insert_post`]).
    pub fn insert(&mut self, tname: &str, value: Value) -> (r: Result<u64, JsonStoreError>)
        requires
            old(self)@.wf(),
            old(self)@.trees_map().dom().contains(tname@) ==> old(self)@.trees_map()[tname@].sequence
                < 0x7fff_ffff_ffff_ffffu64,
        ensures
            final(self)@.wf(),
            store_insert_post(old(self)@, tname@, value@, final(self)@, err_view(r)),
    {
        let ghost pre = self@;
        proof {
            lemma_keyed_map_contains(pre.infos, tname@);
            lemma_registry_and_trees_agree(pre);
        }
        let i = match find_name(&self.infos, tname) {
            None => {
                return Err(JsonStoreError::NotFoundTree(tname.to_owned()));
            },
            Some(i) => i,
        };
        proof {
            lemma_trees_distinct(pre);
            lemma_keyed_map_index(pre.infos, i as int);
            lemma_keyed_map_index(pre.trees, i as int);
        }
        let (name, mut t) = self.trees.remove(i);
        let r = t.insert(tname, &self.infos[i].1, value);
        self.trees.insert(i, (name, t));
        proof {
            assert(self@.trees =~= pre.trees.update(i as int, (tname@, t@)));
            crate::assoc::lemma_keyed_map_update(pre.trees, i as int, t@);
            lemma_keyed_map_index(self@.trees, i as int);
        }
        r
    }

    /// Replace the document that `value` itself names through the collection's
    /// sequence field (see [`tree_update_post`]).
    pub fn update(&mut self, tname: &str, value: Value) -> (r: Result<(), JsonStoreError>)
        requires
            old(self)@.wf(),
        ensures
            final(self)@.wf(),
            store_update_post(old(self)@, tname@, value@, final(self)@, err_view(r)),
    {
        let ghost pre = self@;
        proof {
            lemma_keyed_map_contains(pre.infos, tname@);
            lemma_registry_and_trees_agree(pre);
        }
        let i = match find_name(&self.infos, tname) {
            None => {
                return Err(JsonStoreError::NotFoundTree(tname.to_owned()));
            },
            Some(i) => i,
        };
        proof {
            lemma_trees_distinct(pre);
            lemma_keyed_map_index(pre.infos, i as int);
            lemma_keyed_map_index(pre.trees, i as int);
        }
        let (name, mut t) = self.trees.remove(i);
        let r = t.update(tname, &self.infos[i].1, value);
        self.trees.insert(i, (name, t));
        proof {
            assert(self@.trees =~= pre.trees.update(i as int, (tname@, t@)));
            crate::assoc::lemma_keyed_map_update(pre.trees, i as int, t@);
            lemma_keyed_map_index(self@.trees, i as int);
        }
        r
    }

    /// Remove the document stored under `sequence` in collection `tname`
    /// (see [`tree_delete_post`]).
    pub fn delete(&mut self, tname: &str, sequence: u64) -> (r: Result<(), JsonStoreError>)
        requires
            old(self)@.wf(),
        ensures
            final(self)@.wf(),
            store_delete_post(old(self)@, tname@, sequence, final(self)@, err_view(r)),
    {
        let ghost pre = self@;
        proof {
            lemma_keyed_map_contains(pre.trees, tname@);
        }
        let i = match find_name(&self.trees, tname) {
            None => {
                return Err(JsonStoreError::NotFoundTree(tname.to_owned()));
            },
            Some(i) => i,
        };
        proof {
            lemma_trees_distinct(pre);
            lemma_keyed_map_index(pre.trees, i as int);
        }
        let (name, mut t) = self.trees.remove(i);
        let r = t.delete(tname, sequence);
        self.trees.insert(i, (name, t));
        proof {
            assert(self@.trees =~= pre.trees.update(i as int, (tname@, t@)));
            crate::assoc::lemma_keyed_map_update(pre.trees, i as int, t@);
            lemma_keyed_map_index(self@.trees, i as int);
        }
        r
    }

    /// Read the document stored under `sequence` in collection `tname`.
    pub fn select(&self, tname: &str, sequence: u64) -> (r: Result<&Value, JsonStoreError>)
        requires
            self@.wf(),
        ensures
            match r {
                Ok(v) => self@.trees_map().dom().contains(tname@)
                    && self@.trees_map()[tname@].data().dom().contains(sequence) && v@
                    == self@.trees_map()[tname@].data()[sequence],
                Err(e) => {
                    if !self@.trees_map().dom().contains(tname@) {
                        e@ == ErrModel::NotFoundTree(tname@)
                    } else {
                        e@ == ErrModel::SequenceNotExist(tname@) && !self@.trees_map()[
                            tname@
                        ].data().dom().contains(sequence)
                    }
                },
            },
    {
        proof {
            lemma_keyed_map_contains(self@.trees, tname@);
        }
        let i = match find_name(&self.trees, tname) {
            None => {
                return Err(JsonStoreError::NotFoundTree(tname.to_owned()));
            },
            Some(i) => i,
        };
        proof {
            lemma_trees_distinct(self@);
            lemma_keyed_map_index(self@.trees, i as int);
        }
        self.trees[i].1.select(tname, sequence)
    }

    /// The artifacts `save_tree` would write for collection `tname`: `None`
    /// for a clean collection (no file traffic is owed), and the sequence
    /// marker and data file texts for a dirty one. The caller writes both
    /// files and only then calls [`JsonStore::confirm_saved`].
    pub fn save_tree(&self, tname: &str) -> (r: Result<Option<(String, String)>, JsonStoreError>)
        requires
            self@.wf(),
        ensures
            match r {
                Ok(files) => self@.trees_map().dom().contains(tname@) && match files {
                    None => !self@.trees_map()[tname@].changed,
                    Some(texts) => self@.trees_map()[tname@].changed && texts.0@ == dec_digits(
                        self@.trees_map()[tname@].sequence as nat,
                    ) && texts.1@ == data_text(self@.trees_map()[tname@].entries),
                },
                Err(e) => e@ == ErrModel::NotFoundTree(tname@) && !self@.trees_map().dom().contains(
                    tname@,
                ),
            },
    {
        proof {
            lemma_keyed_map_contains(self@.trees, tname@);
        }
        let i = match find_name(&self.trees, tname) {
            None => {
                return Err(JsonStoreError::NotFoundTree(tname.to_owned()));
            },
            Some(i) => i,
        };
        proof {
            lemma_trees_distinct(self@);
            lemma_keyed_map_index(self@.trees, i as int);
        }
        let t = &self.trees[i].1;
        if !t.is_changed() {
            return Ok(None);
        }
        Ok(Some((render_sequence(t.sequence), render_data(&t.data))))
    }

    /// Record that collection `tname`'s files have just been fully written:
    /// clear its dirty flag and touch nothing else.
    pub fn confirm_saved(&mut self, tname: &str) -> (r: Result<(), JsonStoreError>)
        requires
            old(self)@.wf(),
        ensures
            final(self)@.wf(),
            match r {
                Ok(_) => store_confirm_post(old(self)@, tname@, final(self)@),
                Err(e) => e@ == ErrModel::NotFoundTree(tname@) && !old(
                    self,
                )@.trees_map().dom().contains(tname@) && final(self)@ == old(self)@,
            },
    {
        let ghost pre = self@;
        proof {
            lemma_keyed_map_contains(pre.trees, tname@);
        }
        let i = match find_name(&self.trees, tname) {
            None => {
                return Err(JsonStoreError::NotFoundTree(tname.to_owned()));
            },
            Some(i) => i,
        };
        proof {
            lemma_trees_distinct(pre);
            lemma_keyed_map_index(pre.trees, i as int);
        }
        let (name, mut t) = self.trees.remove(i);
        t.mark_saved();
        self.trees.insert(i, (name, t));
        proof {
            assert(self@.trees =~= pre.trees.update(i as int, (tname@, t@)));
            crate::assoc::lemma_keyed_map_update(pre.trees, i as int, t@);
            lemma_keyed_map_index(self@.trees, i as int);
        }
        Ok(())
    }

    /// The registry file's text for this store's configuration registry.
    pub fn render_registry_file(&self) -> (r: String)
        requires
            self@.wf(),
        ensures
            r@ == registry_text(self@.infos),
    {
        render_registry(&self.infos)
    }

    /// The artifacts a full `save` owes: for every dirty collection, in
    /// registry order, its name with its two file texts. Clean collections
    /// get no entry — no file traffic is owed for them.
    pub fn save(&self) -> (r: Vec<(String, String, String)>)
        requires
            self@.wf(),
        ensures
            renders_view(r@) == dirty_renders(self@.trees),
    {
        let ghost models = dirty_renders(self@.trees);
        let mut out: Vec<(String, String, String)> = Vec::new();
        let mut i: usize = 0;
        proof {
            assert(self@.trees.take(0) =~= Seq::empty());
            assert(renders_view(out@) =~= dirty_renders(self@.trees.take(0)));
        }
        while i < self.trees.len()
            invariant
                self@.wf(),
                i <= self.trees.len(),
                renders_view(out@) == dirty_renders(self@.trees.take(i as int)),
            decreases self.trees.len() - i,
        {
            let t = &self.trees[i].1;
            if t.is_changed() {
                let name = self.trees[i].0.clone();
                out.push((name, render_sequence(t.sequence), render_data(&t.data)));
            }
            proof {
                assert(self@.trees.take(i as int).push(self@.trees[i as int]) =~= self@.trees.take(
                    i as int + 1,
                ));
                lemma_dirty_renders_snoc(self@.trees.take(i as int), self@.trees[i as int]);
                assert(renders_view(out@) =~= dirty_renders(self@.trees.take(i as int + 1)));
            }
            i += 1;
        }
        proof {
            assert(self@.trees.take(i as int) =~= self@.trees);
        }
        out
    }

    /// Read the registry file's text: the named configurations, or the empty
    /// registry for a missing file. A missing file and the empty registry's
    /// rendering always read back; any other text is accepted only when it
    /// round-trips through the registry rendering with distinct names.
    pub fn parse_infos(text: Option<&str>) -> (r: Result<Vec<(String, Info)>, JsonStoreError>)
        ensures
            text is None ==> r is Ok,
            (text matches Some(s) && s@ == registry_text(Seq::<(Seq<char>, InfoModel)>::empty()))
                ==> r is Ok,
            match r {
                Ok(infos) => {
                    &&& distinct_keys(infos_view(infos@))
                    &&& match text {
                        None => infos@.len() == 0,
                        Some(s) => s@ == registry_text(infos_view(infos@)),
                    }
                },
                Err(e) => e@ == ErrModel::DeserializeFromStr("infos.json"@) && text is Some,
            },
    {
        let s = match text {
            None => {
                let infos: Vec<(String, Info)> = Vec::new();
                return Ok(infos);
            },
            Some(s) => s,
        };
        let infos = match registry_from_text(s) {
            Some(infos) => infos,
            None => {
                return Err(JsonStoreError::DeserializeFromStr("infos.json".to_owned()));
            },
        };
        proof {
            if s@ == registry_text(Seq::<(Seq<char>, InfoModel)>::empty()) {
                assert(crate::codec::registry_entries_val(
                    Seq::<(Seq<char>, InfoModel)>::empty(),
                ) =~= Seq::<(Seq<char>, crate::value::ValModel)>::empty());
                assert(registry_text(Seq::<(Seq<char>, InfoModel)>::empty()) =~= seq!['{', '}']);
                if infos_view(infos@).len() > 0 {
                    crate::codec::lemma_registry_text_nonempty(infos_view(infos@));
                }
                assert(infos_view(infos@) =~= Seq::<(Seq<char>, InfoModel)>::empty());
            }
        }
        if !names_distinct(&infos) {
            return Err(JsonStoreError::DeserializeFromStr("infos.json".to_owned()));
        }
        Ok(infos)
    }

    /// Assemble a store from a parsed registry and, aligned with it, each
    /// collection's file texts (`None` stands for a missing file). Every
    /// loaded collection starts clean. An empty registry always loads, and so
    /// does any registry with distinct names whose collections' data files
    /// are all missing or empty.
    pub fn load(
        path: String,
        infos: Vec<(String, Info)>,
        tree_texts: Vec<(Option<String>, Option<String>)>,
    ) -> (r: Result<JsonStore, JsonStoreError>)
        requires
            tree_texts@.len() == infos@.len(),
        ensures
            infos@.len() == 0 ==> r is Ok,
            distinct_keys(infos_view(infos@)) && (forall|i: int|
                0 <= i < tree_texts@.len() ==> (tree_texts@[i].1 is None || tree_texts@[i].1->Some_0@
                    == data_text(Seq::<(u64, ValModel)>::empty()))) ==> r is Ok,
            match r {
                Ok(store) => {
                    &&& store@.wf()
                    &&& store@.path == path@
                    &&& store@.infos == infos_view(infos@)
                    &&& store@.trees.len() == infos@.len()
                    &&& forall|i: int|
                        0 <= i < infos@.len() ==> store@.trees[i].0 == infos_view(infos@)[i].0
                            && tree_files_post(
                            tree_texts@[i].0,
                            tree_texts@[i].1,
                            store@.trees[i].1,
                        )
                },
                Err(e) => e@ is DeserializeFromStr,
            },
    {
        if !names_distinct(&infos) {
            return Err(JsonStoreError::DeserializeFromStr("infos.json".to_owned()));
        }
        let mut trees: Vec<(String, Tree)> = Vec::new();
        let mut i: usize = 0;
        while i < infos.len()
            invariant
                tree_texts@.len() == infos@.len(),
                i <= infos@.len(),
                trees@.len() == i,
                forall|j: int|
                    0 <= j < i ==> trees_view(trees@)[j].0 == infos_view(infos@)[j].0
                        && trees_view(trees@)[j].1.wf() && tree_files_post(
                        tree_texts@[j].0,
                        tree_texts@[j].1,
                        trees_view(trees@)[j].1,
                    ),
            decreases infos.len() - i,
        {
            let stext: Option<&str> = match &tree_texts[i].0 {
                Some(s) => Some(s.as_str()),
                None => None,
            };
            let dtext: Option<&str> = match &tree_texts[i].1 {
                Some(s) => Some(s.as_str()),
                None => None,
            };
            let t = match tree_from_files(infos[i].0.as_str(), stext, dtext) {
                Ok(t) => t,
                Err(e) => {
                    return Err(e);
                },
            };
            let ghost prev = trees@;
            trees.push((infos[i].0.clone(), t));
            proof {
                assert(forall|j: int|
                    0 <= j < prev.len() ==> trees_view(trees@)[j] == trees_view(prev)[j]);
                assert(trees_view(trees@)[i as int].0 == infos_view(infos@)[i as int].0);
                assert(trees_view(trees@)[i as int].1 == t@);
            }
            i += 1;
        }
        let store = JsonStore { path, infos, trees };
        Ok(store)
    }

    /// The root path this store was opened on.
    pub fn path(&self) -> (r: &String)
        ensures
            r@ == self@.path,
    {
        &self.path
    }

    /// The registered collection names, in registry order.
    pub fn tree_names(&self) -> (r: Vec<String>)
        ensures
            r@.len() == self@.infos.len(),
            forall|i: int| 0 <= i < r@.len() ==> r@[i]@ == self@.infos[i].0,
    {
        let mut out: Vec<String> = Vec::new();
        let mut i: usize = 0;
        while i < self.infos.len()
            invariant
                i <= self.infos.len(),
                out@.len() == i,
                forall|j: int| 0 <= j < i ==> out@[j]@ == self@.infos[j].0,
            decreases self.infos.len() - i,
        {
            out.push(self.infos[i].0.clone());
            i += 1;
        }
        out
    }

    /// The registry file's path under this store's root.
    pub fn registry_path(&self) -> (r: String)
        ensures
            r@ == self@.path + "/"@ + "infos.json"@,
    {
        let mut s = self.path.clone();
        s.append("/");
        s.append("infos.json");
        s
    }

    /// The sequence-marker file's path for collection `tname`.
    pub fn seq_path(&self, tname: &str) -> (r: String)
        ensures
            r@ == self@.path + "/"@ + tname@ + ".seq"@,
    {
        let mut s = self.path.clone();
        s.append("/");
        s.append(tname);
        s.append(".seq");
        s
    }

    /// The data file's path for collection `tname`.
    pub fn data_path(&self, tname: &str) -> (r: String)
        ensures
            r@ == self@.path + "/"@ + tname@ + ".json"@,
    {
        let mut s = self.path.clone();
        s.append("/");
        s.append(tname);
        s.append(".json");
        s
    }
}

/// What loading one collection from its two file texts guarantees: the
/// collection is clean; a missing data file gives an empty collection and a
/// present one is exactly the rendering of what was loaded; a missing marker
/// file gives sequence `0` and a canonically rendered one reads back exactly.
pub open spec fn tree_files_post(
    stext: Option<String>,
    dtext: Option<String>,
    t: TreeModel,
) -> bool {
    &&& t.changed == false
    &&& match dtext {
        None => t.entries == Seq::<(u64, ValModel)>::empty(),
        Some(s) => s@ == data_text(t.entries),
    }
    &&& match stext {
        None => t.sequence == 0,
        Some(s) => t.sequence == marker_value(s@),
    }
}

/// The models of a rendered-artifact list.
pub open spec fn renders_view(s: Seq<(String, String, String)>) -> Seq<
    (Seq<char>, Seq<char>, Seq<char>),
> {
    Seq::new(s.len(), |i: int| (s[i].0@, s[i].1@, s[i].2@))
}

/// The artifacts owed for the dirty collections, in order: name, sequence
/// marker text, data file text.
pub open spec fn dirty_renders(trees: Seq<(Seq<char>, TreeModel)>) -> Seq<
    (Seq<char>, Seq<char>, Seq<char>),
>
    decreases trees.len(),
{
    if trees.len() == 0 {
        Seq::empty()
    } else {
        let head: Seq<(Seq<char>, Seq<char>, Seq<char>)> = if trees[0].1.changed {
            seq![
                (
                    trees[0].0,
                    dec_digits(trees[0].1.sequence as nat),
                    data_text(trees[0].1.entries),
                ),
            ]
        } else {
            Seq::empty()
        };
        head + dirty_renders(trees.drop_first())
    }
}

proof fn lemma_dirty_renders_snoc(trees: Seq<(Seq<char>, TreeModel)>, t: (Seq<char>, TreeModel))
    ensures
        dirty_renders(trees.push(t)) == dirty_renders(trees) + (if t.1.changed {
            seq![(t.0, dec_digits(t.1.sequence as nat), data_text(t.1.entries))]
        } else {
            Seq::<(Seq<char>, Seq<char>, Seq<char>)>::empty()
        }),
    decreases trees.len(),
{
    if trees.len() == 0 {
        let tail = if t.1.changed {
            seq![(t.0, dec_digits(t.1.sequence as nat), data_text(t.1.entries))]
        } else {
            Seq::<(Seq<char>, Seq<char>, Seq<char>)>::empty()
        };
        assert(trees.push(t)[0] == t);
        assert(trees.push(t).drop_first() =~= Seq::<(Seq<char>, TreeModel)>::empty());
        assert(dirty_renders(trees.push(t)) == tail + dirty_renders(trees.push(t).drop_first()));
        assert(dirty_renders(Seq::<(Seq<char>, TreeModel)>::empty()) =~= Seq::<(
            Seq<char>,
            Seq<char>,
            Seq<char>,
        )>::empty());
        assert(dirty_renders(trees.push(t)) =~= dirty_renders(trees) + tail);
    } else {
        let tail = if t.1.changed {
            seq![(t.0, dec_digits(t.1.sequence as nat), data_text(t.1.entries))]
        } else {
            Seq::<(Seq<char>, Seq<char>, Seq<char>)>::empty()
        };
        let head = if trees[0].1.changed {
            seq![
                (
                    trees[0].0,
                    dec_digits(trees[0].1.sequence as nat),
                    data_text(trees[0].1.entries),
                ),
            ]
        } else {
            Seq::<(Seq<char>, Seq<char>, Seq<char>)>::empty()
        };
        assert(trees.push(t)[0] == trees[0]);
        assert(trees.push(t).drop_first() =~= trees.drop_first().push(t));
        lemma_dirty_renders_snoc(trees.drop_first(), t);
        assert(dirty_renders(trees.push(t)) == head + dirty_renders(trees.drop_first().push(t)));
        assert(dirty_renders(trees.push(t)) == head + (dirty_renders(trees.drop_first()) + tail));
        assert(dirty_renders(trees) == head + dirty_renders(trees.drop_first()));
        assert(dirty_renders(trees.push(t)) =~= dirty_renders(trees) + tail);
    }
}

/// Every name in the list is distinct from every other.
#[verifier::loop_isolation(false)]
fn names_distinct(infos: &Vec<(String, Info)>) -> (r: bool)
    ensures
        r == distinct_keys(infos_view(infos@)),
{
    let ghost iv = infos_view(infos@);
    let mut i: usize = 0;
    while i < infos.len()
        invariant
            i <= infos.len(),
            forall|a: int, b: int| 0 <= a < b < i ==> iv[a].0 != iv[b].0,
        decreases infos.len() - i,
    {
        let mut j: usize = 0;
        while j < i
            invariant
                j <= i < infos.len(),
                forall|a: int, b: int| 0 <= a < b < i ==> iv[a].0 != iv[b].0,
                forall|a: int| 0 <= a < j ==> iv[a].0 != iv[i as int].0,
            decreases i - j,
        {
            if crate::value::str_eq(infos[j].0.as_str(), infos[i].0.as_str()) {
                proof {
                    assert(iv[j as int].0 == iv[i as int].0);
                    assert(!distinct_keys(iv)) by {
                        let ji = j as int;
                        let ii = i as int;
                        assert(0 <= ji < ii < iv.len() && iv[ji].0 == iv[ii].0);
                    }
                }
                return false;
            }
            j += 1;
        }
        i += 1;
    }
    true
}

/// Assemble one collection from its two file texts. The marker always reads
/// as [`marker_value`] says (a missing or damaged marker reads as `0`); a
/// missing or empty data file always loads as the empty collection; an
/// unreadable data file, repeated sequence numbers, or a number above the
/// marker reject the pair.
pub fn tree_from_files(tname: &str, stext: Option<&str>, dtext: Option<&str>) -> (r: Result<
    Tree,
    JsonStoreError,
>)
    ensures
        dtext is None ==> r is Ok,
        (dtext matches Some(s) && s@ == data_text(Seq::<(u64, ValModel)>::empty())) ==> r is Ok,
        match r {
            Ok(t) => {
                &&& t@.wf()
                &&& t@.changed == false
                &&& match dtext {
                    None => t@.entries == Seq::<(u64, ValModel)>::empty(),
                    Some(s) => s@ == data_text(t@.entries),
                }
                &&& match stext {
                    None => t@.sequence == 0,
                    Some(s) => t@.sequence == marker_value(s@),
                }
            },
            Err(e) => e@ == ErrModel::DeserializeFromStr(tname@) && dtext is Some,
        },
{
    let sequence: u64 = match stext {
        None => 0,
        Some(s) => parse_u64_text(s),
    };
    let data: Vec<(u64, Value)> = match dtext {
        None => Vec::new(),
        Some(s) => match data_from_text(s) {
            Some(d) => d,
            None => {
                return Err(JsonStoreError::DeserializeFromStr(tname.to_owned()));
            },
        },
    };
    proof {
        if dtext matches Some(s) && s@ == data_text(Seq::<(u64, ValModel)>::empty()) {
            assert(crate::codec::data_entries_val(Seq::<(u64, ValModel)>::empty()) =~= Seq::<(
                Seq<char>,
                ValModel,
            )>::empty());
            assert(data_text(Seq::<(u64, ValModel)>::empty()) =~= seq!['{', '}']);
            if data_view(data@).len() > 0 {
                lemma_data_text_nonempty(data_view(data@));
            }
            assert(data_view(data@) =~= Seq::<(u64, ValModel)>::empty());
        }
    }
    if !data_keys_ok(&data, sequence) {
        return Err(JsonStoreError::DeserializeFromStr(tname.to_owned()));
    }
    let t = Tree::new(sequence, data, false);
    proof {
        if dtext is None {
            assert(data_view(Seq::<(u64, Value)>::empty()) =~= Seq::<(u64, ValModel)>::empty());
        }
    }
    Ok(t)
}

/// The entry keys are pairwise distinct and bounded by the high-water mark.
#[verifier::loop_isolation(false)]
fn data_keys_ok(data: &Vec<(u64, Value)>, sequence: u64) -> (r: bool)
    ensures
        r == (distinct_keys(data_view(data@)) && forall|i: int|
            0 <= i < data@.len() ==> data_view(data@)[i].0 <= sequence),
{
    let ghost dv = data_view(data@);
    let mut i: usize = 0;
    while i < data.len()
        invariant
            i <= data.len(),
            forall|a: int, b: int| 0 <= a < b < i ==> dv[a].0 != dv[b].0,
            forall|a: int| 0 <= a < i ==> dv[a].0 <= sequence,
        decreases data.len() - i,
    {
        if data[i].0 > sequence {
            proof {
                assert(dv[i as int].0 > sequence);
            }
            return false;
        }
        let mut j: usize = 0;
        while j < i
            invariant
                j <= i < data.len(),
                forall|a: int, b: int| 0 <= a < b < i ==> dv[a].0 != dv[b].0,
                forall|a: int| 0 <= a < j ==> dv[a].0 != dv[i as int].0,
            decreases i - j,
        {
            if data[j].0 == data[i].0 {
                proof {
                    assert(!distinct_keys(dv)) by {
                        let ji = j as int;
                        let ii = i as int;
                        assert(0 <= ji < ii < dv.len() && dv[ji].0 == dv[ii].0);
                    }
                }
                return false;
            }
            j += 1;
        }
        i += 1;
    }
    true
}

/// Writing back a freshly loaded collection reproduces its files: when both
/// files were present, the data file was readable and the sequence marker was
/// a canonical rendering (which is exactly what `save_tree` writes), the
/// loaded collection renders to the very texts it was loaded from. The
/// hypotheses are what [`tree_from_files`] ensures of a successful load.
pub proof fn lemma_load_then_save_reproduces_files(
    t: TreeModel,
    stext: Seq<char>,
    dtext: Seq<char>,
    n: u64,
)
    requires
        stext == dec_digits(n as nat),
        t.sequence == marker_value(stext),
        dtext == data_text(t.entries),
    ensures
        dec_digits(t.sequence as nat) == stext,
        data_text(t.entries) == dtext,
{
    lemma_marker_value_canonical(n);
}

} // verus!
