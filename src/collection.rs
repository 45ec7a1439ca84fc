use vstd::prelude::*;

use crate::keyed::{
    has_key, keys_unique, lemma_map_of_dom, lemma_map_of_push, lemma_map_of_remove,
    lemma_map_of_value, map_of,
};
use crate::timestamp::Timestamp;

verus! {

/// What the registry records of one document: its id, and the time the
/// document was last modified when it was registered.
///
/// Entries compare and order by document id alone.
#[derive(Clone, Copy, Debug)]
pub struct CollectionEntry {
    document_id: u32,
    modified: Timestamp,
}

impl View for CollectionEntry {
    type V = (u32, Timestamp);

    closed spec fn view(&self) -> (u32, Timestamp) {
        (self.document_id, self.modified)
    }
}

impl CollectionEntry {
    /// Creates an entry with the given document id and modification time.
    pub fn new(document_id: u32, modified: Timestamp) -> (r: CollectionEntry)
        ensures
            r@ == (document_id, modified),
    {
        CollectionEntry { document_id, modified }
    }

    /// The modification time recorded for the document.
    pub fn modified(&self) -> (r: Timestamp)
        ensures
            r == self@.1,
    {
        self.modified
    }

    /// The id of the document.
    pub fn document_id(&self) -> (r: u32)
        ensures
            r == self@.0,
    {
        self.document_id
    }
}

impl PartialEq for CollectionEntry {
    fn eq(&self, other: &CollectionEntry) -> (r: bool) {
        self.document_id == other.document_id
    }
}

impl vstd::std_specs::cmp::PartialEqSpecImpl for CollectionEntry {
    open spec fn obeys_eq_spec() -> bool {
        true
    }

    open spec fn eq_spec(&self, other: &CollectionEntry) -> bool {
        self@.0 == other@.0
    }
}

impl Eq for CollectionEntry {}

impl PartialOrd for CollectionEntry {
    fn partial_cmp(&self, other: &CollectionEntry) -> (r: Option<core::cmp::Ordering>) {
        if self.document_id < other.document_id {
            Some(core::cmp::Ordering::Less)
        } else if self.document_id == other.document_id {
            Some(core::cmp::Ordering::Equal)
        } else {
            Some(core::cmp::Ordering::Greater)
        }
    }
}

impl vstd::std_specs::cmp::PartialOrdSpecImpl for CollectionEntry {
    open spec fn obeys_partial_cmp_spec() -> bool {
        true
    }

    open spec fn partial_cmp_spec(&self, other: &CollectionEntry) -> Option<core::cmp::Ordering> {
        if self@.0 < other@.0 {
            Some(core::cmp::Ordering::Less)
        } else if self@.0 == other@.0 {
            Some(core::cmp::Ordering::Equal)
        } else {
            Some(core::cmp::Ordering::Greater)
        }
    }
}

/// Whether a stored sequence of (path, (id, modification time)) pairs is a
/// consistent registry: no path twice, no id twice, every id below `next_id`.
pub open spec fn registry_valid(s: Seq<(Seq<char>, (u32, Timestamp))>, next_id: nat) -> bool {
    &&& keys_unique(s)
    &&& forall|i: int| 0 <= i < s.len() ==> (#[trigger] s[i]).1.0 < next_id
    &&& forall|i: int, j: int| 0 <= i < j < s.len() ==> (#[trigger] s[i]).1.0 != (#[trigger] s[j]).1.0
}

/// The registry's contents and next id after registering `path`, modified at
/// `modified`: a known path changes nothing; an unknown one gets the next id.
pub open spec fn after_insert(
    m: Map<Seq<char>, (u32, Timestamp)>,
    next_id: nat,
    path: Seq<char>,
    modified: Timestamp,
) -> (Map<Seq<char>, (u32, Timestamp)>, nat) {
    if m.contains_key(path) {
        (m, next_id)
    } else {
        (m.insert(path, (next_id as u32, modified)), next_id + 1)
    }
}

/// The registry's contents and next id after registering each document of
/// `docs`, in order, into an empty registry.
pub open spec fn registry_after(docs: Seq<(Seq<char>, Timestamp)>) -> (
    Map<Seq<char>, (u32, Timestamp)>,
    nat,
)
    decreases docs.len(),
{
    if docs.len() == 0 {
        (Map::empty(), 0)
    } else {
        let prev = registry_after(docs.drop_last());
        after_insert(prev.0, prev.1, docs.last().0, docs.last().1)
    }
}

/// The documents of a list of (path, modification time) pairs, over views.
pub open spec fn documents_view(docs: Seq<(String, Timestamp)>) -> Seq<(Seq<char>, Timestamp)> {
    docs.map_values(|d: (String, Timestamp)| (d.0@, d.1))
}

/// The stored pairs of a list of (path, entry) pairs, over views.
pub open spec fn entries_view(entries: Seq<(String, CollectionEntry)>) -> Seq<
    (Seq<char>, (u32, Timestamp)),
> {
    entries.map_values(|e: (String, CollectionEntry)| (e.0@, e.1@))
}

/// The registry of the documents under one root directory: each known path
/// with the id assigned to it and its modification time when registered.
///
/// Ids are handed out by a counter that only grows, so an id is never given
/// to two paths, even after a removal.
pub struct Collection {
    root_dir: String,
    index: Vec<(String, CollectionEntry)>,
    next_id: u32,
}

impl View for Collection {
    type V = Map<Seq<char>, (u32, Timestamp)>;

    open spec fn view(&self) -> Map<Seq<char>, (u32, Timestamp)> {
        map_of(self.spec_entries())
    }
}

impl Collection {
    /// The registered documents, as path and entry pairs in storage order.
    pub closed spec fn spec_entries(&self) -> Seq<(Seq<char>, (u32, Timestamp))> {
        self.index@.map_values(|e: (String, CollectionEntry)| (e.0@, e.1@))
    }

    /// The id that the next newly registered path will get.
    pub closed spec fn spec_next_id(&self) -> nat {
        self.next_id as nat
    }

    /// The root directory of the documents.
    pub closed spec fn spec_root_dir(&self) -> Seq<char> {
        self.root_dir@
    }

    /// The registry's internal invariant.
    pub open spec fn wf(&self) -> bool {
        registry_valid(self.spec_entries(), self.spec_next_id())
    }

    /// The position of `path` in storage, if it is registered.
    fn position(&self, path: &String) -> (r: Option<usize>)
        ensures
            match r {
                Some(i) => i < self.index@.len() && self.spec_entries()[i as int].0 == path@,
                None => !has_key(self.spec_entries(), path@),
            },
    {
        let mut i: usize = 0;
        while i < self.index.len()
            invariant
                i <= self.index@.len(),
                forall|j: int| 0 <= j < i ==> self.spec_entries()[j].0 != path@,
            decreases self.index@.len() - i,
        {
            if self.index[i].0 == *path {
                return Some(i);
            }
            i = i + 1;
        }
        None
    }

    /// Registers a document modified at `modified`. An unknown path gets the
    /// next id; a known path is left as it is, modification time included.
    pub fn insert(&mut self, document_path: String, modified: Timestamp)
        requires
            old(self).wf(),
            old(self)@.contains_key(document_path@) || old(self).spec_next_id() < u32::MAX,
        ensures
            final(self).wf(),
            (final(self)@, final(self).spec_next_id()) == after_insert(
                old(self)@,
                old(self).spec_next_id(),
                document_path@,
                modified,
            ),
            final(self).spec_root_dir() == old(self).spec_root_dir(),
    {
        let ghost s = self.spec_entries();
        proof {
            lemma_map_of_dom(s);
        }
        match self.position(&document_path) {
            Some(i) => {
                assert(has_key(s, document_path@));
            },
            None => {
                let ghost k = document_path@;
                let entry = CollectionEntry::new(self.next_id, modified);
                self.index.push((document_path, entry));
                self.next_id = self.next_id + 1;
                assert(self.spec_entries() =~= s.push((k, entry@)));
                proof {
                    lemma_map_of_push(s, k, entry@);
                    let t = self.spec_entries();
                    assert forall|a: int, b: int| 0 <= a < b < t.len() implies t[a].0 != t[b].0 by {
                        if b == s.len() {
                            assert(s[a].0 == t[a].0);
                        }
                    }
                    assert forall|a: int| 0 <= a < t.len() implies (#[trigger] t[a]).1.0
                        < self.spec_next_id() by {
                        if a < s.len() {
                            assert(s[a] == t[a]);
                        }
                    }
                    assert forall|a: int, b: int| 0 <= a < b < t.len() implies (#[trigger] t[a]).1.0
                        != (#[trigger] t[b]).1.0 by {
                        assert(s[a] == t[a]);
                        if b < s.len() {
                            assert(s[b] == t[b]);
                        }
                    }
                }
            },
        }
    }

    /// Whether `document_path` is registered.
    pub fn contains_path(&self, document_path: &String) -> (r: bool)
        ensures
            r == self@.contains_key(document_path@),
    {
        proof {
            lemma_map_of_dom(self.spec_entries());
        }
        self.position(document_path).is_some()
    }

    /// Builds a registry by registering each (path, modification time) pair
    /// of `documents` in order; a path seen before keeps its first entry.
    pub fn from_paths(documents: Vec<(String, Timestamp)>) -> (r: Collection)
        requires
            documents@.len() < u32::MAX,
        ensures
            r.wf(),
            (r@, r.spec_next_id()) == registry_after(documents_view(documents@)),
            r.spec_root_dir() == Seq::<char>::empty(),
    {
        let ghost d = documents_view(documents@);
        let mut r = Collection::default();
        let mut i: usize = 0;
        assert(d.take(0) =~= Seq::<(Seq<char>, Timestamp)>::empty());
        while i < documents.len()
            invariant
                i <= documents@.len(),
                documents@.len() < u32::MAX,
                d == documents_view(documents@),
                r.wf(),
                r.spec_next_id() <= i,
                (r@, r.spec_next_id()) == registry_after(d.take(i as int)),
                r.spec_root_dir() == Seq::<char>::empty(),
            decreases documents@.len() - i,
        {
            let path = documents[i].0.clone();
            let modified = documents[i].1;
            r.insert(path, modified);
            assert(d.take(i + 1).drop_last() =~= d.take(i as int));
            i = i + 1;
        }
        assert(d.take(i as int) =~= d);
        r
    }

    /// The root directory of the documents.
    pub fn root_dir(&self) -> (r: &String)
        ensures
            r@ == self.spec_root_dir(),
    {
        &self.root_dir
    }

    /// The id that the next newly registered path will get.
    pub fn next_document_id(&self) -> (r: u32)
        ensures
            r == self.spec_next_id(),
    {
        self.next_id
    }

    /// The registered documents, as (path, entry) pairs in storage order.
    pub fn entries(&self) -> (r: Vec<(String, CollectionEntry)>)
        ensures
            entries_view(r@) == self.spec_entries(),
    {
        let mut r: Vec<(String, CollectionEntry)> = Vec::new();
        let mut i: usize = 0;
        while i < self.index.len()
            invariant
                i <= self.index@.len(),
                r@.len() == i,
                entries_view(r@) == self.spec_entries().take(i as int),
            decreases self.index@.len() - i,
        {
            let ghost before = r@;
            let path = self.index[i].0.clone();
            assert(path@ == self.index@[i as int].0@);
            r.push((path, self.index[i].1));
            assert(r@ == before.push((path, self.index@[i as int].1)));
            assert(entries_view(r@) =~= self.spec_entries().take(i + 1)) by {
                assert(entries_view(before) == self.spec_entries().take(i as int));
                assert forall|k: int| 0 <= k < i implies entries_view(r@)[k] == entries_view(before)[k] by {
                    assert(r@[k] == before[k]);
                }
            }
            i = i + 1;
        }
        assert(self.spec_entries().take(i as int) =~= self.spec_entries());
        r
    }

    /// Rebuilds a registry from its stored parts: the root directory, the
    /// (path, entry) pairs and the next id. Gives `None` where the parts are
    /// not a consistent registry.
    pub fn from_parts(root_dir: String, entries: Vec<(String, CollectionEntry)>, next_id: u32) -> (r:
        Option<Collection>)
        ensures
            r is Some <==> registry_valid(entries_view(entries@), next_id as nat),
            r matches Some(c) ==> {
                &&& c.wf()
                &&& c.spec_entries() == entries_view(entries@)
                &&& c@ == map_of(entries_view(entries@))
                &&& c.spec_next_id() == next_id
                &&& c.spec_root_dir() == root_dir@
            },
    {
        let ghost s = entries_view(entries@);
        let mut i: usize = 0;
        while i < entries.len()
            invariant
                i <= entries@.len(),
                s == entries_view(entries@),
                registry_valid(s.take(i as int), next_id as nat),
            decreases entries@.len() - i,
        {
            if entries[i].1.document_id >= next_id {
                assert(s[i as int].1.0 >= next_id);
                return None;
            }
            let mut j: usize = 0;
            while j < i
                invariant
                    j <= i < entries@.len(),
                    s == entries_view(entries@),
                    forall|k: int| 0 <= k < j ==> s[k].0 != s[i as int].0 && s[k].1.0 != s[i as int].1.0,
                decreases i - j,
            {
                if entries[j].0 == entries[i].0 {
                    assert(s[j as int].0 == s[i as int].0);
                    return None;
                }
                if entries[j].1.document_id == entries[i].1.document_id {
                    assert(s[j as int].1.0 == s[i as int].1.0);
                    return None;
                }
                j = j + 1;
            }
            let ghost t = s.take(i + 1);
            assert forall|a: int, b: int| 0 <= a < b < t.len() implies t[a].0 != t[b].0 by {
                assert(t[a] == s.take(i as int)[a] || b == i);
                if b < i {
                    assert(t[b] == s.take(i as int)[b]);
                }
            }
            assert forall|a: int| 0 <= a < t.len() implies (#[trigger] t[a]).1.0 < next_id by {
                if a < i {
                    assert(t[a] == s.take(i as int)[a]);
                }
            }
            assert forall|a: int, b: int| 0 <= a < b < t.len() implies (#[trigger] t[a]).1.0
                != (#[trigger] t[b]).1.0 by {
                assert(t[a] == s.take(i as int)[a]);
                if b < i {
                    assert(t[b] == s.take(i as int)[b]);
                }
            }
            i = i + 1;
        }
        assert(s.take(i as int) =~= s);
        let c = Collection { root_dir, index: entries, next_id };
        assert(c.spec_entries() =~= s);
        Some(c)
    }

    /// The entry stored for `path`, if it is registered.
    fn lookup(&self, path: &String) -> (r: Option<CollectionEntry>)
        requires
            self.wf(),
        ensures
            match r {
                Some(e) => self@.contains_key(path@) && e@ == self@[path@],
                None => !self@.contains_key(path@),
            },
    {
        proof {
            lemma_map_of_dom(self.spec_entries());
        }
        match self.position(path) {
            Some(i) => {
                proof {
                    lemma_map_of_value(self.spec_entries(), i as int);
                }
                Some(self.index[i].1)
            },
            None => None,
        }
    }

    /// The id of `document_path`, if it is registered.
    pub fn get_document_id(&self, document_path: &String) -> (r: Option<u32>)
        requires
            self.wf(),
        ensures
            r == (if self@.contains_key(document_path@) {
                Some(self@[document_path@].0)
            } else {
                None
            }),
    {
        match self.lookup(document_path) {
            Some(e) => Some(e.document_id),
            None => None,
        }
    }

    /// The recorded modification time of `document_path`, if it is registered.
    pub fn get_last_modified(&self, document_path: &String) -> (r: Option<Timestamp>)
        requires
            self.wf(),
        ensures
            r == (if self@.contains_key(document_path@) {
                Some(self@[document_path@].1)
            } else {
                None
            }),
    {
        match self.lookup(document_path) {
            Some(e) => Some(e.modified),
            None => None,
        }
    }

    /// The recorded modification time of `document_path`, if it is registered;
    /// the same as `get_last_modified`.
    pub fn get_modified(&self, document_path: &String) -> (r: Option<Timestamp>)
        requires
            self.wf(),
        ensures
            r == (if self@.contains_key(document_path@) {
                Some(self@[document_path@].1)
            } else {
                None
            }),
    {
        self.get_last_modified(document_path)
    }

    /// Forgets `document_path` and returns its entry, if it was registered.
    /// No id is renumbered or handed out again.
    pub fn remove(&mut self, document_path: &String) -> (r: Option<CollectionEntry>)
        requires
            old(self).wf(),
        ensures
            final(self).wf(),
            final(self)@ == old(self)@.remove(document_path@),
            final(self).spec_next_id() == old(self).spec_next_id(),
            final(self).spec_root_dir() == old(self).spec_root_dir(),
            match r {
                Some(e) => old(self)@.contains_key(document_path@) && e@ == old(self)@[document_path@],
                None => !old(self)@.contains_key(document_path@),
            },
    {
        let ghost s = self.spec_entries();
        proof {
            lemma_map_of_dom(s);
        }
        match self.position(document_path) {
            Some(i) => {
                proof {
                    lemma_map_of_value(s, i as int);
                    lemma_map_of_remove(s, i as int);
                }
                let (_, e) = self.index.remove(i);
                let ghost t = self.spec_entries();
                assert(t =~= s.remove(i as int));
                assert forall|a: int| 0 <= a < t.len() implies (#[trigger] t[a]).1.0
                    < self.spec_next_id() by {
                    let a2 = if a < i { a } else { a + 1 };
                    assert(t[a] == s[a2]);
                }
                assert forall|a: int, b: int| 0 <= a < b < t.len() implies (#[trigger] t[a]).1.0
                    != (#[trigger] t[b]).1.0 by {
                    let a2 = if a < i { a } else { a + 1 };
                    let b2 = if b < i { b } else { b + 1 };
                    assert(t[a] == s[a2] && t[b] == s[b2]);
                }
                Some(e)
            },
            None => {
                assert(map_of(s) =~= map_of(s).remove(document_path@));
                None
            },
        }
    }
}

impl Default for Collection {
    /// An empty registry with an empty root directory.
    fn default() -> (r: Collection)
        ensures
            r.wf(),
            r@ == Map::<Seq<char>, (u32, Timestamp)>::empty(),
            r.spec_next_id() == 0,
            r.spec_root_dir() == Seq::<char>::empty(),
    {
        let r = Collection { root_dir: String::new(), index: Vec::new(), next_id: 0 };
        assert(r.spec_entries() =~= Seq::<(Seq<char>, (u32, Timestamp))>::empty());
        r
    }
}

/// `inv` maps each id of `m` back to the path that holds it, and nothing else.
pub open spec fn inverse_of(m: Map<Seq<char>, (u32, Timestamp)>, inv: Map<u32, Seq<char>>) -> bool {
    &&& forall|p: Seq<char>| #[trigger]
        m.contains_key(p) ==> inv.contains_key(m[p].0) && inv[m[p].0] == p
    &&& forall|id: u32| #[trigger]
        inv.contains_key(id) ==> m.contains_key(inv[id]) && m[inv[id]].0 == id
}

/// A read-only view of a registry from document id back to path.
pub struct InvertedCollection {
    inner: Vec<(u32, String)>,
}

impl View for InvertedCollection {
    type V = Map<u32, Seq<char>>;

    open spec fn view(&self) -> Map<u32, Seq<char>> {
        map_of(self.spec_pairs())
    }
}

impl InvertedCollection {
    /// The (id, path) pairs held, in storage order.
    pub closed spec fn spec_pairs(&self) -> Seq<(u32, Seq<char>)> {
        self.inner@.map_values(|e: (u32, String)| (e.0, e.1@))
    }

    /// The view's internal invariant: no id twice.
    pub open spec fn wf(&self) -> bool {
        keys_unique(self.spec_pairs())
    }

    /// Builds the id-to-path view of a registry.
    pub fn from_collection(collection: &Collection) -> (r: InvertedCollection)
        requires
            collection.wf(),
        ensures
            r.wf(),
            inverse_of(collection@, r@),
    {
        let ghost s = collection.spec_entries();
        let mut inner: Vec<(u32, String)> = Vec::new();
        let mut i: usize = 0;
        while i < collection.index.len()
            invariant
                i <= collection.index@.len(),
                s == collection.spec_entries(),
                inner@.len() == i,
                forall|k: int|
                    0 <= k < i ==> (#[trigger] inner@[k]).0 == s[k].1.0 && inner@[k].1@ == s[k].0,
            decreases collection.index@.len() - i,
        {
            let path = collection.index[i].0.clone();
            inner.push((collection.index[i].1.document_id, path));
            i = i + 1;
        }
        let r = InvertedCollection { inner };
        let ghost t = r.spec_pairs();
        assert forall|k: int| 0 <= k < t.len() implies #[trigger] t[k] == (s[k].1.0, s[k].0) by {
            assert(inner@[k].0 == s[k].1.0);
        }
        assert forall|a: int, b: int| 0 <= a < b < t.len() implies t[a].0 != t[b].0 by {
            assert(t[a] == (s[a].1.0, s[a].0));
            assert(t[b] == (s[b].1.0, s[b].0));
        }
        proof {
            lemma_map_of_dom(s);
            lemma_map_of_dom(t);
            assert forall|p: Seq<char>| #[trigger] collection@.contains_key(p) implies r@.contains_key(
                collection@[p].0,
            ) && r@[collection@[p].0] == p by {
                let k = choose|k: int| 0 <= k < s.len() && s[k].0 == p;
                lemma_map_of_value(s, k);
                lemma_map_of_value(t, k);
                assert(t[k] == (s[k].1.0, s[k].0));
            }
            assert forall|id: u32| #[trigger] r@.contains_key(id) implies collection@.contains_key(
                r@[id],
            ) && collection@[r@[id]].0 == id by {
                let k = choose|k: int| 0 <= k < t.len() && t[k].0 == id;
                lemma_map_of_value(s, k);
                lemma_map_of_value(t, k);
                assert(t[k] == (s[k].1.0, s[k].0));
            }
        }
        r
    }

    /// The path of the document with id `doc_id`, if there is one.
    pub fn get_path(&self, doc_id: u32) -> (r: Option<&String>)
        requires
            self.wf(),
        ensures
            match r {
                Some(p) => self@.contains_key(doc_id) && p@ == self@[doc_id],
                None => !self@.contains_key(doc_id),
            },
    {
        proof {
            lemma_map_of_dom(self.spec_pairs());
        }
        let mut i: usize = 0;
        while i < self.inner.len()
            invariant
                i <= self.inner@.len(),
                self.wf(),
                forall|j: int| 0 <= j < i ==> self.spec_pairs()[j].0 != doc_id,
            decreases self.inner@.len() - i,
        {
            if self.inner[i].0 == doc_id {
                proof {
                    lemma_map_of_value(self.spec_pairs(), i as int);
                }
                return Some(&self.inner[i].1);
            }
            i = i + 1;
        }
        None
    }
}

/// Registering distinct paths, in order, into an empty registry gives the
/// paths the ids 0, 1, 2, ... in that order, each with its own modification
/// time, and registers nothing else.
pub proof fn lemma_fresh_ids_in_order(docs: Seq<(Seq<char>, Timestamp)>)
    requires
        keys_unique(docs),
        docs.len() < u32::MAX,
    ensures
        registry_after(docs).1 == docs.len(),
        forall|k: Seq<char>| #[trigger] registry_after(docs).0.contains_key(k) <==> has_key(docs, k),
        forall|i: int|
            0 <= i < docs.len() ==> #[trigger] registry_after(docs).0[docs[i].0] == (
                i as u32,
                docs[i].1,
            ),
    decreases docs.len(),
{
    if docs.len() > 0 {
        let t = docs.drop_last();
        let n = docs.len() - 1;
        assert forall|a: int, b: int| 0 <= a < b < t.len() implies t[a].0 != t[b].0 by {
            assert(t[a] == docs[a] && t[b] == docs[b]);
        }
        lemma_fresh_ids_in_order(t);
        if has_key(t, docs.last().0) {
            let j = choose|j: int| 0 <= j < t.len() && t[j].0 == docs.last().0;
            assert(docs[j].0 == docs[n].0);
        }
        assert forall|k: Seq<char>| #[trigger] registry_after(docs).0.contains_key(k) <==> has_key(
            docs,
            k,
        ) by {
            if has_key(docs, k) {
                let j = choose|j: int| 0 <= j < docs.len() && docs[j].0 == k;
                if j < n {
                    assert(t[j].0 == k);
                }
            }
            if has_key(t, k) {
                let j = choose|j: int| 0 <= j < t.len() && t[j].0 == k;
                assert(docs[j].0 == k);
            }
        }
        assert forall|i: int| 0 <= i < docs.len() implies #[trigger] registry_after(docs).0[docs[i].0]
            == (i as u32, docs[i].1) by {
            if i < n {
                assert(t[i] == docs[i]);
                assert(docs[i].0 != docs[n].0);
            }
        }
    }
}

/// Registering a path a second time changes nothing, whatever modification
/// time comes with it: the entry, modification time included, stays as the
/// first registration left it.
pub proof fn lemma_reinsert_is_no_op(
    m: Map<Seq<char>, (u32, Timestamp)>,
    next_id: nat,
    path: Seq<char>,
    first: Timestamp,
    second: Timestamp,
)
    ensures
        ({
            let once = after_insert(m, next_id, path, first);
            &&& after_insert(once.0, once.1, path, second) == once
            &&& once.0.contains_key(path)
            &&& !m.contains_key(path) ==> once.0[path].1 == first
        }),
{
}

/// After a path is removed it is no longer registered, and every other path
/// keeps its entry.
pub proof fn lemma_removed_path_unknown(m: Map<Seq<char>, (u32, Timestamp)>, path: Seq<char>)
    ensures
        !m.remove(path).contains_key(path),
        forall|q: Seq<char>|
            q != path && #[trigger] m.contains_key(q) ==> m.remove(path).contains_key(q)
                && m.remove(path)[q] == m[q],
{
}

/// The stored parts of a registry (its root directory, its `entries` and its
/// next id) always rebuild, through `from_parts`, a registry with the same
/// contents.
pub proof fn lemma_stored_parts_round_trip(c: Collection)
    requires
        c.wf(),
    ensures
        registry_valid(c.spec_entries(), c.spec_next_id()),
        map_of(c.spec_entries()) == c@,
        c.spec_next_id() <= u32::MAX,
{
}

} // verus!
