//! The dependency graph of reactive queries: which queries read which keys,
//! which subscribers watch them, and what a change to some keys affects.
//!
//! Query results themselves come from the function runtime; the graph only
//! records what they read.

use vstd::prelude::*;
use crate::assoc::{
    assoc_map, keys_unique, lemma_assoc_absent, lemma_assoc_lookup, lemma_assoc_push, lemma_assoc_same, lemma_assoc_update,
};
use crate::sql_types::copy_names;
use crate::bytes::push_slice;
use crate::text::{push_char, hex_chars, hex_of};
use vstd::string::*;
use vstd::utf8::encode_utf8;
use crate::client_tracker::{ClientId, ClientSet};
use crate::sql_plan::str_equal;
use crate::sql_types::names_view;

verus! {

/// A set of strings, each held once.
#[derive(Debug)]
pub struct StrSet {
    items: Vec<String>,
}

impl View for StrSet {
    type V = Set<Seq<char>>;

    closed spec fn view(&self) -> Set<Seq<char>> {
        names_view(self.items@).to_set()
    }
}

impl StrSet {
    pub closed spec fn wf(&self) -> bool {
        names_view(self.items@).no_duplicates()
    }

    pub fn new() -> (r: StrSet)
        ensures
            r.wf(),
            r@ == Set::<Seq<char>>::empty(),
    {
        let r = StrSet { items: Vec::new() };
        proof {
            assert(names_view(r.items@) =~= Seq::<Seq<char>>::empty());
            assert(r@ =~= Set::<Seq<char>>::empty());
        }
        r
    }

    fn position(&self, s: &str) -> (r: Option<usize>)
        ensures
            r matches Some(i) ==> i < self.items@.len() && self.items@[i as int]@ == s@,
            r is None ==> !names_view(self.items@).contains(s@),
    {
        let mut i: usize = 0;
        while i < self.items.len()
            invariant
                0 <= i <= self.items@.len(),
                forall|j: int| 0 <= j < i ==> self.items@[j]@ != s@,
            decreases self.items@.len() - i,
        {
            if str_equal(self.items[i].as_str(), s) {
                return Some(i);
            }
            i = i + 1;
        }
        proof {
            if names_view(self.items@).contains(s@) {
                let j = choose|j: int| 0 <= j < names_view(self.items@).len() && names_view(self.items@)[j] == s@;
                assert(self.items@[j]@ == s@);
            }
        }
        None
    }

    pub fn contains(&self, s: &str) -> (r: bool)
        ensures
            r == self@.contains(s@),
    {
        match self.position(s) {
            Some(i) => {
                proof {
                    assert(names_view(self.items@)[i as int] == s@);
                }
                true
            },
            None => false,
        }
    }

    pub fn insert(&mut self, s: &str)
        requires
            old(self).wf(),
        ensures
            final(self).wf(),
            final(self)@ == old(self)@.insert(s@),
    {
        match self.position(s) {
            Some(i) => {
                proof {
                    assert(names_view(self.items@)[i as int] == s@);
                    assert(old(self)@.insert(s@) =~= old(self)@);
                }
            },
            None => {
                let ghost before = names_view(self.items@);
                self.items.push(String::from_str(s));
                proof {
                    assert(names_view(self.items@) =~= before.push(s@));
                    assert(self@ =~= old(self)@.insert(s@)) by {
                        before.lemma_push_to_set_commute(s@);
                    }
                }
            },
        }
    }

    /// The members, each once.
    pub fn members(&self) -> (r: &Vec<String>)
        requires
            self.wf(),
        ensures
            names_view(r@).to_set() == self@,
            names_view(r@).no_duplicates(),
    {
        &self.items
    }

    /// The members, each once, handed out.
    pub fn members_vec(self) -> (r: Vec<String>)
        requires
            self.wf(),
        ensures
            names_view(r@).to_set() == self@,
            names_view(r@).no_duplicates(),
    {
        self.items
    }
}

/// A key of the graph as mathematical values: the queries that read it,
/// the subscribers that watch it, and the version it was last read at.
pub ghost struct NodeView {
    pub queries: Set<Seq<char>>,
    pub subscribers: Set<ClientId>,
    pub last_version: u64,
}

/// A key of the graph.
#[derive(Debug)]
pub struct DependencyNode {
    pub queries: StrSet,
    pub subscribers: ClientSet,
    pub last_version: u64,
}

impl View for DependencyNode {
    type V = NodeView;

    open spec fn view(&self) -> NodeView {
        NodeView { queries: self.queries@, subscribers: self.subscribers@, last_version: self.last_version }
    }
}

impl DependencyNode {
    pub open spec fn wf(&self) -> bool {
        self.queries.wf() && self.subscribers.wf()
    }
}

pub open spec fn empty_node() -> NodeView {
    NodeView { queries: Set::empty(), subscribers: Set::empty(), last_version: 0 }
}

/// The node of `k`; an empty one where the graph has none.
pub open spec fn node_or_empty(m: Map<Seq<char>, NodeView>, k: Seq<char>) -> NodeView {
    if m.contains_key(k) {
        m[k]
    } else {
        empty_node()
    }
}

/// The nodes after query `q` is recorded as reading each key of `keys`
/// (a node is made for a key that has none).
pub open spec fn after_record(m: Map<Seq<char>, NodeView>, q: Seq<char>, keys: Set<Seq<char>>) -> Map<Seq<char>, NodeView> {
    Map::new(
        |k: Seq<char>| m.contains_key(k) || keys.contains(k),
        |k: Seq<char>| if keys.contains(k) {
            NodeView { queries: node_or_empty(m, k).queries.insert(q), ..node_or_empty(m, k) }
        } else {
            m[k]
        },
    )
}

/// The nodes after subscriber `sub` starts watching each key of `keys`
/// that has a node.
pub open spec fn after_subscribe(m: Map<Seq<char>, NodeView>, sub: ClientId, keys: Set<Seq<char>>) -> Map<Seq<char>, NodeView> {
    Map::new(
        |k: Seq<char>| m.contains_key(k),
        |k: Seq<char>| if keys.contains(k) {
            NodeView { subscribers: m[k].subscribers.insert(sub), ..m[k] }
        } else {
            m[k]
        },
    )
}

/// The nodes after each key of `keys` that has a node is stamped with `version`.
pub open spec fn after_touch(m: Map<Seq<char>, NodeView>, version: u64, keys: Set<Seq<char>>) -> Map<Seq<char>, NodeView> {
    Map::new(
        |k: Seq<char>| m.contains_key(k),
        |k: Seq<char>| if keys.contains(k) {
            NodeView { last_version: version, ..m[k] }
        } else {
            m[k]
        },
    )
}

/// The nodes after subscriber `sub` stops watching every key.
pub open spec fn after_unsubscribe(m: Map<Seq<char>, NodeView>, sub: ClientId) -> Map<Seq<char>, NodeView> {
    Map::new(|k: Seq<char>| m.contains_key(k), |k: Seq<char>| NodeView { subscribers: m[k].subscribers.remove(sub), ..m[k] })
}

/// The nodes after subscriber `sub` stops watching each key of `keys`.
pub open spec fn unsub_keys(m: Map<Seq<char>, NodeView>, sub: ClientId, keys: Set<Seq<char>>) -> Map<Seq<char>, NodeView> {
    Map::new(
        |k: Seq<char>| m.contains_key(k),
        |k: Seq<char>| if keys.contains(k) {
            NodeView { subscribers: m[k].subscribers.remove(sub), ..m[k] }
        } else {
            m[k]
        },
    )
}

/// The keys of the first `i` entries.
pub open spec fn keys_before(entries: Seq<(String, DependencyNode)>, i: int) -> Set<Seq<char>> {
    Set::new(|k: Seq<char>| exists|j: int| 0 <= j < i && #[trigger] entries[j].0@ == k)
}

/// The queries that read at least one key of `keys`.
pub open spec fn affected_queries(m: Map<Seq<char>, NodeView>, keys: Set<Seq<char>>) -> Set<Seq<char>> {
    Set::new(|q: Seq<char>| exists|k: Seq<char>| keys.contains(k) && m.contains_key(k) && #[trigger] m[k].queries.contains(q))
}

/// For each subscriber that watches a key of `keys`, the keys of `keys` it watches.
pub open spec fn notifications(m: Map<Seq<char>, NodeView>, keys: Set<Seq<char>>) -> Map<ClientId, Set<Seq<char>>> {
    Map::new(
        |s: ClientId| exists|k: Seq<char>| keys.contains(k) && m.contains_key(k) && #[trigger] m[k].subscribers.contains(s),
        |s: ClientId| Set::new(|k: Seq<char>| keys.contains(k) && m.contains_key(k) && m[k].subscribers.contains(s)),
    )
}

/// `n` with `key` added for each subscriber of `subs`.
pub open spec fn add_key_for(n: Map<ClientId, Set<Seq<char>>>, key: Seq<char>, subs: Set<ClientId>) -> Map<ClientId, Set<Seq<char>>> {
    Map::new(
        |s: ClientId| n.contains_key(s) || subs.contains(s),
        |s: ClientId| if subs.contains(s) {
            (if n.contains_key(s) { n[s] } else { Set::empty() }).insert(key)
        } else {
            n[s]
        },
    )
}

pub open spec fn note_key() -> spec_fn((ClientId, StrSet)) -> ClientId {
    |e: (ClientId, StrSet)| e.0
}

pub open spec fn note_val() -> spec_fn((ClientId, StrSet)) -> Set<Seq<char>> {
    |e: (ClientId, StrSet)| e.1@
}

pub open spec fn out_key() -> spec_fn((ClientId, Vec<String>)) -> ClientId {
    |e: (ClientId, Vec<String>)| e.0
}

pub open spec fn out_val() -> spec_fn((ClientId, Vec<String>)) -> Set<Seq<char>> {
    |e: (ClientId, Vec<String>)| names_view(e.1@).to_set()
}

/// Adds `key` to the keys noted for subscriber `sub`.
fn add_note(notes: &mut Vec<(ClientId, StrSet)>, sub: ClientId, key: &str)
    requires
        keys_unique(old(notes)@, note_key()),
        forall|i: int| 0 <= i < old(notes)@.len() ==> (#[trigger] old(notes)@[i]).1.wf(),
    ensures
        keys_unique(final(notes)@, note_key()),
        forall|i: int| 0 <= i < final(notes)@.len() ==> (#[trigger] final(notes)@[i]).1.wf(),
        assoc_map(final(notes)@, note_key(), note_val()) == add_key_for(
            assoc_map(old(notes)@, note_key(), note_val()),
            key@,
            set![sub],
        ),
{
    let ghost old_notes = notes@;
    let ghost n = assoc_map(old_notes, note_key(), note_val());
    let mut i: usize = 0;
    while i < notes.len()
        invariant
            0 <= i <= notes@.len(),
            notes@ == old_notes,
            old_notes == old(notes)@,
            n == assoc_map(old_notes, note_key(), note_val()),
            keys_unique(old_notes, note_key()),
            forall|j: int| 0 <= j < old_notes.len() ==> (#[trigger] old_notes[j]).1.wf(),
            forall|j: int| 0 <= j < i ==> #[trigger] note_key()(notes@[j]) != sub,
        decreases notes@.len() - i,
    {
        if notes[i].0 == sub {
            proof {
                lemma_assoc_lookup(old_notes, note_key(), note_val(), i as int);
            }
            let mut entry = (sub, StrSet::new());
            notes.set_and_swap(i, &mut entry);
            proof {
                assert(entry == old_notes[i as int]);
            }
            entry.1.insert(key);
            proof {
                lemma_assoc_update(old_notes, note_key(), note_val(), i as int, entry);
            }
            notes.set(i, entry);
            proof {
                assert(notes@ =~= old_notes.update(i as int, entry));
                assert forall|j: int| 0 <= j < notes@.len() implies (#[trigger] notes@[j]).1.wf() by {
                    if j != i {
                        assert(notes@[j] == old_notes[j]);
                    }
                }
                assert(assoc_map(notes@, note_key(), note_val()) =~= add_key_for(n, key@, set![sub]));
            }
            return;
        }
        i = i + 1;
    }
    proof {
        lemma_assoc_absent(old_notes, note_key(), note_val(), sub);
    }
    let mut keys = StrSet::new();
    keys.insert(key);
    let entry = (sub, keys);
    proof {
        lemma_assoc_push(old_notes, note_key(), note_val(), entry);
    }
    notes.push(entry);
    proof {
        assert forall|j: int| 0 <= j < notes@.len() implies (#[trigger] notes@[j]).1.wf() by {
            if j < old_notes.len() {
                assert(notes@[j] == old_notes[j]);
            }
        }
        assert(assoc_map(notes@, note_key(), note_val()) =~= add_key_for(n, key@, set![sub]));
    }
}

/// The graph as mathematical values.
pub ghost struct GraphView {
    pub dependencies: Map<Seq<char>, NodeView>,
    pub query_deps: Map<Seq<char>, Set<Seq<char>>>,
    pub version: u64,
}

pub open spec fn dep_key() -> spec_fn((String, DependencyNode)) -> Seq<char> {
    |e: (String, DependencyNode)| e.0@
}

pub open spec fn dep_val() -> spec_fn((String, DependencyNode)) -> NodeView {
    |e: (String, DependencyNode)| e.1@
}

pub open spec fn qd_key() -> spec_fn((String, StrSet)) -> Seq<char> {
    |e: (String, StrSet)| e.0@
}

pub open spec fn qd_val() -> spec_fn((String, StrSet)) -> Set<Seq<char>> {
    |e: (String, StrSet)| e.1@
}

/// Which queries read which keys, and who watches them.
#[derive(Debug)]
pub struct DependencyGraph {
    dependencies: Vec<(String, DependencyNode)>,
    query_deps: Vec<(String, StrSet)>,
    version: u64,
}

impl View for DependencyGraph {
    type V = GraphView;

    closed spec fn view(&self) -> GraphView {
        GraphView {
            dependencies: assoc_map(self.dependencies@, dep_key(), dep_val()),
            query_deps: assoc_map(self.query_deps@, qd_key(), qd_val()),
            version: self.version,
        }
    }
}

impl DependencyGraph {
    pub closed spec fn wf(&self) -> bool {
        &&& keys_unique(self.dependencies@, dep_key())
        &&& forall|i: int| 0 <= i < self.dependencies@.len() ==> (#[trigger] self.dependencies@[i]).1.wf()
        &&& keys_unique(self.query_deps@, qd_key())
    }

    pub fn new() -> (r: DependencyGraph)
        ensures
            r.wf(),
            r@.dependencies == Map::<Seq<char>, NodeView>::empty(),
            r@.query_deps == Map::<Seq<char>, Set<Seq<char>>>::empty(),
            r@.version == 0,
    {
        DependencyGraph { dependencies: Vec::new(), query_deps: Vec::new(), version: 0 }
    }

    fn find_node(&self, key: &str) -> (r: Option<usize>)
        ensures
            r matches Some(i) ==> i < self.dependencies@.len() && self.dependencies@[i as int].0@ == key@,
            r is None ==> forall|i: int| 0 <= i < self.dependencies@.len() ==> #[trigger] dep_key()(self.dependencies@[i]) != key@,
    {
        let mut i: usize = 0;
        while i < self.dependencies.len()
            invariant
                0 <= i <= self.dependencies@.len(),
                forall|j: int| 0 <= j < i ==> #[trigger] dep_key()(self.dependencies@[j]) != key@,
            decreases self.dependencies@.len() - i,
        {
            if str_equal(self.dependencies[i].0.as_str(), key) {
                return Some(i);
            }
            i = i + 1;
        }
        None
    }

    /// Takes the entry at `i` out, leaving an empty one in its place.
    fn take_entry(&mut self, i: usize) -> (r: (String, DependencyNode))
        requires
            old(self).wf(),
            i < old(self).dependencies@.len(),
        ensures
            r == old(self).dependencies@[i as int],
            r.1.wf(),
            final(self).dependencies@.len() == old(self).dependencies@.len(),
            forall|j: int| 0 <= j < old(self).dependencies@.len() && j != i ==> final(self).dependencies@[j] == old(self).dependencies@[j],
            final(self).query_deps == old(self).query_deps,
            final(self).version == old(self).version,
    {
        let mut entry = (String::new(), DependencyNode { queries: StrSet::new(), subscribers: ClientSet::new(), last_version: 0 });
        self.dependencies.set_and_swap(i, &mut entry);
        entry
    }

    /// Puts a node back at `i`, where `take_node` took one of the same key.
    proof fn lemma_put_back(&self, old_entries: Seq<(String, DependencyNode)>, i: int, node: DependencyNode)
        requires
            keys_unique(old_entries, dep_key()),
            forall|j: int| 0 <= j < old_entries.len() ==> (#[trigger] old_entries[j]).1.wf(),
            0 <= i < old_entries.len(),
            node.wf(),
            self.dependencies@ == old_entries.update(i, (old_entries[i].0, node)),
            keys_unique(self.query_deps@, qd_key()),
        ensures
            self.wf(),
            self@.dependencies == assoc_map(old_entries, dep_key(), dep_val()).insert(old_entries[i].0@, node@),
    {
        lemma_assoc_update(old_entries, dep_key(), dep_val(), i, (old_entries[i].0, node));
        assert forall|j: int| 0 <= j < self.dependencies@.len() implies (#[trigger] self.dependencies@[j]).1.wf() by {
            if j != i {
                assert(self.dependencies@[j] == old_entries[j]);
            }
        }
    }

    /// Records that query `q` reads `key`.
    fn record_one(&mut self, q: &str, key: &str)
        requires
            old(self).wf(),
        ensures
            final(self).wf(),
            final(self)@.dependencies == after_record(old(self)@.dependencies, q@, set![key@]),
            final(self)@.query_deps == old(self)@.query_deps,
            final(self)@.version == old(self)@.version,
    {
        let ghost old_entries = self.dependencies@;
        let ghost m = self@.dependencies;
        match self.find_node(key) {
            Some(i) => {
                proof {
                    lemma_assoc_lookup(old_entries, dep_key(), dep_val(), i as int);
                }
                let (name, mut node) = self.take_entry(i);
                node.queries.insert(q);
                let ghost nv = node@;
                self.dependencies.set(i, (name, node));
                proof {
                    assert(self.dependencies@ =~= old_entries.update(i as int, (old_entries[i as int].0, node)));
                    self.lemma_put_back(old_entries, i as int, node);
                    assert(self@.dependencies =~= after_record(m, q@, set![key@]));
                }
            },
            None => {
                proof {
                    lemma_assoc_absent(old_entries, dep_key(), dep_val(), key@);
                }
                let mut queries = StrSet::new();
                queries.insert(q);
                let node = DependencyNode { queries, subscribers: ClientSet::new(), last_version: 0 };
                let entry = (String::from_str(key), node);
                proof {
                    lemma_assoc_push(old_entries, dep_key(), dep_val(), entry);
                }
                self.dependencies.push(entry);
                proof {
                    assert forall|j: int| 0 <= j < self.dependencies@.len() implies (#[trigger] self.dependencies@[j]).1.wf() by {
                        if j < old_entries.len() {
                            assert(self.dependencies@[j] == old_entries[j]);
                        }
                    }
                    assert(self@.dependencies =~= after_record(m, q@, set![key@]));
                }
            },
        }
    }

    fn find_query(&self, q: &str) -> (r: Option<usize>)
        ensures
            r matches Some(i) ==> i < self.query_deps@.len() && self.query_deps@[i as int].0@ == q@,
            r is None ==> forall|i: int| 0 <= i < self.query_deps@.len() ==> #[trigger] qd_key()(self.query_deps@[i]) != q@,
    {
        let mut i: usize = 0;
        while i < self.query_deps.len()
            invariant
                0 <= i <= self.query_deps@.len(),
                forall|j: int| 0 <= j < i ==> #[trigger] qd_key()(self.query_deps@[j]) != q@,
            decreases self.query_deps@.len() - i,
        {
            if str_equal(self.query_deps[i].0.as_str(), q) {
                return Some(i);
            }
            i = i + 1;
        }
        None
    }

    /// Sets the keys query `q` reads.
    fn put_query_deps(&mut self, q: &str, keys: StrSet)
        requires
            old(self).wf(),
        ensures
            final(self).wf(),
            final(self)@.query_deps == old(self)@.query_deps.insert(q@, keys@),
            final(self)@.dependencies == old(self)@.dependencies,
            final(self)@.version == old(self)@.version,
    {
        let ghost old_entries = self.query_deps@;
        let entry = (String::from_str(q), keys);
        match self.find_query(q) {
            Some(i) => {
                proof {
                    lemma_assoc_update(old_entries, qd_key(), qd_val(), i as int, entry);
                }
                self.query_deps.set(i, entry);
            },
            None => {
                proof {
                    lemma_assoc_push(old_entries, qd_key(), qd_val(), entry);
                }
                self.query_deps.push(entry);
            },
        }
    }

    /// Records the keys query `query_id` read: they replace what it read
    /// before, and each key lists the query among its readers.
    pub fn record_dependencies(&mut self, query_id: &str, keys_read: &[String])
        requires
            old(self).wf(),
        ensures
            final(self).wf(),
            final(self)@.dependencies == after_record(old(self)@.dependencies, query_id@, names_view(keys_read@).to_set()),
            final(self)@.query_deps == old(self)@.query_deps.insert(query_id@, names_view(keys_read@).to_set()),
            final(self)@.version == old(self)@.version,
    {
        let ghost kv = names_view(keys_read@);
        let mut set = StrSet::new();
        let mut i: usize = 0;
        proof {
            assert(kv.subrange(0, 0).to_set() =~= Set::<Seq<char>>::empty());
        }
        while i < keys_read.len()
            invariant
                0 <= i <= keys_read@.len(),
                kv == names_view(keys_read@),
                set.wf(),
                set@ == kv.subrange(0, i as int).to_set(),
            decreases keys_read@.len() - i,
        {
            set.insert(keys_read[i].as_str());
            proof {
                assert(kv.subrange(0, i + 1) =~= kv.subrange(0, i as int).push(kv[i as int]));
                kv.subrange(0, i as int).lemma_push_to_set_commute(kv[i as int]);
            }
            i = i + 1;
        }
        proof {
            assert(kv.subrange(0, kv.len() as int) =~= kv);
        }
        self.put_query_deps(query_id, set);
        let ghost m = self@.dependencies;
        let ghost qd = self@.query_deps;
        let mut j: usize = 0;
        proof {
            assert(after_record(m, query_id@, Set::empty()) =~= m);
        }
        while j < keys_read.len()
            invariant
                0 <= j <= keys_read@.len(),
                kv == names_view(keys_read@),
                self.wf(),
                self@.dependencies == after_record(m, query_id@, kv.subrange(0, j as int).to_set()),
                self@.query_deps == qd,
                self@.version == old(self)@.version,
            decreases keys_read@.len() - j,
        {
            self.record_one(query_id, keys_read[j].as_str());
            proof {
                assert(kv.subrange(0, j + 1) =~= kv.subrange(0, j as int).push(kv[j as int]));
                kv.subrange(0, j as int).lemma_push_to_set_commute(kv[j as int]);
                lemma_record_step(m, query_id@, kv.subrange(0, j as int).to_set(), kv[j as int]);
            }
            j = j + 1;
        }
    }

    /// Adds subscriber `sub` to the watchers of `key`, where `key` has a node.
    fn subscribe_one(&mut self, sub: ClientId, key: &str)
        requires
            old(self).wf(),
        ensures
            final(self).wf(),
            final(self)@.dependencies == after_subscribe(old(self)@.dependencies, sub, set![key@]),
            final(self)@.query_deps == old(self)@.query_deps,
            final(self)@.version == old(self)@.version,
    {
        let ghost old_entries = self.dependencies@;
        let ghost m = self@.dependencies;
        match self.find_node(key) {
            Some(i) => {
                proof {
                    lemma_assoc_lookup(old_entries, dep_key(), dep_val(), i as int);
                }
                let (name, mut node) = self.take_entry(i);
                node.subscribers.insert(sub);
                self.dependencies.set(i, (name, node));
                proof {
                    assert(self.dependencies@ =~= old_entries.update(i as int, (old_entries[i as int].0, node)));
                    self.lemma_put_back(old_entries, i as int, node);
                    assert(self@.dependencies =~= after_subscribe(m, sub, set![key@]));
                }
            },
            None => {
                proof {
                    lemma_assoc_absent(old_entries, dep_key(), dep_val(), key@);
                    assert(m =~= after_subscribe(m, sub, set![key@]));
                }
            },
        }
    }

    /// Makes `subscriber_id` a watcher of each key a query read that has a
    /// node; keys without a node are passed over.
    pub fn subscribe_to_query(&mut self, subscriber_id: ClientId, keys_read: &[String])
        requires
            old(self).wf(),
        ensures
            final(self).wf(),
            final(self)@.dependencies == after_subscribe(old(self)@.dependencies, subscriber_id, names_view(keys_read@).to_set()),
            final(self)@.query_deps == old(self)@.query_deps,
            final(self)@.version == old(self)@.version,
    {
        let ghost kv = names_view(keys_read@);
        let ghost m = self@.dependencies;
        let mut j: usize = 0;
        proof {
            assert(kv.subrange(0, 0).to_set() =~= Set::<Seq<char>>::empty());
            assert(after_subscribe(m, subscriber_id, Set::empty()) =~= m);
        }
        while j < keys_read.len()
            invariant
                0 <= j <= keys_read@.len(),
                kv == names_view(keys_read@),
                self.wf(),
                self@.dependencies == after_subscribe(m, subscriber_id, kv.subrange(0, j as int).to_set()),
                self@.query_deps == old(self)@.query_deps,
                self@.version == old(self)@.version,
            decreases keys_read@.len() - j,
        {
            self.subscribe_one(subscriber_id, keys_read[j].as_str());
            proof {
                let pre = kv.subrange(0, j as int).to_set();
                assert(kv.subrange(0, j + 1) =~= kv.subrange(0, j as int).push(kv[j as int]));
                kv.subrange(0, j as int).lemma_push_to_set_commute(kv[j as int]);
                let a = after_subscribe(after_subscribe(m, subscriber_id, pre), subscriber_id, set![kv[j as int]]);
                let b = after_subscribe(m, subscriber_id, pre.insert(kv[j as int]));
                assert forall|x: Seq<char>| #[trigger] a.contains_key(x) implies a[x] == b[x] by {
                    if x == kv[j as int] && pre.contains(x) {
                        assert(a[x].subscribers =~= b[x].subscribers);
                    }
                }
                assert(a =~= b);
            }
            j = j + 1;
        }
        proof {
            assert(kv.subrange(0, kv.len() as int) =~= kv);
        }
    }

    /// Stamps `key`'s node, where it has one, with `version`.
    fn touch_one(&mut self, version: u64, key: &str)
        requires
            old(self).wf(),
        ensures
            final(self).wf(),
            final(self)@.dependencies == after_touch(old(self)@.dependencies, version, set![key@]),
            final(self)@.query_deps == old(self)@.query_deps,
            final(self)@.version == old(self)@.version,
    {
        let ghost old_entries = self.dependencies@;
        let ghost m = self@.dependencies;
        match self.find_node(key) {
            Some(i) => {
                proof {
                    lemma_assoc_lookup(old_entries, dep_key(), dep_val(), i as int);
                }
                let (name, mut node) = self.take_entry(i);
                node.last_version = version;
                self.dependencies.set(i, (name, node));
                proof {
                    assert(self.dependencies@ =~= old_entries.update(i as int, (old_entries[i as int].0, node)));
                    self.lemma_put_back(old_entries, i as int, node);
                    assert(self@.dependencies =~= after_touch(m, version, set![key@]));
                }
            },
            None => {
                proof {
                    lemma_assoc_absent(old_entries, dep_key(), dep_val(), key@);
                    assert(m =~= after_touch(m, version, set![key@]));
                }
            },
        }
    }

    /// Counts one more query evaluation and stamps each key it read that
    /// has a node with the new version.
    pub fn update_query_cache(&mut self, keys_read: &[String])
        requires
            old(self).wf(),
            old(self)@.version < u64::MAX,
        ensures
            final(self).wf(),
            final(self)@.version == old(self)@.version + 1,
            final(self)@.dependencies == after_touch(
                old(self)@.dependencies,
                (old(self)@.version + 1) as u64,
                names_view(keys_read@).to_set(),
            ),
            final(self)@.query_deps == old(self)@.query_deps,
    {
        self.version = self.version + 1;
        let current = self.version;
        let ghost kv = names_view(keys_read@);
        let ghost m = self@.dependencies;
        let mut j: usize = 0;
        proof {
            assert(kv.subrange(0, 0).to_set() =~= Set::<Seq<char>>::empty());
            assert(after_touch(m, current, Set::empty()) =~= m);
        }
        while j < keys_read.len()
            invariant
                0 <= j <= keys_read@.len(),
                kv == names_view(keys_read@),
                self.wf(),
                self@.dependencies == after_touch(m, current, kv.subrange(0, j as int).to_set()),
                self@.query_deps == old(self)@.query_deps,
                self@.version == current,
            decreases keys_read@.len() - j,
        {
            self.touch_one(current, keys_read[j].as_str());
            proof {
                let pre = kv.subrange(0, j as int).to_set();
                assert(kv.subrange(0, j + 1) =~= kv.subrange(0, j as int).push(kv[j as int]));
                kv.subrange(0, j as int).lemma_push_to_set_commute(kv[j as int]);
                assert(after_touch(after_touch(m, current, pre), current, set![kv[j as int]]) =~= after_touch(
                    m,
                    current,
                    pre.insert(kv[j as int]),
                ));
            }
            j = j + 1;
        }
        proof {
            assert(kv.subrange(0, kv.len() as int) =~= kv);
        }
    }

    /// Takes subscriber `subscriber_id` off every key.
    pub fn unsubscribe(&mut self, subscriber_id: ClientId)
        requires
            old(self).wf(),
        ensures
            final(self).wf(),
            final(self)@.dependencies == after_unsubscribe(old(self)@.dependencies, subscriber_id),
            final(self)@.query_deps == old(self)@.query_deps,
            final(self)@.version == old(self)@.version,
    {
        let ghost old_entries = self.dependencies@;
        let ghost m = self@.dependencies;
        let mut i: usize = 0;
        proof {
            assert(unsub_keys(m, subscriber_id, keys_before(old_entries, 0)) =~= m);
        }
        while i < self.dependencies.len()
            invariant
                0 <= i <= old_entries.len(),
                keys_unique(old_entries, dep_key()),
                forall|j: int| 0 <= j < old_entries.len() ==> (#[trigger] old_entries[j]).1.wf(),
                m == assoc_map(old_entries, dep_key(), dep_val()),
                self.wf(),
                self.dependencies@.len() == old_entries.len(),
                forall|j: int| i <= j < old_entries.len() ==> #[trigger] self.dependencies@[j] == old_entries[j],
                forall|j: int| 0 <= j < old_entries.len() ==> #[trigger] self.dependencies@[j].0 == old_entries[j].0,
                self@.dependencies == unsub_keys(m, subscriber_id, keys_before(old_entries, i as int)),
                self@.query_deps == old(self)@.query_deps,
                self@.version == old(self)@.version,
            decreases old_entries.len() - i,
        {
            let ghost cur_entries = self.dependencies@;
            let ghost cur = self@.dependencies;
            let ghost key = old_entries[i as int].0@;
            proof {
                lemma_assoc_lookup(old_entries, dep_key(), dep_val(), i as int);
                assert(!keys_before(old_entries, i as int).contains(key)) by {
                    if keys_before(old_entries, i as int).contains(key) {
                        let j = choose|j: int| 0 <= j < i && #[trigger] old_entries[j].0@ == key;
                        assert(dep_key()(old_entries[j]) != dep_key()(old_entries[i as int]));
                    }
                }
            }
            let (name, mut node) = self.take_entry(i);
            node.subscribers.remove(subscriber_id);
            self.dependencies.set(i, (name, node));
            proof {
                assert(self.dependencies@ =~= cur_entries.update(i as int, (cur_entries[i as int].0, node)));
                self.lemma_put_back(cur_entries, i as int, node);
                assert(keys_before(old_entries, i + 1) =~= keys_before(old_entries, i as int).insert(key));
                assert(self@.dependencies =~= unsub_keys(m, subscriber_id, keys_before(old_entries, i + 1)));
            }
            i = i + 1;
        }
        proof {
            assert forall|k: Seq<char>| m.contains_key(k) implies keys_before(old_entries, old_entries.len() as int).contains(k) by {
                if !exists|j: int| 0 <= j < old_entries.len() && #[trigger] old_entries[j].0@ == k {
                    assert forall|j: int| 0 <= j < old_entries.len() implies #[trigger] dep_key()(old_entries[j]) != k by {
                        assert(old_entries[j].0@ != k);
                    }
                    lemma_assoc_absent(old_entries, dep_key(), dep_val(), k);
                }
            }
            assert(self@.dependencies =~= after_unsubscribe(m, subscriber_id));
        }
    }

    /// What a change to `changed_keys` affects: the queries that read one of
    /// them, each once; and for each subscriber watching one of them, the
    /// changed keys it watches, each subscriber and key once.
    pub fn affected(&self, changed_keys: &[String]) -> (r: (Vec<String>, Vec<(ClientId, Vec<String>)>))
        requires
            self.wf(),
        ensures
            names_view(r.0@).no_duplicates(),
            names_view(r.0@).to_set() == affected_queries(self@.dependencies, names_view(changed_keys@).to_set()),
            keys_unique(r.1@, out_key()),
            forall|i: int| 0 <= i < r.1@.len() ==> names_view((#[trigger] r.1@[i]).1@).no_duplicates(),
            assoc_map(r.1@, out_key(), out_val()) == notifications(self@.dependencies, names_view(changed_keys@).to_set()),
    {
        let ghost m = self@.dependencies;
        let ghost kv = names_view(changed_keys@);
        let mut queries = StrSet::new();
        let mut notes: Vec<(ClientId, StrSet)> = Vec::new();
        let mut j: usize = 0;
        proof {
            assert(kv.subrange(0, 0).to_set() =~= Set::<Seq<char>>::empty());
            assert(affected_queries(m, Set::empty()) =~= Set::<Seq<char>>::empty());
            assert(notifications(m, Set::empty()) =~= Map::<ClientId, Set<Seq<char>>>::empty());
            assert(assoc_map(notes@, note_key(), note_val()) =~= Map::<ClientId, Set<Seq<char>>>::empty());
        }
        while j < changed_keys.len()
            invariant
                0 <= j <= changed_keys@.len(),
                self.wf(),
                m == self@.dependencies,
                kv == names_view(changed_keys@),
                queries.wf(),
                queries@ == affected_queries(m, kv.subrange(0, j as int).to_set()),
                keys_unique(notes@, note_key()),
                forall|i: int| 0 <= i < notes@.len() ==> (#[trigger] notes@[i]).1.wf(),
                assoc_map(notes@, note_key(), note_val()) == notifications(m, kv.subrange(0, j as int).to_set()),
            decreases changed_keys@.len() - j,
        {
            let key = changed_keys[j].as_str();
            let ghost pre = kv.subrange(0, j as int).to_set();
            proof {
                assert(kv.subrange(0, j + 1) =~= kv.subrange(0, j as int).push(kv[j as int]));
                kv.subrange(0, j as int).lemma_push_to_set_commute(kv[j as int]);
                lemma_affected_step(m, pre, key@);
                lemma_notifications_step(m, pre, key@);
            }
            match self.find_node(key) {
                Some(i) => {
                    proof {
                        lemma_assoc_lookup(self.dependencies@, dep_key(), dep_val(), i as int);
                    }
                    let node = &self.dependencies[i].1;
                    let qs = node.queries.members();
                    let ghost qv = names_view(qs@);
                    let ghost base_q = queries@;
                    let mut t: usize = 0;
                    proof {
                        assert(qv.subrange(0, 0).to_set() =~= Set::<Seq<char>>::empty());
                        assert(base_q.union(Set::empty()) =~= base_q);
                    }
                    while t < qs.len()
                        invariant
                            0 <= t <= qs@.len(),
                            qv == names_view(qs@),
                            queries.wf(),
                            queries@ == base_q.union(qv.subrange(0, t as int).to_set()),
                        decreases qs@.len() - t,
                    {
                        queries.insert(qs[t].as_str());
                        proof {
                            assert(qv.subrange(0, t + 1) =~= qv.subrange(0, t as int).push(qv[t as int]));
                            qv.subrange(0, t as int).lemma_push_to_set_commute(qv[t as int]);
                            assert(queries@ =~= base_q.union(qv.subrange(0, t + 1).to_set()));
                        }
                        t = t + 1;
                    }
                    proof {
                        assert(qv.subrange(0, qv.len() as int) =~= qv);
                    }
                    let subs = node.subscribers.members();
                    let ghost base_n = assoc_map(notes@, note_key(), note_val());
                    let mut t: usize = 0;
                    proof {
                        assert(subs@.subrange(0, 0).to_set() =~= Set::<ClientId>::empty());
                        assert(add_key_for(base_n, key@, Set::empty()) =~= base_n);
                    }
                    while t < subs.len()
                        invariant
                            0 <= t <= subs@.len(),
                            keys_unique(notes@, note_key()),
                            forall|x: int| 0 <= x < notes@.len() ==> (#[trigger] notes@[x]).1.wf(),
                            assoc_map(notes@, note_key(), note_val()) == add_key_for(base_n, key@, subs@.subrange(0, t as int).to_set()),
                        decreases subs@.len() - t,
                    {
                        add_note(&mut notes, subs[t], key);
                        proof {
                            assert(subs@.subrange(0, t + 1) =~= subs@.subrange(0, t as int).push(subs@[t as int]));
                            subs@.subrange(0, t as int).lemma_push_to_set_commute(subs@[t as int]);
                            lemma_add_key_step(base_n, key@, subs@.subrange(0, t as int).to_set(), subs@[t as int]);
                        }
                        t = t + 1;
                    }
                    proof {
                        assert(subs@.subrange(0, subs@.len() as int) =~= subs@);
                    }
                },
                None => {
                    proof {
                        lemma_assoc_absent(self.dependencies@, dep_key(), dep_val(), key@);
                    }
                },
            }
            j = j + 1;
        }
        proof {
            assert(kv.subrange(0, kv.len() as int) =~= kv);
        }
        let mut out: Vec<(ClientId, Vec<String>)> = Vec::new();
        let mut t: usize = 0;
        while t < notes.len()
            invariant
                0 <= t <= notes@.len(),
                out@.len() == t,
                forall|x: int| 0 <= x < notes@.len() ==> (#[trigger] notes@[x]).1.wf(),
                forall|x: int| 0 <= x < t ==> (#[trigger] out@[x]).0 == notes@[x].0
                    && names_view(out@[x].1@).to_set() == notes@[x].1@
                    && names_view(out@[x].1@).no_duplicates(),
            decreases notes@.len() - t,
        {
            let members = copy_names(notes[t].1.members());
            out.push((notes[t].0, members));
            t = t + 1;
        }
        proof {
            assert forall|x: int| 0 <= x < notes@.len() implies note_key()(#[trigger] notes@[x]) == out_key()(out@[x])
                && note_val()(notes@[x]) == out_val()(out@[x]) by {
            }
            lemma_assoc_same(notes@, note_key(), note_val(), out@, out_key(), out_val());
            assert forall|a: int, b: int| 0 <= a < b < out@.len() implies out_key()(out@[a]) != out_key()(out@[b]) by {
                assert(note_key()(notes@[a]) != note_key()(notes@[b]));
            }
        }
        (queries.members_vec(), out)
    }
}

proof fn lemma_record_step(m: Map<Seq<char>, NodeView>, q: Seq<char>, keys: Set<Seq<char>>, k: Seq<char>)
    ensures
        after_record(after_record(m, q, keys), q, set![k]) == after_record(m, q, keys.insert(k)),
{
    let a = after_record(after_record(m, q, keys), q, set![k]);
    let b = after_record(m, q, keys.insert(k));
    assert forall|x: Seq<char>| #[trigger] a.contains_key(x) implies a[x] == b[x] by {
        if x == k && keys.contains(k) {
            assert(a[x].queries =~= b[x].queries);
        }
    }
    assert(a =~= b);
}

proof fn lemma_affected_step(m: Map<Seq<char>, NodeView>, keys: Set<Seq<char>>, k: Seq<char>)
    ensures
        m.contains_key(k) ==> affected_queries(m, keys.insert(k)) == affected_queries(m, keys).union(m[k].queries),
        !m.contains_key(k) ==> affected_queries(m, keys.insert(k)) == affected_queries(m, keys),
{
    let a = affected_queries(m, keys.insert(k));
    if m.contains_key(k) {
        let b = affected_queries(m, keys).union(m[k].queries);
        assert forall|q: Seq<char>| a.contains(q) == b.contains(q) by {
            if a.contains(q) {
                let w = choose|w: Seq<char>| keys.insert(k).contains(w) && m.contains_key(w) && #[trigger] m[w].queries.contains(q);
                if w != k {
                    assert(affected_queries(m, keys).contains(q));
                }
            }
            if m[k].queries.contains(q) {
                assert(keys.insert(k).contains(k));
            }
            if affected_queries(m, keys).contains(q) {
                let w = choose|w: Seq<char>| keys.contains(w) && m.contains_key(w) && #[trigger] m[w].queries.contains(q);
                assert(keys.insert(k).contains(w));
            }
        }
        assert(a =~= b);
    } else {
        let b = affected_queries(m, keys);
        assert forall|q: Seq<char>| a.contains(q) == b.contains(q) by {
            if a.contains(q) {
                let w = choose|w: Seq<char>| keys.insert(k).contains(w) && m.contains_key(w) && #[trigger] m[w].queries.contains(q);
                assert(w != k);
                assert(b.contains(q));
            }
            if b.contains(q) {
                let w = choose|w: Seq<char>| keys.contains(w) && m.contains_key(w) && #[trigger] m[w].queries.contains(q);
                assert(keys.insert(k).contains(w));
            }
        }
        assert(a =~= b);
    }
}

proof fn lemma_notifications_step(m: Map<Seq<char>, NodeView>, keys: Set<Seq<char>>, k: Seq<char>)
    ensures
        m.contains_key(k) ==> notifications(m, keys.insert(k)) == add_key_for(notifications(m, keys), k, m[k].subscribers),
        !m.contains_key(k) ==> notifications(m, keys.insert(k)) == notifications(m, keys),
{
    let a = notifications(m, keys.insert(k));
    let n = notifications(m, keys);
    if m.contains_key(k) {
        let b = add_key_for(n, k, m[k].subscribers);
        assert forall|s: ClientId| a.contains_key(s) == b.contains_key(s) by {
            if a.contains_key(s) {
                let w = choose|w: Seq<char>| keys.insert(k).contains(w) && m.contains_key(w) && #[trigger] m[w].subscribers.contains(s);
                if w != k {
                    assert(n.contains_key(s));
                }
            }
            if n.contains_key(s) {
                let w = choose|w: Seq<char>| keys.contains(w) && m.contains_key(w) && #[trigger] m[w].subscribers.contains(s);
                assert(keys.insert(k).contains(w));
            }
            if m[k].subscribers.contains(s) {
                assert(keys.insert(k).contains(k));
            }
        }
        assert forall|s: ClientId| #[trigger] a.contains_key(s) implies a[s] == b[s] by {
            assert(a[s] =~= b[s]);
        }
        assert(a =~= b);
    } else {
        assert forall|s: ClientId| a.contains_key(s) == n.contains_key(s) by {
            if a.contains_key(s) {
                let w = choose|w: Seq<char>| keys.insert(k).contains(w) && m.contains_key(w) && #[trigger] m[w].subscribers.contains(s);
                assert(w != k);
            }
            if n.contains_key(s) {
                let w = choose|w: Seq<char>| keys.contains(w) && m.contains_key(w) && #[trigger] m[w].subscribers.contains(s);
                assert(keys.insert(k).contains(w));
            }
        }
        assert forall|s: ClientId| #[trigger] a.contains_key(s) implies a[s] == n[s] by {
            assert(a[s] =~= n[s]);
        }
        assert(a =~= n);
    }
}

proof fn lemma_add_key_step(n: Map<ClientId, Set<Seq<char>>>, k: Seq<char>, subs: Set<ClientId>, s: ClientId)
    ensures
        add_key_for(add_key_for(n, k, subs), k, set![s]) == add_key_for(n, k, subs.insert(s)),
{
    let a = add_key_for(add_key_for(n, k, subs), k, set![s]);
    let b = add_key_for(n, k, subs.insert(s));
    assert forall|x: ClientId| #[trigger] a.contains_key(x) implies a[x] == b[x] by {
        if x == s && subs.contains(s) {
            assert(a[x] =~= b[x]);
        }
    }
    assert(a =~= b);
}

/// The SHA-256 digest of a byte string.
pub uninterp spec fn sha256_of(data: Seq<u8>) -> Seq<u8>;

/// sha2's `Sha256::digest`: the 32-byte SHA-256 digest of `data`. The
/// contract names the digest by `sha256_of` and says no more of its bytes.
#[verifier::external_body]
fn sha256(data: &[u8]) -> (r: [u8; 32])
    ensures
        r@ == sha256_of(data@),
{
    <sha2::Sha256 as sha2::Digest>::digest(data).into()
}

/// The UTF-8 bytes of the texts, one after the other.
pub open spec fn concat_texts(texts: Seq<String>) -> Seq<u8>
    decreases texts.len(),
{
    if texts.len() == 0 {
        Seq::empty()
    } else {
        concat_texts(texts.drop_last()) + encode_utf8(texts.last()@)
    }
}

/// What identifies a query with its arguments: the query's name, a colon,
/// and the SHA-256 digest, in hexadecimal, of the name followed by the
/// arguments' JSON texts.
pub open spec fn query_id_spec(query_name: Seq<char>, args_json: Seq<String>) -> Seq<char> {
    query_name + seq![':'] + hex_of(sha256_of(encode_utf8(query_name) + concat_texts(args_json)))
}

/// The identifier of a query with its arguments (given as JSON texts).
pub fn query_id(query_name: &str, args_json: &[String]) -> (r: String)
    ensures
        r@ == query_id_spec(query_name@, args_json@),
{
    let mut data: Vec<u8> = Vec::new();
    push_slice(&mut data, query_name.as_bytes());
    let mut i: usize = 0;
    proof {
        assert(data@ =~= encode_utf8(query_name@) + concat_texts(args_json@.subrange(0, 0)));
    }
    while i < args_json.len()
        invariant
            0 <= i <= args_json@.len(),
            data@ == encode_utf8(query_name@) + concat_texts(args_json@.subrange(0, i as int)),
        decreases args_json@.len() - i,
    {
        push_slice(&mut data, args_json[i].as_str().as_bytes());
        proof {
            assert(args_json@.subrange(0, i + 1).drop_last() =~= args_json@.subrange(0, i as int));
        }
        i = i + 1;
    }
    proof {
        assert(args_json@.subrange(0, args_json@.len() as int) =~= args_json@);
    }
    let digest = sha256(data.as_slice());
    let table: [char; 16] = ['0', '1', '2', '3', '4', '5', '6', '7', '8', '9', 'a', 'b', 'c', 'd', 'e', 'f'];
    proof {
        assert(table@ =~= hex_chars());
    }
    let mut r = String::from_str(query_name);
    push_char(&mut r, ':');
    let ghost prefix = query_name@ + seq![':'];
    let mut k: usize = 0;
    proof {
        assert(hex_of(digest@.subrange(0, 0)) =~= Seq::<char>::empty());
        assert(r@ =~= prefix + hex_of(digest@.subrange(0, 0)));
    }
    while k < 32
        invariant
            0 <= k <= 32,
            digest@.len() == 32,
            table@ == hex_chars(),
            r@ == prefix + hex_of(digest@.subrange(0, k as int)),
        decreases 32 - k,
    {
        let b = digest[k];
        push_char(&mut r, table[(b / 16) as usize]);
        push_char(&mut r, table[(b % 16) as usize]);
        proof {
            assert(digest@.subrange(0, k + 1).drop_last() =~= digest@.subrange(0, k as int));
            assert(digest@.subrange(0, k + 1).last() == b);
            assert(r@ =~= prefix + hex_of(digest@.subrange(0, k + 1)));
        }
        k = k + 1;
    }
    proof {
        assert(digest@.subrange(0, 32) =~= digest@);
    }
    r
}

/// A query recorded as reading some key is among the queries a change to
/// that key affects.
pub proof fn lemma_recorded_query_affected(
    m: Map<Seq<char>, NodeView>,
    q: Seq<char>,
    keys: Set<Seq<char>>,
    changed: Set<Seq<char>>,
    k: Seq<char>,
)
    requires
        keys.contains(k),
        changed.contains(k),
    ensures
        affected_queries(after_record(m, q, keys), changed).contains(q),
{
    let a = after_record(m, q, keys);
    assert(a.contains_key(k));
    assert(a[k].queries.contains(q));
}

/// A subscriber that watches a key hears of a change to it, with that key
/// among those it is told of.
pub proof fn lemma_subscriber_notified(
    m: Map<Seq<char>, NodeView>,
    sub: ClientId,
    keys: Set<Seq<char>>,
    changed: Set<Seq<char>>,
    k: Seq<char>,
)
    requires
        m.contains_key(k),
        keys.contains(k),
        changed.contains(k),
    ensures
        notifications(after_subscribe(m, sub, keys), changed).contains_key(sub),
        notifications(after_subscribe(m, sub, keys), changed)[sub].contains(k),
{
    let a = after_subscribe(m, sub, keys);
    assert(a[k].subscribers.contains(sub));
}

/// After a subscriber unsubscribes, no change notifies it.
pub proof fn lemma_unsubscribed_not_notified(m: Map<Seq<char>, NodeView>, sub: ClientId, changed: Set<Seq<char>>)
    ensures
        !notifications(after_unsubscribe(m, sub), changed).contains_key(sub),
{
    let a = after_unsubscribe(m, sub);
    assert forall|k: Seq<char>| changed.contains(k) && a.contains_key(k) implies !(#[trigger] a[k].subscribers.contains(sub)) by {
        assert(a[k].subscribers == m[k].subscribers.remove(sub));
    }
}

} // verus!
