//! Connected clients, their subscriptions, and the clients of each
//! subscription.
//!
//! Clients are named by the 128-bit value of their UUID; times are
//! milliseconds of a monotonic clock that the caller reads; subscription
//! arguments are JSON texts.

use vstd::prelude::*;
use crate::assoc::{
    assoc_map, keys_unique, lemma_assoc_lookup, lemma_assoc_absent, lemma_assoc_update, lemma_assoc_push,
    lemma_assoc_remove, lemma_assoc_len,
};
use crate::sql_types::{names_view, copy_names};

verus! {

pub type ClientId = u128;

/// One subscription of a client.
#[derive(Debug, Clone)]
pub struct SubscriptionInfo {
    pub query: String,
    pub args: Vec<String>,
    pub created_at: u64,
    pub last_update_tx: Option<u64>,
}

pub ghost struct SubView {
    pub query: Seq<char>,
    pub args: Seq<Seq<char>>,
    pub created_at: u64,
    pub last_update_tx: Option<u64>,
}

impl View for SubscriptionInfo {
    type V = SubView;

    open spec fn view(&self) -> SubView {
        SubView {
            query: self.query@,
            args: names_view(self.args@),
            created_at: self.created_at,
            last_update_tx: self.last_update_tx,
        }
    }
}

impl SubscriptionInfo {
    pub fn copy(&self) -> (r: SubscriptionInfo)
        ensures
            r@ == self@,
    {
        SubscriptionInfo {
            query: self.query.clone(),
            args: copy_names(&self.args),
            created_at: self.created_at,
            last_update_tx: self.last_update_tx,
        }
    }
}

pub open spec fn sub_key() -> spec_fn((String, SubscriptionInfo)) -> Seq<char> {
    |e: (String, SubscriptionInfo)| e.0@
}

pub open spec fn sub_val() -> spec_fn((String, SubscriptionInfo)) -> SubView {
    |e: (String, SubscriptionInfo)| e.1@
}

/// A client's subscriptions by id, each id at most once.
#[derive(Debug, Clone)]
pub struct SubscriptionMap {
    entries: Vec<(String, SubscriptionInfo)>,
}

impl View for SubscriptionMap {
    type V = Map<Seq<char>, SubView>;

    closed spec fn view(&self) -> Map<Seq<char>, SubView> {
        assoc_map(self.entries@, sub_key(), sub_val())
    }
}

impl SubscriptionMap {
    pub closed spec fn wf(&self) -> bool {
        keys_unique(self.entries@, sub_key())
    }

    pub fn new() -> (r: SubscriptionMap)
        ensures
            r.wf(),
            r@ == Map::<Seq<char>, SubView>::empty(),
    {
        SubscriptionMap { entries: Vec::new() }
    }

    fn find(&self, id: &str) -> (r: Option<usize>)
        ensures
            r matches Some(i) ==> i < self.entries@.len() && self.entries@[i as int].0@ == id@,
            r is None ==> forall|i: int| 0 <= i < self.entries@.len() ==> #[trigger] sub_key()(self.entries@[i]) != id@,
    {
        let mut i: usize = 0;
        while i < self.entries.len()
            invariant
                0 <= i <= self.entries@.len(),
                forall|j: int| 0 <= j < i ==> #[trigger] sub_key()(self.entries@[j]) != id@,
            decreases self.entries@.len() - i,
        {
            if crate::sql_plan::str_equal(self.entries[i].0.as_str(), id) {
                return Some(i);
            }
            i = i + 1;
        }
        None
    }

    /// The number of subscriptions.
    pub fn len(&self) -> (r: usize)
        requires
            self.wf(),
        ensures
            r == self@.len(),
            self@.dom().finite(),
    {
        proof {
            lemma_assoc_len(self.entries@, sub_key(), sub_val());
        }
        self.entries.len()
    }

    pub fn is_empty(&self) -> (r: bool)
        requires
            self.wf(),
        ensures
            r == (self@.len() == 0),
    {
        self.len() == 0
    }

    pub fn contains_key(&self, id: &str) -> (r: bool)
        requires
            self.wf(),
        ensures
            r == self@.contains_key(id@),
    {
        match self.find(id) {
            Some(i) => {
                proof {
                    lemma_assoc_lookup(self.entries@, sub_key(), sub_val(), i as int);
                }
                true
            },
            None => {
                proof {
                    lemma_assoc_absent(self.entries@, sub_key(), sub_val(), id@);
                }
                false
            },
        }
    }

    pub fn get(&self, id: &str) -> (r: Option<&SubscriptionInfo>)
        requires
            self.wf(),
        ensures
            r matches Some(s) ==> self@.contains_key(id@) && s@ == self@[id@],
            r is None ==> !self@.contains_key(id@),
    {
        match self.find(id) {
            Some(i) => {
                proof {
                    lemma_assoc_lookup(self.entries@, sub_key(), sub_val(), i as int);
                }
                Some(&self.entries[i].1)
            },
            None => {
                proof {
                    lemma_assoc_absent(self.entries@, sub_key(), sub_val(), id@);
                }
                None
            },
        }
    }

    /// Sets a subscription, replacing one of the same id.
    pub fn insert(&mut self, id: String, info: SubscriptionInfo)
        requires
            old(self).wf(),
        ensures
            final(self).wf(),
            final(self)@ == old(self)@.insert(id@, info@),
    {
        let ghost old_entries = self.entries@;
        match self.find(id.as_str()) {
            Some(i) => {
                proof {
                    lemma_assoc_update(old_entries, sub_key(), sub_val(), i as int, (id, info));
                }
                self.entries.set(i, (id, info));
            },
            None => {
                proof {
                    lemma_assoc_push(old_entries, sub_key(), sub_val(), (id, info));
                }
                self.entries.push((id, info));
            },
        }
    }

    /// Removes a subscription; whether there was one.
    pub fn remove(&mut self, id: &str) -> (r: bool)
        requires
            old(self).wf(),
        ensures
            final(self).wf(),
            r == old(self)@.contains_key(id@),
            final(self)@ == old(self)@.remove(id@),
    {
        let ghost old_entries = self.entries@;
        match self.find(id) {
            Some(i) => {
                proof {
                    lemma_assoc_lookup(old_entries, sub_key(), sub_val(), i as int);
                    lemma_assoc_remove(old_entries, sub_key(), sub_val(), i as int);
                }
                self.entries.remove(i);
                true
            },
            None => {
                proof {
                    lemma_assoc_absent(old_entries, sub_key(), sub_val(), id@);
                    assert(assoc_map(old_entries, sub_key(), sub_val()).remove(id@) =~= assoc_map(
                        old_entries,
                        sub_key(),
                        sub_val(),
                    ));
                }
                false
            },
        }
    }

    /// The subscription ids, each once.
    pub fn keys(&self) -> (r: Vec<String>)
        requires
            self.wf(),
        ensures
            names_view(r@).to_set() == self@.dom(),
            names_view(r@).no_duplicates(),
    {
        let mut r: Vec<String> = Vec::new();
        let mut i: usize = 0;
        while i < self.entries.len()
            invariant
                0 <= i <= self.entries@.len(),
                self.wf(),
                names_view(r@) == self.entries@.subrange(0, i as int).map_values(|e: (String, SubscriptionInfo)| e.0@),
            decreases self.entries@.len() - i,
        {
            let k = self.entries[i].0.clone();
            let ghost old_r = r@;
            r.push(k);
            i = i + 1;
            proof {
                assert(names_view(r@) =~= names_view(old_r).push(k@));
                assert(self.entries@.subrange(0, i as int).map_values(|e: (String, SubscriptionInfo)| e.0@)
                    =~= self.entries@.subrange(0, i - 1).map_values(|e: (String, SubscriptionInfo)| e.0@).push(k@));
            }
        }
        proof {
            let ks = self.entries@.map_values(|e: (String, SubscriptionInfo)| e.0@);
            assert(self.entries@.subrange(0, self.entries@.len() as int) =~= self.entries@);
            assert forall|x: Seq<char>| ks.to_set().contains(x) == self@.dom().contains(x) by {
                if ks.to_set().contains(x) {
                    let j = choose|j: int| 0 <= j < ks.len() && ks[j] == x;
                    lemma_assoc_lookup(self.entries@, sub_key(), sub_val(), j);
                }
                if self@.dom().contains(x) {
                    if !ks.contains(x) {
                        assert forall|j: int| 0 <= j < self.entries@.len() implies #[trigger] sub_key()(self.entries@[j]) != x by {
                            assert(ks[j] == self.entries@[j].0@);
                        }
                        lemma_assoc_absent(self.entries@, sub_key(), sub_val(), x);
                    }
                }
            }
            assert(ks.to_set() =~= self@.dom());
            assert forall|a: int, b: int| 0 <= a < ks.len() && 0 <= b < ks.len() && a != b implies ks[a] != ks[b] by {
                if a < b {
                    assert(sub_key()(self.entries@[a]) != sub_key()(self.entries@[b]));
                } else {
                    assert(sub_key()(self.entries@[b]) != sub_key()(self.entries@[a]));
                }
            }
        }
        r
    }
}

impl SubscriptionMap {
    /// A copy of the subscriptions.
    pub fn copy(&self) -> (r: SubscriptionMap)
        requires
            self.wf(),
        ensures
            r.wf(),
            r@ == self@,
    {
        let mut entries: Vec<(String, SubscriptionInfo)> = Vec::new();
        let mut i: usize = 0;
        while i < self.entries.len()
            invariant
                0 <= i <= self.entries@.len(),
                self.wf(),
                entries@.len() == i,
                forall|j: int| 0 <= j < i ==> #[trigger] entries@[j].0@ == self.entries@[j].0@ && entries@[j].1@
                    == self.entries@[j].1@,
            decreases self.entries@.len() - i,
        {
            let k = self.entries[i].0.clone();
            let v = self.entries[i].1.copy();
            entries.push((k, v));
            i = i + 1;
        }
        let r = SubscriptionMap { entries };
        proof {
            assert forall|a: int, b: int| 0 <= a < b < r.entries@.len() implies sub_key()(r.entries@[a]) != sub_key()(
                r.entries@[b],
            ) by {
                assert(sub_key()(self.entries@[a]) != sub_key()(self.entries@[b]));
            }
            lemma_same_assoc(r.entries@, self.entries@);
        }
        r
    }
}

proof fn lemma_same_assoc(a: Seq<(String, SubscriptionInfo)>, b: Seq<(String, SubscriptionInfo)>)
    requires
        a.len() == b.len(),
        forall|j: int| 0 <= j < a.len() ==> #[trigger] a[j].0@ == b[j].0@ && a[j].1@ == b[j].1@,
    ensures
        assoc_map(a, sub_key(), sub_val()) == assoc_map(b, sub_key(), sub_val()),
    decreases a.len(),
{
    if a.len() > 0 {
        assert forall|j: int| 0 <= j < a.drop_last().len() implies #[trigger] a.drop_last()[j].0@ == b.drop_last()[j].0@
            && a.drop_last()[j].1@ == b.drop_last()[j].1@ by {
            assert(a.drop_last()[j] == a[j]);
            assert(b.drop_last()[j] == b[j]);
        }
        lemma_same_assoc(a.drop_last(), b.drop_last());
        assert(a.last().0@ == b.last().0@ && a.last().1@ == b.last().1@);
    }
}

/// A set of clients, each once.
#[derive(Debug)]
pub struct ClientSet {
    ids: Vec<ClientId>,
}

impl View for ClientSet {
    type V = Set<ClientId>;

    closed spec fn view(&self) -> Set<ClientId> {
        self.ids@.to_set()
    }
}

impl ClientSet {
    pub closed spec fn wf(&self) -> bool {
        self.ids@.no_duplicates()
    }

    pub fn new() -> (r: ClientSet)
        ensures
            r.wf(),
            r@ == Set::<ClientId>::empty(),
    {
        let r = ClientSet { ids: Vec::new() };
        proof {
            assert(r@ =~= Set::<ClientId>::empty());
        }
        r
    }

    /// The members, each once.
    pub fn members(&self) -> (r: &Vec<ClientId>)
        requires
            self.wf(),
        ensures
            r@.to_set() == self@,
            r@.no_duplicates(),
    {
        &self.ids
    }

    pub fn singleton(id: ClientId) -> (r: ClientSet)
        ensures
            r.wf(),
            r@ == Set::<ClientId>::empty().insert(id),
    {
        let mut ids: Vec<ClientId> = Vec::new();
        ids.push(id);
        let r = ClientSet { ids };
        proof {
            assert(r.ids@ =~= seq![id]);
            assert forall|x: ClientId| r@.contains(x) == (x == id) by {
                if x == id {
                    assert(r.ids@[0] == x);
                }
            }
            assert(r@ =~= Set::<ClientId>::empty().insert(id));
        }
        r
    }

    fn position(&self, id: ClientId) -> (r: Option<usize>)
        ensures
            r matches Some(i) ==> i < self.ids@.len() && self.ids@[i as int] == id,
            r is None ==> !self.ids@.contains(id),
    {
        let mut i: usize = 0;
        while i < self.ids.len()
            invariant
                0 <= i <= self.ids@.len(),
                forall|j: int| 0 <= j < i ==> self.ids@[j] != id,
            decreases self.ids@.len() - i,
        {
            if self.ids[i] == id {
                return Some(i);
            }
            i = i + 1;
        }
        None
    }

    pub fn insert(&mut self, id: ClientId)
        requires
            old(self).wf(),
        ensures
            final(self).wf(),
            final(self)@ == old(self)@.insert(id),
    {
        match self.position(id) {
            Some(_) => {
                proof {
                    assert(old(self)@.insert(id) =~= old(self)@);
                }
            },
            None => {
                let ghost s = self.ids@;
                self.ids.push(id);
                proof {
                    assert forall|x: ClientId| self@.contains(x) == (s.contains(x) || x == id) by {
                        if self.ids@.contains(x) {
                            let j = choose|j: int| 0 <= j < self.ids@.len() && self.ids@[j] == x;
                            if j < s.len() {
                                assert(s[j] == x);
                            }
                        }
                        if s.contains(x) {
                            let j = choose|j: int| 0 <= j < s.len() && s[j] == x;
                            assert(self.ids@[j] == x);
                        }
                        if x == id {
                            assert(self.ids@[s.len() as int] == x);
                        }
                    }
                    assert(self@ =~= old(self)@.insert(id));
                }
            },
        }
    }

    pub fn remove(&mut self, id: ClientId)
        requires
            old(self).wf(),
        ensures
            final(self).wf(),
            final(self)@ == old(self)@.remove(id),
    {
        match self.position(id) {
            Some(i) => {
                let ghost s = self.ids@;
                self.ids.remove(i);
                proof {
                    assert forall|x: ClientId| self@.contains(x) == old(self)@.remove(id).contains(x) by {
                        if self.ids@.contains(x) {
                            let j = choose|j: int| 0 <= j < self.ids@.len() && self.ids@[j] == x;
                            if j < i {
                                assert(s[j] == x);
                            } else {
                                assert(s[j + 1] == x);
                                assert(s[i as int] == id);
                            }
                        }
                        if s.contains(x) && x != id {
                            let j = choose|j: int| 0 <= j < s.len() && s[j] == x;
                            if j < i {
                                assert(self.ids@[j] == x);
                            } else {
                                assert(j != i);
                                assert(self.ids@[j - 1] == x);
                            }
                        }
                    }
                    assert(self@ =~= old(self)@.remove(id));
                }
            },
            None => {
                proof {
                    assert(old(self)@.remove(id) =~= old(self)@);
                }
            },
        }
    }

    pub fn is_empty(&self) -> (r: bool)
        ensures
            r == (self@ == Set::<ClientId>::empty()),
    {
        let r = self.ids.len() == 0;
        proof {
            if !r {
                assert(self@.contains(self.ids@[0]));
            } else {
                assert(self@ =~= Set::<ClientId>::empty());
            }
        }
        r
    }
}

pub open spec fn idx_key() -> spec_fn((String, ClientSet)) -> Seq<char> {
    |e: (String, ClientSet)| e.0@
}

pub open spec fn idx_val() -> spec_fn((String, ClientSet)) -> Set<ClientId> {
    |e: (String, ClientSet)| e.1@
}

/// What removing client `id` from subscription `sub` does to the index: the
/// client leaves the subscription's set, and an emptied set is dropped.
pub open spec fn index_drop(idx: Map<Seq<char>, Set<ClientId>>, sub: Seq<char>, id: ClientId) -> Map<Seq<char>, Set<ClientId>> {
    if !idx.contains_key(sub) {
        idx
    } else if idx[sub].remove(id) == Set::<ClientId>::empty() {
        idx.remove(sub)
    } else {
        idx.insert(sub, idx[sub].remove(id))
    }
}

/// What adding client `id` to subscription `sub` does to the index.
pub open spec fn index_add(idx: Map<Seq<char>, Set<ClientId>>, sub: Seq<char>, id: ClientId) -> Map<Seq<char>, Set<ClientId>> {
    idx.insert(sub, (if idx.contains_key(sub) { idx[sub] } else { Set::empty() }).insert(id))
}

/// The clients of each subscription; no subscription has an empty set.
#[derive(Debug)]
pub struct SubscriberIndex {
    entries: Vec<(String, ClientSet)>,
}

impl View for SubscriberIndex {
    type V = Map<Seq<char>, Set<ClientId>>;

    closed spec fn view(&self) -> Map<Seq<char>, Set<ClientId>> {
        assoc_map(self.entries@, idx_key(), idx_val())
    }
}

impl SubscriberIndex {
    pub closed spec fn wf(&self) -> bool {
        &&& keys_unique(self.entries@, idx_key())
        &&& forall|i: int| 0 <= i < self.entries@.len() ==> (#[trigger] self.entries@[i]).1.wf()
            && self.entries@[i].1@ != Set::<ClientId>::empty()
    }

    pub fn new() -> (r: SubscriberIndex)
        ensures
            r.wf(),
            r@ == Map::<Seq<char>, Set<ClientId>>::empty(),
    {
        SubscriberIndex { entries: Vec::new() }
    }

    /// Every subscription in the index has at least one client.
    pub proof fn lemma_nonempty(&self, sub: Seq<char>)
        requires
            self.wf(),
            self@.contains_key(sub),
        ensures
            self@[sub] != Set::<ClientId>::empty(),
    {
        if forall|i: int| 0 <= i < self.entries@.len() ==> #[trigger] idx_key()(self.entries@[i]) != sub {
            lemma_assoc_absent(self.entries@, idx_key(), idx_val(), sub);
        }
        let i = choose|i: int| 0 <= i < self.entries@.len() && #[trigger] idx_key()(self.entries@[i]) == sub;
        lemma_assoc_lookup(self.entries@, idx_key(), idx_val(), i);
    }

    fn find(&self, sub: &str) -> (r: Option<usize>)
        ensures
            r matches Some(i) ==> i < self.entries@.len() && self.entries@[i as int].0@ == sub@,
            r is None ==> forall|i: int| 0 <= i < self.entries@.len() ==> #[trigger] idx_key()(self.entries@[i]) != sub@,
    {
        let mut i: usize = 0;
        while i < self.entries.len()
            invariant
                0 <= i <= self.entries@.len(),
                forall|j: int| 0 <= j < i ==> #[trigger] idx_key()(self.entries@[j]) != sub@,
            decreases self.entries@.len() - i,
        {
            if crate::sql_plan::str_equal(self.entries[i].0.as_str(), sub) {
                return Some(i);
            }
            i = i + 1;
        }
        None
    }

    /// The number of subscriptions with clients.
    pub fn len(&self) -> (r: usize)
        requires
            self.wf(),
        ensures
            r == self@.len(),
            self@.dom().finite(),
    {
        proof {
            lemma_assoc_len(self.entries@, idx_key(), idx_val());
        }
        self.entries.len()
    }

    /// Adds a client to a subscription.
    pub fn add(&mut self, sub: &str, id: ClientId)
        requires
            old(self).wf(),
        ensures
            final(self).wf(),
            final(self)@ == index_add(old(self)@, sub@, id),
    {
        let ghost old_entries = self.entries@;
        match self.find(sub) {
            Some(i) => {
                proof {
                    lemma_assoc_lookup(old_entries, idx_key(), idx_val(), i as int);
                }
                let mut entry = (String::new(), ClientSet { ids: Vec::new() });
                self.entries.set_and_swap(i, &mut entry);
                assert(entry.1.wf());
                entry.1.insert(id);
                proof {
                    assert(entry.1@.contains(id));
                    lemma_assoc_update(old_entries, idx_key(), idx_val(), i as int, entry);
                }
                self.entries.set(i, entry);
                proof {
                    assert forall|j: int| 0 <= j < self.entries@.len() implies (#[trigger] self.entries@[j]).1.wf()
                        && self.entries@[j].1@ != Set::<ClientId>::empty() by {
                        if j != i {
                            assert(self.entries@[j] == old_entries[j]);
                        }
                    }
                    assert(self.entries@ == old_entries.update(i as int, entry));
                    assert(idx_key()(entry) == sub@);
                    assert(old(self)@.contains_key(sub@));
                    assert(idx_val()(entry) == old(self)@[sub@].insert(id));
                    assert(self@ == index_add(old(self)@, sub@, id));
                }
            },
            None => {
                proof {
                    lemma_assoc_absent(old_entries, idx_key(), idx_val(), sub@);
                }
                let entry = (String::from_str(sub), ClientSet::singleton(id));
                proof {
                    lemma_assoc_push(old_entries, idx_key(), idx_val(), entry);
                    assert(Set::<ClientId>::empty().insert(id).contains(id));
                }
                self.entries.push(entry);
                proof {
                    assert forall|j: int| 0 <= j < self.entries@.len() implies (#[trigger] self.entries@[j]).1.wf()
                        && self.entries@[j].1@ != Set::<ClientId>::empty() by {
                        if j < old_entries.len() {
                            assert(self.entries@[j] == old_entries[j]);
                        }
                    }
                }
            },
        }
    }

    /// Takes a client out of a subscription, dropping the subscription when
    /// it has no client left.
    pub fn remove(&mut self, sub: &str, id: ClientId)
        requires
            old(self).wf(),
        ensures
            final(self).wf(),
            final(self)@ == index_drop(old(self)@, sub@, id),
    {
        let ghost old_entries = self.entries@;
        match self.find(sub) {
            Some(i) => {
                proof {
                    lemma_assoc_lookup(old_entries, idx_key(), idx_val(), i as int);
                }
                let mut entry = (String::new(), ClientSet { ids: Vec::new() });
                self.entries.set_and_swap(i, &mut entry);
                assert(entry.1.wf());
                entry.1.remove(id);
                if entry.1.is_empty() {
                    proof {
                        lemma_assoc_remove(old_entries, idx_key(), idx_val(), i as int);
                    }
                    self.entries.remove(i);
                    proof {
                        assert forall|j: int| 0 <= j < self.entries@.len() implies (#[trigger] self.entries@[j]).1.wf()
                            && self.entries@[j].1@ != Set::<ClientId>::empty() by {
                            if j < i {
                                assert(self.entries@[j] == old_entries[j]);
                            } else {
                                assert(self.entries@[j] == old_entries[j + 1]);
                            }
                        }
                        assert(old(self)@.contains_key(sub@));
                        assert(old(self)@[sub@].remove(id) == Set::<ClientId>::empty());
                        assert(self.entries@ =~= old_entries.remove(i as int));
                        assert(self@ == index_drop(old(self)@, sub@, id));
                    }
                } else {
                    proof {
                        lemma_assoc_update(old_entries, idx_key(), idx_val(), i as int, entry);
                    }
                    self.entries.set(i, entry);
                    proof {
                        assert forall|j: int| 0 <= j < self.entries@.len() implies (#[trigger] self.entries@[j]).1.wf()
                            && self.entries@[j].1@ != Set::<ClientId>::empty() by {
                            if j != i {
                                assert(self.entries@[j] == old_entries[j]);
                            }
                        }
                        assert(old(self)@.contains_key(sub@));
                        assert(idx_key()(entry) == sub@);
                        assert(idx_val()(entry) == old(self)@[sub@].remove(id));
                        assert(old(self)@[sub@].remove(id) != Set::<ClientId>::empty());
                        assert(self.entries@ =~= old_entries.update(i as int, entry));
                        assert(self@ == index_drop(old(self)@, sub@, id));
                    }
                }
            },
            None => {
                proof {
                    lemma_assoc_absent(old_entries, idx_key(), idx_val(), sub@);
                }
            },
        }
    }
}

/// A connected client.
#[derive(Debug, Clone)]
pub struct ClientState {
    pub client_id: ClientId,
    pub last_seen_tx: Option<u64>,
    pub connected_at: u64,
    pub last_heartbeat: u64,
    pub subscriptions: SubscriptionMap,
}

pub ghost struct ClientView {
    pub client_id: ClientId,
    pub last_seen_tx: Option<u64>,
    pub connected_at: u64,
    pub last_heartbeat: u64,
    pub subscriptions: Map<Seq<char>, SubView>,
}

impl View for ClientState {
    type V = ClientView;

    open spec fn view(&self) -> ClientView {
        ClientView {
            client_id: self.client_id,
            last_seen_tx: self.last_seen_tx,
            connected_at: self.connected_at,
            last_heartbeat: self.last_heartbeat,
            subscriptions: self.subscriptions@,
        }
    }
}

impl ClientState {
    pub fn copy(&self) -> (r: ClientState)
        requires
            self.subscriptions.wf(),
        ensures
            r@ == self@,
            r.subscriptions.wf(),
    {
        ClientState {
            client_id: self.client_id,
            last_seen_tx: self.last_seen_tx,
            connected_at: self.connected_at,
            last_heartbeat: self.last_heartbeat,
            subscriptions: self.subscriptions.copy(),
        }
    }
}

/// The tracker as mathematical values: clients by id, and the clients of
/// each subscription.
pub ghost struct TrackerView {
    pub clients: Map<ClientId, ClientView>,
    pub index: Map<Seq<char>, Set<ClientId>>,
}

pub open spec fn client_key() -> spec_fn(ClientState) -> ClientId {
    |c: ClientState| c.client_id
}

pub open spec fn client_val() -> spec_fn(ClientState) -> ClientView {
    |c: ClientState| c@
}

/// The index after client `id` leaves each of the subscriptions `subs`.
pub open spec fn drop_all(idx: Map<Seq<char>, Set<ClientId>>, id: ClientId, subs: Set<Seq<char>>) -> Map<Seq<char>, Set<ClientId>> {
    Map::new(
        |k: Seq<char>| idx.contains_key(k) && !(subs.contains(k) && idx[k].remove(id) == Set::<ClientId>::empty()),
        |k: Seq<char>| if subs.contains(k) { idx[k].remove(id) } else { idx[k] },
    )
}

/// What removing a client does: it is gone, and it leaves every
/// subscription it had; nothing happens to an unknown client.
pub open spec fn after_remove(v: TrackerView, id: ClientId) -> TrackerView {
    if !v.clients.contains_key(id) {
        v
    } else {
        TrackerView {
            clients: v.clients.remove(id),
            index: drop_all(v.index, id, v.clients[id].subscriptions.dom()),
        }
    }
}

pub open spec fn after_remove_all(v: TrackerView, ids: Seq<ClientId>) -> TrackerView
    decreases ids.len(),
{
    if ids.len() == 0 {
        v
    } else {
        after_remove(after_remove_all(v, ids.drop_last()), ids.last())
    }
}

/// A client whose last heartbeat is more than `timeout` before `now`.
pub open spec fn is_stale(heartbeat: u64, now: u64, timeout: u64) -> bool {
    (if now >= heartbeat { now - heartbeat } else { 0 }) > timeout
}

proof fn lemma_drop_all_step(idx: Map<Seq<char>, Set<ClientId>>, id: ClientId, subs: Set<Seq<char>>, k: Seq<char>)
    requires
        !subs.contains(k),
    ensures
        drop_all(idx, id, subs.insert(k)) == index_drop(drop_all(idx, id, subs), k, id),
{
    let a = drop_all(idx, id, subs.insert(k));
    let b = index_drop(drop_all(idx, id, subs), k, id);
    assert(a =~= b);
}

/// Removing a client forgets it, leaves every other client as it was, and
/// takes it out of the clients of each subscription it had.
pub proof fn lemma_remove_client_leaves_subscriptions(v: TrackerView, id: ClientId)
    requires
        v.clients.contains_key(id),
    ensures
        !after_remove(v, id).clients.contains_key(id),
        forall|c: ClientId| c != id && v.clients.contains_key(c) ==> after_remove(v, id).clients.contains_key(c)
            && #[trigger] after_remove(v, id).clients[c] == v.clients[c],
        forall|k: Seq<char>| v.clients[id].subscriptions.contains_key(k) && #[trigger] after_remove(v, id).index.contains_key(k)
            ==> !after_remove(v, id).index[k].contains(id),
{
}

/// Some tracked client holds subscription `k`.
pub open spec fn held(clients: Map<ClientId, ClientView>, k: Seq<char>) -> bool {
    exists|c: ClientId| #[trigger] clients.contains_key(c) && clients[c].subscriptions.contains_key(k)
}

/// The index lists, for each subscription some tracked client holds,
/// exactly the tracked clients that hold it, and nothing else.
pub open spec fn index_consistent(v: TrackerView) -> bool {
    &&& forall|k: Seq<char>| #[trigger] v.index.contains_key(k) <==> held(v.clients, k)
    &&& forall|k: Seq<char>, c: ClientId| #[trigger] v.index.contains_key(k) ==> (#[trigger] v.index[k].contains(c) <==> (
        v.clients.contains_key(c) && v.clients[c].subscriptions.contains_key(k)))
}

/// A new tracker's index is consistent.
pub proof fn lemma_new_tracker_consistent(v: TrackerView)
    requires
        v.clients == Map::<ClientId, ClientView>::empty(),
        v.index == Map::<Seq<char>, Set<ClientId>>::empty(),
    ensures
        index_consistent(v),
{
}

/// Adding a client that is not yet tracked keeps the index consistent.
pub proof fn lemma_add_client_consistent(v: TrackerView, id: ClientId, now: u64)
    requires
        index_consistent(v),
        !v.clients.contains_key(id),
    ensures
        index_consistent(TrackerView {
            clients: v.clients.insert(
                id,
                ClientView { client_id: id, last_seen_tx: None, connected_at: now, last_heartbeat: now, subscriptions: Map::empty() },
            ),
            index: v.index,
        }),
{
    let w = TrackerView {
        clients: v.clients.insert(
            id,
            ClientView { client_id: id, last_seen_tx: None, connected_at: now, last_heartbeat: now, subscriptions: Map::empty() },
        ),
        index: v.index,
    };
    assert forall|k: Seq<char>| #[trigger] w.index.contains_key(k) <==> held(w.clients, k) by {
        if held(w.clients, k) {
            let c = choose|c: ClientId| #[trigger] w.clients.contains_key(c) && w.clients[c].subscriptions.contains_key(k);
            assert(c != id);
            assert(v.clients.contains_key(c) && v.clients[c].subscriptions.contains_key(k));
        }
        if held(v.clients, k) {
            let c = choose|c: ClientId| #[trigger] v.clients.contains_key(c) && v.clients[c].subscriptions.contains_key(k);
            assert(w.clients.contains_key(c) && w.clients[c].subscriptions.contains_key(k));
        }
    }
}

/// A tracked client subscribing keeps the index consistent.
pub proof fn lemma_add_subscription_consistent(v: TrackerView, id: ClientId, k: Seq<char>, sv: SubView, now: u64)
    requires
        index_consistent(v),
        v.clients.contains_key(id),
    ensures
        index_consistent(TrackerView {
            clients: v.clients.insert(
                id,
                ClientView { last_heartbeat: now, subscriptions: v.clients[id].subscriptions.insert(k, sv), ..v.clients[id] },
            ),
            index: index_add(v.index, k, id),
        }),
{
    let w = TrackerView {
        clients: v.clients.insert(
            id,
            ClientView { last_heartbeat: now, subscriptions: v.clients[id].subscriptions.insert(k, sv), ..v.clients[id] },
        ),
        index: index_add(v.index, k, id),
    };
    assert forall|j: Seq<char>| #[trigger] w.index.contains_key(j) <==> held(w.clients, j) by {
        if j == k {
            assert(w.clients.contains_key(id) && w.clients[id].subscriptions.contains_key(k));
        } else {
            if held(w.clients, j) {
                let c = choose|c: ClientId| #[trigger] w.clients.contains_key(c) && w.clients[c].subscriptions.contains_key(j);
                assert(v.clients.contains_key(c) && v.clients[c].subscriptions.contains_key(j));
            }
            if held(v.clients, j) {
                let c = choose|c: ClientId| #[trigger] v.clients.contains_key(c) && v.clients[c].subscriptions.contains_key(j);
                assert(w.clients.contains_key(c) && w.clients[c].subscriptions.contains_key(j));
            }
        }
    }
    assert forall|j: Seq<char>, c: ClientId| #[trigger] w.index.contains_key(j) implies (#[trigger] w.index[j].contains(c) <==> (
        w.clients.contains_key(c) && w.clients[c].subscriptions.contains_key(j))) by {
        if j == k {
            if v.index.contains_key(k) {
                assert(v.index[k].contains(c) <==> (v.clients.contains_key(c) && v.clients[c].subscriptions.contains_key(k)));
            }
        } else {
            assert(v.index.contains_key(j));
            assert(v.index[j].contains(c) <==> (v.clients.contains_key(c) && v.clients[c].subscriptions.contains_key(j)));
        }
    }
}

/// Removing a client keeps the index consistent: the subscriptions left
/// (what `subscription_count` counts) are those some remaining client holds,
/// and each lists exactly the remaining clients that hold it.
pub proof fn lemma_remove_client_consistent(v: TrackerView, id: ClientId)
    requires
        index_consistent(v),
    ensures
        index_consistent(after_remove(v, id)),
        v.clients.dom().finite() ==> after_remove(v, id).clients.len() == (if v.clients.contains_key(id) {
            v.clients.len() - 1
        } else {
            v.clients.len() as int
        }),
        !after_remove(v, id).clients.contains_key(id),
        forall|k: Seq<char>| #[trigger] after_remove(v, id).index.contains_key(k) <==> held(
            v.clients.remove(id),
            k,
        ),
{
    if v.clients.contains_key(id) {
        let w = after_remove(v, id);
        let subs = v.clients[id].subscriptions.dom();
        assert(w.clients == v.clients.remove(id));
        assert forall|k: Seq<char>| #[trigger] w.index.contains_key(k) <==> held(w.clients, k) by {
            if subs.contains(k) {
                assert(v.index.contains_key(k)) by {
                    assert(v.clients.contains_key(id) && v.clients[id].subscriptions.contains_key(k));
                }
                if held(w.clients, k) {
                    let c = choose|c: ClientId| #[trigger] w.clients.contains_key(c) && w.clients[c].subscriptions.contains_key(k);
                    assert(v.index[k].contains(c));
                    assert(v.index[k].remove(id).contains(c));
                } else {
                    assert(v.index[k].remove(id) =~= Set::<ClientId>::empty()) by {
                        assert forall|c: ClientId| !v.index[k].remove(id).contains(c) by {
                            if v.index[k].contains(c) && c != id {
                                assert(w.clients.contains_key(c) && w.clients[c].subscriptions.contains_key(k));
                            }
                        }
                    }
                }
            } else {
                if held(w.clients, k) {
                    let c = choose|c: ClientId| #[trigger] w.clients.contains_key(c) && w.clients[c].subscriptions.contains_key(k);
                    assert(v.clients.contains_key(c) && v.clients[c].subscriptions.contains_key(k));
                }
                if held(v.clients, k) {
                    let c = choose|c: ClientId| #[trigger] v.clients.contains_key(c) && v.clients[c].subscriptions.contains_key(k);
                    assert(c != id);
                    assert(w.clients.contains_key(c) && w.clients[c].subscriptions.contains_key(k));
                }
            }
        }
        assert forall|k: Seq<char>, c: ClientId| #[trigger] w.index.contains_key(k) implies (#[trigger] w.index[k].contains(c) <==> (
            w.clients.contains_key(c) && w.clients[c].subscriptions.contains_key(k))) by {
            assert(v.index.contains_key(k));
            assert(v.index[k].contains(c) <==> (v.clients.contains_key(c) && v.clients[c].subscriptions.contains_key(k)));
            if !subs.contains(k) && c == id {
                assert(!v.clients[id].subscriptions.contains_key(k));
            }
        }
    } else {
        assert(v.clients.remove(id) =~= v.clients);
    }
}

/// Removing the clients of a list, one after the other, removes exactly
/// those clients.
pub proof fn lemma_remove_all_clients(v: TrackerView, ids: Seq<ClientId>)
    ensures
        after_remove_all(v, ids).clients == v.clients.remove_keys(ids.to_set()),
    decreases ids.len(),
{
    if ids.len() == 0 {
        assert(ids.to_set() =~= Set::<ClientId>::empty());
        assert(v.clients.remove_keys(Set::empty()) =~= v.clients);
    } else {
        lemma_remove_all_clients(v, ids.drop_last());
        assert(ids =~= ids.drop_last().push(ids.last()));
        ids.drop_last().lemma_push_to_set_commute(ids.last());
        let prev = after_remove_all(v, ids.drop_last());
        assert(after_remove(prev, ids.last()).clients =~= v.clients.remove_keys(ids.to_set()));
    }
}

/// After the stale clients are removed, the clients left are exactly the
/// fresh ones, each as it was.
pub proof fn lemma_cleanup_keeps_fresh(v: TrackerView, removed: Seq<ClientId>, now: u64, timeout_ms: u64)
    requires
        forall|x: ClientId| removed.contains(x) <==> (v.clients.contains_key(x)
            && is_stale(v.clients[x].last_heartbeat, now, timeout_ms)),
    ensures
        forall|x: ClientId| #[trigger] after_remove_all(v, removed).clients.contains_key(x) <==> (v.clients.contains_key(x)
            && !is_stale(v.clients[x].last_heartbeat, now, timeout_ms)),
        forall|x: ClientId| #[trigger] after_remove_all(v, removed).clients.contains_key(x)
            ==> after_remove_all(v, removed).clients[x] == v.clients[x],
{
    lemma_remove_all_clients(v, removed);
    assert forall|x: ClientId| removed.to_set().contains(x) <==> removed.contains(x) by {}
}

/// Tracks connected clients and their subscriptions.
pub struct ClientTracker {
    clients: Vec<ClientState>,
    subscription_to_clients: SubscriberIndex,
}

impl View for ClientTracker {
    type V = TrackerView;

    closed spec fn view(&self) -> TrackerView {
        TrackerView {
            clients: assoc_map(self.clients@, client_key(), client_val()),
            index: self.subscription_to_clients@,
        }
    }
}

impl ClientTracker {
    pub closed spec fn wf(&self) -> bool {
        &&& keys_unique(self.clients@, client_key())
        &&& forall|i: int| 0 <= i < self.clients@.len() ==> (#[trigger] self.clients@[i]).subscriptions.wf()
        &&& self.subscription_to_clients.wf()
    }

    pub fn new() -> (r: ClientTracker)
        ensures
            r.wf(),
            r@.clients == Map::<ClientId, ClientView>::empty(),
            r@.index == Map::<Seq<char>, Set<ClientId>>::empty(),
    {
        ClientTracker { clients: Vec::new(), subscription_to_clients: SubscriberIndex::new() }
    }

    fn find(&self, id: ClientId) -> (r: Option<usize>)
        ensures
            r matches Some(i) ==> i < self.clients@.len() && self.clients@[i as int].client_id == id,
            r is None ==> forall|i: int| 0 <= i < self.clients@.len() ==> #[trigger] client_key()(self.clients@[i]) != id,
    {
        let mut i: usize = 0;
        while i < self.clients.len()
            invariant
                0 <= i <= self.clients@.len(),
                forall|j: int| 0 <= j < i ==> #[trigger] client_key()(self.clients@[j]) != id,
            decreases self.clients@.len() - i,
        {
            if self.clients[i].client_id == id {
                return Some(i);
            }
            i = i + 1;
        }
        None
    }

    proof fn lemma_found(&self, i: int)
        requires
            self.wf(),
            0 <= i < self.clients@.len(),
        ensures
            self@.clients.contains_key(self.clients@[i].client_id),
            self@.clients[self.clients@[i].client_id] == self.clients@[i]@,
    {
        lemma_assoc_lookup(self.clients@, client_key(), client_val(), i);
    }

    /// Registers a client with no subscriptions, replacing any client of the same id.
    pub fn add_client(&mut self, client_id: ClientId, now: u64)
        requires
            old(self).wf(),
        ensures
            final(self).wf(),
            final(self)@.clients == old(self)@.clients.insert(
                client_id,
                ClientView {
                    client_id,
                    last_seen_tx: None,
                    connected_at: now,
                    last_heartbeat: now,
                    subscriptions: Map::empty(),
                },
            ),
            final(self)@.index == old(self)@.index,
    {
        let state = ClientState {
            client_id,
            last_seen_tx: None,
            connected_at: now,
            last_heartbeat: now,
            subscriptions: SubscriptionMap::new(),
        };
        let ghost old_clients = self.clients@;
        match self.find(client_id) {
            Some(i) => {
                proof {
                    lemma_assoc_update(old_clients, client_key(), client_val(), i as int, state);
                }
                self.clients.set(i, state);
                proof {
                    assert forall|j: int| 0 <= j < self.clients@.len() implies (#[trigger] self.clients@[j]).subscriptions.wf() by {
                        if j != i {
                            assert(self.clients@[j] == old_clients[j]);
                        }
                    }
                }
            },
            None => {
                proof {
                    lemma_assoc_push(old_clients, client_key(), client_val(), state);
                }
                self.clients.push(state);
                proof {
                    assert forall|j: int| 0 <= j < self.clients@.len() implies (#[trigger] self.clients@[j]).subscriptions.wf() by {
                        if j < old_clients.len() {
                            assert(self.clients@[j] == old_clients[j]);
                        }
                    }
                }
            },
        }
    }

    /// Removes a client and takes it out of every subscription it had.
    pub fn remove_client(&mut self, client_id: ClientId)
        requires
            old(self).wf(),
        ensures
            final(self).wf(),
            final(self)@ == after_remove(old(self)@, client_id),
    {
        let ghost old_clients = self.clients@;
        match self.find(client_id) {
            None => {
                proof {
                    lemma_assoc_absent(old_clients, client_key(), client_val(), client_id);
                }
            },
            Some(i) => {
                proof {
                    lemma_assoc_lookup(old_clients, client_key(), client_val(), i as int);
                    lemma_assoc_remove(old_clients, client_key(), client_val(), i as int);
                }
                let state = self.clients.remove(i);
                proof {
                    assert forall|j: int| 0 <= j < self.clients@.len() implies (#[trigger] self.clients@[j]).subscriptions.wf() by {
                        if j < i {
                            assert(self.clients@[j] == old_clients[j]);
                        } else {
                            assert(self.clients@[j] == old_clients[j + 1]);
                        }
                    }
                }
                let keys = state.subscriptions.keys();
                let ghost subs = state.subscriptions@.dom();
                let ghost kv = names_view(keys@);
                let ghost old_index = self.subscription_to_clients@;
                let mut j: usize = 0;
                proof {
                    assert(kv.subrange(0, 0).to_set() =~= Set::<Seq<char>>::empty());
                    assert(drop_all(old_index, client_id, Set::empty()) =~= old_index);
                }
                while j < keys.len()
                    invariant
                        0 <= j <= keys@.len(),
                        kv == names_view(keys@),
                        kv.no_duplicates(),
                        kv.to_set() == subs,
                        self.clients@ == old_clients.remove(i as int),
                        keys_unique(self.clients@, client_key()),
                        forall|m: int| 0 <= m < self.clients@.len() ==> (#[trigger] self.clients@[m]).subscriptions.wf(),
                        self.subscription_to_clients.wf(),
                        self.subscription_to_clients@ == drop_all(old_index, client_id, kv.subrange(0, j as int).to_set()),
                    decreases keys@.len() - j,
                {
                    proof {
                        assert(!kv.subrange(0, j as int).to_set().contains(kv[j as int]));
                        lemma_drop_all_step(old_index, client_id, kv.subrange(0, j as int).to_set(), kv[j as int]);
                        assert(kv.subrange(0, j + 1) =~= kv.subrange(0, j as int) + seq![kv[j as int]]);
                        Seq::lemma_to_set_insert_commutes(kv.subrange(0, j as int), kv[j as int]);
                    }
                    self.subscription_to_clients.remove(keys[j].as_str(), client_id);
                    j = j + 1;
                }
                proof {
                    assert(kv.subrange(0, kv.len() as int) =~= kv);
                    assert(old_clients[i as int] == state);
                }
            },
        }
    }

    /// Records the last transaction a client has seen, and its heartbeat.
    pub fn update_last_seen_tx(&mut self, client_id: ClientId, last_seen_tx: Option<u64>, now: u64)
        requires
            old(self).wf(),
        ensures
            final(self).wf(),
            final(self)@.index == old(self)@.index,
            old(self)@.clients.contains_key(client_id) ==> final(self)@.clients == old(self)@.clients.insert(
                client_id,
                ClientView { last_seen_tx, last_heartbeat: now, ..old(self)@.clients[client_id] },
            ),
            !old(self)@.clients.contains_key(client_id) ==> final(self)@.clients == old(self)@.clients,
    {
        let ghost old_clients = self.clients@;
        match self.find(client_id) {
            None => {
                proof {
                    lemma_assoc_absent(old_clients, client_key(), client_val(), client_id);
                }
            },
            Some(i) => {
                proof {
                    lemma_assoc_lookup(old_clients, client_key(), client_val(), i as int);
                }
                let mut state = ClientState {
                    client_id,
                    last_seen_tx: None,
                    connected_at: 0,
                    last_heartbeat: 0,
                    subscriptions: SubscriptionMap::new(),
                };
                self.clients.set_and_swap(i, &mut state);
                state.last_seen_tx = last_seen_tx;
                state.last_heartbeat = now;
                proof {
                    lemma_assoc_update(old_clients, client_key(), client_val(), i as int, state);
                }
                self.clients.set(i, state);
                proof {
                    assert(self.clients@ =~= old_clients.update(i as int, state));
                    assert forall|j: int| 0 <= j < self.clients@.len() implies (#[trigger] self.clients@[j]).subscriptions.wf() by {
                        if j != i {
                            assert(self.clients@[j] == old_clients[j]);
                        }
                    }
                }
            },
        }
    }
}

impl ClientTracker {
    /// Records a subscription of a client (where the client is known) and
    /// adds the client to the subscription's clients (in any case).
    pub fn add_subscription(&mut self, client_id: ClientId, subscription_id: &str, query: &str, args: Vec<String>, now: u64)
        requires
            old(self).wf(),
        ensures
            final(self).wf(),
            final(self)@.index == index_add(old(self)@.index, subscription_id@, client_id),
            old(self)@.clients.contains_key(client_id) ==> final(self)@.clients == old(self)@.clients.insert(
                client_id,
                ClientView {
                    last_heartbeat: now,
                    subscriptions: old(self)@.clients[client_id].subscriptions.insert(
                        subscription_id@,
                        SubView { query: query@, args: names_view(args@), created_at: now, last_update_tx: None },
                    ),
                    ..old(self)@.clients[client_id]
                },
            ),
            !old(self)@.clients.contains_key(client_id) ==> final(self)@.clients == old(self)@.clients,
    {
        let ghost old_clients = self.clients@;
        match self.find(client_id) {
            None => {
                proof {
                    lemma_assoc_absent(old_clients, client_key(), client_val(), client_id);
                }
            },
            Some(i) => {
                proof {
                    lemma_assoc_lookup(old_clients, client_key(), client_val(), i as int);
                }
                let mut state = ClientState {
                    client_id,
                    last_seen_tx: None,
                    connected_at: 0,
                    last_heartbeat: 0,
                    subscriptions: SubscriptionMap::new(),
                };
                self.clients.set_and_swap(i, &mut state);
                assert(state.subscriptions.wf());
                let info = SubscriptionInfo {
                    query: String::from_str(query),
                    args,
                    created_at: now,
                    last_update_tx: None,
                };
                state.subscriptions.insert(String::from_str(subscription_id), info);
                state.last_heartbeat = now;
                proof {
                    lemma_assoc_update(old_clients, client_key(), client_val(), i as int, state);
                }
                self.clients.set(i, state);
                proof {
                    assert(self.clients@ =~= old_clients.update(i as int, state));
                    assert forall|j: int| 0 <= j < self.clients@.len() implies (#[trigger] self.clients@[j]).subscriptions.wf() by {
                        if j != i {
                            assert(self.clients@[j] == old_clients[j]);
                        }
                    }
                }
            },
        }
        self.subscription_to_clients.add(subscription_id, client_id);
    }

    /// Drops a subscription of a client (where the client is known) and
    /// takes the client out of the subscription's clients.
    pub fn remove_subscription(&mut self, client_id: ClientId, subscription_id: &str, now: u64)
        requires
            old(self).wf(),
        ensures
            final(self).wf(),
            final(self)@.index == index_drop(old(self)@.index, subscription_id@, client_id),
            old(self)@.clients.contains_key(client_id) ==> final(self)@.clients == old(self)@.clients.insert(
                client_id,
                ClientView {
                    last_heartbeat: now,
                    subscriptions: old(self)@.clients[client_id].subscriptions.remove(subscription_id@),
                    ..old(self)@.clients[client_id]
                },
            ),
            !old(self)@.clients.contains_key(client_id) ==> final(self)@.clients == old(self)@.clients,
    {
        let ghost old_clients = self.clients@;
        match self.find(client_id) {
            None => {
                proof {
                    lemma_assoc_absent(old_clients, client_key(), client_val(), client_id);
                }
            },
            Some(i) => {
                proof {
                    lemma_assoc_lookup(old_clients, client_key(), client_val(), i as int);
                }
                let mut state = ClientState {
                    client_id,
                    last_seen_tx: None,
                    connected_at: 0,
                    last_heartbeat: 0,
                    subscriptions: SubscriptionMap::new(),
                };
                self.clients.set_and_swap(i, &mut state);
                assert(state.subscriptions.wf());
                state.subscriptions.remove(subscription_id);
                state.last_heartbeat = now;
                proof {
                    lemma_assoc_update(old_clients, client_key(), client_val(), i as int, state);
                }
                self.clients.set(i, state);
                proof {
                    assert(self.clients@ =~= old_clients.update(i as int, state));
                    assert forall|j: int| 0 <= j < self.clients@.len() implies (#[trigger] self.clients@[j]).subscriptions.wf() by {
                        if j != i {
                            assert(self.clients@[j] == old_clients[j]);
                        }
                    }
                }
            },
        }
        self.subscription_to_clients.remove(subscription_id, client_id);
    }

    /// The clients to notify of a change to `key`: every client, each once.
    pub fn get_clients_for_key(&self, key: &str) -> (r: Vec<ClientId>)
        requires
            self.wf(),
        ensures
            r@.to_set() == self@.clients.dom(),
            r@.no_duplicates(),
    {
        let mut r: Vec<ClientId> = Vec::new();
        let mut i: usize = 0;
        while i < self.clients.len()
            invariant
                0 <= i <= self.clients@.len(),
                self.wf(),
                r@ == self.clients@.subrange(0, i as int).map_values(|c: ClientState| c.client_id),
            decreases self.clients@.len() - i,
        {
            r.push(self.clients[i].client_id);
            i = i + 1;
            proof {
                assert(r@ =~= self.clients@.subrange(0, i as int).map_values(|c: ClientState| c.client_id));
            }
        }
        proof {
            let ids = self.clients@.map_values(|c: ClientState| c.client_id);
            assert(self.clients@.subrange(0, self.clients@.len() as int) =~= self.clients@);
            assert forall|x: ClientId| ids.to_set().contains(x) == self@.clients.dom().contains(x) by {
                if ids.contains(x) {
                    let j = choose|j: int| 0 <= j < ids.len() && ids[j] == x;
                    self.lemma_found(j);
                } else if self@.clients.dom().contains(x) {
                    assert forall|j: int| 0 <= j < self.clients@.len() implies #[trigger] client_key()(self.clients@[j]) != x by {
                        assert(ids[j] == self.clients@[j].client_id);
                    }
                    lemma_assoc_absent(self.clients@, client_key(), client_val(), x);
                }
            }
            assert(ids.to_set() =~= self@.clients.dom());
            assert forall|a: int, b: int| 0 <= a < ids.len() && 0 <= b < ids.len() && a != b implies ids[a] != ids[b] by {
                if a < b {
                    assert(client_key()(self.clients@[a]) != client_key()(self.clients@[b]));
                } else {
                    assert(client_key()(self.clients@[b]) != client_key()(self.clients@[a]));
                }
            }
        }
        r
    }

    /// The state of a client.
    pub fn get_client(&self, client_id: ClientId) -> (r: Option<&ClientState>)
        requires
            self.wf(),
        ensures
            r matches Some(c) ==> self@.clients.contains_key(client_id) && c@ == self@.clients[client_id]
                && c.subscriptions.wf(),
            r is None ==> !self@.clients.contains_key(client_id),
    {
        match self.find(client_id) {
            Some(i) => {
                proof {
                    self.lemma_found(i as int);
                }
                Some(&self.clients[i])
            },
            None => {
                proof {
                    lemma_assoc_absent(self.clients@, client_key(), client_val(), client_id);
                }
                None
            },
        }
    }

    /// Copies of every client's state, each client once.
    pub fn get_all_clients(&self) -> (r: Vec<ClientState>)
        requires
            self.wf(),
        ensures
            r@.len() == self@.clients.len(),
            forall|i: int| 0 <= i < r@.len() ==> self@.clients.contains_key(#[trigger] r@[i].client_id)
                && r@[i]@ == self@.clients[r@[i].client_id],
            forall|a: int, b: int| 0 <= a < b < r@.len() ==> r@[a].client_id != r@[b].client_id,
    {
        proof {
            lemma_assoc_len(self.clients@, client_key(), client_val());
        }
        let mut r: Vec<ClientState> = Vec::new();
        let mut i: usize = 0;
        while i < self.clients.len()
            invariant
                0 <= i <= self.clients@.len(),
                self.wf(),
                r@.len() == i,
                forall|j: int| 0 <= j < i ==> (#[trigger] r@[j])@ == self.clients@[j]@,
            decreases self.clients@.len() - i,
        {
            let c = self.clients[i].copy();
            r.push(c);
            i = i + 1;
        }
        proof {
            assert forall|j: int| 0 <= j < r@.len() implies self@.clients.contains_key(#[trigger] r@[j].client_id)
                && r@[j]@ == self@.clients[r@[j].client_id] by {
                self.lemma_found(j);
            }
            assert forall|a: int, b: int| 0 <= a < b < r@.len() implies r@[a].client_id != r@[b].client_id by {
                assert(client_key()(self.clients@[a]) != client_key()(self.clients@[b]));
            }
        }
        r
    }

    /// Removes every client whose last heartbeat is more than `timeout_ms`
    /// before `now`, and returns their ids, each once.
    pub fn cleanup_stale_clients(&mut self, timeout_ms: u64, now: u64) -> (r: Vec<ClientId>)
        requires
            old(self).wf(),
        ensures
            final(self).wf(),
            r@.no_duplicates(),
            forall|x: ClientId| r@.contains(x) <==> (old(self)@.clients.contains_key(x)
                && is_stale(old(self)@.clients[x].last_heartbeat, now, timeout_ms)),
            final(self)@ == after_remove_all(old(self)@, r@),
    {
        let mut r: Vec<ClientId> = Vec::new();
        let ghost pos: Seq<int> = Seq::empty();
        let mut i: usize = 0;
        while i < self.clients.len()
            invariant
                0 <= i <= self.clients@.len(),
                self.wf(),
                r@.len() == pos.len(),
                forall|k: int| 0 <= k < pos.len() ==> 0 <= #[trigger] pos[k] < i
                    && r@[k] == self.clients@[pos[k]].client_id
                    && is_stale(self.clients@[pos[k]].last_heartbeat, now, timeout_ms),
                forall|a: int, b: int| 0 <= a < b < pos.len() ==> pos[a] < pos[b],
                forall|j: int| 0 <= j < i && is_stale(#[trigger] self.clients@[j].last_heartbeat, now, timeout_ms)
                    ==> r@.contains(self.clients@[j].client_id),
            decreases self.clients@.len() - i,
        {
            let hb = self.clients[i].last_heartbeat;
            let elapsed: u64 = if now >= hb { now - hb } else { 0 };
            if elapsed > timeout_ms {
                let ghost old_r = r@;
                r.push(self.clients[i].client_id);
                proof {
                    pos = pos.push(i as int);
                    assert(r@[r@.len() - 1] == self.clients@[i as int].client_id);
                    assert forall|j: int| 0 <= j < i && is_stale(#[trigger] self.clients@[j].last_heartbeat, now, timeout_ms)
                        implies r@.contains(self.clients@[j].client_id) by {
                        let k = choose|k: int| 0 <= k < old_r.len() && old_r[k] == self.clients@[j].client_id;
                        assert(r@[k] == old_r[k]);
                    }
                }
            }
            i = i + 1;
        }
        proof {
            assert forall|a: int, b: int| 0 <= a < b < r@.len() implies r@[a] != r@[b] by {
                assert(pos[a] < pos[b]);
                assert(client_key()(self.clients@[pos[a]]) != client_key()(self.clients@[pos[b]]));
            }
            assert forall|x: ClientId| r@.contains(x) <==> (self@.clients.contains_key(x)
                && is_stale(self@.clients[x].last_heartbeat, now, timeout_ms)) by {
                if r@.contains(x) {
                    let k = choose|k: int| 0 <= k < r@.len() && r@[k] == x;
                    assert(0 <= pos[k] < self.clients@.len());
                    self.lemma_found(pos[k]);
                } else if self@.clients.contains_key(x) {
                    if forall|j: int| 0 <= j < self.clients@.len() ==> #[trigger] client_key()(self.clients@[j]) != x {
                        lemma_assoc_absent(self.clients@, client_key(), client_val(), x);
                    }
                    let j = choose|j: int| 0 <= j < self.clients@.len() && #[trigger] client_key()(self.clients@[j]) == x;
                    self.lemma_found(j);
                    assert(!is_stale(self.clients@[j].last_heartbeat, now, timeout_ms));
                }
            }
        }
        let ghost start = self@;
        let mut j: usize = 0;
        proof {
            assert(r@.subrange(0, 0) =~= Seq::<ClientId>::empty());
        }
        while j < r.len()
            invariant
                0 <= j <= r@.len(),
                self.wf(),
                self@ == after_remove_all(start, r@.subrange(0, j as int)),
            decreases r@.len() - j,
        {
            self.remove_client(r[j]);
            proof {
                assert(r@.subrange(0, j + 1).drop_last() =~= r@.subrange(0, j as int));
            }
            j = j + 1;
        }
        proof {
            assert(r@.subrange(0, r@.len() as int) =~= r@);
        }
        r
    }

    /// The number of connected clients.
    pub fn client_count(&self) -> (r: usize)
        requires
            self.wf(),
        ensures
            r == self@.clients.len(),
    {
        proof {
            lemma_assoc_len(self.clients@, client_key(), client_val());
        }
        self.clients.len()
    }

    /// The number of subscriptions with at least one client.
    pub fn subscription_count(&self) -> (r: usize)
        requires
            self.wf(),
        ensures
            r == self@.index.len(),
    {
        self.subscription_to_clients.len()
    }
}

} // verus!
