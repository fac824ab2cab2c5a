//! Multi-version rows, their visibility to a snapshot, and the transaction manager.
//!
//! A row is a chain of versions, newest first. A version is visible to a
//! transaction when it was created no later than the transaction's snapshot
//! and was not deleted, or was deleted after the snapshot.

use vstd::prelude::*;
use vstd::string::*;
use crate::error::{DbError, Result};
use crate::tx::{TxId, tx_le, tx_lt, uuid_text, uuid_version, is_nil_bytes, lemma_same_bytes_same_id};
use crate::bytes::{copy_range, range_equals};
use crate::assoc::{assoc_map, keys_unique, lemma_assoc_lookup, lemma_assoc_absent, lemma_assoc_update, lemma_assoc_push, lemma_assoc_remove};

verus! {

#[derive(Debug, Clone, Copy, PartialEq, Eq, Structural)]
pub enum TxState {
    Active,
    Committed,
    Aborted,
}

#[derive(Debug, Clone, Copy)]
pub struct Transaction {
    pub tx_id: TxId,
    /// The transaction committed last when this one began (nil before any
    /// commit); what this one may see.
    pub snapshot_tx: TxId,
    pub state: TxState,
    pub read_only: bool,
    /// Sequential number, from 1.
    pub tx_number: u64,
}

/// One version of a row.
#[derive(Debug, Clone)]
pub struct RowVersion {
    pub created_by: TxId,
    /// The transaction that deleted this version, if any (a tombstone).
    pub deleted_by: Option<TxId>,
    pub value: Vec<u8>,
}

pub ghost struct VersionView {
    pub created_by: TxId,
    pub deleted_by: Option<TxId>,
    pub value: Seq<u8>,
}

impl View for RowVersion {
    type V = VersionView;

    open spec fn view(&self) -> VersionView {
        VersionView { created_by: self.created_by, deleted_by: self.deleted_by, value: self.value@ }
    }
}

/// The versions of one row, newest first.
pub type VersionChain = Vec<RowVersion>;

pub open spec fn chain_view(c: Seq<RowVersion>) -> Seq<VersionView> {
    c.map_values(|v: RowVersion| v@)
}

/// A version created by `created_by` and deleted by `deleted_by` is visible to `snapshot`.
pub open spec fn visible_at(created_by: TxId, deleted_by: Option<TxId>, snapshot: TxId) -> bool {
    &&& tx_le(created_by, snapshot)
    &&& match deleted_by {
        None => true,
        Some(d) => tx_lt(snapshot, d),
    }
}

/// Whether the version is visible to the transaction's snapshot.
pub fn is_visible(v: &RowVersion, tx: &Transaction) -> (r: bool)
    ensures
        r == visible_at(v.created_by, v.deleted_by, tx.snapshot_tx),
{
    v.created_by <= tx.snapshot_tx && match v.deleted_by {
        None => true,
        Some(d) => d > tx.snapshot_tx,
    }
}

/// The position of the first version visible to `snapshot`; the length when none is.
pub open spec fn first_visible(c: Seq<VersionView>, snapshot: TxId) -> int
    decreases c.len(),
{
    if c.len() == 0 {
        0
    } else if visible_at(c[0].created_by, c[0].deleted_by, snapshot) {
        0
    } else {
        1 + first_visible(c.drop_first(), snapshot)
    }
}

proof fn lemma_first_visible_bounds(c: Seq<VersionView>, snapshot: TxId)
    ensures
        0 <= first_visible(c, snapshot) <= c.len(),
    decreases c.len(),
{
    if c.len() > 0 {
        lemma_first_visible_bounds(c.drop_first(), snapshot);
    }
}

pub(crate) proof fn lemma_first_visible(c: Seq<VersionView>, snapshot: TxId, i: int)
    requires
        0 <= i <= c.len(),
        forall|j: int| 0 <= j < i ==> !visible_at(#[trigger] c[j].created_by, c[j].deleted_by, snapshot),
        i < c.len() ==> visible_at(c[i].created_by, c[i].deleted_by, snapshot),
    ensures
        first_visible(c, snapshot) == i,
    decreases i,
{
    if i > 0 {
        assert(!visible_at(c[0].created_by, c[0].deleted_by, snapshot));
        assert forall|j: int| 0 <= j < i - 1 implies !visible_at(
            #[trigger] c.drop_first()[j].created_by,
            c.drop_first()[j].deleted_by,
            snapshot,
        ) by {
            assert(c.drop_first()[j] == c[j + 1]);
            assert(!visible_at(c[j + 1].created_by, c[j + 1].deleted_by, snapshot));
        }
        lemma_first_visible(c.drop_first(), snapshot, i - 1);
    }
}

/// What a read of `key` at `snapshot` gives: the value of the newest visible
/// version, `None` where the row is missing or no version is visible.
pub open spec fn read_spec(m: Map<Seq<u8>, Seq<VersionView>>, key: Seq<u8>, snapshot: TxId) -> Option<Seq<u8>> {
    if !m.contains_key(key) {
        None
    } else {
        let c = m[key];
        let i = first_visible(c, snapshot);
        if i < c.len() {
            Some(c[i].value)
        } else {
            None
        }
    }
}

/// A row: its key and its version chain.
#[derive(Debug)]
pub struct RowEntry {
    pub key: Vec<u8>,
    pub versions: VersionChain,
}

pub open spec fn entry_key(e: RowEntry) -> Seq<u8> {
    e.key@
}

pub open spec fn row_key() -> spec_fn(RowEntry) -> Seq<u8> {
    |e: RowEntry| entry_key(e)
}

pub open spec fn row_chain() -> spec_fn(RowEntry) -> Seq<VersionView> {
    |e: RowEntry| chain_view(e.versions@)
}

/// The rows of one table, each key at most once.
#[derive(Debug)]
pub struct MvccTable {
    rows: Vec<RowEntry>,
}

impl View for MvccTable {
    type V = Map<Seq<u8>, Seq<VersionView>>;

    closed spec fn view(&self) -> Map<Seq<u8>, Seq<VersionView>> {
        assoc_map(self.rows@, row_key(), row_chain())
    }
}

/// Whether two byte strings are equal.
pub fn bytes_equal(a: &[u8], b: &[u8]) -> (r: bool)
    ensures
        r == (a@ == b@),
{
    if a.len() != b.len() {
        return false;
    }
    let r = range_equals(a, 0, b);
    proof {
        assert(a@.subrange(0, b@.len() as int) =~= a@);
    }
    r
}

/// A fresh copy of a byte string.
pub(crate) fn copy_bytes(v: &Vec<u8>) -> (r: Vec<u8>)
    ensures
        r@ == v@,
{
    let r = copy_range(v.as_slice(), 0, v.len());
    proof {
        assert(v@.subrange(0, v@.len() as int) =~= v@);
    }
    r
}

impl MvccTable {
    /// No key occurs twice.
    pub closed spec fn wf(&self) -> bool {
        keys_unique(self.rows@, row_key())
    }

    pub fn new() -> (r: MvccTable)
        ensures
            r.wf(),
            r@ == Map::<Seq<u8>, Seq<VersionView>>::empty(),
    {
        MvccTable { rows: Vec::new() }
    }

    fn find_row(&self, key: &[u8]) -> (r: Option<usize>)
        ensures
            r matches Some(i) ==> i < self.rows@.len() && self.rows@[i as int].key@ == key@,
            r is None ==> forall|i: int| 0 <= i < self.rows@.len() ==> #[trigger] entry_key(self.rows@[i]) != key@,
    {
        let mut i: usize = 0;
        while i < self.rows.len()
            invariant
                0 <= i <= self.rows@.len(),
                forall|j: int| 0 <= j < i ==> #[trigger] entry_key(self.rows@[j]) != key@,
            decreases self.rows@.len() - i,
        {
            if bytes_equal(self.rows[i].key.as_slice(), key) {
                return Some(i);
            }
            i = i + 1;
        }
        None
    }

    proof fn lemma_view_at(&self, i: int)
        requires
            self.wf(),
            0 <= i < self.rows@.len(),
        ensures
            self@.contains_key(self.rows@[i].key@),
            self@[self.rows@[i].key@] == chain_view(self.rows@[i].versions@),
    {
        lemma_assoc_lookup(self.rows@, row_key(), row_chain(), i);
    }

    proof fn lemma_view_absent(&self, key: Seq<u8>)
        requires
            forall|i: int| 0 <= i < self.rows@.len() ==> #[trigger] entry_key(self.rows@[i]) != key,
        ensures
            !self@.contains_key(key),
    {
        lemma_assoc_absent(self.rows@, row_key(), row_chain(), key);
    }

    /// The value of the newest version of `key` visible to `tx`.
    pub fn read(&self, key: &[u8], tx: &Transaction) -> (r: Option<Vec<u8>>)
        requires
            self.wf(),
        ensures
            r matches Some(v) ==> read_spec(self@, key@, tx.snapshot_tx) == Some(v@),
            r is None ==> read_spec(self@, key@, tx.snapshot_tx) is None,
    {
        let idx = match self.find_row(key) {
            Some(i) => i,
            None => {
                proof {
                    self.lemma_view_absent(key@);
                }
                return None;
            },
        };
        proof {
            self.lemma_view_at(idx as int);
        }
        let versions = &self.rows[idx].versions;
        let ghost c = chain_view(versions@);
        let mut j: usize = 0;
        while j < versions.len()
            invariant
                0 <= j <= versions@.len(),
                c == chain_view(versions@),
                self@.contains_key(key@),
                self@[key@] == c,
                forall|k: int| 0 <= k < j ==> !visible_at(#[trigger] c[k].created_by, c[k].deleted_by, tx.snapshot_tx),
            decreases versions@.len() - j,
        {
            if is_visible(&versions[j], tx) {
                proof {
                    lemma_first_visible(c, tx.snapshot_tx, j as int);
                    assert(c[j as int] == versions@[j as int]@);
                }
                return Some(copy_bytes(&versions[j].value));
            }
            j = j + 1;
        }
        proof {
            lemma_first_visible(c, tx.snapshot_tx, j as int);
        }
        None
    }

    /// Adds a version of `key` written by `tx` in front of its chain (a new row if there is none).
    pub fn insert(&mut self, key: Vec<u8>, value: Vec<u8>, tx: &Transaction)
        requires
            old(self).wf(),
        ensures
            final(self).wf(),
            final(self)@ == old(self)@.insert(
                key@,
                seq![VersionView { created_by: tx.tx_id, deleted_by: None, value: value@ }] + (if old(
                    self,
                )@.contains_key(key@) {
                    old(self)@[key@]
                } else {
                    Seq::empty()
                }),
            ),
    {
        let version = RowVersion { created_by: tx.tx_id, deleted_by: None, value };
        match self.find_row(key.as_slice()) {
            Some(i) => {
                proof {
                    self.lemma_view_at(i as int);
                }
                let ghost old_rows = self.rows@;
                let mut entry = RowEntry { key: Vec::new(), versions: Vec::new() };
                self.rows.set_and_swap(i, &mut entry);
                let ghost old_chain = entry.versions@;
                entry.versions.insert(0, version);
                proof {
                    assert(chain_view(entry.versions@) =~= seq![version@] + chain_view(old_chain));
                }
                self.rows.set(i, entry);
                proof {
                    assert(self.rows@ == old_rows.update(i as int, entry));
                    lemma_assoc_update(old_rows, row_key(), row_chain(), i as int, entry);
                }
            },
            None => {
                proof {
                    self.lemma_view_absent(key@);
                }
                let ghost old_rows = self.rows@;
                let mut versions: Vec<RowVersion> = Vec::new();
                versions.push(version);
                let entry = RowEntry { key, versions };
                proof {
                    assert(chain_view(entry.versions@) =~= seq![version@]);
                    assert(seq![version@] + Seq::<VersionView>::empty() =~= seq![version@]);
                    lemma_assoc_push(old_rows, row_key(), row_chain(), entry);
                }
                self.rows.push(entry);
            },
        }
    }

    /// Marks the newest version of `key` visible to `tx` as deleted by `tx`.
    /// A missing row, or a row with no visible version, is not found.
    pub fn delete(&mut self, key: &[u8], tx: &Transaction) -> (r: Result<()>)
        requires
            old(self).wf(),
        ensures
            final(self).wf(),
            !old(self)@.contains_key(key@) ==> (r matches Err(DbError::NotFound(m)) && m@ == "Row not found"@
                && final(self)@ == old(self)@),
            old(self)@.contains_key(key@) && first_visible(old(self)@[key@], tx.snapshot_tx) == old(
                self,
            )@[key@].len() ==> (r matches Err(DbError::NotFound(m)) && m@ == "Row not visible"@
                && final(self)@ == old(self)@),
            old(self)@.contains_key(key@) && first_visible(old(self)@[key@], tx.snapshot_tx) < old(
                self,
            )@[key@].len() ==> (r is Ok && final(self)@ == old(self)@.insert(
                key@,
                old(self)@[key@].update(
                    first_visible(old(self)@[key@], tx.snapshot_tx),
                    VersionView {
                        deleted_by: Some(tx.tx_id),
                        ..old(self)@[key@][first_visible(old(self)@[key@], tx.snapshot_tx)]
                    },
                ),
            )),
    {
        proof {
            reveal_strlit("Row not found");
            reveal_strlit("Row not visible");
        }
        let idx = match self.find_row(key) {
            Some(i) => i,
            None => {
                proof {
                    self.lemma_view_absent(key@);
                }
                return Err(DbError::NotFound(String::from_str("Row not found")));
            },
        };
        proof {
            self.lemma_view_at(idx as int);
        }
        let ghost old_rows = self.rows@;
        let ghost c = chain_view(self.rows@[idx as int].versions@);
        let mut j: usize = 0;
        while j < self.rows[idx].versions.len()
            invariant
                self.rows@ == old_rows,
                old_rows == old(self).rows@,
                old_rows[idx as int].key@ == key@,
                old(self)@.contains_key(key@),
                old(self)@[key@] == c,
                keys_unique(old_rows, row_key()),
                idx < old_rows.len(),
                c == chain_view(old_rows[idx as int].versions@),
                0 <= j <= c.len(),
                forall|k: int| 0 <= k < j ==> !visible_at(#[trigger] c[k].created_by, c[k].deleted_by, tx.snapshot_tx),
            decreases c.len() - j,
        {
            if is_visible(&self.rows[idx].versions[j], tx) {
                proof {
                    lemma_first_visible(c, tx.snapshot_tx, j as int);
                }
                let mut entry = RowEntry { key: Vec::new(), versions: Vec::new() };
                self.rows.set_and_swap(idx, &mut entry);
                let mut version = RowVersion { created_by: tx.tx_id, deleted_by: None, value: Vec::new() };
                entry.versions.set_and_swap(j, &mut version);
                version.deleted_by = Some(tx.tx_id);
                let ghost vv = version@;
                entry.versions.set(j, version);
                proof {
                    assert(chain_view(entry.versions@) =~= c.update(j as int, vv));
                }
                self.rows.set(idx, entry);
                proof {
                    assert(self.rows@ == old_rows.update(idx as int, entry));
                    lemma_assoc_update(old_rows, row_key(), row_chain(), idx as int, entry);
                }
                return Ok(());
            }
            j = j + 1;
        }
        proof {
            lemma_first_visible(c, tx.snapshot_tx, j as int);
        }
        Err(DbError::NotFound(String::from_str("Row not visible")))
    }

    /// The version chain of `key`, newest first.
    pub fn versions(&self, key: &[u8]) -> (r: Option<&VersionChain>)
        requires
            self.wf(),
        ensures
            r matches Some(c) ==> self@.contains_key(key@) && chain_view(c@) == self@[key@],
            r is None ==> !self@.contains_key(key@),
    {
        match self.find_row(key) {
            Some(i) => {
                proof {
                    self.lemma_view_at(i as int);
                }
                Some(&self.rows[i].versions)
            },
            None => {
                proof {
                    self.lemma_view_absent(key@);
                }
                None
            },
        }
    }
}

pub open spec fn tx_key() -> spec_fn(Transaction) -> Seq<u8> {
    |t: Transaction| t.tx_id.0@
}

pub open spec fn tx_entry() -> spec_fn(Transaction) -> Transaction {
    |t: Transaction| t
}

pub open spec fn commit_missing_message(id: TxId) -> Seq<char> {
    "Cannot commit transaction "@ + uuid_text(id.0@) + ": not found or not active"@
}

pub open spec fn abort_missing_message(id: TxId) -> Seq<char> {
    "Cannot abort transaction "@ + uuid_text(id.0@) + ": not found or not active"@
}

/// Hands out transaction numbers and ids, and tracks which transactions are active.
pub struct TransactionManager {
    next_tx: u64,
    /// Active transactions, each id at most once.
    active: Vec<Transaction>,
    latest_committed: u64,
    /// The id begun with each number; number 0 is the nil id.
    tx_registry: Vec<Option<TxId>>,
}

/// The state change `begin` makes, and the transaction it returns.
pub open spec fn begin_step(pre: TransactionManager, post: TransactionManager, read_only: bool, t: Transaction) -> bool {
    &&& t.tx_number == pre.next_number()
    &&& t.snapshot_tx == pre.last_committed()
    &&& t.state == TxState::Active
    &&& t.read_only == read_only
    &&& uuid_version(t.tx_id.0@) == 7
    &&& post.next_number() == pre.next_number() + 1
    &&& post.last_committed() == pre.last_committed()
    &&& post.active_map() == pre.active_map().insert(t.tx_id.0@, t)
    &&& post.committed_number() == pre.committed_number()
}

/// The state change a successful `commit` of `id` makes.
pub open spec fn commit_step(pre: TransactionManager, post: TransactionManager, id: TxId) -> bool {
    &&& pre.active_map().contains_key(id.0@)
    &&& post.active_map() == pre.active_map().remove(id.0@)
    &&& post.committed_number() == pre.active_map()[id.0@].tx_number
    &&& post.next_number() == pre.next_number()
    &&& post.last_committed() == id
}

/// The state change a successful `abort` of `id` makes.
pub open spec fn abort_step(pre: TransactionManager, post: TransactionManager, id: TxId) -> bool {
    &&& pre.active_map().contains_key(id.0@)
    &&& post.active_map() == pre.active_map().remove(id.0@)
    &&& post.committed_number() == pre.committed_number()
    &&& post.next_number() == pre.next_number()
    &&& post.last_committed() == pre.last_committed()
}

/// Nothing observable changed.
pub open spec fn unchanged(pre: TransactionManager, post: TransactionManager) -> bool {
    &&& post.active_map() == pre.active_map()
    &&& post.committed_number() == pre.committed_number()
    &&& post.next_number() == pre.next_number()
    &&& post.last_committed() == pre.last_committed()
}

impl TransactionManager {
    pub closed spec fn wf(&self) -> bool {
        &&& 1 <= self.next_tx
        &&& self.tx_registry@.len() == self.next_tx
        &&& forall|k: int| 0 <= k < self.tx_registry@.len() ==> #[trigger] self.tx_registry@[k] is Some
        &&& keys_unique(self.active@, tx_key())
        &&& forall|i: int| 0 <= i < self.active@.len() ==> #[trigger] self.active@[i].state == TxState::Active
        &&& self.latest_committed < self.next_tx
        &&& forall|i: int| 0 <= i < self.active@.len() ==> {
            &&& 1 <= #[trigger] self.active@[i].tx_number < self.next_tx
            &&& self.tx_registry@[self.active@[i].tx_number as int] == Some(self.active@[i].tx_id)
        }
    }

    /// The number the next transaction gets.
    pub closed spec fn next_number(&self) -> u64 {
        self.next_tx
    }

    /// The id of the transaction committed last; the nil id before any has committed.
    pub closed spec fn last_committed(&self) -> TxId {
        match self.tx_registry@[self.latest_committed as int] {
            Some(t) => t,
            None => arbitrary(),
        }
    }

    /// The active transactions by id.
    pub closed spec fn active_map(&self) -> Map<Seq<u8>, Transaction> {
        assoc_map(self.active@, tx_key(), tx_entry())
    }

    /// The number of the transaction committed last; 0 before any.
    pub closed spec fn committed_number(&self) -> u64 {
        self.latest_committed
    }

    pub fn new() -> (r: TransactionManager)
        ensures
            r.wf(),
            r.next_number() == 1,
            is_nil_bytes(r.last_committed().0@),
            r.active_map() == Map::<Seq<u8>, Transaction>::empty(),
            r.committed_number() == 0,
    {
        let mut tx_registry: Vec<Option<TxId>> = Vec::new();
        tx_registry.push(Some(TxId::nil()));
        TransactionManager { next_tx: 1, active: Vec::new(), latest_committed: 0, tx_registry }
    }

    fn find_active(&self, tx_id: &TxId) -> (r: Option<usize>)
        ensures
            r matches Some(i) ==> i < self.active@.len() && self.active@[i as int].tx_id.0@ == tx_id.0@,
            r is None ==> forall|i: int| 0 <= i < self.active@.len() ==> #[trigger] self.active@[i].tx_id.0@ != tx_id.0@,
    {
        let mut i: usize = 0;
        while i < self.active.len()
            invariant
                0 <= i <= self.active@.len(),
                forall|j: int| 0 <= j < i ==> #[trigger] self.active@[j].tx_id.0@ != tx_id.0@,
            decreases self.active@.len() - i,
        {
            proof {
                lemma_same_bytes_same_id(self.active@[i as int].tx_id, *tx_id);
            }
            if self.active[i].tx_id == *tx_id {
                return Some(i);
            }
            i = i + 1;
        }
        None
    }

    /// The number the next transaction will get.
    pub fn next_tx_number(&self) -> (r: u64)
        requires
            self.wf(),
        ensures
            r == self.next_number(),
    {
        self.next_tx
    }

    /// Starts a transaction: the next number, a fresh id, and as snapshot the
    /// transaction committed last (the nil id when none has committed).
    pub fn begin(&mut self, read_only: bool) -> (r: Transaction)
        requires
            old(self).wf(),
            old(self).next_number() < u64::MAX,
            old(self).next_number() < usize::MAX,
        ensures
            final(self).wf(),
            begin_step(*old(self), *final(self), read_only, r),
    {
        let tx_number = self.next_tx;
        self.next_tx = self.next_tx + 1;
        let tx_id = TxId::new();
        let n = tx_number as usize;
        let ghost old_registry = self.tx_registry@;
        if self.tx_registry.len() <= n {
            self.tx_registry.resize(n + 1, None);
            proof {
                assert forall|k: int| 0 <= k < n implies self.tx_registry@[k] == old_registry[k] by {
                    assert(self.tx_registry@.subrange(0, n as int)[k] == self.tx_registry@[k]);
                }
            }
        }
        self.tx_registry.set(n, Some(tx_id));
        proof {
            assert forall|k: int| 0 <= k < self.tx_registry@.len() implies #[trigger] self.tx_registry@[k] is Some by {
                if k < n {
                    assert(old_registry[k] is Some);
                }
            }
        }
        let snapshot = match self.tx_registry[self.latest_committed as usize] {
            Some(t) => t,
            None => TxId::nil(),
        };
        let tx = Transaction { tx_id, snapshot_tx: snapshot, state: TxState::Active, read_only, tx_number };
        let ghost old_active = self.active@;
        match self.find_active(&tx_id) {
            Some(i) => {
                proof {
                    lemma_assoc_update(old_active, tx_key(), tx_entry(), i as int, tx);
                }
                self.active.set(i, tx);
            },
            None => {
                proof {
                    lemma_assoc_push(old_active, tx_key(), tx_entry(), tx);
                }
                self.active.push(tx);
            },
        }
        proof {
            assert(self.tx_registry@[n as int] == Some(tx_id));
            assert(self.tx_registry@[self.latest_committed as int] == old(self).tx_registry@[self.latest_committed as int]);
            assert forall|i: int| 0 <= i < self.active@.len() implies #[trigger] self.active@[i].state == TxState::Active by {
                if i < old_active.len() && self.active@[i] != tx {
                    assert(self.active@[i] == old_active[i]);
                }
            }
            assert forall|i: int| 0 <= i < self.active@.len() implies {
                &&& 1 <= #[trigger] self.active@[i].tx_number < self.next_tx
                &&& self.tx_registry@[self.active@[i].tx_number as int] == Some(self.active@[i].tx_id)
            } by {
                if i < old_active.len() && self.active@[i] != tx {
                    assert(self.active@[i] == old_active[i]);
                    assert(old_active[i].tx_number < n);
                    assert(self.tx_registry@[old_active[i].tx_number as int] == old_registry[old_active[i].tx_number as int]);
                }
            }
        }
        tx
    }

    /// Ends an active transaction as committed.
    pub fn commit(&mut self, tx_id: TxId) -> (r: Result<()>)
        requires
            old(self).wf(),
        ensures
            final(self).wf(),
            r is Ok <==> old(self).active_map().contains_key(tx_id.0@),
            r is Ok ==> commit_step(*old(self), *final(self), tx_id),
            r matches Err(e) ==> (e matches DbError::InvalidTransaction(m) && m@ == commit_missing_message(tx_id)
                && unchanged(*old(self), *final(self))),
    {
        proof {
            reveal_strlit("Cannot commit transaction ");
            reveal_strlit(": not found or not active");
        }
        let i = match self.find_active(&tx_id) {
            Some(i) => i,
            None => {
                proof {
                    lemma_assoc_absent(self.active@, tx_key(), tx_entry(), tx_id.0@);
                }
                let text = tx_id.to_string();
                return Err(DbError::InvalidTransaction(
                    String::from_str("Cannot commit transaction ").concat(text.as_str()).concat(": not found or not active"),
                ));
            },
        };
        let tx = self.active[i];
        proof {
            lemma_assoc_lookup(self.active@, tx_key(), tx_entry(), i as int);
            lemma_assoc_remove(self.active@, tx_key(), tx_entry(), i as int);
        }
        if tx.state != TxState::Active {
            return Err(not_active_error(&tx_id, tx.state));
        }
        proof {
            lemma_same_bytes_same_id(tx.tx_id, tx_id);
        }
        let ghost old_active = self.active@;
        self.latest_committed = tx.tx_number;
        self.active.remove(i);
        proof {
            assert forall|j: int| 0 <= j < self.active@.len() implies {
                &&& 1 <= #[trigger] self.active@[j].tx_number < self.next_tx
                &&& self.tx_registry@[self.active@[j].tx_number as int] == Some(self.active@[j].tx_id)
            } by {
                if j < i {
                    assert(self.active@[j] == old_active[j]);
                } else {
                    assert(self.active@[j] == old_active[j + 1]);
                }
            }
        }
        Ok(())
    }

    /// Ends an active transaction as aborted.
    pub fn abort(&mut self, tx_id: TxId) -> (r: Result<()>)
        requires
            old(self).wf(),
        ensures
            final(self).wf(),
            r is Ok <==> old(self).active_map().contains_key(tx_id.0@),
            r is Ok ==> abort_step(*old(self), *final(self), tx_id),
            r matches Err(e) ==> (e matches DbError::InvalidTransaction(m) && m@ == abort_missing_message(tx_id)
                && unchanged(*old(self), *final(self))),
    {
        proof {
            reveal_strlit("Cannot abort transaction ");
            reveal_strlit(": not found or not active");
        }
        let i = match self.find_active(&tx_id) {
            Some(i) => i,
            None => {
                proof {
                    lemma_assoc_absent(self.active@, tx_key(), tx_entry(), tx_id.0@);
                }
                let text = tx_id.to_string();
                return Err(DbError::InvalidTransaction(
                    String::from_str("Cannot abort transaction ").concat(text.as_str()).concat(": not found or not active"),
                ));
            },
        };
        let tx = self.active[i];
        proof {
            lemma_assoc_lookup(self.active@, tx_key(), tx_entry(), i as int);
            lemma_assoc_remove(self.active@, tx_key(), tx_entry(), i as int);
        }
        if tx.state != TxState::Active {
            return Err(not_active_error(&tx_id, tx.state));
        }
        let ghost old_active = self.active@;
        self.active.remove(i);
        proof {
            assert forall|j: int| 0 <= j < self.active@.len() implies {
                &&& 1 <= #[trigger] self.active@[j].tx_number < self.next_tx
                &&& self.tx_registry@[self.active@[j].tx_number as int] == Some(self.active@[j].tx_id)
            } by {
                if j < i {
                    assert(self.active@[j] == old_active[j]);
                } else {
                    assert(self.active@[j] == old_active[j + 1]);
                }
            }
        }
        Ok(())
    }
}

/// The error for a transaction found in a state other than active.
fn not_active_error(tx_id: &TxId, state: TxState) -> (r: DbError)
    ensures
        r is InvalidTransaction,
{
    let name = match state {
        TxState::Active => "Active",
        TxState::Committed => "Committed",
        TxState::Aborted => "Aborted",
    };
    let text = tx_id.to_string();
    DbError::InvalidTransaction(
        String::from_str("Transaction ").concat(text.as_str()).concat(" is not active (state: ").concat(name).concat(")"),
    )
}

/// Of two transactions begun one after the other with no commit between,
/// the second has the next number and the same snapshot as the first.
pub proof fn lemma_consecutive_begins(
    m1: TransactionManager,
    m2: TransactionManager,
    m3: TransactionManager,
    r1: bool,
    r2: bool,
    t1: Transaction,
    t2: Transaction,
)
    requires
        begin_step(m1, m2, r1, t1),
        begin_step(m2, m3, r2, t2),
    ensures
        t2.tx_number == t1.tx_number + 1,
        t2.snapshot_tx == t1.snapshot_tx,
{
}

/// A transaction begun right after another one commits sees that one as its snapshot.
pub proof fn lemma_begin_after_commit(
    m1: TransactionManager,
    m2: TransactionManager,
    m3: TransactionManager,
    id: TxId,
    r: bool,
    t: Transaction,
)
    requires
        commit_step(m1, m2, id),
        begin_step(m2, m3, r, t),
    ensures
        t.snapshot_tx == id,
{
}

/// A transaction just begun is active, so committing or aborting it succeeds.
pub proof fn lemma_begun_is_active(m1: TransactionManager, m2: TransactionManager, r: bool, t: Transaction)
    requires
        begin_step(m1, m2, r, t),
    ensures
        m2.active_map().contains_key(t.tx_id.0@),
{
}

/// A transaction stays active while other transactions begin, commit or abort.
pub proof fn lemma_stays_active(m1: TransactionManager, m2: TransactionManager, id: TxId, other: TxId, r: bool, t: Transaction)
    requires
        m1.active_map().contains_key(id.0@),
        begin_step(m1, m2, r, t) || ((commit_step(m1, m2, other) || abort_step(m1, m2, other)) && other.0@ != id.0@),
    ensures
        m2.active_map().contains_key(id.0@),
{
}

/// The first transaction of a new manager sees the nil snapshot.
pub proof fn lemma_first_snapshot_nil(m1: TransactionManager, m2: TransactionManager, r: bool, t: Transaction)
    requires
        is_nil_bytes(m1.last_committed().0@),
        begin_step(m1, m2, r, t),
    ensures
        is_nil_bytes(t.snapshot_tx.0@),
{
}

/// A transaction that was committed or aborted is no longer active, so a
/// second commit or abort of it fails.
pub proof fn lemma_ended_not_active(pre: TransactionManager, post: TransactionManager, id: TxId)
    requires
        commit_step(pre, post, id) || abort_step(pre, post, id),
    ensures
        !post.active_map().contains_key(id.0@),
{
}

/// A call on the transaction manager, as it happened: a `begin` with its
/// read-only flag and the transaction it returned, a successful `commit` or
/// `abort` of an id, or a call that failed and changed nothing.
pub ghost enum TxEvent {
    Begin(bool, Transaction),
    Commit(TxId),
    Abort(TxId),
    Failed,
}

/// The state change an event makes.
pub open spec fn event_step(pre: TransactionManager, post: TransactionManager, e: TxEvent) -> bool {
    match e {
        TxEvent::Begin(r, t) => begin_step(pre, post, r, t),
        TxEvent::Commit(id) => commit_step(pre, post, id),
        TxEvent::Abort(id) => abort_step(pre, post, id),
        TxEvent::Failed => unchanged(pre, post),
    }
}

/// The number of `begin` calls among the events.
pub open spec fn begins_in(es: Seq<TxEvent>) -> nat
    decreases es.len(),
{
    if es.len() == 0 {
        0
    } else {
        begins_in(es.drop_last()) + if es.last() is Begin { 1nat } else { 0nat }
    }
}

/// The id of the last successful commit among the events.
pub open spec fn last_commit(es: Seq<TxEvent>) -> Option<TxId>
    decreases es.len(),
{
    if es.len() == 0 {
        None
    } else {
        match es.last() {
            TxEvent::Commit(id) => Some(id),
            _ => last_commit(es.drop_last()),
        }
    }
}

/// A transaction with these id bytes was begun and has not been committed
/// or aborted since.
pub open spec fn open_in(es: Seq<TxEvent>, key: Seq<u8>) -> bool
    decreases es.len(),
{
    if es.len() == 0 {
        false
    } else {
        match es.last() {
            TxEvent::Begin(_, t) => t.tx_id.0@ == key || open_in(es.drop_last(), key),
            TxEvent::Commit(id) => id.0@ != key && open_in(es.drop_last(), key),
            TxEvent::Abort(id) => id.0@ != key && open_in(es.drop_last(), key),
            TxEvent::Failed => open_in(es.drop_last(), key),
        }
    }
}

/// On a new manager, after any series of calls: the next transaction gets
/// the number one past the count of `begin` calls, its snapshot is the
/// transaction committed last (the nil id when none has), and an id is
/// active, so that `commit` and `abort` of it succeed, exactly when it was
/// begun and has not been committed or aborted since.
pub proof fn lemma_manager_history(ms: Seq<TransactionManager>, es: Seq<TxEvent>)
    requires
        ms.len() == es.len() + 1,
        forall|i: int| 0 <= i < es.len() ==> event_step(#[trigger] ms[i], ms[i + 1], es[i]),
        ms[0].next_number() == 1,
        is_nil_bytes(ms[0].last_committed().0@),
        ms[0].active_map() == Map::<Seq<u8>, Transaction>::empty(),
    ensures
        ms.last().next_number() == 1 + begins_in(es),
        last_commit(es) matches Some(id) ==> ms.last().last_committed() == id,
        last_commit(es) is None ==> is_nil_bytes(ms.last().last_committed().0@),
        forall|k: Seq<u8>| #[trigger] ms.last().active_map().contains_key(k) <==> open_in(es, k),
    decreases es.len(),
{
    if es.len() == 0 {
        assert forall|k: Seq<u8>| #[trigger] ms.last().active_map().contains_key(k) <==> open_in(es, k) by {
            assert(ms.last() == ms[0]);
        }
    } else {
        let n = es.len() - 1;
        let ms0 = ms.drop_last();
        let es0 = es.drop_last();
        assert forall|i: int| 0 <= i < es0.len() implies event_step(#[trigger] ms0[i], ms0[i + 1], es0[i]) by {
            assert(ms0[i] == ms[i] && ms0[i + 1] == ms[i + 1] && es0[i] == es[i]);
            assert(event_step(ms[i], ms[i + 1], es[i]));
        }
        assert(ms0[0] == ms[0]);
        lemma_manager_history(ms0, es0);
        let pre = ms[n];
        let post = ms[n + 1];
        assert(ms0.last() == pre);
        assert(ms.last() == post);
        assert(event_step(ms[n], ms[n + 1], es[n]));
        assert(es.last() == es[n]);
        assert forall|k: Seq<u8>| #[trigger] post.active_map().contains_key(k) <==> open_in(es, k) by {
            assert(pre.active_map().contains_key(k) <==> open_in(es0, k));
        }
    }
}

/// The chain a row has after `writer` inserts `value` in front of it.
pub open spec fn chain_after_insert(m: Map<Seq<u8>, Seq<VersionView>>, key: Seq<u8>, writer: TxId, value: Seq<u8>) -> Seq<VersionView> {
    seq![VersionView { created_by: writer, deleted_by: None, value }] + (if m.contains_key(key) {
        m[key]
    } else {
        Seq::empty()
    })
}

/// A reader whose snapshot is not before the writer reads back what was written.
pub proof fn lemma_read_after_insert(m: Map<Seq<u8>, Seq<VersionView>>, key: Seq<u8>, writer: TxId, value: Seq<u8>, snapshot: TxId)
    requires
        tx_le(writer, snapshot),
    ensures
        read_spec(m.insert(key, chain_after_insert(m, key, writer, value)), key, snapshot) == Some(value),
{
    let c = chain_after_insert(m, key, writer, value);
    lemma_first_visible(c, snapshot, 0);
}

/// A reader whose snapshot is before the writer reads what it read before the insert.
pub proof fn lemma_insert_hidden_from_earlier(
    m: Map<Seq<u8>, Seq<VersionView>>,
    key: Seq<u8>,
    writer: TxId,
    value: Seq<u8>,
    snapshot: TxId,
)
    requires
        !tx_le(writer, snapshot),
    ensures
        read_spec(m.insert(key, chain_after_insert(m, key, writer, value)), key, snapshot) == read_spec(m, key, snapshot),
{
    let c = chain_after_insert(m, key, writer, value);
    let rest = if m.contains_key(key) { m[key] } else { Seq::<VersionView>::empty() };
    assert(c.drop_first() =~= rest);
    assert(!visible_at(c[0].created_by, c[0].deleted_by, snapshot));
    let f = first_visible(rest, snapshot);
    lemma_first_visible_bounds(rest, snapshot);
    assert(first_visible(c, snapshot) == 1 + f);
    if f < rest.len() {
        assert(c.drop_first()[f] == rest[f]);
    }
    if !m.contains_key(key) {
        assert(f == 0);
    }
}

} // verus!
