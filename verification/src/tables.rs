//! The storage engine's tables in memory: each table's rows and their
//! version chains, by table name.

use vstd::prelude::*;
use crate::assoc::{assoc_map, keys_unique, lemma_assoc_absent, lemma_assoc_lookup, lemma_assoc_push, lemma_assoc_update};
use crate::engine::{chain_images, encode_chain, extract_key_from_composite, first_zero, serialize_mvcc_data};
use crate::error::Result;
use crate::mvcc::{MvccTable, RowVersion, Transaction, VersionView, chain_after_insert, chain_view, copy_bytes};
use crate::sql_plan::str_equal;

verus! {

/// A table and its name.
pub struct NamedTable {
    pub name: String,
    pub table: MvccTable,
}

pub open spec fn table_name_of() -> spec_fn(NamedTable) -> Seq<char> {
    |e: NamedTable| e.name@
}

pub open spec fn table_rows_of() -> spec_fn(NamedTable) -> Map<Seq<u8>, Seq<VersionView>> {
    |e: NamedTable| e.table@
}

/// The rows a table has after `writer` puts `value` under `key`.
pub open spec fn rows_after_insert(
    t: Map<Seq<u8>, Seq<VersionView>>,
    key: Seq<u8>,
    writer: crate::tx::TxId,
    value: Seq<u8>,
) -> Map<Seq<u8>, Seq<VersionView>> {
    t.insert(key, chain_after_insert(t, key, writer, value))
}

/// The rows of the table named `name`; none where there is no such table.
pub open spec fn rows_or_empty(m: Map<Seq<char>, Map<Seq<u8>, Seq<VersionView>>>, name: Seq<char>) -> Map<Seq<u8>, Seq<VersionView>> {
    if m.contains_key(name) {
        m[name]
    } else {
        Map::empty()
    }
}

/// The tables by name, each name at most once.
pub struct TableSet {
    entries: Vec<NamedTable>,
}

impl View for TableSet {
    type V = Map<Seq<char>, Map<Seq<u8>, Seq<VersionView>>>;

    closed spec fn view(&self) -> Map<Seq<char>, Map<Seq<u8>, Seq<VersionView>>> {
        assoc_map(self.entries@, table_name_of(), table_rows_of())
    }
}

/// A copy of a version chain.
pub fn copy_chain(c: &Vec<RowVersion>) -> (r: Vec<RowVersion>)
    ensures
        chain_view(r@) == chain_view(c@),
{
    let mut r: Vec<RowVersion> = Vec::new();
    let mut i: usize = 0;
    while i < c.len()
        invariant
            0 <= i <= c@.len(),
            chain_view(r@) == chain_view(c@).take(i as int),
        decreases c@.len() - i,
    {
        let v = RowVersion { created_by: c[i].created_by, deleted_by: c[i].deleted_by, value: copy_bytes(&c[i].value) };
        let ghost before = r@;
        r.push(v);
        proof {
            assert(chain_view(r@) =~= chain_view(before).push(v@));
            assert(chain_view(c@).take(i + 1) =~= chain_view(c@).take(i as int).push(c@[i as int]@));
        }
        i = i + 1;
    }
    proof {
        assert(chain_view(c@).take(c@.len() as int) =~= chain_view(c@));
    }
    r
}

impl TableSet {
    pub closed spec fn wf(&self) -> bool {
        &&& keys_unique(self.entries@, table_name_of())
        &&& forall|i: int| 0 <= i < self.entries@.len() ==> (#[trigger] self.entries@[i]).table.wf()
    }

    pub fn new() -> (r: TableSet)
        ensures
            r.wf(),
            r@ == Map::<Seq<char>, Map<Seq<u8>, Seq<VersionView>>>::empty(),
    {
        TableSet { entries: Vec::new() }
    }

    fn find(&self, name: &str) -> (r: Option<usize>)
        ensures
            r matches Some(i) ==> i < self.entries@.len() && self.entries@[i as int].name@ == name@,
            r is None ==> forall|i: int| 0 <= i < self.entries@.len() ==> #[trigger] table_name_of()(self.entries@[i]) != name@,
    {
        let mut i: usize = 0;
        while i < self.entries.len()
            invariant
                0 <= i <= self.entries@.len(),
                forall|j: int| 0 <= j < i ==> #[trigger] table_name_of()(self.entries@[j]) != name@,
            decreases self.entries@.len() - i,
        {
            if str_equal(self.entries[i].name.as_str(), name) {
                return Some(i);
            }
            i = i + 1;
        }
        None
    }

    /// Whether a table of this name exists.
    pub fn contains(&self, name: &str) -> (r: bool)
        requires
            self.wf(),
        ensures
            r == self@.contains_key(name@),
    {
        match self.find(name) {
            Some(i) => {
                proof {
                    lemma_assoc_lookup(self.entries@, table_name_of(), table_rows_of(), i as int);
                }
                true
            },
            None => {
                proof {
                    lemma_assoc_absent(self.entries@, table_name_of(), table_rows_of(), name@);
                }
                false
            },
        }
    }

    /// Sets the table `name` to `table`, replacing one of the same name.
    fn put(&mut self, name: &str, table: MvccTable)
        requires
            old(self).wf(),
            table.wf(),
        ensures
            final(self).wf(),
            final(self)@ == old(self)@.insert(name@, table@),
    {
        let ghost old_entries = self.entries@;
        let entry = NamedTable { name: String::from_str(name), table };
        match self.find(name) {
            Some(i) => {
                proof {
                    lemma_assoc_update(old_entries, table_name_of(), table_rows_of(), i as int, entry);
                }
                self.entries.set(i, entry);
                proof {
                    assert forall|j: int| 0 <= j < self.entries@.len() implies (#[trigger] self.entries@[j]).table.wf() by {
                        if j != i {
                            assert(self.entries@[j] == old_entries[j]);
                        }
                    }
                }
            },
            None => {
                proof {
                    lemma_assoc_push(old_entries, table_name_of(), table_rows_of(), entry);
                }
                self.entries.push(entry);
                proof {
                    assert forall|j: int| 0 <= j < self.entries@.len() implies (#[trigger] self.entries@[j]).table.wf() by {
                        if j < old_entries.len() {
                            assert(self.entries@[j] == old_entries[j]);
                        }
                    }
                }
            },
        }
    }

    /// Creates an empty table. With `if_not_exists` an existing table is
    /// kept; without it, it is replaced by an empty one.
    pub fn create_table(&mut self, table_name: &str, if_not_exists: bool) -> (r: Result<()>)
        requires
            old(self).wf(),
        ensures
            final(self).wf(),
            r is Ok,
            if_not_exists && old(self)@.contains_key(table_name@) ==> final(self)@ == old(self)@,
            !(if_not_exists && old(self)@.contains_key(table_name@)) ==> final(self)@ == old(self)@.insert(
                table_name@,
                Map::empty(),
            ),
    {
        if if_not_exists && self.contains(table_name) {
            return Ok(());
        }
        self.put(table_name, MvccTable::new());
        Ok(())
    }

    /// Puts a new version of `key` written by `tx` into the table
    /// `table_name` (created where missing) and returns the row's version
    /// chain as stored in a data page.
    pub fn insert_version(&mut self, table_name: &str, key: Vec<u8>, value: Vec<u8>, tx: &Transaction) -> (r: Result<
        Vec<u8>,
    >)
        requires
            old(self).wf(),
        ensures
            final(self).wf(),
            final(self)@ == old(self)@.insert(
                table_name@,
                rows_after_insert(rows_or_empty(old(self)@, table_name@), key@, tx.tx_id, value@),
            ),
            r matches Ok(b) && b@ == encode_chain(
                chain_images(chain_after_insert(rows_or_empty(old(self)@, table_name@), key@, tx.tx_id, value@)),
            ),
    {
        let ghost old_entries = self.entries@;
        let ghost kv = key@;
        let ghost vv = value@;
        let key_copy = copy_bytes(&key);
        match self.find(table_name) {
            Some(i) => {
                proof {
                    lemma_assoc_lookup(old_entries, table_name_of(), table_rows_of(), i as int);
                }
                let mut entry = NamedTable { name: String::new(), table: MvccTable::new() };
                self.entries.set_and_swap(i, &mut entry);
                proof {
                    assert(entry == old_entries[i as int]);
                    assert(entry.table.wf());
                }
                let ghost before = entry.table@;
                entry.table.insert(key, value, tx);
                let r = serialize_mvcc_data(&entry.table, key_copy.as_slice());
                proof {
                    assert(entry.table@ == rows_after_insert(before, kv, tx.tx_id, vv));
                    lemma_assoc_update(old_entries, table_name_of(), table_rows_of(), i as int, entry);
                }
                self.entries.set(i, entry);
                proof {
                    assert(self.entries@ =~= old_entries.update(i as int, entry));
                    assert forall|j: int| 0 <= j < self.entries@.len() implies (#[trigger] self.entries@[j]).table.wf() by {
                        if j != i {
                            assert(self.entries@[j] == old_entries[j]);
                        }
                    }
                }
                r
            },
            None => {
                proof {
                    lemma_assoc_absent(old_entries, table_name_of(), table_rows_of(), table_name@);
                }
                let mut table = MvccTable::new();
                table.insert(key, value, tx);
                let r = serialize_mvcc_data(&table, key_copy.as_slice());
                self.put(table_name, table);
                r
            },
        }
    }

    /// The version chain of the row a composite key names, in table
    /// `table_name`: `None` where the composite key has no zero byte, or the
    /// table or the row is missing.
    pub fn get_table_entry(&self, table_name: &str, composite_key: &[u8]) -> (r: Option<Vec<RowVersion>>)
        requires
            self.wf(),
        ensures
            ({
                let z = first_zero(composite_key@);
                let k = composite_key@.subrange(z + 1, composite_key@.len() as int);
                if z < composite_key@.len() && self@.contains_key(table_name@) && self@[table_name@].contains_key(k) {
                    r matches Some(c) && chain_view(c@) == self@[table_name@][k]
                } else {
                    r is None
                }
            }),
    {
        let key = match extract_key_from_composite(composite_key) {
            Some(k) => k,
            None => {
                return None;
            },
        };
        match self.find(table_name) {
            Some(i) => {
                proof {
                    lemma_assoc_lookup(self.entries@, table_name_of(), table_rows_of(), i as int);
                    assert(table_name_of()(self.entries@[i as int]) == table_name@);
                    assert(self@.contains_key(table_name@));
                    assert(self.entries@[i as int].table@ == self@[table_name@]);
                    assert(self.entries@[i as int].table.wf());
                }
                match self.entries[i].table.versions(key) {
                    Some(c) => {
                        assert(self@[table_name@].contains_key(key@));
                        let r = copy_chain(c);
                        Some(r)
                    },
                    None => {
                        assert(!self@[table_name@].contains_key(key@));
                        None
                    },
                }
            },
            None => {
                proof {
                    lemma_assoc_absent(self.entries@, table_name_of(), table_rows_of(), table_name@);
                }
                None
            },
        }
    }
}

} // verus!
