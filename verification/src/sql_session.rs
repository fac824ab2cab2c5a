//! A SQL session's transaction state: whether an explicit transaction is
//! open, and whether statements commit on their own.

use vstd::prelude::*;
use vstd::string::*;
use crate::error::DbError;
use crate::mvcc::{Transaction, TransactionManager, begin_step, commit_step, abort_step, unchanged};
use crate::sql_error::SqlError;
use crate::sql_exec::QueryResult;

verus! {

/// The transaction state of one SQL session.
#[derive(Debug, Clone, Copy)]
pub struct SqlSession {
    pub current_transaction: Option<Transaction>,
    /// Statements outside an explicit transaction commit on their own.
    pub auto_commit: bool,
}

/// An execution error with this message.
pub open spec fn execution_error_is(e: SqlError, m: Seq<char>) -> bool {
    e matches SqlError::ExecutionError(s) && s@ == m
}

impl SqlSession {
    pub fn new() -> (r: SqlSession)
        ensures
            r.current_transaction is None,
            r.auto_commit,
    {
        SqlSession { current_transaction: None, auto_commit: true }
    }

    /// The transaction a statement runs in: the open one, else a new
    /// read-only one.
    pub fn statement_transaction(&self, tm: &mut TransactionManager) -> (r: Transaction)
        requires
            old(tm).wf(),
            old(tm).next_number() < u64::MAX,
            old(tm).next_number() < usize::MAX,
        ensures
            final(tm).wf(),
            self.current_transaction matches Some(t) ==> r == t && *final(tm) == *old(tm),
            self.current_transaction is None ==> begin_step(*old(tm), *final(tm), true, r),
    {
        match self.current_transaction {
            Some(t) => t,
            None => tm.begin(true),
        }
    }

    /// BEGIN: opens a read-write transaction and stops auto-commit; refused
    /// while one is open.
    pub fn begin(&mut self, tm: &mut TransactionManager) -> (r: Result<QueryResult, SqlError>)
        requires
            old(tm).wf(),
            old(tm).next_number() < u64::MAX,
            old(tm).next_number() < usize::MAX,
        ensures
            final(tm).wf(),
            old(self).current_transaction is Some ==> (r matches Err(e) && execution_error_is(
                e,
                "Transaction already in progress"@,
            ) && *final(self) == *old(self) && *final(tm) == *old(tm)),
            old(self).current_transaction is None ==> (r matches Ok(QueryResult::BeginTransaction(id))
                && final(self).current_transaction matches Some(t) && t.tx_id == id
                && begin_step(*old(tm), *final(tm), false, t) && !final(self).auto_commit),
    {
        if self.current_transaction.is_some() {
            return Err(SqlError::ExecutionError(String::from_str("Transaction already in progress")));
        }
        let tx = tm.begin(false);
        self.current_transaction = Some(tx);
        self.auto_commit = false;
        Ok(QueryResult::BeginTransaction(tx.tx_id))
    }

    /// COMMIT: commits the open transaction and returns to auto-commit;
    /// refused when none is open. A failed commit still closes it.
    pub fn commit(&mut self, tm: &mut TransactionManager) -> (r: Result<QueryResult, SqlError>)
        requires
            old(tm).wf(),
        ensures
            final(tm).wf(),
            final(self).current_transaction is None,
            old(self).current_transaction is None ==> (r matches Err(e) && execution_error_is(e, "No transaction to commit"@)
                && final(self).auto_commit == old(self).auto_commit && *final(tm) == *old(tm)),
            old(self).current_transaction matches Some(t) ==> ({
                &&& r is Ok <==> old(tm).active_map().contains_key(t.tx_id.0@)
                &&& r is Ok ==> (r matches Ok(QueryResult::Commit) && commit_step(*old(tm), *final(tm), t.tx_id)
                    && final(self).auto_commit)
                &&& r is Err ==> (r matches Err(SqlError::Storage(DbError::InvalidTransaction(_))) && unchanged(
                    *old(tm),
                    *final(tm),
                ) && final(self).auto_commit == old(self).auto_commit)
            }),
    {
        let tx = match self.current_transaction.take() {
            Some(t) => t,
            None => {
                return Err(SqlError::ExecutionError(String::from_str("No transaction to commit")));
            },
        };
        match tm.commit(tx.tx_id) {
            Ok(()) => {
                self.auto_commit = true;
                Ok(QueryResult::Commit)
            },
            Err(e) => Err(SqlError::Storage(e)),
        }
    }

    /// ROLLBACK: aborts the open transaction and returns to auto-commit;
    /// refused when none is open. A failed abort still closes it.
    pub fn rollback(&mut self, tm: &mut TransactionManager) -> (r: Result<QueryResult, SqlError>)
        requires
            old(tm).wf(),
        ensures
            final(tm).wf(),
            final(self).current_transaction is None,
            old(self).current_transaction is None ==> (r matches Err(e) && execution_error_is(e, "No transaction to rollback"@)
                && final(self).auto_commit == old(self).auto_commit && *final(tm) == *old(tm)),
            old(self).current_transaction matches Some(t) ==> ({
                &&& r is Ok <==> old(tm).active_map().contains_key(t.tx_id.0@)
                &&& r is Ok ==> (r matches Ok(QueryResult::Rollback) && abort_step(*old(tm), *final(tm), t.tx_id)
                    && final(self).auto_commit)
                &&& r is Err ==> (r matches Err(SqlError::Storage(DbError::InvalidTransaction(_))) && unchanged(
                    *old(tm),
                    *final(tm),
                ) && final(self).auto_commit == old(self).auto_commit)
            }),
    {
        let tx = match self.current_transaction.take() {
            Some(t) => t,
            None => {
                return Err(SqlError::ExecutionError(String::from_str("No transaction to rollback")));
            },
        };
        match tm.abort(tx.tx_id) {
            Ok(()) => {
                self.auto_commit = true;
                Ok(QueryResult::Rollback)
            },
            Err(e) => Err(SqlError::Storage(e)),
        }
    }

    /// After a write statement in transaction `tx_id`: in auto-commit, the
    /// transaction commits and the session holds none; else nothing happens.
    pub fn finish_write(&mut self, tm: &mut TransactionManager, tx_id: crate::tx::TxId) -> (r: Result<(), SqlError>)
        requires
            old(tm).wf(),
        ensures
            final(tm).wf(),
            !old(self).auto_commit ==> r is Ok && *final(self) == *old(self) && *final(tm) == *old(tm),
            old(self).auto_commit ==> ({
                &&& r is Ok <==> old(tm).active_map().contains_key(tx_id.0@)
                &&& r is Ok ==> commit_step(*old(tm), *final(tm), tx_id) && final(self).current_transaction is None
                    && final(self).auto_commit
                &&& r is Err ==> (r matches Err(SqlError::Storage(DbError::InvalidTransaction(_))) && unchanged(
                    *old(tm),
                    *final(tm),
                ) && *final(self) == *old(self))
            }),
    {
        if self.auto_commit {
            match tm.commit(tx_id) {
                Ok(()) => {
                    self.current_transaction = None;
                    Ok(())
                },
                Err(e) => Err(SqlError::Storage(e)),
            }
        } else {
            Ok(())
        }
    }
}

} // verus!
