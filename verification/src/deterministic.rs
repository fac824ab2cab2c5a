//! The deterministic environment functions run in: a random sequence and a
//! clock that depend on the transaction alone, so that a replay repeats them.

use vstd::prelude::*;
use vstd::bytes::*;
use vstd::slice::slice_subrange;
use crate::tx::TxId;
use crate::assoc::{assoc_map, keys_unique, lemma_assoc_absent, lemma_assoc_lookup, lemma_assoc_push};

verus! {

/// The transaction a function runs in.
#[derive(Debug, Clone, Copy)]
pub struct TransactionContext {
    pub tx_id: TxId,
    /// Logical start time.
    pub start_time: u64,
    pub is_read_only: bool,
}

/// The deterministic primitives a function sees.
#[derive(Debug, Clone, Copy)]
pub struct DeterministicEnv {
    pub random_seed: u64,
    /// Monotonic logical clock.
    pub logical_time: u64,
    pub context: TransactionContext,
}

/// One xorshift step.
pub open spec fn xorshift(x: u64) -> u64 {
    let a = x ^ (x << 13u64);
    let b = a ^ (a >> 7u64);
    b ^ (b << 17u64)
}

/// The seed of a transaction's random sequence: its first 8 id bytes,
/// little endian.
pub open spec fn seed_of(tx_id: TxId) -> u64 {
    spec_u64_from_le_bytes(tx_id.0@.subrange(0, 8))
}

pub fn generate_deterministic_seed(tx_id: &TxId) -> (r: u64)
    ensures
        r == seed_of(*tx_id),
{
    u64_from_le_bytes(slice_subrange(tx_id.0.as_slice(), 0, 8))
}

impl DeterministicEnv {
    /// The environment a transaction starts with: its seed, logical time 0.
    pub fn for_transaction(tx_id: TxId, is_read_only: bool) -> (r: DeterministicEnv)
        ensures
            r.random_seed == seed_of(tx_id),
            r.logical_time == 0,
            r.context == (TransactionContext { tx_id, start_time: 0, is_read_only }),
    {
        DeterministicEnv {
            random_seed: generate_deterministic_seed(&tx_id),
            logical_time: 0,
            context: TransactionContext { tx_id, start_time: 0, is_read_only },
        }
    }

    /// Advances the random sequence by one xorshift step and returns the
    /// new state; a random number in [0, 1] is that state divided by
    /// `u64::MAX`.
    pub fn next_random(&mut self) -> (r: u64)
        ensures
            r == xorshift(old(self).random_seed),
            final(self).random_seed == r,
            final(self).logical_time == old(self).logical_time,
            final(self).context == old(self).context,
    {
        let mut x = self.random_seed;
        x = x ^ (x << 13u64);
        x = x ^ (x >> 7u64);
        x = x ^ (x << 17u64);
        self.random_seed = x;
        x
    }

    /// The deterministic "current time": the logical clock.
    pub fn now(&self) -> (r: u64)
        ensures
            r == self.logical_time,
    {
        self.logical_time
    }
}

/// Two environments of one transaction draw the same random sequence.
pub proof fn lemma_same_transaction_same_draws(a: DeterministicEnv, b: DeterministicEnv)
    requires
        a.random_seed == seed_of(a.context.tx_id),
        b.random_seed == seed_of(b.context.tx_id),
        a.context.tx_id.0@ == b.context.tx_id.0@,
    ensures
        xorshift(a.random_seed) == xorshift(b.random_seed),
{
}

pub open spec fn env_key() -> spec_fn(DeterministicEnv) -> TxId {
    |e: DeterministicEnv| e.context.tx_id
}

pub open spec fn env_val() -> spec_fn(DeterministicEnv) -> DeterministicEnv {
    |e: DeterministicEnv| e
}

/// The environment of each transaction that has run a function.
#[derive(Debug)]
pub struct EnvTable {
    envs: Vec<DeterministicEnv>,
}

impl View for EnvTable {
    type V = Map<TxId, DeterministicEnv>;

    closed spec fn view(&self) -> Map<TxId, DeterministicEnv> {
        assoc_map(self.envs@, env_key(), env_val())
    }
}

impl EnvTable {
    pub closed spec fn wf(&self) -> bool {
        keys_unique(self.envs@, env_key())
    }

    pub fn new() -> (r: EnvTable)
        ensures
            r.wf(),
            r@ == Map::<TxId, DeterministicEnv>::empty(),
    {
        EnvTable { envs: Vec::new() }
    }

    /// The environment of `tx_id`: the one it already has, else a fresh one
    /// for it, which is kept.
    pub fn create_env(&mut self, tx_id: TxId, is_read_only: bool) -> (r: DeterministicEnv)
        requires
            old(self).wf(),
        ensures
            final(self).wf(),
            old(self)@.contains_key(tx_id) ==> r == old(self)@[tx_id] && final(self)@ == old(self)@,
            !old(self)@.contains_key(tx_id) ==> r.random_seed == seed_of(tx_id) && r.logical_time == 0
                && r.context == (TransactionContext { tx_id, start_time: 0, is_read_only })
                && final(self)@ == old(self)@.insert(tx_id, r),
    {
        let mut i: usize = 0;
        while i < self.envs.len()
            invariant
                0 <= i <= self.envs@.len(),
                self.envs@ == old(self).envs@,
                keys_unique(self.envs@, env_key()),
                forall|j: int| 0 <= j < i ==> #[trigger] env_key()(self.envs@[j]) != tx_id,
            decreases self.envs@.len() - i,
        {
            if self.envs[i].context.tx_id == tx_id {
                proof {
                    lemma_assoc_lookup(self.envs@, env_key(), env_val(), i as int);
                }
                return self.envs[i];
            }
            i = i + 1;
        }
        proof {
            lemma_assoc_absent(self.envs@, env_key(), env_val(), tx_id);
        }
        let env = DeterministicEnv::for_transaction(tx_id, is_read_only);
        proof {
            lemma_assoc_push(self.envs@, env_key(), env_val(), env);
        }
        self.envs.push(env);
        env
    }
}

} // verus!
