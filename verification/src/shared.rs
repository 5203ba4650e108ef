//! A ledger shared between tasks: one lock guards the chain, appends hold
//! it exclusively from reading the tail to the commit, and reads copy the
//! chain under it.

use crate::block::{genesis, successor, Block, BlockView};
use crate::chain::{appended, block_views, chain_valid, Blockchain};
use std::sync::Arc;
use vstd::prelude::*;
use vstd::rwlock::*;

verus! {

/// What the lock guarantees of the ledger it guards, whenever the lock is
/// free: it is a valid chain, and it still begins with the genesis block
/// that it was created with.
pub struct ChainOf {
    pub first: BlockView,
}

impl RwLockPredicate<Blockchain> for ChainOf {
    open spec fn inv(self, chain: Blockchain) -> bool {
        chain.wf() && chain@[0] == self.first
    }
}

/// A handle to a ledger that many tasks may read and extend.
pub struct SharedLedger {
    lock: Arc<RwLock<Blockchain, ChainOf>>,
}

impl SharedLedger {
    /// The genesis block of the ledger behind this handle. It is fixed when
    /// the ledger is created.
    pub closed spec fn first(&self) -> BlockView {
        self.lock.pred().first
    }

    /// Whether `chain` is a state that the ledger behind this handle can be
    /// in: a valid chain that begins with its genesis block.
    pub open spec fn admits(&self, chain: Seq<BlockView>) -> bool {
        chain_valid(chain) && chain[0] == self.first()
    }

    fn guard(chain: Blockchain) -> (ledger: SharedLedger)
        requires
            chain.wf(),
        ensures
            ledger.first() == chain@[0],
    {
        let ghost first = chain@[0];
        SharedLedger { lock: Arc::new(RwLock::new(chain, Ghost(ChainOf { first }))) }
    }

    /// A shared ledger that holds only the genesis block stamped with
    /// `timestamp`.
    pub fn new_at(timestamp: String) -> (ledger: SharedLedger)
        ensures
            ledger.first() == genesis(timestamp@),
    {
        SharedLedger::guard(Blockchain::new_at(timestamp))
    }

    /// A shared ledger that holds only a genesis block stamped with the
    /// current time.
    pub fn new() -> (ledger: SharedLedger)
        ensures
            ledger.first() == genesis(ledger.first().timestamp),
    {
        SharedLedger::guard(Blockchain::new())
    }

    /// Another handle to the same ledger.
    pub fn share(&self) -> (other: SharedLedger)
        ensures
            other == *self,
            other.first() == self.first(),
    {
        SharedLedger { lock: self.lock.clone() }
    }

    /// Appends a block stamped with `timestamp` to the ledger and returns it.
    ///
    /// The lock is held from reading the tail until the block is committed:
    /// the ledger goes from some state `before` that it can be in to
    /// `before` with the returned block appended, and the returned block is
    /// the successor of the tail of `before`.
    pub fn append_at(&self, payload: u64, timestamp: String) -> (block: Block)
        ensures
            exists|before: Seq<BlockView>|
                self.admits(before) && #[trigger] self.admits(
                    appended(before, payload as nat, timestamp@),
                ) && block@ == successor(before.last(), payload as nat, timestamp@),
    {
        let (mut chain, handle) = self.lock.acquire_write();
        let ghost before = chain@;
        let block = chain.append_at(payload, timestamp);
        handle.release_write(chain);
        assert(self.admits(appended(before, payload as nat, timestamp@)));
        block
    }

    /// Appends a block stamped with the current time to the ledger and
    /// returns it. As [`SharedLedger::append_at`], for the timestamp that
    /// the returned block carries.
    pub fn append(&self, payload: u64) -> (block: Block)
        ensures
            exists|before: Seq<BlockView>|
                self.admits(before) && #[trigger] self.admits(
                    appended(before, payload as nat, block@.timestamp),
                ) && block@ == successor(before.last(), payload as nat, block@.timestamp),
    {
        let (mut chain, handle) = self.lock.acquire_write();
        let ghost before = chain@;
        let block = chain.append(payload);
        handle.release_write(chain);
        assert(self.admits(appended(before, payload as nat, block@.timestamp)));
        block
    }

    /// A copy of the whole chain as it stood at one moment. Whatever other
    /// tasks do, it is a valid chain that begins with the ledger's genesis
    /// block.
    pub fn snapshot(&self) -> (blocks: Vec<Block>)
        ensures
            self.admits(block_views(blocks@)),
            chain_valid(block_views(blocks@)),
            blocks@.len() >= 1,
            blocks@[0]@ == self.first(),
    {
        let handle = self.lock.acquire_read();
        let blocks = handle.borrow().snapshot();
        handle.release_read();
        blocks
    }
}

/// Starts a ledger for sharing: one genesis block, stamped with the current
/// time, behind a lock.
pub fn init_blockchain() -> (ledger: SharedLedger)
    ensures
        ledger.first() == genesis(ledger.first().timestamp),
{
    SharedLedger::new()
}

} // verus!
