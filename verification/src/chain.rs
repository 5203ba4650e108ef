//! The ledger: an append-only chain of blocks that begins with a genesis
//! block and in which every block is linked to the one before it.

use crate::block::{
    generate_block, generate_block_at, genesis, genesis_block, genesis_block_at, is_block_valid,
    is_sealed, lemma_genesis_is_sealed, lemma_successor_is_valid, linked, successor,
    valid_successor, Block, BlockView,
};
use vstd::prelude::*;

verus! {

/// The views of a sequence of blocks, in order.
pub open spec fn block_views(blocks: Seq<Block>) -> Seq<BlockView> {
    blocks.map_values(|b: Block| b@)
}

/// Whether the block at position `i` is linked to the block before it.
pub open spec fn linked_at(chain: Seq<BlockView>, i: int) -> bool {
    linked(chain[i - 1], chain[i])
}

/// What holds of every ledger: it begins with a genesis block, every block
/// carries the digest of its own record, and every block but the first is
/// linked to the block before it.
pub open spec fn chain_valid(chain: Seq<BlockView>) -> bool {
    &&& chain.len() >= 1
    &&& chain[0] == genesis(chain[0].timestamp)
    &&& forall|i: int| 0 <= i < chain.len() ==> is_sealed(#[trigger] chain[i])
    &&& forall|i: int| 1 <= i < chain.len() ==> #[trigger] linked_at(chain, i)
}

/// The chain after one append: the successor of the tail is added at the
/// end.
pub open spec fn appended(chain: Seq<BlockView>, payload: nat, timestamp: Seq<char>) -> Seq<
    BlockView,
> {
    chain.push(successor(chain.last(), payload, timestamp))
}

/// The chain after a run of appends, each entry giving the payload and the
/// timestamp of one append, in order.
pub open spec fn after_appends(start: Seq<BlockView>, entries: Seq<(nat, Seq<char>)>) -> Seq<
    BlockView,
>
    decreases entries.len(),
{
    if entries.len() == 0 {
        start
    } else {
        appended(after_appends(start, entries.drop_last()), entries.last().0, entries.last().1)
    }
}

/// An ordered, append-only sequence of blocks.
#[derive(Debug)]
pub struct Blockchain {
    blocks: Vec<Block>,
}

impl View for Blockchain {
    type V = Seq<BlockView>;

    closed spec fn view(&self) -> Seq<BlockView> {
        block_views(self.blocks@)
    }
}

impl Blockchain {
    /// Whether this ledger is a valid chain. Every ledger that the
    /// constructors return is, and every operation keeps it so.
    pub open spec fn wf(&self) -> bool {
        chain_valid(self@)
    }

    /// A ledger that holds only the genesis block stamped with `timestamp`.
    pub fn new_at(timestamp: String) -> (chain: Blockchain)
        ensures
            chain@ == seq![genesis(timestamp@)],
            chain@.len() == 1,
            chain@[0].index == 0,
            chain@[0].prev_hash == Seq::<char>::empty(),
            is_sealed(chain@[0]),
            chain.wf(),
    {
        proof {
            lemma_genesis_is_sealed(timestamp@);
        }
        Blockchain::from_genesis(genesis_block_at(timestamp))
    }

    /// A ledger that holds only a genesis block stamped with the current
    /// time.
    pub fn new() -> (chain: Blockchain)
        ensures
            chain@.len() == 1,
            chain@[0] == genesis(chain@[0].timestamp),
            chain@[0].index == 0,
            chain@[0].prev_hash == Seq::<char>::empty(),
            is_sealed(chain@[0]),
            chain.wf(),
    {
        let first = genesis_block();
        proof {
            lemma_genesis_is_sealed(first@.timestamp);
        }
        Blockchain::from_genesis(first)
    }

    fn from_genesis(first: Block) -> (chain: Blockchain)
        requires
            first@ == genesis(first@.timestamp),
        ensures
            chain@ == seq![first@],
            chain.wf(),
    {
        let mut blocks: Vec<Block> = Vec::new();
        blocks.push(first);
        assert(block_views(blocks@) =~= seq![first@]);
        Blockchain { blocks }
    }

    /// The number of blocks, the genesis block included.
    pub fn len(&self) -> (n: usize)
        requires
            self.wf(),
        ensures
            n == self@.len(),
            n >= 1,
    {
        self.blocks.len()
    }

    /// The block that was appended last.
    pub fn tail(&self) -> (block: &Block)
        requires
            self.wf(),
        ensures
            block@ == self@.last(),
            block@.index == self@.len() - 1,
            self@.len() <= usize::MAX,
    {
        proof {
            lemma_index_is_position(self@, self@.len() - 1);
        }
        &self.blocks[self.blocks.len() - 1]
    }

    /// A copy of the whole chain, in order.
    pub fn snapshot(&self) -> (blocks: Vec<Block>)
        ensures
            block_views(blocks@) == self@,
            blocks@.len() == self@.len(),
            forall|i: int| 0 <= i < blocks@.len() ==> (#[trigger] blocks@[i])@ == self@[i],
    {
        let mut blocks: Vec<Block> = Vec::new();
        let n = self.blocks.len();
        let mut i: usize = 0;
        while i < n
            invariant
                n == self.blocks@.len(),
                i <= n,
                blocks@.len() == i,
                forall|j: int| 0 <= j < i ==> (#[trigger] blocks@[j])@ == self.blocks@[j]@,
            decreases n - i,
        {
            blocks.push(self.blocks[i].clone());
            i = i + 1;
        }
        assert(block_views(blocks@) =~= self@);
        blocks
    }

    /// Validates `candidate` against the tail and appends a copy of it if it
    /// is a valid successor; otherwise the ledger stays as it was.
    pub fn commit(&mut self, candidate: &Block) -> (committed: bool)
        requires
            old(self).wf(),
        ensures
            committed == valid_successor(old(self)@.last(), candidate@),
            committed ==> final(self)@ == old(self)@.push(candidate@),
            !committed ==> final(self)@ == old(self)@,
            final(self).wf(),
    {
        let n = self.blocks.len();
        let ok = is_block_valid(candidate, &self.blocks[n - 1]);
        if ok {
            let ghost before = block_views(self.blocks@);
            self.blocks.push(candidate.clone());
            proof {
                assert(block_views(self.blocks@) =~= before.push(candidate@));
                lemma_push_keeps_valid(before, candidate@);
            }
        }
        ok
    }

    /// Appends the successor of the tail, stamped with `timestamp`, and
    /// returns it.
    ///
    /// The candidate goes through the same validation as any other block
    /// before it is committed. One that was just built from the tail always
    /// passes it, so the ledger grows by exactly this block.
    pub fn append_at(&mut self, payload: u64, timestamp: String) -> (block: Block)
        requires
            old(self).wf(),
        ensures
            block@ == successor(old(self)@.last(), payload as nat, timestamp@),
            final(self)@ == appended(old(self)@, payload as nat, timestamp@),
            final(self)@.len() == old(self)@.len() + 1,
            final(self).wf(),
    {
        let candidate = generate_block_at(self.tail(), payload, timestamp);
        self.commit(&candidate);
        candidate
    }

    /// Appends the successor of the tail, stamped with the current time, and
    /// returns it.
    pub fn append(&mut self, payload: u64) -> (block: Block)
        requires
            old(self).wf(),
        ensures
            block@ == successor(old(self)@.last(), payload as nat, block@.timestamp),
            final(self)@ == appended(old(self)@, payload as nat, block@.timestamp),
            final(self)@.len() == old(self)@.len() + 1,
            final(self).wf(),
    {
        let candidate = generate_block(self.tail(), payload);
        self.commit(&candidate);
        candidate
    }
}

/// In a valid chain every block's index is its position.
pub proof fn lemma_index_is_position(chain: Seq<BlockView>, i: int)
    requires
        chain_valid(chain),
        0 <= i < chain.len(),
    ensures
        chain[i].index == i,
    decreases i,
{
    if i > 0 {
        lemma_index_is_position(chain, i - 1);
        assert(linked_at(chain, i));
    }
}

/// A valid chain extended by a valid successor of its tail is valid.
pub proof fn lemma_push_keeps_valid(chain: Seq<BlockView>, next: BlockView)
    requires
        chain_valid(chain),
        valid_successor(chain.last(), next),
    ensures
        chain_valid(chain.push(next)),
{
    let longer = chain.push(next);
    assert(longer[0] == chain[0]);
    assert forall|i: int| 0 <= i < longer.len() implies is_sealed(#[trigger] longer[i]) by {
        if i < chain.len() {
            assert(longer[i] == chain[i]);
        }
    }
    assert forall|i: int| 1 <= i < longer.len() implies #[trigger] linked_at(longer, i) by {
        if i < chain.len() {
            assert(linked_at(chain, i));
            assert(longer[i] == chain[i]);
            assert(longer[i - 1] == chain[i - 1]);
        } else {
            assert(longer[i - 1] == chain.last());
        }
    }
}

/// In a valid chain the indices count up from 0, every block but the first
/// repeats the hash of the block before it, and every block carries the
/// digest of its own record.
pub proof fn lemma_valid_chain_is_linked(chain: Seq<BlockView>)
    requires
        chain_valid(chain),
    ensures
        chain[0].index == 0,
        chain[0].prev_hash == Seq::<char>::empty(),
        forall|i: int| 0 <= i < chain.len() ==> (#[trigger] chain[i]).index == i,
        forall|i: int| 0 <= i < chain.len() ==> is_sealed(#[trigger] chain[i]),
        forall|i: int, j: int|
            #![trigger chain[i], chain[j]]
            0 <= i < j < chain.len() ==> chain[i].index < chain[j].index,
        forall|i: int, j: int|
            #![trigger chain[i], chain[j]]
            0 <= i && j == i + 1 && j < chain.len() ==> chain[j].index == chain[i].index + 1
                && chain[j].prev_hash == chain[i].hash,
{
    lemma_genesis_is_sealed(chain[0].timestamp);
    assert forall|i: int| 0 <= i < chain.len() implies (#[trigger] chain[i]).index == i by {
        lemma_index_is_position(chain, i);
    }
    assert forall|i: int, j: int|
        #![trigger chain[i], chain[j]]
        0 <= i && j == i + 1 && j < chain.len() implies chain[j].index == chain[i].index + 1
        && chain[j].prev_hash == chain[i].hash by {
        assert(linked_at(chain, j));
    }
}

/// One append to a valid chain gives a valid chain that is one block
/// longer and begins with the old chain.
pub proof fn lemma_append_extends_chain(chain: Seq<BlockView>, payload: nat, timestamp: Seq<char>)
    requires
        chain_valid(chain),
    ensures
        chain_valid(appended(chain, payload, timestamp)),
        appended(chain, payload, timestamp).len() == chain.len() + 1,
        appended(chain, payload, timestamp).take(chain.len() as int) == chain,
        appended(chain, payload, timestamp).last() == successor(chain.last(), payload, timestamp),
{
    lemma_successor_is_valid(chain.last(), payload, timestamp);
    lemma_push_keeps_valid(chain, successor(chain.last(), payload, timestamp));
    assert(appended(chain, payload, timestamp).take(chain.len() as int) =~= chain);
}

/// Any run of appends to a valid chain gives a valid chain: it has one
/// more block per append, it begins with the chain that was there before,
/// and the block of each append carries that append's payload and
/// timestamp.
pub proof fn lemma_appends_extend_chain(start: Seq<BlockView>, entries: Seq<(nat, Seq<char>)>)
    requires
        chain_valid(start),
    ensures
        chain_valid(after_appends(start, entries)),
        after_appends(start, entries).len() == start.len() + entries.len(),
        after_appends(start, entries).take(start.len() as int) == start,
        forall|i: int|
            start.len() <= i < start.len() + entries.len() ==> {
                let block = #[trigger] after_appends(start, entries)[i];
                &&& block.payload == entries[i - start.len()].0
                &&& block.timestamp == entries[i - start.len()].1
            },
    decreases entries.len(),
{
    let chain = after_appends(start, entries);
    if entries.len() == 0 {
        assert(chain.take(start.len() as int) =~= start);
    } else {
        let shorter = entries.drop_last();
        let before = after_appends(start, shorter);
        lemma_appends_extend_chain(start, shorter);
        lemma_append_extends_chain(before, entries.last().0, entries.last().1);
        lemma_successor_is_valid(before.last(), entries.last().0, entries.last().1);
        assert(chain.take(start.len() as int) =~= before.take(start.len() as int));
        assert forall|i: int| start.len() <= i < start.len() + entries.len() implies {
            let block = #[trigger] chain[i];
            &&& block.payload == entries[i - start.len()].0
            &&& block.timestamp == entries[i - start.len()].1
        } by {
            if i < before.len() {
                assert(chain[i] == before[i]);
                assert(shorter[i - start.len()] == entries[i - start.len()]);
            }
        }
    }
}

/// Appends that run one at a time, in whatever order their callers came to
/// take their turn, leave a chain with one block more per append, without
/// gaps or repeated indices and with every block linked to the one before
/// it. `entries` lists the appends in the order in which they ran.
pub proof fn lemma_appends_in_any_order(start: Seq<BlockView>, entries: Seq<(nat, Seq<char>)>)
    requires
        chain_valid(start),
    ensures
        ({
            let chain = after_appends(start, entries);
            &&& chain_valid(chain)
            &&& chain.len() == start.len() + entries.len()
            &&& chain.take(start.len() as int) == start
            &&& forall|i: int| 0 <= i < chain.len() ==> (#[trigger] chain[i]).index == i
            &&& forall|i: int| 0 <= i < chain.len() ==> is_sealed(#[trigger] chain[i])
            &&& forall|i: int, j: int|
                #![trigger chain[i], chain[j]]
                0 <= i < j < chain.len() ==> chain[i].index != chain[j].index
            &&& forall|i: int, j: int|
                #![trigger chain[i], chain[j]]
                0 <= i && j == i + 1 && j < chain.len() ==> chain[j].index == chain[i].index + 1
                    && chain[j].prev_hash == chain[i].hash
        }),
{
    lemma_appends_extend_chain(start, entries);
    lemma_valid_chain_is_linked(after_appends(start, entries));
}

/// A new ledger after `entries.len()` appends holds one block more than
/// that; their indices are 0, 1, 2, ... in order, strictly increasing, and
/// each block but the first repeats the hash of the block before it.
pub proof fn lemma_monotonic_append(timestamp: Seq<char>, entries: Seq<(nat, Seq<char>)>)
    ensures
        ({
            let chain = after_appends(seq![genesis(timestamp)], entries);
            &&& chain.len() == entries.len() + 1
            &&& chain[0] == genesis(timestamp)
            &&& forall|i: int| 0 <= i < chain.len() ==> (#[trigger] chain[i]).index == i
            &&& forall|i: int, j: int|
                #![trigger chain[i], chain[j]]
                0 <= i < j < chain.len() ==> chain[i].index < chain[j].index
            &&& forall|i: int, j: int|
                #![trigger chain[i], chain[j]]
                0 <= i && j == i + 1 && j < chain.len() ==> chain[j].prev_hash == chain[i].hash
            &&& chain_valid(chain)
        }),
{
    let start = seq![genesis(timestamp)];
    lemma_genesis_is_sealed(timestamp);
    assert(chain_valid(start));
    lemma_appends_extend_chain(start, entries);
    let chain = after_appends(start, entries);
    assert(chain.take(1)[0] == chain[0]);
    lemma_valid_chain_is_linked(chain);
}

} // verus!
