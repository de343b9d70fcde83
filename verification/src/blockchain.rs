use vstd::prelude::*;
use crate::block::{block_digest, Block, BlockHeader};
use crate::error::CoreError;
use crate::transaction::Transaction;
use crate::wire::bytes_equal;
use crate::xcqa_sig::XcqaSignature;

verus! {

/// The target time between blocks, in seconds.
pub const TARGET_BLOCK_TIME: u64 = 10;

/// The number of latest blocks that the retargeting looks at.
pub const ADJUSTMENT_WINDOW: usize = 10;

/// The lowest fine difficulty.
pub const MIN_FINE: u8 = 1;

/// The highest fine difficulty.
pub const MAX_FINE: u8 = 8;

/// The chain invariant: at least the genesis block; the block at position
/// `i` has height `i`; and each block after the first names the hash of the
/// block before it.
pub open spec fn linked(blocks: Seq<Block>) -> bool {
    &&& blocks.len() >= 1
    &&& forall|i: int| 0 <= i < blocks.len() ==> (#[trigger] blocks[i]).header.height == i
    &&& forall|i: int|
        1 <= i < blocks.len() ==> (#[trigger] blocks[i]).header.prev_hash@ == block_digest(
            blocks[i - 1].header,
        )
}

/// The balance that a table holds for an account: that of the first entry
/// for the account, zero where there is none.
pub open spec fn balance_in(table: Seq<([u8; 32], u64)>, account: Seq<u8>) -> u64
    decreases table.len(),
{
    if table.len() == 0 {
        0
    } else if table[0].0@ == account {
        table[0].1
    } else {
        balance_in(table.skip(1), account)
    }
}

/// Whether some transaction's sender has no balance.
pub open spec fn some_sender_unfunded(table: Seq<([u8; 32], u64)>, txs: Seq<Transaction>) -> bool {
    exists|i: int| 0 <= i < txs.len() && balance_in(table, (#[trigger] txs[i]).sender@) == 0
}

/// Why a block is refused.
pub enum Refusal {
    /// The block itself is at fault.
    Block(Seq<char>),
    /// One of its transactions is at fault.
    Transaction(Seq<char>),
}

/// Why a block cannot be appended, if it cannot: its height must be one
/// more than the chain's, its previous hash must be the hash of the latest
/// block, and every sender must have a balance.
pub open spec fn append_refusal(
    blocks: Seq<Block>,
    table: Seq<([u8; 32], u64)>,
    block: Block,
) -> Option<Refusal> {
    if block.header.height != blocks.len() {
        Some(Refusal::Block("Invalid height"@))
    } else if block.header.prev_hash@ != block_digest(blocks.last().header) {
        Some(Refusal::Block("Invalid previous hash"@))
    } else if some_sender_unfunded(table, block.transactions@) {
        Some(Refusal::Transaction("Insufficient balance"@))
    } else {
        None
    }
}

/// The result that goes with a refusal.
pub open spec fn is_append_result(res: Result<(), CoreError>, refusal: Option<Refusal>) -> bool {
    match refusal {
        None => res is Ok,
        Some(Refusal::Block(reason)) => res matches Err(CoreError::InvalidBlock(msg)) && msg@
            == reason,
        Some(Refusal::Transaction(reason)) => res matches Err(CoreError::InvalidTransaction(msg))
            && msg@ == reason,
    }
}

/// One retargeting step on the average block time of the window: under
/// eight seconds the fine difficulty rises, and on reaching 8 carries into
/// the tier and restarts at 1; over twelve seconds it falls, and at 1
/// borrows from the tier and restarts at 8; in between nothing changes. The
/// tier saturates at 255.
pub open spec fn retarget_spec(avg_time: u64, tier: u8, fine: u8) -> (u8, u8) {
    if avg_time < TARGET_BLOCK_TIME * 8 / 10 {
        let raised: int = if fine + 1 < 8 {
            fine + 1
        } else {
            8
        };
        if raised == 8 {
            (if tier < 255 { (tier + 1) as u8 } else { 255u8 }, 1u8)
        } else {
            (tier, raised as u8)
        }
    } else if avg_time > TARGET_BLOCK_TIME * 12 / 10 {
        if fine > 1 {
            (tier, (fine - 1) as u8)
        } else if tier > 0 {
            ((tier - 1) as u8, 8u8)
        } else {
            (tier, fine)
        }
    } else {
        (tier, fine)
    }
}

/// The average block time over the latest window of a chain of the given
/// blocks: the time from the window's first block to its last, zero where
/// the last is not later, divided by one less than the window's size.
pub open spec fn window_average(blocks: Seq<Block>) -> u64 {
    let height = blocks.len() - 1;
    let window: int = if height < ADJUSTMENT_WINDOW {
        height
    } else {
        ADJUSTMENT_WINDOW as int
    };
    let first = blocks[blocks.len() - window].header.timestamp;
    let last = blocks.last().header.timestamp;
    let elapsed: int = if last >= first {
        last - first
    } else {
        0
    };
    let spans: int = if window - 1 > 1 {
        window - 1
    } else {
        1
    };
    (elapsed / spans) as u64
}

/// The difficulty of the next block: `(0, 1)` until the chain is two blocks
/// above genesis, then one retargeting step from the latest header.
pub open spec fn next_difficulty(blocks: Seq<Block>) -> (u8, u8) {
    if blocks.len() - 1 < 2 {
        (0u8, 1u8)
    } else {
        retarget_spec(
            window_average(blocks),
            blocks.last().header.difficulty_tier,
            blocks.last().header.fine_difficulty,
        )
    }
}

/// One retargeting step.
pub fn retarget(avg_time: u64, tier: u8, fine: u8) -> (next: (u8, u8))
    ensures
        next == retarget_spec(avg_time, tier, fine),
        MIN_FINE <= fine <= MAX_FINE ==> MIN_FINE <= next.1 <= MAX_FINE,
{
    if avg_time < TARGET_BLOCK_TIME * 8 / 10 {
        let raised: u8 = if fine < 7 {
            fine + 1
        } else {
            8
        };
        if raised == 8 {
            (tier.saturating_add(1), 1)
        } else {
            (tier, raised)
        }
    } else if avg_time > TARGET_BLOCK_TIME * 12 / 10 {
        if fine > 1 {
            (tier, fine - 1)
        } else if tier > 0 {
            (tier - 1, 8)
        } else {
            (tier, fine)
        }
    } else {
        (tier, fine)
    }
}

/// The append-only chain: blocks from genesis on, the current height, and
/// the balance table.
pub struct Blockchain {
    blocks: Vec<Block>,
    height: u64,
    balances: Vec<([u8; 32], u64)>,
}

impl Blockchain {
    /// The blocks of the chain, genesis first.
    pub closed spec fn blocks(&self) -> Seq<Block> {
        self.blocks@
    }

    /// The balance table.
    pub closed spec fn balances(&self) -> Seq<([u8; 32], u64)> {
        self.balances@
    }

    /// The current height, as stored.
    pub closed spec fn stored_height(&self) -> u64 {
        self.height
    }

    /// The chain invariant holds, and the stored height is the position of
    /// the latest block.
    pub open spec fn wf(&self) -> bool {
        &&& linked(self.blocks())
        &&& self.stored_height() == self.blocks().len() - 1
    }

    /// A chain that holds the genesis block alone, with no balances.
    pub fn new(genesis: Block) -> (chain: Self)
        requires
            genesis.header.height == 0,
        ensures
            chain.wf(),
            chain.blocks() == seq![genesis],
            chain.balances().len() == 0,
    {
        let mut blocks: Vec<Block> = Vec::new();
        blocks.push(genesis);
        let chain = Blockchain { blocks, height: 0, balances: Vec::new() };
        assert(chain.blocks@ =~= seq![genesis]);
        chain
    }

    /// The genesis block: height 0, an all-zero previous hash, time 0,
    /// difficulty `(0, 1)`, no transactions, and an empty proof of work.
    pub fn genesis() -> (block: Block)
        ensures
            block.header.height == 0,
            block.header.prev_hash@ == Seq::new(64, |i: int| 0u8),
            block.header.timestamp == 0,
            block.header.difficulty_tier == 0,
            block.header.fine_difficulty == 1,
            block.transactions@.len() == 0,
            block.xcqa_sig.commitment@.len() == 0,
            block.xcqa_sig.response@.len() == 0,
            block.xcqa_nonce@ == Seq::new(32, |i: int| 0u8),
    {
        let block = Block {
            header: BlockHeader {
                height: 0,
                prev_hash: [0u8; 64],
                timestamp: 0,
                difficulty_tier: 0,
                fine_difficulty: 1,
            },
            transactions: Vec::new(),
            xcqa_sig: XcqaSignature { commitment: Vec::new(), response: Vec::new() },
            xcqa_nonce: [0u8; 32],
        };
        assert(block.header.prev_hash@ =~= Seq::new(64, |i: int| 0u8));
        assert(block.xcqa_nonce@ =~= Seq::new(32, |i: int| 0u8));
        block
    }

    /// The balance of an account: zero unless the table holds one.
    pub fn balance_of(&self, account: &[u8; 32]) -> (balance: u64)
        ensures
            balance == balance_in(self.balances(), account@),
    {
        let mut i: usize = 0;
        assert(self.balances@.skip(0) =~= self.balances@);
        while i < self.balances.len()
            invariant
                i <= self.balances.len(),
                balance_in(self.balances@, account@) == balance_in(
                    self.balances@.skip(i as int),
                    account@,
                ),
            decreases self.balances.len() - i,
        {
            let ghost rest = self.balances@.skip(i as int);
            assert(rest[0] == self.balances@[i as int]);
            assert(rest.skip(1) =~= self.balances@.skip(i + 1));
            if bytes_equal(self.balances[i].0.as_slice(), account.as_slice()) {
                return self.balances[i].1;
            }
            i += 1;
        }
        0
    }

    /// Appends a block, or refuses it and leaves the chain as it was.
    pub fn add_block(&mut self, block: Block) -> (res: Result<(), CoreError>)
        requires
            old(self).wf(),
        ensures
            final(self).wf(),
            is_append_result(res, append_refusal(old(self).blocks(), old(self).balances(), block)),
            final(self).balances() == old(self).balances(),
            res is Ok ==> final(self).blocks() == old(self).blocks().push(block),
            res is Ok ==> final(self).stored_height() == old(self).stored_height() + 1,
            res is Err ==> final(self).blocks() == old(self).blocks(),
            res is Err ==> final(self).stored_height() == old(self).stored_height(),
    {
        let len = self.blocks.len();
        assert(self.height == len - 1);
        if block.header.height != self.height + 1 {
            return Err(CoreError::InvalidBlock("Invalid height".to_string()));
        }
        let latest_hash = self.latest_block().hash();
        if !bytes_equal(block.header.prev_hash.as_slice(), latest_hash.as_slice()) {
            return Err(CoreError::InvalidBlock("Invalid previous hash".to_string()));
        }
        let mut i: usize = 0;
        while i < block.transactions.len()
            invariant
                i <= block.transactions.len(),
                *self == *old(self),
                old(self).wf(),
                block.header.height == old(self).blocks().len(),
                block.header.prev_hash@ == block_digest(old(self).blocks().last().header),
                forall|t: int|
                    0 <= t < i ==> balance_in(self.balances(), (#[trigger] block.transactions[t]).sender@)
                        != 0,
            decreases block.transactions.len() - i,
        {
            let sender_balance = self.balance_of(&block.transactions[i].sender);
            if sender_balance == 0 {
                assert(some_sender_unfunded(self.balances(), block.transactions@));
                return Err(CoreError::InvalidTransaction("Insufficient balance".to_string()));
            }
            i += 1;
        }
        let ghost before = self.blocks@;
        self.height += 1;
        self.blocks.push(block);
        proof {
            assert(self.blocks@ =~= before.push(block));
            assert forall|k: int| 0 <= k < self.blocks@.len() implies (#[trigger] self.blocks@[k]).header.height
                == k by {
                if k < before.len() {
                    assert(self.blocks@[k] == before[k]);
                }
            }
            assert forall|k: int| 1 <= k < self.blocks@.len() implies (
            #[trigger] self.blocks@[k]).header.prev_hash@ == block_digest(
                self.blocks@[k - 1].header,
            ) by {
                assert(self.blocks@[k - 1] == before[k - 1]);
                if k < before.len() {
                    assert(self.blocks@[k] == before[k]);
                }
            }
        }
        Ok(())
    }

    /// The latest block.
    pub fn latest_block(&self) -> (block: &Block)
        requires
            self.wf(),
        ensures
            *block == self.blocks().last(),
    {
        &self.blocks[self.blocks.len() - 1]
    }

    /// The current height: the number of blocks above genesis.
    pub fn height(&self) -> (h: u64)
        ensures
            h == self.stored_height(),
            self.wf() ==> h == self.blocks().len() - 1,
    {
        self.height
    }

    /// The difficulty `(tier, fine)` that the next block is to be mined at.
    pub fn calculate_next_difficulty(&self) -> (next: (u8, u8))
        requires
            self.wf(),
        ensures
            next == next_difficulty(self.blocks()),
            MIN_FINE <= self.blocks().last().header.fine_difficulty <= MAX_FINE ==> MIN_FINE
                <= next.1 <= MAX_FINE,
    {
        if self.height < 2 {
            return (0, 1);
        }
        let len = self.blocks.len();
        let above: usize = len - 1;
        let window_size: usize = if above < ADJUSTMENT_WINDOW {
            above
        } else {
            ADJUSTMENT_WINDOW
        };
        let first_ts = self.blocks[len - window_size].header.timestamp;
        let last_ts = self.blocks[len - 1].header.timestamp;
        let time_diff: u64 = if last_ts >= first_ts {
            last_ts - first_ts
        } else {
            0
        };
        let spans: u64 = if window_size - 1 > 1 {
            (window_size - 1) as u64
        } else {
            1
        };
        let avg_time = time_diff / spans;
        let current = &self.blocks[len - 1].header;
        retarget(avg_time, current.difficulty_tier, current.fine_difficulty)
    }

    /// The header of the block to mine next at a given time: one above the
    /// current height, naming the hash of the latest block, at the
    /// difficulty that retargeting gives.
    pub fn next_header(&self, timestamp: u64) -> (header: BlockHeader)
        requires
            self.wf(),
        ensures
            header.height == self.stored_height() + 1,
            header.prev_hash@ == block_digest(self.blocks().last().header),
            header.timestamp == timestamp,
            (header.difficulty_tier, header.fine_difficulty) == next_difficulty(self.blocks()),
    {
        let next = self.calculate_next_difficulty();
        let len = self.blocks.len();
        assert(self.height == len - 1);
        let prev_hash = self.latest_block().hash();
        BlockHeader {
            height: self.height + 1,
            prev_hash,
            timestamp,
            difficulty_tier: next.0,
            fine_difficulty: next.1,
        }
    }
}

/// A block is appended exactly where nothing refuses it, and then the
/// height rises by one; a block whose height is not one above the chain's
/// is refused.
pub proof fn lemma_append_needs_next_height(chain: Blockchain, block: Block)
    requires
        chain.wf(),
    ensures
        block.header.height != chain.stored_height() + 1 ==> append_refusal(
            chain.blocks(),
            chain.balances(),
            block,
        ) == Some(Refusal::Block("Invalid height"@)),
        append_refusal(chain.blocks(), chain.balances(), block) is None ==> block.header.height
            == chain.stored_height() + 1,
{
}

/// Retargeting keeps the fine difficulty between 1 and 8 wherever the
/// latest header has it there, and the tier within a byte.
pub proof fn lemma_retarget_bounds(avg_time: u64, tier: u8, fine: u8)
    requires
        MIN_FINE <= fine <= MAX_FINE,
    ensures
        MIN_FINE <= retarget_spec(avg_time, tier, fine).1 <= MAX_FINE,
        retarget_spec(avg_time, tier, fine).0 <= u8::MAX,
{
}

} // verus!
