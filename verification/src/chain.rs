//! The ledger: the chain of sealed blocks and the pool of pending transfers.

use crate::block::{
    header_json, transaction_views, Block, BlockView, Blockheader, BlockheaderView, Transaction,
    TransactionView,
};
use crate::digest::{lemma_digest_len, DIGEST_HEX_LEN};
use crate::merkle::merkle_root;
use crate::pow::{
    first_solution, header_hash, lemma_first_solution_kept, lemma_first_solution_unique,
    lemma_zero_difficulty_first_solution, meets_difficulty, solvable, solves, with_nonce,
};
use vstd::prelude::*;
use vstd::string::StringExecFns;

verus! {

/// The reward that a new ledger pays for each block.
pub const INITIAL_REWARD: u64 = 100;

/// Why the ledger refused a request.
#[derive(Debug, Clone, Copy, PartialEq, Eq)]
pub enum ChainError {
    /// The difficulty exceeds the length of a hash, or no nonce meets it.
    InvalidDifficulty,
    /// The amount is negative.
    MalformedAmount,
}

/// A ledger of sealed blocks with the transfers that wait for the next block.
pub struct Chain {
    chain: Vec<Block>,
    curr_trans: Vec<Transaction>,
    difficulty: u32,
    miner_addr: String,
    reward: u64,
}

/// The mathematical model of a [`Chain`].
pub struct ChainView {
    /// The sealed blocks, the genesis block first.
    pub blocks: Seq<BlockView>,
    /// The pending transfers, in the order of their submission.
    pub pending: Seq<TransactionView>,
    /// The difficulty of the next block.
    pub difficulty: nat,
    /// The address that every block's reward goes to.
    pub miner_addr: Seq<char>,
    /// The reward of the next block.
    pub reward: nat,
}

/// The models of a sequence of blocks, in order.
pub open spec fn block_views(blocks: Seq<Block>) -> Seq<BlockView> {
    blocks.map_values(|b: Block| b@)
}

/// What stands for the previous hash in the first block: sixty-four zeros.
pub open spec fn genesis_hash() -> Seq<char> {
    Seq::new(DIGEST_HEX_LEN as nat, |i: int| '0')
}

/// The sender of every reward.
pub open spec fn root_sender() -> Seq<char> {
    "Root"@
}

/// The nonce that seals `h`: the smallest one under which its hash meets its
/// difficulty.
pub open spec fn winning_nonce(h: BlockheaderView) -> nat {
    choose|nonce: nat| first_solution(h, nonce)
}

/// Whether a block of a ledger that pays `miner_addr` is whole: it begins
/// with a reward, counts its transactions, commits to them, and is sealed by
/// the first nonce that meets its difficulty.
pub open spec fn block_wf(b: BlockView, miner_addr: Seq<char>) -> bool {
    &&& b.transactions.len() > 0
    &&& b.count == b.transactions.len()
    &&& b.transactions[0].sender == root_sender()
    &&& b.transactions[0].receiver == miner_addr
    &&& b.header.merkle == merkle_root(b.transactions)
    &&& first_solution(b.header, b.header.nonce)
}

/// Whether each block names the hash of the header before it, and the first
/// block the genesis hash.
pub open spec fn linked(blocks: Seq<BlockView>) -> bool {
    &&& blocks.len() > 0 ==> blocks[0].header.pre_hash == genesis_hash()
    &&& forall|i: int|
        0 < i < blocks.len() ==> (#[trigger] blocks[i]).header.pre_hash == header_hash(
            blocks[i - 1].header,
        )
}

impl ChainView {
    /// A ledger without blocks, as it is before its genesis block is sealed.
    pub open spec fn unsealed(miner_addr: Seq<char>, difficulty: nat) -> ChainView {
        ChainView {
            blocks: Seq::empty(),
            pending: Seq::empty(),
            difficulty,
            miner_addr,
            reward: INITIAL_REWARD as nat,
        }
    }

    /// What creating a ledger at `timestamp` gives: the ledger with its
    /// genesis block, which holds the first reward alone; or the refusal of a
    /// difficulty that exceeds the length of a hash or that no nonce meets.
    pub open spec fn founded(miner_addr: Seq<char>, difficulty: nat, timestamp: int) -> Result<
        ChainView,
        ChainError,
    > {
        let start = ChainView::unsealed(miner_addr, difficulty);
        if difficulty <= DIGEST_HEX_LEN && start.can_seal(timestamp) {
            Ok(start.seal(timestamp))
        } else {
            Err(ChainError::InvalidDifficulty)
        }
    }

    /// What holds of every ledger, with or without blocks.
    pub open spec fn consistent(self) -> bool {
        &&& linked(self.blocks)
        &&& forall|i: int|
            0 <= i < self.blocks.len() ==> block_wf(#[trigger] self.blocks[i], self.miner_addr)
        &&& self.difficulty <= DIGEST_HEX_LEN
        &&& self.pending.len() < u32::MAX
    }

    /// What holds of every ledger once it is made: it is consistent and has
    /// its genesis block.
    pub open spec fn wf(self) -> bool {
        &&& self.consistent()
        &&& self.blocks.len() > 0
    }

    /// The hash that the next block will name as its predecessor.
    pub open spec fn last_hash(self) -> Seq<char> {
        if self.blocks.len() > 0 {
            header_hash(self.blocks.last().header)
        } else {
            genesis_hash()
        }
    }

    /// The reward that opens the next block.
    pub open spec fn reward_transaction(self) -> TransactionView {
        TransactionView {
            sender: root_sender(),
            receiver: self.miner_addr,
            amount: self.reward,
        }
    }

    /// The transactions of the next block: the reward, then the pool.
    pub open spec fn next_transactions(self) -> Seq<TransactionView> {
        seq![self.reward_transaction()] + self.pending
    }

    /// The header of the next block before the search, with nonce zero.
    pub open spec fn next_header(self, timestamp: int) -> BlockheaderView {
        BlockheaderView {
            timestamp,
            nonce: 0,
            pre_hash: self.last_hash(),
            merkle: merkle_root(self.next_transactions()),
            difficulty: self.difficulty,
        }
    }

    /// Whether a block assembled at `timestamp` can be sealed.
    pub open spec fn can_seal(self, timestamp: int) -> bool {
        solvable(self.next_header(timestamp))
    }

    /// The block that sealing at `timestamp` appends, where one can be sealed.
    pub open spec fn next_block(self, timestamp: int) -> BlockView {
        let header = self.next_header(timestamp);
        BlockView {
            header: with_nonce(header, winning_nonce(header)),
            count: self.next_transactions().len(),
            transactions: self.next_transactions(),
        }
    }

    /// The ledger after sealing at `timestamp`: the pool has moved into a new
    /// block behind a reward. Where no nonce seals that block, nothing changes.
    pub open spec fn seal(self, timestamp: int) -> ChainView {
        if self.can_seal(timestamp) {
            ChainView {
                blocks: self.blocks.push(self.next_block(timestamp)),
                pending: Seq::empty(),
                ..self
            }
        } else {
            self
        }
    }

    /// The ledger after `tx` has joined the pool.
    pub open spec fn submit(self, tx: TransactionView) -> ChainView {
        ChainView { pending: self.pending.push(tx), ..self }
    }

    /// The ledger after each of `txs` has joined the pool, the first first.
    pub open spec fn submit_all(self, txs: Seq<TransactionView>) -> ChainView
        decreases txs.len(),
    {
        if txs.len() == 0 {
            self
        } else {
            self.submit_all(txs.drop_last()).submit(txs.last())
        }
    }

    /// Whether the pool has room for one more transfer: a block counts its
    /// transactions, the reward among them, in thirty-two bits.
    pub open spec fn has_room(self) -> bool {
        self.pending.len() + 1 < u32::MAX
    }
}

impl View for Chain {
    type V = ChainView;

    closed spec fn view(&self) -> ChainView {
        ChainView {
            blocks: block_views(self.chain@),
            pending: transaction_views(self.curr_trans@),
            difficulty: self.difficulty as nat,
            miner_addr: self.miner_addr@,
            reward: self.reward as nat,
        }
    }
}

/// The outcome of creating a ledger, with the ledger as its model.
pub open spec fn outcome_view(made: Result<Chain, ChainError>) -> Result<ChainView, ChainError> {
    match made {
        Ok(chain) => Ok(chain@),
        Err(e) => Err(e),
    }
}

/// A solvable header has a first solution, which fits in a header's nonce, and
/// `winning_nonce` names it.
pub proof fn lemma_winning_nonce(h: BlockheaderView)
    requires
        solvable(h),
    ensures
        first_solution(h, winning_nonce(h)),
        winning_nonce(h) <= u32::MAX,
{
    let some = choose|nonce: nat| nonce <= u32::MAX && solves(h, nonce);
    let least = lemma_least_solution(h, some);
    assert(first_solution(h, least));
}

/// Below or at any solution lies a first solution.
proof fn lemma_least_solution(h: BlockheaderView, bound: nat) -> (least: nat)
    requires
        solves(h, bound),
    ensures
        least <= bound,
        first_solution(h, least),
    decreases bound,
{
    if exists|m: nat| m < bound && solves(h, m) {
        let m = choose|m: nat| m < bound && solves(h, m);
        lemma_least_solution(h, m)
    } else {
        bound
    }
}

/// Calls `chrono::Utc::now` and converts the moment with
/// `DateTime::timestamp_millis` to milliseconds since the Unix epoch. Nothing
/// is claimed of the result. `Utc::now` panics where the system clock stands
/// before the epoch.
#[verifier::external_body]
fn now_millis() -> (millis: i64) {
    chrono::Utc::now().timestamp_millis()
}

/// The difficulty, if a hash can meet it.
pub fn check_difficulty(difficulty: u32) -> (checked: Result<u32, ChainError>)
    ensures
        difficulty <= DIGEST_HEX_LEN ==> checked == Ok::<u32, ChainError>(difficulty),
        difficulty > DIGEST_HEX_LEN ==> checked == Err::<u32, ChainError>(
            ChainError::InvalidDifficulty,
        ),
{
    if difficulty <= DIGEST_HEX_LEN {
        Ok(difficulty)
    } else {
        Err(ChainError::InvalidDifficulty)
    }
}

/// The amount as a magnitude, if it is not negative.
pub fn check_amount(amount: i64) -> (checked: Result<u64, ChainError>)
    ensures
        amount >= 0 ==> checked == Ok::<u64, ChainError>(amount as u64),
        amount < 0 ==> checked == Err::<u64, ChainError>(ChainError::MalformedAmount),
{
    if amount >= 0 {
        Ok(amount as u64)
    } else {
        Err(ChainError::MalformedAmount)
    }
}

/// The genesis hash as a string.
fn genesis_string() -> (zeros: String)
    ensures
        zeros@ == genesis_hash(),
{
    let mut zeros = String::new();
    let mut i: u32 = 0;
    while i < DIGEST_HEX_LEN
        invariant
            i <= DIGEST_HEX_LEN,
            zeros@ == Seq::new(i as nat, |k: int| '0'),
        decreases DIGEST_HEX_LEN - i,
    {
        zeros.push('0');
        i = i + 1;
    }
    zeros
}

impl Chain {
    /// Creates a ledger that pays `miner_addr` and seals its genesis block,
    /// which holds the first reward alone, at the present time.
    ///
    /// The difficulty is refused where it exceeds the length of a hash, or
    /// where no nonce meets it for the genesis block.
    pub fn new(miner_addr: String, difficulty: u32) -> (made: Result<Chain, ChainError>)
        ensures
            exists|timestamp: i64|
                outcome_view(made) == #[trigger] ChainView::founded(
                    miner_addr@,
                    difficulty as nat,
                    timestamp as int,
                ),
            difficulty > DIGEST_HEX_LEN ==> made is Err,
            made matches Ok(chain) ==> {
                &&& chain@.wf()
                &&& chain@.blocks.len() == 1
                &&& meets_difficulty(header_hash(chain@.blocks[0].header), difficulty as nat)
            },
    {
        let timestamp: i64 = now_millis();
        Chain::new_at(miner_addr, difficulty, timestamp)
    }

    /// Creates a ledger that pays `miner_addr` and seals its genesis block,
    /// which holds the first reward alone, as assembled at `timestamp`.
    ///
    /// The difficulty is refused where it exceeds the length of a hash, or
    /// where no nonce meets it for the genesis block.
    pub fn new_at(miner_addr: String, difficulty: u32, timestamp: i64) -> (made: Result<
        Chain,
        ChainError,
    >)
        ensures
            outcome_view(made) == ChainView::founded(
                miner_addr@,
                difficulty as nat,
                timestamp as int,
            ),
            made matches Ok(chain) ==> {
                &&& chain@.wf()
                &&& chain@.blocks.len() == 1
                &&& meets_difficulty(header_hash(chain@.blocks[0].header), difficulty as nat)
            },
    {
        match check_difficulty(difficulty) {
            Err(e) => Err(e),
            Ok(difficulty) => {
                let ghost miner = miner_addr@;
                let mut chain = Chain {
                    chain: Vec::new(),
                    curr_trans: Vec::new(),
                    difficulty,
                    miner_addr,
                    reward: INITIAL_REWARD,
                };
                proof {
                    assert(chain@.blocks =~= Seq::empty());
                    assert(chain@.pending =~= Seq::empty());
                }
                if chain.seal(timestamp) {
                    Ok(chain)
                } else {
                    Err(ChainError::InvalidDifficulty)
                }
            },
        }
    }

    /// Adds a transfer to the end of the pool.
    ///
    /// The transfer is refused, and the ledger left as it was, where the
    /// amount is negative or the pool is full.
    pub fn new_transaction(&mut self, sender: String, receiver: String, amount: i64) -> (ok: bool)
        requires
            old(self)@.wf(),
        ensures
            ok == (amount >= 0 && old(self)@.has_room()),
            ok ==> final(self)@ == old(self)@.submit(
                TransactionView { sender: sender@, receiver: receiver@, amount: amount as nat },
            ),
            !ok ==> final(self)@ == old(self)@,
            final(self)@.wf(),
    {
        match check_amount(amount) {
            Err(_) => false,
            Ok(amount) => {
                if self.curr_trans.len() >= (u32::MAX - 1) as usize {
                    return false;
                }
                let ghost before = self@;
                let transaction = Transaction { sender, receiver, amount };
                self.curr_trans.push(transaction);
                proof {
                    assert(self@.pending =~= before.pending.push(transaction@));
                }
                true
            },
        }
    }

    /// Sets the difficulty of the blocks sealed from now on.
    ///
    /// A difficulty that exceeds the length of a hash is refused, and the
    /// ledger left as it was.
    pub fn update_difficulty(&mut self, difficulty: u32) -> (ok: bool)
        requires
            old(self)@.wf(),
        ensures
            ok == (difficulty <= DIGEST_HEX_LEN),
            ok ==> final(self)@ == (ChainView { difficulty: difficulty as nat, ..old(self)@ }),
            !ok ==> final(self)@ == old(self)@,
            final(self)@.wf(),
    {
        match check_difficulty(difficulty) {
            Err(_) => false,
            Ok(difficulty) => {
                self.difficulty = difficulty;
                true
            },
        }
    }

    /// Sets the reward of the blocks sealed from now on.
    ///
    /// A negative reward is refused, and the ledger left as it was.
    pub fn update_reward(&mut self, reward: i64) -> (ok: bool)
        requires
            old(self)@.wf(),
        ensures
            ok == (reward >= 0),
            ok ==> final(self)@ == (ChainView { reward: reward as nat, ..old(self)@ }),
            !ok ==> final(self)@ == old(self)@,
            final(self)@.wf(),
    {
        match check_amount(reward) {
            Err(_) => false,
            Ok(reward) => {
                self.reward = reward;
                true
            },
        }
    }

    /// Seals the pool into a new block at the present time: a reward to the
    /// miner, then the pending transfers in the order of their submission.
    ///
    /// Returns `false`, with the ledger as it was, where no nonce meets the
    /// difficulty for that block.
    pub fn generate_new_block(&mut self) -> (ok: bool)
        requires
            old(self)@.wf(),
        ensures
            exists|timestamp: i64|
                {
                    &&& ok == old(self)@.can_seal(timestamp as int)
                    &&& final(self)@ == #[trigger] old(self)@.seal(timestamp as int)
                },
            ok ==> final(self)@.blocks.len() == old(self)@.blocks.len() + 1,
            ok ==> final(self)@.pending.len() == 0,
            !ok ==> final(self)@ == old(self)@,
            final(self)@.wf(),
    {
        let timestamp: i64 = now_millis();
        self.generate_block_at(timestamp)
    }

    /// Seals the pool into a new block as assembled at `timestamp`: a reward
    /// to the miner, then the pending transfers in the order of their
    /// submission.
    ///
    /// Returns `false`, with the ledger as it was, where no nonce meets the
    /// difficulty for that block.
    pub fn generate_block_at(&mut self, timestamp: i64) -> (ok: bool)
        requires
            old(self)@.wf(),
        ensures
            ok == old(self)@.can_seal(timestamp as int),
            final(self)@ == old(self)@.seal(timestamp as int),
            final(self)@.wf(),
    {
        self.seal(timestamp)
    }

    /// The sealed blocks, the genesis block first.
    pub fn blocks(&self) -> (blocks: &Vec<Block>)
        ensures
            block_views(blocks@) == self@.blocks,
    {
        &self.chain
    }

    /// The pending transfers, in the order of their submission.
    pub fn pending(&self) -> (pending: &Vec<Transaction>)
        ensures
            transaction_views(pending@) == self@.pending,
    {
        &self.curr_trans
    }

    /// The difficulty of the next block.
    pub fn difficulty(&self) -> (difficulty: u32)
        ensures
            difficulty == self@.difficulty,
    {
        self.difficulty
    }

    /// The reward of the next block.
    pub fn reward(&self) -> (reward: u64)
        ensures
            reward == self@.reward,
    {
        self.reward
    }

    /// The address that every block's reward goes to.
    pub fn miner_addr(&self) -> (miner_addr: &String)
        ensures
            miner_addr@ == self@.miner_addr,
    {
        &self.miner_addr
    }

    /// Gets the hash of the last block's header, or the genesis hash if the
    /// chain has no block.
    pub fn last_hash(&self) -> (hash: String)
        ensures
            hash@ == self@.last_hash(),
    {
        let len: usize = self.chain.len();
        if len > 0 {
            Chain::hash(&self.chain[len - 1].header)
        } else {
            genesis_string()
        }
    }

    /// Seals the pool into a new block behind a reward, at `timestamp`.
    fn seal(&mut self, timestamp: i64) -> (ok: bool)
        requires
            old(self)@.consistent(),
        ensures
            ok == old(self)@.can_seal(timestamp as int),
            final(self)@ == old(self)@.seal(timestamp as int),
            final(self)@.consistent(),
    {
        let ghost before = self@;
        let mut header = Blockheader {
            timestamp,
            nonce: 0,
            pre_hash: self.last_hash(),
            merkle: String::new(),
            difficulty: self.difficulty,
        };
        let reward_trans = Transaction {
            sender: String::from_str("Root"),
            receiver: self.miner_addr.clone(),
            amount: self.reward,
        };
        let mut transactions: Vec<Transaction> = Vec::new();
        transactions.push(reward_trans);
        transactions.append(&mut self.curr_trans);
        proof {
            assert(transaction_views(transactions@) =~= before.next_transactions());
        }
        let count: u32 = transactions.len() as u32;
        header.merkle = Chain::get_merkle(transactions.as_slice());
        assert(header@ == before.next_header(timestamp as int));
        if Chain::proof_of_work(&mut header) {
            proof {
                let start = before.next_header(timestamp as int);
                lemma_winning_nonce(start);
                lemma_first_solution_kept(start, winning_nonce(start));
            }
            let block = Block { header, count, transactions };
            assert(block@ == before.next_block(timestamp as int));
            self.chain.push(block);
            proof {
                assert(block_views(self.chain@) =~= before.blocks.push(block@));
                assert(transaction_views(self.curr_trans@) =~= Seq::empty());
                assert(block_wf(block@, before.miner_addr));
            }
            true
        } else {
            let mut pending = transactions.split_off(1);
            self.curr_trans.append(&mut pending);
            proof {
                assert(transaction_views(self.curr_trans@) =~= before.pending);
            }
            false
        }
    }
}

/// Submissions only lengthen the pool, in their order.
pub proof fn lemma_submit_all(c: ChainView, txs: Seq<TransactionView>)
    ensures
        c.submit_all(txs) == (ChainView { pending: c.pending + txs, ..c }),
    decreases txs.len(),
{
    if txs.len() == 0 {
        assert(c.pending + txs =~= c.pending);
    } else {
        lemma_submit_all(c, txs.drop_last());
        assert((c.pending + txs.drop_last()).push(txs.last()) =~= c.pending + txs);
    }
}

/// A block sealed after some submissions holds the reward, then what the pool
/// held before them, then the submitted transactions in their order, and it
/// counts them all. After `n` submissions to an empty pool the block counts
/// `n + 1` transactions: the reward and the `n` in their order.
pub proof fn lemma_seal_after_submissions(c: ChainView, txs: Seq<TransactionView>, timestamp: int)
    requires
        c.submit_all(txs).can_seal(timestamp),
    ensures
        ({
            let sealed = c.submit_all(txs).seal(timestamp);
            let block = sealed.blocks.last();
            &&& sealed.blocks.len() == c.blocks.len() + 1
            &&& sealed.blocks.drop_last() == c.blocks
            &&& sealed.pending.len() == 0
            &&& block.transactions == seq![c.reward_transaction()] + c.pending + txs
            &&& block.count == 1 + c.pending.len() + txs.len()
            &&& c.pending.len() == 0 ==> {
                &&& block.count == txs.len() + 1
                &&& block.transactions == seq![c.reward_transaction()] + txs
            }
        }),
{
    lemma_submit_all(c, txs);
    let full = c.submit_all(txs);
    let sealed = full.seal(timestamp);
    assert(sealed.blocks.drop_last() =~= c.blocks);
    assert(full.next_transactions() =~= seq![c.reward_transaction()] + c.pending + txs);
    if c.pending.len() == 0 {
        assert(seq![c.reward_transaction()] + c.pending + txs =~= seq![c.reward_transaction()]
            + txs);
    }
}

/// In a ledger every block after the first names the hash of the header
/// before it.
pub proof fn lemma_chain_linked(c: ChainView, i: int)
    requires
        c.wf(),
        0 < i < c.blocks.len(),
    ensures
        c.blocks[i].header.pre_hash == header_hash(c.blocks[i - 1].header),
{
}

/// In a ledger the hash of every block's header begins with as many zeros as
/// the block's difficulty, which is at most the length of a hash.
pub proof fn lemma_blocks_meet_difficulty(c: ChainView, i: int)
    requires
        c.wf(),
        0 <= i < c.blocks.len(),
    ensures
        meets_difficulty(header_hash(c.blocks[i].header), c.blocks[i].header.difficulty),
        c.blocks[i].header.difficulty <= DIGEST_HEX_LEN,
{
    let h = c.blocks[i].header;
    assert(block_wf(c.blocks[i], c.miner_addr));
    assert(with_nonce(h, h.nonce) == h);
    lemma_digest_len(header_json(h));
}

/// Sealing keeps a ledger whole and never touches the blocks it has.
pub proof fn lemma_seal_keeps_blocks(c: ChainView, timestamp: int)
    requires
        c.wf(),
    ensures
        c.seal(timestamp).wf(),
        c.seal(timestamp).blocks.len() >= c.blocks.len(),
        c.seal(timestamp).blocks.take(c.blocks.len() as int) == c.blocks,
{
    let after = c.seal(timestamp);
    if c.can_seal(timestamp) {
        let start = c.next_header(timestamp);
        lemma_winning_nonce(start);
        lemma_first_solution_kept(start, winning_nonce(start));
        assert(after.blocks.take(c.blocks.len() as int) =~= c.blocks);
        assert forall|i: int| 0 <= i < after.blocks.len() implies block_wf(
            #[trigger] after.blocks[i],
            after.miner_addr,
        ) by {
            if i < c.blocks.len() {
                assert(after.blocks[i] == c.blocks[i]);
            }
        }
        assert forall|i: int| 0 < i < after.blocks.len() implies (#[trigger] after.blocks[i]).header.pre_hash
            == header_hash(after.blocks[i - 1].header) by {
            if i < c.blocks.len() {
                assert(after.blocks[i] == c.blocks[i]);
                assert(after.blocks[i - 1] == c.blocks[i - 1]);
            }
        }
    } else {
        assert(after.blocks.take(c.blocks.len() as int) =~= c.blocks);
    }
}

/// With difficulty zero every block can be sealed, and is sealed with the
/// nonce zero.
pub proof fn lemma_zero_difficulty_seals(c: ChainView, timestamp: int)
    requires
        c.difficulty == 0,
    ensures
        c.can_seal(timestamp),
        c.seal(timestamp).blocks.last().header.nonce == 0,
        c.seal(timestamp).blocks.len() == c.blocks.len() + 1,
{
    let start = c.next_header(timestamp);
    lemma_zero_difficulty_first_solution(start);
    assert(solves(start, 0));
    lemma_winning_nonce(start);
    lemma_first_solution_unique(start, 0, winning_nonce(start));
}

} // verus!
