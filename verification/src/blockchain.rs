//! The chain: an append-only run of sealed blocks, each on top of the one
//! before, and what is looked up in it.

use vstd::prelude::*;
use vstd::string::*;
use crate::block::{
    block_models, clone_transactions, is_sealed, mining_can_fail, Block, BlockModel, GenesisError,
};
use crate::hashing::pub_key_hash_of;
use crate::proof_of_work::ProofOfWork;
use crate::transaction::{
    find_by_id, is_coinbase_model, position_by_id, signed_model, transaction_models, verifies,
    SignError, Transaction, TransactionModel,
};
use crate::utxo_set::{spendable_models, spendable_total, SpendableModel, SpendableOutput};
use crate::utils::HashHex;
use crate::wallet::{stored_public_key, WalletStore};

verus! {

/// Why a chain operation failed.
#[derive(Debug, Clone, Copy, PartialEq, Eq, Structural)]
pub enum ChainError {
    /// No genesis block exists where one is needed.
    ChainMissing,
    /// A genesis block was asked for where one exists.
    ChainAlreadyExists,
    /// No usable wallet is stored under the address.
    WalletNotFound,
    /// The spender cannot cover the amount.
    NotEnoughFunds,
    /// A transaction that is no coinbase failed verification.
    BadTransaction,
    /// An amount of zero, a transfer to oneself, or a malformed address.
    BadRequest,
    /// The store failed.
    StoreError,
    /// No nonce gave a digest below the target.
    PowHashNotFound,
}

/// Why a stored block is not the next of the chain being read.
#[derive(Debug, Clone, Copy, PartialEq, Eq, Structural)]
pub enum ChainFault {
    /// The block's hash is not the one that was asked for.
    WrongBlock,
    /// The block has no transactions, its hash is not the digest of its
    /// preimage at its nonce, or that digest is not below the target.
    BadProofOfWork,
}

/// Whether block `upper` is on top of the hash of block `lower`.
pub open spec fn is_on_top(blocks: Seq<BlockModel>, upper: int, lower: int) -> bool {
    blocks[upper].prev_hash == blocks[lower].hash
}

/// Whether block `i` is sealed.
pub open spec fn is_sealed_at(blocks: Seq<BlockModel>, i: int) -> bool {
    is_sealed(blocks[i])
}

/// Whether blocks, the genesis block first, form a chain: the first is on
/// top of nothing, each other is on top of the hash of the one before, and
/// all are sealed.
pub open spec fn is_chain(blocks: Seq<BlockModel>) -> bool {
    &&& blocks.len() > 0
    &&& blocks[0].prev_hash.len() == 0
    &&& forall|i: int| 0 < i < blocks.len() ==> #[trigger] is_on_top(blocks, i, i - 1)
    &&& forall|i: int| 0 <= i < blocks.len() ==> #[trigger] is_sealed_at(blocks, i)
}

/// Whether blocks, the newest first, are the upper part of a chain: each is
/// on top of the hash of the next, and all are sealed.
pub open spec fn is_chain_top(blocks: Seq<BlockModel>) -> bool {
    &&& forall|i: int| 0 <= i < blocks.len() - 1 ==> #[trigger] is_on_top(blocks, i, i + 1)
    &&& forall|i: int| 0 <= i < blocks.len() ==> #[trigger] is_sealed_at(blocks, i)
}

/// The transactions of a chain in the order in which they are searched: the
/// newest block's first, each block's in their own order.
pub open spec fn chain_transactions(blocks: Seq<BlockModel>) -> Seq<TransactionModel>
    decreases blocks.len(),
{
    if blocks.len() == 0 {
        Seq::empty()
    } else {
        blocks.last().transactions + chain_transactions(blocks.drop_last())
    }
}

/// In a chain every block after the genesis block is on top of the hash of
/// the block before it, and the digest of every block at its nonce is its
/// hash and is below the target.
pub proof fn lemma_chain_is_linked_and_sealed(blocks: Seq<BlockModel>, i: int)
    requires
        is_chain(blocks),
        0 <= i < blocks.len(),
    ensures
        i > 0 ==> blocks[i].prev_hash == blocks[i - 1].hash,
        i == 0 ==> blocks[i].prev_hash.len() == 0,
        blocks[i].hash == crate::proof_of_work::block_digest(blocks[i], blocks[i].nonce),
        crate::proof_of_work::meets_target(
            crate::proof_of_work::block_digest(blocks[i], blocks[i].nonce),
        ),
{
    assert(is_sealed_at(blocks, i));
    if i > 0 {
        assert(is_on_top(blocks, i, i - 1));
    }
}

/// Whether a chain is a genesis block alone, with one coinbase transaction
/// that rewards the wallet stored under `address`, given as hexadecimal
/// text.
pub open spec fn is_genesis_chain(
    chain: Seq<BlockModel>,
    wallets: Seq<crate::wallet::WalletEntryModel>,
    address: Seq<u8>,
) -> bool {
    &&& chain.len() == 1
    &&& stored_public_key(wallets, address) is Some
    &&& chain[0].transactions == genesis_transactions(wallets, address)
    &&& crate::utils::is_decimal_text(chain[0].timestamp)
    &&& crate::block::mined_model(Seq::empty(), chain[0].transactions, chain[0].timestamp) == Some(
        chain[0],
    )
}

/// The transactions of the genesis block that rewards the wallet stored
/// under `address`, given as hexadecimal text: one coinbase transaction.
pub open spec fn genesis_transactions(
    wallets: Seq<crate::wallet::WalletEntryModel>,
    address: Seq<u8>,
) -> Seq<TransactionModel> {
    seq![
        crate::transaction::coinbase_model(
            stored_public_key(wallets, address).unwrap(),
            "Reward to ".spec_bytes() + address,
        ),
    ]
}

/// The upper part of a chain that reaches down to a block on top of
/// nothing is, read from that block up, a chain.
proof fn lemma_reversed_top_is_chain(top: Seq<BlockModel>)
    requires
        is_chain_top(top),
        top.len() > 0,
        top.last().prev_hash.len() == 0,
    ensures
        is_chain(top.reverse()),
{
    let n = top.len() as int;
    let chain = top.reverse();
    assert(chain.len() == n);
    assert(chain[0] == top[n - 1]);
    assert(is_sealed_at(top, n - 1));
    assert forall|k: int| 0 < k < chain.len() implies #[trigger] is_on_top(chain, k, k - 1) by {
        assert(chain[k] == top[n - 1 - k]);
        assert(chain[k - 1] == top[n - 1 - k + 1]);
        assert(is_on_top(top, n - 1 - k, n - 1 - k + 1));
    }
    assert forall|k: int| 0 <= k < chain.len() implies #[trigger] is_sealed_at(chain, k) by {
        assert(chain[k] == top[n - 1 - k]);
        assert(is_sealed_at(top, n - 1 - k));
    }
}

/// A block whose digest at its nonce is not below the target is not
/// sealed, whatever hash it carries: a reading that comes to it ends there.
pub proof fn lemma_unsealed_nonce_is_refused(block: BlockModel)
    requires
        !crate::proof_of_work::meets_target(
            crate::proof_of_work::block_digest(block, block.nonce),
        ),
    ensures
        !is_sealed(block),
{
}

/// A chain of blocks, the genesis block first.
#[derive(Debug)]
pub struct Blockchain {
    blocks: Vec<Block>,
}

impl View for Blockchain {
    type V = Seq<BlockModel>;

    closed spec fn view(&self) -> Seq<BlockModel> {
        block_models(self.blocks@)
    }
}

/// A chain being read from its newest block down to the genesis block.
#[derive(Debug)]
pub struct ChainCursor {
    wanted: HashHex,
    collected: Vec<Block>,
}

impl ChainCursor {
    #[verifier::type_invariant]
    spec fn collected_is_top(self) -> bool {
        &&& is_chain_top(block_models(self.collected@))
        &&& self.collected@.len() > 0 ==> self.wanted@ == block_models(
            self.collected@,
        ).last().prev_hash
    }

    /// The blocks read so far, the newest first.
    pub closed spec fn read(&self) -> Seq<BlockModel> {
        block_models(self.collected@)
    }

    /// The hash of the block to read next; empty when the genesis block was
    /// read.
    pub closed spec fn next_hash(&self) -> Seq<u8> {
        self.wanted@
    }

    /// A reading that starts at the block with hash `tip`.
    pub fn new(tip: HashHex) -> (cursor: Self)
        ensures
            cursor.read() == Seq::<BlockModel>::empty(),
            cursor.next_hash() == tip@,
    {
        let collected: Vec<Block> = Vec::new();
        assert(block_models(collected@) =~= Seq::<BlockModel>::empty());
        ChainCursor { wanted: tip, collected }
    }

    /// The hash of the block to hand to `accept` next; `None` when the
    /// reading has come to its end.
    pub fn wanted(&self) -> (hash: Option<HashHex>)
        ensures
            match hash {
                Some(h) => h@ == self.next_hash() && h@.len() > 0,
                None => self.next_hash().len() == 0,
            },
    {
        if self.wanted.0.len() == 0 {
            None
        } else {
            Some(self.wanted.clone())
        }
    }

    /// Takes the block stored under the wanted hash and moves on to the
    /// block before it. The block is refused, and the reading is over,
    /// unless it carries the wanted hash, has transactions, and is sealed.
    pub fn accept(self, block: Block) -> (res: Result<ChainCursor, ChainFault>)
        ensures
            match res {
                Ok(cursor) => {
                    &&& cursor.read() == self.read().push(block@)
                    &&& cursor.next_hash() == block@.prev_hash
                    &&& block@.hash == self.next_hash()
                    &&& is_sealed(block@)
                },
                Err(ChainFault::WrongBlock) => block@.hash != self.next_hash(),
                Err(ChainFault::BadProofOfWork) => block@.hash == self.next_hash() && !is_sealed(
                    block@,
                ),
            },
            !crate::proof_of_work::meets_target(
                crate::proof_of_work::block_digest(block@, block@.nonce),
            ) ==> res is Err,
    {
        proof {
            use_type_invariant(&self);
        }
        if !block.hash.same_as(&self.wanted) {
            return Err(ChainFault::WrongBlock);
        }
        if !block_is_sealed(&block) {
            return Err(ChainFault::BadProofOfWork);
        }
        let mut collected = self.collected;
        let ghost before = block_models(collected@);
        let next = block.prev_hash.clone();
        collected.push(block);
        proof {
            let after = block_models(collected@);
            assert(after =~= before.push(block@));
            assert forall|i: int| 0 <= i < after.len() - 1 implies #[trigger] is_on_top(
                after,
                i,
                i + 1,
            ) by {
                if i < before.len() - 1 {
                    assert(after[i] == before[i]);
                    assert(after[i + 1] == before[i + 1]);
                    assert(is_on_top(before, i, i + 1));
                } else {
                    assert(after[i] == before.last());
                }
            }
            assert forall|i: int| 0 <= i < after.len() implies #[trigger] is_sealed_at(after, i) by {
                if i < before.len() {
                    assert(after[i] == before[i]);
                    assert(is_sealed_at(before, i));
                }
            }
        }
        Ok(ChainCursor { wanted: next, collected })
    }

    /// The chain that was read, once the genesis block has been read.
    pub fn finish(self) -> (chain: Option<Blockchain>)
        ensures
            match chain {
                Some(c) => {
                    &&& self.next_hash().len() == 0
                    &&& c@ == self.read().reverse()
                    &&& is_chain(c@)
                },
                None => self.next_hash().len() > 0 || self.read().len() == 0,
            },
    {
        proof {
            use_type_invariant(&self);
        }
        if self.wanted.0.len() != 0 || self.collected.len() == 0 {
            return None;
        }
        let ghost top = block_models(self.collected@);
        let n = self.collected.len();
        let mut blocks: Vec<Block> = Vec::new();
        let mut i: usize = n;
        while i > 0
            invariant
                i <= n,
                n == self.collected@.len(),
                top == block_models(self.collected@),
                blocks@.len() == n - i,
                forall|k: int| 0 <= k < blocks@.len() ==> (#[trigger] blocks@[k])@ == top[n - 1 - k],
            decreases i,
        {
            i -= 1;
            blocks.push(self.collected[i].clone());
        }
        proof {
            assert(block_models(blocks@) =~= top.reverse());
            lemma_reversed_top_is_chain(top);
        }
        Some(Blockchain { blocks })
    }
}

/// Whether a block has transactions, carries the digest of its preimage at
/// its nonce as its hash, and that digest is below the target.
pub fn block_is_sealed(block: &Block) -> (sealed: bool)
    ensures
        sealed == is_sealed(block@),
{
    if block.transactions.len() == 0 {
        return false;
    }
    let proof_of_work = ProofOfWork::new(block);
    if !proof_of_work.validate() {
        return false;
    }
    let digest = proof_of_work.digest();
    digest.same_as(&block.hash)
}

proof fn lemma_chain_transactions_push(blocks: Seq<BlockModel>, block: BlockModel)
    ensures
        chain_transactions(blocks.push(block)) == block.transactions + chain_transactions(blocks),
{
    assert(blocks.push(block).drop_last() == blocks);
}

impl Clone for Blockchain {
    fn clone(&self) -> (res: Self)
        ensures
            res@ == self@,
    {
        proof {
            use_type_invariant(self);
        }
        let mut blocks: Vec<Block> = Vec::new();
        let mut i: usize = 0;
        while i < self.blocks.len()
            invariant
                i <= self.blocks.len(),
                blocks@.len() == i,
                forall|k: int| 0 <= k < i ==> (#[trigger] blocks@[k])@ == self.blocks@[k]@,
            decreases self.blocks.len() - i,
        {
            blocks.push(self.blocks[i].clone());
            i += 1;
        }
        assert(block_models(blocks@) =~= block_models(self.blocks@));
        Blockchain { blocks }
    }
}

impl Blockchain {
    #[verifier::type_invariant]
    spec fn blocks_form_chain(self) -> bool {
        is_chain(block_models(self.blocks@))
    }

    /// Every chain is one: the genesis block is on top of nothing, each
    /// other block is on top of the hash of the one before, and every block
    /// is sealed.
    pub fn is_linked(&self)
        ensures
            is_chain(self@),
    {
        proof {
            use_type_invariant(self);
        }
    }

    /// The chain that exists, or a new one. Where `existing` is a chain it
    /// is returned as it is. Otherwise a genesis block is mined that rewards
    /// the wallet stored under `address`.
    pub fn new(address: Option<&str>, existing: Option<Blockchain>, wallets: &WalletStore) -> (res:
        Result<Blockchain, ChainError>)
        ensures
            match res {
                Ok(chain) => is_chain(chain@) && match existing {
                    Some(old_chain) => chain@ == old_chain@,
                    None => address is Some && is_genesis_chain(
                        chain@,
                        wallets@,
                        address.unwrap().spec_bytes(),
                    ),
                },
                Err(ChainError::ChainMissing) => existing is None && address is None,
                Err(ChainError::WalletNotFound) => existing is None && address is Some
                    && stored_public_key(wallets@, address.unwrap().spec_bytes()) is None,
                Err(ChainError::PowHashNotFound) => existing is None && address is Some
                    && stored_public_key(wallets@, address.unwrap().spec_bytes()) is Some
                    && mining_can_fail(
                    Seq::empty(),
                    genesis_transactions(wallets@, address.unwrap().spec_bytes()),
                ),
                Err(_) => false,
            },
    {
        match existing {
            Some(chain) => {
                chain.is_linked();
                Ok(chain)
            },
            None => {
                let address = match address {
                    Some(a) => a,
                    None => {
                        return Err(ChainError::ChainMissing);
                    },
                };
                match Block::new_genesis(address, wallets) {
                    Ok(genesis) => {
                        let mut blocks: Vec<Block> = Vec::new();
                        blocks.push(genesis);
                        assert(block_models(blocks@) =~= seq![genesis@]);
                        assert(block_models(blocks@)[0] == genesis@);
                        assert(genesis@.prev_hash =~= Seq::<u8>::empty());
                        Ok(Blockchain { blocks })
                    },
                    Err(GenesisError::WalletNotFound) => Err(ChainError::WalletNotFound),
                    Err(GenesisError::HashNotFound) => Err(ChainError::PowHashNotFound),
                }
            },
        }
    }

    /// Whether `new_block` can follow `previous`: it is on top of its hash
    /// and sealed.
    pub fn validate_block(new_block: &Block, previous: &Block) -> (valid: bool)
        ensures
            valid == (new_block@.prev_hash == previous@.hash && is_sealed(new_block@)),
    {
        new_block.prev_hash.same_as(&previous.hash) && block_is_sealed(new_block)
    }

    /// Whether a chain exists.
    pub fn chain_exists(existing: &Option<Blockchain>) -> (present: bool)
        ensures
            present == existing is Some,
    {
        existing.is_some()
    }

    /// The hash of the newest block.
    pub fn tip(&self) -> (hash: HashHex)
        ensures
            is_chain(self@),
            hash@ == self@.last().hash,
    {
        proof {
            use_type_invariant(self);
        }
        let n = self.blocks.len();
        assert(self@.last() == self.blocks@[n - 1]@);
        self.blocks[n - 1].hash.clone()
    }

    /// The number of blocks.
    pub fn len(&self) -> (n: usize)
        ensures
            n == self@.len(),
    {
        self.blocks.len()
    }

    /// The blocks from the newest to the genesis block.
    pub fn blocks_from_tip(&self) -> (list: Vec<Block>)
        ensures
            block_models(list@) == self@.reverse(),
    {
        let n = self.blocks.len();
        let mut list: Vec<Block> = Vec::new();
        let mut i: usize = n;
        while i > 0
            invariant
                i <= n,
                n == self.blocks@.len(),
                list@.len() == n - i,
                forall|k: int|
                    0 <= k < list@.len() ==> (#[trigger] list@[k])@ == self.blocks@[n - 1 - k]@,
            decreases i,
        {
            i -= 1;
            list.push(self.blocks[i].clone());
        }
        assert(block_models(list@) =~= self@.reverse());
        list
    }

    /// The blocks that follow the first `known` ones, the oldest first:
    /// what a store that holds the first `known` blocks lacks.
    pub fn blocks_since(&self, known: usize) -> (list: Vec<Block>)
        ensures
            block_models(list@) == if known <= self@.len() {
                self@.skip(known as int)
            } else {
                Seq::empty()
            },
    {
        let mut list: Vec<Block> = Vec::new();
        if known > self.blocks.len() {
            assert(block_models(list@) =~= Seq::<BlockModel>::empty());
            return list;
        }
        let mut i: usize = known;
        while i < self.blocks.len()
            invariant
                known <= i <= self.blocks.len(),
                list@.len() == i - known,
                forall|k: int|
                    0 <= k < list@.len() ==> (#[trigger] list@[k])@ == self.blocks@[known + k]@,
            decreases self.blocks.len() - i,
        {
            list.push(self.blocks[i].clone());
            i += 1;
        }
        assert(block_models(list@) =~= self@.skip(known as int));
        list
    }

    /// The transactions of the chain in the order in which they are
    /// searched: the newest block's first.
    pub fn transactions_from_tip(&self) -> (list: Vec<Transaction>)
        ensures
            transaction_models(list@) == chain_transactions(self@),
    {
        let ghost all = self@;
        let mut list: Vec<Transaction> = Vec::new();
        let mut i: usize = self.blocks.len();
        assert(all.subrange(0, i as int) == all);
        assert(transaction_models(list@) =~= Seq::<TransactionModel>::empty());
        while i > 0
            invariant
                i <= self.blocks@.len(),
                all == block_models(self.blocks@),
                chain_transactions(all) == transaction_models(list@) + chain_transactions(
                    all.subrange(0, i as int),
                ),
            decreases i,
        {
            i -= 1;
            let ghost before = transaction_models(list@);
            let mut copy = clone_transactions(self.blocks[i].transactions.as_slice());
            let ghost added = transaction_models(copy@);
            list.append(&mut copy);
            proof {
                let upper = all.subrange(0, i + 1);
                assert(upper.last() == all[i as int]);
                assert(upper.drop_last() == all.subrange(0, i as int));
                assert(all[i as int] == self.blocks@[i as int]@);
                assert(transaction_models(list@) =~= before + added);
            }
        }
        assert(all.subrange(0, 0) =~= Seq::<BlockModel>::empty());
        list
    }

    /// Whether `tx` is valid against the chain: a coinbase is; another is if
    /// every input refers to an output of a transaction of the chain and
    /// carries a signature that the input's own key accepts.
    pub fn verify_transaction(&self, tx: &Transaction) -> (valid: bool)
        ensures
            valid == verifies(tx@, chain_transactions(self@)),
    {
        if tx.is_coinbase() {
            return true;
        }
        let previous = self.transactions_from_tip();
        tx.verify(previous.as_slice())
    }

    /// Signs `tx` with `private_key`, each input over the output of the
    /// chain that it refers to.
    pub fn sign_transaction(&self, tx: &mut Transaction, private_key: &[u8]) -> (res: Result<
        (),
        SignError,
    >)
        ensures
            match res {
                Ok(()) => signed_model(old(tx)@, chain_transactions(self@), private_key@) == Ok::<
                    TransactionModel,
                    SignError,
                >(final(tx)@),
                Err(e) => signed_model(old(tx)@, chain_transactions(self@), private_key@) == Err::<
                    TransactionModel,
                    SignError,
                >(e) && final(tx)@ == old(tx)@,
            },
            res is Ok && (forall|i: int|
                0 <= i < old(tx)@.inputs.len() ==> crate::keys::public_key_of(private_key@) == Some(
                    (#[trigger] old(tx)@.inputs[i]).pub_key,
                )) ==> verifies(final(tx)@, chain_transactions(self@)),
    {
        let previous = self.transactions_from_tip();
        tx.sign(previous.as_slice(), private_key)
    }

    /// The first transaction with the given id, searching from the newest
    /// block down.
    pub fn find_transaction(&self, id: &HashHex) -> (found: Option<Transaction>)
        ensures
            match found {
                Some(tx) => find_by_id(chain_transactions(self@), id@) == Some(tx@),
                None => find_by_id(chain_transactions(self@), id@) is None,
            },
    {
        let all = self.transactions_from_tip();
        match position_by_id(all.as_slice(), id) {
            Some(i) => Some(all[i].clone()),
            None => None,
        }
    }

    /// Mines a block of `transactions` on top of the newest block and
    /// appends it. Every transaction must be valid against the chain as it
    /// stands; on an error the chain is left as it was.
    pub fn add_block(&mut self, transactions: Vec<Transaction>) -> (res: Result<Block, ChainError>)
        requires
            transactions@.len() > 0,
        ensures
            is_chain(old(self)@),
            is_chain(final(self)@),
            match res {
                Ok(block) => {
                    &&& final(self)@ == old(self)@.push(block@)
                    &&& block@.prev_hash == old(self)@.last().hash
                    &&& block@.transactions == transaction_models(transactions@)
                    &&& is_sealed(block@)
                    &&& crate::utils::is_decimal_text(block@.timestamp)
                    &&& crate::block::mined_model(
                        block@.prev_hash,
                        block@.transactions,
                        block@.timestamp,
                    ) == Some(block@)
                    &&& forall|i: int|
                        0 <= i < transactions@.len() ==> verifies(
                            #[trigger] transactions@[i]@,
                            chain_transactions(old(self)@),
                        )
                },
                Err(ChainError::BadTransaction) => final(self)@ == old(self)@ && exists|i: int|
                    0 <= i < transactions@.len() && !verifies(
                        #[trigger] transactions@[i]@,
                        chain_transactions(old(self)@),
                    ),
                Err(ChainError::PowHashNotFound) => final(self)@ == old(self)@ && (forall|i: int|
                    0 <= i < transactions@.len() ==> verifies(
                        #[trigger] transactions@[i]@,
                        chain_transactions(old(self)@),
                    )) && mining_can_fail(
                    old(self)@.last().hash,
                    transaction_models(transactions@),
                ),
                Err(_) => false,
            },
    {
        proof {
            use_type_invariant(&*self);
        }
        let last_hash = self.tip();
        let previous = self.transactions_from_tip();
        let mut i: usize = 0;
        while i < transactions.len()
            invariant
                i <= transactions.len(),
                self@ == old(self)@,
                is_chain(self@),
                transaction_models(previous@) == chain_transactions(self@),
                forall|k: int|
                    0 <= k < i ==> verifies(#[trigger] transactions@[k]@, chain_transactions(self@)),
            decreases transactions.len() - i,
        {
            if !transactions[i].verify(previous.as_slice()) {
                return Err(ChainError::BadTransaction);
            }
            i += 1;
        }
        let new_block = match Block::new(last_hash, transactions) {
            Ok(block) => block,
            Err(_) => {
                return Err(ChainError::PowHashNotFound);
            },
        };
        let committed = new_block.clone();
        let mut blocks = self.clone().blocks;
        let ghost before = block_models(blocks@);
        assert(before == self@);
        proof {
            let after = before.push(new_block@);
            assert forall|k: int| 0 < k < after.len() implies #[trigger] is_on_top(after, k, k - 1) by {
                if k < before.len() {
                    assert(after[k] == before[k]);
                    assert(after[k - 1] == before[k - 1]);
                    assert(is_on_top(before, k, k - 1));
                } else {
                    assert(after[k - 1] == before.last());
                }
            }
            assert forall|k: int| 0 <= k < after.len() implies #[trigger] is_sealed_at(after, k) by {
                if k < before.len() {
                    assert(after[k] == before[k]);
                    assert(is_sealed_at(before, k));
                }
            }
            assert(after[0] == before[0]);
            assert(block_models(blocks@.push(new_block)) =~= after);
        }
        blocks.push(new_block);
        self.blocks = blocks;
        Ok(committed)
    }
}

/// A reference to an output: a transaction id and a position.
pub struct OutPointModel {
    pub tx_id: Seq<u8>,
    pub index: int,
}

/// A reference to an output that an input spent.
#[derive(Debug)]
pub struct OutPoint {
    pub tx_id: HashHex,
    pub index: i32,
}

impl View for OutPoint {
    type V = OutPointModel;

    open spec fn view(&self) -> OutPointModel {
        OutPointModel { tx_id: self.tx_id@, index: self.index as int }
    }
}

/// The models of a row of references.
pub open spec fn out_point_models(points: Seq<OutPoint>) -> Seq<OutPointModel> {
    points.map_values(|point: OutPoint| point@)
}

/// The outputs that the first `n` inputs of `tx` spend with the key whose
/// hash is `pub_key_hash`.
pub open spec fn spent_by_inputs(tx: TransactionModel, pub_key_hash: Seq<u8>, n: nat) -> Seq<
    OutPointModel,
>
    decreases n,
{
    if n == 0 {
        Seq::empty()
    } else {
        let earlier = spent_by_inputs(tx, pub_key_hash, (n - 1) as nat);
        let input = tx.inputs[n - 1];
        if pub_key_hash_of(input.pub_key) == pub_key_hash {
            earlier.push(OutPointModel { tx_id: input.tx_id, index: input.output_index as int })
        } else {
            earlier
        }
    }
}

/// The outputs that `tx` spends with the key whose hash is `pub_key_hash`;
/// a coinbase spends none.
pub open spec fn spent_by(tx: TransactionModel, pub_key_hash: Seq<u8>) -> Seq<OutPointModel> {
    if is_coinbase_model(tx) {
        Seq::empty()
    } else {
        spent_by_inputs(tx, pub_key_hash, tx.inputs.len())
    }
}

/// Those of the first `n` outputs of `tx` that are locked to `pub_key_hash`
/// and not among `spent`. An output beyond the reach of a 32-bit position is
/// passed over.
pub open spec fn unspent_in(
    tx: TransactionModel,
    pub_key_hash: Seq<u8>,
    spent: Seq<OutPointModel>,
    n: nat,
) -> Seq<SpendableModel>
    decreases n,
{
    if n == 0 {
        Seq::empty()
    } else {
        let earlier = unspent_in(tx, pub_key_hash, spent, (n - 1) as nat);
        let output = tx.outputs[n - 1];
        if n - 1 <= i32::MAX && output.pub_key_hash == pub_key_hash && !spent.contains(
            OutPointModel { tx_id: tx.id, index: n - 1 },
        ) {
            earlier.push(
                SpendableModel {
                    tx_id: tx.id,
                    output_index: (n - 1) as i32,
                    value: output.value,
                },
            )
        } else {
            earlier
        }
    }
}

/// What a scan of transactions for one key has gathered.
pub struct ScanModel {
    /// The outputs that inputs seen so far have spent.
    pub spent: Seq<OutPointModel>,
    /// The unspent outputs found.
    pub found: Seq<SpendableModel>,
    /// The transactions that hold an unspent output.
    pub holders: Seq<TransactionModel>,
}

/// The scan of `txs` in order for the key whose hash is `pub_key_hash`: of
/// each transaction first the outputs are held against what was spent so
/// far, then its own inputs are added to what was spent.
pub open spec fn scan(txs: Seq<TransactionModel>, pub_key_hash: Seq<u8>) -> ScanModel
    decreases txs.len(),
{
    if txs.len() == 0 {
        ScanModel { spent: Seq::empty(), found: Seq::empty(), holders: Seq::empty() }
    } else {
        let before = scan(txs.drop_last(), pub_key_hash);
        let tx = txs.last();
        let unspent = unspent_in(tx, pub_key_hash, before.spent, tx.outputs.len());
        ScanModel {
            spent: before.spent + spent_by(tx, pub_key_hash),
            found: before.found + unspent,
            holders: if unspent.len() > 0 {
                before.holders.push(tx)
            } else {
                before.holders
            },
        }
    }
}

/// The unspent outputs of a chain that are locked to `pub_key_hash`, in the
/// order of a walk from the newest block to the genesis block.
pub open spec fn unspent_outputs(chain: Seq<BlockModel>, pub_key_hash: Seq<u8>) -> Seq<
    SpendableModel,
> {
    scan(chain_transactions(chain), pub_key_hash).found
}

/// The leading outputs of `found` taken until their values reach `amount`.
pub open spec fn greedy(found: Seq<SpendableModel>, amount: int) -> Seq<SpendableModel>
    decreases found.len(),
{
    if found.len() == 0 || amount <= 0 {
        Seq::empty()
    } else {
        seq![found[0]] + greedy(found.drop_first(), amount - found[0].value)
    }
}

fn is_spent(spent: &Vec<OutPoint>, tx_id: &HashHex, index: i32) -> (found: bool)
    ensures
        found == out_point_models(spent@).contains(
            OutPointModel { tx_id: tx_id@, index: index as int },
        ),
{
    let ghost models = out_point_models(spent@);
    let ghost wanted = OutPointModel { tx_id: tx_id@, index: index as int };
    let mut i: usize = 0;
    while i < spent.len()
        invariant
            i <= spent.len(),
            models == out_point_models(spent@),
            wanted == (OutPointModel { tx_id: tx_id@, index: index as int }),
            forall|k: int| 0 <= k < i ==> models[k] != wanted,
        decreases spent.len() - i,
    {
        assert(models[i as int] == spent@[i as int]@);
        if spent[i].index == index && spent[i].tx_id.same_as(tx_id) {
            return true;
        }
        i += 1;
    }
    false
}

/// Takes leading outputs of `found` until their values reach `amount`, and
/// returns them with the sum of their values.
pub fn select_spendable(found: &Vec<SpendableOutput>, amount: u32) -> (res: (
    u64,
    Vec<SpendableOutput>,
))
    ensures
        spendable_models(res.1@) == greedy(spendable_models(found@), amount as int),
        res.0 == spendable_total(spendable_models(res.1@)),
        res.0 < amount as int + 0x1_0000_0000,
{
    let ghost all = spendable_models(found@);
    let mut accumulated: u64 = 0;
    let mut selected: Vec<SpendableOutput> = Vec::new();
    let mut i: usize = 0;
    assert(all.skip(0) == all);
    assert(spendable_models(selected@) =~= Seq::<SpendableModel>::empty());
    while i < found.len() && accumulated < amount as u64
        invariant
            i <= found.len(),
            all == spendable_models(found@),
            accumulated == spendable_total(spendable_models(selected@)),
            accumulated < amount as int + 0x1_0000_0000,
            greedy(all, amount as int) == spendable_models(selected@) + greedy(
                all.skip(i as int),
                amount as int - accumulated as int,
            ),
        decreases found.len() - i,
    {
        let ghost before = spendable_models(selected@);
        let ghost rest = all.skip(i as int);
        selected.push(found[i].clone());
        accumulated = accumulated + found[i].value as u64;
        proof {
            assert(rest[0] == all[i as int]);
            assert(all[i as int] == found@[i as int]@);
            assert(rest.drop_first() == all.skip(i + 1));
            assert(spendable_models(selected@) =~= before.push(found@[i as int]@));
            assert(spendable_models(selected@).drop_last() == before);
            assert(before + (seq![rest[0]] + greedy(
                rest.drop_first(),
                amount as int - accumulated as int,
            )) =~= before.push(rest[0]) + greedy(
                rest.drop_first(),
                amount as int - accumulated as int,
            ));
        }
        i += 1;
    }
    proof {
        assert(greedy(all.skip(i as int), amount as int - accumulated as int)
            =~= Seq::<SpendableModel>::empty());
        assert(spendable_models(selected@) + Seq::<SpendableModel>::empty() =~= spendable_models(
            selected@,
        ));
    }
    (accumulated, selected)
}

impl Blockchain {
    /// Walks the transactions from the newest block down and gathers, for
    /// the key whose hash is `pub_key_hash`, the transactions that hold an
    /// unspent output and those outputs.
    pub fn scan_unspent(&self, pub_key_hash: &HashHex) -> (res: (
        Vec<Transaction>,
        Vec<SpendableOutput>,
    ))
        ensures
            transaction_models(res.0@) == scan(chain_transactions(self@), pub_key_hash@).holders,
            spendable_models(res.1@) == unspent_outputs(self@, pub_key_hash@),
    {
        let all = self.transactions_from_tip();
        let ghost txs = transaction_models(all@);
        let mut spent: Vec<OutPoint> = Vec::new();
        let mut found: Vec<SpendableOutput> = Vec::new();
        let mut holders: Vec<Transaction> = Vec::new();
        let mut t: usize = 0;
        proof {
            assert(txs.subrange(0, 0) =~= Seq::<TransactionModel>::empty());
            assert(out_point_models(spent@) =~= Seq::<OutPointModel>::empty());
            assert(spendable_models(found@) =~= Seq::<SpendableModel>::empty());
            assert(transaction_models(holders@) =~= Seq::<TransactionModel>::empty());
        }
        while t < all.len()
            invariant
                t <= all.len(),
                txs == transaction_models(all@),
                txs == chain_transactions(self@),
                scan(txs.subrange(0, t as int), pub_key_hash@) == (ScanModel {
                    spent: out_point_models(spent@),
                    found: spendable_models(found@),
                    holders: transaction_models(holders@),
                }),
            decreases all.len() - t,
        {
            let tx = &all[t];
            let ghost seen = out_point_models(spent@);
            let ghost found_before = spendable_models(found@);
            let ghost holders_before = transaction_models(holders@);
            proof {
                assert(txs.subrange(0, t + 1).drop_last() == txs.subrange(0, t as int));
                assert(txs.subrange(0, t + 1).last() == tx@);
            }
            let count_before = found.len();
            let mut j: usize = 0;
            while j < tx.outputs.len()
                invariant
                    j <= tx.outputs.len(),
                    seen == out_point_models(spent@),
                    found@.len() >= count_before,
                    count_before == found_before.len(),
                    spendable_models(found@) == found_before + unspent_in(
                        tx@,
                        pub_key_hash@,
                        seen,
                        j as nat,
                    ),
                decreases tx.outputs.len() - j,
            {
                let ghost so_far = spendable_models(found@);
                assert(tx@.outputs[j as int] == tx.outputs@[j as int]@);
                if j <= i32::MAX as usize && tx.outputs[j].is_locked_with(pub_key_hash) && !is_spent(
                    &spent,
                    &tx.id,
                    j as i32,
                ) {
                    found.push(
                        SpendableOutput {
                            tx_id: tx.id.clone(),
                            output_index: j as i32,
                            value: tx.outputs[j].value,
                        },
                    );
                    proof {
                        let item = SpendableModel {
                            tx_id: tx@.id,
                            output_index: j as i32,
                            value: tx@.outputs[j as int].value,
                        };
                        assert(spendable_models(found@) =~= so_far.push(item));
                        assert(found_before + unspent_in(tx@, pub_key_hash@, seen, j as nat).push(
                            item,
                        ) =~= so_far.push(item));
                    }
                }
                j += 1;
            }
            if found.len() > count_before {
                holders.push(tx.clone());
                assert(transaction_models(holders@) =~= holders_before.push(tx@));
            }
            if !tx.is_coinbase() {
                let mut k: usize = 0;
                proof {
                    assert(seen + spent_by_inputs(tx@, pub_key_hash@, 0) =~= seen);
                }
                while k < tx.inputs.len()
                    invariant
                        k <= tx.inputs.len(),
                        out_point_models(spent@) == seen + spent_by_inputs(
                            tx@,
                            pub_key_hash@,
                            k as nat,
                        ),
                    decreases tx.inputs.len() - k,
                {
                    let ghost so_far = out_point_models(spent@);
                    assert(tx@.inputs[k as int] == tx.inputs@[k as int]@);
                    if tx.inputs[k].uses_key(pub_key_hash) {
                        let point = OutPoint {
                            tx_id: tx.inputs[k].tx_id.clone(),
                            index: tx.inputs[k].output_index,
                        };
                        spent.push(point);
                        proof {
                            assert(out_point_models(spent@) =~= so_far.push(point@));
                            assert(seen + spent_by_inputs(tx@, pub_key_hash@, k as nat).push(
                                point@,
                            ) =~= so_far.push(point@));
                        }
                    }
                    k += 1;
                }
            } else {
                assert(seen + spent_by(tx@, pub_key_hash@) =~= seen);
            }
            proof {
                let unspent = unspent_in(tx@, pub_key_hash@, seen, tx@.outputs.len());
                assert(spendable_models(found@).len() == found_before.len() + unspent.len());
            }
            t += 1;
        }
        assert(txs.subrange(0, all.len() as int) == txs);
        (holders, found)
    }

    /// The transactions that hold an unspent output locked to
    /// `pub_key_hash`, in the order of a walk from the newest block down.
    pub fn find_unspent_transactions(&self, pub_key_hash: &HashHex) -> (list: Vec<Transaction>)
        ensures
            transaction_models(list@) == scan(chain_transactions(self@), pub_key_hash@).holders,
    {
        self.scan_unspent(pub_key_hash).0
    }

    /// Unspent outputs locked to `pub_key_hash`, taken in the order of a
    /// walk from the newest block down until their values reach `amount`,
    /// with the sum of their values.
    pub fn find_spendable_outputs(&self, pub_key_hash: &HashHex, amount: u32) -> (res: (
        u64,
        Vec<SpendableOutput>,
    ))
        ensures
            spendable_models(res.1@) == greedy(
                unspent_outputs(self@, pub_key_hash@),
                amount as int,
            ),
            res.0 == spendable_total(spendable_models(res.1@)),
            res.0 < amount as int + 0x1_0000_0000,
    {
        let unspent = self.scan_unspent(pub_key_hash).1;
        select_spendable(&unspent, amount)
    }
}

} // verus!
