//! Blocks: a batch of transactions sealed by proof of work.

use vstd::prelude::*;
use vstd::string::*;
use crate::merkle_tree::{merkle_root, rows, MerkleTree};
use crate::proof_of_work::{block_digest, meets_target, PowError, ProofOfWork};
use crate::transaction::{
    coinbase_model, json_transaction, transaction_models, Transaction, TransactionModel,
};
use crate::utils::{get_current_time, is_decimal_text, HashHex};
use crate::wallet::{stored_public_key, WalletStore};

verus! {

/// A block of the chain.
#[derive(Debug)]
pub struct Block {
    /// Milliseconds since the epoch, as decimal text.
    pub timestamp: String,
    pub transactions: Vec<Transaction>,
    pub hash: HashHex,
    /// The hash of the block before; empty in the genesis block.
    pub prev_hash: HashHex,
    pub nonce: u64,
}

/// What a block holds.
pub struct BlockModel {
    pub timestamp: Seq<char>,
    pub transactions: Seq<TransactionModel>,
    pub hash: Seq<u8>,
    pub prev_hash: Seq<u8>,
    pub nonce: u64,
}

impl View for Block {
    type V = BlockModel;

    open spec fn view(&self) -> BlockModel {
        BlockModel {
            timestamp: self.timestamp@,
            transactions: transaction_models(self.transactions@),
            hash: self.hash@,
            prev_hash: self.prev_hash@,
            nonce: self.nonce,
        }
    }
}

/// The models of a row of blocks.
pub open spec fn block_models(blocks: Seq<Block>) -> Seq<BlockModel> {
    blocks.map_values(|block: Block| block@)
}

/// The Merkle root of a row of transactions, each a leaf by its JSON text.
pub open spec fn transactions_root(transactions: Seq<TransactionModel>) -> Seq<u8> {
    merkle_root(transactions.map_values(|tx: TransactionModel| json_transaction(tx)))
}

/// Whether a block is sealed: its hash is the digest of its preimage at its
/// nonce, and that digest is below the target.
pub open spec fn is_sealed(block: BlockModel) -> bool {
    &&& block.transactions.len() > 0
    &&& block.hash == block_digest(block, block.nonce)
    &&& meets_target(block.hash)
}

/// Why no genesis block was made.
#[derive(Debug, Clone, Copy, PartialEq, Eq, Structural)]
pub enum GenesisError {
    /// No usable wallet is stored under the address.
    WalletNotFound,
    /// No nonce gave a digest below the target.
    HashNotFound,
}

/// A copy of a row of transactions.
pub fn clone_transactions(transactions: &[Transaction]) -> (copy: Vec<Transaction>)
    ensures
        transaction_models(copy@) == transaction_models(transactions@),
{
    let mut copy: Vec<Transaction> = Vec::new();
    let mut i: usize = 0;
    while i < transactions.len()
        invariant
            i <= transactions.len(),
            copy@.len() == i,
            forall|k: int| 0 <= k < i ==> (#[trigger] copy@[k])@ == transactions@[k]@,
        decreases transactions.len() - i,
    {
        copy.push(transactions[i].clone());
        i += 1;
    }
    assert(transaction_models(copy@) =~= transaction_models(transactions@));
    copy
}

impl Clone for Block {
    fn clone(&self) -> (res: Self)
        ensures
            res@ == self@,
    {
        Block {
            timestamp: self.timestamp.clone(),
            transactions: clone_transactions(self.transactions.as_slice()),
            hash: self.hash.clone(),
            prev_hash: self.prev_hash.clone(),
            nonce: self.nonce,
        }
    }
}

impl Block {
    /// Mines a block on top of `prev_hash`, stamped with the current time as
    /// decimal milliseconds. Whatever the clock said, the block that comes
    /// back is the one mined at its time stamp; mining fails only where, at
    /// the time stamp the clock gave, no nonce seals the block.
    pub fn new(prev_hash: HashHex, transactions: Vec<Transaction>) -> (res: Result<Block, PowError>)
        requires
            transactions@.len() > 0,
        ensures
            match res {
                Ok(block) => is_sealed(block@) && is_decimal_text(block@.timestamp) && mined_model(
                    prev_hash@,
                    transaction_models(transactions@),
                    block@.timestamp,
                ) == Some(block@),
                Err(_) => mining_can_fail(prev_hash@, transaction_models(transactions@)),
            },
    {
        let timestamp = get_current_time();
        let ghost stamp = timestamp@;
        let res = Self::mine(prev_hash, transactions, timestamp);
        proof {
            reveal(mining_can_fail);
            if res is Err {
                assert(is_decimal_text(stamp) && mined_model(
                    prev_hash@,
                    transaction_models(transactions@),
                    stamp,
                ) is None);
            }
        }
        res
    }

    /// Mines a block with the given time stamp: the nonce is the first, from
    /// zero, whose digest is below the target.
    pub fn mine(prev_hash: HashHex, transactions: Vec<Transaction>, timestamp: String) -> (res:
        Result<Block, PowError>)
        requires
            transactions@.len() > 0,
        ensures
            match res {
                Ok(block) => mined_model(
                    prev_hash@,
                    transaction_models(transactions@),
                    timestamp@,
                ) == Some(block@) && is_sealed(block@),
                Err(_) => mined_model(prev_hash@, transaction_models(transactions@), timestamp@)
                    is None,
            },
    {
        let mut block = Block {
            prev_hash,
            transactions,
            timestamp,
            hash: HashHex::empty(),
            nonce: 0,
        };
        let ghost draft = block@;
        let found = {
            let proof_of_work = ProofOfWork::new(&block);
            proof_of_work.run()
        };
        match found {
            Ok((nonce, hash)) => {
                block.hash = hash;
                block.nonce = nonce;
                proof {
                    lemma_first_nonce_unique(draft, nonce, first_nonce(draft));
                    assert(block_digest(block@, nonce) == block_digest(draft, nonce));
                }
                Ok(block)
            },
            Err(e) => {
                proof {
                    reveal(first_nonce);
                }
                Err(e)
            },
        }
    }

    /// The genesis block: one coinbase transaction to the wallet stored under
    /// `address`, on top of nothing.
    pub fn new_genesis(address: &str, store: &WalletStore) -> (res: Result<Block, GenesisError>)
        ensures
            match res {
                Ok(block) => {
                    &&& stored_public_key(store@, address.spec_bytes()) is Some
                    &&& is_sealed(block@)
                    &&& block@.prev_hash.len() == 0
                    &&& block@.transactions == seq![
                        coinbase_model(
                            stored_public_key(store@, address.spec_bytes()).unwrap(),
                            "Reward to ".spec_bytes() + address.spec_bytes(),
                        ),
                    ]
                    &&& is_decimal_text(block@.timestamp)
                    &&& mined_model(block@.prev_hash, block@.transactions, block@.timestamp)
                        == Some(block@)
                },
                Err(GenesisError::WalletNotFound) => stored_public_key(
                    store@,
                    address.spec_bytes(),
                ) is None,
                Err(GenesisError::HashNotFound) => stored_public_key(
                    store@,
                    address.spec_bytes(),
                ) is Some && mining_can_fail(
                    Seq::empty(),
                    seq![
                        coinbase_model(
                            stored_public_key(store@, address.spec_bytes()).unwrap(),
                            "Reward to ".spec_bytes() + address.spec_bytes(),
                        ),
                    ],
                ),
            },
    {
        let tx = match Transaction::new_coinbase(address, None, store) {
            Ok(tx) => tx,
            Err(_) => {
                return Err(GenesisError::WalletNotFound);
            },
        };
        let mut transactions: Vec<Transaction> = Vec::new();
        transactions.push(tx);
        assert(transaction_models(transactions@) =~= seq![tx@]);
        match Block::new(HashHex::empty(), transactions) {
            Ok(block) => Ok(block),
            Err(_) => Err(GenesisError::HashNotFound),
        }
    }

    /// The Merkle root of the block's transactions.
    pub fn hash_transactions(&self) -> (root: Vec<u8>)
        requires
            self@.transactions.len() > 0,
        ensures
            root@ == transactions_root(self@.transactions),
    {
        let mut leaves: Vec<Vec<u8>> = Vec::new();
        let mut i: usize = 0;
        while i < self.transactions.len()
            invariant
                i <= self.transactions.len(),
                leaves@.len() == i,
                forall|k: int|
                    0 <= k < i ==> (#[trigger] leaves@[k])@ == json_transaction(
                        self.transactions@[k]@,
                    ),
            decreases self.transactions.len() - i,
        {
            leaves.push(self.transactions[i].to_json());
            i += 1;
        }
        assert(rows(leaves@) =~= self@.transactions.map_values(
            |tx: TransactionModel| json_transaction(tx),
        ));
        let tree = MerkleTree::new(leaves);
        tree.root.data
    }
}

/// The first nonce at which the draft's digest is below the target, if
/// there is one.
#[verifier::opaque]
pub open spec fn first_nonce(draft: BlockModel) -> Option<u64> {
    if exists|n: u64| meets_target(#[trigger] block_digest(draft, n)) {
        Some(
            choose|n: u64|
                meets_target(#[trigger] block_digest(draft, n)) && forall|m: u64|
                    m < n ==> !meets_target(#[trigger] block_digest(draft, m)),
        )
    } else {
        None
    }
}

/// Whether, at some time stamp that the clock can give, no nonce seals a
/// block of these parts.
#[verifier::opaque]
pub open spec fn mining_can_fail(prev_hash: Seq<u8>, transactions: Seq<TransactionModel>) -> bool {
    exists|timestamp: Seq<char>|
        is_decimal_text(timestamp) && (#[trigger] mined_model(prev_hash, transactions, timestamp))
            is None
}

/// The block that mining makes of these parts, if any nonce seals it.
pub open spec fn mined_model(
    prev_hash: Seq<u8>,
    transactions: Seq<TransactionModel>,
    timestamp: Seq<char>,
) -> Option<BlockModel> {
    let draft = BlockModel { timestamp, transactions, hash: Seq::empty(), prev_hash, nonce: 0 };
    match first_nonce(draft) {
        Some(nonce) => Some(
            BlockModel {
                timestamp,
                transactions,
                hash: block_digest(draft, nonce),
                prev_hash,
                nonce,
            },
        ),
        None => None,
    }
}

proof fn lemma_first_nonce_unique(draft: BlockModel, nonce: u64, chosen: Option<u64>)
    requires
        meets_target(block_digest(draft, nonce)),
        forall|m: u64| m < nonce ==> !meets_target(#[trigger] block_digest(draft, m)),
        chosen == first_nonce(draft),
    ensures
        chosen == Some(nonce),
{
    reveal(first_nonce);
    let least = choose|n: u64|
        meets_target(#[trigger] block_digest(draft, n)) && forall|m: u64|
            m < n ==> !meets_target(#[trigger] block_digest(draft, m));
    assert(least == nonce) by {
        if least < nonce {
            assert(!meets_target(block_digest(draft, least)));
        }
        if nonce < least {
            assert(!meets_target(block_digest(draft, nonce)));
        }
    }
}

} // verus!
