//! The state that the node keeps: the chain, the index of unspent outputs,
//! and the wallets.

use vstd::prelude::*;
use crate::block::BlockModel;
use crate::blockchain::Blockchain;
use crate::utxo_set::{index_of_chain, UtxoEntryModel, UTXOSet};
use crate::wallet::{WalletEntryModel, WalletStore};

verus! {

/// What is kept in the three buckets of the store.
#[derive(Debug)]
pub struct AppStore {
    /// The chain of blocks, once a genesis block exists.
    pub blocks: Option<Blockchain>,
    /// The index of unspent outputs.
    pub chainstate: UTXOSet,
    /// The private keys of the wallets, each under its address.
    pub wallets: WalletStore,
}

/// What the store holds.
pub struct StoreModel {
    pub blocks: Option<Seq<BlockModel>>,
    pub chainstate: Seq<UtxoEntryModel>,
    pub wallets: Seq<WalletEntryModel>,
}

impl View for AppStore {
    type V = StoreModel;

    open spec fn view(&self) -> StoreModel {
        StoreModel {
            blocks: match self.blocks {
                Some(chain) => Some(chain@),
                None => None,
            },
            chainstate: self.chainstate@,
            wallets: self.wallets@,
        }
    }
}

/// Whether the index is the one that applying the blocks of the chain, one
/// after the other, leaves.
pub open spec fn index_follows_chain(store: StoreModel) -> bool {
    store.blocks is Some ==> store.chainstate == index_of_chain(store.blocks.unwrap())
}

impl AppStore {
    /// A store that holds nothing.
    pub fn new() -> (store: Self)
        ensures
            store@.blocks is None,
            store@.chainstate.len() == 0,
            store@.wallets.len() == 0,
    {
        AppStore { blocks: None, chainstate: UTXOSet::new(), wallets: WalletStore::new() }
    }
}

} // verus!
