//! The index as a map from transaction ids to held outputs, and when
//! updating it block by block gives what making it afresh gives.

use vstd::prelude::*;
use crate::block::BlockModel;
use crate::blockchain::chain_transactions;
use crate::transaction::TransactionModel;
use crate::utils::{lemma_first_index, lemma_no_index};
use crate::utxo_set::{
    after_block, after_spending, after_writing, entry_ids, entry_of, held_outputs, index_of_chain,
    indexed_outputs, reindexed, with_outputs, IndexedOutputModel, UtxoEntryModel,
};

verus! {

/// The index as a map: under each transaction id the outputs held for it.
pub open spec fn index_map(entries: Seq<UtxoEntryModel>) -> Map<Seq<u8>, Seq<IndexedOutputModel>> {
    Map::new(
        |id: Seq<u8>| held_outputs(entries, id) is Some,
        |id: Seq<u8>| held_outputs(entries, id).unwrap(),
    )
}

/// What writing the outputs of `txs`, in order, leaves under each of their
/// ids: the outputs of the last transaction with that id.
pub open spec fn written(txs: Seq<TransactionModel>) -> Map<Seq<u8>, Seq<IndexedOutputModel>>
    decreases txs.len(),
{
    if txs.len() == 0 {
        Map::empty()
    } else {
        written(txs.drop_last()).insert(txs.last().id, indexed_outputs(txs.last()))
    }
}

/// After an entry was written, its outputs are held under its id, and
/// under every other id what was held before.
pub proof fn lemma_held_after_write(
    entries: Seq<UtxoEntryModel>,
    entry: UtxoEntryModel,
    id: Seq<u8>,
)
    ensures
        held_outputs(with_outputs(entries, entry), id) == if id == entry.tx_id {
            Some(entry.outputs)
        } else {
            held_outputs(entries, id)
        },
{
    let ids = entry_ids(entries);
    let after = with_outputs(entries, entry);
    let ids_after = entry_ids(after);
    ids.index_of_first_ensures(entry.tx_id);
    ids.index_of_first_ensures(id);
    match ids.index_of_first(entry.tx_id) {
        Some(i) => {
            assert(ids_after =~= ids);
            if id != entry.tx_id {
                if ids.index_of_first(id) is Some {
                    let j = ids.index_of_first(id).unwrap();
                    assert(after[j] == entries[j]);
                }
            }
        },
        None => {
            assert(ids_after =~= ids.push(entry.tx_id));
            if id == entry.tx_id {
                assert forall|k: int| 0 <= k < ids.len() implies ids_after[k] != id by {
                    assert(ids.contains(ids[k]));
                }
                lemma_first_index(ids_after, id, ids.len() as int);
            } else {
                match ids.index_of_first(id) {
                    Some(j) => {
                        assert forall|k: int| 0 <= k < j implies ids_after[k] != id by {
                            assert(ids_after[k] == ids[k]);
                        }
                        lemma_first_index(ids_after, id, j);
                        assert(after[j] == entries[j]);
                    },
                    None => {
                        assert forall|k: int| 0 <= k < ids_after.len() implies ids_after[k]
                            != id by {
                            if k < ids.len() {
                                assert(ids.contains(ids[k]));
                            }
                        }
                        lemma_no_index(ids_after, id);
                    },
                }
            }
        },
    }
}

/// After the outputs of transactions were written, under the id of each
/// of them the outputs of the last one with that id are held, and under
/// every other id what was held before.
pub proof fn lemma_held_after_writing(
    entries: Seq<UtxoEntryModel>,
    txs: Seq<TransactionModel>,
    id: Seq<u8>,
)
    ensures
        held_outputs(after_writing(entries, txs), id) == if written(txs).dom().contains(id) {
            Some(written(txs)[id])
        } else {
            held_outputs(entries, id)
        },
    decreases txs.len(),
{
    if txs.len() > 0 {
        lemma_held_after_writing(entries, txs.drop_last(), id);
        lemma_held_after_write(after_writing(entries, txs.drop_last()), entry_of(txs.last()), id);
    }
}

/// Writing the outputs of two rows of transactions one after the other is
/// writing those of the joined row.
pub proof fn lemma_writing_in_two_steps(
    entries: Seq<UtxoEntryModel>,
    first: Seq<TransactionModel>,
    second: Seq<TransactionModel>,
)
    ensures
        after_writing(entries, first + second) == after_writing(
            after_writing(entries, first),
            second,
        ),
    decreases second.len(),
{
    if second.len() == 0 {
        assert(first + second =~= first);
    } else {
        lemma_writing_in_two_steps(entries, first, second.drop_last());
        assert((first + second).drop_last() =~= first + second.drop_last());
        assert((first + second).last() == second.last());
    }
}

/// Whether a block leaves the index made afresh from `chain` as a fresh
/// index has it: under each id that the block writes, the index held nothing
/// or the same outputs; under every other id, spending the block's inputs
/// changed nothing.
pub open spec fn keeps_index_fresh(chain: Seq<BlockModel>, block: BlockModel) -> bool {
    forall|id: Seq<u8>|
        if written(block.transactions).dom().contains(id) {
            held_outputs(reindexed(chain), id) is Some ==> #[trigger] held_outputs(
                reindexed(chain),
                id,
            ) == Some(written(block.transactions)[id])
        } else {
            held_outputs(after_spending(reindexed(chain), block.transactions), id)
                == #[trigger] held_outputs(reindexed(chain), id)
        }
}

/// Updating the index made afresh from a chain with the next block gives
/// the index made afresh from the longer chain, as maps, exactly for the
/// blocks that keep the index fresh. A block that spends an output and
/// does not write the outputs of its transaction again is none: making the
/// index afresh writes every output, spent or not.
pub proof fn lemma_update_matches_reindex(chain: Seq<BlockModel>, block: BlockModel)
    ensures
        index_map(after_block(reindexed(chain), block)) == index_map(
            reindexed(chain.push(block)),
        ) <==> keeps_index_fresh(chain, block),
{
    let fresh = reindexed(chain);
    let spent = after_spending(fresh, block.transactions);
    let updated = after_block(fresh, block);
    let longer = reindexed(chain.push(block));
    let none = Seq::<UtxoEntryModel>::empty();
    let older = chain_transactions(chain);
    assert(chain.push(block).drop_last() == chain);
    assert(chain_transactions(chain.push(block)) == block.transactions + older);
    lemma_writing_in_two_steps(none, block.transactions, older);
    let newest = after_writing(none, block.transactions);
    assert forall|id: Seq<u8>|
        held_outputs(longer, id) == (if held_outputs(fresh, id) is Some {
            held_outputs(fresh, id)
        } else if written(block.transactions).dom().contains(id) {
            Some(written(block.transactions)[id])
        } else {
            None
        }) && held_outputs(updated, id) == (if written(block.transactions).dom().contains(id) {
            Some(written(block.transactions)[id])
        } else {
            held_outputs(spent, id)
        }) by {
        lemma_held_after_writing(newest, older, id);
        lemma_held_after_writing(none, older, id);
        lemma_held_after_writing(none, block.transactions, id);
        lemma_held_after_writing(spent, block.transactions, id);
        entry_ids(none).index_of_first_ensures(id);
    }
    if keeps_index_fresh(chain, block) {
        assert forall|id: Seq<u8>| held_outputs(updated, id) == held_outputs(longer, id) by {
            if held_outputs(fresh, id) is Some {
                assert(held_outputs(fresh, id) == held_outputs(fresh, id));
            }
        }
        assert(index_map(updated) =~= index_map(longer));
    }
    if index_map(updated) == index_map(longer) {
        assert forall|id: Seq<u8>|
            if written(block.transactions).dom().contains(id) {
                held_outputs(fresh, id) is Some ==> #[trigger] held_outputs(fresh, id) == Some(
                    written(block.transactions)[id],
                )
            } else {
                held_outputs(spent, id) == #[trigger] held_outputs(fresh, id)
            } by {
            assert(index_map(updated).dom().contains(id) == index_map(longer).dom().contains(id));
            if index_map(updated).dom().contains(id) {
                assert(index_map(updated)[id] == index_map(longer)[id]);
            }
        }
    }
}

/// Applying the genesis block to an empty index gives the index made
/// afresh from the chain of that block alone.
pub proof fn lemma_first_update_is_reindex(genesis: BlockModel)
    ensures
        after_block(Seq::empty(), genesis) == reindexed(seq![genesis]),
        index_of_chain(seq![genesis]) == reindexed(seq![genesis]),
{
    assert(seq![genesis].drop_last() =~= Seq::<BlockModel>::empty());
    assert(index_of_chain(seq![genesis].drop_last()) =~= Seq::<UtxoEntryModel>::empty());
    assert(seq![genesis].last() == genesis);
    lemma_spending_from_nothing(genesis.transactions);
    let chain = seq![genesis];
    assert(chain.drop_last() =~= Seq::<BlockModel>::empty());
    assert(chain_transactions(chain.drop_last()) =~= Seq::<TransactionModel>::empty());
    assert(chain_transactions(chain) =~= genesis.transactions);
}

proof fn lemma_spending_from_nothing(txs: Seq<TransactionModel>)
    ensures
        after_spending(Seq::empty(), txs) == Seq::<UtxoEntryModel>::empty(),
    decreases txs.len(),
{
    if txs.len() > 0 {
        lemma_spending_from_nothing(txs.drop_last());
        lemma_inputs_from_nothing(txs.last(), txs.last().inputs.len());
    }
}

proof fn lemma_inputs_from_nothing(tx: TransactionModel, n: nat)
    ensures
        crate::utxo_set::after_inputs(Seq::empty(), tx, n) == Seq::<UtxoEntryModel>::empty(),
    decreases n,
{
    if n > 0 {
        lemma_inputs_from_nothing(tx, (n - 1) as nat);
        entry_ids(Seq::<UtxoEntryModel>::empty()).index_of_first_ensures(tx.inputs[n - 1].tx_id);
    }
}

/// Applying one more block to the index of a chain gives the index of the
/// longer chain.
pub proof fn lemma_index_of_longer_chain(chain: Seq<BlockModel>, block: BlockModel)
    ensures
        index_of_chain(chain.push(block)) == after_block(index_of_chain(chain), block),
{
    assert(chain.push(block).drop_last() == chain);
}

} // verus!
