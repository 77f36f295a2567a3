//! Accounting over the index of unspent outputs: what a block adds to and
//! takes from the coins that the index holds.

use vstd::prelude::*;
use crate::block::BlockModel;
use crate::transaction::{coinbase_model, is_coinbase_model, TransactionModel, REWARD_AMOUNT};
use crate::utxo_set::{
    after_block, after_inputs, after_spend, after_spending, after_writing, entry_ids, entry_of,
    held_outputs, index_of_chain, indexed_outputs, reindexed, with_outputs, without_position,
    IndexedOutputModel, UtxoEntryModel,
};

verus! {

/// The coins of a row of held outputs.
pub open spec fn outputs_total(outputs: Seq<IndexedOutputModel>) -> int
    decreases outputs.len(),
{
    if outputs.len() == 0 {
        0
    } else {
        outputs_total(outputs.drop_last()) + outputs.last().output.value
    }
}

/// The coins that the index holds, whomever they are locked to.
pub open spec fn index_total(entries: Seq<UtxoEntryModel>) -> int
    decreases entries.len(),
{
    if entries.len() == 0 {
        0
    } else {
        index_total(entries.drop_last()) + outputs_total(entries.last().outputs)
    }
}

/// The coins of the held outputs that stand at position `index`.
pub open spec fn value_at(outputs: Seq<IndexedOutputModel>, index: i32) -> int
    decreases outputs.len(),
{
    if outputs.len() == 0 {
        0
    } else {
        value_at(outputs.drop_last(), index) + if outputs.last().index == index {
            outputs.last().output.value as int
        } else {
            0
        }
    }
}

/// The coins that leave the index when the output that `tx_id` and `index`
/// refer to is spent.
pub open spec fn spent_value(entries: Seq<UtxoEntryModel>, tx_id: Seq<u8>, index: i32) -> int {
    match held_outputs(entries, tx_id) {
        Some(outputs) => value_at(outputs, index),
        None => 0,
    }
}

/// The coins that leave the index when the first `n` inputs of `tx` are
/// spent, one after the other.
pub open spec fn inputs_spent(entries: Seq<UtxoEntryModel>, tx: TransactionModel, n: nat) -> int
    decreases n,
{
    if n == 0 {
        0
    } else {
        inputs_spent(entries, tx, (n - 1) as nat) + spent_value(
            after_inputs(entries, tx, (n - 1) as nat),
            tx.inputs[n - 1].tx_id,
            tx.inputs[n - 1].output_index,
        )
    }
}

/// The coins that leave the index when the transactions of `txs` that are
/// no coinbase have their inputs spent, in order.
pub open spec fn spent_total(entries: Seq<UtxoEntryModel>, txs: Seq<TransactionModel>) -> int
    decreases txs.len(),
{
    if txs.len() == 0 {
        0
    } else {
        spent_total(entries, txs.drop_last()) + if is_coinbase_model(txs.last()) {
            0
        } else {
            inputs_spent(
                after_spending(entries, txs.drop_last()),
                txs.last(),
                txs.last().inputs.len(),
            )
        }
    }
}

/// The coins of the outputs that the transactions of `txs` write.
pub open spec fn written_total(txs: Seq<TransactionModel>) -> int
    decreases txs.len(),
{
    if txs.len() == 0 {
        0
    } else {
        written_total(txs.drop_last()) + outputs_total(indexed_outputs(txs.last()))
    }
}

/// The coins held under the id of `tx` that are lost when its outputs are
/// written over them.
pub open spec fn overwritten_value(entries: Seq<UtxoEntryModel>, tx_id: Seq<u8>) -> int {
    match held_outputs(entries, tx_id) {
        Some(outputs) => outputs_total(outputs),
        None => 0,
    }
}

/// The coins that are lost when the outputs of `txs` are written, in
/// order, over what is held under their ids.
pub open spec fn overwritten_total(entries: Seq<UtxoEntryModel>, txs: Seq<TransactionModel>) -> int
    decreases txs.len(),
{
    if txs.len() == 0 {
        0
    } else {
        overwritten_total(entries, txs.drop_last()) + overwritten_value(
            after_writing(entries, txs.drop_last()),
            txs.last().id,
        )
    }
}

/// The number of coinbase transactions among `txs`.
pub open spec fn coinbase_count(txs: Seq<TransactionModel>) -> int
    decreases txs.len(),
{
    if txs.len() == 0 {
        0
    } else {
        coinbase_count(txs.drop_last()) + if is_coinbase_model(txs.last()) {
            1int
        } else {
            0int
        }
    }
}

proof fn lemma_total_update(entries: Seq<UtxoEntryModel>, i: int, entry: UtxoEntryModel)
    requires
        0 <= i < entries.len(),
    ensures
        index_total(entries.update(i, entry)) == index_total(entries) - outputs_total(
            entries[i].outputs,
        ) + outputs_total(entry.outputs),
    decreases entries.len(),
{
    let after = entries.update(i, entry);
    if i == entries.len() - 1 {
        assert(after.drop_last() == entries.drop_last());
    } else {
        lemma_total_update(entries.drop_last(), i, entry);
        assert(after.drop_last() == entries.drop_last().update(i, entry));
    }
}

proof fn lemma_total_remove(entries: Seq<UtxoEntryModel>, i: int)
    requires
        0 <= i < entries.len(),
    ensures
        index_total(entries.remove(i)) == index_total(entries) - outputs_total(entries[i].outputs),
    decreases entries.len(),
{
    let after = entries.remove(i);
    if i == entries.len() - 1 {
        assert(after == entries.drop_last());
    } else {
        lemma_total_remove(entries.drop_last(), i);
        assert(after.drop_last() == entries.drop_last().remove(i));
        assert(after.last() == entries.last());
    }
}

proof fn lemma_total_without_position(outputs: Seq<IndexedOutputModel>, index: i32)
    ensures
        outputs_total(without_position(outputs, index)) == outputs_total(outputs) - value_at(
            outputs,
            index,
        ),
    decreases outputs.len(),
{
    if outputs.len() > 0 {
        lemma_total_without_position(outputs.drop_last(), index);
        let earlier = without_position(outputs.drop_last(), index);
        if outputs.last().index != index {
            assert(earlier.push(outputs.last()).drop_last() == earlier);
        }
    }
}

/// Spending an output takes from the index the coins held at its place.
pub proof fn lemma_spend_takes_value(entries: Seq<UtxoEntryModel>, tx_id: Seq<u8>, index: i32)
    ensures
        index_total(after_spend(entries, tx_id, index)) == index_total(entries) - spent_value(
            entries,
            tx_id,
            index,
        ),
{
    entry_ids(entries).index_of_first_ensures(tx_id);
    match entry_ids(entries).index_of_first(tx_id) {
        None => {},
        Some(i) => {
            let outputs = entries[i].outputs;
            let left = without_position(outputs, index);
            lemma_total_without_position(outputs, index);
            if left.len() == 0 {
                lemma_total_remove(entries, i);
            } else {
                lemma_total_update(entries, i, UtxoEntryModel { tx_id, outputs: left });
            }
        },
    }
}

proof fn lemma_inputs_take_value(entries: Seq<UtxoEntryModel>, tx: TransactionModel, n: nat)
    ensures
        index_total(after_inputs(entries, tx, n)) == index_total(entries) - inputs_spent(
            entries,
            tx,
            n,
        ),
    decreases n,
{
    if n > 0 {
        lemma_inputs_take_value(entries, tx, (n - 1) as nat);
        lemma_spend_takes_value(
            after_inputs(entries, tx, (n - 1) as nat),
            tx.inputs[n - 1].tx_id,
            tx.inputs[n - 1].output_index,
        );
    }
}

/// Spending the inputs of transactions takes from the index the coins
/// that they spend.
pub proof fn lemma_spending_takes_value(entries: Seq<UtxoEntryModel>, txs: Seq<TransactionModel>)
    ensures
        index_total(after_spending(entries, txs)) == index_total(entries) - spent_total(
            entries,
            txs,
        ),
    decreases txs.len(),
{
    if txs.len() > 0 {
        lemma_spending_takes_value(entries, txs.drop_last());
        if !is_coinbase_model(txs.last()) {
            lemma_inputs_take_value(
                after_spending(entries, txs.drop_last()),
                txs.last(),
                txs.last().inputs.len(),
            );
        }
    }
}

proof fn lemma_write_adds_value(entries: Seq<UtxoEntryModel>, entry: UtxoEntryModel)
    ensures
        index_total(with_outputs(entries, entry)) == index_total(entries) + outputs_total(
            entry.outputs,
        ) - overwritten_value(entries, entry.tx_id),
{
    entry_ids(entries).index_of_first_ensures(entry.tx_id);
    match entry_ids(entries).index_of_first(entry.tx_id) {
        None => {
            assert(entries.push(entry).drop_last() == entries);
        },
        Some(i) => {
            lemma_total_update(entries, i, entry);
        },
    }
}

/// Writing the outputs of transactions adds their coins to the index, less
/// what was held under their ids before.
pub proof fn lemma_writing_adds_value(entries: Seq<UtxoEntryModel>, txs: Seq<TransactionModel>)
    ensures
        index_total(after_writing(entries, txs)) == index_total(entries) + written_total(txs)
            - overwritten_total(entries, txs),
    decreases txs.len(),
{
    if txs.len() > 0 {
        lemma_writing_adds_value(entries, txs.drop_last());
        lemma_write_adds_value(after_writing(entries, txs.drop_last()), entry_of(txs.last()));
    }
}

/// The account of a block: after it was applied the index holds what it
/// held before, less the coins that the block's inputs spent, plus the coins
/// of the outputs that the block wrote, less the coins that were held under
/// the ids of the block's transactions when their outputs were written.
pub proof fn lemma_block_account(entries: Seq<UtxoEntryModel>, block: BlockModel)
    ensures
        index_total(after_block(entries, block)) == index_total(entries) - spent_total(
            entries,
            block.transactions,
        ) + written_total(block.transactions) - overwritten_total(
            after_spending(entries, block.transactions),
            block.transactions,
        ),
{
    lemma_spending_takes_value(entries, block.transactions);
    lemma_writing_adds_value(after_spending(entries, block.transactions), block.transactions);
}

/// The supply grows by the reward for each coinbase transaction of a block
/// exactly where the block balances.
pub proof fn lemma_supply_grows_by_rewards(entries: Seq<UtxoEntryModel>, block: BlockModel)
    ensures
        index_total(after_block(entries, block)) == index_total(entries) + REWARD_AMOUNT
            * coinbase_count(block.transactions) <==> block_balances(entries, block),
{
    lemma_block_account(entries, block);
}

/// The index made afresh from a chain of one block with one coinbase
/// transaction holds the reward.
pub proof fn lemma_genesis_supply(genesis: BlockModel, pub_key: Seq<u8>, note: Seq<u8>)
    requires
        genesis.transactions == seq![coinbase_model(pub_key, note)],
    ensures
        index_total(reindexed(seq![genesis])) == REWARD_AMOUNT,
{
    let tx = coinbase_model(pub_key, note);
    let chain = seq![genesis];
    assert(chain.drop_last() =~= Seq::<BlockModel>::empty());
    assert(crate::blockchain::chain_transactions(chain) =~= seq![tx]) by {
        assert(crate::blockchain::chain_transactions(chain.drop_last()) =~= Seq::<
            TransactionModel,
        >::empty());
    }
    let txs = seq![tx];
    assert(txs.drop_last() =~= Seq::<TransactionModel>::empty());
    let none = Seq::<UtxoEntryModel>::empty();
    lemma_writing_adds_value(none, txs);
    assert(overwritten_total(none, txs) == 0) by {
        entry_ids(none).index_of_first_ensures(tx.id);
        assert(txs.last() == tx);
        assert(after_writing(none, txs.drop_last()) == none);
        assert(overwritten_total(none, txs.drop_last()) == 0);
        assert(held_outputs(none, tx.id) is None);
    }
    let outputs = indexed_outputs(tx);
    assert(outputs.len() == 1);
    assert(outputs.last().output.value == REWARD_AMOUNT);
    assert(outputs_total(outputs.drop_last()) == 0);
    assert(outputs_total(outputs) == REWARD_AMOUNT);
    assert(written_total(txs) == REWARD_AMOUNT) by {
        assert(txs.last() == tx);
        assert(written_total(txs.drop_last()) == 0);
    }
    assert(index_total(none) == 0);
}

/// Whether a block, applied to an index, writes outputs worth what its
/// inputs spent and its coinbase transactions minted, and writes over
/// nothing that the index held.
pub open spec fn block_balances(entries: Seq<UtxoEntryModel>, block: BlockModel) -> bool {
    written_total(block.transactions) - overwritten_total(
        after_spending(entries, block.transactions),
        block.transactions,
    ) == spent_total(entries, block.transactions) + REWARD_AMOUNT * coinbase_count(
        block.transactions,
    )
}

/// Whether every block of a chain balances against the index of the
/// blocks before it.
pub open spec fn chain_balances(chain: Seq<BlockModel>) -> bool {
    forall|i: int|
        0 <= i < chain.len() ==> #[trigger] block_balances(index_of_chain(chain.take(i)), chain[i])
}

/// The number of coinbase transactions in a chain.
pub open spec fn chain_coinbase_count(chain: Seq<BlockModel>) -> int
    decreases chain.len(),
{
    if chain.len() == 0 {
        0
    } else {
        chain_coinbase_count(chain.drop_last()) + coinbase_count(chain.last().transactions)
    }
}

/// The index of a chain in which every block balances holds the reward
/// once for every coinbase transaction of the chain.
pub proof fn lemma_supply_is_rewards(chain: Seq<BlockModel>)
    requires
        chain_balances(chain),
    ensures
        index_total(index_of_chain(chain)) == REWARD_AMOUNT * chain_coinbase_count(chain),
    decreases chain.len(),
{
    if chain.len() > 0 {
        let shorter = chain.drop_last();
        assert forall|i: int| 0 <= i < shorter.len() implies #[trigger] block_balances(
            index_of_chain(shorter.take(i)),
            shorter[i],
        ) by {
            assert(shorter.take(i) == chain.take(i));
            assert(block_balances(index_of_chain(chain.take(i)), chain[i]));
        }
        lemma_supply_is_rewards(shorter);
        assert(chain.take(chain.len() - 1) == shorter);
        assert(block_balances(index_of_chain(chain.take(chain.len() - 1)), chain[chain.len() - 1]));
        lemma_block_account(index_of_chain(shorter), chain.last());
        assert(REWARD_AMOUNT * (chain_coinbase_count(shorter) + coinbase_count(
            chain.last().transactions,
        )) == REWARD_AMOUNT * chain_coinbase_count(shorter) + REWARD_AMOUNT * coinbase_count(
            chain.last().transactions,
        )) by (nonlinear_arith);
    }
}

} // verus!
