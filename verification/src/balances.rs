//! The first transfer after the genesis block: what the index holds for
//! sender and recipient once its block was applied.

use vstd::prelude::*;
use vstd::string::*;
use crate::block::BlockModel;
use crate::blockchain::{
    chain_transactions, genesis_transactions, greedy, is_genesis_chain, scan, unspent_in,
    unspent_outputs, ChainError, OutPointModel,
};
use crate::hashing::pub_key_hash_of;
use crate::transaction::{
    coinbase_model, is_coinbase_model, signed_model, transfer_draft, transfer_model, OutputModel,
    TransactionModel, REWARD_AMOUNT,
};
use crate::utils::{lemma_first_index, lemma_no_index};
use crate::utxo_set::{
    after_block, after_inputs, after_spend, after_spending, after_writing, balance_of, entry_ids,
    entry_of, held_outputs, indexed_outputs, locked_in_entry, locked_in_index, reindexed,
    spendable_total, with_outputs, without_entry, without_position, IndexedOutputModel,
    SpendableModel, UtxoEntryModel,
};
use crate::wallet::{decoded_hex_address, stored_private_key, stored_public_key, WalletEntryModel};

verus! {

/// The one output of a coinbase transaction, as the index holds it.
pub open spec fn reward_entry(coinbase: TransactionModel) -> UtxoEntryModel {
    UtxoEntryModel {
        tx_id: coinbase.id,
        outputs: seq![IndexedOutputModel { index: 0i32, output: coinbase.outputs[0] }],
    }
}

proof fn lemma_entry_of_coinbase(pub_key: Seq<u8>, note: Seq<u8>)
    ensures
        entry_of(coinbase_model(pub_key, note)) == reward_entry(coinbase_model(pub_key, note)),
{
    let coinbase = coinbase_model(pub_key, note);
    assert(indexed_outputs(coinbase) =~= reward_entry(coinbase).outputs);
}

/// The index made afresh from a genesis block alone holds the reward of
/// its coinbase transaction and nothing else.
pub proof fn lemma_genesis_index(genesis: BlockModel, pub_key: Seq<u8>, note: Seq<u8>)
    requires
        genesis.transactions == seq![coinbase_model(pub_key, note)],
    ensures
        reindexed(seq![genesis]) == seq![reward_entry(coinbase_model(pub_key, note))],
{
    let coinbase = coinbase_model(pub_key, note);
    let chain = seq![genesis];
    let txs = seq![coinbase];
    let none = Seq::<UtxoEntryModel>::empty();
    assert(chain.drop_last() =~= Seq::<BlockModel>::empty());
    assert(chain_transactions(chain.drop_last()) =~= Seq::<TransactionModel>::empty());
    assert(chain_transactions(chain) =~= txs);
    assert(txs.drop_last() =~= Seq::<TransactionModel>::empty());
    assert(after_writing(none, txs.drop_last()) == none);
    assert(txs.last() == coinbase);
    lemma_no_index(entry_ids(none), coinbase.id);
    lemma_entry_of_coinbase(pub_key, note);
    assert(with_outputs(none, entry_of(coinbase)) =~= seq![reward_entry(coinbase)]);
}

/// The one unspent output of a chain that is a genesis block alone is the
/// reward, locked to the hash of the rewarded key.
pub proof fn lemma_genesis_unspent(genesis: BlockModel, pub_key: Seq<u8>, note: Seq<u8>)
    requires
        genesis.transactions == seq![coinbase_model(pub_key, note)],
    ensures
        unspent_outputs(seq![genesis], pub_key_hash_of(pub_key)) == seq![
            SpendableModel {
                tx_id: coinbase_model(pub_key, note).id,
                output_index: 0i32,
                value: REWARD_AMOUNT,
            },
        ],
{
    let coinbase = coinbase_model(pub_key, note);
    let hash = pub_key_hash_of(pub_key);
    let chain = seq![genesis];
    let txs = seq![coinbase];
    assert(chain.drop_last() =~= Seq::<BlockModel>::empty());
    assert(chain_transactions(chain.drop_last()) =~= Seq::<TransactionModel>::empty());
    assert(chain_transactions(chain) =~= txs);
    assert(txs.drop_last() =~= Seq::<TransactionModel>::empty());
    assert(txs.last() == coinbase);
    let before = scan(txs.drop_last(), hash);
    assert(before.spent =~= Seq::<OutPointModel>::empty());
    assert(before.found =~= Seq::<SpendableModel>::empty());
    let spent = Seq::<OutPointModel>::empty();
    assert(coinbase.outputs.len() == 1);
    assert(unspent_in(coinbase, hash, spent, 0) =~= Seq::<SpendableModel>::empty());
    assert(!spent.contains(OutPointModel { tx_id: coinbase.id, index: 0 }));
    let item = SpendableModel { tx_id: coinbase.id, output_index: 0i32, value: REWARD_AMOUNT };
    assert(unspent_in(coinbase, hash, spent, 1) =~= seq![item]);
    assert(scan(txs, hash).found =~= seq![item]);
}

/// What the transfer of less than the reward over a genesis block alone
/// looks like: it spends the reward, pays the recipient, and returns the
/// rest to the sender.
pub proof fn lemma_first_transfer_shape(
    genesis: BlockModel,
    wallets: Seq<WalletEntryModel>,
    from: Seq<u8>,
    to: Seq<u8>,
    amount: u32,
    transfer: TransactionModel,
)
    requires
        is_genesis_chain(seq![genesis], wallets, from),
        0 < amount < REWARD_AMOUNT,
        transfer_model(seq![genesis], wallets, from, to, amount) == Ok::<
            TransactionModel,
            ChainError,
        >(transfer),
    ensures
        decoded_hex_address(to) is Ok,
        transfer.inputs.len() == 1,
        transfer.inputs[0].tx_id == genesis.transactions[0].id,
        transfer.inputs[0].output_index == 0,
        !is_coinbase_model(transfer),
        transfer.outputs == seq![
            OutputModel { value: amount, pub_key_hash: decoded_hex_address(to)->Ok_0 },
            OutputModel {
                value: (REWARD_AMOUNT - amount) as u32,
                pub_key_hash: pub_key_hash_of(stored_public_key(wallets, from).unwrap()),
            },
        ],
{
    reveal(transfer_model);
    let pub_key = stored_public_key(wallets, from).unwrap();
    let private_key = stored_private_key(wallets, from).unwrap();
    let note = "Reward to ".spec_bytes() + from;
    let coinbase = coinbase_model(pub_key, note);
    let chain = seq![genesis];
    assert(chain[0] == genesis);
    assert(genesis.transactions == genesis_transactions(wallets, from));
    assert(genesis.transactions[0] == coinbase);
    lemma_genesis_unspent(genesis, pub_key, note);
    let item = SpendableModel { tx_id: coinbase.id, output_index: 0i32, value: REWARD_AMOUNT };
    let found = seq![item];
    assert(found.drop_first() =~= Seq::<SpendableModel>::empty());
    assert(greedy(found.drop_first(), amount - REWARD_AMOUNT) =~= Seq::<SpendableModel>::empty());
    let selected = greedy(found, amount as int);
    assert(selected =~= found);
    assert(selected.drop_last() =~= Seq::<SpendableModel>::empty());
    assert(spendable_total(selected.drop_last()) == 0);
    assert(selected.last() == item);
    assert(spendable_total(selected) == REWARD_AMOUNT);
    let recipient = decoded_hex_address(to)->Ok_0;
    let draft = transfer_draft(pub_key, selected, recipient, amount);
    assert(draft.inputs.len() == 1);
    assert(draft.inputs[0].tx_id == coinbase.id);
    assert(draft.inputs[0].output_index == 0);
    assert(!is_coinbase_model(draft));
    let signed = signed_model(draft, chain_transactions(chain), private_key);
    assert(signed == Ok::<TransactionModel, crate::transaction::SignError>(transfer));
}

/// Applying the block of a coinbase transaction with a known id and a
/// transfer that spends the one held reward leaves the reward of the new
/// coinbase transaction and the outputs of the transfer.
pub proof fn lemma_first_block_applied(
    coinbase: TransactionModel,
    transfer: TransactionModel,
    block: BlockModel,
)
    requires
        is_coinbase_model(coinbase),
        coinbase.outputs.len() == 1,
        block.transactions == seq![coinbase, transfer],
        !is_coinbase_model(transfer),
        transfer.inputs.len() == 1,
        transfer.inputs[0].tx_id == coinbase.id,
        transfer.inputs[0].output_index == 0,
        transfer.id != coinbase.id,
    ensures
        after_block(seq![reward_entry(coinbase)], block) == seq![
            reward_entry(coinbase),
            entry_of(transfer),
        ],
{
    let held = seq![reward_entry(coinbase)];
    let none = Seq::<UtxoEntryModel>::empty();
    let txs = block.transactions;
    let first = txs.drop_last();
    assert(first =~= seq![coinbase]);
    assert(first.drop_last() =~= Seq::<TransactionModel>::empty());
    assert(txs.last() == transfer);
    assert(first.last() == coinbase);
    // Spending: the coinbase spends nothing, the transfer spends the reward.
    assert(after_spending(held, first.drop_last()) == held);
    assert(after_spending(held, first) == held);
    assert(after_inputs(held, transfer, 0) == held);
    lemma_first_index(entry_ids(held), coinbase.id, 0);
    assert(held_outputs(held, coinbase.id) == Some(reward_entry(coinbase).outputs));
    let outputs = reward_entry(coinbase).outputs;
    assert(outputs.drop_last() =~= Seq::<IndexedOutputModel>::empty());
    assert(without_position(outputs.drop_last(), 0i32) =~= Seq::<IndexedOutputModel>::empty());
    assert(outputs.last().index == 0);
    assert(without_position(outputs, 0i32) =~= Seq::<IndexedOutputModel>::empty());
    assert(without_entry(held, coinbase.id) =~= none);
    assert(after_spend(held, coinbase.id, 0i32) == none);
    assert(after_inputs(held, transfer, 1) == none);
    assert(after_spending(held, txs) == none);
    // Writing: the reward again, then the outputs of the transfer.
    assert(after_writing(none, first.drop_last()) == none);
    lemma_no_index(entry_ids(none), coinbase.id);
    assert(indexed_outputs(coinbase) =~= outputs);
    assert(entry_of(coinbase) == reward_entry(coinbase));
    assert(with_outputs(none, entry_of(coinbase)) =~= held);
    assert(after_writing(none, first) == held);
    assert(entry_ids(held) =~= seq![coinbase.id]);
    lemma_no_index(entry_ids(held), transfer.id);
    assert(with_outputs(held, entry_of(transfer)) =~= seq![
        reward_entry(coinbase),
        entry_of(transfer),
    ]);
}

/// What an index of a reward for the sender and a transfer with an output
/// for the recipient and one for the sender holds for each of them.
pub proof fn lemma_first_balances(
    coinbase: TransactionModel,
    transfer: TransactionModel,
    sender: Seq<u8>,
    recipient: Seq<u8>,
    amount: u32,
)
    requires
        coinbase.outputs == seq![OutputModel { value: REWARD_AMOUNT, pub_key_hash: sender }],
        0 < amount < REWARD_AMOUNT,
        transfer.outputs == seq![
            OutputModel { value: amount, pub_key_hash: recipient },
            OutputModel { value: (REWARD_AMOUNT - amount) as u32, pub_key_hash: sender },
        ],
        sender != recipient,
    ensures
        balance_of(seq![reward_entry(coinbase), entry_of(transfer)], sender) == 2 * REWARD_AMOUNT
            - amount,
        balance_of(seq![reward_entry(coinbase), entry_of(transfer)], recipient) == amount,
{
    let reward = reward_entry(coinbase);
    let paid = entry_of(transfer);
    let index = seq![reward, paid];
    let first = index.drop_last();
    assert(first =~= seq![reward]);
    assert(first.drop_last() =~= Seq::<UtxoEntryModel>::empty());
    assert(index.last() == paid);
    assert(first.last() == reward);
    assert(paid.outputs.len() == 2);
    assert(paid.outputs[0].output == transfer.outputs[0]);
    assert(paid.outputs[1].output == transfer.outputs[1]);
    assert(paid.outputs[0].index == 0);
    assert(paid.outputs[1].index == 1);
    let none = Seq::<SpendableModel>::empty();
    // For the sender.
    let reward_item = SpendableModel { tx_id: reward.tx_id, output_index: 0i32, value: REWARD_AMOUNT };
    let rest_item = SpendableModel {
        tx_id: paid.tx_id,
        output_index: 1i32,
        value: (REWARD_AMOUNT - amount) as u32,
    };
    assert(locked_in_entry(reward, sender, 0) =~= none);
    assert(locked_in_entry(reward, sender, 1) =~= seq![reward_item]);
    assert(locked_in_index(first.drop_last(), sender) =~= none);
    assert(locked_in_index(first, sender) =~= seq![reward_item]);
    assert(locked_in_entry(paid, sender, 0) =~= none);
    assert(locked_in_entry(paid, sender, 1) =~= none);
    assert(locked_in_entry(paid, sender, 2) =~= seq![rest_item]);
    let for_sender = locked_in_index(index, sender);
    assert(for_sender =~= seq![reward_item, rest_item]);
    assert(for_sender.drop_last() =~= seq![reward_item]);
    assert(for_sender.drop_last().drop_last() =~= none);
    assert(spendable_total(for_sender.drop_last().drop_last()) == 0);
    assert(spendable_total(for_sender.drop_last()) == REWARD_AMOUNT);
    assert(spendable_total(for_sender) == 2 * REWARD_AMOUNT - amount);
    // For the recipient.
    let paid_item = SpendableModel { tx_id: paid.tx_id, output_index: 0i32, value: amount };
    assert(locked_in_entry(reward, recipient, 0) =~= none);
    assert(locked_in_entry(reward, recipient, 1) =~= none);
    assert(locked_in_index(first.drop_last(), recipient) =~= none);
    assert(locked_in_index(first, recipient) =~= none);
    assert(locked_in_entry(paid, recipient, 0) =~= none);
    assert(locked_in_entry(paid, recipient, 1) =~= seq![paid_item]);
    assert(locked_in_entry(paid, recipient, 2) =~= seq![paid_item]);
    let for_recipient = locked_in_index(index, recipient);
    assert(for_recipient =~= seq![paid_item]);
    assert(for_recipient.drop_last() =~= none);
    assert(spendable_total(for_recipient.drop_last()) == 0);
    assert(spendable_total(for_recipient) == amount);
}

/// After the genesis block that rewards the sender, the block that sends
/// less than the reward to another address leaves the sender with two
/// rewards less the amount, and the recipient with the amount. It holds
/// where the id of the transfer is not that of the coinbase transaction,
/// which rests on the digest.
pub proof fn lemma_first_transfer_balances(
    genesis: BlockModel,
    block: BlockModel,
    wallets: Seq<WalletEntryModel>,
    from: Seq<u8>,
    to: Seq<u8>,
    amount: u32,
)
    requires
        is_genesis_chain(seq![genesis], wallets, from),
        0 < amount < REWARD_AMOUNT,
        transfer_model(seq![genesis], wallets, from, to, amount) is Ok,
        block.transactions == seq![
            genesis.transactions[0],
            transfer_model(seq![genesis], wallets, from, to, amount)->Ok_0,
        ],
        block.transactions[1].id != genesis.transactions[0].id,
        decoded_hex_address(to) != Ok::<Seq<u8>, crate::wallet::AddressError>(
            pub_key_hash_of(stored_public_key(wallets, from).unwrap()),
        ),
    ensures
        decoded_hex_address(to) is Ok,
        balance_of(
            after_block(reindexed(seq![genesis]), block),
            pub_key_hash_of(stored_public_key(wallets, from).unwrap()),
        ) == 2 * REWARD_AMOUNT - amount,
        balance_of(after_block(reindexed(seq![genesis]), block), decoded_hex_address(to)->Ok_0)
            == amount,
{
    let pub_key = stored_public_key(wallets, from).unwrap();
    let note = "Reward to ".spec_bytes() + from;
    let coinbase = coinbase_model(pub_key, note);
    let transfer = transfer_model(seq![genesis], wallets, from, to, amount)->Ok_0;
    assert(seq![genesis][0] == genesis);
    assert(genesis.transactions == genesis_transactions(wallets, from));
    assert(genesis.transactions[0] == coinbase);
    assert(genesis.transactions =~= seq![coinbase]);
    lemma_first_transfer_shape(genesis, wallets, from, to, amount, transfer);
    lemma_genesis_index(genesis, pub_key, note);
    lemma_first_block_applied(coinbase, transfer, block);
    lemma_first_balances(
        coinbase,
        transfer,
        pub_key_hash_of(pub_key),
        decoded_hex_address(to)->Ok_0,
        amount,
    );
}

} // verus!
