//! The index of unspent outputs: derived from the chain, kept per
//! transaction id and output position.

use vstd::prelude::*;
use crate::block::{Block, BlockModel};
use crate::blockchain::{chain_transactions, greedy, select_spendable, Blockchain};
use crate::transaction::{
    is_coinbase_model, output_models, transaction_models, OutputModel, Transaction,
    TransactionModel, TXInput, TXOutput,
};
use crate::utils::{lemma_first_index, lemma_no_index, HashHex};

verus! {

/// A sum of output values. It is wider than a value, so that the sum of
/// outputs taken until they reach an amount always fits.
pub type Accumulated = u64;

/// An output that can be spent: where it stands and what it is worth.
#[derive(Debug)]
pub struct SpendableOutput {
    pub tx_id: HashHex,
    pub output_index: i32,
    pub value: u32,
}

/// What a spendable output holds.
pub struct SpendableModel {
    pub tx_id: Seq<u8>,
    pub output_index: i32,
    pub value: u32,
}

impl View for SpendableOutput {
    type V = SpendableModel;

    open spec fn view(&self) -> SpendableModel {
        SpendableModel { tx_id: self.tx_id@, output_index: self.output_index, value: self.value }
    }
}

impl Clone for SpendableOutput {
    fn clone(&self) -> (res: Self)
        ensures
            res@ == self@,
    {
        SpendableOutput {
            tx_id: self.tx_id.clone(),
            output_index: self.output_index,
            value: self.value,
        }
    }
}

/// The models of a row of spendable outputs.
pub open spec fn spendable_models(outputs: Seq<SpendableOutput>) -> Seq<SpendableModel> {
    outputs.map_values(|output: SpendableOutput| output@)
}

/// The sum of the values of spendable outputs.
pub open spec fn spendable_total(outputs: Seq<SpendableModel>) -> int
    decreases outputs.len(),
{
    if outputs.len() == 0 {
        0
    } else {
        spendable_total(outputs.drop_last()) + outputs.last().value
    }
}

/// An output with the position it has in its transaction.
#[derive(Debug)]
pub struct IndexedOutput {
    pub index: i32,
    pub output: TXOutput,
}

/// What an indexed output holds.
pub struct IndexedOutputModel {
    pub index: i32,
    pub output: OutputModel,
}

impl View for IndexedOutput {
    type V = IndexedOutputModel;

    open spec fn view(&self) -> IndexedOutputModel {
        IndexedOutputModel { index: self.index, output: self.output@ }
    }
}

/// The models of a row of indexed outputs.
pub open spec fn indexed_models(outputs: Seq<IndexedOutput>) -> Seq<IndexedOutputModel> {
    outputs.map_values(|output: IndexedOutput| output@)
}

/// The outputs of one transaction that the index holds.
#[derive(Debug)]
pub struct UtxoEntry {
    pub tx_id: HashHex,
    pub outputs: Vec<IndexedOutput>,
}

/// What an entry of the index holds.
pub struct UtxoEntryModel {
    pub tx_id: Seq<u8>,
    pub outputs: Seq<IndexedOutputModel>,
}

impl View for UtxoEntry {
    type V = UtxoEntryModel;

    open spec fn view(&self) -> UtxoEntryModel {
        UtxoEntryModel { tx_id: self.tx_id@, outputs: indexed_models(self.outputs@) }
    }
}

/// The index of unspent outputs: for a transaction id the outputs of that
/// transaction that it holds, each with its position.
#[derive(Debug)]
pub struct UTXOSet {
    pub entries: Vec<UtxoEntry>,
}

impl View for UTXOSet {
    type V = Seq<UtxoEntryModel>;

    open spec fn view(&self) -> Seq<UtxoEntryModel> {
        self.entries@.map_values(|entry: UtxoEntry| entry@)
    }
}

/// The transaction ids of a row of entries.
pub open spec fn entry_ids(entries: Seq<UtxoEntryModel>) -> Seq<Seq<u8>> {
    entries.map_values(|entry: UtxoEntryModel| entry.tx_id)
}

/// The outputs held for `tx_id`: those of the first entry with that id.
pub open spec fn held_outputs(entries: Seq<UtxoEntryModel>, tx_id: Seq<u8>) -> Option<
    Seq<IndexedOutputModel>,
> {
    match entry_ids(entries).index_of_first(tx_id) {
        Some(i) => Some(entries[i].outputs),
        None => None,
    }
}

/// The entries after `entry` was written: it takes the place of the first
/// entry with its id, or comes last where there is none.
pub open spec fn with_outputs(entries: Seq<UtxoEntryModel>, entry: UtxoEntryModel) -> Seq<
    UtxoEntryModel,
> {
    match entry_ids(entries).index_of_first(entry.tx_id) {
        Some(i) => entries.update(i, entry),
        None => entries.push(entry),
    }
}

/// The entries without the first one with the given id.
pub open spec fn without_entry(entries: Seq<UtxoEntryModel>, tx_id: Seq<u8>) -> Seq<UtxoEntryModel> {
    match entry_ids(entries).index_of_first(tx_id) {
        Some(i) => entries.remove(i),
        None => entries,
    }
}

/// The outputs of `outputs` whose position is not `index`, in order.
pub open spec fn without_position(outputs: Seq<IndexedOutputModel>, index: i32) -> Seq<
    IndexedOutputModel,
>
    decreases outputs.len(),
{
    if outputs.len() == 0 {
        Seq::empty()
    } else {
        let earlier = without_position(outputs.drop_last(), index);
        if outputs.last().index != index {
            earlier.push(outputs.last())
        } else {
            earlier
        }
    }
}

/// The entries after the output that `tx_id` and `index` refer to was
/// spent: where outputs are held for the id, the one at that position
/// leaves, and the entry with it where none is left.
pub open spec fn after_spend(entries: Seq<UtxoEntryModel>, tx_id: Seq<u8>, index: i32) -> Seq<
    UtxoEntryModel,
> {
    match held_outputs(entries, tx_id) {
        None => entries,
        Some(outputs) => {
            let left = without_position(outputs, index);
            if left.len() == 0 {
                without_entry(entries, tx_id)
            } else {
                with_outputs(entries, UtxoEntryModel { tx_id, outputs: left })
            }
        },
    }
}

/// The entries after the first `n` inputs of `tx` were spent.
pub open spec fn after_inputs(entries: Seq<UtxoEntryModel>, tx: TransactionModel, n: nat) -> Seq<
    UtxoEntryModel,
>
    decreases n,
{
    if n == 0 {
        entries
    } else {
        after_spend(
            after_inputs(entries, tx, (n - 1) as nat),
            tx.inputs[n - 1].tx_id,
            tx.inputs[n - 1].output_index,
        )
    }
}

/// The entries after every transaction of `txs` that is no coinbase had
/// its inputs spent, in order.
pub open spec fn after_spending(entries: Seq<UtxoEntryModel>, txs: Seq<TransactionModel>) -> Seq<
    UtxoEntryModel,
>
    decreases txs.len(),
{
    if txs.len() == 0 {
        entries
    } else {
        let before = after_spending(entries, txs.drop_last());
        if is_coinbase_model(txs.last()) {
            before
        } else {
            after_inputs(before, txs.last(), txs.last().inputs.len())
        }
    }
}

/// The outputs of a transaction, each with its position. An output beyond
/// the reach of a 32-bit position is left out.
pub open spec fn indexed_outputs(tx: TransactionModel) -> Seq<IndexedOutputModel> {
    Seq::new(
        if tx.outputs.len() <= i32::MAX {
            tx.outputs.len()
        } else {
            (i32::MAX + 1) as nat
        },
        |j: int| IndexedOutputModel { index: j as i32, output: tx.outputs[j] },
    )
}

/// The entry that holds all outputs of a transaction.
pub open spec fn entry_of(tx: TransactionModel) -> UtxoEntryModel {
    UtxoEntryModel { tx_id: tx.id, outputs: indexed_outputs(tx) }
}

/// The entries after all outputs of every transaction of `txs` were
/// written, in order.
pub open spec fn after_writing(entries: Seq<UtxoEntryModel>, txs: Seq<TransactionModel>) -> Seq<
    UtxoEntryModel,
>
    decreases txs.len(),
{
    if txs.len() == 0 {
        entries
    } else {
        with_outputs(after_writing(entries, txs.drop_last()), entry_of(txs.last()))
    }
}

/// The index after a block was applied: first the inputs of its
/// transactions are spent, then the outputs of all its transactions are
/// written.
pub open spec fn after_block(entries: Seq<UtxoEntryModel>, block: BlockModel) -> Seq<UtxoEntryModel> {
    after_writing(after_spending(entries, block.transactions), block.transactions)
}

/// The index that applying the blocks of a chain one after the other, from
/// the genesis block on, leaves: the outputs that remain unspent.
pub open spec fn index_of_chain(chain: Seq<BlockModel>) -> Seq<UtxoEntryModel>
    decreases chain.len(),
{
    if chain.len() == 0 {
        Seq::empty()
    } else {
        after_block(index_of_chain(chain.drop_last()), chain.last())
    }
}

/// The index made afresh from a chain: all outputs of all transactions,
/// written in the order of a walk from the newest block to the genesis
/// block.
pub open spec fn reindexed(chain: Seq<BlockModel>) -> Seq<UtxoEntryModel> {
    after_writing(Seq::empty(), chain_transactions(chain))
}

/// Those of the first `n` outputs of an entry that are locked to
/// `pub_key_hash`.
pub open spec fn locked_in_entry(entry: UtxoEntryModel, pub_key_hash: Seq<u8>, n: nat) -> Seq<
    SpendableModel,
>
    decreases n,
{
    if n == 0 {
        Seq::empty()
    } else {
        let earlier = locked_in_entry(entry, pub_key_hash, (n - 1) as nat);
        let held = entry.outputs[n - 1];
        if held.output.pub_key_hash == pub_key_hash {
            earlier.push(
                SpendableModel {
                    tx_id: entry.tx_id,
                    output_index: held.index,
                    value: held.output.value,
                },
            )
        } else {
            earlier
        }
    }
}

/// The outputs of the index that are locked to `pub_key_hash`, entry by
/// entry.
pub open spec fn locked_in_index(entries: Seq<UtxoEntryModel>, pub_key_hash: Seq<u8>) -> Seq<
    SpendableModel,
>
    decreases entries.len(),
{
    if entries.len() == 0 {
        Seq::empty()
    } else {
        locked_in_index(entries.drop_last(), pub_key_hash) + locked_in_entry(
            entries.last(),
            pub_key_hash,
            entries.last().outputs.len(),
        )
    }
}

/// The coins that the index holds for `pub_key_hash`.
pub open spec fn balance_of(entries: Seq<UtxoEntryModel>, pub_key_hash: Seq<u8>) -> int {
    spendable_total(locked_in_index(entries, pub_key_hash))
}

/// Whether no two of the held outputs stand at one position.
pub open spec fn has_unique_positions(outputs: Seq<IndexedOutputModel>) -> bool {
    forall|i: int, j: int|
        0 <= i < j < outputs.len() ==> (#[trigger] outputs[i]).index != (#[trigger] outputs[j]).index
}

/// Whether the index is a map: no transaction id has two entries, and no
/// entry holds two outputs at one position.
pub open spec fn is_keyed(entries: Seq<UtxoEntryModel>) -> bool {
    &&& entry_ids(entries).no_duplicates()
    &&& forall|i: int|
        0 <= i < entries.len() ==> has_unique_positions((#[trigger] entries[i]).outputs)
}

/// Writing an entry whose outputs stand at different positions keeps the
/// index a map.
pub proof fn lemma_write_keeps_keyed(entries: Seq<UtxoEntryModel>, entry: UtxoEntryModel)
    requires
        is_keyed(entries),
        has_unique_positions(entry.outputs),
    ensures
        is_keyed(with_outputs(entries, entry)),
{
    let ids = entry_ids(entries);
    let after = with_outputs(entries, entry);
    ids.index_of_first_ensures(entry.tx_id);
    match ids.index_of_first(entry.tx_id) {
        Some(i) => {
            assert(entry_ids(after) =~= ids);
            assert forall|k: int| 0 <= k < after.len() implies has_unique_positions(
                (#[trigger] after[k]).outputs,
            ) by {
                if k != i {
                    assert(after[k] == entries[k]);
                }
            }
        },
        None => {
            let ids_after = entry_ids(after);
            assert(ids_after =~= ids.push(entry.tx_id));
            assert forall|a: int, b: int|
                0 <= a < ids_after.len() && 0 <= b < ids_after.len() && a != b implies ids_after[a]
                != ids_after[b] by {
                if a < ids.len() && b < ids.len() {
                    assert(ids[a] != ids[b]);
                } else if a < ids.len() {
                    assert(ids.contains(ids[a]));
                } else {
                    assert(ids.contains(ids[b]));
                }
            }
            assert forall|k: int| 0 <= k < after.len() implies has_unique_positions(
                (#[trigger] after[k]).outputs,
            ) by {
                if k < entries.len() {
                    assert(after[k] == entries[k]);
                }
            }
        },
    }
}

/// Dropping an entry keeps the index a map.
pub proof fn lemma_drop_keeps_keyed(entries: Seq<UtxoEntryModel>, tx_id: Seq<u8>)
    requires
        is_keyed(entries),
    ensures
        is_keyed(without_entry(entries, tx_id)),
{
    let ids = entry_ids(entries);
    ids.index_of_first_ensures(tx_id);
    match ids.index_of_first(tx_id) {
        Some(i) => {
            let after = entries.remove(i);
            let ids_after = entry_ids(after);
            assert(ids_after =~= ids.remove(i));
            assert forall|a: int, b: int|
                0 <= a < ids_after.len() && 0 <= b < ids_after.len() && a != b implies ids_after[a]
                != ids_after[b] by {
                let a0 = if a < i {
                    a
                } else {
                    a + 1
                };
                let b0 = if b < i {
                    b
                } else {
                    b + 1
                };
                assert(ids_after[a] == ids[a0]);
                assert(ids_after[b] == ids[b0]);
            }
            assert forall|k: int| 0 <= k < after.len() implies has_unique_positions(
                (#[trigger] after[k]).outputs,
            ) by {
                if k < i {
                    assert(after[k] == entries[k]);
                } else {
                    assert(after[k] == entries[k + 1]);
                }
            }
        },
        None => {},
    }
}

proof fn lemma_left_outputs_are_held(outputs: Seq<IndexedOutputModel>, index: i32, k: int)
    requires
        0 <= k < without_position(outputs, index).len(),
    ensures
        outputs.contains(without_position(outputs, index)[k]),
    decreases outputs.len(),
{
    let earlier = without_position(outputs.drop_last(), index);
    if k < earlier.len() {
        lemma_left_outputs_are_held(outputs.drop_last(), index, k);
        let m = choose|m: int|
            0 <= m < outputs.drop_last().len() && outputs.drop_last()[m] == earlier[k];
        assert(outputs[m] == earlier[k]);
    } else {
        assert(without_position(outputs, index)[k] == outputs.last());
        assert(outputs[outputs.len() - 1] == outputs.last());
    }
}

/// Taking the outputs at one position away keeps the others at different
/// positions.
pub proof fn lemma_left_outputs_are_unique(outputs: Seq<IndexedOutputModel>, index: i32)
    requires
        has_unique_positions(outputs),
    ensures
        has_unique_positions(without_position(outputs, index)),
    decreases outputs.len(),
{
    if outputs.len() > 0 {
        let shorter = outputs.drop_last();
        assert(has_unique_positions(shorter)) by {
            assert forall|i: int, j: int| 0 <= i < j < shorter.len() implies (
            #[trigger] shorter[i]).index != (#[trigger] shorter[j]).index by {
                assert(shorter[i] == outputs[i]);
                assert(shorter[j] == outputs[j]);
            }
        }
        lemma_left_outputs_are_unique(shorter, index);
        let earlier = without_position(shorter, index);
        let left = without_position(outputs, index);
        if outputs.last().index != index {
            assert forall|i: int, j: int| 0 <= i < j < left.len() implies (#[trigger] left[i]).index
                != (#[trigger] left[j]).index by {
                if j < earlier.len() {
                    assert(left[i] == earlier[i]);
                    assert(left[j] == earlier[j]);
                } else {
                    assert(left[i] == earlier[i]);
                    lemma_left_outputs_are_held(shorter, index, i);
                    let m = choose|m: int| 0 <= m < shorter.len() && shorter[m] == earlier[i];
                    assert(shorter[m] == outputs[m]);
                    assert(left[j] == outputs[outputs.len() - 1]);
                }
            }
        }
    }
}

/// Spending an output keeps the index a map.
pub proof fn lemma_spend_keeps_keyed(entries: Seq<UtxoEntryModel>, tx_id: Seq<u8>, index: i32)
    requires
        is_keyed(entries),
    ensures
        is_keyed(after_spend(entries, tx_id, index)),
{
    entry_ids(entries).index_of_first_ensures(tx_id);
    match entry_ids(entries).index_of_first(tx_id) {
        None => {},
        Some(i) => {
            let left = without_position(entries[i].outputs, index);
            lemma_left_outputs_are_unique(entries[i].outputs, index);
            if left.len() == 0 {
                lemma_drop_keeps_keyed(entries, tx_id);
            } else {
                lemma_write_keeps_keyed(entries, UtxoEntryModel { tx_id, outputs: left });
            }
        },
    }
}

proof fn lemma_inputs_keep_keyed(entries: Seq<UtxoEntryModel>, tx: TransactionModel, n: nat)
    requires
        is_keyed(entries),
    ensures
        is_keyed(after_inputs(entries, tx, n)),
    decreases n,
{
    if n > 0 {
        lemma_inputs_keep_keyed(entries, tx, (n - 1) as nat);
        lemma_spend_keeps_keyed(
            after_inputs(entries, tx, (n - 1) as nat),
            tx.inputs[n - 1].tx_id,
            tx.inputs[n - 1].output_index,
        );
    }
}

/// Spending the inputs of transactions keeps the index a map.
pub proof fn lemma_spending_keeps_keyed(entries: Seq<UtxoEntryModel>, txs: Seq<TransactionModel>)
    requires
        is_keyed(entries),
    ensures
        is_keyed(after_spending(entries, txs)),
    decreases txs.len(),
{
    if txs.len() > 0 {
        lemma_spending_keeps_keyed(entries, txs.drop_last());
        if !is_coinbase_model(txs.last()) {
            lemma_inputs_keep_keyed(
                after_spending(entries, txs.drop_last()),
                txs.last(),
                txs.last().inputs.len(),
            );
        }
    }
}

/// The outputs of a transaction stand at different positions.
pub proof fn lemma_indexed_outputs_are_unique(tx: TransactionModel)
    ensures
        has_unique_positions(indexed_outputs(tx)),
{
    let outputs = indexed_outputs(tx);
    assert forall|i: int, j: int| 0 <= i < j < outputs.len() implies (#[trigger] outputs[i]).index
        != (#[trigger] outputs[j]).index by {
        assert(outputs[i].index == i as i32);
        assert(outputs[j].index == j as i32);
    }
}

/// Writing the outputs of transactions keeps the index a map.
pub proof fn lemma_writing_keeps_keyed(entries: Seq<UtxoEntryModel>, txs: Seq<TransactionModel>)
    requires
        is_keyed(entries),
    ensures
        is_keyed(after_writing(entries, txs)),
    decreases txs.len(),
{
    if txs.len() > 0 {
        lemma_writing_keeps_keyed(entries, txs.drop_last());
        lemma_indexed_outputs_are_unique(txs.last());
        lemma_write_keeps_keyed(after_writing(entries, txs.drop_last()), entry_of(txs.last()));
    }
}

/// Applying a block keeps the index a map.
pub proof fn lemma_block_keeps_keyed(entries: Seq<UtxoEntryModel>, block: BlockModel)
    requires
        is_keyed(entries),
    ensures
        is_keyed(after_block(entries, block)),
{
    lemma_spending_keeps_keyed(entries, block.transactions);
    lemma_writing_keeps_keyed(after_spending(entries, block.transactions), block.transactions);
}

/// The index made afresh from a chain is a map.
pub proof fn lemma_reindexed_is_keyed(chain: Seq<BlockModel>)
    ensures
        is_keyed(reindexed(chain)),
{
    lemma_writing_keeps_keyed(Seq::empty(), chain_transactions(chain));
}

/// Those of the first `n` ids under which the index holds nothing.
pub open spec fn ids_not_held(entries: Seq<UtxoEntryModel>, ids: Seq<Seq<u8>>, n: nat) -> Seq<
    Seq<u8>,
>
    decreases n,
{
    if n == 0 {
        Seq::empty()
    } else {
        let earlier = ids_not_held(entries, ids, (n - 1) as nat);
        if held_outputs(entries, ids[n - 1]) is None {
            earlier.push(ids[n - 1])
        } else {
            earlier
        }
    }
}

impl UTXOSet {
    /// An empty index.
    pub fn new() -> (index: Self)
        ensures
            index@ == Seq::<UtxoEntryModel>::empty(),
            is_keyed(index@),
    {
        let index = UTXOSet { entries: Vec::new() };
        assert(index@ =~= Seq::<UtxoEntryModel>::empty());
        index
    }

    /// Empties the index.
    pub fn clear(&mut self)
        ensures
            final(self)@ == Seq::<UtxoEntryModel>::empty(),
            is_keyed(final(self)@),
    {
        self.entries = Vec::new();
        assert(self@ =~= Seq::<UtxoEntryModel>::empty());
    }

    /// The number of entries.
    pub fn len(&self) -> (n: usize)
        ensures
            n == self@.len(),
    {
        self.entries.len()
    }

    fn position(&self, tx_id: &HashHex) -> (found: Option<usize>)
        ensures
            match found {
                Some(i) => i < self@.len() && entry_ids(self@).index_of_first(tx_id@) == Some(
                    i as int,
                ),
                None => entry_ids(self@).index_of_first(tx_id@) is None,
            },
    {
        let ghost ids = entry_ids(self@);
        let mut i: usize = 0;
        while i < self.entries.len()
            invariant
                i <= self.entries.len(),
                ids == entry_ids(self@),
                forall|k: int| 0 <= k < i ==> ids[k] != tx_id@,
            decreases self.entries.len() - i,
        {
            assert(ids[i as int] == self.entries@[i as int].tx_id@);
            if self.entries[i].tx_id.same_as(tx_id) {
                proof {
                    lemma_first_index(ids, tx_id@, i as int);
                }
                return Some(i);
            }
            i += 1;
        }
        proof {
            lemma_no_index(ids, tx_id@);
        }
        None
    }

    /// The transaction ids of the entries, in order.
    pub fn ids(&self) -> (list: Vec<HashHex>)
        ensures
            list@.map_values(|id: HashHex| id@) == entry_ids(self@),
    {
        let mut list: Vec<HashHex> = Vec::new();
        let mut i: usize = 0;
        while i < self.entries.len()
            invariant
                i <= self.entries.len(),
                list@.len() == i,
                forall|k: int| 0 <= k < i ==> (#[trigger] list@[k])@ == self.entries@[k].tx_id@,
            decreases self.entries.len() - i,
        {
            list.push(self.entries[i].tx_id.clone());
            i += 1;
        }
        assert(list@.map_values(|id: HashHex| id@) =~= entry_ids(self@));
        list
    }

    /// Those of `ids` under which the index holds nothing, in order: the
    /// entries that a store which held `ids` must drop to hold this index.
    pub fn dropped_ids(&self, ids: &Vec<HashHex>) -> (list: Vec<HashHex>)
        ensures
            list@.map_values(|id: HashHex| id@) == ids_not_held(
                self@,
                ids@.map_values(|id: HashHex| id@),
                ids@.len(),
            ),
    {
        let ghost wanted = ids@.map_values(|id: HashHex| id@);
        let mut list: Vec<HashHex> = Vec::new();
        let mut i: usize = 0;
        assert(list@.map_values(|id: HashHex| id@) =~= ids_not_held(self@, wanted, 0));
        while i < ids.len()
            invariant
                i <= ids.len(),
                wanted == ids@.map_values(|id: HashHex| id@),
                list@.map_values(|id: HashHex| id@) == ids_not_held(self@, wanted, i as nat),
            decreases ids.len() - i,
        {
            let ghost so_far = list@.map_values(|id: HashHex| id@);
            assert(wanted[i as int] == ids@[i as int]@);
            if self.position(&ids[i]).is_none() {
                list.push(ids[i].clone());
                assert(list@.map_values(|id: HashHex| id@) =~= so_far.push(ids@[i as int]@));
            }
            i += 1;
        }
        list
    }

    /// Writes `outputs` as what is held for `tx_id`, in place of what was.
    pub fn set(&mut self, tx_id: &HashHex, outputs: Vec<IndexedOutput>)
        ensures
            final(self)@ == with_outputs(
                old(self)@,
                UtxoEntryModel { tx_id: tx_id@, outputs: indexed_models(outputs@) },
            ),
            is_keyed(old(self)@) && has_unique_positions(indexed_models(outputs@)) ==> is_keyed(
                final(self)@,
            ),
    {
        proof {
            if is_keyed(old(self)@) && has_unique_positions(indexed_models(outputs@)) {
                lemma_write_keeps_keyed(
                    old(self)@,
                    UtxoEntryModel { tx_id: tx_id@, outputs: indexed_models(outputs@) },
                );
            }
        }
        let entry = UtxoEntry { tx_id: tx_id.clone(), outputs };
        let ghost before = self@;
        match self.position(tx_id) {
            Some(i) => {
                self.entries.set(i, entry);
                assert(self@ =~= before.update(i as int, entry@));
            },
            None => {
                self.entries.push(entry);
                assert(self@ =~= before.push(entry@));
            },
        }
    }

    /// Drops what is held for `tx_id`.
    pub fn remove(&mut self, tx_id: &HashHex)
        ensures
            final(self)@ == without_entry(old(self)@, tx_id@),
            is_keyed(old(self)@) ==> is_keyed(final(self)@),
    {
        proof {
            if is_keyed(old(self)@) {
                lemma_drop_keeps_keyed(old(self)@, tx_id@);
            }
        }
        let ghost before = self@;
        match self.position(tx_id) {
            Some(i) => {
                self.entries.remove(i);
                assert(self@ =~= before.remove(i as int));
            },
            None => {},
        }
    }

    /// Takes the output that `input` refers to out of the index.
    fn spend(&mut self, input: &TXInput)
        ensures
            final(self)@ == after_spend(old(self)@, input@.tx_id, input@.output_index),
    {
        let ghost before = self@;
        let at = match self.position(&input.tx_id) {
            Some(i) => i,
            None => {
                return ;
            },
        };
        let held = &self.entries[at].outputs;
        let ghost outputs = indexed_models(held@);
        assert(before[at as int] == self.entries@[at as int]@);
        let mut left: Vec<IndexedOutput> = Vec::new();
        let mut j: usize = 0;
        proof {
            assert(outputs.subrange(0, 0) =~= Seq::<IndexedOutputModel>::empty());
            assert(indexed_models(left@) =~= Seq::<IndexedOutputModel>::empty());
        }
        while j < held.len()
            invariant
                j <= held.len(),
                outputs == indexed_models(held@),
                indexed_models(left@) == without_position(
                    outputs.subrange(0, j as int),
                    input.output_index,
                ),
            decreases held.len() - j,
        {
            let ghost so_far = indexed_models(left@);
            proof {
                assert(outputs.subrange(0, j + 1).drop_last() == outputs.subrange(0, j as int));
                assert(outputs.subrange(0, j + 1).last() == held@[j as int]@);
            }
            if held[j].index != input.output_index {
                let kept = IndexedOutput { index: held[j].index, output: held[j].output.clone() };
                left.push(kept);
                assert(indexed_models(left@) =~= so_far.push(kept@));
            }
            j += 1;
        }
        assert(outputs.subrange(0, held.len() as int) == outputs);
        if left.len() == 0 {
            self.remove(&input.tx_id);
        } else {
            self.set(&input.tx_id, left);
        }
    }

    /// All outputs of `tx`, each with its position.
    fn outputs_of(tx: &Transaction) -> (outputs: Vec<IndexedOutput>)
        ensures
            indexed_models(outputs@) == indexed_outputs(tx@),
    {
        let mut outputs: Vec<IndexedOutput> = Vec::new();
        let mut j: usize = 0;
        while j < tx.outputs.len() && j <= i32::MAX as usize
            invariant
                j <= tx.outputs.len(),
                j <= i32::MAX + 1,
                outputs@.len() == j,
                forall|k: int|
                    0 <= k < j ==> (#[trigger] outputs@[k])@ == (IndexedOutputModel {
                        index: k as i32,
                        output: tx@.outputs[k],
                    }),
            decreases tx.outputs.len() - j,
        {
            assert(tx@.outputs[j as int] == tx.outputs@[j as int]@);
            outputs.push(IndexedOutput { index: j as i32, output: tx.outputs[j].clone() });
            j += 1;
        }
        assert(indexed_models(outputs@) =~= indexed_outputs(tx@));
        outputs
    }

    /// Writes all outputs of every transaction of `txs`, in order.
    fn write_all(&mut self, txs: &[Transaction])
        ensures
            final(self)@ == after_writing(old(self)@, transaction_models(txs@)),
    {
        let ghost models = transaction_models(txs@);
        let mut t: usize = 0;
        assert(models.subrange(0, 0) =~= Seq::<TransactionModel>::empty());
        while t < txs.len()
            invariant
                t <= txs.len(),
                models == transaction_models(txs@),
                self@ == after_writing(old(self)@, models.subrange(0, t as int)),
            decreases txs.len() - t,
        {
            proof {
                assert(models.subrange(0, t + 1).drop_last() == models.subrange(0, t as int));
                assert(models.subrange(0, t + 1).last() == txs@[t as int]@);
            }
            let outputs = Self::outputs_of(&txs[t]);
            self.set(&txs[t].id, outputs);
            t += 1;
        }
        assert(models.subrange(0, txs.len() as int) == models);
    }

    /// Applies a block that was appended to the chain: the outputs that the
    /// inputs of its transactions refer to leave the index, a coinbase
    /// spending nothing; then all outputs of all its transactions enter it.
    pub fn update(&mut self, block: &Block)
        ensures
            final(self)@ == after_block(old(self)@, block@),
            is_keyed(old(self)@) ==> is_keyed(final(self)@),
    {
        proof {
            if is_keyed(old(self)@) {
                lemma_block_keeps_keyed(old(self)@, block@);
            }
        }
        let ghost txs = block@.transactions;
        let mut t: usize = 0;
        assert(txs.subrange(0, 0) =~= Seq::<TransactionModel>::empty());
        while t < block.transactions.len()
            invariant
                t <= block.transactions.len(),
                txs == transaction_models(block.transactions@),
                self@ == after_spending(old(self)@, txs.subrange(0, t as int)),
            decreases block.transactions.len() - t,
        {
            let tx = &block.transactions[t];
            let ghost before = self@;
            proof {
                assert(txs.subrange(0, t + 1).drop_last() == txs.subrange(0, t as int));
                assert(txs.subrange(0, t + 1).last() == tx@);
            }
            if !tx.is_coinbase() {
                let mut k: usize = 0;
                while k < tx.inputs.len()
                    invariant
                        k <= tx.inputs.len(),
                        self@ == after_inputs(before, tx@, k as nat),
                    decreases tx.inputs.len() - k,
                {
                    assert(tx@.inputs[k as int] == tx.inputs@[k as int]@);
                    self.spend(&tx.inputs[k]);
                    k += 1;
                }
            }
            t += 1;
        }
        assert(txs.subrange(0, block.transactions.len() as int) == txs);
        self.write_all(block.transactions.as_slice());
    }

    /// Makes the index afresh from the chain: it is emptied, and all outputs
    /// of all transactions are written, walking from the newest block to the
    /// genesis block.
    pub fn reindex(&mut self, chain: &Blockchain)
        ensures
            final(self)@ == reindexed(chain@),
            is_keyed(final(self)@),
    {
        proof {
            lemma_reindexed_is_keyed(chain@);
        }
        self.clear();
        let all = chain.transactions_from_tip();
        self.write_all(all.as_slice());
    }

    /// The outputs of the index that are locked to `pub_key_hash`, each
    /// with the id of its transaction and its position, entry by entry.
    pub fn locked_outputs(&self, pub_key_hash: &HashHex) -> (list: Vec<SpendableOutput>)
        ensures
            spendable_models(list@) == locked_in_index(self@, pub_key_hash@),
    {
        let ghost entries = self@;
        let mut list: Vec<SpendableOutput> = Vec::new();
        let mut e: usize = 0;
        proof {
            assert(entries.subrange(0, 0) =~= Seq::<UtxoEntryModel>::empty());
            assert(spendable_models(list@) =~= Seq::<SpendableModel>::empty());
        }
        while e < self.entries.len()
            invariant
                e <= self.entries.len(),
                entries == self@,
                spendable_models(list@) == locked_in_index(
                    entries.subrange(0, e as int),
                    pub_key_hash@,
                ),
            decreases self.entries.len() - e,
        {
            let entry = &self.entries[e];
            let ghost before = spendable_models(list@);
            proof {
                assert(entries.subrange(0, e + 1).drop_last() == entries.subrange(0, e as int));
                assert(entries.subrange(0, e + 1).last() == entry@);
                assert(before + locked_in_entry(entry@, pub_key_hash@, 0) =~= before);
            }
            let mut j: usize = 0;
            while j < entry.outputs.len()
                invariant
                    j <= entry.outputs.len(),
                    spendable_models(list@) == before + locked_in_entry(
                        entry@,
                        pub_key_hash@,
                        j as nat,
                    ),
                decreases entry.outputs.len() - j,
            {
                let ghost so_far = spendable_models(list@);
                assert(entry@.outputs[j as int] == entry.outputs@[j as int]@);
                if entry.outputs[j].output.is_locked_with(pub_key_hash) {
                    let item = SpendableOutput {
                        tx_id: entry.tx_id.clone(),
                        output_index: entry.outputs[j].index,
                        value: entry.outputs[j].output.value,
                    };
                    list.push(item);
                    proof {
                        assert(spendable_models(list@) =~= so_far.push(item@));
                        assert(before + locked_in_entry(entry@, pub_key_hash@, j as nat).push(
                            item@,
                        ) =~= so_far.push(item@));
                    }
                }
                j += 1;
            }
            e += 1;
        }
        assert(entries.subrange(0, self.entries.len() as int) == entries);
        list
    }

    /// The outputs of the index that are locked to `pub_key_hash`.
    pub fn find_utxo(&self, pub_key_hash: &HashHex) -> (list: Vec<TXOutput>)
        ensures
            output_models(list@) == locked_in_index(self@, pub_key_hash@).map_values(
                |held: SpendableModel|
                    OutputModel { value: held.value, pub_key_hash: pub_key_hash@ },
            ),
    {
        let held = self.locked_outputs(pub_key_hash);
        let mut list: Vec<TXOutput> = Vec::new();
        let mut i: usize = 0;
        while i < held.len()
            invariant
                i <= held.len(),
                list@.len() == i,
                forall|k: int|
                    0 <= k < i ==> (#[trigger] list@[k])@ == (OutputModel {
                        value: held@[k]@.value,
                        pub_key_hash: pub_key_hash@,
                    }),
            decreases held.len() - i,
        {
            list.push(TXOutput { value: held[i].value, pub_key_hash: pub_key_hash.clone() });
            i += 1;
        }
        assert(output_models(list@) =~= spendable_models(held@).map_values(
            |held: SpendableModel| OutputModel { value: held.value, pub_key_hash: pub_key_hash@ },
        ));
        list
    }

    /// Outputs of the index locked to `pub_key_hash`, taken entry by entry
    /// until their values reach `amount`, with the sum of their values.
    pub fn find_spendable_outputs(&self, pub_key_hash: &HashHex, amount: u32) -> (res: (
        u64,
        Vec<SpendableOutput>,
    ))
        ensures
            spendable_models(res.1@) == greedy(
                locked_in_index(self@, pub_key_hash@),
                amount as int,
            ),
            res.0 == spendable_total(spendable_models(res.1@)),
    {
        let held = self.locked_outputs(pub_key_hash);
        select_spendable(&held, amount)
    }

    /// The coins that the index holds for `pub_key_hash`, where they fit 32
    /// bits.
    pub fn balance(&self, pub_key_hash: &HashHex) -> (coins: Option<u32>)
        ensures
            match coins {
                Some(n) => n == balance_of(self@, pub_key_hash@),
                None => balance_of(self@, pub_key_hash@) > u32::MAX,
            },
    {
        let held = self.locked_outputs(pub_key_hash);
        let ghost all = spendable_models(held@);
        let mut sum: u64 = 0;
        let mut i: usize = 0;
        assert(all.subrange(0, 0) =~= Seq::<SpendableModel>::empty());
        while i < held.len()
            invariant
                i <= held.len(),
                all == spendable_models(held@),
                all == locked_in_index(self@, pub_key_hash@),
                sum == spendable_total(all.subrange(0, i as int)),
                sum <= u32::MAX,
            decreases held.len() - i,
        {
            proof {
                assert(all.subrange(0, i + 1).drop_last() == all.subrange(0, i as int));
                assert(all.subrange(0, i + 1).last() == held@[i as int]@);
            }
            sum = sum + held[i].value as u64;
            if sum > u32::MAX as u64 {
                proof {
                    lemma_total_grows(all, (i + 1) as int);
                }
                return None;
            }
            i += 1;
        }
        assert(all.subrange(0, held.len() as int) == all);
        Some(sum as u32)
    }
}

/// The sum of the values of leading outputs is at most that of all.
pub proof fn lemma_total_grows(outputs: Seq<SpendableModel>, n: int)
    requires
        0 <= n <= outputs.len(),
    ensures
        spendable_total(outputs.subrange(0, n)) <= spendable_total(outputs),
    decreases outputs.len() - n,
{
    if n == outputs.len() {
        assert(outputs.subrange(0, n) == outputs);
    } else {
        lemma_total_grows(outputs, n + 1);
        assert(outputs.subrange(0, n + 1).drop_last() == outputs.subrange(0, n));
    }
}

} // verus!
