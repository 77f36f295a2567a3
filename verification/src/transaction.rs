//! Transactions: their canonical JSON text, their id, and signing and
//! verification over the trimmed copy.

use vstd::prelude::*;
use vstd::string::*;
use crate::block::BlockModel;
use crate::blockchain::{chain_transactions, greedy, unspent_outputs, Blockchain, ChainError};
use crate::hashing::{pub_key_hash_of, ripemd160, sha256, sha256_of};
use crate::utxo_set::{spendable_models, spendable_total, SpendableModel, SpendableOutput};
use crate::keys::{ecdsa_accepts, ecdsa_sign, ecdsa_signature_of, ecdsa_verify, public_key_of};
use crate::wallet::{
    decode_address, decoded_address, decoded_hex_address, stored_private_key, stored_public_key,
    AddressError, Wallet, WalletEntryModel, WalletNotFoundError, WalletStore,
};
use crate::utils::{
    append_bytes, decimal_ascii, decimal_i32, decimal_u64, hex_ascii, hex_encode, HashHex,
};

verus! {

/// The coins a coinbase transaction mints.
pub const REWARD_AMOUNT: u32 = 10;

/// The spender cannot cover the amount asked for.
#[derive(Debug, Clone, Copy, PartialEq, Eq, Structural)]
pub struct NotEnoughFundsError;

impl NotEnoughFundsError {
    /// The error in words.
    pub fn message(&self) -> (text: String)
        ensures
            text@ == "Not enough funds"@,
    {
        "Not enough funds".to_owned()
    }
}

impl From<NotEnoughFundsError> for ChainError {
    fn from(error: NotEnoughFundsError) -> (res: Self) {
        ChainError::NotEnoughFunds
    }
}

impl vstd::std_specs::convert::FromSpecImpl<NotEnoughFundsError> for ChainError {
    open spec fn obeys_from_spec() -> bool {
        true
    }

    open spec fn from_spec(error: NotEnoughFundsError) -> Self {
        ChainError::NotEnoughFunds
    }
}

impl From<WalletNotFoundError> for ChainError {
    fn from(error: WalletNotFoundError) -> (res: Self) {
        ChainError::WalletNotFound
    }
}

impl vstd::std_specs::convert::FromSpecImpl<WalletNotFoundError> for ChainError {
    open spec fn obeys_from_spec() -> bool {
        true
    }

    open spec fn from_spec(error: WalletNotFoundError) -> Self {
        ChainError::WalletNotFound
    }
}

/// Why a transaction could not be signed.
#[derive(Debug, Clone, Copy, PartialEq, Eq, Structural)]
pub enum SignError {
    /// An input refers to a transaction or an output that is not at hand.
    UnknownInput,
    /// The private key produced no signature.
    SigningFailed,
}

/// An amount of coins locked to the hash of a public key.
#[derive(Debug)]
pub struct TXOutput {
    pub value: u32,
    pub pub_key_hash: HashHex,
}

/// A reference to an earlier output, with the spender's key and signature.
/// A coinbase input refers to nothing: empty `tx_id`, `output_index` -1.
#[derive(Debug)]
pub struct TXInput {
    pub tx_id: HashHex,
    pub output_index: i32,
    pub signature: HashHex,
    pub pub_key: HashHex,
}

/// Inputs, outputs and the id computed over them when it was built.
#[derive(Debug)]
pub struct Transaction {
    pub id: HashHex,
    pub inputs: Vec<TXInput>,
    pub outputs: Vec<TXOutput>,
}

/// What an output holds.
pub struct OutputModel {
    pub value: u32,
    pub pub_key_hash: Seq<u8>,
}

/// What an input holds.
pub struct InputModel {
    pub tx_id: Seq<u8>,
    pub output_index: i32,
    pub signature: Seq<u8>,
    pub pub_key: Seq<u8>,
}

/// What a transaction holds.
pub struct TransactionModel {
    pub id: Seq<u8>,
    pub inputs: Seq<InputModel>,
    pub outputs: Seq<OutputModel>,
}

impl View for TXOutput {
    type V = OutputModel;

    open spec fn view(&self) -> OutputModel {
        OutputModel { value: self.value, pub_key_hash: self.pub_key_hash@ }
    }
}

impl View for TXInput {
    type V = InputModel;

    open spec fn view(&self) -> InputModel {
        InputModel {
            tx_id: self.tx_id@,
            output_index: self.output_index,
            signature: self.signature@,
            pub_key: self.pub_key@,
        }
    }
}

/// The models of a row of inputs.
pub open spec fn input_models(inputs: Seq<TXInput>) -> Seq<InputModel> {
    inputs.map_values(|input: TXInput| input@)
}

/// The models of a row of outputs.
pub open spec fn output_models(outputs: Seq<TXOutput>) -> Seq<OutputModel> {
    outputs.map_values(|output: TXOutput| output@)
}

/// The models of a row of transactions.
pub open spec fn transaction_models(txs: Seq<Transaction>) -> Seq<TransactionModel> {
    txs.map_values(|tx: Transaction| tx@)
}

impl View for Transaction {
    type V = TransactionModel;

    open spec fn view(&self) -> TransactionModel {
        TransactionModel {
            id: self.id@,
            inputs: input_models(self.inputs@),
            outputs: output_models(self.outputs@),
        }
    }
}

/// A byte string as a JSON string of lowercase hexadecimal digits.
pub open spec fn json_hex(bytes: Seq<u8>) -> Seq<u8> {
    seq![34u8] + hex_ascii(bytes) + seq![34u8]
}

/// The JSON object of an output.
pub open spec fn json_output(output: OutputModel) -> Seq<u8> {
    "{\"value\":".spec_bytes() + decimal_ascii(output.value as int)
        + ",\"pub_key_hash\":".spec_bytes() + json_hex(output.pub_key_hash) + "}".spec_bytes()
}

/// The JSON object of an input.
pub open spec fn json_input(input: InputModel) -> Seq<u8> {
    "{\"tx_id\":".spec_bytes() + json_hex(input.tx_id) + ",\"output_index\":".spec_bytes()
        + decimal_ascii(input.output_index as int) + ",\"signature\":".spec_bytes() + json_hex(
        input.signature,
    ) + ",\"pub_key\":".spec_bytes() + json_hex(input.pub_key) + "}".spec_bytes()
}

/// The texts of `items` with a comma between neighbours.
pub open spec fn comma_joined(items: Seq<Seq<u8>>) -> Seq<u8>
    decreases items.len(),
{
    if items.len() == 0 {
        Seq::empty()
    } else if items.len() == 1 {
        items[0]
    } else {
        comma_joined(items.drop_last()) + seq![44u8] + items.last()
    }
}

/// The JSON array of the given element texts.
pub open spec fn json_array(items: Seq<Seq<u8>>) -> Seq<u8> {
    seq![91u8] + comma_joined(items) + seq![93u8]
}

/// The JSON array of a row of inputs.
pub open spec fn json_inputs(inputs: Seq<InputModel>) -> Seq<u8> {
    json_array(inputs.map_values(|input: InputModel| json_input(input)))
}

/// The JSON array of a row of outputs.
pub open spec fn json_outputs(outputs: Seq<OutputModel>) -> Seq<u8> {
    json_array(outputs.map_values(|output: OutputModel| json_output(output)))
}

/// The JSON object of a transaction, the form in which it is a Merkle leaf.
pub open spec fn json_transaction(tx: TransactionModel) -> Seq<u8> {
    "{\"id\":".spec_bytes() + json_hex(tx.id) + ",\"inputs\":".spec_bytes() + json_inputs(
        tx.inputs,
    ) + ",\"outputs\":".spec_bytes() + json_outputs(tx.outputs) + "}".spec_bytes()
}

/// The id of a transaction with these inputs and outputs: the SHA-256 digest
/// of the inputs' JSON array followed by the outputs' JSON array.
pub open spec fn transaction_hash(inputs: Seq<InputModel>, outputs: Seq<OutputModel>) -> Seq<u8> {
    sha256_of(json_inputs(inputs) + json_outputs(outputs))
}

/// The coinbase transaction to the owner of `pub_key`, with `note` in the
/// place of the signature: it mints the reward, locked to the hash of the key.
pub open spec fn coinbase_model(pub_key: Seq<u8>, note: Seq<u8>) -> TransactionModel {
    let inputs = seq![
        InputModel { tx_id: Seq::empty(), output_index: -1i32, signature: note, pub_key: pub_key },
    ];
    let outputs = seq![
        OutputModel { value: REWARD_AMOUNT, pub_key_hash: pub_key_hash_of(pub_key) },
    ];
    TransactionModel { id: transaction_hash(inputs, outputs), inputs, outputs }
}

/// Whether a transaction mints coins: one input that refers to nothing.
pub open spec fn is_coinbase_model(tx: TransactionModel) -> bool {
    &&& tx.inputs.len() == 1
    &&& tx.inputs[0].tx_id.len() == 0
    &&& tx.inputs[0].output_index == -1
}

/// An input reduced to its reference: no key, no signature.
pub open spec fn trimmed_input(input: InputModel) -> InputModel {
    InputModel {
        tx_id: input.tx_id,
        output_index: input.output_index,
        signature: Seq::empty(),
        pub_key: Seq::empty(),
    }
}

/// A transaction with every input reduced to its reference.
pub open spec fn trimmed_model(tx: TransactionModel) -> TransactionModel {
    TransactionModel {
        id: tx.id,
        inputs: tx.inputs.map_values(|input: InputModel| trimmed_input(input)),
        outputs: tx.outputs,
    }
}

fn append_json_hex(out: &mut Vec<u8>, bytes: &HashHex)
    ensures
        final(out)@ == old(out)@ + json_hex(bytes@),
{
    out.push(34u8);
    let digits = hex_encode(bytes.0.as_slice());
    append_bytes(out, digits.as_slice());
    out.push(34u8);
    assert(out@ =~= old(out)@ + json_hex(bytes@));
}

fn append_json_output(out: &mut Vec<u8>, output: &TXOutput)
    ensures
        final(out)@ == old(out)@ + json_output(output@),
{
    append_bytes(out, "{\"value\":".as_bytes());
    let value = decimal_u64(output.value as u64);
    append_bytes(out, value.as_slice());
    append_bytes(out, ",\"pub_key_hash\":".as_bytes());
    append_json_hex(out, &output.pub_key_hash);
    append_bytes(out, "}".as_bytes());
    assert(out@ =~= old(out)@ + json_output(output@));
}

fn append_json_input(out: &mut Vec<u8>, input: &TXInput)
    ensures
        final(out)@ == old(out)@ + json_input(input@),
{
    append_bytes(out, "{\"tx_id\":".as_bytes());
    append_json_hex(out, &input.tx_id);
    append_bytes(out, ",\"output_index\":".as_bytes());
    let index = decimal_i32(input.output_index);
    append_bytes(out, index.as_slice());
    append_bytes(out, ",\"signature\":".as_bytes());
    append_json_hex(out, &input.signature);
    append_bytes(out, ",\"pub_key\":".as_bytes());
    append_json_hex(out, &input.pub_key);
    append_bytes(out, "}".as_bytes());
    assert(out@ =~= old(out)@ + json_input(input@));
}

fn append_json_inputs(out: &mut Vec<u8>, inputs: &[TXInput])
    ensures
        final(out)@ == old(out)@ + json_inputs(input_models(inputs@)),
{
    let ghost texts = input_models(inputs@).map_values(|input: InputModel| json_input(input));
    out.push(91u8);
    let mut i: usize = 0;
    while i < inputs.len()
        invariant
            i <= inputs.len(),
            texts == input_models(inputs@).map_values(|input: InputModel| json_input(input)),
            out@ == old(out)@ + seq![91u8] + comma_joined(texts.subrange(0, i as int)),
        decreases inputs.len() - i,
    {
        if i > 0 {
            out.push(44u8);
        }
        append_json_input(out, &inputs[i]);
        proof {
            let before = texts.subrange(0, i as int);
            let after = texts.subrange(0, i + 1);
            assert(after.drop_last() == before);
            assert(after.last() == json_input(inputs@[i as int]@));
            assert(out@ =~= old(out)@ + seq![91u8] + comma_joined(after));
        }
        i += 1;
    }
    out.push(93u8);
    assert(texts.subrange(0, inputs.len() as int) == texts);
    assert(out@ =~= old(out)@ + json_inputs(input_models(inputs@)));
}

fn append_json_outputs(out: &mut Vec<u8>, outputs: &[TXOutput])
    ensures
        final(out)@ == old(out)@ + json_outputs(output_models(outputs@)),
{
    let ghost texts = output_models(outputs@).map_values(|output: OutputModel| json_output(output));
    out.push(91u8);
    let mut i: usize = 0;
    while i < outputs.len()
        invariant
            i <= outputs.len(),
            texts == output_models(outputs@).map_values(
                |output: OutputModel| json_output(output),
            ),
            out@ == old(out)@ + seq![91u8] + comma_joined(texts.subrange(0, i as int)),
        decreases outputs.len() - i,
    {
        if i > 0 {
            out.push(44u8);
        }
        append_json_output(out, &outputs[i]);
        proof {
            let before = texts.subrange(0, i as int);
            let after = texts.subrange(0, i + 1);
            assert(after.drop_last() == before);
            assert(after.last() == json_output(outputs@[i as int]@));
            assert(out@ =~= old(out)@ + seq![91u8] + comma_joined(after));
        }
        i += 1;
    }
    out.push(93u8);
    assert(texts.subrange(0, outputs.len() as int) == texts);
    assert(out@ =~= old(out)@ + json_outputs(output_models(outputs@)));
}

impl Clone for TXOutput {
    fn clone(&self) -> (res: Self)
        ensures
            res@ == self@,
    {
        TXOutput { value: self.value, pub_key_hash: self.pub_key_hash.clone() }
    }
}

impl Clone for TXInput {
    fn clone(&self) -> (res: Self)
        ensures
            res@ == self@,
    {
        TXInput {
            tx_id: self.tx_id.clone(),
            output_index: self.output_index,
            signature: self.signature.clone(),
            pub_key: self.pub_key.clone(),
        }
    }
}

/// A copy of a row of outputs.
pub fn clone_outputs(outputs: &[TXOutput]) -> (copy: Vec<TXOutput>)
    ensures
        output_models(copy@) == output_models(outputs@),
{
    let mut copy: Vec<TXOutput> = Vec::new();
    let mut i: usize = 0;
    while i < outputs.len()
        invariant
            i <= outputs.len(),
            copy@.len() == i,
            forall|k: int| 0 <= k < i ==> (#[trigger] copy@[k])@ == outputs@[k]@,
        decreases outputs.len() - i,
    {
        copy.push(outputs[i].clone());
        i += 1;
    }
    assert(output_models(copy@) =~= output_models(outputs@));
    copy
}

/// A copy of a row of inputs.
pub fn clone_inputs(inputs: &[TXInput]) -> (copy: Vec<TXInput>)
    ensures
        input_models(copy@) == input_models(inputs@),
{
    let mut copy: Vec<TXInput> = Vec::new();
    let mut i: usize = 0;
    while i < inputs.len()
        invariant
            i <= inputs.len(),
            copy@.len() == i,
            forall|k: int| 0 <= k < i ==> (#[trigger] copy@[k])@ == inputs@[k]@,
        decreases inputs.len() - i,
    {
        copy.push(inputs[i].clone());
        i += 1;
    }
    assert(input_models(copy@) =~= input_models(inputs@));
    copy
}

impl Clone for Transaction {
    fn clone(&self) -> (res: Self)
        ensures
            res@ == self@,
    {
        Transaction {
            id: self.id.clone(),
            inputs: clone_inputs(self.inputs.as_slice()),
            outputs: clone_outputs(self.outputs.as_slice()),
        }
    }
}

impl TXOutput {
    /// Whether the output is locked to `pub_key_hash`.
    pub fn is_locked_with(&self, pub_key_hash: &HashHex) -> (locked: bool)
        ensures
            locked == (self@.pub_key_hash == pub_key_hash@),
    {
        self.pub_key_hash.same_as(pub_key_hash)
    }
}

impl TXOutput {
    /// Locks the output to the public-key hash that `address` stands for.
    /// An address that does not decode leaves the output as it is.
    pub fn lock(&mut self, address: &HashHex) -> (res: Result<(), AddressError>)
        ensures
            final(self)@.value == old(self)@.value,
            match res {
                Ok(()) => decoded_address(address@) == Ok::<Seq<u8>, AddressError>(
                    final(self)@.pub_key_hash,
                ),
                Err(e) => decoded_address(address@) == Err::<Seq<u8>, AddressError>(e)
                    && final(self)@ == old(self)@,
            },
    {
        match decode_address(address.0.as_slice()) {
            Ok(hash) => {
                self.pub_key_hash = hash;
                Ok(())
            },
            Err(e) => Err(e),
        }
    }
}

impl TXInput {
    /// Whether the input was made with the key that `pub_key_hash` is the
    /// hash of.
    pub fn uses_key(&self, pub_key_hash: &HashHex) -> (uses: bool)
        ensures
            uses == (pub_key_hash_of(self@.pub_key) == pub_key_hash@),
    {
        let inner = sha256(self.pub_key.0.as_slice());
        let locking_hash = HashHex(ripemd160(inner.as_slice()));
        pub_key_hash.same_as(&locking_hash)
    }
}

impl Transaction {
    /// A transaction of these inputs and outputs, with its id computed over
    /// them as they stand.
    pub fn new(inputs: Vec<TXInput>, outputs: Vec<TXOutput>) -> (tx: Self)
        ensures
            tx@.inputs == input_models(inputs@),
            tx@.outputs == output_models(outputs@),
            tx@.id == transaction_hash(tx@.inputs, tx@.outputs),
            tx@.id.len() == 32,
    {
        let id = Self::calculate_hash(inputs.as_slice(), outputs.as_slice());
        Transaction { id, inputs, outputs }
    }

    /// The id of a transaction with these inputs and outputs.
    pub fn calculate_hash(inputs: &[TXInput], outputs: &[TXOutput]) -> (id: HashHex)
        ensures
            id@ == transaction_hash(input_models(inputs@), output_models(outputs@)),
            id@.len() == 32,
    {
        let mut data: Vec<u8> = Vec::new();
        append_json_inputs(&mut data, inputs);
        append_json_outputs(&mut data, outputs);
        assert(data@ =~= json_inputs(input_models(inputs@)) + json_outputs(
            output_models(outputs@),
        ));
        HashHex(sha256(data.as_slice()))
    }

    /// The JSON text of the transaction.
    pub fn to_json(&self) -> (text: Vec<u8>)
        ensures
            text@ == json_transaction(self@),
    {
        let mut text: Vec<u8> = Vec::new();
        append_bytes(&mut text, "{\"id\":".as_bytes());
        append_json_hex(&mut text, &self.id);
        append_bytes(&mut text, ",\"inputs\":".as_bytes());
        append_json_inputs(&mut text, self.inputs.as_slice());
        append_bytes(&mut text, ",\"outputs\":".as_bytes());
        append_json_outputs(&mut text, self.outputs.as_slice());
        append_bytes(&mut text, "}".as_bytes());
        assert(text@ =~= json_transaction(self@));
        text
    }

    /// The coinbase transaction that rewards the wallet stored under
    /// `address`, given as hexadecimal text. Its input carries the wallet's
    /// public key and, in the place of the signature, the bytes of
    /// `signature` or of "Reward to " followed by the address.
    pub fn new_coinbase(address: &str, signature: Option<&str>, store: &WalletStore) -> (res:
        Result<Self, WalletNotFoundError>)
        ensures
            match res {
                Ok(tx) => stored_public_key(store@, address.spec_bytes()) is Some && tx@
                    == coinbase_model(
                    stored_public_key(store@, address.spec_bytes()).unwrap(),
                    match signature {
                        Some(note) => note.spec_bytes(),
                        None => "Reward to ".spec_bytes() + address.spec_bytes(),
                    },
                ) && is_coinbase_model(tx@),
                Err(_) => stored_public_key(store@, address.spec_bytes()) is None,
            },
    {
        let wallet = match Wallet::get_by(address, store) {
            Some(w) => w,
            None => {
                return Err(WalletNotFoundError);
            },
        };
        let pub_key = wallet.pub_key_bytes_vec();
        let pub_key_hash = Wallet::hash_pub_key(wallet.pub_key_bytes_vec());
        let mut note: Vec<u8> = Vec::new();
        match signature {
            Some(text) => {
                append_bytes(&mut note, text.as_bytes());
            },
            None => {
                append_bytes(&mut note, "Reward to ".as_bytes());
                append_bytes(&mut note, address.as_bytes());
            },
        }
        let tx_in = TXInput {
            tx_id: HashHex::empty(),
            output_index: -1,
            pub_key: HashHex(pub_key),
            signature: HashHex(note),
        };
        let tx_out = TXOutput { value: REWARD_AMOUNT, pub_key_hash };
        let mut inputs: Vec<TXInput> = Vec::new();
        inputs.push(tx_in);
        let mut outputs: Vec<TXOutput> = Vec::new();
        outputs.push(tx_out);
        let tx = Transaction::new(inputs, outputs);
        proof {
            let model = coinbase_model(
                stored_public_key(store@, address.spec_bytes()).unwrap(),
                match signature {
                    Some(note) => note.spec_bytes(),
                    None => "Reward to ".spec_bytes() + address.spec_bytes(),
                },
            );
            assert(tx@.inputs =~= model.inputs);
            assert(tx@.outputs =~= model.outputs);
        }
        Ok(tx)
    }

    /// Whether the transaction mints coins.
    pub fn is_coinbase(&self) -> (coinbase: bool)
        ensures
            coinbase == is_coinbase_model(self@),
    {
        self.inputs.len() == 1 && self.inputs[0].tx_id.0.len() == 0 && self.inputs[0].output_index
            == -1
    }

    /// A copy in which every input is reduced to its reference.
    pub fn trimmed_copy(&self) -> (copy: Self)
        ensures
            copy@ == trimmed_model(self@),
    {
        let mut inputs: Vec<TXInput> = Vec::new();
        let mut i: usize = 0;
        while i < self.inputs.len()
            invariant
                i <= self.inputs.len(),
                inputs@.len() == i,
                forall|k: int|
                    0 <= k < i ==> (#[trigger] inputs@[k])@ == trimmed_input(self.inputs@[k]@),
            decreases self.inputs.len() - i,
        {
            inputs.push(
                TXInput {
                    tx_id: self.inputs[i].tx_id.clone(),
                    output_index: self.inputs[i].output_index,
                    signature: HashHex::empty(),
                    pub_key: HashHex::empty(),
                },
            );
            i += 1;
        }
        let copy = Transaction {
            id: self.id.clone(),
            inputs,
            outputs: clone_outputs(self.outputs.as_slice()),
        };
        assert(copy@.inputs =~= trimmed_model(self@).inputs);
        copy
    }
}


/// The first transaction of `txs` with the given id.
pub open spec fn find_by_id(txs: Seq<TransactionModel>, id: Seq<u8>) -> Option<TransactionModel>
    decreases txs.len(),
{
    if txs.len() == 0 {
        None
    } else if txs[0].id == id {
        Some(txs[0])
    } else {
        find_by_id(txs.drop_first(), id)
    }
}

/// The output that `input` refers to among `previous`, if it is there.
pub open spec fn referenced_output(previous: Seq<TransactionModel>, input: InputModel) -> Option<
    OutputModel,
> {
    match find_by_id(previous, input.tx_id) {
        Some(tx) => if 0 <= input.output_index < tx.outputs.len() {
            Some(tx.outputs[input.output_index as int])
        } else {
            None
        },
        None => None,
    }
}

/// What is signed for input `i`: the id of the trimmed copy in which that
/// one input carries, as its key, the hash that the referenced output is
/// locked to.
pub open spec fn signing_payload(tx: TransactionModel, i: int, locked_to: Seq<u8>) -> Seq<u8> {
    let trimmed = trimmed_model(tx).inputs;
    transaction_hash(
        trimmed.update(
            i,
            InputModel {
                tx_id: trimmed[i].tx_id,
                output_index: trimmed[i].output_index,
                signature: Seq::empty(),
                pub_key: locked_to,
            },
        ),
        tx.outputs,
    )
}

/// The signature that input `i` gets under `private_key`.
pub open spec fn input_signature(
    tx: TransactionModel,
    previous: Seq<TransactionModel>,
    private_key: Seq<u8>,
    i: int,
) -> Result<Seq<u8>, SignError> {
    match referenced_output(previous, tx.inputs[i]) {
        None => Err(SignError::UnknownInput),
        Some(output) => match ecdsa_signature_of(
            private_key,
            signing_payload(tx, i, output.pub_key_hash),
        ) {
            Some(signature) => Ok(signature),
            None => Err(SignError::SigningFailed),
        },
    }
}

/// The signatures of the first `n` inputs, or the error of the first input
/// that cannot be signed.
pub open spec fn input_signatures(
    tx: TransactionModel,
    previous: Seq<TransactionModel>,
    private_key: Seq<u8>,
    n: nat,
) -> Result<Seq<Seq<u8>>, SignError>
    decreases n,
{
    if n == 0 {
        Ok(Seq::empty())
    } else {
        match input_signatures(tx, previous, private_key, (n - 1) as nat) {
            Err(e) => Err(e),
            Ok(earlier) => match input_signature(tx, previous, private_key, n - 1) {
                Err(e) => Err(e),
                Ok(signature) => Ok(earlier.push(signature)),
            },
        }
    }
}

/// `tx` with the given signatures in its inputs, in order.
pub open spec fn with_signatures(tx: TransactionModel, signatures: Seq<Seq<u8>>) -> TransactionModel {
    TransactionModel {
        id: tx.id,
        inputs: Seq::new(
            tx.inputs.len(),
            |i: int|
                InputModel {
                    tx_id: tx.inputs[i].tx_id,
                    output_index: tx.inputs[i].output_index,
                    signature: signatures[i],
                    pub_key: tx.inputs[i].pub_key,
                },
        ),
        outputs: tx.outputs,
    }
}

/// What signing makes of `tx`: a coinbase is left as it is; otherwise every
/// input gets its signature, or the first input that cannot be signed gives
/// the error.
pub open spec fn signed_model(
    tx: TransactionModel,
    previous: Seq<TransactionModel>,
    private_key: Seq<u8>,
) -> Result<TransactionModel, SignError> {
    if is_coinbase_model(tx) {
        Ok(tx)
    } else {
        match input_signatures(tx, previous, private_key, tx.inputs.len()) {
            Err(e) => Err(e),
            Ok(signatures) => Ok(with_signatures(tx, signatures)),
        }
    }
}

/// Whether input `i` refers to an output at hand and carries a signature
/// that its own key accepts for what is signed.
pub open spec fn input_verifies(tx: TransactionModel, previous: Seq<TransactionModel>, i: int) -> bool {
    match referenced_output(previous, tx.inputs[i]) {
        None => false,
        Some(output) => ecdsa_accepts(
            tx.inputs[i].pub_key,
            signing_payload(tx, i, output.pub_key_hash),
            tx.inputs[i].signature,
        ),
    }
}

/// Whether `tx` is valid against `previous`: a coinbase is; another
/// transaction is if every input verifies.
pub open spec fn verifies(tx: TransactionModel, previous: Seq<TransactionModel>) -> bool {
    is_coinbase_model(tx) || forall|i: int|
        0 <= i < tx.inputs.len() ==> #[trigger] input_verifies(tx, previous, i)
}

/// Whether input `i` can be signed and the signature is one that the public
/// key of `private_key` accepts.
spec fn signature_accepted(
    tx: TransactionModel,
    previous: Seq<TransactionModel>,
    private_key: Seq<u8>,
    i: int,
) -> bool {
    &&& input_signature(tx, previous, private_key, i) is Ok
    &&& public_key_of(private_key) is Some
    &&& ecdsa_accepts(
        public_key_of(private_key).unwrap(),
        signing_payload(tx, i, referenced_output(previous, tx.inputs[i]).unwrap().pub_key_hash),
        input_signature(tx, previous, private_key, i).unwrap(),
    )
}

proof fn lemma_signatures_index(
    tx: TransactionModel,
    previous: Seq<TransactionModel>,
    private_key: Seq<u8>,
    n: nat,
    k: int,
)
    requires
        0 <= k < n,
        input_signatures(tx, previous, private_key, n) is Ok,
    ensures
        input_signatures(tx, previous, private_key, n).unwrap().len() == n,
        input_signature(tx, previous, private_key, k) == Ok::<Seq<u8>, SignError>(
            input_signatures(tx, previous, private_key, n).unwrap()[k],
        ),
    decreases n,
{
    if n > 0 {
        lemma_signatures_len(tx, previous, private_key, (n - 1) as nat);
        if k < n - 1 {
            lemma_signatures_index(tx, previous, private_key, (n - 1) as nat, k);
        }
    }
}

proof fn lemma_signatures_len(
    tx: TransactionModel,
    previous: Seq<TransactionModel>,
    private_key: Seq<u8>,
    n: nat,
)
    requires
        input_signatures(tx, previous, private_key, n) is Ok,
    ensures
        input_signatures(tx, previous, private_key, n).unwrap().len() == n,
    decreases n,
{
    if n > 0 {
        lemma_signatures_len(tx, previous, private_key, (n - 1) as nat);
    }
}

proof fn lemma_find_by_id_skip(txs: Seq<TransactionModel>, id: Seq<u8>, i: int)
    requires
        0 <= i < txs.len(),
        forall|k: int| 0 <= k < i ==> (#[trigger] txs[k]).id != id,
    ensures
        find_by_id(txs, id) == if txs[i].id == id {
            Some(txs[i])
        } else {
            find_by_id(txs.skip(i + 1), id)
        },
    decreases i,
{
    if i == 0 {
        assert(txs.drop_first() == txs.skip(1));
    } else {
        let rest = txs.drop_first();
        assert forall|k: int| 0 <= k < i - 1 implies (#[trigger] rest[k]).id != id by {
            assert(rest[k] == txs[k + 1]);
        }
        lemma_find_by_id_skip(rest, id, i - 1);
        assert(rest.skip(i) == txs.skip(i + 1));
        assert(rest[i - 1] == txs[i]);
    }
}

proof fn lemma_find_by_id_none(txs: Seq<TransactionModel>, id: Seq<u8>)
    requires
        forall|k: int| 0 <= k < txs.len() ==> (#[trigger] txs[k]).id != id,
    ensures
        find_by_id(txs, id) is None,
    decreases txs.len(),
{
    if txs.len() > 0 {
        let rest = txs.drop_first();
        assert forall|k: int| 0 <= k < rest.len() implies (#[trigger] rest[k]).id != id by {
            assert(rest[k] == txs[k + 1]);
        }
        lemma_find_by_id_none(rest, id);
    }
}

proof fn lemma_signing_stops(
    tx: TransactionModel,
    previous: Seq<TransactionModel>,
    private_key: Seq<u8>,
    i: nat,
    n: nat,
)
    requires
        i <= n,
        input_signatures(tx, previous, private_key, i) is Err,
    ensures
        input_signatures(tx, previous, private_key, n) == input_signatures(
            tx,
            previous,
            private_key,
            i,
        ),
    decreases n,
{
    if i < n {
        lemma_signing_stops(tx, previous, private_key, i, (n - 1) as nat);
    }
}

/// The position of the first transaction of `txs` with the given id.
pub fn position_by_id(txs: &[Transaction], id: &HashHex) -> (found: Option<usize>)
    ensures
        match found {
            Some(i) => i < txs@.len() && find_by_id(transaction_models(txs@), id@) == Some(
                txs@[i as int]@,
            ),
            None => find_by_id(transaction_models(txs@), id@) is None,
        },
{
    let ghost models = transaction_models(txs@);
    let mut i: usize = 0;
    while i < txs.len()
        invariant
            i <= txs.len(),
            models == transaction_models(txs@),
            forall|k: int| 0 <= k < i ==> (#[trigger] models[k]).id != id@,
        decreases txs.len() - i,
    {
        if txs[i].id.same_as(id) {
            proof {
                lemma_find_by_id_skip(models, id@, i as int);
            }
            return Some(i);
        }
        i += 1;
    }
    proof {
        lemma_find_by_id_none(models, id@);
    }
    None
}

/// The hash that the output `input` refers to is locked to, if the output
/// is among `previous`.
fn referenced_lock(previous: &[Transaction], input: &TXInput) -> (locked_to: Option<HashHex>)
    ensures
        match locked_to {
            Some(hash) => referenced_output(transaction_models(previous@), input@) is Some
                && referenced_output(transaction_models(previous@), input@).unwrap().pub_key_hash
                == hash@,
            None => referenced_output(transaction_models(previous@), input@) is None,
        },
{
    match position_by_id(previous, &input.tx_id) {
        None => None,
        Some(at) => {
            let tx = &previous[at];
            if input.output_index < 0 || input.output_index as usize >= tx.outputs.len() {
                None
            } else {
                Some(tx.outputs[input.output_index as usize].pub_key_hash.clone())
            }
        },
    }
}

impl Transaction {
    /// What is signed for input `i`, given the hash that the output it
    /// refers to is locked to.
    fn payload(&self, i: usize, locked_to: &HashHex) -> (payload: HashHex)
        requires
            i < self.inputs@.len(),
        ensures
            payload@ == signing_payload(self@, i as int, locked_to@),
    {
        let mut copy = self.trimmed_copy();
        assert(input_models(copy.inputs@).len() == self@.inputs.len());
        assert(input_models(copy.inputs@)[i as int] == copy.inputs@[i as int]@);
        let marked = TXInput {
            tx_id: copy.inputs[i].tx_id.clone(),
            output_index: copy.inputs[i].output_index,
            signature: HashHex::empty(),
            pub_key: locked_to.clone(),
        };
        copy.inputs.set(i, marked);
        assert(input_models(copy.inputs@) =~= trimmed_model(self@).inputs.update(i as int, marked@));
        Self::calculate_hash(copy.inputs.as_slice(), copy.outputs.as_slice())
    }

    /// Signs every input with `private_key`, looking up the outputs they
    /// refer to among `prev_transactions`. A coinbase is left unsigned. On an
    /// error nothing is changed.
    pub fn sign(&mut self, prev_transactions: &[Transaction], private_key: &[u8]) -> (res: Result<
        (),
        SignError,
    >)
        ensures
            match res {
                Ok(()) => signed_model(
                    old(self)@,
                    transaction_models(prev_transactions@),
                    private_key@,
                ) == Ok::<TransactionModel, SignError>(final(self)@),
                Err(e) => signed_model(
                    old(self)@,
                    transaction_models(prev_transactions@),
                    private_key@,
                ) == Err::<TransactionModel, SignError>(e) && final(self)@ == old(self)@,
            },
            res is Ok && (forall|i: int|
                0 <= i < old(self)@.inputs.len() ==> public_key_of(private_key@) == Some(
                    (#[trigger] old(self)@.inputs[i]).pub_key,
                )) ==> verifies(final(self)@, transaction_models(prev_transactions@)),
            res is Ok && !is_coinbase_model(old(self)@) ==> forall|i: int|
                0 <= i < final(self)@.inputs.len() ==> (#[trigger] final(self)@.inputs[i]).signature.len()
                    == 64,
    {
        if self.is_coinbase() {
            return Ok(());
        }
        let ghost tx = self@;
        let ghost previous = transaction_models(prev_transactions@);
        let mut signatures: Vec<Vec<u8>> = Vec::new();
        let mut i: usize = 0;
        while i < self.inputs.len()
            invariant
                i <= self.inputs.len(),
                self@ == tx,
                !is_coinbase_model(tx),
                previous == transaction_models(prev_transactions@),
                signatures@.len() == i,
                input_signatures(tx, previous, private_key@, i as nat) is Ok,
                forall|k: int|
                    0 <= k < i ==> (#[trigger] signatures@[k])@ == input_signatures(
                        tx,
                        previous,
                        private_key@,
                        i as nat,
                    ).unwrap()[k],
                input_signatures(tx, previous, private_key@, i as nat).unwrap().len() == i,
                forall|k: int|
                    0 <= k < i ==> #[trigger] signature_accepted(tx, previous, private_key@, k),
                forall|k: int| 0 <= k < i ==> (#[trigger] signatures@[k])@.len() == 64,
            decreases self.inputs.len() - i,
        {
            assert(self.inputs@[i as int]@ == tx.inputs[i as int]);
            let locked_to = match referenced_lock(prev_transactions, &self.inputs[i]) {
                Some(hash) => hash,
                None => {
                    proof {
                        assert(input_signature(tx, previous, private_key@, i as int)
                            == Err::<Seq<u8>, SignError>(SignError::UnknownInput));
                        assert(input_signatures(tx, previous, private_key@, (i + 1) as nat)
                            == Err::<Seq<Seq<u8>>, SignError>(SignError::UnknownInput));
                        lemma_signing_stops(
                            tx,
                            previous,
                            private_key@,
                            (i + 1) as nat,
                            tx.inputs.len(),
                        );
                    }
                    return Err(SignError::UnknownInput);
                },
            };
            let payload = self.payload(i, &locked_to);
            let signature = match ecdsa_sign(private_key, payload.0.as_slice()) {
                Some(bytes) => bytes,
                None => {
                    proof {
                        assert(input_signature(tx, previous, private_key@, i as int)
                            == Err::<Seq<u8>, SignError>(SignError::SigningFailed));
                        assert(input_signatures(tx, previous, private_key@, (i + 1) as nat)
                            == Err::<Seq<Seq<u8>>, SignError>(SignError::SigningFailed));
                        lemma_signing_stops(
                            tx,
                            previous,
                            private_key@,
                            (i + 1) as nat,
                            tx.inputs.len(),
                        );
                    }
                    return Err(SignError::SigningFailed);
                },
            };
            proof {
                assert(input_signature(tx, previous, private_key@, i as int) == Ok::<
                    Seq<u8>,
                    SignError,
                >(signature@));
                assert(signature_accepted(tx, previous, private_key@, i as int));
            }
            signatures.push(signature);
            i += 1;
        }
        let ghost all = input_signatures(tx, previous, private_key@, tx.inputs.len()).unwrap();
        let mut signed: Vec<TXInput> = Vec::new();
        let mut j: usize = 0;
        while j < self.inputs.len()
            invariant
                j <= self.inputs.len(),
                self@ == tx,
                all.len() == signatures@.len(),
                signatures@.len() == self.inputs@.len(),
                forall|k: int| 0 <= k < signatures@.len() ==> (#[trigger] signatures@[k])@.len() == 64,
                forall|k: int| 0 <= k < j ==> (#[trigger] signed@[k])@.signature.len() == 64,
                forall|k: int| 0 <= k < signatures@.len() ==> (#[trigger] signatures@[k])@ == all[k],
                signed@.len() == j,
                forall|k: int|
                    0 <= k < j ==> (#[trigger] signed@[k])@ == with_signatures(tx, all).inputs[k],
            decreases self.inputs.len() - j,
        {
            let input = &self.inputs[j];
            assert(input@ == tx.inputs[j as int]);
            signed.push(
                TXInput {
                    tx_id: input.tx_id.clone(),
                    output_index: input.output_index,
                    signature: HashHex::from_slice(signatures[j].as_slice()),
                    pub_key: input.pub_key.clone(),
                },
            );
            j += 1;
        }
        self.inputs = signed;
        assert(input_models(self.inputs@) =~= with_signatures(tx, all).inputs);
        assert forall|i: int| 0 <= i < self@.inputs.len() implies (#[trigger] self@.inputs[i]).signature.len()
            == 64 by {
            assert(self@.inputs[i] == self.inputs@[i]@);
        }
        proof {
            let done = with_signatures(tx, all);
            assert(self@ == done);
            if forall|i: int|
                0 <= i < tx.inputs.len() ==> public_key_of(private_key@) == Some(
                    (#[trigger] tx.inputs[i]).pub_key,
                ) {
                assert forall|k: int| 0 <= k < done.inputs.len() implies #[trigger] input_verifies(
                    done,
                    previous,
                    k,
                ) by {
                    assert(signature_accepted(tx, previous, private_key@, k));
                    assert(public_key_of(private_key@) == Some(tx.inputs[k].pub_key));
                    let output = referenced_output(previous, tx.inputs[k]).unwrap();
                    lemma_payload_ignores_signatures(tx, all, k, output.pub_key_hash);
                    lemma_signatures_index(tx, previous, private_key@, tx.inputs.len(), k);
                }
            }
        }
        Ok(())
    }

    /// Whether the transaction is valid against `prev_transactions`: a
    /// coinbase is; another is if every input refers to an output found
    /// there and carries a signature, made over the trimmed copy, that the
    /// input's own key accepts.
    pub fn verify(&self, prev_transactions: &[Transaction]) -> (valid: bool)
        ensures
            valid == verifies(self@, transaction_models(prev_transactions@)),
    {
        if self.is_coinbase() {
            return true;
        }
        let ghost previous = transaction_models(prev_transactions@);
        let mut i: usize = 0;
        while i < self.inputs.len()
            invariant
                i <= self.inputs.len(),
                !is_coinbase_model(self@),
                previous == transaction_models(prev_transactions@),
                forall|k: int| 0 <= k < i ==> #[trigger] input_verifies(self@, previous, k),
            decreases self.inputs.len() - i,
        {
            let input = &self.inputs[i];
            assert(input@ == self@.inputs[i as int]);
            let locked_to = match referenced_lock(prev_transactions, input) {
                Some(hash) => hash,
                None => {
                    assert(!input_verifies(self@, previous, i as int));
                    return false;
                },
            };
            let payload = self.payload(i, &locked_to);
            if !ecdsa_verify(
                input.pub_key.0.as_slice(),
                payload.0.as_slice(),
                input.signature.0.as_slice(),
            ) {
                assert(!input_verifies(self@, previous, i as int));
                return false;
            }
            i += 1;
        }
        true
    }
}

/// What is signed for an input does not depend on the keys and signatures
/// that the inputs carry.
pub proof fn lemma_payload_ignores_signatures(
    tx: TransactionModel,
    signatures: Seq<Seq<u8>>,
    i: int,
    locked_to: Seq<u8>,
)
    requires
        0 <= i < tx.inputs.len(),
    ensures
        signing_payload(with_signatures(tx, signatures), i, locked_to) == signing_payload(
            tx,
            i,
            locked_to,
        ),
{
    assert(trimmed_model(with_signatures(tx, signatures)).inputs =~= trimmed_model(tx).inputs);
}

/// The unsigned transfer of `amount` to `recipient` by the owner of
/// `pub_key`: one input per selected output, an output for the recipient,
/// and, where the selected outputs are worth more, one that returns the
/// rest to the sender.
pub open spec fn transfer_draft(
    pub_key: Seq<u8>,
    selected: Seq<SpendableModel>,
    recipient: Seq<u8>,
    amount: u32,
) -> TransactionModel {
    let inputs = selected.map_values(
        |output: SpendableModel|
            InputModel {
                tx_id: output.tx_id,
                output_index: output.output_index,
                signature: Seq::empty(),
                pub_key: pub_key,
            },
    );
    let pay = OutputModel { value: amount, pub_key_hash: recipient };
    let total = spendable_total(selected);
    let outputs = if total > amount {
        seq![pay, OutputModel { value: (total - amount) as u32, pub_key_hash: pub_key_hash_of(pub_key) }]
    } else {
        seq![pay]
    };
    TransactionModel { id: transaction_hash(inputs, outputs), inputs, outputs }
}

/// The coins of a row of outputs.
pub open spec fn outputs_value(outputs: Seq<OutputModel>) -> int
    decreases outputs.len(),
{
    if outputs.len() == 0 {
        0
    } else {
        outputs_value(outputs.drop_last()) + outputs.last().value
    }
}

/// A transfer pays out what it spends: where the selected outputs cover
/// the amount and the rest fits an output, the outputs of the draft are
/// worth what the selected outputs are worth.
pub proof fn lemma_transfer_pays_what_it_spends(
    pub_key: Seq<u8>,
    selected: Seq<SpendableModel>,
    recipient: Seq<u8>,
    amount: u32,
)
    requires
        amount <= spendable_total(selected) <= amount + u32::MAX,
    ensures
        outputs_value(transfer_draft(pub_key, selected, recipient, amount).outputs)
            == spendable_total(selected),
{
    let outputs = transfer_draft(pub_key, selected, recipient, amount).outputs;
    let total = spendable_total(selected);
    if total > amount {
        let first = outputs.drop_last();
        assert(outputs.len() == 2);
        assert(first.len() == 1);
        assert(first.last().value == amount);
        assert(outputs_value(first.drop_last()) == 0);
        assert(outputs_value(first) == amount);
        assert(outputs.last().value == total - amount);
    } else {
        assert(outputs.len() == 1);
        assert(outputs.last().value == amount);
        assert(outputs_value(outputs.drop_last()) == 0);
    }
}

/// The signed transfer of `amount` between two addresses, given as
/// hexadecimal text, over a chain, or the reason why there is none.
#[verifier::opaque]
pub open spec fn transfer_model(
    chain: Seq<BlockModel>,
    wallets: Seq<WalletEntryModel>,
    from: Seq<u8>,
    to: Seq<u8>,
    amount: u32,
) -> Result<TransactionModel, ChainError> {
    if stored_public_key(wallets, from) is None {
        Err(ChainError::WalletNotFound)
    } else {
        let private_key = stored_private_key(wallets, from).unwrap();
        let pub_key = stored_public_key(wallets, from).unwrap();
        let selected = greedy(unspent_outputs(chain, pub_key_hash_of(pub_key)), amount as int);
        if spendable_total(selected) < amount {
            Err(ChainError::NotEnoughFunds)
        } else {
            match decoded_hex_address(to) {
                Err(_) => Err(ChainError::BadRequest),
                Ok(recipient) => match signed_model(
                    transfer_draft(pub_key, selected, recipient, amount),
                    chain_transactions(chain),
                    private_key,
                ) {
                    Ok(tx) => Ok(tx),
                    Err(_) => Err(ChainError::BadTransaction),
                },
            }
        }
    }
}

/// The unspent outputs of the chain that pay for `amount` out of what is
/// locked to `pub_key_hash`, with the sum of their values, where they cover
/// the amount.
pub fn funds_for(bc: &Blockchain, pub_key_hash: &HashHex, amount: u32) -> (res: Result<
    (u64, Vec<SpendableOutput>),
    NotEnoughFundsError,
>)
    ensures
        match res {
            Ok((accumulated, spendable)) => {
                &&& spendable_models(spendable@) == greedy(
                    unspent_outputs(bc@, pub_key_hash@),
                    amount as int,
                )
                &&& accumulated == spendable_total(spendable_models(spendable@))
                &&& amount <= accumulated < amount as int + 0x1_0000_0000
            },
            Err(_) => spendable_total(
                greedy(unspent_outputs(bc@, pub_key_hash@), amount as int),
            ) < amount,
        },
{
    let (accumulated, spendable) = bc.find_spendable_outputs(pub_key_hash, amount);
    if accumulated < amount as u64 {
        Err(NotEnoughFundsError)
    } else {
        Ok((accumulated, spendable))
    }
}

/// A transfer comes about only where a wallet is stored under the
/// sender's address.
pub proof fn lemma_transfer_needs_wallet(
    chain: Seq<BlockModel>,
    wallets: Seq<WalletEntryModel>,
    from: Seq<u8>,
    to: Seq<u8>,
    amount: u32,
)
    ensures
        transfer_model(chain, wallets, from, to, amount) is Ok ==> stored_public_key(wallets, from)
            is Some,
{
    reveal(transfer_model);
}

impl Transaction {
    /// A signed transfer of `amount` from the wallet stored under `from` to
    /// the address `to`, both given as hexadecimal text. It spends unspent
    /// outputs of the sender found in the chain, taken until they cover the
    /// amount.
    pub fn new_utxo(from: &str, to: &str, amount: u32, bc: &Blockchain, wallets: &WalletStore) -> (res:
        Result<Transaction, ChainError>)
        ensures
            match res {
                Ok(tx) => transfer_model(
                    bc@,
                    wallets@,
                    from.spec_bytes(),
                    to.spec_bytes(),
                    amount,
                ) == Ok::<TransactionModel, ChainError>(tx@) && verifies(
                    tx@,
                    chain_transactions(bc@),
                ),
                Err(e) => transfer_model(
                    bc@,
                    wallets@,
                    from.spec_bytes(),
                    to.spec_bytes(),
                    amount,
                ) == Err::<TransactionModel, ChainError>(e),
            },
    {
        reveal(transfer_model);
        let wallet = match Wallet::get_by(from, wallets) {
            Some(w) => w,
            None => {
                return Err(ChainError::from(WalletNotFoundError));
            },
        };
        let pub_key = wallet.pub_key_bytes_vec();
        let pub_key_hash = Wallet::hash_pub_key(wallet.pub_key_bytes_vec());
        let (accumulated, spendable) = match funds_for(bc, &pub_key_hash, amount) {
            Ok(funds) => funds,
            Err(e) => {
                return Err(ChainError::from(e));
            },
        };
        let ghost selected = spendable_models(spendable@);
        let mut inputs: Vec<TXInput> = Vec::new();
        let mut i: usize = 0;
        while i < spendable.len()
            invariant
                i <= spendable.len(),
                selected == spendable_models(spendable@),
                inputs@.len() == i,
                forall|k: int|
                    0 <= k < i ==> (#[trigger] inputs@[k])@ == (InputModel {
                        tx_id: selected[k].tx_id,
                        output_index: selected[k].output_index,
                        signature: Seq::empty(),
                        pub_key: pub_key@,
                    }),
            decreases spendable.len() - i,
        {
            assert(selected[i as int] == spendable@[i as int]@);
            inputs.push(
                TXInput {
                    tx_id: spendable[i].tx_id.clone(),
                    output_index: spendable[i].output_index,
                    signature: HashHex::empty(),
                    pub_key: HashHex::from_slice(pub_key.as_slice()),
                },
            );
            i += 1;
        }
        let recipient = match Wallet::retrieve_pub_key_hash(to) {
            Ok(hash) => hash,
            Err(_) => {
                return Err(ChainError::BadRequest);
            },
        };
        let mut outputs: Vec<TXOutput> = Vec::new();
        outputs.push(TXOutput { value: amount, pub_key_hash: recipient });
        if accumulated > amount as u64 {
            outputs.push(
                TXOutput { value: (accumulated - amount as u64) as u32, pub_key_hash: pub_key_hash },
            );
        }
        let mut tx = Transaction::new(inputs, outputs);
        proof {
            let draft = transfer_draft(pub_key@, selected, recipient@, amount);
            assert(tx@.inputs =~= draft.inputs);
            assert(tx@.outputs =~= draft.outputs);
            assert(tx@ == draft);
            assert forall|k: int| 0 <= k < tx@.inputs.len() implies crate::keys::public_key_of(
                wallet.private_key@,
            ) == Some((#[trigger] tx@.inputs[k]).pub_key) by {}
        }
        match bc.sign_transaction(&mut tx, wallet.private_key.as_slice()) {
            Ok(()) => Ok(tx),
            Err(_) => Err(ChainError::BadTransaction),
        }
    }
}

} // verus!
