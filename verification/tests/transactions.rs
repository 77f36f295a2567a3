use sha2::{Digest, Sha256};
use utxo_chain::transaction::{SignError, TXInput, TXOutput, Transaction};
use utxo_chain::utils::HashHex;
use utxo_chain::wallet::{encode_address, AddressError, Wallet};

fn sha256(data: &[u8]) -> Vec<u8> {
    Sha256::digest(data).to_vec()
}

fn output(value: u32, hash: &[u8]) -> TXOutput {
    TXOutput { value, pub_key_hash: HashHex(hash.to_vec()) }
}

fn input(tx_id: &[u8], output_index: i32, signature: &[u8], pub_key: &[u8]) -> TXInput {
    TXInput {
        tx_id: HashHex(tx_id.to_vec()),
        output_index,
        signature: HashHex(signature.to_vec()),
        pub_key: HashHex(pub_key.to_vec()),
    }
}

fn funding(owner: &Wallet) -> Transaction {
    let hash = Wallet::hash_pub_key(owner.pub_key_bytes_vec());
    Transaction::new(
        vec![input(&[], -1, b"note", &owner.public_key)],
        vec![output(10, &hash.0), output(5, &hash.0)],
    )
}

fn spending(previous: &Transaction, owner: &Wallet) -> Transaction {
    Transaction::new(
        vec![
            input(&previous.id.0, 0, &[], &owner.public_key),
            input(&previous.id.0, 1, &[], &owner.public_key),
        ],
        vec![output(15, &[9u8; 20])],
    )
}

#[test]
fn json_text_of_a_transaction() {
    let tx = Transaction {
        id: HashHex(vec![0xab, 0xcd]),
        inputs: vec![input(&[], -1, &[0x52, 0x65], &[0x04, 0xff]), input(&[1, 2], 3, &[], &[])],
        outputs: vec![output(10, &[0x0a, 0x0b]), output(4294967295, &[])],
    };
    let expected = [
        "{\"id\":\"abcd\",\"inputs\":[",
        "{\"tx_id\":\"\",\"output_index\":-1,\"signature\":\"5265\",\"pub_key\":\"04ff\"},",
        "{\"tx_id\":\"0102\",\"output_index\":3,\"signature\":\"\",\"pub_key\":\"\"}",
        "],\"outputs\":[",
        "{\"value\":10,\"pub_key_hash\":\"0a0b\"},",
        "{\"value\":4294967295,\"pub_key_hash\":\"\"}",
        "]}",
    ]
    .concat();
    assert_eq!(String::from_utf8(tx.to_json()).unwrap(), expected);
}

#[test]
fn json_text_of_empty_lists() {
    let tx = Transaction { id: HashHex(vec![]), inputs: vec![], outputs: vec![] };
    assert_eq!(tx.to_json(), b"{\"id\":\"\",\"inputs\":[],\"outputs\":[]}".to_vec());
}

#[test]
fn id_is_digest_of_inputs_then_outputs() {
    let inputs = vec![input(&[7], 2, &[1], &[2])];
    let outputs = vec![output(3, &[4])];
    let text = [
        "[{\"tx_id\":\"07\",\"output_index\":2,\"signature\":\"01\",\"pub_key\":\"02\"}]",
        "[{\"value\":3,\"pub_key_hash\":\"04\"}]",
    ]
    .concat();
    let id = Transaction::calculate_hash(&inputs, &outputs);
    assert_eq!(id.0, sha256(text.as_bytes()));
    let tx = Transaction::new(inputs, outputs);
    assert_eq!(tx.id, id);
    assert_eq!(tx.id.0.len(), 32);
}

#[test]
fn coinbase_is_one_input_that_refers_to_nothing() {
    let coinbase = Transaction::new(vec![input(&[], -1, b"x", b"k")], vec![output(10, &[1])]);
    assert!(coinbase.is_coinbase());
    let with_id = Transaction::new(vec![input(&[1], -1, b"x", b"k")], vec![]);
    assert!(!with_id.is_coinbase());
    let with_index = Transaction::new(vec![input(&[], 0, b"x", b"k")], vec![]);
    assert!(!with_index.is_coinbase());
    let two = Transaction::new(vec![input(&[], -1, b"", b""), input(&[], -1, b"", b"")], vec![]);
    assert!(!two.is_coinbase());
    let none = Transaction::new(vec![], vec![]);
    assert!(!none.is_coinbase());
}

#[test]
fn trimmed_copy_keeps_references_only() {
    let tx = Transaction::new(
        vec![input(&[1, 2], 5, &[9, 9], &[8, 8]), input(&[3], 0, &[7], &[6])],
        vec![output(1, &[2]), output(3, &[4])],
    );
    let copy = tx.trimmed_copy();
    assert_eq!(copy.id, tx.id);
    assert_eq!(copy.inputs.len(), 2);
    assert_eq!(copy.inputs[0].tx_id.0, vec![1, 2]);
    assert_eq!(copy.inputs[0].output_index, 5);
    assert!(copy.inputs[0].signature.0.is_empty());
    assert!(copy.inputs[0].pub_key.0.is_empty());
    assert_eq!(copy.inputs[1].tx_id.0, vec![3]);
    assert!(copy.inputs[1].signature.0.is_empty());
    assert_eq!(copy.outputs.len(), 2);
    assert_eq!(copy.outputs[1].value, 3);
    assert_eq!(copy.outputs[1].pub_key_hash.0, vec![4]);
}

#[test]
fn locked_with_and_uses_key() {
    let wallet = Wallet::new();
    let hash = Wallet::hash_pub_key(wallet.pub_key_bytes_vec());
    let out = output(1, &hash.0);
    assert!(out.is_locked_with(&hash));
    assert!(!out.is_locked_with(&HashHex(vec![0u8; 20])));
    let spent = input(&[1], 0, &[], &wallet.public_key);
    assert!(spent.uses_key(&hash));
    assert!(!spent.uses_key(&HashHex(vec![0u8; 20])));
}

#[test]
fn lock_takes_the_hash_out_of_the_address() {
    let hash: Vec<u8> = (1u8..21).collect();
    let address = encode_address(&hash);
    let mut out = output(7, &[]);
    assert_eq!(out.lock(&address), Ok(()));
    assert_eq!(out.pub_key_hash.0, hash);
    assert_eq!(out.value, 7);
    assert_eq!(out.lock(&HashHex(b"0".to_vec())), Err(AddressError::NotBase58));
    assert_eq!(out.pub_key_hash.0, hash);
}

#[test]
fn signed_transaction_verifies() {
    let owner = Wallet::new();
    let previous = funding(&owner);
    let mut tx = spending(&previous, &owner);
    let id_before = tx.id.clone();
    assert_eq!(tx.sign(std::slice::from_ref(&previous), &owner.private_key), Ok(()));
    assert_eq!(tx.id, id_before);
    assert_eq!(tx.inputs[0].signature.0.len(), 64);
    assert_eq!(tx.inputs[1].signature.0.len(), 64);
    assert_ne!(tx.inputs[0].signature, tx.inputs[1].signature);
    assert_eq!(tx.inputs[0].pub_key.0, owner.public_key);
    assert!(tx.verify(std::slice::from_ref(&previous)));
}

#[test]
fn signing_is_a_function_of_key_and_transaction() {
    let owner = Wallet::new();
    let previous = funding(&owner);
    let mut first = spending(&previous, &owner);
    let mut second = spending(&previous, &owner);
    first.sign(std::slice::from_ref(&previous), &owner.private_key).unwrap();
    second.sign(std::slice::from_ref(&previous), &owner.private_key).unwrap();
    assert_eq!(first.inputs[0].signature, second.inputs[0].signature);
    assert_eq!(first.inputs[1].signature, second.inputs[1].signature);
}

#[test]
fn altered_transaction_does_not_verify() {
    let owner = Wallet::new();
    let previous = funding(&owner);
    let mut tx = spending(&previous, &owner);
    tx.sign(std::slice::from_ref(&previous), &owner.private_key).unwrap();

    let mut other_amount = tx.clone();
    other_amount.outputs[0].value = 16;
    assert!(!other_amount.verify(std::slice::from_ref(&previous)));

    let mut other_signature = tx.clone();
    other_signature.inputs[0].signature.0[10] ^= 1;
    assert!(!other_signature.verify(std::slice::from_ref(&previous)));

    let mut swapped = tx.clone();
    swapped.inputs.swap(0, 1);
    assert!(!swapped.verify(std::slice::from_ref(&previous)));

    let mut other_key = tx.clone();
    other_key.inputs[0].pub_key = HashHex(Wallet::new().public_key);
    assert!(!other_key.verify(std::slice::from_ref(&previous)));

    let mut no_key = tx.clone();
    no_key.inputs[0].pub_key = HashHex(vec![1, 2, 3]);
    assert!(!no_key.verify(std::slice::from_ref(&previous)));

    let mut short_signature = tx.clone();
    short_signature.inputs[1].signature = HashHex(vec![1, 2, 3]);
    assert!(!short_signature.verify(std::slice::from_ref(&previous)));
}

#[test]
fn unsigned_transaction_does_not_verify() {
    let owner = Wallet::new();
    let previous = funding(&owner);
    let tx = spending(&previous, &owner);
    assert!(!tx.verify(std::slice::from_ref(&previous)));
}

#[test]
fn verification_needs_the_referenced_output() {
    let owner = Wallet::new();
    let previous = funding(&owner);
    let mut tx = spending(&previous, &owner);
    tx.sign(std::slice::from_ref(&previous), &owner.private_key).unwrap();
    assert!(!tx.verify(&[]));
    let mut beyond = Transaction::new(
        vec![input(&previous.id.0, 2, &[], &owner.public_key)],
        vec![output(1, &[1])],
    );
    assert_eq!(
        beyond.sign(std::slice::from_ref(&previous), &owner.private_key),
        Err(SignError::UnknownInput)
    );
    assert!(beyond.inputs[0].signature.0.is_empty());
    assert!(!beyond.verify(std::slice::from_ref(&previous)));
}

#[test]
fn signing_errors() {
    let owner = Wallet::new();
    let previous = funding(&owner);
    let mut tx = spending(&previous, &owner);
    assert_eq!(tx.sign(&[], &owner.private_key), Err(SignError::UnknownInput));
    assert_eq!(
        tx.sign(std::slice::from_ref(&previous), &[0u8; 32]),
        Err(SignError::SigningFailed)
    );
    assert_eq!(tx.sign(std::slice::from_ref(&previous), &[1u8; 5]), Err(SignError::SigningFailed));
    assert!(tx.inputs[0].signature.0.is_empty());
}

#[test]
fn coinbase_is_valid_and_left_unsigned() {
    let owner = Wallet::new();
    let mut coinbase = funding(&owner);
    assert!(coinbase.verify(&[]));
    assert_eq!(coinbase.sign(&[], &owner.private_key), Ok(()));
    assert_eq!(coinbase.inputs[0].signature.0, b"note".to_vec());
}

#[test]
fn wallet_from_private_key() {
    let wallet = Wallet::new();
    assert_eq!(wallet.private_key.len(), 32);
    assert_eq!(wallet.public_key.len(), 65);
    assert_eq!(wallet.public_key[0], 4);
    let again = Wallet::from_private_key(&wallet.private_key).unwrap();
    assert_eq!(again.public_key, wallet.public_key);
    assert!(Wallet::from_private_key(&[0u8; 32]).is_none());
    assert!(Wallet::from_private_key(&[1u8; 31]).is_none());
    assert_ne!(Wallet::new().private_key, wallet.private_key);
}
