use sha2::{Digest, Sha256};
use utxo_chain::block::{Block, GenesisError};
use utxo_chain::blockchain::{Blockchain, ChainCursor, ChainError, ChainFault};
use utxo_chain::http::{
    add_chain_block, api_error, create_blockchain, get_balance, get_blockchain, get_wallets,
    new_wallet, send_coins, send_error, start_chain, ApiError, CreateBlockchainBody, SendBody,
};
use utxo_chain::merkle_tree::MerkleTree;
use utxo_chain::proof_of_work::{digest_meets_target, PowError, ProofOfWork};
use utxo_chain::store::AppStore;
use utxo_chain::transaction::{NotEnoughFundsError, Transaction, funds_for};
use utxo_chain::utils::HashHex;
use utxo_chain::utxo_set::UTXOSet;
use utxo_chain::wallet::{Wallet, WalletNotFoundError};

fn sha256(data: &[u8]) -> Vec<u8> {
    Sha256::digest(data).to_vec()
}

fn wallet_in(store: &mut AppStore) -> String {
    hex::encode(new_wallet(store).wallet_address.0)
}

fn started() -> (AppStore, String) {
    let mut store = AppStore::new();
    let address = wallet_in(&mut store);
    create_blockchain(&mut store, &CreateBlockchainBody { address: address.clone() }).unwrap();
    (store, address)
}

fn send(from: &str, to: &str, amount: i32) -> SendBody {
    SendBody { from: from.to_string(), to: to.to_string(), amount }
}

fn hash_of(address: &str) -> HashHex {
    Wallet::retrieve_pub_key_hash(address).unwrap()
}

fn expected_digest(block: &Block, nonce: u64) -> Vec<u8> {
    let leaves: Vec<Vec<u8>> = block.transactions.iter().map(|tx| tx.to_json()).collect();
    let mut data = block.prev_hash.0.clone();
    data.extend_from_slice(&MerkleTree::new(leaves).root.data);
    data.extend_from_slice(block.timestamp.as_bytes());
    data.extend_from_slice(&18u16.to_le_bytes());
    data.extend_from_slice(&nonce.to_le_bytes());
    sha256(&data)
}

#[test]
fn target_is_eighteen_zero_bits() {
    let mut digest = vec![0u8; 32];
    assert!(digest_meets_target(&digest));
    digest[2] = 0x3f;
    digest[31] = 0xff;
    assert!(digest_meets_target(&digest));
    digest[2] = 0x40;
    digest[31] = 0;
    assert!(!digest_meets_target(&digest));
    digest[2] = 0;
    digest[1] = 1;
    assert!(!digest_meets_target(&digest));
    assert!(!digest_meets_target(&[0xffu8; 32]));
}

#[test]
fn genesis_and_balance() {
    let mut store = AppStore::new();
    let a1 = wallet_in(&mut store);
    let blocks =
        create_blockchain(&mut store, &CreateBlockchainBody { address: a1.clone() }).unwrap();
    assert_eq!(blocks.len(), 1);
    let genesis = &blocks[0];
    assert!(genesis.prev_hash.0.is_empty());
    assert_eq!(genesis.transactions.len(), 1);
    let coinbase = &genesis.transactions[0];
    assert!(coinbase.is_coinbase());
    assert_eq!(coinbase.outputs.len(), 1);
    assert_eq!(coinbase.outputs[0].value, 10);
    assert_eq!(coinbase.outputs[0].pub_key_hash, hash_of(&a1));
    let mut note = b"Reward to ".to_vec();
    note.extend_from_slice(a1.as_bytes());
    assert_eq!(coinbase.inputs[0].signature.0, note);
    assert_eq!(get_balance(&store, &a1).unwrap().balance, 10);
    assert_eq!(get_blockchain(&store).unwrap().len(), 1);
}

#[test]
fn mined_block_meets_the_target_at_its_first_nonce() {
    let (store, _) = started();
    let genesis = &get_blockchain(&store).unwrap()[0];
    assert_eq!(genesis.hash.0, expected_digest(genesis, genesis.nonce));
    assert_eq!(&genesis.hash.0[..2], &[0u8, 0u8]);
    assert!(genesis.hash.0[2] < 0x40);
    assert!(ProofOfWork::new(genesis).validate());
    assert_eq!(ProofOfWork::new(genesis).run(), Ok((genesis.nonce, genesis.hash.clone())));
    let earlier = genesis.nonce.saturating_sub(200);
    for nonce in earlier..genesis.nonce {
        assert!(!digest_meets_target(&expected_digest(genesis, nonce)));
    }
    assert!(genesis.timestamp.bytes().all(|c| c.is_ascii_digit()));
    assert_eq!(PowError::HashIsNotCreated, PowError::HashIsNotCreated);
}

#[test]
fn chain_missing_is_not_found() {
    let mut store = AppStore::new();
    let a1 = wallet_in(&mut store);
    assert_eq!(get_blockchain(&store).unwrap_err(), ApiError::NotFound);
    assert_eq!(get_balance(&store, &a1).unwrap_err().status_code(), 404);
}

#[test]
fn genesis_needs_a_wallet() {
    let mut store = AppStore::new();
    let unknown = hex::encode(Wallet::new().generate_address().0);
    let res = create_blockchain(&mut store, &CreateBlockchainBody { address: unknown.clone() });
    assert_eq!(res.unwrap_err().status_code(), 500);
    assert!(store.blocks.is_none());
    assert_eq!(
        Blockchain::new(Some(&unknown), None, &store.wallets).unwrap_err(),
        ChainError::WalletNotFound
    );
    assert_eq!(Blockchain::new(None, None, &store.wallets).unwrap_err(), ChainError::ChainMissing);
}

#[test]
fn double_init_rejected() {
    let (mut store, _) = started();
    let a2 = wallet_in(&mut store);
    let tip = store.blocks.as_ref().unwrap().tip();
    let res = create_blockchain(&mut store, &CreateBlockchainBody { address: a2 });
    assert_eq!(res.unwrap_err(), ApiError::Conflict);
    assert_eq!(ApiError::Conflict.status_code(), 409);
    assert_eq!(store.blocks.as_ref().unwrap().len(), 1);
    assert_eq!(store.blocks.as_ref().unwrap().tip(), tip);
}

#[test]
fn transfer() {
    let (mut store, a1) = started();
    let a2 = wallet_in(&mut store);
    let genesis = get_blockchain(&store).unwrap().remove(0);
    let block = add_chain_block(&mut store, &send(&a1, &a2, 3)).unwrap();
    assert_eq!(block.prev_hash, genesis.hash);
    assert_eq!(block.transactions.len(), 2);

    let coinbase = &block.transactions[0];
    assert!(coinbase.is_coinbase());
    assert_eq!(coinbase.outputs.len(), 1);
    assert_eq!(coinbase.outputs[0].value, 10);
    assert_eq!(coinbase.outputs[0].pub_key_hash, hash_of(&a1));

    let transfer = &block.transactions[1];
    assert_eq!(transfer.inputs.len(), 1);
    assert_eq!(transfer.inputs[0].tx_id, genesis.transactions[0].id);
    assert_eq!(transfer.inputs[0].output_index, 0);
    assert_eq!(transfer.outputs.len(), 2);
    assert_eq!(transfer.outputs[0].value, 3);
    assert_eq!(transfer.outputs[0].pub_key_hash, hash_of(&a2));
    assert_eq!(transfer.outputs[1].value, 7);
    assert_eq!(transfer.outputs[1].pub_key_hash, hash_of(&a1));
    assert!(store.blocks.as_ref().unwrap().verify_transaction(transfer));

    assert_eq!(get_balance(&store, &a1).unwrap().balance, 17);
    assert_eq!(get_balance(&store, &a2).unwrap().balance, 3);
    let blocks = get_blockchain(&store).unwrap();
    assert_eq!(blocks.len(), 2);
    assert_eq!(blocks[0].hash, block.hash);
    assert_eq!(blocks[1].hash, genesis.hash);
    assert_eq!(store.blocks.as_ref().unwrap().tip(), block.hash);
}

#[test]
fn insufficient_funds() {
    let (mut store, a1) = started();
    let a2 = wallet_in(&mut store);
    add_chain_block(&mut store, &send(&a1, &a2, 3)).unwrap();
    let res = add_chain_block(&mut store, &send(&a2, &a1, 9999));
    assert_eq!(res.unwrap_err().status_code(), 400);
    assert_eq!(store.blocks.as_ref().unwrap().len(), 2);
    assert_eq!(get_balance(&store, &a1).unwrap().balance, 17);
    assert_eq!(get_balance(&store, &a2).unwrap().balance, 3);
    assert_eq!(
        Transaction::new_utxo(&a2, &a1, 9999, store.blocks.as_ref().unwrap(), &store.wallets)
            .unwrap_err(),
        ChainError::NotEnoughFunds
    );
}

#[test]
fn self_send_rejected() {
    let (mut store, a1) = started();
    let res = add_chain_block(&mut store, &send(&a1, &a1, 1));
    assert_eq!(res.unwrap_err(), ApiError::BadRequest);
    assert_eq!(ApiError::BadRequest.status_code(), 400);
    assert_eq!(store.blocks.as_ref().unwrap().len(), 1);
}

#[test]
fn amount_must_be_positive() {
    let (mut store, a1) = started();
    let a2 = wallet_in(&mut store);
    assert_eq!(add_chain_block(&mut store, &send(&a1, &a2, 0)).unwrap_err(), ApiError::BadRequest);
    assert_eq!(add_chain_block(&mut store, &send(&a1, &a2, -5)).unwrap_err(), ApiError::BadRequest);
    assert_eq!(get_balance(&store, &a1).unwrap().balance, 10);
}

#[test]
fn malformed_and_unknown_addresses() {
    let (mut store, a1) = started();
    assert_eq!(
        add_chain_block(&mut store, &send(&a1, "not an address", 1)).unwrap_err(),
        ApiError::BadRequest
    );
    let stranger = hex::encode(Wallet::new().generate_address().0);
    assert_eq!(
        add_chain_block(&mut store, &send(&stranger, &a1, 1)).unwrap_err(),
        ApiError::Internal
    );
    assert_eq!(get_balance(&store, "xyz").unwrap_err(), ApiError::BadRequest);
    assert_eq!(get_balance(&store, &stranger).unwrap_err(), ApiError::NotFound);
    assert_eq!(ApiError::Internal.status_code(), 500);
}

#[test]
fn tamper_detection() {
    let (mut store, a1) = started();
    let a2 = wallet_in(&mut store);
    add_chain_block(&mut store, &send(&a1, &a2, 3)).unwrap();
    let chain = store.blocks.as_ref().unwrap();
    let stored = chain.blocks_from_tip();

    let cursor = ChainCursor::new(chain.tip());
    assert_eq!(cursor.wanted(), Some(stored[0].hash.clone()));
    let cursor = cursor.accept(stored[0].clone()).unwrap();
    assert_eq!(cursor.wanted(), Some(stored[1].hash.clone()));
    let mut tampered = stored[1].clone();
    tampered.nonce = tampered.nonce.wrapping_add(1);
    assert_eq!(cursor.accept(tampered).unwrap_err(), ChainFault::BadProofOfWork);

    let mut other_time = stored[0].clone();
    other_time.timestamp.push('0');
    assert_eq!(
        ChainCursor::new(chain.tip()).accept(other_time).unwrap_err(),
        ChainFault::BadProofOfWork
    );
    let mut other_amount = stored[0].clone();
    other_amount.transactions[1].outputs[0].value = 9;
    assert_eq!(
        ChainCursor::new(chain.tip()).accept(other_amount).unwrap_err(),
        ChainFault::BadProofOfWork
    );
    assert_eq!(
        ChainCursor::new(chain.tip()).accept(stored[1].clone()).unwrap_err(),
        ChainFault::WrongBlock
    );
    assert!(Blockchain::validate_block(&stored[0], &stored[1]));
    assert!(!Blockchain::validate_block(&stored[1], &stored[0]));
    assert!(!Blockchain::validate_block(&stored[0], &stored[0]));
}

#[test]
fn chain_is_read_back_from_tip_to_genesis() {
    let (mut store, a1) = started();
    let a2 = wallet_in(&mut store);
    add_chain_block(&mut store, &send(&a1, &a2, 4)).unwrap();
    let chain = store.blocks.as_ref().unwrap();
    let stored = chain.blocks_from_tip();
    let mut cursor = ChainCursor::new(chain.tip());
    assert!(ChainCursor::new(chain.tip()).finish().is_none());
    while let Some(hash) = cursor.wanted() {
        let block = stored.iter().find(|b| b.hash == hash).unwrap().clone();
        cursor = cursor.accept(block).unwrap();
    }
    let loaded = cursor.finish().unwrap();
    assert_eq!(loaded.len(), 2);
    assert_eq!(loaded.tip(), chain.tip());
    assert_eq!(loaded.blocks_from_tip()[1].hash, stored[1].hash);
    let existing = Blockchain::new(None, Some(loaded), &store.wallets).unwrap();
    assert_eq!(existing.tip(), chain.tip());
}

#[test]
fn find_transaction_searches_from_the_tip() {
    let (mut store, a1) = started();
    let a2 = wallet_in(&mut store);
    let block = add_chain_block(&mut store, &send(&a1, &a2, 3)).unwrap();
    let chain = store.blocks.as_ref().unwrap();
    let transfer = &block.transactions[1];
    assert_eq!(chain.find_transaction(&transfer.id).unwrap().id, transfer.id);
    assert!(chain.find_transaction(&HashHex(vec![1, 2, 3])).is_none());
    let all = chain.transactions_from_tip();
    assert_eq!(all.len(), 3);
    assert_eq!(all[1].id, transfer.id);
    assert!(all[2].is_coinbase());
}

#[test]
fn unspent_outputs_found_by_walking_the_chain() {
    let (mut store, a1) = started();
    let a2 = wallet_in(&mut store);
    let block = add_chain_block(&mut store, &send(&a1, &a2, 3)).unwrap();
    let chain = store.blocks.as_ref().unwrap();
    let (holders, unspent) = chain.scan_unspent(&hash_of(&a1));
    assert_eq!(unspent.len(), 2);
    assert_eq!(unspent[0].tx_id, block.transactions[0].id);
    assert_eq!(unspent[0].output_index, 0);
    assert_eq!(unspent[0].value, 10);
    assert_eq!(unspent[1].tx_id, block.transactions[1].id);
    assert_eq!(unspent[1].output_index, 1);
    assert_eq!(unspent[1].value, 7);
    assert_eq!(holders.len(), 2);
    assert_eq!(chain.find_unspent_transactions(&hash_of(&a2)).len(), 1);

    let (sum, chosen) = chain.find_spendable_outputs(&hash_of(&a1), 5);
    assert_eq!(sum, 10);
    assert_eq!(chosen.len(), 1);
    let (sum, chosen) = chain.find_spendable_outputs(&hash_of(&a1), 11);
    assert_eq!(sum, 17);
    assert_eq!(chosen.len(), 2);
    let (sum, chosen) = chain.find_spendable_outputs(&hash_of(&a1), 100);
    assert_eq!(sum, 17);
    assert_eq!(chosen.len(), 2);
    let (sum, chosen) = chain.find_spendable_outputs(&hash_of(&a1), 0);
    assert_eq!(sum, 0);
    assert!(chosen.is_empty());
}

#[test]
fn exact_amount_leaves_no_change() {
    let (mut store, a1) = started();
    let a2 = wallet_in(&mut store);
    let block = add_chain_block(&mut store, &send(&a1, &a2, 10)).unwrap();
    assert_eq!(block.transactions[1].outputs.len(), 1);
    assert_eq!(block.transactions[1].outputs[0].value, 10);
    assert_eq!(get_balance(&store, &a1).unwrap().balance, 10);
    assert_eq!(get_balance(&store, &a2).unwrap().balance, 10);
}

#[test]
fn add_block_refuses_a_transaction_that_does_not_verify() {
    let (mut store, a1) = started();
    let a2 = wallet_in(&mut store);
    let mut chain = store.blocks.take().unwrap();
    let mut tx = Transaction::new_utxo(&a1, &a2, 3, &chain, &store.wallets).unwrap();
    tx.outputs[0].value = 4;
    assert_eq!(chain.add_block(vec![tx]).unwrap_err(), ChainError::BadTransaction);
    assert_eq!(chain.len(), 1);
}

#[test]
fn index_update_and_reindex() {
    let (mut store, a1) = started();
    let a2 = wallet_in(&mut store);
    let genesis = get_blockchain(&store).unwrap().remove(0);
    assert_eq!(store.chainstate.len(), 1);
    assert_eq!(store.chainstate.entries[0].tx_id, genesis.transactions[0].id);
    let block = add_chain_block(&mut store, &send(&a1, &a2, 3)).unwrap();
    assert_eq!(store.chainstate.len(), 2);
    let held = store.chainstate.find_utxo(&hash_of(&a1));
    let mut values: Vec<u32> = held.iter().map(|out| out.value).collect();
    values.sort();
    assert_eq!(values, vec![7, 10]);
    assert_eq!(store.chainstate.find_utxo(&hash_of(&a2)).len(), 1);
    let (sum, chosen) = store.chainstate.find_spendable_outputs(&hash_of(&a2), 2);
    assert_eq!(sum, 3);
    assert_eq!(chosen.len(), 1);
    assert_eq!(chosen[0].tx_id, block.transactions[1].id);
    assert_eq!(chosen[0].output_index, 0);

    let mut fresh = UTXOSet::new();
    fresh.reindex(store.blocks.as_ref().unwrap());
    assert_eq!(fresh.len(), 2);
    assert_eq!(fresh.balance(&hash_of(&a1)), Some(17));
    assert_eq!(fresh.balance(&hash_of(&a2)), Some(3));
    fresh.clear();
    assert_eq!(fresh.len(), 0);
    assert_eq!(fresh.balance(&hash_of(&a1)), Some(0));
}

#[test]
fn wallets_are_listed_and_found() {
    let mut store = AppStore::new();
    assert!(get_wallets(&store).is_empty());
    let a1 = wallet_in(&mut store);
    let a2 = wallet_in(&mut store);
    let listed: Vec<String> = get_wallets(&store).iter().map(|a| hex::encode(&a.0)).collect();
    assert_eq!(listed, vec![a1.clone(), a2.clone()]);
    let wallet = Wallet::get_by(&a1, &store.wallets).unwrap();
    assert_eq!(hex::encode(wallet.generate_address().0), a1);
    assert!(Wallet::get_by(&hex::encode(b"nobody"), &store.wallets).is_none());
    assert!(Wallet::get_by("zz", &store.wallets).is_none());
    assert_eq!(store.wallets.len(), 2);
    let key = store.wallets.get(&hex::decode(&a2).unwrap()).unwrap();
    store.wallets.set(&hex::decode(&a1).unwrap(), &key);
    assert_eq!(store.wallets.len(), 2);
    assert_eq!(store.wallets.get(&hex::decode(&a1).unwrap()), Some(key));
}

fn held(index: &UTXOSet) -> Vec<(Vec<u8>, Vec<(i32, u32, Vec<u8>)>)> {
    let mut rows: Vec<(Vec<u8>, Vec<(i32, u32, Vec<u8>)>)> = index
        .entries
        .iter()
        .map(|entry| {
            let outputs = entry
                .outputs
                .iter()
                .map(|held| (held.index, held.output.value, held.output.pub_key_hash.0.clone()))
                .collect();
            (entry.tx_id.0.clone(), outputs)
        })
        .collect();
    rows.sort();
    rows
}

fn total(index: &UTXOSet) -> u64 {
    index
        .entries
        .iter()
        .map(|entry| entry.outputs.iter().map(|held| held.output.value as u64).sum::<u64>())
        .sum()
}

#[test]
fn every_block_is_on_top_of_the_one_before_and_sealed() {
    let (mut store, a1) = started();
    let a2 = wallet_in(&mut store);
    add_chain_block(&mut store, &send(&a1, &a2, 3)).unwrap();
    add_chain_block(&mut store, &send(&a2, &a1, 1)).unwrap();
    let blocks = get_blockchain(&store).unwrap();
    assert_eq!(blocks.len(), 3);
    for i in 0..blocks.len() {
        assert_eq!(blocks[i].hash.0, expected_digest(&blocks[i], blocks[i].nonce));
        assert!(digest_meets_target(&blocks[i].hash.0));
        if i + 1 < blocks.len() {
            assert_eq!(blocks[i].prev_hash, blocks[i + 1].hash);
        } else {
            assert!(blocks[i].prev_hash.0.is_empty());
        }
    }
    let chain = store.blocks.as_ref().unwrap();
    for block in blocks.iter() {
        for tx in block.transactions.iter() {
            if !tx.is_coinbase() {
                assert!(chain.verify_transaction(tx));
            }
        }
    }
}

#[test]
fn update_after_reindex_is_reindex_where_what_is_spent_is_written_again() {
    let (mut store, a1) = started();
    let a2 = wallet_in(&mut store);
    add_chain_block(&mut store, &send(&a1, &a2, 3)).unwrap();
    let mut fresh = UTXOSet::new();
    fresh.reindex(store.blocks.as_ref().unwrap());
    assert_eq!(held(&fresh), held(&store.chainstate));
    assert_eq!(total(&store.chainstate), 20);
}

#[test]
fn reindex_writes_spent_outputs_too() {
    let (mut store, a1) = started();
    let a2 = wallet_in(&mut store);
    add_chain_block(&mut store, &send(&a1, &a2, 3)).unwrap();
    add_chain_block(&mut store, &send(&a2, &a1, 1)).unwrap();
    assert_eq!(total(&store.chainstate), 30);
    assert_eq!(get_balance(&store, &a1).unwrap().balance, 18);
    assert_eq!(get_balance(&store, &a2).unwrap().balance, 12);
    let mut fresh = UTXOSet::new();
    fresh.reindex(store.blocks.as_ref().unwrap());
    assert_ne!(held(&fresh), held(&store.chainstate));
    assert_eq!(total(&fresh), 33);
}

#[test]
fn coinbase_with_a_known_id_is_written_over() {
    let (mut store, a1) = started();
    let a2 = wallet_in(&mut store);
    add_chain_block(&mut store, &send(&a1, &a2, 3)).unwrap();
    add_chain_block(&mut store, &send(&a2, &a1, 1)).unwrap();
    let block = add_chain_block(&mut store, &send(&a1, &a2, 1)).unwrap();
    assert_eq!(block.transactions[1].inputs.len(), 1);
    assert_eq!(block.transactions[1].outputs.len(), 1);
    let genesis = get_blockchain(&store).unwrap().pop().unwrap();
    assert_eq!(block.transactions[0].id, genesis.transactions[0].id);
    assert_eq!(get_balance(&store, &a1).unwrap().balance, 17);
    assert_eq!(get_balance(&store, &a2).unwrap().balance, 13);
    assert_eq!(total(&store.chainstate), 30);
}

#[test]
fn sending_without_a_chain_starts_one() {
    let mut store = AppStore::new();
    let a1 = wallet_in(&mut store);
    let a2 = wallet_in(&mut store);
    let block = add_chain_block(&mut store, &send(&a1, &a2, 4)).unwrap();
    let blocks = get_blockchain(&store).unwrap();
    assert_eq!(blocks.len(), 2);
    assert_eq!(blocks[0].hash, block.hash);
    assert!(blocks[1].prev_hash.0.is_empty());
    assert_eq!(blocks[1].transactions.len(), 1);
    assert_eq!(blocks[1].transactions[0].outputs[0].pub_key_hash, hash_of(&a1));
    assert_eq!(get_balance(&store, &a1).unwrap().balance, 16);
    assert_eq!(get_balance(&store, &a2).unwrap().balance, 4);

    let mut other = AppStore::new();
    let b1 = wallet_in(&mut other);
    assert_eq!(add_chain_block(&mut other, &send(&b1, &b1, 1)).unwrap_err(), ApiError::BadRequest);
    assert_eq!(get_blockchain(&other).unwrap().len(), 1);
    assert_eq!(get_balance(&other, &b1).unwrap().balance, 10);

    let mut empty = AppStore::new();
    let stranger = hex::encode(Wallet::new().generate_address().0);
    assert_eq!(
        add_chain_block(&mut empty, &send(&stranger, &a1, 1)).unwrap_err(),
        ApiError::Internal
    );
    assert!(empty.blocks.is_none());
}

#[test]
fn funds_are_covered_or_not() {
    let (store, a1) = started();
    let chain = store.blocks.as_ref().unwrap();
    let (sum, chosen) = funds_for(chain, &hash_of(&a1), 10).unwrap();
    assert_eq!(sum, 10);
    assert_eq!(chosen.len(), 1);
    assert_eq!(funds_for(chain, &hash_of(&a1), 11).unwrap_err(), NotEnoughFundsError);
    assert_eq!(NotEnoughFundsError.message(), "Not enough funds");
    assert_eq!(WalletNotFoundError.message(), "Wallet is not found");
    assert_eq!(ChainError::from(NotEnoughFundsError), ChainError::NotEnoughFunds);
    assert_eq!(ChainError::from(WalletNotFoundError), ChainError::WalletNotFound);
    assert_eq!(
        Transaction::new_coinbase("00", None, &store.wallets).unwrap_err(),
        WalletNotFoundError
    );
    let noted = Transaction::new_coinbase(&a1, Some("hello"), &store.wallets).unwrap();
    assert_eq!(noted.inputs[0].signature.0, b"hello".to_vec());
    assert!(noted.inputs[0].tx_id.0.is_empty());
    assert_eq!(noted.inputs[0].output_index, -1);
}

#[test]
fn every_error_has_its_answer() {
    assert_eq!(api_error(ChainError::ChainMissing).status_code(), 404);
    assert_eq!(api_error(ChainError::ChainAlreadyExists).status_code(), 409);
    assert_eq!(api_error(ChainError::WalletNotFound).status_code(), 404);
    assert_eq!(api_error(ChainError::NotEnoughFunds).status_code(), 400);
    assert_eq!(api_error(ChainError::BadRequest).status_code(), 400);
    assert_eq!(api_error(ChainError::BadTransaction).status_code(), 500);
    assert_eq!(api_error(ChainError::StoreError).status_code(), 500);
    assert_eq!(api_error(ChainError::PowHashNotFound).status_code(), 500);
}

#[test]
fn transfer_errors() {
    let (mut store, a1) = started();
    let a2 = wallet_in(&mut store);
    let chain = store.blocks.as_ref().unwrap();
    let stranger = hex::encode(Wallet::new().generate_address().0);
    assert_eq!(
        Transaction::new_utxo(&stranger, &a2, 1, chain, &store.wallets).unwrap_err(),
        ChainError::WalletNotFound
    );
    assert_eq!(
        Transaction::new_utxo(&a1, &a2, 11, chain, &store.wallets).unwrap_err(),
        ChainError::NotEnoughFunds
    );
    assert_eq!(
        Transaction::new_utxo(&a1, "6f6f", 1, chain, &store.wallets).unwrap_err(),
        ChainError::BadRequest
    );
    assert_eq!(
        Block::new_genesis(&stranger, &store.wallets).unwrap_err(),
        GenesisError::WalletNotFound
    );
    let to_stranger = Transaction::new_utxo(&a1, &stranger, 2, chain, &store.wallets).unwrap();
    assert_eq!(to_stranger.outputs[0].pub_key_hash, hash_of(&stranger));
    assert!(chain.verify_transaction(&to_stranger));
}

#[test]
fn sending_coins_answers_with_400_or_500() {
    assert_eq!(send_error(ChainError::NotEnoughFunds).status_code(), 400);
    assert_eq!(send_error(ChainError::BadRequest).status_code(), 400);
    assert_eq!(send_error(ChainError::WalletNotFound).status_code(), 500);
    assert_eq!(send_error(ChainError::BadTransaction).status_code(), 500);
    assert_eq!(send_error(ChainError::PowHashNotFound).status_code(), 500);
    assert_eq!(send_error(ChainError::ChainMissing).status_code(), 500);
    assert_eq!(send_error(ChainError::ChainAlreadyExists).status_code(), 500);
    assert_eq!(send_error(ChainError::StoreError).status_code(), 500);
}

#[test]
fn what_a_store_lacks_and_must_drop() {
    let (mut store, a1) = started();
    let a2 = wallet_in(&mut store);
    let held_before = store.chainstate.ids();
    assert_eq!(held_before.len(), 1);
    add_chain_block(&mut store, &send(&a1, &a2, 3)).unwrap();
    let second = add_chain_block(&mut store, &send(&a2, &a1, 3)).unwrap();
    let chain = store.blocks.as_ref().unwrap();
    let all = chain.blocks_since(0);
    assert_eq!(all.len(), 3);
    assert!(all[0].prev_hash.0.is_empty());
    assert_eq!(all[2].hash, second.hash);
    let fresh = chain.blocks_since(1);
    assert_eq!(fresh.len(), 2);
    assert_eq!(fresh[0].hash, all[1].hash);
    assert_eq!(fresh[1].hash, second.hash);
    assert!(chain.blocks_since(3).is_empty());
    assert!(chain.blocks_since(4).is_empty());

    assert!(store.chainstate.dropped_ids(&held_before).is_empty());
    let gone = HashHex(vec![1, 2, 3]);
    let asked = vec![gone.clone(), held_before[0].clone()];
    assert_eq!(store.chainstate.dropped_ids(&asked), vec![gone]);
    let ids = store.chainstate.ids();
    assert_eq!(ids.len(), store.chainstate.len());
    assert!(store.chainstate.dropped_ids(&ids).is_empty());
    let mut emptied = UTXOSet::new();
    emptied.reindex(chain);
    emptied.clear();
    assert_eq!(emptied.dropped_ids(&ids), ids);
}

#[test]
fn index_holds_each_id_and_position_once() {
    let (mut store, a1) = started();
    let a2 = wallet_in(&mut store);
    add_chain_block(&mut store, &send(&a1, &a2, 3)).unwrap();
    add_chain_block(&mut store, &send(&a2, &a1, 1)).unwrap();
    add_chain_block(&mut store, &send(&a1, &a2, 1)).unwrap();
    let mut ids: Vec<Vec<u8>> = store.chainstate.ids().into_iter().map(|id| id.0).collect();
    let count = ids.len();
    ids.sort();
    ids.dedup();
    assert_eq!(ids.len(), count);
    for entry in store.chainstate.entries.iter() {
        let mut positions: Vec<i32> = entry.outputs.iter().map(|held| held.index).collect();
        let held = positions.len();
        positions.sort();
        positions.dedup();
        assert_eq!(positions.len(), held);
    }
    let mut addresses: Vec<Vec<u8>> = get_wallets(&store).into_iter().map(|a| a.0).collect();
    addresses.sort();
    addresses.dedup();
    assert_eq!(addresses.len(), store.wallets.len());
}

#[test]
fn block_is_stamped_with_decimal_milliseconds() {
    let (store, _) = started();
    let genesis = &get_blockchain(&store).unwrap()[0];
    assert!(!genesis.timestamp.is_empty());
    assert!(genesis.timestamp.bytes().all(|c| c.is_ascii_digit()));
    assert!(genesis.timestamp.parse::<u128>().unwrap() > 1_600_000_000_000);
    assert_eq!(genesis.hash.0.len(), 32);
    assert_eq!(genesis.transactions[0].id.0.len(), 32);
    assert_eq!(genesis.hash_transactions().len(), 32);
}

#[test]
fn chain_is_started_with_its_index() {
    let mut store = AppStore::new();
    let a1 = wallet_in(&mut store);
    let a2 = wallet_in(&mut store);
    let stranger = hex::encode(Wallet::new().generate_address().0);
    let mut index = UTXOSet::new();
    assert!(start_chain(&mut index, &store.wallets, &stranger).is_none());
    assert_eq!(index.len(), 0);
    let mut chain = start_chain(&mut index, &store.wallets, &a1).unwrap();
    assert_eq!(chain.len(), 1);
    assert_eq!(index.len(), 1);
    assert_eq!(index.balance(&hash_of(&a1)), Some(10));

    let block = send_coins(&mut chain, &mut index, &store.wallets, &send(&a1, &a2, 3)).unwrap();
    assert_eq!(chain.len(), 2);
    assert_eq!(chain.tip(), block.hash);
    assert_eq!(index.balance(&hash_of(&a1)), Some(17));
    assert_eq!(index.balance(&hash_of(&a2)), Some(3));
    assert_eq!(
        send_coins(&mut chain, &mut index, &store.wallets, &send(&a2, &a1, 4)).unwrap_err(),
        ApiError::BadRequest
    );
    assert_eq!(
        send_coins(&mut chain, &mut index, &store.wallets, &send(&stranger, &a1, 1)).unwrap_err(),
        ApiError::Internal
    );
    assert_eq!(chain.len(), 2);
    assert_eq!(index.balance(&hash_of(&a1)), Some(17));
}
