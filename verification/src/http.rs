//! What the node answers to each request, as a function of the store.

use vstd::prelude::*;
use vstd::string::*;
use vstd::utf8::encode_utf8;
use crate::block::{
    block_models, is_sealed, mined_model, mining_can_fail, Block, BlockModel,
};
use crate::blockchain::{
    chain_transactions, genesis_transactions, is_chain, is_genesis_chain, Blockchain, ChainError,
};
use crate::hashing::pub_key_hash_of;
use crate::store::{index_follows_chain, AppStore, StoreModel};
use crate::transaction::{
    coinbase_model, lemma_transfer_needs_wallet, transaction_models, transfer_model, verifies,
    Transaction, TransactionModel,
};
use crate::utils::{is_decimal_text, HashHex};
use crate::reindex::{lemma_first_update_is_reindex, lemma_index_of_longer_chain};
use crate::utxo_set::{after_block, balance_of, index_of_chain, is_keyed, reindexed, UTXOSet};
use crate::wallet::{
    address_of, decoded_hex_address, has_unique_addresses, stored_addresses, stored_key,
    stored_public_key, with_entry, Wallet, WalletEntryModel, WalletStore,
};
use crate::keys::public_key_of;

verus! {

/// The body of a request to send coins.
#[derive(Debug)]
pub struct SendBody {
    pub from: String,
    pub to: String,
    pub amount: i32,
}

/// The answer to a request for a balance.
#[derive(Debug, Clone, Copy, PartialEq, Eq, Structural)]
pub struct GetBalanceReponse {
    pub balance: u32,
}

/// The body of a request to start the chain.
#[derive(Debug)]
pub struct CreateBlockchainBody {
    pub address: String,
}

/// The answer to a request for a new wallet.
#[derive(Debug)]
pub struct CreateWalletResponse {
    pub wallet_address: HashHex,
}

/// A request that is not served, by the status it is answered with.
#[derive(Debug, Clone, Copy, PartialEq, Eq, Structural)]
pub enum ApiError {
    /// 404: the chain or the wallet is missing.
    NotFound,
    /// 409: the chain exists already.
    Conflict,
    /// 400: an amount that is not positive, a transfer to oneself, a
    /// malformed address, or funds that do not cover the amount.
    BadRequest,
    /// 500: anything else.
    Internal,
}

impl ApiError {
    /// The HTTP status of the error.
    pub fn status_code(&self) -> (code: u16)
        ensures
            code == match *self {
                ApiError::NotFound => 404u16,
                ApiError::Conflict => 409u16,
                ApiError::BadRequest => 400u16,
                ApiError::Internal => 500u16,
            },
    {
        match self {
            ApiError::NotFound => 404,
            ApiError::Conflict => 409,
            ApiError::BadRequest => 400,
            ApiError::Internal => 500,
        }
    }
}

/// The answer that an error of the chain is given.
pub open spec fn answer_to(error: ChainError) -> ApiError {
    match error {
        ChainError::ChainMissing => ApiError::NotFound,
        ChainError::ChainAlreadyExists => ApiError::Conflict,
        ChainError::WalletNotFound => ApiError::NotFound,
        ChainError::NotEnoughFunds => ApiError::BadRequest,
        ChainError::BadRequest => ApiError::BadRequest,
        ChainError::BadTransaction => ApiError::Internal,
        ChainError::StoreError => ApiError::Internal,
        ChainError::PowHashNotFound => ApiError::Internal,
    }
}

/// The answer that an error of the chain is given.
pub fn api_error(error: ChainError) -> (answer: ApiError)
    ensures
        answer == answer_to(error),
{
    match error {
        ChainError::ChainMissing => ApiError::NotFound,
        ChainError::ChainAlreadyExists => ApiError::Conflict,
        ChainError::WalletNotFound => ApiError::NotFound,
        ChainError::NotEnoughFunds => ApiError::BadRequest,
        ChainError::BadRequest => ApiError::BadRequest,
        ChainError::BadTransaction => ApiError::Internal,
        ChainError::StoreError => ApiError::Internal,
        ChainError::PowHashNotFound => ApiError::Internal,
    }
}

/// The answer that an error is given where coins are sent: funds that do
/// not cover the amount and a malformed address are bad requests, anything
/// else is an internal error.
pub open spec fn send_answer_to(error: ChainError) -> ApiError {
    match error {
        ChainError::NotEnoughFunds => ApiError::BadRequest,
        ChainError::BadRequest => ApiError::BadRequest,
        _ => ApiError::Internal,
    }
}

/// The answer that an error is given where coins are sent.
pub fn send_error(error: ChainError) -> (answer: ApiError)
    ensures
        answer == send_answer_to(error),
{
    match error {
        ChainError::NotEnoughFunds => ApiError::BadRequest,
        ChainError::BadRequest => ApiError::BadRequest,
        _ => ApiError::Internal,
    }
}

/// The blocks of the chain from the newest to the genesis block.
pub fn get_blockchain(store: &AppStore) -> (res: Result<Vec<Block>, ApiError>)
    ensures
        match res {
            Ok(list) => store@.blocks is Some && block_models(list@)
                == store@.blocks.unwrap().reverse(),
            Err(e) => store@.blocks is None && e == ApiError::NotFound,
        },
{
    match &store.blocks {
        Some(chain) => Ok(chain.blocks_from_tip()),
        None => Err(ApiError::NotFound),
    }
}

/// Starts the chain with a genesis block that rewards the wallet stored
/// under the address, and makes the index from it. Where a chain exists the
/// request is a conflict; where no genesis block comes about the store is
/// left as it was.
pub fn create_blockchain(store: &mut AppStore, body: &CreateBlockchainBody) -> (res: Result<
    Vec<Block>,
    ApiError,
>)
    ensures
        final(store)@.wallets == old(store)@.wallets,
        index_follows_chain(old(store)@) ==> index_follows_chain(final(store)@),
        is_keyed(old(store)@.chainstate) ==> is_keyed(final(store)@.chainstate),
        match res {
            Ok(list) => {
                &&& old(store)@.blocks is None
                &&& final(store)@.blocks == Some(block_models(list@))
                &&& list@.len() == 1
                &&& final(store)@.chainstate == reindexed(block_models(list@))
                &&& final(store)@.chainstate == index_of_chain(block_models(list@))
                &&& is_genesis_chain(
                    block_models(list@),
                    old(store)@.wallets,
                    encode_utf8(body.address@),
                )
                &&& is_chain(block_models(list@))
            },
            Err(ApiError::Conflict) => old(store)@.blocks is Some && final(store)@ == old(store)@,
            Err(ApiError::Internal) => {
                &&& old(store)@.blocks is None
                &&& final(store)@ == old(store)@
                &&& stored_public_key(old(store)@.wallets, encode_utf8(body.address@)) is None
                    || mining_can_fail(
                    Seq::empty(),
                    genesis_transactions(old(store)@.wallets, encode_utf8(body.address@)),
                )
            },
            Err(_) => false,
        },
{
    if Blockchain::chain_exists(&store.blocks) {
        return Err(api_error(ChainError::ChainAlreadyExists));
    }
    let chain = match start_chain(&mut store.chainstate, &store.wallets, body.address.as_str()) {
        Some(chain) => chain,
        None => {
            return Err(ApiError::Internal);
        },
    };
    let list = chain.blocks_from_tip();
    proof {
        assert(chain@.reverse() =~= chain@);
    }
    store.blocks = Some(chain);
    Ok(list)
}

/// The coins that the index holds for the wallet stored under `address`.
pub fn get_balance(store: &AppStore, address: &str) -> (res: Result<GetBalanceReponse, ApiError>)
    ensures
        match res {
            Ok(answer) => {
                &&& store@.blocks is Some
                &&& decoded_hex_address(address.spec_bytes()) is Ok
                &&& stored_public_key(store@.wallets, address.spec_bytes()) is Some
                &&& answer.balance == balance_of(
                    store@.chainstate,
                    decoded_hex_address(address.spec_bytes())->Ok_0,
                )
            },
            Err(ApiError::NotFound) => store@.blocks is None || (decoded_hex_address(
                address.spec_bytes(),
            ) is Ok && stored_public_key(store@.wallets, address.spec_bytes()) is None),
            Err(ApiError::BadRequest) => store@.blocks is Some && decoded_hex_address(
                address.spec_bytes(),
            ) is Err,
            Err(ApiError::Internal) => store@.blocks is Some && decoded_hex_address(
                address.spec_bytes(),
            ) is Ok && stored_public_key(store@.wallets, address.spec_bytes()) is Some
                && balance_of(
                store@.chainstate,
                decoded_hex_address(address.spec_bytes())->Ok_0,
            ) > u32::MAX,
            Err(_) => false,
        },
{
    if !Blockchain::chain_exists(&store.blocks) {
        return Err(ApiError::NotFound);
    }
    let pub_key_hash = match Wallet::retrieve_pub_key_hash(address) {
        Ok(hash) => hash,
        Err(_) => {
            return Err(ApiError::BadRequest);
        },
    };
    if Wallet::get_by(address, &store.wallets).is_none() {
        return Err(ApiError::NotFound);
    }
    match store.chainstate.balance(&pub_key_hash) {
        Some(balance) => Ok(GetBalanceReponse { balance }),
        None => Err(ApiError::Internal),
    }
}

/// Whether a request to send coins asks for a positive amount and names
/// two different addresses.
pub open spec fn send_is_well_formed(body: &SendBody) -> bool {
    body.amount > 0 && body.from@ != body.to@
}

/// The transfer that a request to send coins asks for, over a chain.
pub open spec fn requested_transfer(
    chain: Seq<BlockModel>,
    wallets: Seq<WalletEntryModel>,
    body: &SendBody,
) -> Result<TransactionModel, ChainError> {
    transfer_model(
        chain,
        wallets,
        encode_utf8(body.from@),
        encode_utf8(body.to@),
        body.amount as u32,
    )
}

/// The transactions of the block that sends coins: a coinbase transaction
/// that rewards the sender, then the transfer.
pub open spec fn send_transactions(
    wallets: Seq<WalletEntryModel>,
    body: &SendBody,
    transfer: TransactionModel,
) -> Seq<TransactionModel> {
    seq![
        coinbase_model(
            stored_public_key(wallets, encode_utf8(body.from@)).unwrap(),
            "Reward to ".spec_bytes() + encode_utf8(body.from@),
        ),
        transfer,
    ]
}

/// What a well-formed request to send coins over `chain` comes to: the
/// answer to the error where the transfer cannot be built; otherwise the
/// block, or an internal error that means that at some time stamp no nonce
/// seals the block of coinbase and transfer.
pub open spec fn send_outcome(
    chain: Seq<BlockModel>,
    wallets: Seq<WalletEntryModel>,
    body: &SendBody,
    res: Result<Block, ApiError>,
) -> bool {
    match requested_transfer(chain, wallets, body) {
        Err(e) => res == Err::<Block, ApiError>(send_answer_to(e)),
        Ok(transfer) => res is Ok || (res == Err::<Block, ApiError>(ApiError::Internal)
            && mining_can_fail(chain.last().hash, send_transactions(wallets, body, transfer))),
    }
}

/// Sends coins over a chain: a block with a coinbase transaction that
/// rewards the sender and the signed transfer is mined on top of it, and
/// the index is updated from the block. A request that is not served
/// changes nothing.
pub fn send_coins(
    chain: &mut Blockchain,
    chainstate: &mut UTXOSet,
    wallets: &WalletStore,
    body: &SendBody,
) -> (res: Result<Block, ApiError>)
    ensures
        old(chainstate)@ == index_of_chain(old(chain)@) ==> final(chainstate)@ == index_of_chain(
            final(chain)@,
        ),
        is_keyed(old(chainstate)@) ==> is_keyed(final(chainstate)@),
        !send_is_well_formed(body) ==> res == Err::<Block, ApiError>(ApiError::BadRequest),
        send_is_well_formed(body) ==> send_outcome(old(chain)@, wallets@, body, res),
        match res {
            Ok(block) => {
                &&& send_is_well_formed(body)
                &&& final(chain)@ == old(chain)@.push(block@)
                &&& is_sealed(block@)
                &&& is_decimal_text(block@.timestamp)
                &&& mined_model(block@.prev_hash, block@.transactions, block@.timestamp) == Some(
                    block@,
                )
                &&& final(chainstate)@ == after_block(old(chainstate)@, block@)
                &&& stored_public_key(wallets@, encode_utf8(body.from@)) is Some
                &&& requested_transfer(old(chain)@, wallets@, body) is Ok
                &&& block@.transactions == send_transactions(
                    wallets@,
                    body,
                    requested_transfer(old(chain)@, wallets@, body)->Ok_0,
                )
            },
            Err(_) => final(chain)@ == old(chain)@ && final(chainstate)@ == old(chainstate)@,
        },
{
    if body.amount <= 0 || body.from == body.to {
        return Err(ApiError::BadRequest);
    }
    let transaction = match Transaction::new_utxo(
        body.from.as_str(),
        body.to.as_str(),
        body.amount as u32,
        chain,
        wallets,
    ) {
        Ok(tx) => tx,
        Err(e) => {
            return Err(send_error(e));
        },
    };
    proof {
        lemma_transfer_needs_wallet(
            chain@,
            wallets@,
            encode_utf8(body.from@),
            encode_utf8(body.to@),
            body.amount as u32,
        );
    }
    let coinbase = match Transaction::new_coinbase(body.from.as_str(), None, wallets) {
        Ok(tx) => tx,
        Err(_) => {
            return Err(ApiError::Internal);
        },
    };
    let mut transactions: Vec<Transaction> = Vec::new();
    transactions.push(coinbase);
    transactions.push(transaction);
    assert(transaction_models(transactions@) =~= send_transactions(wallets@, body, transaction@));
    let ghost before = chain@;
    let added = match chain.add_block(transactions) {
        Ok(block) => block,
        Err(e) => {
            proof {
                assert(verifies(transactions@[0]@, chain_transactions(before)));
                assert(verifies(transactions@[1]@, chain_transactions(before)));
                assert(e == ChainError::PowHashNotFound);
            }
            return Err(ApiError::Internal);
        },
    };
    chainstate.update(&added);
    proof {
        lemma_index_of_longer_chain(old(chain)@, added@);
    }
    Ok(added)
}

/// Starts a chain with a genesis block that rewards the wallet stored
/// under `address`, and makes the index from it. Where no genesis block
/// comes about, the index is left as it was.
pub fn start_chain(chainstate: &mut UTXOSet, wallets: &WalletStore, address: &str) -> (started:
    Option<Blockchain>)
    ensures
        match started {
            Some(chain) => {
                &&& is_chain(chain@)
                &&& is_genesis_chain(chain@, wallets@, address.spec_bytes())
                &&& final(chainstate)@ == reindexed(chain@)
                &&& final(chainstate)@ == index_of_chain(chain@)
                &&& is_keyed(final(chainstate)@)
            },
            None => {
                &&& final(chainstate)@ == old(chainstate)@
                &&& stored_public_key(wallets@, address.spec_bytes()) is None || mining_can_fail(
                    Seq::empty(),
                    genesis_transactions(wallets@, address.spec_bytes()),
                )
            },
        },
{
    let chain = match Blockchain::new(Some(address), None, wallets) {
        Ok(chain) => chain,
        Err(_) => {
            return None;
        },
    };
    chainstate.reindex(&chain);
    proof {
        assert(chain@ =~= seq![chain@[0]]);
        lemma_first_update_is_reindex(chain@[0]);
    }
    Some(chain)
}

/// What sending coins over the chain that the store holds comes to: a
/// request that is not served changes nothing; one that is not well formed
/// is a bad request; a well-formed one comes to what `send_outcome` says.
pub open spec fn send_on_chain(
    before: StoreModel,
    after: StoreModel,
    body: &SendBody,
    res: Result<Block, ApiError>,
) -> bool {
    &&& res is Err ==> after == before
    &&& !send_is_well_formed(body) ==> res == Err::<Block, ApiError>(ApiError::BadRequest)
    &&& send_is_well_formed(body) ==> send_outcome(before.blocks.unwrap(), before.wallets, body, res)
    &&& res is Ok ==> after.blocks.unwrap() == before.blocks.unwrap().push(res->Ok_0@)
}

/// What sending coins comes to where the store holds no chain. Where no
/// genesis block comes about, the store is left as it was and the answer
/// is an internal error, which means that no wallet is stored under the
/// sender's address or that at some time stamp no nonce seals the genesis
/// block. Otherwise the chain starts with the genesis block that rewards
/// the sender, the index follows it, and the request goes on over that
/// chain.
pub open spec fn send_without_chain(
    before: StoreModel,
    after: StoreModel,
    body: &SendBody,
    res: Result<Block, ApiError>,
) -> bool {
    match after.blocks {
        None => {
            &&& res == Err::<Block, ApiError>(ApiError::Internal)
            &&& after == before
            &&& stored_public_key(before.wallets, encode_utf8(body.from@)) is None
                || mining_can_fail(
                Seq::empty(),
                genesis_transactions(before.wallets, encode_utf8(body.from@)),
            )
        },
        Some(chain) => {
            &&& is_genesis_chain(chain.take(1), before.wallets, encode_utf8(body.from@))
            &&& chain.len() == if res is Ok {
                2int
            } else {
                1int
            }
            &&& !send_is_well_formed(body) ==> res == Err::<Block, ApiError>(ApiError::BadRequest)
            &&& send_is_well_formed(body) ==> send_outcome(
                chain.take(1),
                before.wallets,
                body,
                res,
            )
            &&& res is Err ==> after.chainstate == reindexed(chain)
        },
    }
}

/// What holds of the block that was sent: it is the newest of the chain,
/// sealed at the first nonce for its time stamp, made of the coinbase
/// transaction and the transfer that was asked for over the chain before
/// it, and the index was updated from it.
pub open spec fn sent_block(
    before: StoreModel,
    after: StoreModel,
    body: &SendBody,
    block: BlockModel,
) -> bool {
    &&& send_is_well_formed(body)
    &&& after.blocks is Some
    &&& after.blocks.unwrap().len() >= 2
    &&& after.blocks.unwrap().last() == block
    &&& is_sealed(block)
    &&& is_decimal_text(block.timestamp)
    &&& mined_model(block.prev_hash, block.transactions, block.timestamp) == Some(block)
    &&& after.chainstate == after_block(
        if before.blocks is Some {
            before.chainstate
        } else {
            reindexed(after.blocks.unwrap().drop_last())
        },
        block,
    )
    &&& stored_public_key(before.wallets, encode_utf8(body.from@)) is Some
    &&& requested_transfer(after.blocks.unwrap().drop_last(), before.wallets, body) is Ok
    &&& block.transactions == send_transactions(
        before.wallets,
        body,
        requested_transfer(after.blocks.unwrap().drop_last(), before.wallets, body)->Ok_0,
    )
}

/// Sends coins over the chain that the store holds.
fn send_over_chain(store: &mut AppStore, body: &SendBody) -> (res: Result<Block, ApiError>)
    requires
        old(store)@.blocks is Some,
    ensures
        final(store)@.wallets == old(store)@.wallets,
        final(store)@.blocks is Some,
        is_chain(final(store)@.blocks.unwrap()),
        index_follows_chain(old(store)@) ==> index_follows_chain(final(store)@),
        is_keyed(old(store)@.chainstate) ==> is_keyed(final(store)@.chainstate),
        send_on_chain(old(store)@, final(store)@, body, res),
        res is Ok ==> sent_block(old(store)@, final(store)@, body, res->Ok_0@),
{
    let mut chain = match store.blocks.take() {
        Some(chain) => chain,
        None => vstd::pervasive::unreached(),
    };
    chain.is_linked();
    let ghost before = chain@;
    let res = send_coins(&mut chain, &mut store.chainstate, &store.wallets, body);
    proof {
        if res is Ok {
            assert(chain@.drop_last() == before);
        }
    }
    chain.is_linked();
    store.blocks = Some(chain);
    res
}

/// Starts a chain for the sender and sends coins over it.
fn send_over_new_chain(store: &mut AppStore, body: &SendBody) -> (res: Result<Block, ApiError>)
    requires
        old(store)@.blocks is None,
    ensures
        final(store)@.wallets == old(store)@.wallets,
        final(store)@.blocks is Some ==> is_chain(final(store)@.blocks.unwrap()),
        index_follows_chain(final(store)@),
        is_keyed(final(store)@.chainstate) || final(store)@ == old(store)@,
        send_without_chain(old(store)@, final(store)@, body, res),
        res is Ok ==> sent_block(old(store)@, final(store)@, body, res->Ok_0@),
{
    let mut chain = match start_chain(&mut store.chainstate, &store.wallets, body.from.as_str()) {
        Some(chain) => chain,
        None => {
            return Err(ApiError::Internal);
        },
    };
    let ghost before = chain@;
    let res = send_coins(&mut chain, &mut store.chainstate, &store.wallets, body);
    proof {
        if res is Ok {
            assert(chain@.drop_last() == before);
        }
        assert(chain@.take(1) =~= before);
    }
    chain.is_linked();
    store.blocks = Some(chain);
    res
}

/// Sends coins. Where no chain exists yet, one is started first with a
/// genesis block that rewards the sender, the index is made from it, and
/// both are kept whatever follows.
pub fn add_chain_block(store: &mut AppStore, body: &SendBody) -> (res: Result<Block, ApiError>)
    ensures
        final(store)@.wallets == old(store)@.wallets,
        final(store)@.blocks is Some ==> is_chain(final(store)@.blocks.unwrap()),
        index_follows_chain(old(store)@) ==> index_follows_chain(final(store)@),
        is_keyed(old(store)@.chainstate) ==> is_keyed(final(store)@.chainstate),
        old(store)@.blocks is Some ==> send_on_chain(old(store)@, final(store)@, body, res),
        old(store)@.blocks is None ==> index_follows_chain(final(store)@) && send_without_chain(
            old(store)@,
            final(store)@,
            body,
            res,
        ),
        res is Ok ==> sent_block(old(store)@, final(store)@, body, res->Ok_0@),
{
    if Blockchain::chain_exists(&store.blocks) {
        send_over_chain(store, body)
    } else {
        send_over_new_chain(store, body)
    }
}

/// Makes a wallet, keeps it, and answers with its address.
pub fn new_wallet(store: &mut AppStore) -> (answer: CreateWalletResponse)
    ensures
        final(store)@.blocks == old(store)@.blocks,
        final(store)@.chainstate == old(store)@.chainstate,
        stored_key(final(store).wallets@, answer.wallet_address@) is Some,
        public_key_of(stored_key(final(store).wallets@, answer.wallet_address@).unwrap()) is Some,
        answer.wallet_address@ == address_of(
            pub_key_hash_of(
                public_key_of(
                    stored_key(final(store).wallets@, answer.wallet_address@).unwrap(),
                ).unwrap(),
            ),
        ),
        has_unique_addresses(old(store)@.wallets) ==> has_unique_addresses(final(store)@.wallets),
        final(store)@.wallets == with_entry(
            old(store)@.wallets,
            WalletEntryModel {
                address: answer.wallet_address@,
                private_key: stored_key(final(store).wallets@, answer.wallet_address@).unwrap(),
            },
        ),
{
    let wallet_address = Wallet::create(&mut store.wallets);
    CreateWalletResponse { wallet_address }
}

/// The addresses of all wallets.
pub fn get_wallets(store: &AppStore) -> (list: Vec<HashHex>)
    ensures
        list@.map_values(|address: HashHex| address@) == stored_addresses(store.wallets@),
{
    Wallet::get_all_addresses(&store.wallets)
}

} // verus!
