//! Key pairs, the addresses derived from them, and the store of wallets.

use vstd::prelude::*;
use vstd::string::*;
use crate::hashing::{pub_key_hash_of, ripemd160, sha256, sha256d, sha256d_of};
use crate::keys::{derive_public_key, generate_private_key, public_key_of};
use crate::utils::{
    append_bytes, bytes_eq, copy_bytes, hex_decode, hex_decoded, le_bytes, lemma_first_index,
    lemma_no_index, push_le_bytes, HashHex,
};

verus! {

/// The version that every address starts with, as two bytes, the low first.
pub const VERSION: u16 = 1;

/// No wallet is stored under the address.
#[derive(Debug, Clone, Copy, PartialEq, Eq, Structural)]
pub struct WalletNotFoundError;

impl WalletNotFoundError {
    /// The error in words.
    pub fn message(&self) -> (text: String)
        ensures
            text@ == "Wallet is not found"@,
    {
        "Wallet is not found".to_owned()
    }
}

/// Why a text is no address.
#[derive(Debug, Clone, Copy, PartialEq, Eq, Structural)]
pub enum AddressError {
    /// The text is not an even number of hexadecimal digits.
    NotHex,
    /// The bytes are not Base58.
    NotBase58,
    /// Fewer bytes than a version and a checksum take.
    TooShort,
    /// The checksum is not that of the bytes before it.
    BadChecksum,
}

/// The Base58 text of a byte string.
pub uninterp spec fn base58_of(data: Seq<u8>) -> Seq<u8>;

/// The byte string that a Base58 text stands for; `None` where it is none.
pub uninterp spec fn base58_decoded(text: Seq<u8>) -> Option<Seq<u8>>;

/// Trusted: `bs58::encode` with the default alphabet. The text decodes to
/// the bytes that went in.
#[verifier::external_body]
fn base58_encode(data: &[u8]) -> (text: Vec<u8>)
    ensures
        text@ == base58_of(data@),
        base58_decoded(text@) == Some(data@),
{
    bs58::encode(data).into_vec()
}

/// Trusted: `bs58::decode` with the default alphabet; `None` where the text
/// holds a byte outside the alphabet.
#[verifier::external_body]
fn base58_decode(text: &[u8]) -> (data: Option<Vec<u8>>)
    ensures
        match data {
            Some(bytes) => base58_decoded(text@) == Some(bytes@),
            None => base58_decoded(text@) is None,
        },
{
    bs58::decode(text).into_vec().ok()
}

/// The four bytes that guard a payload: the start of its double SHA-256.
pub open spec fn checksum_of(payload: Seq<u8>) -> Seq<u8> {
    Seq::new(4, |i: int| sha256d_of(payload)[i])
}

/// The version followed by the public-key hash.
pub open spec fn address_payload(pub_key_hash: Seq<u8>) -> Seq<u8> {
    le_bytes(VERSION as nat, 2) + pub_key_hash
}

/// The address of a public-key hash: the Base58 text of version, hash and
/// checksum.
pub open spec fn address_of(pub_key_hash: Seq<u8>) -> Seq<u8> {
    base58_of(address_payload(pub_key_hash) + checksum_of(address_payload(pub_key_hash)))
}

/// The public-key hash inside decoded address bytes: what stands between
/// the two version bytes and the four checksum bytes, where the checksum is
/// that of the bytes before it.
pub open spec fn payload_hash(raw: Seq<u8>) -> Result<Seq<u8>, AddressError> {
    if raw.len() < 6 {
        Err(AddressError::TooShort)
    } else if raw.subrange(raw.len() - 4, raw.len() as int) != checksum_of(
        raw.subrange(0, raw.len() - 4),
    ) {
        Err(AddressError::BadChecksum)
    } else {
        Ok(raw.subrange(2, raw.len() - 4))
    }
}

/// The public-key hash that an address stands for.
pub open spec fn decoded_address(address: Seq<u8>) -> Result<Seq<u8>, AddressError> {
    match base58_decoded(address) {
        None => Err(AddressError::NotBase58),
        Some(raw) => payload_hash(raw),
    }
}

/// The public-key hash that the hexadecimal text of an address stands for.
pub open spec fn decoded_hex_address(text: Seq<u8>) -> Result<Seq<u8>, AddressError> {
    match hex_decoded(text) {
        None => Err(AddressError::NotHex),
        Some(address) => decoded_address(address),
    }
}

/// The first four bytes of the double SHA-256 of `payload`.
fn checksum(payload: &[u8]) -> (sum: Vec<u8>)
    ensures
        sum@ == checksum_of(payload@),
{
    let digest = Wallet::checksum_hash(payload);
    let mut sum: Vec<u8> = Vec::new();
    let mut i: usize = 0;
    while i < 4
        invariant
            i <= 4,
            digest@.len() == 32,
            digest@ == sha256d_of(payload@),
            sum@.len() == i,
            forall|k: int| 0 <= k < i ==> sum@[k] == digest@[k],
        decreases 4 - i,
    {
        sum.push(digest[i]);
        i += 1;
    }
    assert(sum@ =~= checksum_of(payload@));
    sum
}

/// The address of a public-key hash. Decoding it gives the hash back.
pub fn encode_address(pub_key_hash: &[u8]) -> (address: HashHex)
    ensures
        address@ == address_of(pub_key_hash@),
        decoded_address(address@) == Ok::<Seq<u8>, AddressError>(pub_key_hash@),
{
    let mut payload: Vec<u8> = Vec::new();
    push_le_bytes(&mut payload, VERSION as u64, 2);
    append_bytes(&mut payload, pub_key_hash);
    assert(payload@ =~= address_payload(pub_key_hash@));
    let sum = checksum(payload.as_slice());
    let mut raw = copy_bytes(payload.as_slice());
    append_bytes(&mut raw, sum.as_slice());
    let text = base58_encode(raw.as_slice());
    proof {
        reveal_with_fuel(le_bytes, 3);
        assert(le_bytes(VERSION as nat, 2).len() == 2);
        assert(raw@.subrange(0, raw@.len() - 4) =~= payload@);
        assert(raw@.subrange(raw@.len() - 4, raw@.len() as int) =~= sum@);
        assert(raw@.subrange(2, raw@.len() - 4) =~= pub_key_hash@);
    }
    HashHex(text)
}

/// The public-key hash that an address stands for: the Base58 text is
/// decoded, the checksum is held against the bytes before it, and the two
/// version bytes and the checksum are taken off.
pub fn decode_address(address: &[u8]) -> (res: Result<HashHex, AddressError>)
    ensures
        match res {
            Ok(hash) => decoded_address(address@) == Ok::<Seq<u8>, AddressError>(hash@),
            Err(e) => decoded_address(address@) == Err::<Seq<u8>, AddressError>(e),
        },
{
    let raw = match base58_decode(address) {
        Some(bytes) => bytes,
        None => {
            return Err(AddressError::NotBase58);
        },
    };
    let n = raw.len();
    if n < 6 {
        return Err(AddressError::TooShort);
    }
    let body = vstd::slice::slice_subrange(raw.as_slice(), 0, n - 4);
    let given = vstd::slice::slice_subrange(raw.as_slice(), n - 4, n);
    let sum = checksum(body);
    if !bytes_eq(given, sum.as_slice()) {
        return Err(AddressError::BadChecksum);
    }
    let hash = vstd::slice::slice_subrange(raw.as_slice(), 2, n - 4);
    Ok(HashHex::from_slice(hash))
}

/// An address whose payload was exchanged for another while its checksum
/// was kept is refused, unless the other payload has the same checksum.
pub proof fn lemma_altered_payload_is_refused(
    address: Seq<u8>,
    payload: Seq<u8>,
    altered: Seq<u8>,
)
    requires
        altered.len() >= 2,
        checksum_of(altered) != checksum_of(payload),
        base58_decoded(address) == Some(altered + checksum_of(payload)),
    ensures
        decoded_address(address) == Err::<Seq<u8>, AddressError>(AddressError::BadChecksum),
{
    let raw = altered + checksum_of(payload);
    assert(raw.subrange(0, raw.len() - 4) =~= altered);
    assert(raw.subrange(raw.len() - 4, raw.len() as int) =~= checksum_of(payload));
}

/// A key pair: a P-256 private key of 32 bytes and its public key as an
/// uncompressed SEC1 point of 65 bytes.
#[derive(Debug)]
pub struct Wallet {
    pub private_key: Vec<u8>,
    pub public_key: Vec<u8>,
}

/// One stored wallet: the address and the private key kept under it.
#[derive(Debug)]
pub struct WalletEntry {
    pub address: Vec<u8>,
    pub private_key: Vec<u8>,
}

/// What a stored wallet holds.
pub struct WalletEntryModel {
    pub address: Seq<u8>,
    pub private_key: Seq<u8>,
}

impl View for WalletEntry {
    type V = WalletEntryModel;

    open spec fn view(&self) -> WalletEntryModel {
        WalletEntryModel { address: self.address@, private_key: self.private_key@ }
    }
}

/// The wallets that were created, each private key under its address, in
/// the order in which the addresses first came.
#[derive(Debug)]
pub struct WalletStore {
    pub entries: Vec<WalletEntry>,
}

impl View for WalletStore {
    type V = Seq<WalletEntryModel>;

    open spec fn view(&self) -> Seq<WalletEntryModel> {
        self.entries@.map_values(|entry: WalletEntry| entry@)
    }
}

/// The addresses of a row of stored wallets.
pub open spec fn stored_addresses(entries: Seq<WalletEntryModel>) -> Seq<Seq<u8>> {
    entries.map_values(|entry: WalletEntryModel| entry.address)
}

/// The private key kept under `address`: that of the first entry with it.
pub open spec fn stored_key(entries: Seq<WalletEntryModel>, address: Seq<u8>) -> Option<Seq<u8>> {
    match stored_addresses(entries).index_of_first(address) {
        Some(i) => Some(entries[i].private_key),
        None => None,
    }
}

/// The entries after `entry` was written: it takes the place of the first
/// entry with its address, or comes last where there is none.
pub open spec fn with_entry(entries: Seq<WalletEntryModel>, entry: WalletEntryModel) -> Seq<
    WalletEntryModel,
> {
    match stored_addresses(entries).index_of_first(entry.address) {
        Some(i) => entries.update(i, entry),
        None => entries.push(entry),
    }
}

/// The public key of the wallet stored under the address given as
/// hexadecimal text: `None` where the text is not hexadecimal, nothing is
/// stored under the address, or what is stored is no private key.
pub open spec fn stored_public_key(entries: Seq<WalletEntryModel>, text: Seq<u8>) -> Option<Seq<u8>> {
    match stored_private_key(entries, text) {
        Some(key) => public_key_of(key),
        None => None,
    }
}

/// The private key stored under the address given as hexadecimal text.
pub open spec fn stored_private_key(entries: Seq<WalletEntryModel>, text: Seq<u8>) -> Option<
    Seq<u8>,
> {
    match hex_decoded(text) {
        Some(address) => stored_key(entries, address),
        None => None,
    }
}

/// Whether the store is a map: no address has two entries.
pub open spec fn has_unique_addresses(entries: Seq<WalletEntryModel>) -> bool {
    stored_addresses(entries).no_duplicates()
}

/// Writing an entry keeps the store a map.
pub proof fn lemma_entry_keeps_unique(entries: Seq<WalletEntryModel>, entry: WalletEntryModel)
    requires
        has_unique_addresses(entries),
    ensures
        has_unique_addresses(with_entry(entries, entry)),
{
    let addresses = stored_addresses(entries);
    let after = stored_addresses(with_entry(entries, entry));
    addresses.index_of_first_ensures(entry.address);
    match addresses.index_of_first(entry.address) {
        Some(i) => {
            assert(after =~= addresses);
        },
        None => {
            assert(after =~= addresses.push(entry.address));
            assert forall|a: int, b: int|
                0 <= a < after.len() && 0 <= b < after.len() && a != b implies after[a]
                != after[b] by {
                if a < addresses.len() && b < addresses.len() {
                    assert(addresses[a] != addresses[b]);
                } else if a < addresses.len() {
                    assert(addresses.contains(addresses[a]));
                } else {
                    assert(addresses.contains(addresses[b]));
                }
            }
        },
    }
}

impl WalletStore {
    /// A store without wallets.
    pub fn new() -> (store: Self)
        ensures
            store@ == Seq::<WalletEntryModel>::empty(),
            has_unique_addresses(store@),
    {
        let store = WalletStore { entries: Vec::new() };
        assert(store@ =~= Seq::<WalletEntryModel>::empty());
        store
    }

    /// The number of entries.
    pub fn len(&self) -> (n: usize)
        ensures
            n == self@.len(),
    {
        self.entries.len()
    }

    /// Whether the store holds no wallet.
    pub fn is_empty(&self) -> (empty: bool)
        ensures
            empty == (self@.len() == 0),
    {
        self.entries.len() == 0
    }

    fn position(&self, address: &[u8]) -> (found: Option<usize>)
        ensures
            match found {
                Some(i) => i < self@.len() && stored_addresses(self@).index_of_first(address@)
                    == Some(i as int),
                None => stored_addresses(self@).index_of_first(address@) is None,
            },
    {
        let ghost addresses = stored_addresses(self@);
        let mut i: usize = 0;
        while i < self.entries.len()
            invariant
                i <= self.entries.len(),
                addresses == stored_addresses(self@),
                forall|k: int| 0 <= k < i ==> addresses[k] != address@,
            decreases self.entries.len() - i,
        {
            if bytes_eq(self.entries[i].address.as_slice(), address) {
                proof {
                    assert(addresses[i as int] == self.entries@[i as int].address@);
                    lemma_first_index(addresses, address@, i as int);
                }
                return Some(i);
            }
            assert(addresses[i as int] == self.entries@[i as int].address@);
            i += 1;
        }
        proof {
            lemma_no_index(addresses, address@);
        }
        None
    }

    /// The private key kept under `address`.
    pub fn get(&self, address: &[u8]) -> (key: Option<Vec<u8>>)
        ensures
            match key {
                Some(bytes) => stored_key(self@, address@) == Some(bytes@),
                None => stored_key(self@, address@) is None,
            },
    {
        match self.position(address) {
            Some(i) => Some(copy_bytes(self.entries[i].private_key.as_slice())),
            None => None,
        }
    }

    /// Keeps `private_key` under `address`, in place of what was there.
    pub fn set(&mut self, address: &[u8], private_key: &[u8])
        ensures
            final(self)@ == with_entry(
                old(self)@,
                WalletEntryModel { address: address@, private_key: private_key@ },
            ),
            stored_key(final(self)@, address@) == Some(private_key@),
            final(self)@.len() == if stored_key(old(self)@, address@) is Some {
                old(self)@.len()
            } else {
                old(self)@.len() + 1
            },
            has_unique_addresses(old(self)@) ==> has_unique_addresses(final(self)@),
    {
        proof {
            if has_unique_addresses(old(self)@) {
                lemma_entry_keeps_unique(
                    old(self)@,
                    WalletEntryModel { address: address@, private_key: private_key@ },
                );
            }
        }
        let entry = WalletEntry {
            address: copy_bytes(address),
            private_key: copy_bytes(private_key),
        };
        let ghost before = self@;
        match self.position(address) {
            Some(i) => {
                self.entries.set(i, entry);
                assert(self@ =~= before.update(i as int, entry@));
                proof {
                    stored_addresses(before).index_of_first_ensures(address@);
                    assert(stored_addresses(before)[i as int] == before[i as int].address);
                    assert(stored_addresses(self@) =~= stored_addresses(before));
                }
            },
            None => {
                self.entries.push(entry);
                assert(self@ =~= before.push(entry@));
                proof {
                    let addresses = stored_addresses(self@);
                    stored_addresses(before).index_of_first_ensures(address@);
                    assert forall|j: int| 0 <= j < before.len() implies addresses[j]
                        != address@ by {
                        assert(addresses[j] == stored_addresses(before)[j]);
                        assert(stored_addresses(before).contains(stored_addresses(before)[j]));
                    }
                    lemma_first_index(addresses, address@, before.len() as int);
                }
            },
        }
    }

    /// The addresses, in the order of the entries.
    pub fn addresses(&self) -> (list: Vec<HashHex>)
        ensures
            list@.map_values(|address: HashHex| address@) == stored_addresses(self@),
    {
        let mut list: Vec<HashHex> = Vec::new();
        let mut i: usize = 0;
        while i < self.entries.len()
            invariant
                i <= self.entries.len(),
                list@.len() == i,
                forall|k: int| 0 <= k < i ==> (#[trigger] list@[k])@ == self.entries@[k].address@,
            decreases self.entries.len() - i,
        {
            list.push(HashHex::from_slice(self.entries[i].address.as_slice()));
            i += 1;
        }
        assert(list@.map_values(|address: HashHex| address@) =~= stored_addresses(self@));
        list
    }
}

impl Wallet {
    /// Whether the public key is the one that belongs to the private key.
    pub open spec fn wf(&self) -> bool {
        public_key_of(self.private_key@) == Some(self.public_key@)
    }

    /// A wallet with a fresh random key pair.
    pub fn new() -> (wallet: Self)
        ensures
            wallet.wf(),
    {
        let private_key = generate_private_key();
        match derive_public_key(private_key.as_slice()) {
            Some(public_key) => Wallet { private_key, public_key },
            None => vstd::pervasive::unreached(),
        }
    }

    /// The wallet of a given private key, where the bytes are one.
    pub fn from_private_key(private_key: &[u8]) -> (wallet: Option<Self>)
        ensures
            match wallet {
                Some(w) => w.wf() && w.private_key@ == private_key@,
                None => public_key_of(private_key@) is None,
            },
    {
        match derive_public_key(private_key) {
            Some(public_key) => Some(Wallet { private_key: copy_bytes(private_key), public_key }),
            None => None,
        }
    }

    /// Makes a wallet, keeps its private key in `store` under its address,
    /// and returns the address.
    pub fn create(store: &mut WalletStore) -> (address: HashHex)
        ensures
            stored_key(final(store)@, address@) is Some,
            public_key_of(stored_key(final(store)@, address@).unwrap()) is Some,
            address@ == address_of(
                pub_key_hash_of(
                    public_key_of(stored_key(final(store)@, address@).unwrap()).unwrap(),
                ),
            ),
            final(store)@ == with_entry(
                old(store)@,
                WalletEntryModel {
                    address: address@,
                    private_key: stored_key(final(store)@, address@).unwrap(),
                },
            ),
            has_unique_addresses(old(store)@) ==> has_unique_addresses(final(store)@),
    {
        let wallet = Wallet::new();
        let address = wallet.generate_address();
        store.set(address.0.as_slice(), wallet.private_key.as_slice());
        address
    }

    /// The addresses of all stored wallets.
    pub fn get_all_addresses(store: &WalletStore) -> (list: Vec<HashHex>)
        ensures
            list@.map_values(|address: HashHex| address@) == stored_addresses(store@),
    {
        store.addresses()
    }

    /// The address of the wallet's public key.
    pub fn generate_address(&self) -> (address: HashHex)
        ensures
            address@ == address_of(pub_key_hash_of(self.public_key@)),
            decoded_address(address@) == Ok::<Seq<u8>, AddressError>(
                pub_key_hash_of(self.public_key@),
            ),
    {
        let pub_key_hash = Self::hash_pub_key(self.pub_key_bytes_vec());
        encode_address(pub_key_hash.0.as_slice())
    }

    /// The wallet stored under the address given as hexadecimal text:
    /// `None` where the text is not hexadecimal, nothing is stored under the
    /// address, or what is stored is no private key.
    pub fn get_by(address: &str, store: &WalletStore) -> (wallet: Option<Wallet>)
        ensures
            match wallet {
                Some(w) => {
                    &&& w.wf()
                    &&& stored_private_key(store@, address.spec_bytes()) == Some(w.private_key@)
                    &&& stored_public_key(store@, address.spec_bytes()) == Some(w.public_key@)
                },
                None => stored_public_key(store@, address.spec_bytes()) is None,
            },
    {
        if store.is_empty() {
            proof {
                stored_addresses(store@).index_of_first_ensures(
                    hex_decoded(address.spec_bytes()).unwrap(),
                );
            }
            return None;
        }
        let bytes = match hex_decode(address.as_bytes()) {
            Some(b) => b,
            None => {
                return None;
            },
        };
        match store.get(bytes.as_slice()) {
            Some(private_key) => Self::from_private_key(private_key.as_slice()),
            None => None,
        }
    }

    /// A copy of the public key.
    pub fn pub_key_bytes_vec(&self) -> (key: Vec<u8>)
        ensures
            key@ == self.public_key@,
    {
        copy_bytes(self.public_key.as_slice())
    }

    /// The hash that locks an output to a public key: RIPEMD-160 of its
    /// SHA-256.
    pub fn hash_pub_key(key: Vec<u8>) -> (hash: HashHex)
        ensures
            hash@ == pub_key_hash_of(key@),
            hash@.len() == 20,
    {
        let inner = sha256(key.as_slice());
        HashHex(ripemd160(inner.as_slice()))
    }

    /// The public-key hash that the hexadecimal text of an address stands
    /// for.
    pub fn retrieve_pub_key_hash(address: &str) -> (res: Result<HashHex, AddressError>)
        ensures
            match res {
                Ok(hash) => decoded_hex_address(address.spec_bytes()) == Ok::<
                    Seq<u8>,
                    AddressError,
                >(hash@),
                Err(e) => decoded_hex_address(address.spec_bytes()) == Err::<
                    Seq<u8>,
                    AddressError,
                >(e),
            },
    {
        match hex_decode(address.as_bytes()) {
            None => Err(AddressError::NotHex),
            Some(bytes) => decode_address(bytes.as_slice()),
        }
    }

    /// The double SHA-256 of `payload`.
    pub fn checksum_hash(payload: &[u8]) -> (digest: Vec<u8>)
        ensures
            digest@ == sha256d_of(payload@),
            digest@.len() == 32,
    {
        sha256d(payload)
    }
}

} // verus!
