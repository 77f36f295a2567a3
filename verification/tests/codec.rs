use ripemd::Ripemd160;
use sha2::{Digest, Sha256};
use utxo_chain::hashing::sha256d;
use utxo_chain::merkle_tree::MerkleNode;
use utxo_chain::utils::{
    append_bytes, bytes_eq, copy_bytes, decimal_i32, decimal_u128, decimal_u64, get_current_time,
    hex_decode, hex_encode, push_le_bytes, HashHex,
};
use utxo_chain::wallet::{decode_address, encode_address, AddressError, Wallet};

fn sha256(data: &[u8]) -> Vec<u8> {
    Sha256::digest(data).to_vec()
}

fn ripemd160(data: &[u8]) -> Vec<u8> {
    Ripemd160::digest(data).to_vec()
}

fn unhex(text: &str) -> Vec<u8> {
    hex::decode(text).unwrap()
}

#[test]
fn sha256_of_abc() {
    assert_eq!(
        MerkleNode::new(None, None, Some(b"abc")).data,
        unhex("ba7816bf8f01cfea414140de5dae2223b00361a396177a9cb410ff61f20015ad")
    );
}

#[test]
fn sha256_of_nothing() {
    assert_eq!(
        MerkleNode::new(None, None, Some(b"")).data,
        unhex("e3b0c44298fc1c149afbf4c8996fb92427ae41e4649b934ca495991b7852b855")
    );
}

#[test]
fn pub_key_hash_of_abc() {
    let inner = unhex("ba7816bf8f01cfea414140de5dae2223b00361a396177a9cb410ff61f20015ad");
    assert_eq!(Wallet::hash_pub_key(b"abc".to_vec()).0, ripemd160(&inner));
    assert_eq!(ripemd160(b"abc"), unhex("8eb208f7e05d987a9b044a8e98c6b087f15a0bfc"));
}

#[test]
fn checksum_hash_is_double_sha256() {
    assert_eq!(Wallet::checksum_hash(b"hello"), sha256(&sha256(b"hello")));
}

#[test]
fn current_time_is_decimal_milliseconds() {
    let now = get_current_time();
    assert!(!now.is_empty());
    assert!(now.bytes().all(|c| c.is_ascii_digit()));
    let millis: u128 = now.parse().unwrap();
    assert!(millis > 1_600_000_000_000);
    assert!(get_current_time().parse::<u128>().unwrap() >= millis);
}

#[test]
fn hash_hex_conversions() {
    let hash = HashHex::from(vec![1u8, 2, 3]);
    assert_eq!(hash.to_vec(), vec![1, 2, 3]);
    assert_eq!(hash.clone(), hash);
    assert!(hash.same_as(&HashHex::from_slice(&[1, 2, 3])));
    assert!(!hash.same_as(&HashHex::from_slice(&[1, 2])));
    assert!(!hash.same_as(&HashHex::from_slice(&[1, 2, 4])));
    assert!(HashHex::empty().0.is_empty());
    let bytes: Vec<u8> = hash.into();
    assert_eq!(bytes, vec![1, 2, 3]);
}

#[test]
fn byte_helpers() {
    assert_eq!(copy_bytes(&[5, 6]), vec![5, 6]);
    assert!(bytes_eq(&[], &[]));
    assert!(bytes_eq(&[1, 2], &[1, 2]));
    assert!(!bytes_eq(&[1, 2], &[2, 1]));
    assert!(!bytes_eq(&[1], &[1, 1]));
    let mut out = vec![9u8];
    append_bytes(&mut out, &[8, 7]);
    assert_eq!(out, vec![9, 8, 7]);
    push_le_bytes(&mut out, 0x0102, 2);
    assert_eq!(out, vec![9, 8, 7, 2, 1]);
    let mut nonce = Vec::new();
    push_le_bytes(&mut nonce, 0x0102030405060708, 8);
    assert_eq!(nonce, 0x0102030405060708u64.to_le_bytes().to_vec());
    let mut none = Vec::new();
    push_le_bytes(&mut none, 77, 0);
    assert!(none.is_empty());
}

#[test]
fn public_key_of_the_private_key_one() {
    let mut private_key = vec![0u8; 32];
    private_key[31] = 1;
    let wallet = Wallet::from_private_key(&private_key).unwrap();
    let mut generator = vec![4u8];
    generator.extend(unhex("6b17d1f2e12c4247f8bce6e563a440f277037d812deb33a0f4a13945d898c296"));
    generator.extend(unhex("4fe342e2fe1a7f9b8ee7eb4a7c0f9e162bce33576b315ececbb6406837bf51f5"));
    assert_eq!(wallet.public_key, generator);
    assert_eq!(wallet.private_key, private_key);
}

#[test]
fn sha256d_is_sha256_twice() {
    assert_eq!(sha256d(b"hello"), sha256(&sha256(b"hello")));
    assert_eq!(
        sha256d(b"hello"),
        unhex("9595c9df90075148eb06860365df33584b75bff782a510c6cd4883a419833d50")
    );
}

#[test]
fn hex_is_lowercase_two_digits_per_byte() {
    assert_eq!(hex_encode(&[0x00, 0x0f, 0xa0, 0xff]), b"000fa0ff".to_vec());
    assert_eq!(hex_encode(&[]), Vec::<u8>::new());
}

#[test]
fn decimal_text() {
    assert_eq!(decimal_u64(0), b"0".to_vec());
    assert_eq!(decimal_u64(10), b"10".to_vec());
    assert_eq!(decimal_u64(u64::MAX), b"18446744073709551615".to_vec());
    assert_eq!(decimal_i32(-1), b"-1".to_vec());
    assert_eq!(decimal_i32(i32::MIN), b"-2147483648".to_vec());
    assert_eq!(decimal_i32(i32::MAX), b"2147483647".to_vec());
}

#[test]
fn hash_pub_key_is_ripemd_of_sha() {
    let key = vec![4u8; 65];
    assert_eq!(Wallet::hash_pub_key(key.clone()).0, ripemd160(&sha256(&key)));
    assert_eq!(Wallet::hash_pub_key(key).0.len(), 20);
}

#[test]
fn address_round_trip() {
    let hash: Vec<u8> = (0u8..20).collect();
    let address = encode_address(&hash);
    assert_eq!(decode_address(&address.0), Ok(HashHex(hash.clone())));
    let mut raw = vec![1u8, 0u8];
    raw.extend_from_slice(&hash);
    let sum = sha256d(&raw);
    raw.extend_from_slice(&sum[..4]);
    assert_eq!(address.0, bs58::encode(raw).into_vec());
}

#[test]
fn address_with_flipped_bit_is_refused() {
    let hash: Vec<u8> = (100u8..120).collect();
    let address = encode_address(&hash);
    let mut raw = bs58::decode(&address.0).into_vec().unwrap();
    assert_eq!(raw.len(), 26);
    for position in 0..22 {
        for bit in 0..8 {
            raw[position] ^= 1 << bit;
            let forged = bs58::encode(&raw).into_vec();
            assert_eq!(decode_address(&forged), Err(AddressError::BadChecksum));
            raw[position] ^= 1 << bit;
        }
    }
}

#[test]
fn address_errors() {
    assert_eq!(decode_address(b"0OIl"), Err(AddressError::NotBase58));
    assert_eq!(decode_address(&bs58::encode([1u8, 2, 3]).into_vec()), Err(AddressError::TooShort));
    assert_eq!(Wallet::retrieve_pub_key_hash("zz"), Err(AddressError::NotHex));
    assert_eq!(Wallet::retrieve_pub_key_hash("abc"), Err(AddressError::NotHex));
}

#[test]
fn retrieve_pub_key_hash_reads_hex_of_base58() {
    let wallet = Wallet::new();
    let address = wallet.generate_address();
    let text = hex::encode(&address.0);
    assert_eq!(
        Wallet::retrieve_pub_key_hash(&text),
        Ok(Wallet::hash_pub_key(wallet.pub_key_bytes_vec()))
    );
    assert_eq!(
        Wallet::retrieve_pub_key_hash(&text.to_uppercase()),
        Ok(Wallet::hash_pub_key(wallet.pub_key_bytes_vec()))
    );
}

#[test]
fn hex_text_is_read_in_either_case() {
    assert_eq!(hex_decode(b"000fa0ff"), Some(vec![0x00, 0x0f, 0xa0, 0xff]));
    assert_eq!(hex_decode(b"000FA0Ff"), Some(vec![0x00, 0x0f, 0xa0, 0xff]));
    assert_eq!(hex_decode(b"0123456789abcdefABCDEF"), hex::decode("0123456789abcdefABCDEF").ok());
    assert_eq!(hex_decode(b""), Some(vec![]));
    assert_eq!(hex_decode(b"abc"), None);
    assert_eq!(hex_decode(b"0g"), None);
    assert_eq!(hex_decode(b"g0"), None);
    assert_eq!(hex_decode(b" 0"), None);
    assert_eq!(hex_decode(b"0/"), None);
    assert_eq!(hex_decode(b"0:"), None);
    assert_eq!(hex_decode(b"@0"), None);
    assert_eq!(hex_decode(b"`0"), None);
    assert_eq!(hex_decode("\u{e9}".as_bytes()), None);
    for byte in 0u8..=255 {
        assert_eq!(hex_decode(&hex_encode(&[byte, 255 - byte])), Some(vec![byte, 255 - byte]));
        let text = [byte, b'0'];
        assert_eq!(hex_decode(&text), hex::decode(text).ok());
    }
}

#[test]
fn decimal_text_of_wide_numbers() {
    assert_eq!(decimal_u128(0), b"0".to_vec());
    assert_eq!(decimal_u128(1_700_000_000_123), b"1700000000123".to_vec());
    assert_eq!(decimal_u128(u128::MAX), u128::MAX.to_string().into_bytes());
}
