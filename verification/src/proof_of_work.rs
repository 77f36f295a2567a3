//! Proof of work: the search for a nonce whose digest is below the target.

use vstd::prelude::*;
use vstd::arithmetic::power2::pow2;
use vstd::string::*;
use vstd::utf8::encode_utf8;
use crate::block::{transactions_root, Block, BlockModel};
use crate::hashing::{sha256, sha256_of};
use crate::utils::{append_bytes, copy_bytes, le_bytes, push_le_bytes, HashHex};

verus! {

/// The number of leading zero bits a block's digest must have.
pub const TARGET_BITS: u16 = 18;

/// The largest nonce. Every nonce from zero up to it is tried.
pub const MAX_NONCE: u64 = u64::MAX;

/// Why mining failed.
#[derive(Debug, Clone, Copy, PartialEq, Eq, Structural)]
pub enum PowError {
    /// No nonce gave a digest below the target.
    HashIsNotCreated,
}

/// The search for the nonce of one block.
pub struct ProofOfWork<'a> {
    block: &'a Block,
    /// The part of the preimage that does not depend on the nonce.
    header: Vec<u8>,
}

/// The number that bytes stand for, the most significant first.
pub open spec fn be_value(bytes: Seq<u8>) -> nat
    decreases bytes.len(),
{
    if bytes.len() == 0 {
        0
    } else {
        be_value(bytes.drop_last()) * 256 + bytes.last() as nat
    }
}

/// Whether a digest, read as a number with its most significant byte first,
/// is below the target: two to the power of 256 less the target bits.
pub open spec fn meets_target(digest: Seq<u8>) -> bool {
    be_value(digest) < pow2((256 - TARGET_BITS) as nat)
}

/// The part of a block's preimage before the nonce: the hash of the block
/// before, the Merkle root of the transactions, the time stamp's text, and
/// the target bits as two bytes, the low first.
pub open spec fn preimage_header(block: BlockModel) -> Seq<u8> {
    block.prev_hash + transactions_root(block.transactions) + encode_utf8(block.timestamp)
        + le_bytes(TARGET_BITS as nat, 2)
}

/// What is hashed for a block at a nonce: the header, then the nonce as
/// eight bytes, the low first.
pub open spec fn block_preimage(block: BlockModel, nonce: u64) -> Seq<u8> {
    preimage_header(block) + le_bytes(nonce as nat, 8)
}

/// The digest of a block at a nonce.
pub open spec fn block_digest(block: BlockModel, nonce: u64) -> Seq<u8> {
    sha256_of(block_preimage(block, nonce))
}

/// Trusted: reads the bytes as a number with
/// `num_bigint::BigUint::from_bytes_be`, shifts the `BigUint` one left by
/// `exponent` bits, and says whether the first is the smaller.
#[verifier::external_body]
fn below_power_of_two(bytes: &[u8], exponent: u16) -> (below: bool)
    ensures
        below == (be_value(bytes@) < pow2(exponent as nat)),
{
    num_bigint::BigUint::from_bytes_be(bytes) < (num_bigint::BigUint::new(vec![1]) << exponent)
}

/// Whether a digest is below the target.
pub fn digest_meets_target(digest: &[u8]) -> (meets: bool)
    ensures
        meets == meets_target(digest@),
{
    below_power_of_two(digest, 256 - TARGET_BITS)
}

impl<'a> ProofOfWork<'a> {
    #[verifier::type_invariant]
    spec fn header_is_current(self) -> bool {
        self.header@ == preimage_header(self.block@)
    }

    /// The block that the search is for.
    pub closed spec fn model(&self) -> BlockModel {
        self.block@
    }

    /// The search for the nonce of `block`.
    pub fn new(block: &'a Block) -> (proof_of_work: ProofOfWork<'a>)
        requires
            block@.transactions.len() > 0,
        ensures
            proof_of_work.model() == block@,
    {
        let mut header = copy_bytes(block.prev_hash.0.as_slice());
        let root = block.hash_transactions();
        append_bytes(&mut header, root.as_slice());
        append_bytes(&mut header, block.timestamp.as_str().as_bytes());
        push_le_bytes(&mut header, TARGET_BITS as u64, 2);
        assert(header@ =~= preimage_header(block@));
        ProofOfWork { block, header }
    }

    fn digest_at(&self, nonce: u64) -> (digest: Vec<u8>)
        ensures
            digest@ == sha256_of(self.header@ + le_bytes(nonce as nat, 8)),
            digest@.len() == 32,
    {
        let mut data = copy_bytes(self.header.as_slice());
        push_le_bytes(&mut data, nonce, 8);
        sha256(data.as_slice())
    }

    /// Tries the nonces from zero up to the largest and returns the first
    /// whose digest is below the target, with that digest. It fails only
    /// where no nonce at all gives such a digest.
    pub fn run(&self) -> (res: Result<(u64, HashHex), PowError>)
        ensures
            match res {
                Ok((nonce, hash)) => {
                    &&& hash@ == block_digest(self.model(), nonce)
                    &&& hash@.len() == 32
                    &&& meets_target(hash@)
                    &&& forall|m: u64|
                        m < nonce ==> !meets_target(#[trigger] block_digest(self.model(), m))
                },
                Err(_) => forall|m: u64| !meets_target(#[trigger] block_digest(self.model(), m)),
            },
    {
        proof {
            use_type_invariant(self);
        }
        let ghost block = self.block@;
        let mut nonce: u64 = 0;
        loop
            invariant
                block == self.block@,
                block == self.model(),
                self.header@ == preimage_header(block),
                forall|m: u64| m < nonce ==> !meets_target(#[trigger] block_digest(block, m)),
            decreases MAX_NONCE - nonce,
        {
            let digest = self.digest_at(nonce);
            if digest_meets_target(digest.as_slice()) {
                return Ok((nonce, HashHex(digest)));
            }
            if nonce == MAX_NONCE {
                assert forall|m: u64| !meets_target(#[trigger] block_digest(block, m)) by {
                    if m < nonce {
                    } else {
                        assert(m == nonce);
                    }
                }
                return Err(PowError::HashIsNotCreated);
            }
            nonce += 1;
        }
    }

    /// Whether the digest of the block at its own nonce is below the target.
    /// The hash the block carries is not looked at.
    pub fn validate(&self) -> (valid: bool)
        ensures
            valid == meets_target(block_digest(self.model(), self.model().nonce)),
    {
        proof {
            use_type_invariant(self);
        }
        let digest = self.digest_at(self.block.nonce);
        digest_meets_target(digest.as_slice())
    }

    /// The digest of the block at its own nonce.
    pub fn digest(&self) -> (digest: HashHex)
        ensures
            digest@.len() == 32,
            digest@ == block_digest(self.model(), self.model().nonce),
    {
        proof {
            use_type_invariant(self);
        }
        HashHex(self.digest_at(self.block.nonce))
    }
}

} // verus!
