//! Blocks and the check of a block's sequencer signature.

use vstd::prelude::*;
use crate::api_core::{
    EventCommitment, GlobalRoot, SequencerContractAddress, SequencerPublicKey,
    TransactionCommitment, TransactionHash,
};
use crate::codec::{Codec, CodecError, Parsed};
use crate::crypto::{
    spec_verify_message_hash_signature, verify_message_hash_signature, CryptoError, Signature,
};
use crate::data_availability::L1DataAvailabilityMode;
use crate::hash::{
    be_bytes, be_value, lemma_be_bytes_len, lemma_be_bytes_of_value, lemma_be_value_of_bytes,
    lemma_pow256_16, poseidon_hash_array, push_be, read_be, spec_poseidon_hash, StarkFelt,
    StarkHash,
};

verus! {

/// The hash of a block.
#[derive(Clone, Copy, Debug, Default, PartialEq, Eq, Hash, PartialOrd, Ord, Structural)]
pub struct BlockHash(pub StarkHash);

impl DeepView for BlockHash {
    type V = BlockHash;

    open spec fn deep_view(&self) -> BlockHash {
        *self
    }
}

impl Codec for BlockHash {
    open spec fn wf(m: BlockHash) -> bool {
        StarkHash::wf(m.0)
    }

    open spec fn wire(m: BlockHash) -> Seq<u8> {
        StarkHash::wire(m.0)
    }

    open spec fn parse(s: Seq<u8>) -> Parsed<BlockHash> {
        match StarkHash::parse(s) {
            Err(e) => Err(e),
            Ok((inner, n)) => Ok((BlockHash(inner), n)),
        }
    }

    proof fn lemma_parse_bounds(s: Seq<u8>) {
        StarkHash::lemma_parse_bounds(s);
    }

    proof fn lemma_parse_wire(m: BlockHash, rest: Seq<u8>) {
        StarkHash::lemma_parse_wire(m.0, rest);
    }

    fn encode_to(&self, dest: &mut Vec<u8>) {
        self.0.encode_to(dest);
    }

    fn decode_at(input: &[u8], pos: usize) -> (r: Result<(Self, usize), CodecError>) {
        match StarkHash::decode_at(input, pos) {
            Ok((inner, next)) => Ok((BlockHash(inner), next)),
            Err(e) => Err(e),
        }
    }
}

/// The number of a block.
#[derive(Clone, Copy, Debug, Default, PartialEq, Eq, Hash, PartialOrd, Ord, Structural)]
pub struct BlockNumber(pub u64);

impl BlockNumber {
    /// The number of the block after this one.
    pub fn next(&self) -> (r: BlockNumber)
        requires
            self.0 < u64::MAX,
        ensures
            r.0 == self.0 + 1,
    {
        BlockNumber(self.0 + 1)
    }

    /// The number of the block before this one; the first block has none.
    pub fn prev(&self) -> (r: Option<BlockNumber>)
        ensures
            match r {
                Some(b) => self.0 > 0 && b.0 == self.0 - 1,
                None => self.0 == 0,
            },
    {
        if self.0 == 0 {
            None
        } else {
            Some(BlockNumber(self.0 - 1))
        }
    }

    /// The block numbers from this one up to, and without, `up_to`, in
    /// rising order.
    pub fn iter_up_to(&self, up_to: BlockNumber) -> (r: Vec<BlockNumber>)
        ensures
            r@.len() == (if up_to.0 > self.0 {
                up_to.0 - self.0
            } else {
                0
            }),
            forall|i: int| 0 <= i < r@.len() ==> (#[trigger] r@[i]).0 == self.0 + i,
    {
        let mut numbers: Vec<BlockNumber> = Vec::new();
        let mut n: u64 = self.0;
        while n < up_to.0
            invariant
                self.0 <= n,
                n <= up_to.0 || numbers@.len() == 0,
                numbers@.len() == n - self.0,
                forall|i: int| 0 <= i < numbers@.len() ==> (#[trigger] numbers@[i]).0 == self.0 + i,
            decreases up_to.0 - n,
        {
            numbers.push(BlockNumber(n));
            n += 1;
        }
        numbers
    }
}

/// A block: its header and its body. The kinds of its transactions and of
/// their outputs are the caller's.
#[derive(Clone, Debug, Default, PartialEq, Eq)]
pub struct Block<T, O> {
    pub header: BlockHeader,
    pub body: BlockBody<T, O>,
}

/// A version of the protocol used when creating a block.
#[derive(Clone, Debug, PartialEq, Eq, Hash, PartialOrd, Ord)]
pub struct StarknetVersion(pub String);

impl Default for StarknetVersion {
    /// The version before any was recorded.
    fn default() -> (version: StarknetVersion)
        ensures
            version.0@ == "0.0.0"@,
    {
        StarknetVersion("0.0.0".to_string())
    }
}

impl StarknetVersion {
    /// The text of the version.
    pub fn to_string(&self) -> (text: String)
        ensures
            text@ == self.0@,
    {
        self.0.clone()
    }
}

/// The header of a block.
#[derive(Clone, Debug, Default, PartialEq, Eq, Hash, PartialOrd, Ord)]
pub struct BlockHeader {
    pub block_hash: BlockHash,
    pub parent_hash: BlockHash,
    pub block_number: BlockNumber,
    pub l1_gas_price: GasPricePerToken,
    pub l1_data_gas_price: GasPricePerToken,
    pub state_root: GlobalRoot,
    pub sequencer: SequencerContractAddress,
    pub timestamp: BlockTimestamp,
    pub l1_da_mode: L1DataAvailabilityMode,
    pub transaction_commitment: TransactionCommitment,
    pub event_commitment: EventCommitment,
    pub n_transactions: u64,
    pub n_events: u64,
    pub starknet_version: StarknetVersion,
}

/// The transactions of a block, their outputs and their hashes.
#[derive(Clone, Debug, Default, PartialEq, Eq)]
pub struct BlockBody<T, O> {
    pub transactions: Vec<T>,
    pub transaction_outputs: Vec<O>,
    pub transaction_hashes: Vec<TransactionHash>,
}

/// The status of a block.
#[derive(Clone, Copy, Debug, PartialEq, Eq, Hash, PartialOrd, Ord, Structural)]
pub enum BlockStatus {
    /// A pending block; i.e., a block that is yet to be closed.
    Pending,
    /// A block that was created on L2.
    AcceptedOnL2,
    /// A block that was accepted on L1.
    AcceptedOnL1,
    /// A block rejected on L1.
    Rejected,
}

impl BlockStatus {
    /// The spelling of the status that other tools read.
    pub fn name(&self) -> (text: &'static str)
        ensures
            text@ == self.spec_name(),
    {
        match self {
            BlockStatus::Pending => "PENDING",
            BlockStatus::AcceptedOnL2 => "ACCEPTED_ON_L2",
            BlockStatus::AcceptedOnL1 => "ACCEPTED_ON_L1",
            BlockStatus::Rejected => "REJECTED",
        }
    }

    /// The spelling of the status that other tools read.
    pub open spec fn spec_name(self) -> Seq<char> {
        match self {
            BlockStatus::Pending => "PENDING"@,
            BlockStatus::AcceptedOnL2 => "ACCEPTED_ON_L2"@,
            BlockStatus::AcceptedOnL1 => "ACCEPTED_ON_L1"@,
            BlockStatus::Rejected => "REJECTED"@,
        }
    }
}

/// The gas price per token.
#[derive(Clone, Copy, Debug, Default, PartialEq, Eq, Hash, PartialOrd, Ord, Structural)]
pub struct GasPricePerToken {
    pub price_in_fri: GasPrice,
    pub price_in_wei: GasPrice,
}

/// The gas price at a block. In interchange it is 16 bytes, most
/// significant first.
#[derive(Clone, Copy, Debug, Default, PartialEq, Eq, Hash, PartialOrd, Ord, Structural)]
pub struct GasPrice(pub u128);

impl GasPrice {
    /// The price that 16 bytes spell, most significant first.
    pub fn from_be_bytes(bytes: [u8; 16]) -> (price: GasPrice)
        ensures
            price.0 == be_value(bytes@),
            be_bytes(price.0 as nat, 16) == bytes@,
    {
        let slice = bytes.as_slice();
        assert(slice@.subrange(0, 16) == bytes@);
        proof {
            lemma_be_bytes_of_value(bytes@);
        }
        GasPrice(read_be(slice, 0, 16))
    }

    /// The 16 bytes of the price, most significant first.
    pub fn to_be_bytes(&self) -> (out: [u8; 16])
        ensures
            out@ == be_bytes(self.0 as nat, 16),
            be_value(out@) == self.0,
    {
        let mut bytes: Vec<u8> = Vec::new();
        push_be(self.0, 16, &mut bytes);
        proof {
            lemma_pow256_16();
            lemma_be_bytes_len(self.0 as nat, 16);
            lemma_be_value_of_bytes(self.0 as nat, 16);
            assert(Seq::<u8>::empty() + be_bytes(self.0 as nat, 16) == be_bytes(
                self.0 as nat,
                16,
            ));
        }
        let mut out: [u8; 16] = [0u8; 16];
        let mut i: usize = 0;
        while i < 16
            invariant
                i <= 16,
                bytes@.len() == 16,
                forall|j: int| 0 <= j < i ==> out@[j] == bytes@[j],
            decreases 16 - i,
        {
            out[i] = bytes[i];
            i += 1;
        }
        assert(out@ == bytes@);
        out
    }
}

/// The timestamp of a block.
#[derive(Clone, Copy, Debug, Default, PartialEq, Eq, Hash, PartialOrd, Ord, Structural)]
pub struct BlockTimestamp(pub u64);

/// The signature of a block, signed by the sequencer. The signed message is
/// the Poseidon hash of the block hash and the state diff commitment, in
/// this order.
#[derive(Clone, Copy, Debug, Default, PartialEq, Eq, Hash, PartialOrd, Ord, Structural)]
pub struct BlockSignature(pub Signature);

/// The error type returned from the block verification functions.
#[derive(Clone, Copy, Debug, PartialEq, Eq, Structural)]
pub enum BlockVerificationError {
    /// The signature of the block could not be checked.
    BlockSignatureVerificationFailed { block_hash: BlockHash, error: CryptoError },
}

/// The message that the sequencer signs for a block.
pub open spec fn spec_block_message(
    block_hash: BlockHash,
    state_diff_commitment: GlobalRoot,
) -> StarkFelt {
    spec_poseidon_hash(seq![block_hash.0, state_diff_commitment.0])
}

/// What the check of a block's signature gives: the verdict on the
/// signature over the block's message, a failure together with the hash of
/// the block.
pub open spec fn spec_verify_block_signature(
    sequencer_pub_key: SequencerPublicKey,
    signature: BlockSignature,
    state_diff_commitment: GlobalRoot,
    block_hash: BlockHash,
) -> Result<bool, BlockVerificationError> {
    spec_block_outcome(
        spec_verify_message_hash_signature(
            spec_block_message(block_hash, state_diff_commitment),
            signature.0,
            sequencer_pub_key.0,
        ),
        block_hash,
    )
}

/// What a signature check that ended in `checked` says of the block.
pub open spec fn spec_block_outcome(
    checked: Result<bool, CryptoError>,
    block_hash: BlockHash,
) -> Result<bool, BlockVerificationError> {
    match checked {
        Ok(valid) => Ok(valid),
        Err(error) => Err(
            BlockVerificationError::BlockSignatureVerificationFailed { block_hash, error },
        ),
    }
}

/// What a signature check that ended in `checked` says of the block.
pub fn block_outcome(checked: Result<bool, CryptoError>, block_hash: &BlockHash) -> (res: Result<
    bool,
    BlockVerificationError,
>)
    ensures
        res == spec_block_outcome(checked, *block_hash),
{
    match checked {
        Ok(valid) => Ok(valid),
        Err(error) => Err(
            BlockVerificationError::BlockSignatureVerificationFailed {
                block_hash: *block_hash,
                error,
            },
        ),
    }
}

/// The message that the sequencer signs for a block: the hash of the block
/// hash, first, and the state diff commitment, second.
pub fn block_message(block_hash: &BlockHash, state_diff_commitment: &GlobalRoot) -> (message:
    StarkFelt)
    requires
        block_hash.0.is_canonical(),
        state_diff_commitment.0.is_canonical(),
    ensures
        message == spec_block_message(*block_hash, *state_diff_commitment),
{
    let felts: [StarkFelt; 2] = [block_hash.0, state_diff_commitment.0];
    let slice = felts.as_slice();
    assert(slice@ == seq![block_hash.0, state_diff_commitment.0]);
    poseidon_hash_array(slice).0
}

/// Verifies that the block header was signed by the expected sequencer.
/// The block hash and the commitment must be members of the field.
pub fn verify_block_signature(
    sequencer_pub_key: &SequencerPublicKey,
    signature: &BlockSignature,
    state_diff_commitment: &GlobalRoot,
    block_hash: &BlockHash,
) -> (res: Result<bool, BlockVerificationError>)
    requires
        block_hash.0.is_canonical(),
        state_diff_commitment.0.is_canonical(),
    ensures
        res == spec_verify_block_signature(
            *sequencer_pub_key,
            *signature,
            *state_diff_commitment,
            *block_hash,
        ),
{
    let message_hash = block_message(block_hash, state_diff_commitment);
    let checked = verify_message_hash_signature(&message_hash, &signature.0, &sequencer_pub_key.0);
    block_outcome(checked, block_hash)
}

} // verus!
