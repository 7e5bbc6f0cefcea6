//! The identifiers of the protocol: hashes, addresses and keys, each a field
//! element under a name of its own.

use vstd::prelude::*;
use vstd::std_specs::convert::FromSpecImpl;
use crate::codec::{Codec, CodecError, Parsed};
use crate::crypto::PublicKey;
use crate::hash::{StarkFelt, StarkHash};
use crate::ordered_map::{KeyCode, MapKey};
use crate::StarknetApiError;

verus! {

/// A key of the state tree.
#[derive(Clone, Copy, Debug, Default, PartialEq, Eq, Hash, PartialOrd, Ord, Structural)]
pub struct PatriciaKey(pub StarkHash);

/// The range of the keys of the state tree, as an error spells it.
pub open spec fn patricia_key_range() -> Seq<char> {
    "[0x0, 0x800000000000000000000000000000000000000000000000000000000000000)"@
}

impl PatriciaKey {
    /// The key that a hash stands for, if the hash is below 2 to the power
    /// 251; otherwise the hash is out of range, and the error spells the
    /// range.
    pub fn try_from(value: StarkHash) -> (r: Result<PatriciaKey, StarknetApiError>)
        ensures
            match r {
                Ok(key) => value.is_below_bound() && key.0 == value,
                Err(e) => !value.is_below_bound() && (e matches StarknetApiError::OutOfRange {
                    string,
                } && string@ == patricia_key_range()),
            },
    {
        if value.below_bound() {
            Ok(PatriciaKey(value))
        } else {
            let range = "[0x0, 0x800000000000000000000000000000000000000000000000000000000000000)";
            Err(StarknetApiError::OutOfRange { string: range.to_string() })
        }
    }

    /// The hash that the key is.
    pub fn key(&self) -> (hash: &StarkHash)
        ensures
            *hash == self.0,
    {
        &self.0
    }
}

impl ContractAddress {
    /// The address that a hash stands for, if the hash is a key of the
    /// state tree.
    pub fn try_from(hash: StarkHash) -> (r: Result<ContractAddress, StarknetApiError>)
        ensures
            match r {
                Ok(address) => hash.is_below_bound() && address.0.0 == hash,
                Err(e) => !hash.is_below_bound() && (e matches StarknetApiError::OutOfRange {
                    string,
                } && string@ == patricia_key_range()),
            },
    {
        match PatriciaKey::try_from(hash) {
            Ok(key) => Ok(ContractAddress(key)),
            Err(e) => Err(e),
        }
    }
}

impl DeepView for PatriciaKey {
    type V = PatriciaKey;

    open spec fn deep_view(&self) -> PatriciaKey {
        *self
    }
}

impl Codec for PatriciaKey {
    open spec fn wf(m: PatriciaKey) -> bool {
        StarkHash::wf(m.0)
    }

    open spec fn wire(m: PatriciaKey) -> Seq<u8> {
        StarkHash::wire(m.0)
    }

    open spec fn parse(s: Seq<u8>) -> Parsed<PatriciaKey> {
        match StarkHash::parse(s) {
            Err(e) => Err(e),
            Ok((inner, n)) => Ok((PatriciaKey(inner), n)),
        }
    }

    proof fn lemma_parse_bounds(s: Seq<u8>) {
        StarkHash::lemma_parse_bounds(s);
    }

    proof fn lemma_parse_wire(m: PatriciaKey, rest: Seq<u8>) {
        StarkHash::lemma_parse_wire(m.0, rest);
    }

    fn encode_to(&self, dest: &mut Vec<u8>) {
        self.0.encode_to(dest);
    }

    fn decode_at(input: &[u8], pos: usize) -> (r: Result<(Self, usize), CodecError>) {
        match StarkHash::decode_at(input, pos) {
            Ok((inner, next)) => Ok((PatriciaKey(inner), next)),
            Err(e) => Err(e),
        }
    }
}

impl MapKey for PatriciaKey {
    open spec fn spec_code(self) -> KeyCode {
        (self.0.hi, self.0.lo)
    }

    proof fn lemma_code_injective(a: PatriciaKey, b: PatriciaKey) {
    }

    proof fn lemma_key_model(a: PatriciaKey, b: PatriciaKey) {
    }

    fn code(&self) -> (code: KeyCode) {
        (self.0.hi, self.0.lo)
    }
}

impl From<u128> for PatriciaKey {
    fn from(v: u128) -> (r: PatriciaKey) {
        PatriciaKey(StarkHash::from(v))
    }
}

impl FromSpecImpl<u128> for PatriciaKey {
    open spec fn obeys_from_spec() -> bool {
        true
    }

    open spec fn from_spec(v: u128) -> PatriciaKey {
        PatriciaKey(StarkFelt { hi: 0, lo: v })
    }
}

impl From<u64> for PatriciaKey {
    fn from(v: u64) -> (r: PatriciaKey) {
        PatriciaKey(StarkHash::from(v))
    }
}

impl FromSpecImpl<u64> for PatriciaKey {
    open spec fn obeys_from_spec() -> bool {
        true
    }

    open spec fn from_spec(v: u64) -> PatriciaKey {
        PatriciaKey(StarkFelt { hi: 0, lo: v as u128 })
    }
}

impl From<u32> for PatriciaKey {
    fn from(v: u32) -> (r: PatriciaKey) {
        PatriciaKey(StarkHash::from(v))
    }
}

impl FromSpecImpl<u32> for PatriciaKey {
    open spec fn obeys_from_spec() -> bool {
        true
    }

    open spec fn from_spec(v: u32) -> PatriciaKey {
        PatriciaKey(StarkFelt { hi: 0, lo: v as u128 })
    }
}

impl From<u16> for PatriciaKey {
    fn from(v: u16) -> (r: PatriciaKey) {
        PatriciaKey(StarkHash::from(v))
    }
}

impl FromSpecImpl<u16> for PatriciaKey {
    open spec fn obeys_from_spec() -> bool {
        true
    }

    open spec fn from_spec(v: u16) -> PatriciaKey {
        PatriciaKey(StarkFelt { hi: 0, lo: v as u128 })
    }
}

impl From<u8> for PatriciaKey {
    fn from(v: u8) -> (r: PatriciaKey) {
        PatriciaKey(StarkHash::from(v))
    }
}

impl FromSpecImpl<u8> for PatriciaKey {
    open spec fn obeys_from_spec() -> bool {
        true
    }

    open spec fn from_spec(v: u8) -> PatriciaKey {
        PatriciaKey(StarkFelt { hi: 0, lo: v as u128 })
    }
}

/// The address of a contract.
#[derive(Clone, Copy, Debug, Default, PartialEq, Eq, Hash, PartialOrd, Ord, Structural)]
pub struct ContractAddress(pub PatriciaKey);

impl DeepView for ContractAddress {
    type V = ContractAddress;

    open spec fn deep_view(&self) -> ContractAddress {
        *self
    }
}

impl Codec for ContractAddress {
    open spec fn wf(m: ContractAddress) -> bool {
        PatriciaKey::wf(m.0)
    }

    open spec fn wire(m: ContractAddress) -> Seq<u8> {
        PatriciaKey::wire(m.0)
    }

    open spec fn parse(s: Seq<u8>) -> Parsed<ContractAddress> {
        match PatriciaKey::parse(s) {
            Err(e) => Err(e),
            Ok((inner, n)) => Ok((ContractAddress(inner), n)),
        }
    }

    proof fn lemma_parse_bounds(s: Seq<u8>) {
        PatriciaKey::lemma_parse_bounds(s);
    }

    proof fn lemma_parse_wire(m: ContractAddress, rest: Seq<u8>) {
        PatriciaKey::lemma_parse_wire(m.0, rest);
    }

    fn encode_to(&self, dest: &mut Vec<u8>) {
        self.0.encode_to(dest);
    }

    fn decode_at(input: &[u8], pos: usize) -> (r: Result<(Self, usize), CodecError>) {
        match PatriciaKey::decode_at(input, pos) {
            Ok((inner, next)) => Ok((ContractAddress(inner), next)),
            Err(e) => Err(e),
        }
    }
}

impl MapKey for ContractAddress {
    open spec fn spec_code(self) -> KeyCode {
        self.0.spec_code()
    }

    proof fn lemma_code_injective(a: ContractAddress, b: ContractAddress) {
    }

    proof fn lemma_key_model(a: ContractAddress, b: ContractAddress) {
    }

    fn code(&self) -> (code: KeyCode) {
        self.0.code()
    }
}

impl From<u128> for ContractAddress {
    fn from(v: u128) -> (r: ContractAddress) {
        ContractAddress(PatriciaKey::from(v))
    }
}

impl FromSpecImpl<u128> for ContractAddress {
    open spec fn obeys_from_spec() -> bool {
        true
    }

    open spec fn from_spec(v: u128) -> ContractAddress {
        ContractAddress(PatriciaKey(StarkFelt { hi: 0, lo: v }))
    }
}

impl From<u64> for ContractAddress {
    fn from(v: u64) -> (r: ContractAddress) {
        ContractAddress(PatriciaKey::from(v))
    }
}

impl FromSpecImpl<u64> for ContractAddress {
    open spec fn obeys_from_spec() -> bool {
        true
    }

    open spec fn from_spec(v: u64) -> ContractAddress {
        ContractAddress(PatriciaKey(StarkFelt { hi: 0, lo: v as u128 }))
    }
}

impl From<u32> for ContractAddress {
    fn from(v: u32) -> (r: ContractAddress) {
        ContractAddress(PatriciaKey::from(v))
    }
}

impl FromSpecImpl<u32> for ContractAddress {
    open spec fn obeys_from_spec() -> bool {
        true
    }

    open spec fn from_spec(v: u32) -> ContractAddress {
        ContractAddress(PatriciaKey(StarkFelt { hi: 0, lo: v as u128 }))
    }
}

impl From<u16> for ContractAddress {
    fn from(v: u16) -> (r: ContractAddress) {
        ContractAddress(PatriciaKey::from(v))
    }
}

impl FromSpecImpl<u16> for ContractAddress {
    open spec fn obeys_from_spec() -> bool {
        true
    }

    open spec fn from_spec(v: u16) -> ContractAddress {
        ContractAddress(PatriciaKey(StarkFelt { hi: 0, lo: v as u128 }))
    }
}

impl From<u8> for ContractAddress {
    fn from(v: u8) -> (r: ContractAddress) {
        ContractAddress(PatriciaKey::from(v))
    }
}

impl FromSpecImpl<u8> for ContractAddress {
    open spec fn obeys_from_spec() -> bool {
        true
    }

    open spec fn from_spec(v: u8) -> ContractAddress {
        ContractAddress(PatriciaKey(StarkFelt { hi: 0, lo: v as u128 }))
    }
}

/// The hash of a contract class.
#[derive(Clone, Copy, Debug, Default, PartialEq, Eq, Hash, PartialOrd, Ord, Structural)]
pub struct ClassHash(pub StarkHash);

impl DeepView for ClassHash {
    type V = ClassHash;

    open spec fn deep_view(&self) -> ClassHash {
        *self
    }
}

impl Codec for ClassHash {
    open spec fn wf(m: ClassHash) -> bool {
        StarkHash::wf(m.0)
    }

    open spec fn wire(m: ClassHash) -> Seq<u8> {
        StarkHash::wire(m.0)
    }

    open spec fn parse(s: Seq<u8>) -> Parsed<ClassHash> {
        match StarkHash::parse(s) {
            Err(e) => Err(e),
            Ok((inner, n)) => Ok((ClassHash(inner), n)),
        }
    }

    proof fn lemma_parse_bounds(s: Seq<u8>) {
        StarkHash::lemma_parse_bounds(s);
    }

    proof fn lemma_parse_wire(m: ClassHash, rest: Seq<u8>) {
        StarkHash::lemma_parse_wire(m.0, rest);
    }

    fn encode_to(&self, dest: &mut Vec<u8>) {
        self.0.encode_to(dest);
    }

    fn decode_at(input: &[u8], pos: usize) -> (r: Result<(Self, usize), CodecError>) {
        match StarkHash::decode_at(input, pos) {
            Ok((inner, next)) => Ok((ClassHash(inner), next)),
            Err(e) => Err(e),
        }
    }
}

impl MapKey for ClassHash {
    open spec fn spec_code(self) -> KeyCode {
        (self.0.hi, self.0.lo)
    }

    proof fn lemma_code_injective(a: ClassHash, b: ClassHash) {
    }

    proof fn lemma_key_model(a: ClassHash, b: ClassHash) {
    }

    fn code(&self) -> (code: KeyCode) {
        (self.0.hi, self.0.lo)
    }
}

/// The hash of a compiled contract class.
#[derive(Clone, Copy, Debug, Default, PartialEq, Eq, Hash, PartialOrd, Ord, Structural)]
pub struct CompiledClassHash(pub StarkHash);

impl DeepView for CompiledClassHash {
    type V = CompiledClassHash;

    open spec fn deep_view(&self) -> CompiledClassHash {
        *self
    }
}

impl Codec for CompiledClassHash {
    open spec fn wf(m: CompiledClassHash) -> bool {
        StarkHash::wf(m.0)
    }

    open spec fn wire(m: CompiledClassHash) -> Seq<u8> {
        StarkHash::wire(m.0)
    }

    open spec fn parse(s: Seq<u8>) -> Parsed<CompiledClassHash> {
        match StarkHash::parse(s) {
            Err(e) => Err(e),
            Ok((inner, n)) => Ok((CompiledClassHash(inner), n)),
        }
    }

    proof fn lemma_parse_bounds(s: Seq<u8>) {
        StarkHash::lemma_parse_bounds(s);
    }

    proof fn lemma_parse_wire(m: CompiledClassHash, rest: Seq<u8>) {
        StarkHash::lemma_parse_wire(m.0, rest);
    }

    fn encode_to(&self, dest: &mut Vec<u8>) {
        self.0.encode_to(dest);
    }

    fn decode_at(input: &[u8], pos: usize) -> (r: Result<(Self, usize), CodecError>) {
        match StarkHash::decode_at(input, pos) {
            Ok((inner, next)) => Ok((CompiledClassHash(inner), next)),
            Err(e) => Err(e),
        }
    }
}

/// The nonce of a contract.
#[derive(Clone, Copy, Debug, Default, PartialEq, Eq, Hash, PartialOrd, Ord, Structural)]
pub struct Nonce(pub StarkFelt);

impl DeepView for Nonce {
    type V = Nonce;

    open spec fn deep_view(&self) -> Nonce {
        *self
    }
}

impl Codec for Nonce {
    open spec fn wf(m: Nonce) -> bool {
        StarkFelt::wf(m.0)
    }

    open spec fn wire(m: Nonce) -> Seq<u8> {
        StarkFelt::wire(m.0)
    }

    open spec fn parse(s: Seq<u8>) -> Parsed<Nonce> {
        match StarkFelt::parse(s) {
            Err(e) => Err(e),
            Ok((inner, n)) => Ok((Nonce(inner), n)),
        }
    }

    proof fn lemma_parse_bounds(s: Seq<u8>) {
        StarkFelt::lemma_parse_bounds(s);
    }

    proof fn lemma_parse_wire(m: Nonce, rest: Seq<u8>) {
        StarkFelt::lemma_parse_wire(m.0, rest);
    }

    fn encode_to(&self, dest: &mut Vec<u8>) {
        self.0.encode_to(dest);
    }

    fn decode_at(input: &[u8], pos: usize) -> (r: Result<(Self, usize), CodecError>) {
        match StarkFelt::decode_at(input, pos) {
            Ok((inner, next)) => Ok((Nonce(inner), next)),
            Err(e) => Err(e),
        }
    }
}

/// The selector of an entry point.
#[derive(Clone, Copy, Debug, Default, PartialEq, Eq, Hash, PartialOrd, Ord, Structural)]
pub struct EntryPointSelector(pub StarkHash);

impl DeepView for EntryPointSelector {
    type V = EntryPointSelector;

    open spec fn deep_view(&self) -> EntryPointSelector {
        *self
    }
}

impl Codec for EntryPointSelector {
    open spec fn wf(m: EntryPointSelector) -> bool {
        StarkHash::wf(m.0)
    }

    open spec fn wire(m: EntryPointSelector) -> Seq<u8> {
        StarkHash::wire(m.0)
    }

    open spec fn parse(s: Seq<u8>) -> Parsed<EntryPointSelector> {
        match StarkHash::parse(s) {
            Err(e) => Err(e),
            Ok((inner, n)) => Ok((EntryPointSelector(inner), n)),
        }
    }

    proof fn lemma_parse_bounds(s: Seq<u8>) {
        StarkHash::lemma_parse_bounds(s);
    }

    proof fn lemma_parse_wire(m: EntryPointSelector, rest: Seq<u8>) {
        StarkHash::lemma_parse_wire(m.0, rest);
    }

    fn encode_to(&self, dest: &mut Vec<u8>) {
        self.0.encode_to(dest);
    }

    fn decode_at(input: &[u8], pos: usize) -> (r: Result<(Self, usize), CodecError>) {
        match StarkHash::decode_at(input, pos) {
            Ok((inner, next)) => Ok((EntryPointSelector(inner), next)),
            Err(e) => Err(e),
        }
    }
}

/// The root of the state tree: the commitment to a state.
#[derive(Clone, Copy, Debug, Default, PartialEq, Eq, Hash, PartialOrd, Ord, Structural)]
pub struct GlobalRoot(pub StarkHash);

impl DeepView for GlobalRoot {
    type V = GlobalRoot;

    open spec fn deep_view(&self) -> GlobalRoot {
        *self
    }
}

impl Codec for GlobalRoot {
    open spec fn wf(m: GlobalRoot) -> bool {
        StarkHash::wf(m.0)
    }

    open spec fn wire(m: GlobalRoot) -> Seq<u8> {
        StarkHash::wire(m.0)
    }

    open spec fn parse(s: Seq<u8>) -> Parsed<GlobalRoot> {
        match StarkHash::parse(s) {
            Err(e) => Err(e),
            Ok((inner, n)) => Ok((GlobalRoot(inner), n)),
        }
    }

    proof fn lemma_parse_bounds(s: Seq<u8>) {
        StarkHash::lemma_parse_bounds(s);
    }

    proof fn lemma_parse_wire(m: GlobalRoot, rest: Seq<u8>) {
        StarkHash::lemma_parse_wire(m.0, rest);
    }

    fn encode_to(&self, dest: &mut Vec<u8>) {
        self.0.encode_to(dest);
    }

    fn decode_at(input: &[u8], pos: usize) -> (r: Result<(Self, usize), CodecError>) {
        match StarkHash::decode_at(input, pos) {
            Ok((inner, next)) => Ok((GlobalRoot(inner), next)),
            Err(e) => Err(e),
        }
    }
}

/// The public key of a sequencer.
#[derive(Clone, Copy, Debug, Default, PartialEq, Eq, Hash, PartialOrd, Ord, Structural)]
pub struct SequencerPublicKey(pub PublicKey);

impl DeepView for SequencerPublicKey {
    type V = SequencerPublicKey;

    open spec fn deep_view(&self) -> SequencerPublicKey {
        *self
    }
}

impl Codec for SequencerPublicKey {
    open spec fn wf(m: SequencerPublicKey) -> bool {
        PublicKey::wf(m.0)
    }

    open spec fn wire(m: SequencerPublicKey) -> Seq<u8> {
        PublicKey::wire(m.0)
    }

    open spec fn parse(s: Seq<u8>) -> Parsed<SequencerPublicKey> {
        match PublicKey::parse(s) {
            Err(e) => Err(e),
            Ok((inner, n)) => Ok((SequencerPublicKey(inner), n)),
        }
    }

    proof fn lemma_parse_bounds(s: Seq<u8>) {
        PublicKey::lemma_parse_bounds(s);
    }

    proof fn lemma_parse_wire(m: SequencerPublicKey, rest: Seq<u8>) {
        PublicKey::lemma_parse_wire(m.0, rest);
    }

    fn encode_to(&self, dest: &mut Vec<u8>) {
        self.0.encode_to(dest);
    }

    fn decode_at(input: &[u8], pos: usize) -> (r: Result<(Self, usize), CodecError>) {
        match PublicKey::decode_at(input, pos) {
            Ok((inner, next)) => Ok((SequencerPublicKey(inner), next)),
            Err(e) => Err(e),
        }
    }
}

/// The address of the sequencer that made a block.
#[derive(Clone, Copy, Debug, Default, PartialEq, Eq, Hash, PartialOrd, Ord, Structural)]
pub struct SequencerContractAddress(pub ContractAddress);

impl DeepView for SequencerContractAddress {
    type V = SequencerContractAddress;

    open spec fn deep_view(&self) -> SequencerContractAddress {
        *self
    }
}

impl Codec for SequencerContractAddress {
    open spec fn wf(m: SequencerContractAddress) -> bool {
        ContractAddress::wf(m.0)
    }

    open spec fn wire(m: SequencerContractAddress) -> Seq<u8> {
        ContractAddress::wire(m.0)
    }

    open spec fn parse(s: Seq<u8>) -> Parsed<SequencerContractAddress> {
        match ContractAddress::parse(s) {
            Err(e) => Err(e),
            Ok((inner, n)) => Ok((SequencerContractAddress(inner), n)),
        }
    }

    proof fn lemma_parse_bounds(s: Seq<u8>) {
        ContractAddress::lemma_parse_bounds(s);
    }

    proof fn lemma_parse_wire(m: SequencerContractAddress, rest: Seq<u8>) {
        ContractAddress::lemma_parse_wire(m.0, rest);
    }

    fn encode_to(&self, dest: &mut Vec<u8>) {
        self.0.encode_to(dest);
    }

    fn decode_at(input: &[u8], pos: usize) -> (r: Result<(Self, usize), CodecError>) {
        match ContractAddress::decode_at(input, pos) {
            Ok((inner, next)) => Ok((SequencerContractAddress(inner), next)),
            Err(e) => Err(e),
        }
    }
}

/// The commitment to the transactions of a block.
#[derive(Clone, Copy, Debug, Default, PartialEq, Eq, Hash, PartialOrd, Ord, Structural)]
pub struct TransactionCommitment(pub StarkHash);

impl DeepView for TransactionCommitment {
    type V = TransactionCommitment;

    open spec fn deep_view(&self) -> TransactionCommitment {
        *self
    }
}

impl Codec for TransactionCommitment {
    open spec fn wf(m: TransactionCommitment) -> bool {
        StarkHash::wf(m.0)
    }

    open spec fn wire(m: TransactionCommitment) -> Seq<u8> {
        StarkHash::wire(m.0)
    }

    open spec fn parse(s: Seq<u8>) -> Parsed<TransactionCommitment> {
        match StarkHash::parse(s) {
            Err(e) => Err(e),
            Ok((inner, n)) => Ok((TransactionCommitment(inner), n)),
        }
    }

    proof fn lemma_parse_bounds(s: Seq<u8>) {
        StarkHash::lemma_parse_bounds(s);
    }

    proof fn lemma_parse_wire(m: TransactionCommitment, rest: Seq<u8>) {
        StarkHash::lemma_parse_wire(m.0, rest);
    }

    fn encode_to(&self, dest: &mut Vec<u8>) {
        self.0.encode_to(dest);
    }

    fn decode_at(input: &[u8], pos: usize) -> (r: Result<(Self, usize), CodecError>) {
        match StarkHash::decode_at(input, pos) {
            Ok((inner, next)) => Ok((TransactionCommitment(inner), next)),
            Err(e) => Err(e),
        }
    }
}

/// The commitment to the events of a block.
#[derive(Clone, Copy, Debug, Default, PartialEq, Eq, Hash, PartialOrd, Ord, Structural)]
pub struct EventCommitment(pub StarkHash);

impl DeepView for EventCommitment {
    type V = EventCommitment;

    open spec fn deep_view(&self) -> EventCommitment {
        *self
    }
}

impl Codec for EventCommitment {
    open spec fn wf(m: EventCommitment) -> bool {
        StarkHash::wf(m.0)
    }

    open spec fn wire(m: EventCommitment) -> Seq<u8> {
        StarkHash::wire(m.0)
    }

    open spec fn parse(s: Seq<u8>) -> Parsed<EventCommitment> {
        match StarkHash::parse(s) {
            Err(e) => Err(e),
            Ok((inner, n)) => Ok((EventCommitment(inner), n)),
        }
    }

    proof fn lemma_parse_bounds(s: Seq<u8>) {
        StarkHash::lemma_parse_bounds(s);
    }

    proof fn lemma_parse_wire(m: EventCommitment, rest: Seq<u8>) {
        StarkHash::lemma_parse_wire(m.0, rest);
    }

    fn encode_to(&self, dest: &mut Vec<u8>) {
        self.0.encode_to(dest);
    }

    fn decode_at(input: &[u8], pos: usize) -> (r: Result<(Self, usize), CodecError>) {
        match StarkHash::decode_at(input, pos) {
            Ok((inner, next)) => Ok((EventCommitment(inner), next)),
            Err(e) => Err(e),
        }
    }
}

/// The hash of a transaction.
#[derive(Clone, Copy, Debug, Default, PartialEq, Eq, Hash, PartialOrd, Ord, Structural)]
pub struct TransactionHash(pub StarkHash);

impl DeepView for TransactionHash {
    type V = TransactionHash;

    open spec fn deep_view(&self) -> TransactionHash {
        *self
    }
}

impl Codec for TransactionHash {
    open spec fn wf(m: TransactionHash) -> bool {
        StarkHash::wf(m.0)
    }

    open spec fn wire(m: TransactionHash) -> Seq<u8> {
        StarkHash::wire(m.0)
    }

    open spec fn parse(s: Seq<u8>) -> Parsed<TransactionHash> {
        match StarkHash::parse(s) {
            Err(e) => Err(e),
            Ok((inner, n)) => Ok((TransactionHash(inner), n)),
        }
    }

    proof fn lemma_parse_bounds(s: Seq<u8>) {
        StarkHash::lemma_parse_bounds(s);
    }

    proof fn lemma_parse_wire(m: TransactionHash, rest: Seq<u8>) {
        StarkHash::lemma_parse_wire(m.0, rest);
    }

    fn encode_to(&self, dest: &mut Vec<u8>) {
        self.0.encode_to(dest);
    }

    fn decode_at(input: &[u8], pos: usize) -> (r: Result<(Self, usize), CodecError>) {
        match StarkHash::decode_at(input, pos) {
            Ok((inner, next)) => Ok((TransactionHash(inner), next)),
            Err(e) => Err(e),
        }
    }
}

} // verus!
