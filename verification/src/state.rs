//! State changes and contract classes: the full and the thin state diff,
//! the projection of the one onto the other, and the wire format of the thin
//! diff and of a contract class.

use vstd::prelude::*;
use vstd::std_specs::convert::FromSpecImpl;
use crate::api_core::{
    ClassHash, CompiledClassHash, ContractAddress, EntryPointSelector, Nonce, PatriciaKey,
};
use crate::api_core::GlobalRoot;
use crate::block::{BlockHash, BlockNumber};
use crate::codec::{Codec, CodecError, Parsed};
use crate::deprecated_contract_class::ContractClass as DeprecatedContractClass;
use crate::hash::StarkFelt;
use crate::ordered_map::{KeyCode, MapKey, OrderedMap};
use crate::StarknetApiError;

verus! {

/// The sequential numbering of the states between blocks: state `n` is the
/// one before block `n`.
#[derive(Clone, Copy, Debug, Default, PartialEq, Eq, Hash, PartialOrd, Ord, Structural)]
pub struct StateNumber(pub BlockNumber);

impl StateNumber {
    /// The state at the beginning of the block.
    pub fn right_before_block(block_number: BlockNumber) -> (state: StateNumber)
        ensures
            state.0 == block_number,
    {
        StateNumber(block_number)
    }

    /// The state at the end of the block.
    pub fn right_after_block(block_number: BlockNumber) -> (state: StateNumber)
        requires
            block_number.0 < u64::MAX,
        ensures
            state.0.0 == block_number.0 + 1,
    {
        StateNumber(block_number.next())
    }

    /// Whether the state is no later than the beginning of the block.
    pub fn is_before(&self, block_number: BlockNumber) -> (b: bool)
        ensures
            b == (self.0.0 <= block_number.0),
    {
        self.0.0 <= block_number.0
    }

    /// Whether the state is later than the beginning of the block.
    pub fn is_after(&self, block_number: BlockNumber) -> (b: bool)
        ensures
            b == (self.0.0 > block_number.0),
    {
        !self.is_before(block_number)
    }

    /// The block that starts from the state.
    pub fn block_after(&self) -> (block_number: BlockNumber)
        ensures
            block_number == self.0,
    {
        self.0
    }
}

/// A storage key in a contract.
#[derive(Clone, Copy, Debug, Default, PartialEq, Eq, Hash, PartialOrd, Ord, Structural)]
pub struct StorageKey(pub PatriciaKey);

impl StorageKey {
    /// The storage key that a hash stands for, if the hash is a key of the
    /// state tree.
    pub fn try_from(val: StarkFelt) -> (r: Result<StorageKey, StarknetApiError>)
        ensures
            match r {
                Ok(key) => val.is_below_bound() && key.0.0 == val,
                Err(e) => !val.is_below_bound() && (e matches StarknetApiError::OutOfRange {
                    string,
                } && string@ == crate::api_core::patricia_key_range()),
            },
    {
        match PatriciaKey::try_from(val) {
            Ok(key) => Ok(StorageKey(key)),
            Err(e) => Err(e),
        }
    }
}

impl From<StorageKey> for StarkFelt {
    fn from(storage_key: StorageKey) -> (felt: StarkFelt) {
        storage_key.0.0
    }
}

impl FromSpecImpl<StorageKey> for StarkFelt {
    open spec fn obeys_from_spec() -> bool {
        true
    }

    open spec fn from_spec(storage_key: StorageKey) -> StarkFelt {
        storage_key.0.0
    }
}

impl DeepView for StorageKey {
    type V = StorageKey;

    open spec fn deep_view(&self) -> StorageKey {
        *self
    }
}

impl Codec for StorageKey {
    open spec fn wf(m: StorageKey) -> bool {
        PatriciaKey::wf(m.0)
    }

    open spec fn wire(m: StorageKey) -> Seq<u8> {
        PatriciaKey::wire(m.0)
    }

    open spec fn parse(s: Seq<u8>) -> Parsed<StorageKey> {
        match PatriciaKey::parse(s) {
            Err(e) => Err(e),
            Ok((inner, n)) => Ok((StorageKey(inner), n)),
        }
    }

    proof fn lemma_parse_bounds(s: Seq<u8>) {
        PatriciaKey::lemma_parse_bounds(s);
    }

    proof fn lemma_parse_wire(m: StorageKey, rest: Seq<u8>) {
        PatriciaKey::lemma_parse_wire(m.0, rest);
    }

    fn encode_to(&self, dest: &mut Vec<u8>) {
        self.0.encode_to(dest);
    }

    fn decode_at(input: &[u8], pos: usize) -> (r: Result<(Self, usize), CodecError>) {
        match PatriciaKey::decode_at(input, pos) {
            Ok((inner, next)) => Ok((StorageKey(inner), next)),
            Err(e) => Err(e),
        }
    }
}

impl MapKey for StorageKey {
    open spec fn spec_code(self) -> KeyCode {
        self.0.spec_code()
    }

    proof fn lemma_code_injective(a: StorageKey, b: StorageKey) {
    }

    proof fn lemma_key_model(a: StorageKey, b: StorageKey) {
    }

    fn code(&self) -> (code: KeyCode) {
        self.0.code()
    }
}

impl From<u128> for StorageKey {
    fn from(v: u128) -> (r: StorageKey) {
        StorageKey(PatriciaKey::from(v))
    }
}

impl FromSpecImpl<u128> for StorageKey {
    open spec fn obeys_from_spec() -> bool {
        true
    }

    open spec fn from_spec(v: u128) -> StorageKey {
        StorageKey(PatriciaKey(StarkFelt { hi: 0, lo: v }))
    }
}

impl From<u64> for StorageKey {
    fn from(v: u64) -> (r: StorageKey) {
        StorageKey(PatriciaKey::from(v))
    }
}

impl FromSpecImpl<u64> for StorageKey {
    open spec fn obeys_from_spec() -> bool {
        true
    }

    open spec fn from_spec(v: u64) -> StorageKey {
        StorageKey(PatriciaKey(StarkFelt { hi: 0, lo: v as u128 }))
    }
}

impl From<u32> for StorageKey {
    fn from(v: u32) -> (r: StorageKey) {
        StorageKey(PatriciaKey::from(v))
    }
}

impl FromSpecImpl<u32> for StorageKey {
    open spec fn obeys_from_spec() -> bool {
        true
    }

    open spec fn from_spec(v: u32) -> StorageKey {
        StorageKey(PatriciaKey(StarkFelt { hi: 0, lo: v as u128 }))
    }
}

impl From<u16> for StorageKey {
    fn from(v: u16) -> (r: StorageKey) {
        StorageKey(PatriciaKey::from(v))
    }
}

impl FromSpecImpl<u16> for StorageKey {
    open spec fn obeys_from_spec() -> bool {
        true
    }

    open spec fn from_spec(v: u16) -> StorageKey {
        StorageKey(PatriciaKey(StarkFelt { hi: 0, lo: v as u128 }))
    }
}

impl From<u8> for StorageKey {
    fn from(v: u8) -> (r: StorageKey) {
        StorageKey(PatriciaKey::from(v))
    }
}

impl FromSpecImpl<u8> for StorageKey {
    open spec fn obeys_from_spec() -> bool {
        true
    }

    open spec fn from_spec(v: u8) -> StorageKey {
        StorageKey(PatriciaKey(StarkFelt { hi: 0, lo: v as u128 }))
    }
}

/// The index of a function in a program.
#[derive(Clone, Copy, Debug, Default, PartialEq, Eq, Hash, PartialOrd, Ord, Structural)]
pub struct FunctionIndex(pub u64);

impl DeepView for FunctionIndex {
    type V = FunctionIndex;

    open spec fn deep_view(&self) -> FunctionIndex {
        *self
    }
}

impl Codec for FunctionIndex {
    open spec fn wf(m: FunctionIndex) -> bool {
        u64::wf(m.0)
    }

    open spec fn wire(m: FunctionIndex) -> Seq<u8> {
        u64::wire(m.0)
    }

    open spec fn parse(s: Seq<u8>) -> Parsed<FunctionIndex> {
        match u64::parse(s) {
            Err(e) => Err(e),
            Ok((inner, n)) => Ok((FunctionIndex(inner), n)),
        }
    }

    proof fn lemma_parse_bounds(s: Seq<u8>) {
        u64::lemma_parse_bounds(s);
    }

    proof fn lemma_parse_wire(m: FunctionIndex, rest: Seq<u8>) {
        u64::lemma_parse_wire(m.0, rest);
    }

    fn encode_to(&self, dest: &mut Vec<u8>) {
        self.0.encode_to(dest);
    }

    fn decode_at(input: &[u8], pos: usize) -> (r: Result<(Self, usize), CodecError>) {
        match u64::decode_at(input, pos) {
            Ok((inner, next)) => Ok((FunctionIndex(inner), next)),
            Err(e) => Err(e),
        }
    }
}

/// The kind of an entry point. On the wire it is one tag byte: 0 for a
/// constructor, 1 for an external entry point, 2 for an L1 handler.
#[derive(Clone, Copy, Debug, PartialEq, Eq, Hash, PartialOrd, Ord, Structural)]
pub enum EntryPointType {
    /// A constructor entry point.
    Constructor,
    /// An external entry point.
    External,
    /// An L1 handler entry point.
    L1Handler,
}

impl Default for EntryPointType {
    /// An entry point is external unless it says otherwise.
    fn default() -> (kind: EntryPointType)
        ensures
            kind == EntryPointType::External,
    {
        EntryPointType::External
    }
}

impl EntryPointType {
    /// The tag byte of the kind.
    pub open spec fn spec_tag(self) -> u8 {
        match self {
            EntryPointType::Constructor => 0,
            EntryPointType::External => 1,
            EntryPointType::L1Handler => 2,
        }
    }

    /// The kind that a tag byte names, if it names one.
    pub open spec fn spec_of_tag(tag: u8) -> Option<EntryPointType> {
        if tag == 0 {
            Some(EntryPointType::Constructor)
        } else if tag == 1 {
            Some(EntryPointType::External)
        } else if tag == 2 {
            Some(EntryPointType::L1Handler)
        } else {
            None
        }
    }

    /// The spelling of the kind that other tools read.
    pub open spec fn spec_name(self) -> Seq<char> {
        match self {
            EntryPointType::Constructor => "CONSTRUCTOR"@,
            EntryPointType::External => "EXTERNAL"@,
            EntryPointType::L1Handler => "L1_HANDLER"@,
        }
    }

    /// The spelling of the kind that other tools read.
    pub fn name(&self) -> (text: &'static str)
        ensures
            text@ == self.spec_name(),
    {
        match self {
            EntryPointType::Constructor => "CONSTRUCTOR",
            EntryPointType::External => "EXTERNAL",
            EntryPointType::L1Handler => "L1_HANDLER",
        }
    }

    /// The tag byte of the kind.
    pub fn tag(&self) -> (tag: u8)
        ensures
            tag == self.spec_tag(),
            Self::spec_of_tag(tag) == Some(*self),
    {
        match self {
            EntryPointType::Constructor => 0,
            EntryPointType::External => 1,
            EntryPointType::L1Handler => 2,
        }
    }

    /// The kind that a tag byte names, if it names one.
    pub fn of_tag(tag: u8) -> (kind: Option<EntryPointType>)
        ensures
            kind == Self::spec_of_tag(tag),
            kind matches Some(k) ==> k.spec_tag() == tag,
    {
        if tag == 0 {
            Some(EntryPointType::Constructor)
        } else if tag == 1 {
            Some(EntryPointType::External)
        } else if tag == 2 {
            Some(EntryPointType::L1Handler)
        } else {
            None
        }
    }
}

impl DeepView for EntryPointType {
    type V = EntryPointType;

    open spec fn deep_view(&self) -> EntryPointType {
        *self
    }
}

impl MapKey for EntryPointType {
    open spec fn spec_code(self) -> KeyCode {
        (0, self.spec_tag() as u128)
    }

    proof fn lemma_code_injective(a: EntryPointType, b: EntryPointType) {
    }

    proof fn lemma_key_model(a: EntryPointType, b: EntryPointType) {
    }

    fn code(&self) -> (code: KeyCode) {
        (0, self.tag() as u128)
    }
}

impl Codec for EntryPointType {
    open spec fn wf(m: EntryPointType) -> bool {
        true
    }

    open spec fn wire(m: EntryPointType) -> Seq<u8> {
        seq![m.spec_tag()]
    }

    open spec fn parse(s: Seq<u8>) -> Parsed<EntryPointType> {
        if s.len() == 0 {
            Err(CodecError::Truncated)
        } else {
            match Self::spec_of_tag(s[0]) {
                Some(kind) => Ok((kind, 1)),
                None => Err(CodecError::InvalidDiscriminant),
            }
        }
    }

    proof fn lemma_parse_bounds(s: Seq<u8>) {
    }

    proof fn lemma_parse_wire(m: EntryPointType, rest: Seq<u8>) {
        assert((seq![m.spec_tag()] + rest)[0] == m.spec_tag());
    }

    fn encode_to(&self, dest: &mut Vec<u8>) {
        let ghost start = dest@;
        dest.push(self.tag());
        assert(dest@ == start + seq![self.spec_tag()]);
    }

    fn decode_at(input: &[u8], pos: usize) -> (r: Result<(Self, usize), CodecError>) {
        if pos >= input.len() {
            return Err(CodecError::Truncated);
        }
        assert(input@.skip(pos as int)[0] == input@[pos as int]);
        match EntryPointType::of_tag(input[pos]) {
            Some(kind) => Ok((kind, pos + 1)),
            None => Err(CodecError::InvalidDiscriminant),
        }
    }
}

/// An entry point of a contract class: on the wire, the function index and
/// then the selector.
#[derive(Clone, Copy, Debug, Default, PartialEq, Eq, Hash, PartialOrd, Ord, Structural)]
pub struct EntryPoint {
    pub function_idx: FunctionIndex,
    pub selector: EntryPointSelector,
}

impl DeepView for EntryPoint {
    type V = EntryPoint;

    open spec fn deep_view(&self) -> EntryPoint {
        *self
    }
}

/// The fields of an entry point, in wire order.
pub type EntryPointParts = (FunctionIndex, EntryPointSelector);

impl Codec for EntryPoint {
    open spec fn wf(m: EntryPoint) -> bool {
        true
    }

    open spec fn wire(m: EntryPoint) -> Seq<u8> {
        EntryPointParts::wire((m.function_idx, m.selector))
    }

    open spec fn parse(s: Seq<u8>) -> Parsed<EntryPoint> {
        match EntryPointParts::parse(s) {
            Err(e) => Err(e),
            Ok((parts, n)) => Ok((EntryPoint { function_idx: parts.0, selector: parts.1 }, n)),
        }
    }

    proof fn lemma_parse_bounds(s: Seq<u8>) {
        EntryPointParts::lemma_parse_bounds(s);
    }

    proof fn lemma_parse_wire(m: EntryPoint, rest: Seq<u8>) {
        EntryPointParts::lemma_parse_wire((m.function_idx, m.selector), rest);
    }

    fn encode_to(&self, dest: &mut Vec<u8>) {
        (self.function_idx, self.selector).encode_to(dest);
    }

    fn decode_at(input: &[u8], pos: usize) -> (r: Result<(Self, usize), CodecError>) {
        match EntryPointParts::decode_at(input, pos) {
            Ok((parts, next)) => Ok(
                (EntryPoint { function_idx: parts.0, selector: parts.1 }, next),
            ),
            Err(e) => Err(e),
        }
    }
}

/// What a contract class is on the wire and in contracts.
pub struct ContractClassModel {
    pub sierra_program: Seq<StarkFelt>,
    pub entry_points_by_type: Seq<(EntryPointType, Seq<EntryPoint>)>,
    pub abi: Seq<char>,
}

/// A contract class: its program, its entry points by kind in the order in
/// which the kinds were inserted, and the text of its ABI.
#[derive(Clone, Debug, Default, PartialEq, Eq)]
pub struct ContractClass {
    pub sierra_program: Vec<StarkFelt>,
    pub entry_points_by_type: OrderedMap<EntryPointType, Vec<EntryPoint>>,
    pub abi: String,
}

impl DeepView for ContractClass {
    type V = ContractClassModel;

    open spec fn deep_view(&self) -> ContractClassModel {
        ContractClassModel {
            sierra_program: self.sierra_program.deep_view(),
            entry_points_by_type: self.entry_points_by_type.deep_view(),
            abi: self.abi.deep_view(),
        }
    }
}

/// The fields of a contract class, in wire order.
pub type ContractClassParts = (
    Vec<StarkFelt>,
    (OrderedMap<EntryPointType, Vec<EntryPoint>>, String),
);

impl ContractClassModel {
    /// The fields, in wire order.
    pub open spec fn parts(self) -> (
        Seq<StarkFelt>,
        (Seq<(EntryPointType, Seq<EntryPoint>)>, Seq<char>),
    ) {
        (self.sierra_program, (self.entry_points_by_type, self.abi))
    }

    /// The model with the given fields.
    pub open spec fn of_parts(
        parts: (Seq<StarkFelt>, (Seq<(EntryPointType, Seq<EntryPoint>)>, Seq<char>)),
    ) -> ContractClassModel {
        ContractClassModel {
            sierra_program: parts.0,
            entry_points_by_type: parts.1.0,
            abi: parts.1.1,
        }
    }
}

impl Codec for ContractClass {
    open spec fn wf(m: ContractClassModel) -> bool {
        ContractClassParts::wf(m.parts())
    }

    /// The program as a sequence of field elements, the entry point table
    /// as a sequence of pairs of a tag and a sequence of entry points, and
    /// the ABI as a text.
    open spec fn wire(m: ContractClassModel) -> Seq<u8> {
        ContractClassParts::wire(m.parts())
    }

    open spec fn parse(s: Seq<u8>) -> Parsed<ContractClassModel> {
        match ContractClassParts::parse(s) {
            Err(e) => Err(e),
            Ok((parts, n)) => Ok((ContractClassModel::of_parts(parts), n)),
        }
    }

    proof fn lemma_parse_bounds(s: Seq<u8>) {
        ContractClassParts::lemma_parse_bounds(s);
    }

    proof fn lemma_parse_wire(m: ContractClassModel, rest: Seq<u8>) {
        ContractClassParts::lemma_parse_wire(m.parts(), rest);
    }

    fn encode_to(&self, dest: &mut Vec<u8>) {
        crate::codec::encode3(&self.sierra_program, &self.entry_points_by_type, &self.abi, dest);
    }

    fn decode_at(input: &[u8], pos: usize) -> (r: Result<(Self, usize), CodecError>) {
        match ContractClassParts::decode_at(input, pos) {
            Ok((parts, next)) => {
                let (sierra_program, (entry_points_by_type, abi)) = parts;
                Ok((ContractClass { sierra_program, entry_points_by_type, abi }, next))
            },
            Err(e) => Err(e),
        }
    }
}

impl ContractClass {
    /// The wire bytes of the class.
    pub fn encode(&self) -> (bytes: Vec<u8>)
        ensures
            bytes@ == Self::wire(self.deep_view()),
            Self::wf(self.deep_view()),
    {
        crate::codec::encode(self)
    }

    /// The class at the front of `input`, or why there is none. On success
    /// `input` is left behind the bytes of the class.
    pub fn decode(input: &mut &[u8]) -> (r: Result<ContractClass, CodecError>)
        ensures
            match r {
                Ok(class) => Self::parse(old(input)@) matches Ok((m, n)) && m == class.deep_view()
                    && final(input)@ == old(input)@.skip(n as int),
                Err(e) => Self::parse(old(input)@) == Err::<(ContractClassModel, nat), CodecError>(
                    e,
                ) && final(input)@ == old(input)@,
            },
    {
        let all: &[u8] = *input;
        assert(all@.skip(0) == all@);
        match Self::decode_at(all, 0) {
            Ok((class, next)) => {
                *input = vstd::slice::slice_subrange(all, next, all.len());
                assert(all@.subrange(next as int, all@.len() as int) == all@.skip(next as int));
                Ok(class)
            },
            Err(e) => Err(e),
        }
    }
}

/// What a thin state diff is on the wire and in contracts: each map as the
/// sequence of its entries, in insertion order.
pub struct ThinStateDiffModel {
    pub deployed_contracts: Seq<(ContractAddress, ClassHash)>,
    pub storage_diffs: Seq<(ContractAddress, Seq<(StorageKey, StarkFelt)>)>,
    pub declared_classes: Seq<(ClassHash, CompiledClassHash)>,
    pub deprecated_declared_classes: Seq<ClassHash>,
    pub nonces: Seq<(ContractAddress, Nonce)>,
    pub replaced_classes: Seq<(ContractAddress, ClassHash)>,
}

/// The differences between two states, with each declared class given by
/// its hash alone.
#[derive(Clone, Debug, PartialEq, Eq)]
pub struct ThinStateDiff {
    pub deployed_contracts: OrderedMap<ContractAddress, ClassHash>,
    pub storage_diffs: OrderedMap<ContractAddress, OrderedMap<StorageKey, StarkFelt>>,
    pub declared_classes: OrderedMap<ClassHash, CompiledClassHash>,
    pub deprecated_declared_classes: Vec<ClassHash>,
    pub nonces: OrderedMap<ContractAddress, Nonce>,
    pub replaced_classes: OrderedMap<ContractAddress, ClassHash>,
}

impl DeepView for ThinStateDiff {
    type V = ThinStateDiffModel;

    open spec fn deep_view(&self) -> ThinStateDiffModel {
        ThinStateDiffModel {
            deployed_contracts: self.deployed_contracts.deep_view(),
            storage_diffs: self.storage_diffs.deep_view(),
            declared_classes: self.declared_classes.deep_view(),
            deprecated_declared_classes: self.deprecated_declared_classes.deep_view(),
            nonces: self.nonces.deep_view(),
            replaced_classes: self.replaced_classes.deep_view(),
        }
    }
}

/// The fields of a thin state diff, in wire order.
pub type ThinStateDiffParts = (
    OrderedMap<ContractAddress, ClassHash>,
    (
        OrderedMap<ContractAddress, OrderedMap<StorageKey, StarkFelt>>,
        (
            OrderedMap<ClassHash, CompiledClassHash>,
            (
                Vec<ClassHash>,
                (OrderedMap<ContractAddress, Nonce>, OrderedMap<ContractAddress, ClassHash>),
            ),
        ),
    ),
);

/// The models of the fields of a thin state diff, in wire order.
pub type ThinStateDiffModelParts = (
    Seq<(ContractAddress, ClassHash)>,
    (
        Seq<(ContractAddress, Seq<(StorageKey, StarkFelt)>)>,
        (
            Seq<(ClassHash, CompiledClassHash)>,
            (Seq<ClassHash>, (Seq<(ContractAddress, Nonce)>, Seq<(ContractAddress, ClassHash)>)),
        ),
    ),
);

impl ThinStateDiffModel {
    /// The fields, in wire order.
    pub open spec fn parts(self) -> ThinStateDiffModelParts {
        (
            self.deployed_contracts,
            (
                self.storage_diffs,
                (
                    self.declared_classes,
                    (self.deprecated_declared_classes, (self.nonces, self.replaced_classes)),
                ),
            ),
        )
    }

    /// The model with the given fields.
    pub open spec fn of_parts(parts: ThinStateDiffModelParts) -> ThinStateDiffModel {
        ThinStateDiffModel {
            deployed_contracts: parts.0,
            storage_diffs: parts.1.0,
            declared_classes: parts.1.1.0,
            deprecated_declared_classes: parts.1.1.1.0,
            nonces: parts.1.1.1.1.0,
            replaced_classes: parts.1.1.1.1.1,
        }
    }
}

impl Codec for ThinStateDiff {
    open spec fn wf(m: ThinStateDiffModel) -> bool {
        ThinStateDiffParts::wf(m.parts())
    }

    /// Six sequences, in this order: the deployed contracts, the storage
    /// diffs (each an address and the sequence of its keys and values), the
    /// declared classes, the deprecated declared classes, the nonces, and
    /// the replaced classes.
    open spec fn wire(m: ThinStateDiffModel) -> Seq<u8> {
        ThinStateDiffParts::wire(m.parts())
    }

    open spec fn parse(s: Seq<u8>) -> Parsed<ThinStateDiffModel> {
        match ThinStateDiffParts::parse(s) {
            Err(e) => Err(e),
            Ok((parts, n)) => Ok((ThinStateDiffModel::of_parts(parts), n)),
        }
    }

    proof fn lemma_parse_bounds(s: Seq<u8>) {
        ThinStateDiffParts::lemma_parse_bounds(s);
    }

    proof fn lemma_parse_wire(m: ThinStateDiffModel, rest: Seq<u8>) {
        ThinStateDiffParts::lemma_parse_wire(m.parts(), rest);
    }

    fn encode_to(&self, dest: &mut Vec<u8>) {
        crate::codec::encode6(
            &self.deployed_contracts,
            &self.storage_diffs,
            &self.declared_classes,
            &self.deprecated_declared_classes,
            &self.nonces,
            &self.replaced_classes,
            dest,
        );
    }

    fn decode_at(input: &[u8], pos: usize) -> (r: Result<(Self, usize), CodecError>) {
        match ThinStateDiffParts::decode_at(input, pos) {
            Ok((parts, next)) => {
                let (
                    deployed_contracts,
                    (
                        storage_diffs,
                        (
                            declared_classes,
                            (deprecated_declared_classes, (nonces, replaced_classes)),
                        ),
                    ),
                ) = parts;
                Ok(
                    (
                        ThinStateDiff {
                            deployed_contracts,
                            storage_diffs,
                            declared_classes,
                            deprecated_declared_classes,
                            nonces,
                            replaced_classes,
                        },
                        next,
                    ),
                )
            },
            Err(e) => Err(e),
        }
    }
}

impl ThinStateDiff {
    /// The wire bytes of the diff.
    pub fn encode(&self) -> (bytes: Vec<u8>)
        ensures
            bytes@ == Self::wire(self.deep_view()),
            Self::wf(self.deep_view()),
    {
        crate::codec::encode(self)
    }

    /// The diff at the front of `input`, or why there is none. On success
    /// `input` is left behind the bytes of the diff.
    pub fn decode(input: &mut &[u8]) -> (r: Result<ThinStateDiff, CodecError>)
        ensures
            match r {
                Ok(diff) => Self::parse(old(input)@) matches Ok((m, n)) && m == diff.deep_view()
                    && final(input)@ == old(input)@.skip(n as int),
                Err(e) => Self::parse(old(input)@) == Err::<(ThinStateDiffModel, nat), CodecError>(
                    e,
                ) && final(input)@ == old(input)@,
            },
    {
        let all: &[u8] = *input;
        assert(all@.skip(0) == all@);
        match Self::decode_at(all, 0) {
            Ok((diff, next)) => {
                *input = vstd::slice::slice_subrange(all, next, all.len());
                assert(all@.subrange(next as int, all@.len() as int) == all@.skip(next as int));
                Ok(diff)
            },
            Err(e) => Err(e),
        }
    }
}

/// The bodies of the declared classes, by class hash.
pub type DeclaredClasses = OrderedMap<ClassHash, ContractClass>;

/// The bodies of the declared legacy classes, by class hash.
pub type DeprecatedDeclaredClasses = OrderedMap<ClassHash, DeprecatedContractClass>;

/// The differences between two states before and after a block with hash
/// `block_hash` and their respective roots.
#[derive(Clone, Debug, PartialEq, Eq)]
pub struct StateUpdate {
    pub block_hash: BlockHash,
    pub new_root: GlobalRoot,
    pub old_root: GlobalRoot,
    pub state_diff: StateDiff,
}

/// The differences between two states. The class hashes of the declared
/// classes and of the declared legacy classes are meant to have no hash in
/// common, and the addresses to rise; neither is checked here.
#[derive(Clone, Debug, PartialEq, Eq)]
pub struct StateDiff {
    pub deployed_contracts: OrderedMap<ContractAddress, ClassHash>,
    pub storage_diffs: OrderedMap<ContractAddress, OrderedMap<StorageKey, StarkFelt>>,
    pub declared_classes: OrderedMap<ClassHash, (CompiledClassHash, ContractClass)>,
    pub deprecated_declared_classes: OrderedMap<ClassHash, DeprecatedContractClass>,
    pub nonces: OrderedMap<ContractAddress, Nonce>,
    pub replaced_classes: OrderedMap<ContractAddress, ClassHash>,
}

/// The keys of the entries, in order.
pub open spec fn keys_of<K, V>(entries: Seq<(K, V)>) -> Seq<K> {
    entries.map_values(|e: (K, V)| e.0)
}

/// No class hash is in both sequences.
pub open spec fn disjoint_hashes(a: Seq<ClassHash>, b: Seq<ClassHash>) -> bool {
    forall|i: int, j: int| 0 <= i < a.len() && 0 <= j < b.len() ==> a[i] != b[j]
}

/// The declared classes with the compiled class hash alone for each.
pub open spec fn thin_declared(
    declared: Seq<(ClassHash, (CompiledClassHash, ContractClass))>,
) -> Seq<(ClassHash, CompiledClassHash)> {
    declared.map_values(|e: (ClassHash, (CompiledClassHash, ContractClass))| (e.0, e.1.0))
}

/// The declared classes with the body alone for each.
pub open spec fn declared_bodies(
    declared: Seq<(ClassHash, (CompiledClassHash, ContractClass))>,
) -> Seq<(ClassHash, ContractClass)> {
    declared.map_values(|e: (ClassHash, (CompiledClassHash, ContractClass))| (e.0, e.1.1))
}

impl StateDiff {
    /// Whether no class hash is declared both as a class and as a legacy
    /// class.
    pub open spec fn class_hashes_disjoint(&self) -> bool {
        disjoint_hashes(
            keys_of(self.declared_classes@),
            keys_of(self.deprecated_declared_classes@),
        )
    }
}

impl ThinStateDiff {
    /// Whether no class hash is declared both as a class and as a legacy
    /// class.
    pub open spec fn class_hashes_disjoint(&self) -> bool {
        disjoint_hashes(keys_of(self.declared_classes@), self.deprecated_declared_classes@)
    }

    /// Whether `self` and the two side tables are what `diff` reduces to:
    /// each declared class with its compiled class hash in the thin diff
    /// and its body in the first table, each legacy class with its hash in
    /// the thin diff and its body in the second, in the order of `diff`,
    /// and the rest of `diff` as it is.
    pub open spec fn reduces(
        &self,
        declared: &DeclaredClasses,
        deprecated: &DeprecatedDeclaredClasses,
        diff: &StateDiff,
    ) -> bool {
        &&& self.deployed_contracts == diff.deployed_contracts
        &&& self.storage_diffs == diff.storage_diffs
        &&& self.declared_classes@ == thin_declared(diff.declared_classes@)
        &&& self.deprecated_declared_classes@ == keys_of(diff.deprecated_declared_classes@)
        &&& self.nonces == diff.nonces
        &&& self.replaced_classes == diff.replaced_classes
        &&& declared@ == declared_bodies(diff.declared_classes@)
        &&& *deprecated == diff.deprecated_declared_classes
    }

    /// Reduction keeps the declared class hashes and their order, in the
    /// thin diff as in the table of bodies, and keeps the class hashes of
    /// the two generations apart where they were apart.
    pub proof fn lemma_reduce_keeps_class_hashes(
        &self,
        declared: &DeclaredClasses,
        deprecated: &DeprecatedDeclaredClasses,
        diff: &StateDiff,
    )
        requires
            self.reduces(declared, deprecated, diff),
        ensures
            keys_of(self.declared_classes@) == keys_of(diff.declared_classes@),
            keys_of(declared@) == keys_of(self.declared_classes@),
            keys_of(deprecated@) == self.deprecated_declared_classes@,
            diff.class_hashes_disjoint() ==> self.class_hashes_disjoint(),
    {
        assert(keys_of(self.declared_classes@) =~= keys_of(diff.declared_classes@));
        assert(keys_of(declared@) =~= keys_of(diff.declared_classes@));
    }

    /// Reduces a state diff to its thin form, and returns the bodies of the
    /// declared classes beside it, without cloning them.
    pub fn from_state_diff(diff: StateDiff) -> (r: (
        ThinStateDiff,
        DeclaredClasses,
        DeprecatedDeclaredClasses,
    ))
        ensures
            r.0.reduces(&r.1, &r.2, &diff),
            keys_of(r.0.declared_classes@) == keys_of(diff.declared_classes@),
            keys_of(r.1@) == keys_of(diff.declared_classes@),
            diff.class_hashes_disjoint() ==> r.0.class_hashes_disjoint(),
    {
        let StateDiff {
            deployed_contracts,
            storage_diffs,
            declared_classes,
            deprecated_declared_classes,
            nonces,
            replaced_classes,
        } = diff;
        let deprecated_hashes = deprecated_declared_classes.keys();
        let (thin_classes, bodies) = declared_classes.unzip();
        let thin = ThinStateDiff {
            deployed_contracts,
            storage_diffs,
            declared_classes: thin_classes,
            deprecated_declared_classes: deprecated_hashes,
            nonces,
            replaced_classes,
        };
        proof {
            thin.lemma_reduce_keeps_class_hashes(&bodies, &deprecated_declared_classes, &diff);
        }
        (thin, bodies, deprecated_declared_classes)
    }

    /// The thin form of a state diff.
    pub fn from(diff: StateDiff) -> (thin: ThinStateDiff)
        ensures
            thin.deployed_contracts == diff.deployed_contracts,
            thin.storage_diffs == diff.storage_diffs,
            thin.declared_classes@ == thin_declared(diff.declared_classes@),
            thin.deprecated_declared_classes@ == keys_of(diff.deprecated_declared_classes@),
            thin.nonces == diff.nonces,
            thin.replaced_classes == diff.replaced_classes,
    {
        Self::from_state_diff(diff).0
    }

    /// What `size_hint` counts, before it is cut to the machine's word: six
    /// bytes for the lengths, 64 bytes for each pair of field elements, 32
    /// bytes for each single one, and 33 for each address with storage
    /// diffs.
    pub open spec fn spec_size_hint(&self) -> nat {
        (6 + self.storage_diffs@.len()) + self.deployed_contracts@.len() * 64
            + self.nonces@.len() * 64 + self.declared_classes@.len() * 64
            + self.storage_diffs@.len() * 32 + self.deprecated_declared_classes@.len() * 32
            + self.replaced_classes@.len() * 64
    }

    /// A guess at the number of wire bytes, from the lengths alone.
    pub fn size_hint(&self) -> (n: usize)
        ensures
            n == if self.spec_size_hint() <= usize::MAX {
                self.spec_size_hint()
            } else {
                usize::MAX as nat
            },
    {
        let total: u128 = (6 + self.storage_diffs.len() as u128) + self.deployed_contracts.len() as u128
            * 64 + self.nonces.len() as u128 * 64 + self.declared_classes.len() as u128 * 64
            + self.storage_diffs.len() as u128 * 32 + self.deprecated_declared_classes.len() as u128
            * 32 + self.replaced_classes.len() as u128 * 64;
        if total <= usize::MAX as u128 {
            total as usize
        } else {
            usize::MAX
        }
    }
}

impl ContractClass {
    /// What `size_hint` counts, before it is cut to the machine's word:
    /// four bytes and 32 for each element of the program, one byte and one
    /// for each kind of entry point, four bytes and the bytes of the ABI.
    pub open spec fn spec_size_hint(&self) -> nat {
        (4 + 32 * self.sierra_program@.len()) + 1 + self.entry_points_by_type@.len() + (4
            + vstd::utf8::encode_utf8(self.abi@).len())
    }

    /// A guess at the number of wire bytes, from the lengths alone.
    pub fn size_hint(&self) -> (n: usize)
        ensures
            n == if self.spec_size_hint() <= usize::MAX {
                self.spec_size_hint()
            } else {
                usize::MAX as nat
            },
    {
        let abi_bytes = self.abi.as_str().as_bytes();
        proof {
            vstd::slice::axiom_spec_len(abi_bytes);
        }
        let total: u128 = (4 + 32 * self.sierra_program.len() as u128) + 1
            + self.entry_points_by_type.len() as u128 + (4 + abi_bytes.len() as u128);
        if total <= usize::MAX as u128 {
            total as usize
        } else {
            usize::MAX
        }
    }
}

/// The bytes of a contract class read back as the class: its program, its
/// entry points by kind in their order, and its ABI, whatever follows the
/// bytes.
pub proof fn lemma_contract_class_round_trip(class: ContractClassModel, rest: Seq<u8>)
    requires
        ContractClass::wf(class),
    ensures
        ContractClass::parse(ContractClass::wire(class) + rest) == Ok::<
            (ContractClassModel, nat),
            CodecError,
        >((class, ContractClass::wire(class).len())),
{
    ContractClass::lemma_parse_wire(class, rest);
}

/// The bytes of a thin state diff read back as the diff, each of its six
/// parts with its entries in their order, whatever follows the bytes.
pub proof fn lemma_thin_state_diff_round_trip(diff: ThinStateDiffModel, rest: Seq<u8>)
    requires
        ThinStateDiff::wf(diff),
    ensures
        ThinStateDiff::parse(ThinStateDiff::wire(diff) + rest) == Ok::<
            (ThinStateDiffModel, nat),
            CodecError,
        >((diff, ThinStateDiff::wire(diff).len())),
{
    ThinStateDiff::lemma_parse_wire(diff, rest);
}

} // verus!
