//! Legacy contract classes: their ABI, their entry points, and their
//! program, a JSON value of no fixed schema that is carried as its text.

use vstd::prelude::*;
use vstd::utf8::encode_utf8;
use crate::api_core::EntryPointSelector;
use crate::codec::{
    decode_tagged, encode_tagged, lemma_parse_tagged_bounds, lemma_parse_tagged_wire,
    parse_tagged, wire_tagged, Codec, CodecError, JsonField, Parsed,
};
use crate::json::{
    json_canonical, json_member, json_scalar, spec_json_canonical, spec_json_member,
    spec_json_scalar, JsonScalar, JsonScalarModel,
};
use crate::hash::{hex_prefix_end, trim_hex_prefixes, StarkFelt};
use crate::numeral::{
    hex_digits, lemma_hex_digits_ascii, lemma_read_hex_digits, padded_hex_digits, parse_hex,
    push_hex_digits, push_padded_hex_digits, spec_parse_hex, ParseIntError,
};
use crate::ordered_map::OrderedMap;
use crate::serde_utils::InnerDeserializationError;
use crate::text::{ascii_text, is_ascii_bytes, lemma_ascii_text, text_of_ascii};
use crate::StarknetApiError;

verus! {

/// The kind of an entry point: the legacy classes know the same three.
pub type EntryPointType = crate::state::EntryPointType;

/// The offset of an entry point in the program: on the wire eight bytes, least
/// significant first; in JSON a hexadecimal text.
#[derive(Clone, Copy, Debug, Default, PartialEq, Eq, Hash, PartialOrd, Ord, Structural)]
pub struct EntryPointOffset(pub u64);

impl DeepView for EntryPointOffset {
    type V = EntryPointOffset;

    open spec fn deep_view(&self) -> EntryPointOffset {
        *self
    }
}

impl Codec for EntryPointOffset {
    open spec fn wf(m: EntryPointOffset) -> bool {
        u64::wf(m.0)
    }

    open spec fn wire(m: EntryPointOffset) -> Seq<u8> {
        u64::wire(m.0)
    }

    open spec fn parse(s: Seq<u8>) -> Parsed<EntryPointOffset> {
        match u64::parse(s) {
            Err(e) => Err(e),
            Ok((inner, n)) => Ok((EntryPointOffset(inner), n)),
        }
    }

    proof fn lemma_parse_bounds(s: Seq<u8>) {
        u64::lemma_parse_bounds(s);
    }

    proof fn lemma_parse_wire(m: EntryPointOffset, rest: Seq<u8>) {
        u64::lemma_parse_wire(m.0, rest);
    }

    fn encode_to(&self, dest: &mut Vec<u8>) {
        self.0.encode_to(dest);
    }

    fn decode_at(input: &[u8], pos: usize) -> (r: Result<(Self, usize), CodecError>) {
        match u64::decode_at(input, pos) {
            Ok((inner, next)) => Ok((EntryPointOffset(inner), next)),
            Err(e) => Err(e),
        }
    }
}

/// An entry point of a legacy contract class.
#[derive(Clone, Copy, Debug, Default, PartialEq, Eq, Hash, PartialOrd, Ord, Structural)]
pub struct EntryPoint {
    pub selector: EntryPointSelector,
    pub offset: EntryPointOffset,
}

/// The fields of an `EntryPoint`, in wire order.
pub type EntryPointParts = (EntryPointSelector, EntryPointOffset);

/// The models of the fields of an `EntryPoint`, in wire order.
pub type EntryPointModel = (EntryPointSelector, EntryPointOffset);

impl DeepView for EntryPoint {
    type V = EntryPointModel;

    open spec fn deep_view(&self) -> EntryPointModel {
        (self.selector.deep_view(), self.offset.deep_view())
    }
}

impl Codec for EntryPoint {
    open spec fn wf(m: EntryPointModel) -> bool {
        EntryPointParts::wf(m)
    }

    /// The fields in this order: selector, offset.
    open spec fn wire(m: EntryPointModel) -> Seq<u8> {
        EntryPointParts::wire(m)
    }

    open spec fn parse(s: Seq<u8>) -> Parsed<EntryPointModel> {
        EntryPointParts::parse(s)
    }

    proof fn lemma_parse_bounds(s: Seq<u8>) {
        EntryPointParts::lemma_parse_bounds(s);
    }

    proof fn lemma_parse_wire(m: EntryPointModel, rest: Seq<u8>) {
        EntryPointParts::lemma_parse_wire(m, rest);
    }

    fn encode_to(&self, dest: &mut Vec<u8>) {
        crate::codec::encode2(&self.selector, &self.offset, dest);
    }

    fn decode_at(input: &[u8], pos: usize) -> (r: Result<(Self, usize), CodecError>) {
        match EntryPointParts::decode_at(input, pos) {
            Ok((parts, next)) => {
                let (selector, offset) = parts;
                Ok((EntryPoint { selector, offset }, next))
            },
            Err(e) => Err(e),
        }
    }
}

/// A parameter with the name of its type.
#[derive(Clone, Debug, Default, PartialEq, Eq)]
pub struct TypedParameter {
    pub name: String,
    pub ty: String,
}

/// The fields of a `TypedParameter`, in wire order.
pub type TypedParameterParts = (String, String);

/// The models of the fields of a `TypedParameter`, in wire order.
pub type TypedParameterModel = (Seq<char>, Seq<char>);

impl DeepView for TypedParameter {
    type V = TypedParameterModel;

    open spec fn deep_view(&self) -> TypedParameterModel {
        (self.name.deep_view(), self.ty.deep_view())
    }
}

impl Codec for TypedParameter {
    open spec fn wf(m: TypedParameterModel) -> bool {
        TypedParameterParts::wf(m)
    }

    /// The fields in this order: name, ty.
    open spec fn wire(m: TypedParameterModel) -> Seq<u8> {
        TypedParameterParts::wire(m)
    }

    open spec fn parse(s: Seq<u8>) -> Parsed<TypedParameterModel> {
        TypedParameterParts::parse(s)
    }

    proof fn lemma_parse_bounds(s: Seq<u8>) {
        TypedParameterParts::lemma_parse_bounds(s);
    }

    proof fn lemma_parse_wire(m: TypedParameterModel, rest: Seq<u8>) {
        TypedParameterParts::lemma_parse_wire(m, rest);
    }

    fn encode_to(&self, dest: &mut Vec<u8>) {
        crate::codec::encode2(&self.name, &self.ty, dest);
    }

    fn decode_at(input: &[u8], pos: usize) -> (r: Result<(Self, usize), CodecError>) {
        match TypedParameterParts::decode_at(input, pos) {
            Ok((parts, next)) => {
                let (name, ty) = parts;
                Ok((TypedParameter { name, ty }, next))
            },
            Err(e) => Err(e),
        }
    }
}

/// A member of a struct of the ABI.
#[derive(Clone, Debug, Default, PartialEq, Eq)]
pub struct StructMember {
    pub param: TypedParameter,
    pub offset: u64,
}

/// The fields of a `StructMember`, in wire order.
pub type StructMemberParts = (TypedParameter, u64);

/// The models of the fields of a `StructMember`, in wire order.
pub type StructMemberModel = (TypedParameterModel, u64);

impl DeepView for StructMember {
    type V = StructMemberModel;

    open spec fn deep_view(&self) -> StructMemberModel {
        (self.param.deep_view(), self.offset.deep_view())
    }
}

impl Codec for StructMember {
    open spec fn wf(m: StructMemberModel) -> bool {
        StructMemberParts::wf(m)
    }

    /// The fields in this order: param, offset.
    open spec fn wire(m: StructMemberModel) -> Seq<u8> {
        StructMemberParts::wire(m)
    }

    open spec fn parse(s: Seq<u8>) -> Parsed<StructMemberModel> {
        StructMemberParts::parse(s)
    }

    proof fn lemma_parse_bounds(s: Seq<u8>) {
        StructMemberParts::lemma_parse_bounds(s);
    }

    proof fn lemma_parse_wire(m: StructMemberModel, rest: Seq<u8>) {
        StructMemberParts::lemma_parse_wire(m, rest);
    }

    fn encode_to(&self, dest: &mut Vec<u8>) {
        crate::codec::encode2(&self.param, &self.offset, dest);
    }

    fn decode_at(input: &[u8], pos: usize) -> (r: Result<(Self, usize), CodecError>) {
        match StructMemberParts::decode_at(input, pos) {
            Ok((parts, next)) => {
                let (param, offset) = parts;
                Ok((StructMember { param, offset }, next))
            },
            Err(e) => Err(e),
        }
    }
}

/// A struct abi entry.
#[derive(Clone, Debug, Default, PartialEq, Eq)]
pub struct StructAbiEntry {
    pub name: String,
    pub size: u64,
    pub members: Vec<StructMember>,
}

/// The fields of a `StructAbiEntry`, in wire order.
pub type StructAbiEntryParts = (String, (u64, Vec<StructMember>));

/// The models of the fields of a `StructAbiEntry`, in wire order.
pub type StructAbiEntryModel = (Seq<char>, (u64, Seq<StructMemberModel>));

impl DeepView for StructAbiEntry {
    type V = StructAbiEntryModel;

    open spec fn deep_view(&self) -> StructAbiEntryModel {
        (self.name.deep_view(), (self.size.deep_view(), self.members.deep_view()))
    }
}

impl Codec for StructAbiEntry {
    open spec fn wf(m: StructAbiEntryModel) -> bool {
        StructAbiEntryParts::wf(m)
    }

    /// The fields in this order: name, size, members.
    open spec fn wire(m: StructAbiEntryModel) -> Seq<u8> {
        StructAbiEntryParts::wire(m)
    }

    open spec fn parse(s: Seq<u8>) -> Parsed<StructAbiEntryModel> {
        StructAbiEntryParts::parse(s)
    }

    proof fn lemma_parse_bounds(s: Seq<u8>) {
        StructAbiEntryParts::lemma_parse_bounds(s);
    }

    proof fn lemma_parse_wire(m: StructAbiEntryModel, rest: Seq<u8>) {
        StructAbiEntryParts::lemma_parse_wire(m, rest);
    }

    fn encode_to(&self, dest: &mut Vec<u8>) {
        crate::codec::encode3(&self.name, &self.size, &self.members, dest);
    }

    fn decode_at(input: &[u8], pos: usize) -> (r: Result<(Self, usize), CodecError>) {
        match StructAbiEntryParts::decode_at(input, pos) {
            Ok((parts, next)) => {
                let (name, (size, members)) = parts;
                Ok((StructAbiEntry { name, size, members }, next))
            },
            Err(e) => Err(e),
        }
    }
}

/// An event abi entry.
#[derive(Clone, Debug, Default, PartialEq, Eq)]
pub struct EventAbiEntry {
    pub name: String,
    pub keys: Vec<TypedParameter>,
    pub data: Vec<TypedParameter>,
}

/// The fields of an `EventAbiEntry`, in wire order.
pub type EventAbiEntryParts = (String, (Vec<TypedParameter>, Vec<TypedParameter>));

/// The models of the fields of an `EventAbiEntry`, in wire order.
pub type EventAbiEntryModel = (Seq<char>, (Seq<TypedParameterModel>, Seq<TypedParameterModel>));

impl DeepView for EventAbiEntry {
    type V = EventAbiEntryModel;

    open spec fn deep_view(&self) -> EventAbiEntryModel {
        (self.name.deep_view(), (self.keys.deep_view(), self.data.deep_view()))
    }
}

impl Codec for EventAbiEntry {
    open spec fn wf(m: EventAbiEntryModel) -> bool {
        EventAbiEntryParts::wf(m)
    }

    /// The fields in this order: name, keys, data.
    open spec fn wire(m: EventAbiEntryModel) -> Seq<u8> {
        EventAbiEntryParts::wire(m)
    }

    open spec fn parse(s: Seq<u8>) -> Parsed<EventAbiEntryModel> {
        EventAbiEntryParts::parse(s)
    }

    proof fn lemma_parse_bounds(s: Seq<u8>) {
        EventAbiEntryParts::lemma_parse_bounds(s);
    }

    proof fn lemma_parse_wire(m: EventAbiEntryModel, rest: Seq<u8>) {
        EventAbiEntryParts::lemma_parse_wire(m, rest);
    }

    fn encode_to(&self, dest: &mut Vec<u8>) {
        crate::codec::encode3(&self.name, &self.keys, &self.data, dest);
    }

    fn decode_at(input: &[u8], pos: usize) -> (r: Result<(Self, usize), CodecError>) {
        match EventAbiEntryParts::decode_at(input, pos) {
            Ok((parts, next)) => {
                let (name, (keys, data)) = parts;
                Ok((EventAbiEntry { name, keys, data }, next))
            },
            Err(e) => Err(e),
        }
    }
}

/// A function state mutability. On the wire it is one tag byte, 0 for a
/// view; in interchange with other tools it is spelled `view`.
#[derive(Clone, Copy, Debug, PartialEq, Eq, Hash, Structural)]
pub enum FunctionStateMutability {
    View,
}

impl Default for FunctionStateMutability {
    fn default() -> (mutability: FunctionStateMutability)
        ensures
            mutability == FunctionStateMutability::View,
    {
        FunctionStateMutability::View
    }
}

impl FunctionStateMutability {
    /// The spelling that other tools read.
    pub fn name(&self) -> (text: &'static str)
        ensures
            text@ == "view"@,
    {
        "view"
    }
}

impl DeepView for FunctionStateMutability {
    type V = FunctionStateMutability;

    open spec fn deep_view(&self) -> FunctionStateMutability {
        *self
    }
}

impl Codec for FunctionStateMutability {
    open spec fn wf(m: FunctionStateMutability) -> bool {
        true
    }

    open spec fn wire(m: FunctionStateMutability) -> Seq<u8> {
        seq![0u8]
    }

    open spec fn parse(s: Seq<u8>) -> Parsed<FunctionStateMutability> {
        if s.len() == 0 {
            Err(CodecError::Truncated)
        } else if s[0] == 0 {
            Ok((FunctionStateMutability::View, 1))
        } else {
            Err(CodecError::InvalidDiscriminant)
        }
    }

    proof fn lemma_parse_bounds(s: Seq<u8>) {
    }

    proof fn lemma_parse_wire(m: FunctionStateMutability, rest: Seq<u8>) {
        assert((seq![0u8] + rest)[0] == 0);
    }

    fn encode_to(&self, dest: &mut Vec<u8>) {
        let ghost start = dest@;
        dest.push(0);
        assert(dest@ == start + seq![0u8]);
    }

    fn decode_at(input: &[u8], pos: usize) -> (r: Result<(Self, usize), CodecError>) {
        if pos >= input.len() {
            return Err(CodecError::Truncated);
        }
        assert(input@.skip(pos as int)[0] == input@[pos as int]);
        if input[pos] == 0 {
            Ok((FunctionStateMutability::View, pos + 1))
        } else {
            Err(CodecError::InvalidDiscriminant)
        }
    }
}

/// A function abi entry.
#[derive(Clone, Debug, Default, PartialEq, Eq)]
pub struct FunctionAbiEntry {
    pub name: String,
    pub inputs: Vec<TypedParameter>,
    pub outputs: Vec<TypedParameter>,
    pub state_mutability: Option<FunctionStateMutability>,
}

/// The fields of a `FunctionAbiEntry`, in wire order.
pub type FunctionAbiEntryParts = (
    String,
    (Vec<TypedParameter>, (Vec<TypedParameter>, Option<FunctionStateMutability>)),
);

/// The models of the fields of a `FunctionAbiEntry`, in wire order.
pub type FunctionAbiEntryModel = (
    Seq<char>,
    (Seq<TypedParameterModel>, (Seq<TypedParameterModel>, Option<FunctionStateMutability>)),
);

impl DeepView for FunctionAbiEntry {
    type V = FunctionAbiEntryModel;

    open spec fn deep_view(&self) -> FunctionAbiEntryModel {
        (
            self.name.deep_view(),
            (
                self.inputs.deep_view(),
                (self.outputs.deep_view(), self.state_mutability.deep_view()),
            ),
        )
    }
}

impl Codec for FunctionAbiEntry {
    open spec fn wf(m: FunctionAbiEntryModel) -> bool {
        FunctionAbiEntryParts::wf(m)
    }

    /// The fields in this order: name, inputs, outputs, state mutability.
    open spec fn wire(m: FunctionAbiEntryModel) -> Seq<u8> {
        FunctionAbiEntryParts::wire(m)
    }

    open spec fn parse(s: Seq<u8>) -> Parsed<FunctionAbiEntryModel> {
        FunctionAbiEntryParts::parse(s)
    }

    proof fn lemma_parse_bounds(s: Seq<u8>) {
        FunctionAbiEntryParts::lemma_parse_bounds(s);
    }

    proof fn lemma_parse_wire(m: FunctionAbiEntryModel, rest: Seq<u8>) {
        FunctionAbiEntryParts::lemma_parse_wire(m, rest);
    }

    fn encode_to(&self, dest: &mut Vec<u8>) {
        crate::codec::encode4(
            &self.name,
            &self.inputs,
            &self.outputs,
            &self.state_mutability,
            dest,
        );
    }

    fn decode_at(input: &[u8], pos: usize) -> (r: Result<(Self, usize), CodecError>) {
        match FunctionAbiEntryParts::decode_at(input, pos) {
            Ok((parts, next)) => {
                let (name, (inputs, (outputs, state_mutability))) = parts;
                Ok((FunctionAbiEntry { name, inputs, outputs, state_mutability }, next))
            },
            Err(e) => Err(e),
        }
    }
}

/// An entry of the ABI of a legacy contract class. On the wire it is a tag
/// byte and then the entry: 0 for an event, 1 for a function, 2 for a
/// constructor, 3 for an L1 handler, 4 for a struct.
#[derive(Clone, Debug, PartialEq, Eq)]
pub enum ContractClassAbiEntry {
    Event(EventAbiEntry),
    Function(FunctionAbiEntry),
    Constructor(FunctionAbiEntry),
    L1Handler(FunctionAbiEntry),
    Struct(StructAbiEntry),
}

/// The model of an entry of the ABI.
pub enum ContractClassAbiEntryModel {
    Event(EventAbiEntryModel),
    Function(FunctionAbiEntryModel),
    Constructor(FunctionAbiEntryModel),
    L1Handler(FunctionAbiEntryModel),
    Struct(StructAbiEntryModel),
}

impl DeepView for ContractClassAbiEntry {
    type V = ContractClassAbiEntryModel;

    open spec fn deep_view(&self) -> ContractClassAbiEntryModel {
        match self {
            ContractClassAbiEntry::Event(e) => ContractClassAbiEntryModel::Event(e.deep_view()),
            ContractClassAbiEntry::Function(f) => ContractClassAbiEntryModel::Function(
                f.deep_view(),
            ),
            ContractClassAbiEntry::Constructor(f) => ContractClassAbiEntryModel::Constructor(
                f.deep_view(),
            ),
            ContractClassAbiEntry::L1Handler(f) => ContractClassAbiEntryModel::L1Handler(
                f.deep_view(),
            ),
            ContractClassAbiEntry::Struct(e) => ContractClassAbiEntryModel::Struct(e.deep_view()),
        }
    }
}

impl ContractClassAbiEntry {
    /// The spelling of the kind of the entry that other tools read.
    pub fn kind_name(&self) -> (text: &'static str)
        ensures
            text@ == (match self {
                ContractClassAbiEntry::Event(_) => "event"@,
                ContractClassAbiEntry::Function(_) => "function"@,
                ContractClassAbiEntry::Constructor(_) => "constructor"@,
                ContractClassAbiEntry::L1Handler(_) => "l1_handler"@,
                ContractClassAbiEntry::Struct(_) => "struct"@,
            }),
    {
        match self {
            ContractClassAbiEntry::Event(_) => "event",
            ContractClassAbiEntry::Function(_) => "function",
            ContractClassAbiEntry::Constructor(_) => "constructor",
            ContractClassAbiEntry::L1Handler(_) => "l1_handler",
            ContractClassAbiEntry::Struct(_) => "struct",
        }
    }
}

impl Codec for ContractClassAbiEntry {
    open spec fn wf(m: ContractClassAbiEntryModel) -> bool {
        match m {
            ContractClassAbiEntryModel::Event(e) => EventAbiEntry::wf(e),
            ContractClassAbiEntryModel::Function(f) => FunctionAbiEntry::wf(f),
            ContractClassAbiEntryModel::Constructor(f) => FunctionAbiEntry::wf(f),
            ContractClassAbiEntryModel::L1Handler(f) => FunctionAbiEntry::wf(f),
            ContractClassAbiEntryModel::Struct(e) => StructAbiEntry::wf(e),
        }
    }

    open spec fn wire(m: ContractClassAbiEntryModel) -> Seq<u8> {
        match m {
            ContractClassAbiEntryModel::Event(e) => wire_tagged::<EventAbiEntry>(0, e),
            ContractClassAbiEntryModel::Function(f) => wire_tagged::<FunctionAbiEntry>(1, f),
            ContractClassAbiEntryModel::Constructor(f) => wire_tagged::<FunctionAbiEntry>(2, f),
            ContractClassAbiEntryModel::L1Handler(f) => wire_tagged::<FunctionAbiEntry>(3, f),
            ContractClassAbiEntryModel::Struct(e) => wire_tagged::<StructAbiEntry>(4, e),
        }
    }

    open spec fn parse(s: Seq<u8>) -> Parsed<ContractClassAbiEntryModel> {
        if s.len() == 0 {
            Err(CodecError::Truncated)
        } else if s[0] == 0 {
            match parse_tagged::<EventAbiEntry>(s) {
                Err(e) => Err(e),
                Ok((entry, n)) => Ok((ContractClassAbiEntryModel::Event(entry), n)),
            }
        } else if s[0] == 1 {
            match parse_tagged::<FunctionAbiEntry>(s) {
                Err(e) => Err(e),
                Ok((entry, n)) => Ok((ContractClassAbiEntryModel::Function(entry), n)),
            }
        } else if s[0] == 2 {
            match parse_tagged::<FunctionAbiEntry>(s) {
                Err(e) => Err(e),
                Ok((entry, n)) => Ok((ContractClassAbiEntryModel::Constructor(entry), n)),
            }
        } else if s[0] == 3 {
            match parse_tagged::<FunctionAbiEntry>(s) {
                Err(e) => Err(e),
                Ok((entry, n)) => Ok((ContractClassAbiEntryModel::L1Handler(entry), n)),
            }
        } else if s[0] == 4 {
            match parse_tagged::<StructAbiEntry>(s) {
                Err(e) => Err(e),
                Ok((entry, n)) => Ok((ContractClassAbiEntryModel::Struct(entry), n)),
            }
        } else {
            Err(CodecError::InvalidDiscriminant)
        }
    }

    proof fn lemma_parse_bounds(s: Seq<u8>) {
        if s.len() > 0 {
            lemma_parse_tagged_bounds::<EventAbiEntry>(s);
            lemma_parse_tagged_bounds::<FunctionAbiEntry>(s);
            lemma_parse_tagged_bounds::<StructAbiEntry>(s);
        }
    }

    proof fn lemma_parse_wire(m: ContractClassAbiEntryModel, rest: Seq<u8>) {
        match m {
            ContractClassAbiEntryModel::Event(e) => {
                lemma_parse_tagged_wire::<EventAbiEntry>(0, e, rest);
            },
            ContractClassAbiEntryModel::Function(f) => {
                lemma_parse_tagged_wire::<FunctionAbiEntry>(1, f, rest);
            },
            ContractClassAbiEntryModel::Constructor(f) => {
                lemma_parse_tagged_wire::<FunctionAbiEntry>(2, f, rest);
            },
            ContractClassAbiEntryModel::L1Handler(f) => {
                lemma_parse_tagged_wire::<FunctionAbiEntry>(3, f, rest);
            },
            ContractClassAbiEntryModel::Struct(e) => {
                lemma_parse_tagged_wire::<StructAbiEntry>(4, e, rest);
            },
        }
    }

    fn encode_to(&self, dest: &mut Vec<u8>) {
        match self {
            ContractClassAbiEntry::Event(e) => encode_tagged(0, e, dest),
            ContractClassAbiEntry::Function(f) => encode_tagged(1, f, dest),
            ContractClassAbiEntry::Constructor(f) => encode_tagged(2, f, dest),
            ContractClassAbiEntry::L1Handler(f) => encode_tagged(3, f, dest),
            ContractClassAbiEntry::Struct(e) => encode_tagged(4, e, dest),
        }
    }

    fn decode_at(input: &[u8], pos: usize) -> (r: Result<(Self, usize), CodecError>) {
        if pos >= input.len() {
            return Err(CodecError::Truncated);
        }
        assert(input@.skip(pos as int)[0] == input@[pos as int]);
        let tag: u8 = input[pos];
        if tag == 0 {
            match decode_tagged::<EventAbiEntry>(input, pos) {
                Ok((entry, next)) => Ok((ContractClassAbiEntry::Event(entry), next)),
                Err(e) => Err(e),
            }
        } else if tag == 1 {
            match decode_tagged::<FunctionAbiEntry>(input, pos) {
                Ok((entry, next)) => Ok((ContractClassAbiEntry::Function(entry), next)),
                Err(e) => Err(e),
            }
        } else if tag == 2 {
            match decode_tagged::<FunctionAbiEntry>(input, pos) {
                Ok((entry, next)) => Ok((ContractClassAbiEntry::Constructor(entry), next)),
                Err(e) => Err(e),
            }
        } else if tag == 3 {
            match decode_tagged::<FunctionAbiEntry>(input, pos) {
                Ok((entry, next)) => Ok((ContractClassAbiEntry::L1Handler(entry), next)),
                Err(e) => Err(e),
            }
        } else if tag == 4 {
            match decode_tagged::<StructAbiEntry>(input, pos) {
                Ok((entry, next)) => Ok((ContractClassAbiEntry::Struct(entry), next)),
                Err(e) => Err(e),
            }
        } else {
            Err(CodecError::InvalidDiscriminant)
        }
    }
}

/// The member of a program that is missing from the JSON object that
/// `text` spells, the first in the order of the fields, if one is.
pub open spec fn first_missing_member(text: Seq<char>) -> Option<JsonField> {
    if spec_json_member(text, "builtins"@) is None {
        Some(JsonField::Builtins)
    } else if spec_json_member(text, "data"@) is None {
        Some(JsonField::Data)
    } else if spec_json_member(text, "hints"@) is None {
        Some(JsonField::Hints)
    } else if spec_json_member(text, "identifiers"@) is None {
        Some(JsonField::Identifiers)
    } else if spec_json_member(text, "main_scope"@) is None {
        Some(JsonField::MainScope)
    } else if spec_json_member(text, "prime"@) is None {
        Some(JsonField::Prime)
    } else if spec_json_member(text, "reference_manager"@) is None {
        Some(JsonField::ReferenceManager)
    } else {
        None
    }
}

/// Whether `text` is the text of a program: JSON as `serde_json` writes it,
/// with each member that a program must have.
pub open spec fn is_program_text(text: Seq<char>) -> bool {
    spec_json_canonical(text) == Some(text) && first_missing_member(text) is None
        && encode_utf8(text).len() <= u64::MAX
}

/// The program that a JSON text spells: the text as `serde_json` writes it,
/// if that text is stable under reading and writing again and has each
/// member that a program must have.
pub open spec fn spec_program_of_json(text: Seq<char>) -> Result<Seq<char>, CodecError> {
    match spec_json_canonical(text) {
        None => Err(CodecError::InvalidJson(JsonField::Program)),
        Some(written) => if spec_json_canonical(written) != Some(written) {
            Err(CodecError::InvalidJson(JsonField::Program))
        } else if encode_utf8(written).len() > u64::MAX {
            Err(CodecError::LengthOutOfBounds)
        } else {
            match first_missing_member(written) {
                Some(field) => Err(CodecError::InvalidJson(field)),
                None => Ok(written),
            }
        },
    }
}

/// The text of a program is the program that it spells.
pub proof fn lemma_program_of_its_text(text: Seq<char>)
    requires
        is_program_text(text),
    ensures
        spec_program_of_json(text) == Ok::<Seq<char>, CodecError>(text),
{
}

/// A program corresponding to a legacy contract class: a JSON object of no
/// fixed schema beyond the members that it must have. It is kept as its
/// text, and its model is that text.
#[derive(Debug, PartialEq, Eq)]
pub struct Program {
    text: String,
}

impl Clone for Program {
    fn clone(&self) -> (r: Program)
        ensures
            r.deep_view() == self.deep_view(),
    {
        proof {
            use_type_invariant(self);
        }
        Program { text: self.text.clone() }
    }
}

impl DeepView for Program {
    type V = Seq<char>;

    closed spec fn deep_view(&self) -> Seq<char> {
        self.text@
    }
}

impl Program {
    #[verifier::type_invariant]
    spec fn is_well_formed(self) -> bool {
        is_program_text(self.text@)
    }

    /// The program that a JSON text spells, or why it spells none: the text
    /// is no JSON, or the object lacks a member.
    pub fn from_json(text: &str) -> (r: Result<Program, CodecError>)
        ensures
            match r {
                Ok(program) => spec_program_of_json(text@) == Ok::<Seq<char>, CodecError>(
                    program.deep_view(),
                ) && is_program_text(program.deep_view()),
                Err(e) => spec_program_of_json(text@) == Err::<Seq<char>, CodecError>(e),
            },
    {
        let written = match json_canonical(text) {
            Some(written) => written,
            None => { return Err(CodecError::InvalidJson(JsonField::Program)); },
        };
        match json_canonical(written.as_str()) {
            Some(again) => {
                if again != written {
                    return Err(CodecError::InvalidJson(JsonField::Program));
                }
            },
            None => { return Err(CodecError::InvalidJson(JsonField::Program)); },
        }
        let bytes = written.as_str().as_bytes();
        proof {
            vstd::slice::axiom_spec_len(bytes);
        }
        if json_member(written.as_str(), "builtins").is_none() {
            return Err(CodecError::InvalidJson(JsonField::Builtins));
        }
        if json_member(written.as_str(), "data").is_none() {
            return Err(CodecError::InvalidJson(JsonField::Data));
        }
        if json_member(written.as_str(), "hints").is_none() {
            return Err(CodecError::InvalidJson(JsonField::Hints));
        }
        if json_member(written.as_str(), "identifiers").is_none() {
            return Err(CodecError::InvalidJson(JsonField::Identifiers));
        }
        if json_member(written.as_str(), "main_scope").is_none() {
            return Err(CodecError::InvalidJson(JsonField::MainScope));
        }
        if json_member(written.as_str(), "prime").is_none() {
            return Err(CodecError::InvalidJson(JsonField::Prime));
        }
        if json_member(written.as_str(), "reference_manager").is_none() {
            return Err(CodecError::InvalidJson(JsonField::ReferenceManager));
        }
        Ok(Program { text: written })
    }

    /// The JSON text of the program.
    pub fn to_json(&self) -> (text: String)
        ensures
            text@ == self.deep_view(),
            is_program_text(text@),
    {
        proof {
            use_type_invariant(self);
        }
        self.text.clone()
    }

    /// The JSON text of a member of the program, if it has the member.
    pub fn member(&self, key: &str) -> (r: Option<String>)
        ensures
            match r {
                Some(written) => spec_json_member(self.deep_view(), key@) == Some(written@),
                None => spec_json_member(self.deep_view(), key@) is None,
            },
    {
        json_member(self.text.as_str(), key)
    }
}

impl Codec for Program {
    open spec fn wf(m: Seq<char>) -> bool {
        is_program_text(m)
    }

    /// The JSON text of the program, as a text.
    open spec fn wire(m: Seq<char>) -> Seq<u8> {
        String::wire(m)
    }

    open spec fn parse(s: Seq<u8>) -> Parsed<Seq<char>> {
        match String::parse(s) {
            Err(e) => Err(e),
            Ok((text, n)) => match spec_program_of_json(text) {
                Err(e) => Err(e),
                Ok(program) => Ok((program, n)),
            },
        }
    }

    proof fn lemma_parse_bounds(s: Seq<u8>) {
        String::lemma_parse_bounds(s);
    }

    proof fn lemma_parse_wire(m: Seq<char>, rest: Seq<u8>) {
        String::lemma_parse_wire(m, rest);
    }

    fn encode_to(&self, dest: &mut Vec<u8>) {
        proof {
            use_type_invariant(self);
        }
        self.text.encode_to(dest);
    }

    fn decode_at(input: &[u8], pos: usize) -> (r: Result<(Self, usize), CodecError>) {
        let (text, next) = match String::decode_at(input, pos) {
            Ok(found) => found,
            Err(e) => { return Err(e); },
        };
        match Program::from_json(text.as_str()) {
            Ok(program) => Ok((program, next)),
            Err(e) => Err(e),
        }
    }
}

/// A legacy contract class.
#[derive(Clone, Debug, PartialEq, Eq)]
pub struct ContractClass {
    pub abi: Option<Vec<ContractClassAbiEntry>>,
    pub program: Program,
    pub entry_points_by_type: OrderedMap<EntryPointType, Vec<EntryPoint>>,
}

/// The fields of a `ContractClass`, in wire order.
pub type ContractClassParts = (
    Option<Vec<ContractClassAbiEntry>>,
    (Program, OrderedMap<EntryPointType, Vec<EntryPoint>>),
);

/// The models of the fields of a `ContractClass`, in wire order.
pub type ContractClassModel = (
    Option<Seq<ContractClassAbiEntryModel>>,
    (Seq<char>, Seq<(EntryPointType, Seq<EntryPointModel>)>),
);

impl DeepView for ContractClass {
    type V = ContractClassModel;

    open spec fn deep_view(&self) -> ContractClassModel {
        (self.abi.deep_view(), (self.program.deep_view(), self.entry_points_by_type.deep_view()))
    }
}

impl Codec for ContractClass {
    open spec fn wf(m: ContractClassModel) -> bool {
        ContractClassParts::wf(m)
    }

    /// The ABI, if there is one, as a sequence of entries; the program as the
    /// text of its JSON; and the entry point table as a sequence of pairs of
    /// a tag and a sequence of entry points.
    open spec fn wire(m: ContractClassModel) -> Seq<u8> {
        ContractClassParts::wire(m)
    }

    open spec fn parse(s: Seq<u8>) -> Parsed<ContractClassModel> {
        ContractClassParts::parse(s)
    }

    proof fn lemma_parse_bounds(s: Seq<u8>) {
        ContractClassParts::lemma_parse_bounds(s);
    }

    proof fn lemma_parse_wire(m: ContractClassModel, rest: Seq<u8>) {
        ContractClassParts::lemma_parse_wire(m, rest);
    }

    fn encode_to(&self, dest: &mut Vec<u8>) {
        crate::codec::encode3(&self.abi, &self.program, &self.entry_points_by_type, dest);
    }

    fn decode_at(input: &[u8], pos: usize) -> (r: Result<(Self, usize), CodecError>) {
        match ContractClassParts::decode_at(input, pos) {
            Ok((parts, next)) => {
                let (abi, (program, entry_points_by_type)) = parts;
                Ok((ContractClass { abi, program, entry_points_by_type }, next))
            },
            Err(e) => Err(e),
        }
    }
}

impl ContractClass {
    /// The wire bytes of the class.
    pub fn encode(&self) -> (bytes: Vec<u8>)
        ensures
            bytes@ == Self::wire(self.deep_view()),
            Self::wf(self.deep_view()),
    {
        crate::codec::encode(self)
    }

    /// The class at the front of `input`, or why there is none. On success
    /// `input` is left behind the bytes of the class.
    pub fn decode(input: &mut &[u8]) -> (r: Result<ContractClass, CodecError>)
        ensures
            match r {
                Ok(class) => Self::parse(old(input)@) matches Ok((m, n)) && m == class.deep_view()
                    && final(input)@ == old(input)@.skip(n as int),
                Err(e) => Self::parse(old(input)@) == Err::<(ContractClassModel, nat), CodecError>(
                    e,
                ) && final(input)@ == old(input)@,
            },
    {
        let all: &[u8] = *input;
        assert(all@.skip(0) == all@);
        match Self::decode_at(all, 0) {
            Ok((class, next)) => {
                *input = vstd::slice::slice_subrange(all, next, all.len());
                assert(all@.subrange(next as int, all@.len() as int) == all@.skip(next as int));
                Ok(class)
            },
            Err(e) => Err(e),
        }
    }
}

/// The number that a hexadecimal text spells, with or without `0x` before
/// its digits.
pub open spec fn spec_hex_string_try_into_u64(hex_string: Seq<char>) -> Result<u64, ParseIntError> {
    spec_parse_hex(trim_hex_prefixes(encode_utf8(hex_string)))
}

/// The hexadecimal text of a number: `0x` and its digits in lower case,
/// without leading zeros.
pub open spec fn spec_u64_to_hex(value: u64) -> Seq<char> {
    ascii_text(seq![48u8, 120u8] + hex_digits(value as nat))
}

/// The number that a hexadecimal text spells, with or without `0x` before
/// its digits, or why it spells none.
pub fn hex_string_try_into_u64(hex_string: &str) -> (r: Result<u64, ParseIntError>)
    ensures
        r == spec_hex_string_try_into_u64(hex_string@),
{
    let codes = hex_string.as_bytes();
    let start = hex_prefix_end(codes);
    let digits = vstd::slice::slice_subrange(codes, start, codes.len());
    assert(digits@ == codes@.skip(start as int));
    parse_hex(digits)
}

/// The hexadecimal text of a number, with `0x` before its digits.
pub fn u64_to_hex(value: u64) -> (text: String)
    ensures
        text@ == spec_u64_to_hex(value),
{
    let mut codes: Vec<u8> = Vec::new();
    codes.push(48);
    codes.push(120);
    push_hex_digits(value, &mut codes);
    proof {
        lemma_read_hex_digits(value as nat);
        assert(codes@ == seq![48u8, 120u8] + hex_digits(value as nat));
        assert forall|i: int| 0 <= i < codes@.len() implies #[trigger] codes@[i] < 128 by {
            if i >= 2 {
                assert(crate::numeral::hex_value(hex_digits(value as nat)[i - 2]) is Some);
            }
        }
    }
    text_of_ascii(codes)
}

/// Reading the hexadecimal text of a number gives the number.
pub proof fn lemma_hex_round_trip(value: u64)
    ensures
        spec_hex_string_try_into_u64(spec_u64_to_hex(value)) == Ok::<u64, ParseIntError>(value),
{
    let digits = hex_digits(value as nat);
    let codes = seq![48u8, 120u8] + digits;
    lemma_read_hex_digits(value as nat);
    assert(is_ascii_bytes(codes)) by {
        assert forall|i: int| 0 <= i < codes.len() implies #[trigger] codes[i] < 128 by {
            if i >= 2 {
                assert(crate::numeral::hex_value(digits[i - 2]) is Some);
            }
        }
    }
    lemma_ascii_text(codes);
    assert(codes.skip(2) == digits);
    assert(trim_hex_prefixes(digits) == digits) by {
        if digits.len() >= 2 {
            assert(crate::numeral::hex_value(digits[1]) is Some);
        }
    }
    assert(crate::numeral::hex_value(digits[0]) is Some);
}

/// Why a JSON value is no offset.
#[derive(Clone, Copy, Debug, PartialEq, Eq, Structural)]
pub enum OffsetError {
    /// The text is no JSON.
    InvalidJson,
    /// The number is no unsigned integer of 64 bits.
    NumberOutOfRange,
    /// The text is no hexadecimal number.
    InvalidHex(ParseIntError),
    /// The value is neither a number nor a text.
    NeitherNumberNorText,
}

/// The offset that a JSON value holds: a number as it is, a text as the
/// hexadecimal number that it spells.
pub open spec fn spec_number_or_string(value: JsonScalarModel) -> Result<u64, OffsetError> {
    match value {
        JsonScalarModel::Number(Some(n)) => Ok(n),
        JsonScalarModel::Number(None) => Err(OffsetError::NumberOutOfRange),
        JsonScalarModel::Text(text) => match spec_hex_string_try_into_u64(text) {
            Ok(n) => Ok(n),
            Err(e) => Err(OffsetError::InvalidHex(e)),
        },
        JsonScalarModel::Other => Err(OffsetError::NeitherNumberNorText),
    }
}

/// The offset that a JSON value holds: a number as it is, a text as the
/// hexadecimal number that it spells.
pub fn number_or_string(value: &JsonScalar) -> (r: Result<u64, OffsetError>)
    ensures
        r == spec_number_or_string(value.deep_view()),
{
    match value {
        JsonScalar::Number(Some(n)) => Ok(*n),
        JsonScalar::Number(None) => Err(OffsetError::NumberOutOfRange),
        JsonScalar::Text(text) => match hex_string_try_into_u64(text.as_str()) {
            Ok(n) => Ok(n),
            Err(e) => Err(OffsetError::InvalidHex(e)),
        },
        JsonScalar::Other => Err(OffsetError::NeitherNumberNorText),
    }
}

/// The offset that a JSON text holds.
pub open spec fn spec_offset_of_json(text: Seq<char>) -> Result<EntryPointOffset, OffsetError> {
    match spec_json_scalar(text) {
        None => Err(OffsetError::InvalidJson),
        Some(value) => match spec_number_or_string(value) {
            Ok(n) => Ok(EntryPointOffset(n)),
            Err(e) => Err(e),
        },
    }
}

impl EntryPointOffset {
    /// The offset that a hexadecimal text spells.
    pub fn try_from(value: String) -> (r: Result<EntryPointOffset, StarknetApiError>)
        ensures
            match r {
                Ok(offset) => spec_hex_string_try_into_u64(value@) == Ok::<u64, ParseIntError>(
                    offset.0,
                ),
                Err(e) => spec_hex_string_try_into_u64(value@) matches Err(kind) && e
                    == StarknetApiError::ParseIntError(kind),
            },
    {
        match hex_string_try_into_u64(value.as_str()) {
            Ok(n) => Ok(EntryPointOffset(n)),
            Err(kind) => Err(StarknetApiError::ParseIntError(kind)),
        }
    }

    /// The offset that a JSON text holds: a plain number or a hexadecimal
    /// text.
    pub fn from_json(text: &str) -> (r: Result<EntryPointOffset, OffsetError>)
        ensures
            r == spec_offset_of_json(text@),
    {
        match json_scalar(text) {
            None => Err(OffsetError::InvalidJson),
            Some(value) => match number_or_string(&value) {
                Ok(n) => Ok(EntryPointOffset(n)),
                Err(e) => Err(e),
            },
        }
    }

    /// The JSON text of the offset: always the hexadecimal text, in
    /// quotes.
    pub fn to_json(&self) -> (text: String)
        ensures
            text@ == seq!['"'] + spec_u64_to_hex(self.0) + seq!['"'],
    {
        let hex = u64_to_hex(self.0);
        let opened = crate::text::concat("\"", hex.as_str());
        proof {
            reveal_strlit("\"");
            assert("\""@ == seq!['"']);
        }
        crate::text::concat(opened.as_str(), "\"")
    }
}

/// The ASCII codes of two hexadecimal digits for each byte.
pub open spec fn bytes_hex(bytes: Seq<u8>) -> Seq<u8>
    decreases bytes.len(),
{
    if bytes.len() == 0 {
        Seq::empty()
    } else {
        bytes_hex(bytes.drop_last()) + padded_hex_digits(bytes.last() as nat, 2)
    }
}

/// `bytes` behind as many zero bytes as make 32 bytes.
pub open spec fn left_padded(bytes: Seq<u8>) -> Seq<u8>
    recommends
        bytes.len() <= 32,
{
    Seq::new((32 - bytes.len()) as nat, |i: int| 0u8) + bytes
}

/// The hexadecimal text of bytes: `0x` and two digits for each byte.
fn bytes_hex_text(bytes: &[u8]) -> (text: String)
    ensures
        text@ == ascii_text(seq![48u8, 120u8] + bytes_hex(bytes@)),
{
    let mut codes: Vec<u8> = Vec::new();
    codes.push(48);
    codes.push(120);
    let mut i: usize = 0;
    assert(bytes@.take(0) == Seq::<u8>::empty());
    assert(codes@ == seq![48u8, 120u8] + bytes_hex(bytes@.take(0)));
    while i < bytes.len()
        invariant
            i <= bytes.len(),
            codes@ == seq![48u8, 120u8] + bytes_hex(bytes@.take(i as int)),
            is_ascii_bytes(codes@),
        decreases bytes.len() - i,
    {
        let ghost before = codes@;
        push_padded_hex_digits(bytes[i] as u128, 2, &mut codes);
        proof {
            let now = bytes@.take(i + 1);
            assert(now.drop_last() == bytes@.take(i as int));
            assert(now.last() == bytes@[i as int]);
            let added = padded_hex_digits(bytes@[i as int] as nat, 2);
            lemma_hex_digits_ascii(bytes@[i as int] as nat, 2);
            assert(codes@ == seq![48u8, 120u8] + (bytes_hex(bytes@.take(i as int)) + added));
            assert forall|j: int| 0 <= j < codes@.len() implies #[trigger] codes@[j] < 128 by {
                if j < before.len() {
                    assert(codes@[j] == before[j]);
                } else {
                    assert(codes@[j] == added[j - before.len()]);
                }
            }
        }
        i += 1;
    }
    assert(bytes@.take(i as int) == bytes@);
    text_of_ascii(codes)
}

impl EntryPoint {
    /// The entry point with the selector that `selector` spells, most
    /// significant byte first, and the offset `offset`. More than 32 bytes
    /// are bad input; 32 bytes with one of the high four bits set are out of
    /// range.
    pub fn from_casm_parts(selector: &[u8], offset: usize) -> (r: Result<
        EntryPoint,
        StarknetApiError,
    >)
        ensures
            match r {
                Ok(entry) => selector@.len() <= 32 && left_padded(selector@)[0] < 0x10
                    && entry.selector.0 == StarkFelt::of_bytes(left_padded(selector@))
                    && entry.offset.0 == offset,
                Err(StarknetApiError::InnerDeserialization(e)) => selector@.len() > 32 && (
                e matches InnerDeserializationError::BadInput { expected_byte_count, string_found }
                    && expected_byte_count == 32 && string_found@ == ascii_text(
                    seq![48u8, 120u8] + bytes_hex(selector@),
                )),
                Err(StarknetApiError::OutOfRange { string }) => selector@.len() <= 32
                    && left_padded(selector@)[0] >= 0x10 && string@ == StarkFelt::of_bytes(
                    left_padded(selector@),
                ).spec_hex_text(),
                Err(StarknetApiError::ParseIntError(_)) => false,
            },
    {
        if selector.len() > 32 {
            return Err(
                StarknetApiError::InnerDeserialization(
                    InnerDeserializationError::BadInput {
                        expected_byte_count: 32,
                        string_found: bytes_hex_text(selector),
                    },
                ),
            );
        }
        let mut bytes: [u8; 32] = [0u8; 32];
        let shift: usize = 32 - selector.len();
        let mut i: usize = 0;
        while i < selector.len()
            invariant
                i <= selector.len() <= 32,
                shift == 32 - selector.len(),
                forall|j: int| 0 <= j < shift + i ==> bytes@[j] == left_padded(selector@)[j],
                forall|j: int| shift + i <= j < 32 ==> bytes@[j] == 0,
            decreases selector.len() - i,
        {
            bytes[shift + i] = selector[i];
            i += 1;
        }
        assert(bytes@ == left_padded(selector@));
        match StarkFelt::new(bytes) {
            Ok(felt) => Ok(
                EntryPoint {
                    selector: EntryPointSelector(felt),
                    offset: EntryPointOffset(offset as u64),
                },
            ),
            Err(e) => Err(e),
        }
    }
}

/// The bytes of a legacy contract class read back as the class, whatever
/// follows the bytes: its ABI, the text of its program, and its entry points
/// by kind in their order.
pub proof fn lemma_legacy_class_round_trip(class: ContractClassModel, rest: Seq<u8>)
    requires
        ContractClass::wf(class),
    ensures
        ContractClass::parse(ContractClass::wire(class) + rest) == Ok::<
            (ContractClassModel, nat),
            CodecError,
        >((class, ContractClass::wire(class).len())),
{
    ContractClass::lemma_parse_wire(class, rest);
}

} // verus!
