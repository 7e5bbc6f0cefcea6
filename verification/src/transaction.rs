//! What the execution of a transaction consumed.

use vstd::prelude::*;
use crate::codec::{Codec, CodecError, Parsed};
use crate::ordered_map::{KeyCode, MapKey, OrderedMap};

verus! {

/// A builtin of the virtual machine. On the wire it is one tag byte, the
/// place of the builtin in this list, from zero.
#[derive(Clone, Copy, Debug, PartialEq, Eq, Hash, PartialOrd, Ord, Structural)]
pub enum Builtin {
    RangeCheck,
    Pedersen,
    Poseidon,
    EcOp,
    Ecdsa,
    Bitwise,
    Keccak,
    SegmentArena,
}

impl Builtin {
    /// The tag byte of the builtin.
    pub open spec fn spec_tag(self) -> u8 {
        match self {
            Builtin::RangeCheck => 0,
            Builtin::Pedersen => 1,
            Builtin::Poseidon => 2,
            Builtin::EcOp => 3,
            Builtin::Ecdsa => 4,
            Builtin::Bitwise => 5,
            Builtin::Keccak => 6,
            Builtin::SegmentArena => 7,
        }
    }

    /// The builtin that a tag byte names, if it names one.
    pub open spec fn spec_of_tag(tag: u8) -> Option<Builtin> {
        if tag == 0 {
            Some(Builtin::RangeCheck)
        } else if tag == 1 {
            Some(Builtin::Pedersen)
        } else if tag == 2 {
            Some(Builtin::Poseidon)
        } else if tag == 3 {
            Some(Builtin::EcOp)
        } else if tag == 4 {
            Some(Builtin::Ecdsa)
        } else if tag == 5 {
            Some(Builtin::Bitwise)
        } else if tag == 6 {
            Some(Builtin::Keccak)
        } else if tag == 7 {
            Some(Builtin::SegmentArena)
        } else {
            None
        }
    }

    /// The tag byte of the builtin.
    pub fn tag(&self) -> (tag: u8)
        ensures
            tag == self.spec_tag(),
            Self::spec_of_tag(tag) == Some(*self),
    {
        match self {
            Builtin::RangeCheck => 0,
            Builtin::Pedersen => 1,
            Builtin::Poseidon => 2,
            Builtin::EcOp => 3,
            Builtin::Ecdsa => 4,
            Builtin::Bitwise => 5,
            Builtin::Keccak => 6,
            Builtin::SegmentArena => 7,
        }
    }

    /// The builtin that a tag byte names, if it names one.
    pub fn of_tag(tag: u8) -> (builtin: Option<Builtin>)
        ensures
            builtin == Self::spec_of_tag(tag),
            builtin matches Some(b) ==> b.spec_tag() == tag,
    {
        if tag == 0 {
            Some(Builtin::RangeCheck)
        } else if tag == 1 {
            Some(Builtin::Pedersen)
        } else if tag == 2 {
            Some(Builtin::Poseidon)
        } else if tag == 3 {
            Some(Builtin::EcOp)
        } else if tag == 4 {
            Some(Builtin::Ecdsa)
        } else if tag == 5 {
            Some(Builtin::Bitwise)
        } else if tag == 6 {
            Some(Builtin::Keccak)
        } else if tag == 7 {
            Some(Builtin::SegmentArena)
        } else {
            None
        }
    }
}

impl DeepView for Builtin {
    type V = Builtin;

    open spec fn deep_view(&self) -> Builtin {
        *self
    }
}

impl MapKey for Builtin {
    open spec fn spec_code(self) -> KeyCode {
        (0, self.spec_tag() as u128)
    }

    proof fn lemma_code_injective(a: Builtin, b: Builtin) {
    }

    proof fn lemma_key_model(a: Builtin, b: Builtin) {
    }

    fn code(&self) -> (code: KeyCode) {
        (0, self.tag() as u128)
    }
}

impl Codec for Builtin {
    open spec fn wf(m: Builtin) -> bool {
        true
    }

    open spec fn wire(m: Builtin) -> Seq<u8> {
        seq![m.spec_tag()]
    }

    open spec fn parse(s: Seq<u8>) -> Parsed<Builtin> {
        if s.len() == 0 {
            Err(CodecError::Truncated)
        } else {
            match Self::spec_of_tag(s[0]) {
                Some(builtin) => Ok((builtin, 1)),
                None => Err(CodecError::InvalidDiscriminant),
            }
        }
    }

    proof fn lemma_parse_bounds(s: Seq<u8>) {
    }

    proof fn lemma_parse_wire(m: Builtin, rest: Seq<u8>) {
        assert((seq![m.spec_tag()] + rest)[0] == m.spec_tag());
    }

    fn encode_to(&self, dest: &mut Vec<u8>) {
        let ghost start = dest@;
        dest.push(self.tag());
        assert(dest@ == start + seq![self.spec_tag()]);
    }

    fn decode_at(input: &[u8], pos: usize) -> (r: Result<(Self, usize), CodecError>) {
        if pos >= input.len() {
            return Err(CodecError::Truncated);
        }
        assert(input@.skip(pos as int)[0] == input@[pos as int]);
        match Builtin::of_tag(input[pos]) {
            Some(builtin) => Ok((builtin, pos + 1)),
            None => Err(CodecError::InvalidDiscriminant),
        }
    }
}

/// The resources that the execution of a transaction consumed.
#[derive(Clone, Debug, PartialEq, Eq)]
pub struct ExecutionResources {
    pub steps: u64,
    pub builtin_instance_counter: OrderedMap<Builtin, u64>,
    pub memory_holes: u64,
}

/// The fields of an `ExecutionResources`, in wire order.
pub type ExecutionResourcesParts = (u64, (OrderedMap<Builtin, u64>, u64));

/// The models of the fields of an `ExecutionResources`, in wire order.
pub type ExecutionResourcesModel = (u64, (Seq<(Builtin, u64)>, u64));

impl DeepView for ExecutionResources {
    type V = ExecutionResourcesModel;

    open spec fn deep_view(&self) -> ExecutionResourcesModel {
        (
            self.steps.deep_view(),
            (self.builtin_instance_counter.deep_view(), self.memory_holes.deep_view()),
        )
    }
}

impl Codec for ExecutionResources {
    open spec fn wf(m: ExecutionResourcesModel) -> bool {
        ExecutionResourcesParts::wf(m)
    }

    /// The steps, the count of each builtin in the order of insertion, and the
    /// memory holes.
    open spec fn wire(m: ExecutionResourcesModel) -> Seq<u8> {
        ExecutionResourcesParts::wire(m)
    }

    open spec fn parse(s: Seq<u8>) -> Parsed<ExecutionResourcesModel> {
        ExecutionResourcesParts::parse(s)
    }

    proof fn lemma_parse_bounds(s: Seq<u8>) {
        ExecutionResourcesParts::lemma_parse_bounds(s);
    }

    proof fn lemma_parse_wire(m: ExecutionResourcesModel, rest: Seq<u8>) {
        ExecutionResourcesParts::lemma_parse_wire(m, rest);
    }

    fn encode_to(&self, dest: &mut Vec<u8>) {
        crate::codec::encode3(
            &self.steps,
            &self.builtin_instance_counter,
            &self.memory_holes,
            dest,
        );
    }

    fn decode_at(input: &[u8], pos: usize) -> (r: Result<(Self, usize), CodecError>) {
        match ExecutionResourcesParts::decode_at(input, pos) {
            Ok((parts, next)) => {
                let (steps, (builtin_instance_counter, memory_holes)) = parts;
                Ok((ExecutionResources { steps, builtin_instance_counter, memory_holes }, next))
            },
            Err(e) => Err(e),
        }
    }
}

impl ExecutionResources {
    /// The wire bytes of the resources.
    pub fn encode(&self) -> (bytes: Vec<u8>)
        ensures
            bytes@ == Self::wire(self.deep_view()),
            Self::wf(self.deep_view()),
    {
        crate::codec::encode(self)
    }

    /// The resources at the front of `input`, or why there are none. On
    /// success `input` is left behind their bytes.
    pub fn decode(input: &mut &[u8]) -> (r: Result<ExecutionResources, CodecError>)
        ensures
            match r {
                Ok(resources) => Self::parse(old(input)@) matches Ok((m, n)) && m
                    == resources.deep_view() && final(input)@ == old(input)@.skip(n as int),
                Err(e) => Self::parse(old(input)@) == Err::<
                    (ExecutionResourcesModel, nat),
                    CodecError,
                >(e) && final(input)@ == old(input)@,
            },
    {
        let all: &[u8] = *input;
        assert(all@.skip(0) == all@);
        match Self::decode_at(all, 0) {
            Ok((resources, next)) => {
                *input = vstd::slice::slice_subrange(all, next, all.len());
                assert(all@.subrange(next as int, all@.len() as int) == all@.skip(next as int));
                Ok(resources)
            },
            Err(e) => Err(e),
        }
    }
}

} // verus!
