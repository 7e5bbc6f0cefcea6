//! Field elements: 256-bit values, written as 32 bytes, most significant
//! first.

use vstd::prelude::*;
use vstd::std_specs::convert::FromSpecImpl;
use vstd::utf8::encode_utf8;
use crate::codec::{Codec, CodecError, Parsed};
use crate::compact::pow256;
use crate::numeral::{
    hex_digits, hex_number, lemma_hex_digits_ascii, lemma_hex_digits_split,
    lemma_hex_number_bound, lemma_pow16_32, lemma_pow16_63, padded_hex_digits, pow16,
    push_hex_digits_wide, push_padded_hex_digits,
};
use crate::serde_utils::InnerDeserializationError;
use crate::text::{ascii_text, text_of_ascii};
use crate::StarknetApiError;

verus! {

/// The `len` low bytes of `n`, most significant first.
pub open spec fn be_bytes(n: nat, len: nat) -> Seq<u8>
    decreases len,
{
    if len == 0 {
        Seq::empty()
    } else {
        be_bytes(n / 256, (len - 1) as nat).push((n % 256) as u8)
    }
}

/// The number that the bytes of `s` spell, most significant first.
pub open spec fn be_value(s: Seq<u8>) -> nat
    decreases s.len(),
{
    if s.len() == 0 {
        0
    } else {
        256 * be_value(s.drop_last()) + s.last() as nat
    }
}

/// `be_bytes` gives as many bytes as it is asked for.
pub proof fn lemma_be_bytes_len(n: nat, len: nat)
    ensures
        be_bytes(n, len).len() == len,
    decreases len,
{
    if len > 0 {
        lemma_be_bytes_len(n / 256, (len - 1) as nat);
    }
}

/// Bytes spell a number below 256 to the power of their count.
pub proof fn lemma_be_value_bound(s: Seq<u8>)
    ensures
        be_value(s) < pow256(s.len()),
    decreases s.len(),
{
    if s.len() > 0 {
        lemma_be_value_bound(s.drop_last());
    }
}

/// `len` bytes hold every number below 256 to the power `len`.
pub proof fn lemma_be_value_of_bytes(n: nat, len: nat)
    requires
        n < pow256(len),
    ensures
        be_value(be_bytes(n, len)) == n,
    decreases len,
{
    if len > 0 {
        lemma_be_value_of_bytes(n / 256, (len - 1) as nat);
        lemma_be_bytes_len(n / 256, (len - 1) as nat);
        let front = be_bytes(n / 256, (len - 1) as nat);
        assert(be_bytes(n, len).drop_last() == front);
    }
}

/// Bytes are the bytes of the number that they spell.
pub proof fn lemma_be_bytes_of_value(s: Seq<u8>)
    ensures
        be_bytes(be_value(s), s.len()) == s,
    decreases s.len(),
{
    if s.len() > 0 {
        lemma_be_bytes_of_value(s.drop_last());
        assert(s.drop_last().push(s.last()) == s);
    }
}

/// 256 to the power 16 is 2 to the power 128.
pub proof fn lemma_pow256_16()
    ensures
        pow256(16) == 0x1_0000_0000_0000_0000_0000_0000_0000_0000,
        forall|k: nat| k < 16 ==> 256 * #[trigger] pow256(k) <= pow256(16),
{
    reveal_with_fuel(pow256, 17);
}

/// Appends the `len` low bytes of `v`, most significant first.
pub(crate) fn push_be(v: u128, len: usize, dest: &mut Vec<u8>)
    requires
        len <= 16,
    ensures
        final(dest)@ == old(dest)@ + be_bytes(v as nat, len as nat),
    decreases len,
{
    if len > 0 {
        let ghost start = dest@;
        push_be(v / 256, len - 1, dest);
        let b: u8 = (v % 256) as u8;
        dest.push(b);
        assert(dest@ == start + be_bytes((v / 256) as nat, (len - 1) as nat).push(b));
    } else {
        assert(dest@ + Seq::<u8>::empty() == dest@);
    }
}

/// Reads the number that `len` bytes from `pos` on spell, most significant
/// first.
pub(crate) fn read_be(input: &[u8], pos: usize, len: usize) -> (v: u128)
    requires
        len <= 16,
        pos + len <= input.len(),
    ensures
        v == be_value(input@.subrange(pos as int, pos + len)),
{
    let mut v: u128 = 0;
    let mut i: usize = 0;
    proof {
        lemma_pow256_16();
    }
    while i < len
        invariant
            i <= len <= 16,
            pos + len <= input.len(),
            v == be_value(input@.subrange(pos as int, pos + i)),
            v < pow256(i as nat),
            pow256(16) == 0x1_0000_0000_0000_0000_0000_0000_0000_0000,
            forall|k: nat| k < 16 ==> 256 * #[trigger] pow256(k) <= pow256(16),
        decreases len - i,
    {
        proof {
            let now = input@.subrange(pos as int, pos + i + 1);
            assert(now.drop_last() == input@.subrange(pos as int, pos + i));
            assert(now.last() == input@[pos + i]);
            assert(256 * pow256(i as nat) <= pow256(16));
        }
        v = v * 256 + input[pos + i] as u128;
        i += 1;
    }
    v
}

/// The prime of the field: 2 to the power 251, and 17 times 2 to the power
/// 192, and 1.
pub open spec fn stark_prime() -> nat {
    0x800_0000_0000_0011_0000_0000_0000_0000_0000_0000_0000_0000_0000_0000_0000_0001nat
}

/// 2 to the power 252, above which no text spells a field element.
pub open spec fn felt_upper_bound() -> nat {
    0x1000_0000_0000_0000_0000_0000_0000_0000_0000_0000_0000_0000_0000_0000_0000_0000nat
}

/// 2 to the power 251.
pub open spec fn element_upper_bound() -> nat {
    0x800_0000_0000_0000_0000_0000_0000_0000_0000_0000_0000_0000_0000_0000_0000_0000nat
}

/// A field element, held as the high and the low half of its 256 bits.
#[derive(Clone, Copy, Debug, Default, PartialEq, Eq, Hash, PartialOrd, Ord, Structural)]
pub struct StarkFelt {
    pub hi: u128,
    pub lo: u128,
}

/// A hash is a field element.
pub type StarkHash = StarkFelt;

impl DeepView for StarkFelt {
    type V = StarkFelt;

    open spec fn deep_view(&self) -> StarkFelt {
        *self
    }
}

impl StarkFelt {
    /// The number that the element stands for.
    pub open spec fn value(self) -> nat {
        (self.hi * 0x1_0000_0000_0000_0000_0000_0000_0000_0000 + self.lo) as nat
    }

    /// The 32 bytes of the element, most significant first.
    pub open spec fn bytes(self) -> Seq<u8> {
        be_bytes(self.hi as nat, 16) + be_bytes(self.lo as nat, 16)
    }

    /// The element that 32 bytes spell, most significant first.
    pub open spec fn of_bytes(s: Seq<u8>) -> StarkFelt {
        StarkFelt {
            hi: be_value(s.subrange(0, 16)) as u128,
            lo: be_value(s.subrange(16, 32)) as u128,
        }
    }

    /// The bytes of an element are 32, and spell the element.
    pub proof fn lemma_of_bytes(self)
        ensures
            self.bytes().len() == 32,
            Self::of_bytes(self.bytes()) == self,
    {
        lemma_pow256_16();
        lemma_be_bytes_len(self.hi as nat, 16);
        lemma_be_bytes_len(self.lo as nat, 16);
        lemma_be_value_of_bytes(self.hi as nat, 16);
        lemma_be_value_of_bytes(self.lo as nat, 16);
        assert(self.bytes().subrange(0, 16) == be_bytes(self.hi as nat, 16));
        assert(self.bytes().subrange(16, 32) == be_bytes(self.lo as nat, 16));
    }

    /// 32 bytes are the bytes of the element that they spell.
    pub proof fn lemma_bytes_of(s: Seq<u8>)
        requires
            s.len() == 32,
        ensures
            Self::of_bytes(s).bytes() == s,
    {
        lemma_pow256_16();
        lemma_be_value_bound(s.subrange(0, 16));
        lemma_be_value_bound(s.subrange(16, 32));
        lemma_be_bytes_of_value(s.subrange(0, 16));
        lemma_be_bytes_of_value(s.subrange(16, 32));
        assert(s.subrange(0, 16) + s.subrange(16, 32) == s);
    }

    /// Whether the value is below the prime of the field, so that the
    /// element stands for a member of the field.
    pub open spec fn is_canonical(self) -> bool {
        self.value() < stark_prime()
    }

    /// Whether the value is below 2 to the power 251, the bound of what can
    /// be signed and of the parts of a signature.
    pub open spec fn is_below_bound(self) -> bool {
        self.value() < element_upper_bound()
    }

    /// Whether the element stands for a member of the field.
    pub fn canonical(&self) -> (b: bool)
        ensures
            b == self.is_canonical(),
    {
        self.hi < 0x0800_0000_0000_0011_0000_0000_0000_0000 || (self.hi
            == 0x0800_0000_0000_0011_0000_0000_0000_0000 && self.lo == 0)
    }

    /// Whether the value is below 2 to the power 251.
    pub fn below_bound(&self) -> (b: bool)
        ensures
            b == self.is_below_bound(),
    {
        self.hi < 0x0800_0000_0000_0000_0000_0000_0000_0000
    }

    /// Whether the value is zero.
    pub fn is_zero(&self) -> (b: bool)
        ensures
            b == (self.value() == 0),
    {
        self.hi == 0 && self.lo == 0
    }

    /// The 32 bytes of the element, most significant first.
    pub fn to_be_bytes(&self) -> (out: [u8; 32])
        ensures
            out@ == self.bytes(),
    {
        let mut bytes: Vec<u8> = Vec::new();
        self.encode_to(&mut bytes);
        proof {
            self.lemma_of_bytes();
            assert(Seq::<u8>::empty() + self.bytes() == self.bytes());
        }
        let mut out: [u8; 32] = [0u8; 32];
        let mut i: usize = 0;
        while i < 32
            invariant
                i <= 32,
                bytes@.len() == 32,
                forall|j: int| 0 <= j < i ==> out@[j] == bytes@[j],
            decreases 32 - i,
        {
            out[i] = bytes[i];
            i += 1;
        }
        assert(out@ == bytes@);
        out
    }

    /// The element that 32 bytes spell, most significant first.
    pub fn from_be_bytes(bytes: &[u8; 32]) -> (felt: StarkFelt)
        ensures
            felt == Self::of_bytes(bytes@),
    {
        let slice = bytes.as_slice();
        assert(slice@.subrange(0, 16) == bytes@.subrange(0, 16));
        assert(slice@.subrange(16, 32) == bytes@.subrange(16, 32));
        let hi: u128 = read_be(slice, 0, 16);
        let lo: u128 = read_be(slice, 16, 16);
        StarkFelt { hi, lo }
    }

    /// The hexadecimal text of the element: `0x` and the digits of its
    /// value in lower case, without leading zeros.
    pub open spec fn spec_hex_text(self) -> Seq<char> {
        ascii_text(seq![48u8, 120u8] + hex_digits(self.value()))
    }

    /// The hexadecimal text of the element.
    pub fn hex_text(&self) -> (text: String)
        ensures
            text@ == self.spec_hex_text(),
    {
        let mut codes: Vec<u8> = Vec::new();
        codes.push(48);
        codes.push(120);
        if self.hi == 0 {
            push_hex_digits_wide(self.lo, &mut codes);
        } else {
            push_hex_digits_wide(self.hi, &mut codes);
            push_padded_hex_digits(self.lo, 32, &mut codes);
            proof {
                lemma_pow16_32();
                lemma_hex_digits_split(self.hi as nat, self.lo as nat, 32);
                assert(self.value() == self.hi as nat * pow16(32) + self.lo as nat)
                    by (nonlinear_arith)
                    requires
                        self.value() == self.hi * 0x1_0000_0000_0000_0000_0000_0000_0000_0000
                            + self.lo,
                        pow16(32) == 0x1_0000_0000_0000_0000_0000_0000_0000_0000,
                ;
                assert(codes@ == seq![48u8, 120u8] + (hex_digits(self.hi as nat)
                    + padded_hex_digits(self.lo as nat, 32)));
            }
        }
        proof {
            let digits = hex_digits(self.value());
            assert(codes@ == seq![48u8, 120u8] + digits);
            lemma_hex_digits_ascii(self.value(), 0);
            assert forall|i: int| 0 <= i < codes@.len() implies #[trigger] codes@[i] < 128 by {
                if i >= 2 {
                    assert(codes@[i] == digits[i - 2]);
                }
            }
        }
        text_of_ascii(codes)
    }

    /// The element that 32 bytes spell, most significant first, if the
    /// high four bits are zero; otherwise the value is out of range.
    pub fn new(bytes: [u8; 32]) -> (r: Result<StarkFelt, StarknetApiError>)
        ensures
            match r {
                Ok(felt) => bytes@[0] < 0x10 && felt == Self::of_bytes(bytes@),
                Err(e) => bytes@[0] >= 0x10 && (e matches StarknetApiError::OutOfRange { string }
                    && string@ == Self::of_bytes(bytes@).spec_hex_text()),
            },
    {
        let felt = Self::from_be_bytes(&bytes);
        if bytes[0] < 0x10 {
            Ok(felt)
        } else {
            Err(StarknetApiError::OutOfRange { string: felt.hex_text() })
        }
    }

    /// The element whose value is `v`.
    pub fn from_u128(v: u128) -> (r: StarkFelt)
        ensures
            r == (StarkFelt { hi: 0, lo: v }),
            r.value() == v,
    {
        StarkFelt { hi: 0, lo: v }
    }

    /// Whether two elements are the same.
    pub fn same(&self, other: &StarkFelt) -> (b: bool)
        ensures
            b == (*self == *other),
    {
        self.hi == other.hi && self.lo == other.lo
    }
}

impl From<u128> for StarkFelt {
    fn from(v: u128) -> (r: StarkFelt) {
        StarkFelt { hi: 0, lo: v }
    }
}

impl FromSpecImpl<u128> for StarkFelt {
    open spec fn obeys_from_spec() -> bool {
        true
    }

    open spec fn from_spec(v: u128) -> StarkFelt {
        StarkFelt { hi: 0, lo: v }
    }
}

impl From<u64> for StarkFelt {
    fn from(v: u64) -> (r: StarkFelt) {
        StarkFelt { hi: 0, lo: v as u128 }
    }
}

impl FromSpecImpl<u64> for StarkFelt {
    open spec fn obeys_from_spec() -> bool {
        true
    }

    open spec fn from_spec(v: u64) -> StarkFelt {
        StarkFelt { hi: 0, lo: v as u128 }
    }
}

impl From<u32> for StarkFelt {
    fn from(v: u32) -> (r: StarkFelt) {
        StarkFelt { hi: 0, lo: v as u128 }
    }
}

impl FromSpecImpl<u32> for StarkFelt {
    open spec fn obeys_from_spec() -> bool {
        true
    }

    open spec fn from_spec(v: u32) -> StarkFelt {
        StarkFelt { hi: 0, lo: v as u128 }
    }
}

impl From<u16> for StarkFelt {
    fn from(v: u16) -> (r: StarkFelt) {
        StarkFelt { hi: 0, lo: v as u128 }
    }
}

impl FromSpecImpl<u16> for StarkFelt {
    open spec fn obeys_from_spec() -> bool {
        true
    }

    open spec fn from_spec(v: u16) -> StarkFelt {
        StarkFelt { hi: 0, lo: v as u128 }
    }
}

impl From<u8> for StarkFelt {
    fn from(v: u8) -> (r: StarkFelt) {
        StarkFelt { hi: 0, lo: v as u128 }
    }
}

impl FromSpecImpl<u8> for StarkFelt {
    open spec fn obeys_from_spec() -> bool {
        true
    }

    open spec fn from_spec(v: u8) -> StarkFelt {
        StarkFelt { hi: 0, lo: v as u128 }
    }
}

impl Codec for StarkFelt {
    open spec fn wf(m: StarkFelt) -> bool {
        true
    }

    open spec fn wire(m: StarkFelt) -> Seq<u8> {
        m.bytes()
    }

    open spec fn parse(s: Seq<u8>) -> Parsed<StarkFelt> {
        if s.len() < 32 {
            Err(CodecError::Truncated)
        } else {
            Ok((StarkFelt::of_bytes(s.take(32)), 32))
        }
    }

    proof fn lemma_parse_bounds(s: Seq<u8>) {
    }

    proof fn lemma_parse_wire(m: StarkFelt, rest: Seq<u8>) {
        m.lemma_of_bytes();
        assert((m.bytes() + rest).take(32) == m.bytes());
    }

    fn encode_to(&self, dest: &mut Vec<u8>) {
        let ghost start = dest@;
        push_be(self.hi, 16, dest);
        push_be(self.lo, 16, dest);
        assert(dest@ == start + (be_bytes(self.hi as nat, 16) + be_bytes(self.lo as nat, 16)));
    }

    fn decode_at(input: &[u8], pos: usize) -> (r: Result<(Self, usize), CodecError>) {
        if input.len() - pos < 32 {
            return Err(CodecError::Truncated);
        }
        let ghost s = input@.skip(pos as int).take(32);
        assert(s.subrange(0, 16) == input@.subrange(pos as int, pos + 16));
        assert(s.subrange(16, 32) == input@.subrange(pos + 16, pos + 16 + 16));
        let hi: u128 = read_be(input, pos, 16);
        let lo: u128 = read_be(input, pos + 16, 16);
        Ok((StarkFelt { hi, lo }, pos + 32))
    }
}

/// The bytes of a text behind every `0x` that it starts with.
pub open spec fn trim_hex_prefixes(codes: Seq<u8>) -> Seq<u8>
    decreases codes.len(),
{
    if codes.len() >= 2 && codes[0] == 48 && codes[1] == 120 {
        trim_hex_prefixes(codes.skip(2))
    } else {
        codes
    }
}

/// The place in a text behind every `0x` that it starts with.
pub fn hex_prefix_end(codes: &[u8]) -> (start: usize)
    ensures
        start <= codes.len(),
        codes@.skip(start as int) == trim_hex_prefixes(codes@),
{
    let mut start: usize = 0;
    assert(codes@.skip(0) == codes@);
    while codes.len() - start >= 2 && codes[start] == 48 && codes[start + 1] == 120
        invariant
            start <= codes.len(),
            trim_hex_prefixes(codes@) == trim_hex_prefixes(codes@.skip(start as int)),
        decreases codes.len() - start,
    {
        assert(codes@.skip(start as int).skip(2) == codes@.skip(start + 2));
        start += 2;
    }
    start
}

/// What a hexadecimal text is as a field element.
pub enum HexFelt {
    /// The element whose value the digits spell.
    Element(StarkFelt),
    /// The digits spell a value that is not below 2 to the power 252.
    OutOfRange(StarkFelt),
    /// There are more than 64 digits.
    TooLong,
    /// A character is no hexadecimal digit.
    NoDigit,
}

/// The element whose value is `n`, for a value of 256 bits.
pub open spec fn felt_of_value(n: nat) -> StarkFelt {
    StarkFelt {
        hi: (n / 0x1_0000_0000_0000_0000_0000_0000_0000_0000nat) as u128,
        lo: (n % 0x1_0000_0000_0000_0000_0000_0000_0000_0000nat) as u128,
    }
}

/// What the digits behind the `0x` of a text are as a field element.
pub open spec fn spec_hex_felt(hex_str: Seq<char>) -> HexFelt {
    let digits = trim_hex_prefixes(encode_utf8(hex_str));
    if digits.len() > 64 {
        HexFelt::TooLong
    } else {
        match hex_number(digits) {
            None => HexFelt::NoDigit,
            Some(n) => if n < felt_upper_bound() {
                HexFelt::Element(felt_of_value(n))
            } else {
                HexFelt::OutOfRange(felt_of_value(n))
            },
        }
    }
}

impl StarkFelt {
    /// What the digits behind the `0x` of a text are as a field element.
    pub fn read_hex(hex_str: &str) -> (r: HexFelt)
        ensures
            r == spec_hex_felt(hex_str@),
    {
        let codes = hex_str.as_bytes();
        let start = hex_prefix_end(codes);
        let ghost digits = codes@.skip(start as int);
        if codes.len() - start > 64 {
            return HexFelt::TooLong;
        }
        let mut hi: u128 = 0;
        let mut lo: u128 = 0;
        let mut i: usize = start;
        assert(digits.take(0) == Seq::<u8>::empty());
        proof {
            lemma_pow16_63();
        }
        while i < codes.len()
            invariant
                start <= i <= codes.len(),
                codes.len() - start <= 64,
                digits == codes@.skip(start as int),
                digits == trim_hex_prefixes(encode_utf8(hex_str@)),
                hex_number(digits.take(i - start)) == Some(
                    (hi * 0x1_0000_0000_0000_0000_0000_0000_0000_0000nat + lo) as nat,
                ),
                pow16(63) == felt_upper_bound(),
                forall|a: nat, b: nat| a <= b ==> #[trigger] pow16(a) <= #[trigger] pow16(b),
            decreases codes.len() - i,
        {
            let code: u8 = codes[i];
            let ghost now = digits.take(i + 1 - start);
            proof {
                assert(now.drop_last() == digits.take(i - start));
                assert(now.last() == code);
                lemma_hex_number_bound(digits.take(i - start));
                assert(pow16((i - start) as nat) <= pow16(63));
            }
            let d: u128 = if 48 <= code && code <= 57 {
                (code - 48) as u128
            } else if 97 <= code && code <= 102 {
                (code - 87) as u128
            } else if 65 <= code && code <= 70 {
                (code - 55) as u128
            } else {
                proof {
                    lemma_hex_number_none(digits, (i + 1 - start) as int);
                    assert(digits.take(digits.len() as int) == digits);
                }
                return HexFelt::NoDigit;
            };
            let carry: u128 = lo / 0x1000_0000_0000_0000_0000_0000_0000_0000;
            let low: u128 = lo % 0x1000_0000_0000_0000_0000_0000_0000_0000;
            hi = hi * 16 + carry;
            lo = low * 16 + d;
            i += 1;
        }
        assert(digits.take(i - start) == digits);
        let felt = StarkFelt { hi, lo };
        if hi < 0x1000_0000_0000_0000_0000_0000_0000_0000 {
            HexFelt::Element(felt)
        } else {
            HexFelt::OutOfRange(felt)
        }
    }

    /// The element that a hexadecimal text spells, with or without `0x`
    /// before its digits. More than 64 digits are bad input; a value that
    /// is not below 2 to the power 252 is out of range.
    pub fn try_from(hex_str: &str) -> (r: Result<StarkFelt, StarknetApiError>)
        ensures
            match r {
                Ok(felt) => spec_hex_felt(hex_str@) == HexFelt::Element(felt),
                Err(StarknetApiError::OutOfRange { string }) => spec_hex_felt(
                    hex_str@,
                ) matches HexFelt::OutOfRange(felt) && string@ == felt.spec_hex_text(),
                Err(StarknetApiError::InnerDeserialization(e)) => match e {
                    InnerDeserializationError::BadInput { expected_byte_count, string_found } =>
                        spec_hex_felt(hex_str@) == HexFelt::TooLong && expected_byte_count == 32
                            && string_found@ == hex_str@,
                    InnerDeserializationError::InvalidHex { hex_str: found } => spec_hex_felt(
                        hex_str@,
                    ) == HexFelt::NoDigit && found@ == hex_str@,
                    InnerDeserializationError::MissingPrefix { .. } => false,
                },
                Err(StarknetApiError::ParseIntError(_)) => false,
            },
    {
        match Self::read_hex(hex_str) {
            HexFelt::Element(felt) => Ok(felt),
            HexFelt::OutOfRange(felt) => Err(
                StarknetApiError::OutOfRange { string: felt.hex_text() },
            ),
            HexFelt::TooLong => Err(
                StarknetApiError::InnerDeserialization(
                    InnerDeserializationError::BadInput {
                        expected_byte_count: 32,
                        string_found: hex_str.to_string(),
                    },
                ),
            ),
            HexFelt::NoDigit => Err(
                StarknetApiError::InnerDeserialization(
                    InnerDeserializationError::InvalidHex { hex_str: hex_str.to_string() },
                ),
            ),
        }
    }
}

/// Where the first `k` characters spell no number, the whole text spells
/// none.
pub proof fn lemma_hex_number_none(codes: Seq<u8>, k: int)
    requires
        0 <= k <= codes.len(),
        hex_number(codes.take(k)) is None,
    ensures
        hex_number(codes) is None,
    decreases codes.len() - k,
{
    if k < codes.len() {
        assert(codes.take(k + 1).drop_last() == codes.take(k));
        lemma_hex_number_none(codes, k + 1);
    } else {
        assert(codes.take(k) == codes);
    }
}

/// A hash of the Poseidon function.
#[derive(Clone, Copy, Debug, Default, PartialEq, Eq, Hash, PartialOrd, Ord, Structural)]
pub struct PoseidonHash(pub StarkFelt);

/// The Poseidon hash of a sequence of members of the field.
pub uninterp spec fn spec_poseidon_hash(felts: Seq<StarkFelt>) -> StarkFelt;

/// Each element stands for a member of the field.
pub open spec fn all_canonical(felts: Seq<StarkFelt>) -> bool {
    forall|i: int| 0 <= i < felts.len() ==> (#[trigger] felts[i]).is_canonical()
}

/// `starknet_crypto::poseidon_hash_many` on the members of the field that
/// the elements stand for: the hash is a function of the elements alone.
/// The elements must be canonical, since the conversion to a member of the
/// field fails on any other.
#[verifier::external_body]
fn poseidon_hash_many(felts: &[StarkFelt]) -> (hash: StarkFelt)
    requires
        all_canonical(felts@),
    ensures
        hash == spec_poseidon_hash(felts@),
{
    let members: Vec<starknet_crypto::FieldElement> = felts.iter().map(
        |felt| starknet_crypto::FieldElement::from_bytes_be(&felt.to_be_bytes()).unwrap(),
    ).collect();
    StarkFelt::from_be_bytes(&starknet_crypto::poseidon_hash_many(&members).to_bytes_be())
}

/// The Poseidon hash of the elements, in their order.
pub fn poseidon_hash_array(felts: &[StarkFelt]) -> (hash: PoseidonHash)
    requires
        all_canonical(felts@),
    ensures
        hash.0 == spec_poseidon_hash(felts@),
{
    PoseidonHash(poseidon_hash_many(felts))
}

} // verus!
