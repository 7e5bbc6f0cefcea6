//! The wire codec shared by every entity: its failure modes, the `Codec`
//! capability, and the codecs of the building blocks (fixed-width integers,
//! pairs, length-prefixed sequences).

use vstd::prelude::*;
use vstd::utf8::{
    decode_utf8, decode_utf8_encode_utf8, encode_utf8, encode_utf8_decode_utf8,
    encode_utf8_valid_utf8, valid_utf8,
};
use crate::compact::{
    decode_uint, encode_uint, le_bytes, le_value, lemma_decode_encode_uint,
    lemma_encode_decode_uint, lemma_le_value_bound, lemma_le_value_of_bytes,
    lemma_pow256_values, spec_decode_uint, spec_encode_uint,
};

verus! {

/// Why a byte string is not the encoding of a value.
#[derive(Clone, Copy, Debug, PartialEq, Eq, Structural)]
pub enum CodecError {
    /// The input ends before the value is complete.
    Truncated,
    /// A wide integer announces more bytes than the integer type can hold.
    InvalidWidth,
    /// An integer is written in a wider form than its value needs.
    NonMinimal,
    /// A length prefix announces more than the bytes that are left.
    LengthOutOfBounds,
    /// A tag byte names no variant.
    InvalidDiscriminant,
    /// The bytes of a text are not UTF-8.
    InvalidUtf8,
    /// A text that should be JSON is none, or lacks the member that the
    /// field names.
    InvalidJson(JsonField),
}

/// The field that a JSON text failed on: a value that is carried as JSON,
/// or a member that a legacy program must have.
#[derive(Clone, Copy, Debug, PartialEq, Eq, Structural)]
pub enum JsonField {
    /// A full state diff: its text is no JSON.
    StateDiff,
    /// A legacy contract class: its text is no JSON.
    ContractClass,
    /// A legacy program as a whole: its text is no JSON.
    Program,
    Builtins,
    Data,
    Hints,
    Identifiers,
    MainScope,
    Prime,
    ReferenceManager,
}

/// What parsing gives: a value's model and the number of bytes it took, or
/// the reason why the bytes hold no value.
pub type Parsed<M> = Result<(M, nat), CodecError>;

/// An entity with a wire format. The format is stated over the entity's
/// model, its deep view: `wire` writes a model down, `parse` reads one from
/// the front of a byte string, and the two executable methods do the same on
/// values.
pub trait Codec: DeepView + Sized {
    /// The models that are models of a value.
    spec fn wf(m: Self::V) -> bool;

    /// The wire bytes of a model.
    spec fn wire(m: Self::V) -> Seq<u8>;

    /// The model at the front of `s` and the number of bytes it takes.
    spec fn parse(s: Seq<u8>) -> Parsed<Self::V>;

    /// What parses is well-formed, and took at least one byte and no more
    /// bytes than there are.
    proof fn lemma_parse_bounds(s: Seq<u8>)
        ensures
            Self::parse(s) matches Ok((m, n)) ==> 1 <= n <= s.len() && Self::wf(m),
    ;

    /// Parsing undoes writing, whatever follows the written bytes.
    proof fn lemma_parse_wire(m: Self::V, rest: Seq<u8>)
        requires
            Self::wf(m),
        ensures
            Self::parse(Self::wire(m) + rest) == Ok::<(Self::V, nat), CodecError>(
                (m, Self::wire(m).len()),
            ),
    ;

    /// Appends the wire bytes of `self` to `dest`.
    fn encode_to(&self, dest: &mut Vec<u8>)
        ensures
            final(dest)@ == old(dest)@ + Self::wire(self.deep_view()),
            Self::wf(self.deep_view()),
    ;

    /// Reads a value from `input` at `pos`: the value and the position
    /// behind it, or why there is none.
    fn decode_at(input: &[u8], pos: usize) -> (r: Result<(Self, usize), CodecError>)
        requires
            pos <= input.len(),
        ensures
            match r {
                Ok((v, next)) => pos <= next <= input.len() && Self::parse(
                    input@.skip(pos as int),
                ) == Ok::<(Self::V, nat), CodecError>((v.deep_view(), (next - pos) as nat)),
                Err(e) => Self::parse(input@.skip(pos as int)) == Err::<(Self::V, nat), CodecError>(
                    e,
                ),
            },
    ;
}

/// A written model is not empty.
pub proof fn lemma_wire_nonempty<T: Codec>(m: T::V)
    requires
        T::wf(m),
    ensures
        T::wire(m).len() >= 1,
{
    T::lemma_parse_wire(m, Seq::empty());
    assert(T::wire(m) + Seq::<u8>::empty() == T::wire(m));
    T::lemma_parse_bounds(T::wire(m));
}

/// The wire bytes of a value.
pub fn encode<T: Codec>(value: &T) -> (bytes: Vec<u8>)
    ensures
        bytes@ == T::wire(value.deep_view()),
        T::wf(value.deep_view()),
{
    let mut bytes: Vec<u8> = Vec::new();
    value.encode_to(&mut bytes);
    assert(Seq::<u8>::empty() + T::wire(value.deep_view()) == T::wire(value.deep_view()));
    bytes
}

/// The value at the front of `input`, or why there is none. Bytes behind the
/// value are left unread.
pub fn decode<T: Codec>(input: &[u8]) -> (r: Result<T, CodecError>)
    ensures
        match r {
            Ok(v) => T::parse(input@) matches Ok((m, n)) && m == v.deep_view(),
            Err(e) => T::parse(input@) == Err::<(T::V, nat), CodecError>(e),
        },
{
    assert(input@.skip(0) == input@);
    match T::decode_at(input, 0) {
        Ok((v, _)) => Ok(v),
        Err(e) => Err(e),
    }
}

/// A value that was written and read again: its model is that of `value`,
/// since reading undoes writing.
pub fn recode<T: Codec>(value: &T) -> (copy: T)
    ensures
        copy.deep_view() == value.deep_view(),
{
    let bytes = encode(value);
    proof {
        T::lemma_parse_wire(value.deep_view(), Seq::empty());
        assert(T::wire(value.deep_view()) + Seq::<u8>::empty() == T::wire(value.deep_view()));
    }
    match decode::<T>(bytes.as_slice()) {
        Ok(copy) => copy,
        Err(_) => vstd::pervasive::unreached(),
    }
}

// ---------------------------------------------------------------------------
// Fixed-width integers
// ---------------------------------------------------------------------------

impl Codec for u64 {
    open spec fn wf(m: u64) -> bool {
        true
    }

    /// Eight bytes, least significant first.
    open spec fn wire(m: u64) -> Seq<u8> {
        le_bytes(m as nat, 8)
    }

    open spec fn parse(s: Seq<u8>) -> Parsed<u64> {
        if s.len() < 8 {
            Err(CodecError::Truncated)
        } else {
            Ok((le_value(s.take(8)) as u64, 8))
        }
    }

    proof fn lemma_parse_bounds(s: Seq<u8>) {
    }

    proof fn lemma_parse_wire(m: u64, rest: Seq<u8>) {
        lemma_pow256_values();
        lemma_le_value_of_bytes(m as nat, 8);
        assert((le_bytes(m as nat, 8) + rest).take(8) == le_bytes(m as nat, 8));
    }

    fn encode_to(&self, dest: &mut Vec<u8>) {
        crate::compact::push_le(*self, 8, dest);
    }

    fn decode_at(input: &[u8], pos: usize) -> (r: Result<(Self, usize), CodecError>) {
        if input.len() - pos < 8 {
            return Err(CodecError::Truncated);
        }
        assert(input@.skip(pos as int).take(8) == input@.subrange(pos as int, pos + 8));
        proof {
            lemma_pow256_values();
            lemma_le_value_bound(input@.subrange(pos as int, pos + 8));
        }
        let v: u64 = crate::compact::read_le(input, pos, 8);
        Ok((v, pos + 8))
    }
}

// ---------------------------------------------------------------------------
// Pairs
// ---------------------------------------------------------------------------

/// The wire bytes of a pair: those of the first component, then those of
/// the second.
#[verifier::opaque]
pub open spec fn pair_wire<A: Codec, B: Codec>(m: (A::V, B::V)) -> Seq<u8> {
    A::wire(m.0) + B::wire(m.1)
}

/// The pair at the front of `s`: the first component, and the second behind
/// it.
#[verifier::opaque]
pub open spec fn pair_parse<A: Codec, B: Codec>(s: Seq<u8>) -> Parsed<(A::V, B::V)> {
    match A::parse(s) {
        Err(e) => Err(e),
        Ok((a, k)) => match B::parse(s.skip(k as int)) {
            Err(e) => Err(e),
            Ok((b, j)) => Ok(((a, b), k + j)),
        },
    }
}

impl<A: Codec, B: Codec> Codec for (A, B) {
    open spec fn wf(m: (A::V, B::V)) -> bool {
        A::wf(m.0) && B::wf(m.1)
    }

    open spec fn wire(m: (A::V, B::V)) -> Seq<u8> {
        pair_wire::<A, B>(m)
    }

    open spec fn parse(s: Seq<u8>) -> Parsed<(A::V, B::V)> {
        pair_parse::<A, B>(s)
    }

    proof fn lemma_parse_bounds(s: Seq<u8>) {
        reveal(pair_parse);
        A::lemma_parse_bounds(s);
        if let Ok((a, k)) = A::parse(s) {
            B::lemma_parse_bounds(s.skip(k as int));
        }
    }

    proof fn lemma_parse_wire(m: (A::V, B::V), rest: Seq<u8>) {
        reveal(pair_parse);
        reveal(pair_wire);
        let s = Self::wire(m) + rest;
        assert(s == A::wire(m.0) + (B::wire(m.1) + rest));
        A::lemma_parse_wire(m.0, B::wire(m.1) + rest);
        assert(s.skip(A::wire(m.0).len() as int) == B::wire(m.1) + rest);
        B::lemma_parse_wire(m.1, rest);
    }

    fn encode_to(&self, dest: &mut Vec<u8>) {
        encode2(&self.0, &self.1, dest);
    }

    fn decode_at(input: &[u8], pos: usize) -> (r: Result<(Self, usize), CodecError>) {
        reveal(pair_parse);
        let (a, mid) = match A::decode_at(input, pos) {
            Ok(found) => found,
            Err(e) => { return Err(e); },
        };
        assert(input@.skip(pos as int).skip(mid - pos) == input@.skip(mid as int));
        match B::decode_at(input, mid) {
            Ok((b, next)) => Ok(((a, b), next)),
            Err(e) => Err(e),
        }
    }
}

/// Appends the wire bytes of two values, as those of their pair.
pub fn encode2<A: Codec, B: Codec>(a: &A, b: &B, dest: &mut Vec<u8>)
    ensures
        final(dest)@ == old(dest)@ + <(A, B) as Codec>::wire((a.deep_view(), b.deep_view())),
        <(A, B) as Codec>::wf((a.deep_view(), b.deep_view())),
{
    reveal(pair_wire);
    let ghost start = dest@;
    a.encode_to(dest);
    b.encode_to(dest);
    assert(dest@ == start + (A::wire(a.deep_view()) + B::wire(b.deep_view())));
}

/// Appends the wire bytes of three values, as those of the first paired with
/// the pair of the others.
pub fn encode3<A: Codec, B: Codec, C: Codec>(a: &A, b: &B, c: &C, dest: &mut Vec<u8>)
    ensures
        final(dest)@ == old(dest)@ + <(A, (B, C)) as Codec>::wire(
            (a.deep_view(), (b.deep_view(), c.deep_view())),
        ),
        <(A, (B, C)) as Codec>::wf((a.deep_view(), (b.deep_view(), c.deep_view()))),
{
    reveal(pair_wire);
    let ghost start = dest@;
    a.encode_to(dest);
    encode2(b, c, dest);
    let ghost tail = <(B, C) as Codec>::wire((b.deep_view(), c.deep_view()));
    assert(dest@ == start + (A::wire(a.deep_view()) + tail));
}

/// Appends the wire bytes of four values, as those of nested pairs.
pub fn encode4<A: Codec, B: Codec, C: Codec, D: Codec>(
    a: &A,
    b: &B,
    c: &C,
    d: &D,
    dest: &mut Vec<u8>,
)
    ensures
        final(dest)@ == old(dest)@ + <(A, (B, (C, D))) as Codec>::wire(
            (a.deep_view(), (b.deep_view(), (c.deep_view(), d.deep_view()))),
        ),
        <(A, (B, (C, D))) as Codec>::wf(
            (a.deep_view(), (b.deep_view(), (c.deep_view(), d.deep_view()))),
        ),
{
    reveal(pair_wire);
    let ghost start = dest@;
    a.encode_to(dest);
    encode3(b, c, d, dest);
    let ghost tail = <(B, (C, D)) as Codec>::wire(
        (b.deep_view(), (c.deep_view(), d.deep_view())),
    );
    assert(dest@ == start + (A::wire(a.deep_view()) + tail));
}

/// Appends the wire bytes of six values, as those of nested pairs.
pub fn encode6<A: Codec, B: Codec, C: Codec, D: Codec, E: Codec, F: Codec>(
    a: &A,
    b: &B,
    c: &C,
    d: &D,
    e: &E,
    f: &F,
    dest: &mut Vec<u8>,
)
    ensures
        final(dest)@ == old(dest)@ + <(A, (B, (C, (D, (E, F))))) as Codec>::wire(
            (
                a.deep_view(),
                (b.deep_view(), (c.deep_view(), (d.deep_view(), (e.deep_view(), f.deep_view())))),
            ),
        ),
        <(A, (B, (C, (D, (E, F))))) as Codec>::wf(
            (
                a.deep_view(),
                (b.deep_view(), (c.deep_view(), (d.deep_view(), (e.deep_view(), f.deep_view())))),
            ),
        ),
{
    reveal(pair_wire);
    let ghost start = dest@;
    a.encode_to(dest);
    let ghost mid = dest@;
    b.encode_to(dest);
    encode4(c, d, e, f, dest);
    let ghost tail = <(C, (D, (E, F))) as Codec>::wire(
        (c.deep_view(), (d.deep_view(), (e.deep_view(), f.deep_view()))),
    );
    assert(dest@ == mid + (B::wire(b.deep_view()) + tail));
    assert(dest@ == start + (A::wire(a.deep_view()) + (B::wire(b.deep_view()) + tail)));
}

// ---------------------------------------------------------------------------
// Sequences
// ---------------------------------------------------------------------------

/// The wire bytes of the models of `ms`, one behind the other, in order.
pub open spec fn wire_all<T: Codec>(ms: Seq<T::V>) -> Seq<u8>
    decreases ms.len(),
{
    if ms.len() == 0 {
        Seq::empty()
    } else {
        wire_all::<T>(ms.drop_last()) + T::wire(ms.last())
    }
}

/// The first `n` models that follow one another from the front of `s`.
pub open spec fn parse_all<T: Codec>(s: Seq<u8>, n: nat) -> Parsed<Seq<T::V>>
    decreases n,
{
    if n == 0 {
        Ok((Seq::empty(), 0))
    } else {
        match parse_all::<T>(s, (n - 1) as nat) {
            Err(e) => Err(e),
            Ok((ms, k)) => match T::parse(s.skip(k as int)) {
                Err(e) => Err(e),
                Ok((m, j)) => Ok((ms.push(m), k + j)),
            },
        }
    }
}

/// Each model of `ms` is well-formed.
pub open spec fn all_wf<T: Codec>(ms: Seq<T::V>) -> bool {
    forall|i: int| 0 <= i < ms.len() ==> T::wf(#[trigger] ms[i])
}

/// The wire bytes of a sequence: its length as a compact integer, then its
/// elements in order.
pub open spec fn wire_seq<T: Codec>(ms: Seq<T::V>) -> Seq<u8> {
    spec_encode_uint(ms.len() as u64) + wire_all::<T>(ms)
}

/// The sequence at the front of `s`. A length that exceeds the bytes behind
/// it is refused before any element is read.
pub open spec fn parse_seq<T: Codec>(s: Seq<u8>) -> Parsed<Seq<T::V>> {
    match spec_decode_uint(s) {
        Err(e) => Err(e),
        Ok((n, k)) => if n > s.len() - k {
            Err(CodecError::LengthOutOfBounds)
        } else {
            match parse_all::<T>(s.skip(k as int), n as nat) {
                Err(e) => Err(e),
                Ok((ms, j)) => Ok((ms, k + j)),
            }
        },
    }
}

/// `n` parsed models are `n` well-formed models, and took at least `n`
/// bytes and no more bytes than there are.
pub proof fn lemma_parse_all_bounds<T: Codec>(s: Seq<u8>, n: nat)
    ensures
        parse_all::<T>(s, n) matches Ok((ms, k)) ==> ms.len() == n && n <= k <= s.len()
            && all_wf::<T>(ms),
    decreases n,
{
    if n > 0 {
        lemma_parse_all_bounds::<T>(s, (n - 1) as nat);
        if let Ok((ms, k)) = parse_all::<T>(s, (n - 1) as nat) {
            T::lemma_parse_bounds(s.skip(k as int));
        }
    }
}

/// Where the first `i` models do not parse, no more of them do, for the
/// same reason.
pub proof fn lemma_parse_all_fails<T: Codec>(s: Seq<u8>, i: nat, n: nat)
    requires
        i <= n,
        parse_all::<T>(s, i) is Err,
    ensures
        parse_all::<T>(s, n) == parse_all::<T>(s, i),
    decreases n,
{
    if i < n {
        lemma_parse_all_fails::<T>(s, i, (n - 1) as nat);
    }
}

/// Written models take at least one byte each.
pub proof fn lemma_wire_all_len<T: Codec>(ms: Seq<T::V>)
    requires
        all_wf::<T>(ms),
    ensures
        wire_all::<T>(ms).len() >= ms.len(),
    decreases ms.len(),
{
    if ms.len() > 0 {
        lemma_wire_all_len::<T>(ms.drop_last());
        lemma_wire_nonempty::<T>(ms.last());
    }
}

/// Parsing as many models as were written gives them back, whatever follows.
pub proof fn lemma_parse_all_wire<T: Codec>(ms: Seq<T::V>, rest: Seq<u8>)
    requires
        all_wf::<T>(ms),
    ensures
        parse_all::<T>(wire_all::<T>(ms) + rest, ms.len()) == Ok::<(Seq<T::V>, nat), CodecError>(
            (ms, wire_all::<T>(ms).len()),
        ),
    decreases ms.len(),
{
    if ms.len() == 0 {
        assert(ms == Seq::<T::V>::empty());
    } else {
        let front = ms.drop_last();
        let s = wire_all::<T>(ms) + rest;
        assert(s == wire_all::<T>(front) + (T::wire(ms.last()) + rest));
        lemma_parse_all_wire::<T>(front, T::wire(ms.last()) + rest);
        assert(s.skip(wire_all::<T>(front).len() as int) == T::wire(ms.last()) + rest);
        T::lemma_parse_wire(ms.last(), rest);
        assert(front.push(ms.last()) == ms);
    }
}

/// A parsed sequence is well-formed, and took at least one byte and no more
/// bytes than there are.
pub proof fn lemma_parse_seq_bounds<T: Codec>(s: Seq<u8>)
    ensures
        parse_seq::<T>(s) matches Ok((ms, n)) ==> 1 <= n <= s.len() && all_wf::<T>(ms)
            && ms.len() <= u64::MAX,
{
    lemma_encode_decode_uint(s);
    if let Ok((n, k)) = spec_decode_uint(s) {
        lemma_parse_all_bounds::<T>(s.skip(k as int), n as nat);
    }
}

/// Parsing a written sequence gives it back, in its order, whatever follows.
pub proof fn lemma_parse_seq_wire<T: Codec>(ms: Seq<T::V>, rest: Seq<u8>)
    requires
        all_wf::<T>(ms),
        ms.len() <= u64::MAX,
    ensures
        parse_seq::<T>(wire_seq::<T>(ms) + rest) == Ok::<(Seq<T::V>, nat), CodecError>(
            (ms, wire_seq::<T>(ms).len()),
        ),
{
    let head = spec_encode_uint(ms.len() as u64);
    let s = wire_seq::<T>(ms) + rest;
    assert(s == head + (wire_all::<T>(ms) + rest));
    lemma_decode_encode_uint(ms.len() as u64, wire_all::<T>(ms) + rest);
    assert(s.skip(head.len() as int) == wire_all::<T>(ms) + rest);
    lemma_wire_all_len::<T>(ms);
    lemma_parse_all_wire::<T>(ms, rest);
}

/// Appends to `dest` the length of `items` and then each item, in order.
pub fn encode_sequence<T: Codec>(items: &Vec<T>, dest: &mut Vec<u8>)
    ensures
        final(dest)@ == old(dest)@ + wire_seq::<T>(items.deep_view()),
        all_wf::<T>(items.deep_view()),
        items.deep_view().len() == items.len(),
{
    let ghost start = dest@;
    let ghost ms = items.deep_view();
    encode_uint(items.len() as u64, dest);
    let ghost head = dest@;
    let mut i: usize = 0;
    assert(wire_all::<T>(ms.take(0)) == Seq::<u8>::empty());
    assert(head + Seq::<u8>::empty() == head);
    while i < items.len()
        invariant
            i <= items.len(),
            ms == items.deep_view(),
            dest@ == head + wire_all::<T>(ms.take(i as int)),
            all_wf::<T>(ms.take(i as int)),
        decreases items.len() - i,
    {
        let ghost before = dest@;
        items[i].encode_to(dest);
        proof {
            let now = ms.take(i + 1);
            assert(now.drop_last() == ms.take(i as int));
            assert(now.last() == items[i as int].deep_view());
            assert(dest@ == head + (wire_all::<T>(ms.take(i as int)) + T::wire(now.last())));
            assert forall|j: int| 0 <= j < now.len() implies T::wf(#[trigger] now[j]) by {
                if j < i {
                    assert(now[j] == ms.take(i as int)[j]);
                }
            }
        }
        i += 1;
    }
    assert(ms.take(i as int) == ms);
    assert(dest@ == start + (spec_encode_uint(ms.len() as u64) + wire_all::<T>(ms)));
}

/// Reads a sequence from `input` at `pos`: its items in order and the
/// position behind the last, or why there is none.
pub fn decode_sequence<T: Codec>(input: &[u8], pos: usize) -> (r: Result<
    (Vec<T>, usize),
    CodecError,
>)
    requires
        pos <= input.len(),
    ensures
        match r {
            Ok((items, next)) => pos <= next <= input.len() && parse_seq::<T>(
                input@.skip(pos as int),
            ) == Ok::<(Seq<T::V>, nat), CodecError>((items.deep_view(), (next - pos) as nat)),
            Err(e) => parse_seq::<T>(input@.skip(pos as int)) == Err::<
                (Seq<T::V>, nat),
                CodecError,
            >(e),
        },
{
    let ghost s = input@.skip(pos as int);
    let (count, first) = match decode_uint(input, pos) {
        Ok(found) => found,
        Err(e) => { return Err(e); },
    };
    if count > (input.len() - first) as u64 {
        return Err(CodecError::LengthOutOfBounds);
    }
    let ghost body = s.skip(first - pos);
    assert(body == input@.skip(first as int));
    let mut items: Vec<T> = Vec::new();
    let mut at: usize = first;
    let mut i: u64 = 0;
    assert(items.deep_view() == Seq::<T::V>::empty());
    while i < count
        invariant
            i <= count,
            pos <= first <= at <= input.len(),
            s == input@.skip(pos as int),
            body == input@.skip(first as int),
            body == s.skip(first - pos),
            spec_decode_uint(s) == Ok::<(u64, nat), CodecError>((count, (first - pos) as nat)),
            count <= s.len() - (first - pos),
            parse_all::<T>(body, i as nat) == Ok::<(Seq<T::V>, nat), CodecError>(
                (items.deep_view(), (at - first) as nat),
            ),
        decreases count - i,
    {
        assert(body.skip(at - first) == input@.skip(at as int));
        match T::decode_at(input, at) {
            Ok((item, next)) => {
                let ghost before = items.deep_view();
                items.push(item);
                assert(items.deep_view() == before.push(item.deep_view()));
                at = next;
            },
            Err(e) => {
                proof {
                    lemma_parse_all_fails::<T>(body, (i + 1) as nat, count as nat);
                }
                return Err(e);
            },
        }
        i += 1;
    }
    Ok((items, at))
}

impl<T: Codec> Codec for Vec<T> {
    open spec fn wf(m: Seq<T::V>) -> bool {
        all_wf::<T>(m) && m.len() <= u64::MAX
    }

    open spec fn wire(m: Seq<T::V>) -> Seq<u8> {
        wire_seq::<T>(m)
    }

    open spec fn parse(s: Seq<u8>) -> Parsed<Seq<T::V>> {
        parse_seq::<T>(s)
    }

    proof fn lemma_parse_bounds(s: Seq<u8>) {
        lemma_parse_seq_bounds::<T>(s);
    }

    proof fn lemma_parse_wire(m: Seq<T::V>, rest: Seq<u8>) {
        lemma_parse_seq_wire::<T>(m, rest);
    }

    fn encode_to(&self, dest: &mut Vec<u8>) {
        encode_sequence(self, dest);
    }

    fn decode_at(input: &[u8], pos: usize) -> (r: Result<(Self, usize), CodecError>) {
        decode_sequence(input, pos)
    }
}

// ---------------------------------------------------------------------------
// Byte strings and texts
// ---------------------------------------------------------------------------

/// The wire bytes of a byte string: its length as a compact integer, then
/// the bytes.
pub open spec fn wire_bytes(body: Seq<u8>) -> Seq<u8> {
    spec_encode_uint(body.len() as u64) + body
}

/// The byte string at the front of `s`.
pub open spec fn parse_bytes(s: Seq<u8>) -> Parsed<Seq<u8>> {
    match spec_decode_uint(s) {
        Err(e) => Err(e),
        Ok((n, k)) => if n > s.len() - k {
            Err(CodecError::LengthOutOfBounds)
        } else {
            Ok((s.subrange(k as int, k + n), (k + n) as nat))
        },
    }
}

/// Parsing a written byte string gives it back, whatever follows.
pub proof fn lemma_parse_bytes_wire(body: Seq<u8>, rest: Seq<u8>)
    requires
        body.len() <= u64::MAX,
    ensures
        parse_bytes(wire_bytes(body) + rest) == Ok::<(Seq<u8>, nat), CodecError>(
            (body, wire_bytes(body).len()),
        ),
{
    let head = spec_encode_uint(body.len() as u64);
    let s = wire_bytes(body) + rest;
    assert(s == head + (body + rest));
    lemma_decode_encode_uint(body.len() as u64, body + rest);
    assert(s.subrange(head.len() as int, (head.len() + body.len()) as int) == body);
}

/// A parsed byte string took at least one byte and no more bytes than
/// there are.
pub proof fn lemma_parse_bytes_bounds(s: Seq<u8>)
    ensures
        parse_bytes(s) matches Ok((body, n)) ==> 1 <= n <= s.len() && body.len() <= u64::MAX
            && body.len() < n,
{
    lemma_encode_decode_uint(s);
}

/// Appends each byte of `bytes` to `dest`.
pub fn push_all(bytes: &[u8], dest: &mut Vec<u8>)
    ensures
        final(dest)@ == old(dest)@ + bytes@,
{
    let ghost start = dest@;
    let mut i: usize = 0;
    assert(bytes@.take(0) == Seq::<u8>::empty());
    assert(start + Seq::<u8>::empty() == start);
    while i < bytes.len()
        invariant
            i <= bytes.len(),
            dest@ == start + bytes@.take(i as int),
        decreases bytes.len() - i,
    {
        dest.push(bytes[i]);
        assert(bytes@.take(i + 1) == bytes@.take(i as int).push(bytes@[i as int]));
        i += 1;
    }
    assert(bytes@.take(i as int) == bytes@);
}

/// Appends to `dest` the length of `body` and then `body`.
pub fn encode_bytes(body: &[u8], dest: &mut Vec<u8>)
    ensures
        final(dest)@ == old(dest)@ + wire_bytes(body@),
{
    let ghost start = dest@;
    encode_uint(body.len() as u64, dest);
    push_all(body, dest);
    assert(dest@ == start + (spec_encode_uint(body@.len() as u64) + body@));
}

/// Reads a byte string from `input` at `pos`: the bytes and the position
/// behind them, or why there is none.
pub fn decode_bytes(input: &[u8], pos: usize) -> (r: Result<(Vec<u8>, usize), CodecError>)
    requires
        pos <= input.len(),
    ensures
        match r {
            Ok((body, next)) => pos <= next <= input.len() && parse_bytes(input@.skip(pos as int))
                == Ok::<(Seq<u8>, nat), CodecError>((body@, (next - pos) as nat)),
            Err(e) => parse_bytes(input@.skip(pos as int)) == Err::<(Seq<u8>, nat), CodecError>(e),
        },
{
    let ghost s = input@.skip(pos as int);
    let (count, first) = match decode_uint(input, pos) {
        Ok(found) => found,
        Err(e) => { return Err(e); },
    };
    if count > (input.len() - first) as u64 {
        return Err(CodecError::LengthOutOfBounds);
    }
    let end: usize = first + count as usize;
    let mut body: Vec<u8> = Vec::new();
    push_all(vstd::slice::slice_subrange(input, first, end), &mut body);
    assert(body@ == s.subrange(first - pos, first - pos + count));
    Ok((body, end))
}

/// `String::from_utf8`: the text that the bytes spell in UTF-8, and none
/// exactly where the bytes are not UTF-8.
#[verifier::external_body]
fn string_from_utf8(bytes: Vec<u8>) -> (r: Option<String>)
    ensures
        r.is_some() == valid_utf8(bytes@),
        r matches Some(text) ==> text@ == decode_utf8(bytes@),
{
    match String::from_utf8(bytes) {
        Ok(text) => Some(text),
        Err(_) => None,
    }
}

/// The text that the bytes spell in UTF-8, or `InvalidUtf8`.
pub fn text_of_bytes(bytes: Vec<u8>) -> (r: Result<String, CodecError>)
    ensures
        match r {
            Ok(text) => valid_utf8(bytes@) && text@ == decode_utf8(bytes@),
            Err(e) => !valid_utf8(bytes@) && e == CodecError::InvalidUtf8,
        },
{
    match string_from_utf8(bytes) {
        Some(text) => Ok(text),
        None => Err(CodecError::InvalidUtf8),
    }
}

impl Codec for String {
    open spec fn wf(m: Seq<char>) -> bool {
        encode_utf8(m).len() <= u64::MAX
    }

    /// The UTF-8 bytes of the text as a byte string.
    open spec fn wire(m: Seq<char>) -> Seq<u8> {
        wire_bytes(encode_utf8(m))
    }

    open spec fn parse(s: Seq<u8>) -> Parsed<Seq<char>> {
        match parse_bytes(s) {
            Err(e) => Err(e),
            Ok((body, n)) => if valid_utf8(body) {
                Ok((decode_utf8(body), n))
            } else {
                Err(CodecError::InvalidUtf8)
            },
        }
    }

    proof fn lemma_parse_bounds(s: Seq<u8>) {
        lemma_parse_bytes_bounds(s);
        if let Ok((body, n)) = parse_bytes(s) {
            if valid_utf8(body) {
                decode_utf8_encode_utf8(body);
            }
        }
    }

    proof fn lemma_parse_wire(m: Seq<char>, rest: Seq<u8>) {
        lemma_parse_bytes_wire(encode_utf8(m), rest);
        encode_utf8_valid_utf8(m);
        encode_utf8_decode_utf8(m);
    }

    fn encode_to(&self, dest: &mut Vec<u8>) {
        let bytes = self.as_str().as_bytes();
        proof {
            vstd::slice::axiom_spec_len(bytes);
        }
        encode_bytes(bytes, dest);
    }

    fn decode_at(input: &[u8], pos: usize) -> (r: Result<(Self, usize), CodecError>) {
        let (body, next) = match decode_bytes(input, pos) {
            Ok(found) => found,
            Err(e) => { return Err(e); },
        };
        match text_of_bytes(body) {
            Ok(text) => Ok((text, next)),
            Err(e) => Err(e),
        }
    }
}

// ---------------------------------------------------------------------------
// Optional values
// ---------------------------------------------------------------------------

impl<T: Codec> Codec for Option<T> {
    open spec fn wf(m: Option<T::V>) -> bool {
        m matches Some(inner) ==> T::wf(inner)
    }

    /// One byte, 0 for none and 1 for some, and then the value if there is
    /// one.
    open spec fn wire(m: Option<T::V>) -> Seq<u8> {
        match m {
            None => seq![0u8],
            Some(inner) => seq![1u8] + T::wire(inner),
        }
    }

    open spec fn parse(s: Seq<u8>) -> Parsed<Option<T::V>> {
        if s.len() == 0 {
            Err(CodecError::Truncated)
        } else if s[0] == 0 {
            Ok((None, 1))
        } else if s[0] == 1 {
            match T::parse(s.skip(1)) {
                Err(e) => Err(e),
                Ok((inner, n)) => Ok((Some(inner), 1 + n)),
            }
        } else {
            Err(CodecError::InvalidDiscriminant)
        }
    }

    proof fn lemma_parse_bounds(s: Seq<u8>) {
        if s.len() > 0 && s[0] == 1 {
            T::lemma_parse_bounds(s.skip(1));
        }
    }

    proof fn lemma_parse_wire(m: Option<T::V>, rest: Seq<u8>) {
        match m {
            None => {
                assert((seq![0u8] + rest)[0] == 0);
            },
            Some(inner) => {
                let s = seq![1u8] + T::wire(inner) + rest;
                assert(s[0] == 1);
                assert(s.skip(1) == T::wire(inner) + rest);
                T::lemma_parse_wire(inner, rest);
            },
        }
    }

    fn encode_to(&self, dest: &mut Vec<u8>) {
        let ghost start = dest@;
        match self {
            None => {
                dest.push(0);
                assert(dest@ == start + seq![0u8]);
            },
            Some(inner) => {
                dest.push(1);
                inner.encode_to(dest);
                assert(dest@ == start + (seq![1u8] + T::wire(inner.deep_view())));
            },
        }
    }

    fn decode_at(input: &[u8], pos: usize) -> (r: Result<(Self, usize), CodecError>) {
        if pos >= input.len() {
            return Err(CodecError::Truncated);
        }
        let ghost s = input@.skip(pos as int);
        assert(s[0] == input@[pos as int]);
        let tag: u8 = input[pos];
        if tag == 0 {
            Ok((None, pos + 1))
        } else if tag == 1 {
            assert(s.skip(1) == input@.skip(pos + 1));
            match T::decode_at(input, pos + 1) {
                Ok((inner, next)) => Ok((Some(inner), next)),
                Err(e) => Err(e),
            }
        } else {
            Err(CodecError::InvalidDiscriminant)
        }
    }
}

// ---------------------------------------------------------------------------
// Tagged values
// ---------------------------------------------------------------------------

/// The wire bytes of a value behind its tag byte.
#[verifier::opaque]
pub open spec fn wire_tagged<T: Codec>(tag: u8, m: T::V) -> Seq<u8> {
    seq![tag] + T::wire(m)
}

/// The model behind the first byte of `s`, and the number of bytes that
/// the byte and the model take.
#[verifier::opaque]
pub open spec fn parse_tagged<T: Codec>(s: Seq<u8>) -> Parsed<T::V> {
    match T::parse(s.skip(1)) {
        Err(e) => Err(e),
        Ok((m, n)) => Ok((m, 1 + n)),
    }
}

/// What parses behind a tag is well-formed, and took no more bytes than
/// there are.
pub proof fn lemma_parse_tagged_bounds<T: Codec>(s: Seq<u8>)
    requires
        s.len() > 0,
    ensures
        parse_tagged::<T>(s) matches Ok((m, n)) ==> 1 <= n <= s.len() && T::wf(m),
{
    reveal(parse_tagged);
    T::lemma_parse_bounds(s.skip(1));
}

/// Parsing behind the tag undoes writing behind the tag, whatever follows.
pub proof fn lemma_parse_tagged_wire<T: Codec>(tag: u8, m: T::V, rest: Seq<u8>)
    requires
        T::wf(m),
    ensures
        (wire_tagged::<T>(tag, m) + rest).len() > 0,
        (wire_tagged::<T>(tag, m) + rest)[0] == tag,
        parse_tagged::<T>(wire_tagged::<T>(tag, m) + rest) == Ok::<(T::V, nat), CodecError>(
            (m, wire_tagged::<T>(tag, m).len()),
        ),
{
    reveal(parse_tagged);
    reveal(wire_tagged);
    let s = wire_tagged::<T>(tag, m) + rest;
    assert(s.skip(1) == T::wire(m) + rest);
    T::lemma_parse_wire(m, rest);
}

/// Appends the tag and then the wire bytes of the value.
pub fn encode_tagged<T: Codec>(tag: u8, value: &T, dest: &mut Vec<u8>)
    ensures
        final(dest)@ == old(dest)@ + wire_tagged::<T>(tag, value.deep_view()),
        T::wf(value.deep_view()),
{
    reveal(wire_tagged);
    let ghost start = dest@;
    dest.push(tag);
    value.encode_to(dest);
    assert(dest@ == start + (seq![tag] + T::wire(value.deep_view())));
}

/// Reads the value behind the tag byte at `pos`.
pub fn decode_tagged<T: Codec>(input: &[u8], pos: usize) -> (r: Result<(T, usize), CodecError>)
    requires
        pos < input.len(),
    ensures
        match r {
            Ok((v, next)) => pos < next <= input.len() && parse_tagged::<T>(
                input@.skip(pos as int),
            ) == Ok::<(T::V, nat), CodecError>((v.deep_view(), (next - pos) as nat)),
            Err(e) => parse_tagged::<T>(input@.skip(pos as int)) == Err::<(T::V, nat), CodecError>(
                e,
            ),
        },
{
    reveal(parse_tagged);
    assert(input@.skip(pos as int).skip(1) == input@.skip(pos + 1));
    T::decode_at(input, pos + 1)
}

} // verus!
