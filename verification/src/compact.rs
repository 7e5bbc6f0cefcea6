//! The compact unsigned integer: one, two, four, or up to nine bytes, the
//! width class tagged by the two low bits of the first byte.

use vstd::prelude::*;
use crate::codec::CodecError;

verus! {

/// The `len` low bytes of `n`, least significant first.
pub open spec fn le_bytes(n: nat, len: nat) -> Seq<u8>
    decreases len,
{
    if len == 0 {
        Seq::empty()
    } else {
        seq![(n % 256) as u8] + le_bytes(n / 256, (len - 1) as nat)
    }
}

/// The number that the bytes of `s` spell, least significant first.
pub open spec fn le_value(s: Seq<u8>) -> nat
    decreases s.len(),
{
    if s.len() == 0 {
        0
    } else {
        s[0] as nat + 256 * le_value(s.skip(1))
    }
}

/// The least number of bytes, four at least, that hold `n`.
pub open spec fn wide_len(n: u64) -> nat {
    if n < 0x1_0000_0000 {
        4
    } else if n < 0x100_0000_0000 {
        5
    } else if n < 0x1_0000_0000_0000 {
        6
    } else if n < 0x100_0000_0000_0000 {
        7
    } else {
        8
    }
}

/// The wire bytes of `n`: the narrowest of the four width classes.
pub open spec fn spec_encode_uint(n: u64) -> Seq<u8> {
    if n < 0x40 {
        le_bytes(4 * n as nat, 1)
    } else if n < 0x4000 {
        le_bytes((4 * n + 1) as nat, 2)
    } else if n < 0x4000_0000 {
        le_bytes((4 * n + 2) as nat, 4)
    } else {
        seq![(4 * (wide_len(n) - 4) + 3) as u8] + le_bytes(n as nat, wide_len(n))
    }
}

/// The integer at the front of `s` and the number of bytes it takes.
pub open spec fn spec_decode_uint(s: Seq<u8>) -> Result<(u64, nat), CodecError> {
    if s.len() == 0 {
        Err(CodecError::Truncated)
    } else if s[0] % 4 == 0 {
        Ok(((s[0] / 4) as u64, 1))
    } else if s[0] % 4 == 1 {
        if s.len() < 2 {
            Err(CodecError::Truncated)
        } else if le_value(s.take(2)) / 4 < 0x40 {
            Err(CodecError::NonMinimal)
        } else {
            Ok(((le_value(s.take(2)) / 4) as u64, 2))
        }
    } else if s[0] % 4 == 2 {
        if s.len() < 4 {
            Err(CodecError::Truncated)
        } else if le_value(s.take(4)) / 4 < 0x4000 {
            Err(CodecError::NonMinimal)
        } else {
            Ok(((le_value(s.take(4)) / 4) as u64, 4))
        }
    } else {
        let width: int = s[0] / 4 + 4;
        if width > 8 {
            Err(CodecError::InvalidWidth)
        } else if s.len() < 1 + width {
            Err(CodecError::Truncated)
        } else {
            let n = le_value(s.subrange(1, 1 + width));
            if n < 0x4000_0000 || wide_len(n as u64) != width {
                Err(CodecError::NonMinimal)
            } else {
                Ok((n as u64, (1 + width) as nat))
            }
        }
    }
}

/// The width class of an encoding, which the two low bits of its first byte
/// carry: 0 for one byte, 1 for two, 2 for four, 3 for a width byte and four
/// to eight bytes.
pub open spec fn width_class(n: u64) -> nat {
    if n < 0x40 {
        0
    } else if n < 0x4000 {
        1
    } else if n < 0x4000_0000 {
        2
    } else {
        3
    }
}

/// Appends the compact encoding of `n` to `dest`.
pub fn encode_uint(n: u64, dest: &mut Vec<u8>)
    ensures
        final(dest)@ == old(dest)@ + spec_encode_uint(n),
{
    if n < 0x40 {
        push_le(4 * n, 1, dest);
    } else if n < 0x4000 {
        push_le(4 * n + 1, 2, dest);
    } else if n < 0x4000_0000 {
        push_le(4 * n + 2, 4, dest);
    } else {
        let ghost start = dest@;
        let width: usize = if n < 0x1_0000_0000 {
            4
        } else if n < 0x100_0000_0000 {
            5
        } else if n < 0x1_0000_0000_0000 {
            6
        } else if n < 0x100_0000_0000_0000 {
            7
        } else {
            8
        };
        let head: u8 = (4 * (width - 4) + 3) as u8;
        dest.push(head);
        push_le(n, width, dest);
        assert(start.push(head) + le_bytes(n as nat, width as nat) == start + (seq![head]
            + le_bytes(n as nat, width as nat)));
    }
}

/// The compact encoding of `n`.
pub fn compact_bytes(n: u64) -> (bytes: Vec<u8>)
    ensures
        bytes@ == spec_encode_uint(n),
{
    let mut bytes: Vec<u8> = Vec::new();
    encode_uint(n, &mut bytes);
    assert(Seq::<u8>::empty() + spec_encode_uint(n) == spec_encode_uint(n));
    bytes
}

/// Reads the compact integer that starts at `pos`: the integer and the
/// position behind it, or why there is none.
pub fn decode_uint(input: &[u8], pos: usize) -> (r: Result<(u64, usize), CodecError>)
    requires
        pos <= input.len(),
    ensures
        match r {
            Ok((n, next)) => pos < next <= input.len() && spec_decode_uint(input@.skip(pos as int))
                == Ok::<(u64, nat), CodecError>((n, (next - pos) as nat)),
            Err(e) => spec_decode_uint(input@.skip(pos as int)) == Err::<(u64, nat), CodecError>(e),
        },
{
    let ghost s = input@.skip(pos as int);
    let left: usize = input.len() - pos;
    if left == 0 {
        return Err(CodecError::Truncated);
    }
    let head: u8 = input[pos];
    assert(s[0] == head);
    let class: u8 = head % 4;
    if class == 0 {
        Ok(((head / 4) as u64, pos + 1))
    } else if class == 1 {
        if left < 2 {
            return Err(CodecError::Truncated);
        }
        assert(s.take(2) == input@.subrange(pos as int, pos + 2));
        proof {
            lemma_le_value_bound(s.take(2));
            lemma_pow256_values();
        }
        let n: u64 = read_le(input, pos, 2) / 4;
        if n < 0x40 {
            Err(CodecError::NonMinimal)
        } else {
            Ok((n, pos + 2))
        }
    } else if class == 2 {
        if left < 4 {
            return Err(CodecError::Truncated);
        }
        assert(s.take(4) == input@.subrange(pos as int, pos + 4));
        proof {
            lemma_le_value_bound(s.take(4));
            lemma_pow256_values();
        }
        let n: u64 = read_le(input, pos, 4) / 4;
        if n < 0x4000 {
            Err(CodecError::NonMinimal)
        } else {
            Ok((n, pos + 4))
        }
    } else {
        let width: usize = (head / 4) as usize + 4;
        if width > 8 {
            return Err(CodecError::InvalidWidth);
        }
        if left - 1 < width {
            return Err(CodecError::Truncated);
        }
        assert(s.subrange(1, 1 + width) == input@.subrange(pos + 1, pos + 1 + width));
        proof {
            lemma_le_value_bound(s.subrange(1, 1 + width));
            lemma_pow256_values();
        }
        let n: u64 = read_le(input, pos + 1, width);
        let least: usize = if n < 0x1_0000_0000 {
            4
        } else if n < 0x100_0000_0000 {
            5
        } else if n < 0x1_0000_0000_0000 {
            6
        } else if n < 0x100_0000_0000_0000 {
            7
        } else {
            8
        };
        if n < 0x4000_0000 || least != width {
            Err(CodecError::NonMinimal)
        } else {
            Ok((n, pos + 1 + width))
        }
    }
}

/// Appends the `len` low bytes of `v`, least significant first.
pub(crate) fn push_le(v: u64, len: usize, dest: &mut Vec<u8>)
    requires
        len <= 8,
    ensures
        final(dest)@ == old(dest)@ + le_bytes(v as nat, len as nat),
{
    let ghost start = dest@;
    let mut rest: u64 = v;
    let mut i: usize = 0;
    while i < len
        invariant
            i <= len <= 8,
            dest@ + le_bytes(rest as nat, (len - i) as nat) == start + le_bytes(
                v as nat,
                len as nat,
            ),
        decreases len - i,
    {
        let ghost before = dest@;
        let b: u8 = (rest % 256) as u8;
        dest.push(b);
        proof {
            let tail = le_bytes((rest / 256) as nat, (len - i - 1) as nat);
            assert(le_bytes(rest as nat, (len - i) as nat) == seq![b] + tail);
            assert(before + (seq![b] + tail) == before.push(b) + tail);
        }
        rest = rest / 256;
        i += 1;
    }
    assert(le_bytes(rest as nat, 0) == Seq::<u8>::empty());
    assert(dest@ + Seq::<u8>::empty() == dest@);
}

/// Reads the number that `len` bytes from `pos` on spell, least significant
/// first.
pub(crate) fn read_le(input: &[u8], pos: usize, len: usize) -> (v: u64)
    requires
        len <= 8,
        pos + len <= input.len(),
    ensures
        v == le_value(input@.subrange(pos as int, pos + len)),
{
    let mut v: u64 = 0;
    let mut i: usize = len;
    proof {
        assert(input@.subrange(pos + len, pos + len).len() == 0);
        lemma_le_value_bound(input@.subrange(pos + len, pos + len));
    }
    while i > 0
        invariant
            i <= len <= 8,
            pos + len <= input.len(),
            v == le_value(input@.subrange(pos + i, pos + len)),
            v < pow256((len - i) as nat),
        decreases i,
    {
        i -= 1;
        proof {
            let cur = input@.subrange(pos + i, pos + len);
            assert(cur.skip(1) == input@.subrange(pos + i + 1, pos + len));
            assert(cur[0] == input@[pos + i]);
            lemma_pow256_values();
        }
        v = v * 256 + input[pos + i] as u64;
    }
    v
}

/// 256 to the power `k`.
pub open spec fn pow256(k: nat) -> nat
    decreases k,
{
    if k == 0 {
        1
    } else {
        256 * pow256((k - 1) as nat)
    }
}

/// The powers of 256 up to the eighth.
pub proof fn lemma_pow256_values()
    ensures
        pow256(0) == 1,
        pow256(1) == 0x100,
        pow256(2) == 0x1_0000,
        pow256(3) == 0x100_0000,
        pow256(4) == 0x1_0000_0000,
        pow256(5) == 0x100_0000_0000,
        pow256(6) == 0x1_0000_0000_0000,
        pow256(7) == 0x100_0000_0000_0000,
        pow256(8) == 0x1_0000_0000_0000_0000,
{
    reveal_with_fuel(pow256, 9);
}

/// Bytes spell a number below 256 to the power of their count.
pub proof fn lemma_le_value_bound(s: Seq<u8>)
    ensures
        le_value(s) < pow256(s.len()),
    decreases s.len(),
{
    if s.len() > 0 {
        lemma_le_value_bound(s.skip(1));
    }
}

/// `len` bytes hold every number below 256 to the power `len`.
pub proof fn lemma_le_value_of_bytes(n: nat, len: nat)
    requires
        n < pow256(len),
    ensures
        le_bytes(n, len).len() == len,
        le_value(le_bytes(n, len)) == n,
    decreases len,
{
    if len > 0 {
        lemma_le_value_of_bytes(n / 256, (len - 1) as nat);
        let tail = le_bytes(n / 256, (len - 1) as nat);
        assert(le_bytes(n, len).skip(1) == tail);
    }
}

/// Bytes are the bytes of the number that they spell.
pub proof fn lemma_le_bytes_of_value(s: Seq<u8>)
    ensures
        le_bytes(le_value(s), s.len()) == s,
    decreases s.len(),
{
    if s.len() > 0 {
        lemma_le_bytes_of_value(s.skip(1));
        assert(seq![s[0]] + s.skip(1) == s);
    }
}

/// `le_bytes` gives as many bytes as it is asked for.
pub proof fn lemma_le_bytes_len(n: nat, len: nat)
    ensures
        le_bytes(n, len).len() == len,
    decreases len,
{
    if len > 0 {
        lemma_le_bytes_len(n / 256, (len - 1) as nat);
    }
}

/// An encoding has the length of its width class, which the two low bits of
/// its first byte name. The classes part the integers at 64, at 16384 and at
/// 2 to the power 30, so that no integer has a shorter encoding in another
/// class; in the last class the width byte counts the bytes that the integer
/// needs, four at least.
pub proof fn lemma_encode_uint_width(n: u64)
    ensures
        spec_encode_uint(n).len() == (if n < 0x40 {
            1
        } else if n < 0x4000 {
            2
        } else if n < 0x4000_0000 {
            4
        } else {
            1 + wide_len(n)
        }),
        spec_encode_uint(n)[0] % 4 == width_class(n),
        width_class(n) == 3 ==> spec_encode_uint(n)[0] / 4 + 4 == wide_len(n),
{
    if n < 0x40 {
        lemma_le_bytes_len(4 * n as nat, 1);
        assert(le_bytes(4 * n as nat, 1)[0] == ((4 * n) % 256) as u8);
    } else if n < 0x4000 {
        lemma_le_bytes_len((4 * n + 1) as nat, 2);
        assert(le_bytes((4 * n + 1) as nat, 2)[0] == ((4 * n + 1) % 256) as u8);
    } else if n < 0x4000_0000 {
        lemma_le_bytes_len((4 * n + 2) as nat, 4);
        assert(le_bytes((4 * n + 2) as nat, 4)[0] == ((4 * n + 2) % 256) as u8);
    } else {
        lemma_le_bytes_len(n as nat, wide_len(n));
    }
}

/// Decoding undoes encoding, whatever follows the encoding.
pub proof fn lemma_decode_encode_uint(n: u64, rest: Seq<u8>)
    ensures
        spec_decode_uint(spec_encode_uint(n) + rest) == Ok::<(u64, nat), CodecError>(
            (n, spec_encode_uint(n).len()),
        ),
{
    let e = spec_encode_uint(n);
    let s = e + rest;
    lemma_encode_uint_width(n);
    lemma_pow256_values();
    assert(s[0] == e[0]);
    if n < 0x40 {
        reveal_with_fuel(le_bytes, 2);
    } else if n < 0x4000 {
        assert(s.take(2) == e);
        lemma_le_value_of_bytes((4 * n + 1) as nat, 2);
    } else if n < 0x4000_0000 {
        assert(s.take(4) == e);
        lemma_le_value_of_bytes((4 * n + 2) as nat, 4);
    } else {
        let width = wide_len(n);
        lemma_le_value_of_bytes(n as nat, width);
        assert(s.subrange(1, 1 + width as int) == le_bytes(n as nat, width));
    }
}

/// Only encodings decode: the bytes that a decoded integer was read from are
/// its encoding, so that encoding it again gives the same bytes.
pub proof fn lemma_encode_decode_uint(s: Seq<u8>)
    ensures
        spec_decode_uint(s) matches Ok((n, k)) ==> 1 <= k <= s.len() && s.take(k as int)
            == spec_encode_uint(n),
{
    lemma_pow256_values();
    if s.len() > 0 {
        if s[0] % 4 == 0 {
            reveal_with_fuel(le_bytes, 2);
            assert(s.take(1) == seq![s[0]]);
        } else if s[0] % 4 == 1 {
            if s.len() >= 2 {
                let t = s.take(2);
                lemma_le_bytes_of_value(t);
                lemma_le_value_bound(t);
                reveal_with_fuel(le_value, 3);
                assert(t[0] == s[0]);
            }
        } else if s[0] % 4 == 2 {
            if s.len() >= 4 {
                let t = s.take(4);
                lemma_le_bytes_of_value(t);
                lemma_le_value_bound(t);
                reveal_with_fuel(le_value, 5);
                assert(t[0] == s[0]);
            }
        } else {
            let width: int = s[0] / 4 + 4;
            if width <= 8 && s.len() >= 1 + width {
                let t = s.subrange(1, 1 + width);
                lemma_le_bytes_of_value(t);
                lemma_le_value_bound(t);
                assert(s.take(1 + width) == seq![s[0]] + t);
            }
        }
    }
}

} // verus!
