//! Numbers as texts: the hexadecimal digits of a number, and the number
//! that a text of hexadecimal digits spells.

use vstd::prelude::*;

verus! {

/// Why a text is not a number.
#[derive(Clone, Copy, Debug, PartialEq, Eq, Hash, Structural)]
pub enum ParseIntError {
    /// The text is empty.
    Empty,
    /// A character is no digit, or a sign stands alone.
    InvalidDigit,
    /// The number does not fit the integer type.
    PosOverflow,
}

impl ParseIntError {
    /// What the error says.
    pub fn message(&self) -> (text: &'static str)
        ensures
            text@ == self.spec_message(),
    {
        match self {
            ParseIntError::Empty => "cannot parse integer from empty string",
            ParseIntError::InvalidDigit => "invalid digit found in string",
            ParseIntError::PosOverflow => "number too large to fit in target type",
        }
    }

    /// What the error says.
    pub open spec fn spec_message(self) -> Seq<char> {
        match self {
            ParseIntError::Empty => "cannot parse integer from empty string"@,
            ParseIntError::InvalidDigit => "invalid digit found in string"@,
            ParseIntError::PosOverflow => "number too large to fit in target type"@,
        }
    }
}

/// The ASCII code of the digit `d`: `0` to `9`, then `a` to `f`.
pub open spec fn digit_code(d: nat) -> u8 {
    if d < 10 {
        (48 + d) as u8
    } else {
        (87 + d) as u8
    }
}

/// The ASCII codes of the hexadecimal digits of `n`, in lower case and
/// without leading zeros; zero is one digit.
pub open spec fn hex_digits(n: nat) -> Seq<u8>
    decreases n,
{
    if n < 16 {
        seq![digit_code(n)]
    } else {
        hex_digits(n / 16).push(digit_code(n % 16))
    }
}

/// The value of the hexadecimal digit with the ASCII code `code`, in either
/// case.
pub open spec fn hex_value(code: u8) -> Option<nat> {
    if 48 <= code <= 57 {
        Some((code - 48) as nat)
    } else if 97 <= code <= 102 {
        Some((code - 87) as nat)
    } else if 65 <= code <= 70 {
        Some((code - 55) as nat)
    } else {
        None
    }
}

/// The number after reading the hexadecimal digits `codes`, from `acc` on:
/// each digit counts sixteen times what was read before it. The first
/// character that is no digit ends the reading, and so does the first digit
/// with which the number leaves the 64 bits.
pub open spec fn read_hex(acc: nat, codes: Seq<u8>) -> Result<nat, ParseIntError>
    decreases codes.len(),
{
    if codes.len() == 0 {
        Ok(acc)
    } else {
        match hex_value(codes[0]) {
            None => Err(ParseIntError::InvalidDigit),
            Some(d) => if 16 * acc + d > u64::MAX {
                Err(ParseIntError::PosOverflow)
            } else {
                read_hex(16 * acc + d, codes.skip(1))
            },
        }
    }
}

/// The number that a text of hexadecimal digits spells, as
/// `u64::from_str_radix` with the radix 16 reads it: a `+` may stand before
/// the digits, but not alone.
pub open spec fn spec_parse_hex(codes: Seq<u8>) -> Result<u64, ParseIntError> {
    if codes.len() == 0 {
        Err(ParseIntError::Empty)
    } else if codes.len() == 1 && (codes[0] == 43 || codes[0] == 45) {
        Err(ParseIntError::InvalidDigit)
    } else {
        let body = if codes[0] == 43 {
            codes.skip(1)
        } else {
            codes
        };
        match read_hex(0, body) {
            Ok(n) => Ok(n as u64),
            Err(e) => Err(e),
        }
    }
}

/// Reading digits and then one more is reading them all.
pub proof fn lemma_read_hex_push(acc: nat, codes: Seq<u8>, last: u8)
    ensures
        read_hex(acc, codes.push(last)) == match read_hex(acc, codes) {
            Ok(n) => read_hex(n, seq![last]),
            Err(e) => Err(e),
        },
    decreases codes.len(),
{
    if codes.len() == 0 {
        assert(codes.push(last) == seq![last]);
    } else {
        assert(codes.push(last)[0] == codes[0]);
        assert(codes.push(last).skip(1) == codes.skip(1).push(last));
        if let Some(d) = hex_value(codes[0]) {
            if 16 * acc + d <= u64::MAX {
                lemma_read_hex_push(16 * acc + d, codes.skip(1), last);
            }
        }
    }
}

/// The hexadecimal digits of a number are ASCII, start with no sign, and
/// spell the number.
pub proof fn lemma_read_hex_digits(n: nat)
    requires
        n <= u64::MAX,
    ensures
        read_hex(0, hex_digits(n)) == Ok::<nat, ParseIntError>(n),
        hex_digits(n).len() >= 1,
        forall|i: int|
            0 <= i < hex_digits(n).len() ==> hex_value(#[trigger] hex_digits(n)[i]) is Some,
    decreases n,
{
    reveal_with_fuel(read_hex, 3);
    if n < 16 {
        let one = seq![digit_code(n)];
        assert(one.skip(1) == Seq::<u8>::empty());
        assert(hex_value(one[0]) == Some(n));
    } else {
        lemma_read_hex_digits(n / 16);
        lemma_read_hex_push(0, hex_digits(n / 16), digit_code(n % 16));
        let one = seq![digit_code(n % 16)];
        assert(one.skip(1) == Seq::<u8>::empty());
        assert(hex_value(one[0]) == Some(n % 16));
        assert(read_hex(n / 16, one) == Ok::<nat, ParseIntError>(n));
    }
}

/// Appends the ASCII codes of the hexadecimal digits of `n`.
pub fn push_hex_digits(n: u64, dest: &mut Vec<u8>)
    ensures
        final(dest)@ == old(dest)@ + hex_digits(n as nat),
    decreases n,
{
    let ghost start = dest@;
    if n >= 16 {
        push_hex_digits(n / 16, dest);
    }
    let d: u64 = n % 16;
    let code: u8 = if d < 10 {
        (48 + d) as u8
    } else {
        (87 + d) as u8
    };
    dest.push(code);
    proof {
        if n >= 16 {
            assert(dest@ == start + hex_digits((n / 16) as nat).push(code));
        } else {
            assert(dest@ == start + seq![code]);
        }
    }
}

/// The number that the ASCII codes of hexadecimal digits spell, or why they
/// spell none.
pub fn parse_hex(codes: &[u8]) -> (r: Result<u64, ParseIntError>)
    ensures
        r == spec_parse_hex(codes@),
{
    if codes.len() == 0 {
        return Err(ParseIntError::Empty);
    }
    if codes.len() == 1 && (codes[0] == 43 || codes[0] == 45) {
        return Err(ParseIntError::InvalidDigit);
    }
    let first: usize = if codes[0] == 43 {
        1
    } else {
        0
    };
    let ghost body = codes@.skip(first as int);
    let mut acc: u64 = 0;
    let mut i: usize = first;
    assert(body.skip(0) == body);
    assert(codes@.skip(0) == codes@);
    while i < codes.len()
        invariant
            first <= i <= codes.len(),
            body == codes@.skip(first as int),
            read_hex(0, body) == read_hex(acc as nat, body.skip(i - first)),
            spec_parse_hex(codes@) == match read_hex(0, body) {
                Ok(n) => Ok::<u64, ParseIntError>(n as u64),
                Err(e) => Err(e),
            },
        decreases codes.len() - i,
    {
        let code: u8 = codes[i];
        let ghost rest = body.skip(i - first);
        assert(rest[0] == code);
        assert(rest.skip(1) == body.skip(i + 1 - first));
        let d: u64 = if 48 <= code && code <= 57 {
            (code - 48) as u64
        } else if 97 <= code && code <= 102 {
            (code - 87) as u64
        } else if 65 <= code && code <= 70 {
            (code - 55) as u64
        } else {
            return Err(ParseIntError::InvalidDigit);
        };
        if acc > (u64::MAX - d) / 16 {
            return Err(ParseIntError::PosOverflow);
        }
        acc = 16 * acc + d;
        i += 1;
    }
    assert(body.skip(i - first) == Seq::<u8>::empty());
    Ok(acc)
}

/// The ASCII codes of the decimal digits of `n`, without leading zeros;
/// zero is one digit.
pub open spec fn dec_digits(n: nat) -> Seq<u8>
    decreases n,
{
    if n < 10 {
        seq![digit_code(n)]
    } else {
        dec_digits(n / 10).push(digit_code(n % 10))
    }
}

/// Decimal digits are ASCII.
pub proof fn lemma_dec_digits_ascii(n: nat)
    ensures
        forall|i: int| 0 <= i < dec_digits(n).len() ==> #[trigger] dec_digits(n)[i] < 128,
    decreases n,
{
    if n >= 10 {
        lemma_dec_digits_ascii(n / 10);
        let front = dec_digits(n / 10);
        let all = dec_digits(n);
        assert forall|i: int| 0 <= i < all.len() implies #[trigger] all[i] < 128 by {
            if i < front.len() {
                assert(all[i] == front[i]);
            }
        }
    }
}

/// Appends the ASCII codes of the decimal digits of `n`.
pub fn push_dec_digits(n: u64, dest: &mut Vec<u8>)
    ensures
        final(dest)@ == old(dest)@ + dec_digits(n as nat),
    decreases n,
{
    let ghost start = dest@;
    if n >= 10 {
        push_dec_digits(n / 10, dest);
    }
    let code: u8 = (48 + n % 10) as u8;
    dest.push(code);
    proof {
        if n >= 10 {
            assert(dest@ == start + dec_digits((n / 10) as nat).push(code));
        } else {
            assert(dest@ == start + seq![code]);
        }
    }
}

/// 16 to the power `k`.
pub open spec fn pow16(k: nat) -> nat
    decreases k,
{
    if k == 0 {
        1
    } else {
        16 * pow16((k - 1) as nat)
    }
}

/// The ASCII codes of the `width` low hexadecimal digits of `n`, with
/// leading zeros.
pub open spec fn padded_hex_digits(n: nat, width: nat) -> Seq<u8>
    decreases width,
{
    if width == 0 {
        Seq::empty()
    } else {
        padded_hex_digits(n / 16, (width - 1) as nat).push(digit_code(n % 16))
    }
}

/// 16 to the power 32 is 2 to the power 128.
pub proof fn lemma_pow16_32()
    ensures
        pow16(32) == 0x1_0000_0000_0000_0000_0000_0000_0000_0000,
{
    reveal_with_fuel(pow16, 33);
}

/// The digits of a number are the digits of its high part, which is not
/// zero, and then the digits of its low part, with their zeros.
pub proof fn lemma_hex_digits_split(high: nat, low: nat, width: nat)
    requires
        high > 0,
        low < pow16(width),
    ensures
        hex_digits(high * pow16(width) + low) == hex_digits(high) + padded_hex_digits(low, width),
    decreases width,
{
    if width == 0 {
        assert(high * pow16(0) + low == high) by (nonlinear_arith)
            requires
                pow16(0) == 1,
                low == 0,
        ;
        assert(hex_digits(high) + Seq::<u8>::empty() == hex_digits(high));
    } else {
        let below = pow16((width - 1) as nat);
        let front = high * below;
        let n = high * pow16(width) + low;
        assert(n == 16 * front + low && front >= 1) by (nonlinear_arith)
            requires
                n == high * pow16(width) + low,
                pow16(width) == 16 * below,
                front == high * below,
                high > 0,
                below >= 1,
        ;
        lemma_hex_digits_split(high, low / 16, (width - 1) as nat);
        assert(n / 16 == front + low / 16);
        assert(n % 16 == low % 16);
        let tail = padded_hex_digits(low / 16, (width - 1) as nat);
        assert(hex_digits(high) + tail.push(digit_code(low % 16)) == (hex_digits(high)
            + tail).push(digit_code(low % 16)));
    }
}

/// Hexadecimal digits, with or without leading zeros, are ASCII.
pub proof fn lemma_hex_digits_ascii(n: nat, width: nat)
    ensures
        forall|i: int| 0 <= i < hex_digits(n).len() ==> #[trigger] hex_digits(n)[i] < 128,
        forall|i: int|
            0 <= i < padded_hex_digits(n, width).len() ==> #[trigger] padded_hex_digits(
                n,
                width,
            )[i] < 128,
    decreases n + width,
{
    if n >= 16 {
        lemma_hex_digits_ascii(n / 16, 0);
        let front = hex_digits(n / 16);
        let all = hex_digits(n);
        assert forall|i: int| 0 <= i < all.len() implies #[trigger] all[i] < 128 by {
            if i < front.len() {
                assert(all[i] == front[i]);
            }
        }
    }
    if width > 0 {
        lemma_hex_digits_ascii(n / 16, (width - 1) as nat);
        let front = padded_hex_digits(n / 16, (width - 1) as nat);
        let all = padded_hex_digits(n, width);
        assert forall|i: int| 0 <= i < all.len() implies #[trigger] all[i] < 128 by {
            if i < front.len() {
                assert(all[i] == front[i]);
            }
        }
    }
}

/// Appends the ASCII codes of the hexadecimal digits of `n`.
pub fn push_hex_digits_wide(n: u128, dest: &mut Vec<u8>)
    ensures
        final(dest)@ == old(dest)@ + hex_digits(n as nat),
    decreases n,
{
    let ghost start = dest@;
    if n >= 16 {
        push_hex_digits_wide(n / 16, dest);
    }
    let d: u128 = n % 16;
    let code: u8 = if d < 10 {
        (48 + d) as u8
    } else {
        (87 + d) as u8
    };
    dest.push(code);
    proof {
        if n >= 16 {
            assert(dest@ == start + hex_digits((n / 16) as nat).push(code));
        } else {
            assert(dest@ == start + seq![code]);
        }
    }
}

/// Appends the ASCII codes of the `width` low hexadecimal digits of `n`,
/// with leading zeros.
pub fn push_padded_hex_digits(n: u128, width: usize, dest: &mut Vec<u8>)
    ensures
        final(dest)@ == old(dest)@ + padded_hex_digits(n as nat, width as nat),
    decreases width,
{
    let ghost start = dest@;
    if width == 0 {
        assert(start + Seq::<u8>::empty() == start);
    } else {
        push_padded_hex_digits(n / 16, width - 1, dest);
        let d: u128 = n % 16;
        let code: u8 = if d < 10 {
            (48 + d) as u8
        } else {
            (87 + d) as u8
        };
        dest.push(code);
        assert(dest@ == start + padded_hex_digits((n / 16) as nat, (width - 1) as nat).push(code));
    }
}

/// The number that hexadecimal digits spell, however long it is; none
/// where a character is no digit. No digits spell zero.
pub open spec fn hex_number(codes: Seq<u8>) -> Option<nat>
    decreases codes.len(),
{
    if codes.len() == 0 {
        Some(0)
    } else {
        match (hex_number(codes.drop_last()), hex_value(codes.last())) {
            (Some(front), Some(d)) => Some(16 * front + d),
            _ => None,
        }
    }
}

/// `k` digits spell a number below 16 to the power `k`.
pub proof fn lemma_hex_number_bound(codes: Seq<u8>)
    ensures
        hex_number(codes) matches Some(n) ==> n < pow16(codes.len()),
    decreases codes.len(),
{
    if codes.len() > 0 {
        lemma_hex_number_bound(codes.drop_last());
    }
}

/// 16 to the power 63 is 2 to the power 252, and the powers of 16 rise.
pub proof fn lemma_pow16_63()
    ensures
        pow16(63)
            == 0x1000_0000_0000_0000_0000_0000_0000_0000_0000_0000_0000_0000_0000_0000_0000_0000nat,
        forall|i: nat, j: nat| i <= j ==> #[trigger] pow16(i) <= #[trigger] pow16(j),
{
    assert(pow16(32) == 0x1_0000_0000_0000_0000_0000_0000_0000_0000 && pow16(31)
        == 0x1000_0000_0000_0000_0000_0000_0000_0000) by {
        reveal_with_fuel(pow16, 33);
    }
    lemma_pow16_add(32, 31);
    assert forall|i: nat, j: nat| i <= j implies #[trigger] pow16(i) <= #[trigger] pow16(j) by {
        lemma_pow16_rises(i, j);
    }
}

/// The power of a sum is the product of the powers.
pub proof fn lemma_pow16_add(a: nat, b: nat)
    ensures
        pow16(a + b) == pow16(a) * pow16(b),
    decreases b,
{
    if b == 0 {
        assert(pow16(a) * 1 == pow16(a));
    } else {
        lemma_pow16_add(a, (b - 1) as nat);
        assert(pow16(a) * (16 * pow16((b - 1) as nat)) == 16 * (pow16(a) * pow16((b - 1) as nat)))
            by (nonlinear_arith);
    }
}

/// The powers of 16 rise.
pub proof fn lemma_pow16_rises(i: nat, j: nat)
    requires
        i <= j,
    ensures
        pow16(i) <= pow16(j),
    decreases j,
{
    if i < j {
        lemma_pow16_rises(i, (j - 1) as nat);
    }
}

} // verus!
