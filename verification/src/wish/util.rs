use vstd::prelude::*;

use crate::wish::Sin;

verus! {

// ---------------------------------------------------------------------------
// The decimal notation used on the wire and inside stored strings.
// ---------------------------------------------------------------------------

/// An ASCII decimal digit.
pub open spec fn is_digit(b: u8) -> bool {
    48 <= b && b <= 57
}

/// Every byte of `s` is an ASCII decimal digit.
pub open spec fn all_digits(s: Seq<u8>) -> bool {
    forall|i: int| 0 <= i < s.len() ==> is_digit(#[trigger] s[i])
}

/// The number that a string of decimal digits denotes (most significant first).
pub open spec fn digits_value(s: Seq<u8>) -> nat
    decreases s.len(),
{
    if s.len() == 0 {
        0
    } else {
        (10 * digits_value(s.drop_last()) + (s.last() - 48)) as nat
    }
}

/// The value of an unsigned decimal numeral no larger than `max`: at least
/// one digit and nothing else.
pub open spec fn unsigned_numeral(s: Seq<u8>, max: nat) -> Option<nat> {
    if s.len() > 0 && all_digits(s) && digits_value(s) <= max {
        Some(digits_value(s))
    } else {
        None
    }
}

/// The value of a signed decimal numeral: an optional leading `-` and then
/// digits (possibly none after the sign) whose magnitude is at most `max`.
pub open spec fn signed_numeral(s: Seq<u8>, max: nat) -> Option<int> {
    if s.len() == 0 {
        None
    } else {
        let negative = s[0] == 45u8;
        let body = if negative { s.skip(1) } else { s };
        if all_digits(body) && digits_value(body) <= max {
            Some(if negative { -(digits_value(body) as int) } else { digits_value(body) as int })
        } else {
            None
        }
    }
}

/// The shortest decimal spelling of a natural number.
pub open spec fn decimal_nat(n: nat) -> Seq<u8>
    decreases n,
{
    if n < 10 {
        seq![(48 + n) as u8]
    } else {
        decimal_nat(n / 10).push((48 + n % 10) as u8)
    }
}

/// The decimal spelling of an integer, with a leading `-` when negative.
pub open spec fn decimal_int(n: int) -> Seq<u8> {
    if n < 0 {
        seq![45u8] + decimal_nat((-n) as nat)
    } else {
        decimal_nat(n as nat)
    }
}

/// The position of the first CR LF pair in `s`, if any.
pub open spec fn first_crlf(s: Seq<u8>) -> Option<nat> {
    if exists|i: int| is_crlf_at(s, i) {
        Some(
            (choose|i: int| is_crlf_at(s, i) && forall|j: int| 0 <= j < i ==> !is_crlf_at(s, j)) as nat,
        )
    } else {
        None
    }
}

/// `s` holds CR LF at positions `i` and `i + 1`.
pub open spec fn is_crlf_at(s: Seq<u8>, i: int) -> bool {
    0 <= i && i + 1 < s.len() && s[i] == 13u8 && s[i + 1] == 10u8
}

// ---------------------------------------------------------------------------
// Facts about the notation.
// ---------------------------------------------------------------------------

/// A longer prefix of a digit string never denotes a smaller number.
pub proof fn lemma_digits_value_monotone(s: Seq<u8>, j: int, k: int)
    requires
        all_digits(s),
        0 <= j <= k <= s.len(),
    ensures
        digits_value(s.take(j)) <= digits_value(s.take(k)),
    decreases k - j,
{
    if j < k {
        lemma_digits_value_monotone(s, j, k - 1);
        assert(s.take(k).drop_last() =~= s.take(k - 1));
    }
}

/// Reading one more digit multiplies by ten and adds the digit.
pub proof fn lemma_digits_value_step(s: Seq<u8>, i: int)
    requires
        0 <= i < s.len(),
        is_digit(s[i]),
    ensures
        digits_value(s.take(i + 1)) == 10 * digits_value(s.take(i)) + (s[i] - 48),
{
    assert(s.take(i + 1).drop_last() =~= s.take(i));
}

/// The decimal spelling is a non-empty digit string denoting the number.
pub proof fn lemma_decimal_nat(n: nat)
    ensures
        decimal_nat(n).len() > 0,
        all_digits(decimal_nat(n)),
        digits_value(decimal_nat(n)) == n,
    decreases n,
{
    if n >= 10 {
        lemma_decimal_nat(n / 10);
        let s = decimal_nat(n);
        assert(s.drop_last() =~= decimal_nat(n / 10));
        assert(n % 10 < 10);
        assert(s.last() == (48 + n % 10) as u8);
        assert(s.last() - 48 == n % 10);
        assert(n == 10 * (n / 10) + n % 10);
        assert(digits_value(s.drop_last()) == n / 10);
        assert(digits_value(s) == 10 * digits_value(s.drop_last()) + (s.last() - 48));
    } else {
        let s = decimal_nat(n);
        assert(s.drop_last() =~= Seq::<u8>::empty());
        assert(digits_value(s.drop_last()) == 0);
    }
}

/// Parsing the decimal spelling of any `i64` other than `i64::MIN` gives the
/// number back.
pub proof fn lemma_signed_numeral_of_decimal(n: int, max: nat)
    requires
        -max <= n <= max,
    ensures
        signed_numeral(decimal_int(n), max) == Some(n),
{
    if n < 0 {
        lemma_decimal_nat((-n) as nat);
        let s = decimal_int(n);
        assert(s.skip(1) =~= decimal_nat((-n) as nat));
    } else {
        lemma_decimal_nat(n as nat);
        let s = decimal_nat(n as nat);
        assert(is_digit(s[0]));
    }
}

/// Parsing the decimal spelling of a natural number gives the number back.
pub proof fn lemma_unsigned_numeral_of_decimal(n: nat, max: nat)
    requires
        n <= max,
    ensures
        unsigned_numeral(decimal_nat(n), max) == Some(n),
{
    lemma_decimal_nat(n);
}

// ---------------------------------------------------------------------------
// Executable parsers.
// ---------------------------------------------------------------------------

/// The index of the first `\r\n` in `buffer`.
pub fn find_crlf(buffer: &[u8]) -> (r: Option<usize>)
    ensures
        r == match first_crlf(buffer@) {
            Some(i) => Some(i as usize),
            None => None::<usize>,
        },
        r matches Some(i) ==> is_crlf_at(buffer@, i as int) && forall|j: int|
            0 <= j < i ==> !is_crlf_at(buffer@, j),
        r is None ==> forall|j: int| !is_crlf_at(buffer@, j),
{
    let mut i: usize = 0;
    while i < buffer.len() && buffer.len() - i >= 2
        invariant
            i <= buffer.len(),
            forall|j: int| 0 <= j < i ==> !is_crlf_at(buffer@, j),
        decreases buffer.len() - i,
    {
        if buffer[i] == 13u8 && buffer[i + 1] == 10u8 {
            proof {
                assert(is_crlf_at(buffer@, i as int));
                let w = choose|k: int|
                    is_crlf_at(buffer@, k) && forall|j: int| 0 <= j < k ==> !is_crlf_at(buffer@, j);
                assert(is_crlf_at(buffer@, w) && forall|j: int|
                    0 <= j < w ==> !is_crlf_at(buffer@, j));
                if w < i {
                } else if w > i {
                    assert(!is_crlf_at(buffer@, i as int));
                }
                assert(w == i);
            }
            return Some(i);
        }
        i = i + 1;
    }
    proof {
        assert forall|j: int| !is_crlf_at(buffer@, j) by {
            if j >= i && is_crlf_at(buffer@, j) {
                assert(false);
            }
        }
    }
    None
}

/// Reads a signed 32-bit decimal numeral.
pub fn bytes_to_i32(bytes: &[u8]) -> (r: Result<i32, Sin>)
    ensures
        r == match signed_numeral(bytes@, i32::MAX as nat) {
            Some(v) => Ok::<i32, Sin>(v as i32),
            None => Err(Sin::ParseError),
        },
{
    if bytes.len() == 0 {
        return Err(Sin::ParseError);
    }
    let is_neg = bytes[0] == 45u8;
    let start: usize = if is_neg { 1 } else { 0 };
    let ghost body = if is_neg { bytes@.skip(1) } else { bytes@ };
    let mut result: i32 = 0;
    let mut i: usize = start;
    proof {
        assert(body =~= bytes@.skip(start as int));
        assert(body.take(0) =~= Seq::<u8>::empty());
    }
    while i < bytes.len()
        invariant
            start <= i <= bytes.len(),
            bytes.len() > 0,
            is_neg == (bytes@[0] == 45u8),
            body == (if is_neg { bytes@.skip(1) } else { bytes@ }),
            start == (if is_neg { 1usize } else { 0usize }),
            body == bytes@.skip(start as int),
            all_digits(body.take(i - start)),
            result as int == digits_value(body.take(i - start)),
            digits_value(body.take(i - start)) <= i32::MAX,
        decreases bytes.len() - i,
    {
        let b = bytes[i];
        let ghost k = (i - start) as int;
        if !(48u8 <= b && b <= 57u8) {
            proof {
                assert(!is_digit(body[k]));
            }
            return Err(Sin::ParseError);
        }
        proof {
            lemma_digits_value_step(body, k);
            assert(all_digits(body.take(k + 1)));
        }
        match result.checked_mul(10) {
            Some(m) => match m.checked_add((b - 48) as i32) {
                Some(v) => {
                    result = v;
                },
                None => {
                    proof {
                        lemma_overflow_is_error(body, k + 1, i32::MAX as nat);
                    }
                    return Err(Sin::ParseError);
                },
            },
            None => {
                proof {
                    lemma_overflow_is_error(body, k + 1, i32::MAX as nat);
                }
                return Err(Sin::ParseError);
            },
        }
        proof {
            assert(all_digits(body.take(k + 1)));
        }
        i = i + 1;
    }
    proof {
        assert(body.take(i - start) =~= body);
    }
    if is_neg {
        Ok(-result)
    } else {
        Ok(result)
    }
}

/// Reads a signed 64-bit decimal numeral.
pub fn bytes_to_i64(bytes: &[u8]) -> (r: Result<i64, Sin>)
    ensures
        r == match signed_numeral(bytes@, i64::MAX as nat) {
            Some(v) => Ok::<i64, Sin>(v as i64),
            None => Err(Sin::ParseError),
        },
{
    if bytes.len() == 0 {
        return Err(Sin::ParseError);
    }
    let is_neg = bytes[0] == 45u8;
    let start: usize = if is_neg { 1 } else { 0 };
    let ghost body = if is_neg { bytes@.skip(1) } else { bytes@ };
    let mut result: i64 = 0;
    let mut i: usize = start;
    proof {
        assert(body =~= bytes@.skip(start as int));
        assert(body.take(0) =~= Seq::<u8>::empty());
    }
    while i < bytes.len()
        invariant
            start <= i <= bytes.len(),
            bytes.len() > 0,
            is_neg == (bytes@[0] == 45u8),
            body == (if is_neg { bytes@.skip(1) } else { bytes@ }),
            start == (if is_neg { 1usize } else { 0usize }),
            body == bytes@.skip(start as int),
            all_digits(body.take(i - start)),
            result as int == digits_value(body.take(i - start)),
            digits_value(body.take(i - start)) <= i64::MAX,
        decreases bytes.len() - i,
    {
        let b = bytes[i];
        let ghost k = (i - start) as int;
        if !(48u8 <= b && b <= 57u8) {
            proof {
                assert(!is_digit(body[k]));
            }
            return Err(Sin::ParseError);
        }
        proof {
            lemma_digits_value_step(body, k);
            assert(all_digits(body.take(k + 1)));
        }
        match result.checked_mul(10) {
            Some(m) => match m.checked_add((b - 48) as i64) {
                Some(v) => {
                    result = v;
                },
                None => {
                    proof {
                        lemma_overflow_is_error(body, k + 1, i64::MAX as nat);
                    }
                    return Err(Sin::ParseError);
                },
            },
            None => {
                proof {
                    lemma_overflow_is_error(body, k + 1, i64::MAX as nat);
                }
                return Err(Sin::ParseError);
            },
        }
        proof {
            assert(all_digits(body.take(k + 1)));
        }
        i = i + 1;
    }
    proof {
        assert(body.take(i - start) =~= body);
    }
    if is_neg {
        Ok(-result)
    } else {
        Ok(result)
    }
}

/// Reads an unsigned 64-bit decimal numeral.
pub fn bytes_to_u64(bytes: &[u8]) -> (r: Result<u64, Sin>)
    ensures
        r == match unsigned_numeral(bytes@, u64::MAX as nat) {
            Some(v) => Ok::<u64, Sin>(v as u64),
            None => Err(Sin::ParseError),
        },
{
    if bytes.len() == 0 {
        return Err(Sin::ParseError);
    }
    let mut result: u64 = 0;
    let mut i: usize = 0;
    proof {
        assert(bytes@.take(0) =~= Seq::<u8>::empty());
    }
    while i < bytes.len()
        invariant
            i <= bytes.len(),
            all_digits(bytes@.take(i as int)),
            result as int == digits_value(bytes@.take(i as int)),
        decreases bytes.len() - i,
    {
        let b = bytes[i];
        if !(48u8 <= b && b <= 57u8) {
            proof {
                assert(!is_digit(bytes@[i as int]));
            }
            return Err(Sin::ParseError);
        }
        proof {
            lemma_digits_value_step(bytes@, i as int);
            assert(all_digits(bytes@.take(i + 1)));
        }
        match result.checked_mul(10) {
            Some(m) => match m.checked_add((b - 48) as u64) {
                Some(v) => {
                    result = v;
                },
                None => {
                    proof {
                        lemma_overflow_is_error(bytes@, i + 1, u64::MAX as nat);
                    }
                    return Err(Sin::ParseError);
                },
            },
            None => {
                proof {
                    lemma_overflow_is_error(bytes@, i + 1, u64::MAX as nat);
                }
                return Err(Sin::ParseError);
            },
        }
        proof {
            assert(all_digits(bytes@.take(i + 1)));
        }
        i = i + 1;
    }
    proof {
        assert(bytes@.take(i as int) =~= bytes@);
    }
    Ok(result)
}

/// Reads an unsigned machine-word decimal numeral.
pub fn bytes_to_usize(bytes: &[u8]) -> (r: Result<usize, Sin>)
    ensures
        r == match unsigned_numeral(bytes@, usize::MAX as nat) {
            Some(v) => Ok::<usize, Sin>(v as usize),
            None => Err(Sin::ParseError),
        },
{
    if bytes.len() == 0 {
        return Err(Sin::ParseError);
    }
    let mut result: usize = 0;
    let mut i: usize = 0;
    proof {
        assert(bytes@.take(0) =~= Seq::<u8>::empty());
    }
    while i < bytes.len()
        invariant
            i <= bytes.len(),
            all_digits(bytes@.take(i as int)),
            result as int == digits_value(bytes@.take(i as int)),
        decreases bytes.len() - i,
    {
        let b = bytes[i];
        if !(48u8 <= b && b <= 57u8) {
            proof {
                assert(!is_digit(bytes@[i as int]));
            }
            return Err(Sin::ParseError);
        }
        proof {
            lemma_digits_value_step(bytes@, i as int);
            assert(all_digits(bytes@.take(i + 1)));
        }
        match result.checked_mul(10) {
            Some(m) => match m.checked_add((b - 48) as usize) {
                Some(v) => {
                    result = v;
                },
                None => {
                    proof {
                        lemma_overflow_is_error(bytes@, i + 1, usize::MAX as nat);
                    }
                    return Err(Sin::ParseError);
                },
            },
            None => {
                proof {
                    lemma_overflow_is_error(bytes@, i + 1, usize::MAX as nat);
                }
                return Err(Sin::ParseError);
            },
        }
        proof {
            assert(all_digits(bytes@.take(i + 1)));
        }
        i = i + 1;
    }
    proof {
        assert(bytes@.take(i as int) =~= bytes@);
    }
    Ok(result)
}

/// The decimal spelling of `n`, as written by `itoa::Buffer::format`: an
/// optional `-` and then the digits of the magnitude without leading zeros.
#[verifier::external_body]
pub(crate) fn decimal_text(n: i128) -> (r: Vec<u8>)
    ensures
        r@ == decimal_int(n as int),
{
    let mut buffer = itoa::Buffer::new();
    buffer.format(n).as_bytes().to_vec()
}

/// Byte-wise equality of two byte strings.
pub fn bytes_eq(a: &[u8], b: &[u8]) -> (r: bool)
    ensures
        r == (a@ == b@),
{
    if a.len() != b.len() {
        return false;
    }
    let mut i: usize = 0;
    while i < a.len()
        invariant
            i <= a.len(),
            a.len() == b.len(),
            forall|j: int| 0 <= j < i ==> a@[j] == b@[j],
        decreases a.len() - i,
    {
        if a[i] != b[i] {
            return false;
        }
        i = i + 1;
    }
    assert(a@ =~= b@);
    true
}

/// Once a prefix of `s` exceeds `max`, `s` is not a numeral of magnitude at
/// most `max`.
proof fn lemma_overflow_is_error(s: Seq<u8>, k: int, max: nat)
    requires
        0 < k <= s.len(),
        all_digits(s.take(k)),
        digits_value(s.take(k)) > max,
    ensures
        !(all_digits(s) && digits_value(s) <= max),
{
    if all_digits(s) {
        lemma_digits_value_monotone(s, k, s.len() as int);
        assert(s.take(s.len() as int) =~= s);
    }
}

} // verus!
