//! Decimal notation for integers, as ASCII bytes and as text.

use vstd::prelude::*;

verus! {

/// The ASCII code of the decimal digit `d`.
pub open spec fn digit_byte(d: nat) -> u8
    recommends
        d < 10,
{
    (48 + d) as u8
}

/// The decimal notation of `n`, most significant digit first, without leading zeros.
pub open spec fn decimal_bytes(n: nat) -> Seq<u8>
    decreases n,
{
    if n < 10 {
        seq![digit_byte(n)]
    } else {
        decimal_bytes(n / 10).push(digit_byte(n % 10))
    }
}

/// ASCII bytes read as characters.
pub open spec fn ascii_text(bytes: Seq<u8>) -> Seq<char> {
    Seq::new(bytes.len(), |i: int| bytes[i] as char)
}

/// The decimal notation of `n` as text, with a leading minus sign when `n` is negative.
pub open spec fn decimal_text(n: int) -> Seq<char> {
    if n < 0 {
        seq!['-'] + ascii_text(decimal_bytes((-n) as nat))
    } else {
        ascii_text(decimal_bytes(n as nat))
    }
}

/// Appends the decimal notation of `n` to `out`.
pub fn push_decimal(out: &mut Vec<u8>, n: u64)
    ensures
        final(out)@ == old(out)@ + decimal_bytes(n as nat),
    decreases n,
{
    if n >= 10 {
        push_decimal(out, n / 10);
    }
    let d: u8 = (n % 10) as u8;
    out.push(48u8 + d);
}

/// The one-character text of the decimal digit `d`.
fn digit_text(d: u8) -> (text: &'static str)
    requires
        d < 10,
    ensures
        text@ == seq![digit_byte(d as nat) as char],
{
    proof {
        reveal_strlit("0");
        reveal_strlit("1");
        reveal_strlit("2");
        reveal_strlit("3");
        reveal_strlit("4");
        reveal_strlit("5");
        reveal_strlit("6");
        reveal_strlit("7");
        reveal_strlit("8");
        reveal_strlit("9");
    }
    let text = match d {
        0 => "0",
        1 => "1",
        2 => "2",
        3 => "3",
        4 => "4",
        5 => "5",
        6 => "6",
        7 => "7",
        8 => "8",
        _ => "9",
    };
    assert(text@ =~= seq![digit_byte(d as nat) as char]);
    text
}

/// Appends the decimal notation of `n` to `text`.
fn append_unsigned(text: &mut String, n: u64)
    ensures
        final(text)@ == old(text)@ + ascii_text(decimal_bytes(n as nat)),
    decreases n,
{
    if n >= 10 {
        append_unsigned(text, n / 10);
    }
    let d: u8 = (n % 10) as u8;
    text.append(digit_text(d));
    assert(text@ =~= old(text)@ + ascii_text(decimal_bytes(n as nat)));
}

/// Appends the decimal notation of `n` to `text`, with a leading minus sign when `n` is
/// negative.
pub fn append_decimal(text: &mut String, n: i64)
    ensures
        final(text)@ == old(text)@ + decimal_text(n as int),
{
    if n < 0 {
        proof {
            reveal_strlit("-");
        }
        text.append("-");
        let magnitude: u64 = ((-(n + 1)) as u64) + 1;
        append_unsigned(text, magnitude);
        assert(text@ =~= old(text)@ + decimal_text(n as int));
    } else {
        append_unsigned(text, n as u64);
    }
}

/// Whether `byte` is the ASCII code of a decimal digit.
pub open spec fn is_digit(byte: u8) -> bool {
    48 <= byte <= 57
}

/// Whether `digits` is the decimal notation of a number: at least one digit, nothing but
/// digits, and no zero in front of another digit.
pub open spec fn is_decimal(digits: Seq<u8>) -> bool {
    &&& digits.len() >= 1
    &&& forall|i: int| 0 <= i < digits.len() ==> is_digit(#[trigger] digits[i])
    &&& (digits.len() == 1 || digits[0] != 48)
}

/// The number that a run of digits denotes, the first digit weighing most.
pub open spec fn decimal_value(digits: Seq<u8>) -> nat
    decreases digits.len(),
{
    if digits.len() == 0 {
        0
    } else {
        decimal_value(digits.drop_last()) * 10 + (digits.last() - 48) as nat
    }
}

/// The index at which the run of digits that starts at `from` ends: that of the first byte
/// at or after `from` that is no digit, or the length of `bytes`.
pub open spec fn digits_end(bytes: Seq<u8>, from: int) -> int
    decreases bytes.len() - from,
{
    if 0 <= from < bytes.len() && is_digit(bytes[from]) {
        digits_end(bytes, from + 1)
    } else {
        from
    }
}

/// The decimal notation of a number is a decimal notation, and denotes that number.
pub proof fn lemma_decimal_bytes_value(n: nat)
    ensures
        is_decimal(decimal_bytes(n)),
        decimal_value(decimal_bytes(n)) == n,
    decreases n,
{
    let digits = decimal_bytes(n);
    if n < 10 {
        assert(digits.len() == 1 && digits[0] == 48 + n);
        assert(digits.drop_last() =~= Seq::<u8>::empty());
        assert(decimal_value(digits.drop_last()) == 0);
    } else {
        let front = decimal_bytes(n / 10);
        lemma_decimal_bytes_value(n / 10);
        assert(digits == front.push(digit_byte(n % 10)));
        assert(digits.drop_last() =~= front);
        assert(digits.last() == 48 + n % 10);
        assert(digits[0] == front[0]);
        assert forall|i: int| 0 <= i < digits.len() implies is_digit(#[trigger] digits[i]) by {
            if i < front.len() {
                assert(digits[i] == front[i]);
            }
        }
        if front.len() == 1 {
            assert(decimal_value(front.drop_last()) == 0) by {
                assert(front.drop_last() =~= Seq::<u8>::empty());
            }
            assert(front[0] != 48);
        }
    }
}

/// A decimal notation is the notation of the number that it denotes.
pub proof fn lemma_decimal_value_bytes(digits: Seq<u8>)
    requires
        is_decimal(digits),
    ensures
        decimal_bytes(decimal_value(digits)) == digits,
    decreases digits.len(),
{
    let front = digits.drop_last();
    if digits.len() == 1 {
        assert(front =~= Seq::<u8>::empty());
        assert(decimal_value(front) == 0);
        assert(decimal_bytes(decimal_value(digits)) =~= digits);
    } else {
        assert(front[0] == digits[0]);
        assert(is_decimal(front)) by {
            assert forall|i: int| 0 <= i < front.len() implies is_digit(#[trigger] front[i]) by {
                assert(front[i] == digits[i]);
            }
        }
        lemma_decimal_value_bytes(front);
        lemma_decimal_value_positive(front);
        let n = decimal_value(digits);
        assert(n / 10 == decimal_value(front) && n % 10 == digits.last() - 48);
        assert(n >= 10);
        assert(decimal_bytes(n) =~= digits);
    }
}

/// A decimal notation that starts with a digit other than zero denotes a positive number.
proof fn lemma_decimal_value_positive(digits: Seq<u8>)
    requires
        is_decimal(digits),
        digits[0] != 48,
    ensures
        decimal_value(digits) >= 1,
    decreases digits.len(),
{
    let front = digits.drop_last();
    if digits.len() == 1 {
        assert(front =~= Seq::<u8>::empty());
        assert(decimal_value(front) == 0);
        assert(is_digit(digits[0]));
    } else {
        assert(front[0] == digits[0]);
        assert(is_decimal(front)) by {
            assert forall|i: int| 0 <= i < front.len() implies is_digit(#[trigger] front[i]) by {
                assert(front[i] == digits[i]);
            }
        }
        lemma_decimal_value_positive(front);
        assert(is_digit(digits[digits.len() - 1]));
    }
}

/// A run of digits that ends at `to`, before a byte that is no digit or at the end of
/// `bytes`, is the run that `digits_end` finds.
pub proof fn lemma_digits_end(bytes: Seq<u8>, from: int, to: int)
    requires
        0 <= from <= to <= bytes.len(),
        forall|i: int| from <= i < to ==> is_digit(#[trigger] bytes[i]),
        to == bytes.len() || !is_digit(bytes[to]),
    ensures
        digits_end(bytes, from) == to,
    decreases to - from,
{
    if from < to {
        lemma_digits_end(bytes, from + 1, to);
    }
}

/// The run of digits that starts at `from` ends at or after `from`, within `bytes`.
pub proof fn lemma_digits_end_bounds(bytes: Seq<u8>, from: int)
    requires
        0 <= from <= bytes.len(),
    ensures
        from <= digits_end(bytes, from) <= bytes.len(),
    decreases bytes.len() - from,
{
    if from < bytes.len() && is_digit(bytes[from]) {
        lemma_digits_end_bounds(bytes, from + 1);
    }
}

/// Finds the end of the run of digits that starts at `from`.
pub fn find_digits_end(bytes: &[u8], from: usize) -> (to: usize)
    ensures
        to == digits_end(bytes@, from as int),
        from <= to,
        from <= bytes@.len() ==> to <= bytes@.len(),
{
    let mut to: usize = from;
    while to < bytes.len() && 48 <= bytes[to] && bytes[to] <= 57
        invariant
            from <= to,
            to <= bytes@.len() || to == from,
            digits_end(bytes@, from as int) == digits_end(bytes@, to as int),
        decreases bytes@.len() - to,
    {
        to = to + 1;
    }
    to
}

/// The number below 2^64 of which `digits` is the decimal notation, if there is one.
pub open spec fn parsed_decimal(digits: Seq<u8>) -> Option<u64> {
    if is_decimal(digits) && decimal_value(digits) <= u64::MAX {
        Some(decimal_value(digits) as u64)
    } else {
        None
    }
}

/// Reading a run of digits gives a number exactly where the run is the decimal notation of
/// that number.
pub proof fn lemma_parsed_decimal(digits: Seq<u8>, n: u64)
    ensures
        parsed_decimal(digits) == Some(n) <==> digits == decimal_bytes(n as nat),
{
    lemma_decimal_bytes_value(n as nat);
    if is_decimal(digits) {
        lemma_decimal_value_bytes(digits);
    }
}

/// Reads the bytes from `from` up to `to` as the decimal notation of a number that fits in
/// 64 bits. There is no such number where the two indices mark no span of `bytes`.
pub fn parse_decimal(bytes: &[u8], from: usize, to: usize) -> (parsed: Option<u64>)
    ensures
        parsed == if from <= to <= bytes@.len() {
            parsed_decimal(bytes@.subrange(from as int, to as int))
        } else {
            None
        },
{
    if from >= to || to > bytes.len() {
        return None;
    }
    let ghost digits = bytes@.subrange(from as int, to as int);
    if to - from > 1 && bytes[from] == 48 {
        return None;
    }
    let mut value: u64 = 0;
    let mut at: usize = from;
    while at < to
        invariant
            from <= at <= to <= bytes@.len(),
            digits == bytes@.subrange(from as int, to as int),
            value == decimal_value(digits.subrange(0, at - from)),
            forall|i: int| 0 <= i < at - from ==> is_digit(#[trigger] digits[i]),
        decreases to - at,
    {
        let byte: u8 = bytes[at];
        let ghost read = digits.subrange(0, at - from + 1);
        proof {
            assert(read.drop_last() =~= digits.subrange(0, at - from));
            assert(read.last() == byte);
        }
        if byte < 48 || byte > 57 {
            assert(!is_digit(digits[at - from]));
            return None;
        }
        let digit: u64 = (byte - 48) as u64;
        if value > (u64::MAX - digit) / 10 {
            proof {
                if is_decimal(digits) {
                    lemma_decimal_value_prefix(digits, at - from + 1);
                }
            }
            return None;
        }
        value = value * 10 + digit;
        at = at + 1;
    }
    proof {
        assert(digits.subrange(0, at - from) =~= digits);
    }
    Some(value)
}

/// What a run of digits denotes is at least what any of its prefixes denotes.
proof fn lemma_decimal_value_prefix(digits: Seq<u8>, len: int)
    requires
        0 <= len <= digits.len(),
        forall|i: int| 0 <= i < digits.len() ==> is_digit(#[trigger] digits[i]),
    ensures
        decimal_value(digits.subrange(0, len)) <= decimal_value(digits),
    decreases digits.len(),
{
    if len < digits.len() {
        let front = digits.drop_last();
        assert(front.subrange(0, len) =~= digits.subrange(0, len));
        assert forall|i: int| 0 <= i < front.len() implies is_digit(#[trigger] front[i]) by {
            assert(front[i] == digits[i]);
        }
        lemma_decimal_value_prefix(front, len);
        assert(is_digit(digits[digits.len() - 1]));
    } else {
        assert(digits.subrange(0, len) =~= digits);
    }
}

/// Two integers with the same decimal text are the same integer.
pub proof fn lemma_decimal_text_injective(a: int, b: int)
    requires
        decimal_text(a) == decimal_text(b),
    ensures
        a == b,
{
    let magnitude_a: nat = if a < 0 {
        (-a) as nat
    } else {
        a as nat
    };
    let magnitude_b: nat = if b < 0 {
        (-b) as nat
    } else {
        b as nat
    };
    let digits_a = decimal_bytes(magnitude_a);
    let digits_b = decimal_bytes(magnitude_b);
    lemma_decimal_bytes_value(magnitude_a);
    lemma_decimal_bytes_value(magnitude_b);
    assert(is_digit(digits_a[0]) && is_digit(digits_b[0]));
    assert(ascii_text(digits_a)[0] == digits_a[0] as char);
    assert(ascii_text(digits_b)[0] == digits_b[0] as char);
    if a < 0 && b < 0 {
        let text_a = seq!['-'] + ascii_text(digits_a);
        let text_b = seq!['-'] + ascii_text(digits_b);
        assert(text_a.len() == text_b.len());
        assert forall|i: int| 0 <= i < digits_a.len() implies digits_a[i] == digits_b[i] by {
            assert(text_a[i + 1] == ascii_text(digits_a)[i]);
            assert(text_b[i + 1] == ascii_text(digits_b)[i]);
            assert(digits_a[i] as char == digits_b[i] as char);
        }
        assert(digits_a =~= digits_b);
    } else if a >= 0 && b >= 0 {
        assert(ascii_text(digits_a).len() == ascii_text(digits_b).len());
        assert forall|i: int| 0 <= i < digits_a.len() implies digits_a[i] == digits_b[i] by {
            assert(ascii_text(digits_a)[i] == ascii_text(digits_b)[i]);
            assert(digits_a[i] as char == digits_b[i] as char);
        }
        assert(digits_a =~= digits_b);
    } else if a < 0 {
        assert(decimal_text(a)[0] == '-');
        assert(decimal_text(b)[0] == digits_b[0] as char);
    } else {
        assert(decimal_text(b)[0] == '-');
        assert(decimal_text(a)[0] == digits_a[0] as char);
    }
}

} // verus!
