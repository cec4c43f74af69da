//! JSON string tokens: serde_json writes and reads them, this module says what is written
//! and finds where a token ends.

use vstd::prelude::*;
use vstd::utf8::{decode_utf8, encode_utf8, encode_utf8_decode_utf8};

verus! {

/// The error type of serde_json, carried as a value of which nothing is known.
#[verifier::external_type_specification]
#[verifier::external_body]
pub struct ExJsonError(serde_json::Error);

/// The string that serde_json reads from a JSON text, or `None` where it reports an error.
pub uninterp spec fn json_string_decoding(json: Seq<u8>) -> Option<Seq<char>>;

/// The ASCII code of the double quote that delimits a JSON string.
pub const QUOTE: u8 = 0x22;

/// The ASCII code of the backslash that starts an escape inside a JSON string.
pub const BACKSLASH: u8 = 0x5c;

/// The index of the first double quote at or after `from` that no backslash escapes, reading
/// `bytes` from `from` as the inside of a JSON string: a backslash takes the byte after it along.
pub open spec fn closing_quote(bytes: Seq<u8>, from: int) -> Option<int>
    decreases bytes.len() - from,
{
    if from < 0 || from >= bytes.len() {
        None
    } else if bytes[from] == QUOTE {
        Some(from)
    } else if bytes[from] == BACKSLASH {
        if from + 1 < bytes.len() {
            closing_quote(bytes, from + 2)
        } else {
            None
        }
    } else {
        closing_quote(bytes, from + 1)
    }
}

/// Whether `bytes` has the outline of exactly one JSON string: it opens with a double quote,
/// and the first unescaped double quote after that is its last byte.
pub open spec fn is_string_token(bytes: Seq<u8>) -> bool {
    &&& bytes.len() >= 2
    &&& bytes[0] == QUOTE
    &&& closing_quote(bytes, 1) == Some(bytes.len() - 1)
}

/// The ASCII code of the hexadecimal digit `n`, in lower case.
pub open spec fn hex_digit(n: u8) -> u8
    recommends
        n < 16,
{
    if n < 10 {
        (48 + n) as u8
    } else {
        (87 + n) as u8
    }
}

/// What stands for one byte of a string inside its JSON token: the double quote, the
/// backslash and the control characters are escaped behind a backslash, the five control
/// characters that have a letter with that letter and the others with `u00` and two
/// hexadecimal digits; every other byte stands for itself.
pub open spec fn escaped_byte(byte: u8) -> Seq<u8> {
    if byte == QUOTE {
        seq![BACKSLASH, QUOTE]
    } else if byte == BACKSLASH {
        seq![BACKSLASH, BACKSLASH]
    } else if byte == 0x08 {
        seq![BACKSLASH, 0x62]
    } else if byte == 0x09 {
        seq![BACKSLASH, 0x74]
    } else if byte == 0x0a {
        seq![BACKSLASH, 0x6e]
    } else if byte == 0x0c {
        seq![BACKSLASH, 0x66]
    } else if byte == 0x0d {
        seq![BACKSLASH, 0x72]
    } else if byte < 0x20 {
        seq![BACKSLASH, 0x75, 0x30, 0x30, hex_digit(byte / 16), hex_digit(byte % 16)]
    } else {
        seq![byte]
    }
}

/// The bytes of a string with each of them escaped where JSON asks for it.
pub open spec fn escaped(bytes: Seq<u8>) -> Seq<u8>
    decreases bytes.len(),
{
    if bytes.len() == 0 {
        Seq::empty()
    } else {
        escaped_byte(bytes[0]) + escaped(bytes.drop_first())
    }
}

/// The JSON token of a string: its UTF-8 bytes, escaped, between two double quotes.
pub open spec fn json_string(text: Seq<char>) -> Seq<u8> {
    seq![QUOTE] + escaped(encode_utf8(text)) + seq![QUOTE]
}

/// The string that a JSON string token stands for: where the token is the JSON token of a
/// string, that string; for any other token, what serde_json reads from it.
pub open spec fn json_string_value(token: Seq<u8>) -> Option<Seq<char>> {
    if exists|text: Seq<char>| json_string(text) == token {
        Some(choose|text: Seq<char>| json_string(text) == token)
    } else {
        json_string_decoding(token)
    }
}

/// Calls `serde_json::to_vec` on a string slice. It succeeds on every string, since writing
/// into a vector never fails, and gives the JSON token of the string: serde_json writes a
/// double quote, the UTF-8 bytes of the string with those below 0x20, the double quote and
/// the backslash replaced by their escapes, and a double quote.
#[verifier::external_body]
pub(crate) fn encode_string(text: &str) -> (encoded: Result<Vec<u8>, serde_json::Error>)
    ensures
        encoded is Ok,
        encoded matches Ok(bytes) ==> bytes@ == json_string(text@),
{
    serde_json::to_vec(text)
}

/// Calls `serde_json::from_slice` for a `String`. The result is a function of the input
/// bytes alone. From the JSON token of a string serde_json reads that string and reports no
/// error: its parser undoes each escape that its writer makes and takes every other byte as
/// it stands. Nothing is claimed of the error value.
#[verifier::external_body]
pub(crate) fn decode_string(json: &[u8]) -> (decoded: Result<String, serde_json::Error>)
    ensures
        match decoded {
            Ok(text) => json_string_decoding(json@) == Some(text@),
            Err(_) => json_string_decoding(json@) is None,
        },
        match decoded {
            Ok(text) => forall|written: Seq<char>|
                json@ == #[trigger] json_string(written) ==> written == text@,
            Err(_) => forall|written: Seq<char>| json@ != #[trigger] json_string(written),
        },
{
    serde_json::from_slice::<String>(json)
}

/// Reads the string that a JSON string token stands for.
pub fn read_string(token: &[u8]) -> (value: Option<String>)
    ensures
        match value {
            Some(text) => json_string_value(token@) == Some(text@),
            None => json_string_value(token@) is None,
        },
{
    match decode_string(token) {
        Ok(text) => {
            proof {
                if exists|written: Seq<char>| json_string(written) == token@ {
                    let chosen = choose|written: Seq<char>| json_string(written) == token@;
                    assert(chosen == text@);
                }
            }
            Some(text)
        },
        Err(_) => None,
    }
}

/// Finds the double quote that closes a JSON string whose inside starts at `from`.
pub fn find_closing_quote(bytes: &[u8], from: usize) -> (found: Option<usize>)
    ensures
        match found {
            Some(at) => closing_quote(bytes@, from as int) == Some(at as int),
            None => closing_quote(bytes@, from as int) is None,
        },
{
    let mut at: usize = from;
    while at < bytes.len()
        invariant
            from <= at,
            closing_quote(bytes@, from as int) == closing_quote(bytes@, at as int),
        decreases bytes.len() - at,
    {
        let byte: u8 = bytes[at];
        if byte == QUOTE {
            return Some(at);
        } else if byte == BACKSLASH {
            if at + 1 >= bytes.len() {
                return None;
            }
            at = at + 2;
        } else {
            at = at + 1;
        }
    }
    None
}

/// The closing quote lies at or after the index from which it was sought, and is a double
/// quote.
pub proof fn lemma_closing_quote_bounds(bytes: Seq<u8>, from: int)
    ensures
        closing_quote(bytes, from) matches Some(at) ==> from <= at < bytes.len() && bytes[at]
            == QUOTE,
    decreases bytes.len() - from,
{
    if 0 <= from < bytes.len() && bytes[from] != QUOTE {
        if bytes[from] == BACKSLASH {
            if from + 1 < bytes.len() {
                lemma_closing_quote_bounds(bytes, from + 2);
            }
        } else {
            lemma_closing_quote_bounds(bytes, from + 1);
        }
    }
}

/// Where the closing quote lies depends on nothing but the bytes up to it: the same bytes
/// at another place, in another sequence, close at the same distance.
pub proof fn lemma_closing_quote_moves(
    bytes: Seq<u8>,
    from: int,
    at: int,
    other: Seq<u8>,
    other_from: int,
)
    requires
        closing_quote(bytes, from) == Some(at),
        0 <= other_from,
        other_from + (at + 1 - from) <= other.len(),
        bytes.subrange(from, at + 1) == other.subrange(other_from, other_from + (at + 1 - from)),
    ensures
        closing_quote(other, other_from) == Some(other_from + (at - from)),
    decreases bytes.len() - from,
{
    lemma_closing_quote_bounds(bytes, from);
    let window = bytes.subrange(from, at + 1);
    let other_window = other.subrange(other_from, other_from + (at + 1 - from));
    assert(bytes[from] == window[0]);
    assert(other[other_from] == other_window[0]);
    if bytes[from] != QUOTE {
        let step: int = if bytes[from] == BACKSLASH {
            2
        } else {
            1
        };
        lemma_closing_quote_bounds(bytes, from + step);
        assert(bytes.subrange(from + step, at + 1) =~= window.subrange(step, window.len() as int));
        assert(other.subrange(other_from + step, other_from + (at + 1 - from))
            =~= other_window.subrange(step, window.len() as int));
        lemma_closing_quote_moves(bytes, from + step, at, other, other_from + step);
    }
}

/// Every escape is at least one byte long, and at most six.
proof fn lemma_escaped_byte_len(byte: u8)
    ensures
        1 <= escaped_byte(byte).len() <= 6,
{
}

/// The search for the closing quote passes over the escaped bytes of a string: none of them
/// closes it.
proof fn lemma_closing_quote_passes_escaped(all: Seq<u8>, from: int, bytes: Seq<u8>)
    requires
        0 <= from,
        from + escaped(bytes).len() <= all.len(),
        all.subrange(from, from + escaped(bytes).len()) == escaped(bytes),
    ensures
        closing_quote(all, from) == closing_quote(all, from + escaped(bytes).len()),
    decreases bytes.len(),
{
    if bytes.len() > 0 {
        let first = escaped_byte(bytes[0]);
        let rest = escaped(bytes.drop_first());
        let window = all.subrange(from, from + escaped(bytes).len());
        assert(escaped(bytes) == first + rest);
        assert forall|k: int| 0 <= k < first.len() implies all[from + k] == first[k] by {
            assert(window[k] == first[k]);
        }
        let next = from + first.len();
        assert(closing_quote(all, from) == closing_quote(all, next)) by {
            if first.len() == 6 {
                assert(all[from] == first[0] && all[from + 2] == first[2] && all[from + 3]
                    == first[3] && all[from + 4] == first[4] && all[from + 5] == first[5]);
                assert(closing_quote(all, from) == closing_quote(all, from + 2));
                assert(closing_quote(all, from + 2) == closing_quote(all, from + 3));
                assert(closing_quote(all, from + 3) == closing_quote(all, from + 4));
                assert(closing_quote(all, from + 4) == closing_quote(all, from + 5));
                assert(closing_quote(all, from + 5) == closing_quote(all, from + 6));
            } else {
                assert(all[from] == first[0]);
            }
        }
        assert(all.subrange(next, next + rest.len()) =~= window.subrange(
            first.len() as int,
            window.len() as int,
        ));
        assert(window.subrange(first.len() as int, window.len() as int) =~= rest);
        lemma_closing_quote_passes_escaped(all, next, bytes.drop_first());
    }
}

/// The JSON token of a string has the outline of one JSON string.
pub proof fn lemma_json_string_is_token(text: Seq<char>)
    ensures
        is_string_token(json_string(text)),
{
    let inside = escaped(encode_utf8(text));
    let token = json_string(text);
    assert(token.len() == inside.len() + 2);
    let end: int = 1int + inside.len();
    assert(token.subrange(1, end) =~= inside);
    lemma_closing_quote_passes_escaped(token, 1, encode_utf8(text));
    assert(token[end] == QUOTE);
}

/// Two sequences of bytes with the same escaped form are the same sequence.
proof fn lemma_escaped_injective(a: Seq<u8>, b: Seq<u8>)
    requires
        escaped(a) == escaped(b),
    ensures
        a == b,
    decreases a.len(),
{
    if a.len() == 0 {
        if b.len() > 0 {
            lemma_escaped_byte_len(b[0]);
            assert(escaped(b).len() >= 1);
        }
        assert(a =~= b);
    } else if b.len() == 0 {
        lemma_escaped_byte_len(a[0]);
        assert(escaped(a).len() >= 1);
    } else {
        let first_a = escaped_byte(a[0]);
        let first_b = escaped_byte(b[0]);
        let rest_a = escaped(a.drop_first());
        let rest_b = escaped(b.drop_first());
        let whole = escaped(a);
        assert(whole == first_a + rest_a);
        assert(whole == first_b + rest_b);
        assert forall|k: int| 0 <= k < first_a.len() implies whole[k] == first_a[k] by {}
        assert forall|k: int| 0 <= k < first_b.len() implies whole[k] == first_b[k] by {}
        assert(whole[0] == first_a[0] && whole[0] == first_b[0]);
        if first_a[0] == BACKSLASH {
            assert(whole[1] == first_a[1] && whole[1] == first_b[1]);
            if first_a[1] == 0x75 {
                assert(whole[4] == first_a[4] && whole[4] == first_b[4]);
                assert(whole[5] == first_a[5] && whole[5] == first_b[5]);
            }
        }
        assert(a[0] == b[0]);
        assert(rest_a =~= whole.subrange(first_a.len() as int, whole.len() as int));
        assert(rest_b =~= whole.subrange(first_b.len() as int, whole.len() as int));
        lemma_escaped_injective(a.drop_first(), b.drop_first());
        assert(a =~= seq![a[0]] + a.drop_first());
        assert(b =~= seq![b[0]] + b.drop_first());
    }
}

/// Two strings with the same JSON token are the same string.
pub proof fn lemma_json_string_injective(first: Seq<char>, second: Seq<char>)
    requires
        json_string(first) == json_string(second),
    ensures
        first == second,
{
    let a = escaped(encode_utf8(first));
    let b = escaped(encode_utf8(second));
    let token = json_string(first);
    assert(token.len() == a.len() + 2 && token.len() == b.len() + 2);
    assert(a =~= token.subrange(1, token.len() - 1));
    assert(b =~= json_string(second).subrange(1, token.len() - 1));
    lemma_escaped_injective(encode_utf8(first), encode_utf8(second));
    encode_utf8_decode_utf8(first);
    encode_utf8_decode_utf8(second);
    assert(first == decode_utf8(encode_utf8(first)));
}

/// The JSON token of a string stands for that string.
pub proof fn lemma_json_string_value(text: Seq<char>)
    ensures
        json_string_value(json_string(text)) == Some(text),
{
    let token = json_string(text);
    let chosen = choose|other: Seq<char>| json_string(other) == token;
    lemma_json_string_injective(chosen, text);
}

} // verus!
