//! The fixed outline of a stored object: three fields in one order, without white space.

use vstd::prelude::*;
use vstd::slice::slice_subrange;
use crate::ascii::{ascii_bytes, has_ascii_at, push_ascii};
use crate::decimal::{
    decimal_bytes, digits_end, find_digits_end, is_digit, lemma_decimal_bytes_value,
    lemma_digits_end, lemma_digits_end_bounds, lemma_parsed_decimal, parse_decimal,
    parsed_decimal, push_decimal,
};
use crate::json::{
    closing_quote, find_closing_quote, is_string_token, lemma_closing_quote_bounds,
    lemma_closing_quote_moves, QUOTE,
};

verus! {

/// The opening brace and the name of the first field.
pub open spec fn deadline_label() -> Seq<u8> {
    ascii_bytes("{\"deadline_ms\":"@)
}

/// The separator and the name of the second field.
pub open spec fn request_id_label() -> Seq<u8> {
    ascii_bytes(",\"request_id\":"@)
}

/// The separator and the name of the third field.
pub open spec fn function_arn_label() -> Seq<u8> {
    ascii_bytes(",\"invoked_function_arn\":"@)
}

/// The length of the opening brace and the name of the first field.
pub const DEADLINE_LABEL_LEN: usize = 15;

/// The length of the separator and the name of the second field.
pub const REQUEST_ID_LABEL_LEN: usize = 14;

/// The length of the separator and the name of the third field.
pub const FUNCTION_ARN_LABEL_LEN: usize = 24;

/// The ASCII code of the brace that closes the object.
pub const CLOSING_BRACE: u8 = 0x7d;

/// The closing brace.
pub open spec fn closing_brace() -> Seq<u8> {
    ascii_bytes("}"@)
}

/// The JSON object of a record, given the JSON tokens of its two strings: the three fields in
/// their fixed order, without white space.
pub open spec fn record_json(deadline_ms: u64, request_id_json: Seq<u8>, arn_json: Seq<u8>) -> Seq<
    u8,
> {
    deadline_label() + decimal_bytes(deadline_ms as nat) + request_id_label() + request_id_json
        + function_arn_label() + arn_json + closing_brace()
}

/// Whether `body` is the JSON object of a record with this deadline and these two string
/// tokens.
pub open spec fn frames(
    body: Seq<u8>,
    deadline_ms: u64,
    request_id_json: Seq<u8>,
    arn_json: Seq<u8>,
) -> bool {
    &&& is_string_token(request_id_json)
    &&& is_string_token(arn_json)
    &&& body == record_json(deadline_ms, request_id_json, arn_json)
}

/// The lengths of the four fixed parts, and the bytes on which reading relies.
proof fn lemma_labels()
    ensures
        deadline_label().len() == DEADLINE_LABEL_LEN,
        request_id_label().len() == REQUEST_ID_LABEL_LEN,
        request_id_label()[0] == 44,
        function_arn_label().len() == FUNCTION_ARN_LABEL_LEN,
        closing_brace() == seq![CLOSING_BRACE],
{
    reveal_strlit("{\"deadline_ms\":");
    reveal_strlit(",\"request_id\":");
    reveal_strlit(",\"invoked_function_arn\":");
    reveal_strlit("}");
    assert(closing_brace() =~= seq![CLOSING_BRACE]);
}

/// Frames the JSON object of a record around the JSON tokens of its two strings.
pub fn frame(deadline_ms: u64, request_id_json: &[u8], arn_json: &[u8]) -> (body: Vec<u8>)
    ensures
        body@ == record_json(deadline_ms, request_id_json@, arn_json@),
{
    proof {
        reveal_strlit("{\"deadline_ms\":");
        reveal_strlit(",\"request_id\":");
        reveal_strlit(",\"invoked_function_arn\":");
        reveal_strlit("}");
    }
    let mut body: Vec<u8> = Vec::new();
    push_ascii(&mut body, "{\"deadline_ms\":");
    push_decimal(&mut body, deadline_ms);
    push_ascii(&mut body, ",\"request_id\":");
    body.extend_from_slice(request_id_json);
    push_ascii(&mut body, ",\"invoked_function_arn\":");
    body.extend_from_slice(arn_json);
    push_ascii(&mut body, "}");
    body
}

/// Where the parts of a framed object lie, each place given by what stands before it.
proof fn lemma_frame_layout(
    body: Seq<u8>,
    deadline_ms: u64,
    request_id_json: Seq<u8>,
    arn_json: Seq<u8>,
)
    requires
        frames(body, deadline_ms, request_id_json, arn_json),
    ensures
        ({
            let digits_from = DEADLINE_LABEL_LEN as int;
            let digits_to = digits_end(body, digits_from);
            let first = digits_to + REQUEST_ID_LABEL_LEN;
            let second = first + request_id_json.len() + FUNCTION_ARN_LABEL_LEN;
            &&& body.subrange(0, digits_from) == deadline_label()
            &&& digits_from < digits_to
            &&& body.subrange(digits_from, digits_to) == decimal_bytes(deadline_ms as nat)
            &&& body.subrange(digits_to, first) == request_id_label()
            &&& body[first] == QUOTE
            &&& closing_quote(body, first + 1) == Some(first + request_id_json.len() - 1)
            &&& body.subrange(first, first + request_id_json.len()) == request_id_json
            &&& body.subrange(first + request_id_json.len(), second) == function_arn_label()
            &&& body[second] == QUOTE
            &&& closing_quote(body, second + 1) == Some(second + arn_json.len() - 1)
            &&& body.subrange(second, second + arn_json.len()) == arn_json
            &&& body.len() == second + arn_json.len() + 1
            &&& body[second + arn_json.len()] == CLOSING_BRACE
        }),
{
    lemma_labels();
    let digits = decimal_bytes(deadline_ms as nat);
    lemma_decimal_bytes_value(deadline_ms as nat);
    let x = request_id_json;
    let y = arn_json;
    let upto_deadline = deadline_label() + digits;
    let upto_first = upto_deadline + request_id_label() + x;
    let upto_second = upto_first + function_arn_label() + y;
    assert(body == upto_second + closing_brace());
    let to: int = 15int + digits.len();
    let first: int = to + 14;
    let second: int = first + x.len() + 24;
    assert(body.len() == second + y.len() + 1);
    assert forall|i: int| 15 <= i < to implies is_digit(#[trigger] body[i]) by {
        assert(body[i] == digits[i - 15]);
    }
    assert(body[to] == request_id_label()[0]);
    lemma_digits_end(body, 15, to);
    assert(body.subrange(0, 15) =~= deadline_label());
    assert(body.subrange(15, to) =~= digits);
    assert(body.subrange(to, first) =~= request_id_label());
    assert(body.subrange(first, first + x.len()) =~= x);
    assert(body.subrange(first + x.len(), second) =~= function_arn_label());
    assert(body.subrange(second, second + y.len()) =~= y);
    assert(body[first] == x[0]);
    assert(body[second] == y[0]);
    assert(x.subrange(1, x.len() as int) =~= body.subrange(first + 1, first + x.len()));
    lemma_closing_quote_moves(x, 1, x.len() - 1, body, first + 1);
    assert(y.subrange(1, y.len() as int) =~= body.subrange(second + 1, second + y.len()));
    lemma_closing_quote_moves(y, 1, y.len() - 1, body, second + 1);
}

/// One object frames one deadline and one pair of string tokens.
pub proof fn lemma_frame_unique(
    body: Seq<u8>,
    deadline_ms: u64,
    request_id_json: Seq<u8>,
    arn_json: Seq<u8>,
    other_deadline_ms: u64,
    other_request_id_json: Seq<u8>,
    other_arn_json: Seq<u8>,
)
    requires
        frames(body, deadline_ms, request_id_json, arn_json),
        frames(body, other_deadline_ms, other_request_id_json, other_arn_json),
    ensures
        deadline_ms == other_deadline_ms,
        request_id_json == other_request_id_json,
        arn_json == other_arn_json,
{
    lemma_frame_layout(body, deadline_ms, request_id_json, arn_json);
    lemma_frame_layout(body, other_deadline_ms, other_request_id_json, other_arn_json);
    lemma_decimal_bytes_value(deadline_ms as nat);
    lemma_decimal_bytes_value(other_deadline_ms as nat);
}

/// What reading `body` from left to right finds: the fixed parts in their places, between
/// them a decimal number and two spans that each run from a double quote to the first
/// unescaped double quote after it.
pub open spec fn unframed(body: Seq<u8>) -> Option<(u64, Seq<u8>, Seq<u8>)> {
    let digits_from = deadline_label().len() as int;
    let digits_to = digits_end(body, digits_from);
    let first = digits_to + request_id_label().len();
    if body.len() >= digits_from && body.subrange(0, digits_from) == deadline_label() && first
        < body.len() && body.subrange(digits_to, first) == request_id_label() && body[first]
        == QUOTE {
        match (
            parsed_decimal(body.subrange(digits_from, digits_to)),
            closing_quote(body, first + 1),
        ) {
            (Some(deadline_ms), Some(first_close)) => {
                let second = first_close + 1 + function_arn_label().len();
                if second < body.len() && body.subrange(first_close + 1, second)
                    == function_arn_label() && body[second] == QUOTE && closing_quote(
                    body,
                    second + 1,
                ) == Some(body.len() - 2) && body[body.len() - 1] == CLOSING_BRACE {
                    Some(
                        (
                            deadline_ms,
                            body.subrange(first, first_close + 1),
                            body.subrange(second, body.len() - 1),
                        ),
                    )
                } else {
                    None
                }
            },
            _ => None,
        }
    } else {
        None
    }
}

/// Reading finds the parts of an object exactly where the object frames them.
pub proof fn lemma_unframed(
    body: Seq<u8>,
    deadline_ms: u64,
    request_id_json: Seq<u8>,
    arn_json: Seq<u8>,
)
    ensures
        unframed(body) == Some((deadline_ms, request_id_json, arn_json)) <==> frames(
            body,
            deadline_ms,
            request_id_json,
            arn_json,
        ),
{
    lemma_labels();
    if frames(body, deadline_ms, request_id_json, arn_json) {
        lemma_frame_layout(body, deadline_ms, request_id_json, arn_json);
        lemma_parsed_decimal(body.subrange(15, digits_end(body, 15)), deadline_ms);
    }
    if unframed(body) == Some((deadline_ms, request_id_json, arn_json)) {
        let digits_to = digits_end(body, 15);
        let first = digits_to + 14;
        let first_close = closing_quote(body, first + 1)->0;
        let second = first_close + 25;
        let x = request_id_json;
        let y = arn_json;
        lemma_digits_end_bounds(body, 15);
        lemma_parsed_decimal(body.subrange(15, digits_to), deadline_ms);
        lemma_closing_quote_bounds(body, first + 1);
        lemma_closing_quote_bounds(body, second + 1);
        assert(body.subrange(first + 1, first_close + 1) =~= x.subrange(1, x.len() as int));
        lemma_closing_quote_moves(body, first + 1, first_close, x, 1);
        assert(body.subrange(second + 1, body.len() - 1) =~= y.subrange(1, y.len() as int));
        lemma_closing_quote_moves(body, second + 1, body.len() - 2, y, 1);
        assert(body =~= record_json(deadline_ms, x, y));
    }
}

/// Reads `body` from left to right.
fn read_parts<'a>(body: &'a [u8]) -> (parts: Option<(u64, &'a [u8], &'a [u8])>)
    ensures
        match parts {
            Some((deadline_ms, request_id_json, arn_json)) => unframed(body@) == Some(
                (deadline_ms, request_id_json@, arn_json@),
            ),
            None => unframed(body@) is None,
        },
{
    proof {
        lemma_labels();
        reveal_strlit("{\"deadline_ms\":");
        reveal_strlit(",\"request_id\":");
        reveal_strlit(",\"invoked_function_arn\":");
    }
    let len = body.len();
    if !has_ascii_at(body, 0, "{\"deadline_ms\":") {
        return None;
    }
    let digits_to = find_digits_end(body, DEADLINE_LABEL_LEN);
    if !has_ascii_at(body, digits_to, ",\"request_id\":") {
        return None;
    }
    let first = digits_to + REQUEST_ID_LABEL_LEN;
    if first >= len || body[first] != QUOTE {
        return None;
    }
    let deadline_ms = match parse_decimal(body, DEADLINE_LABEL_LEN, digits_to) {
        Some(deadline_ms) => deadline_ms,
        None => {
            return None;
        },
    };
    let first_close = match find_closing_quote(body, first + 1) {
        Some(at) => at,
        None => {
            return None;
        },
    };
    proof {
        lemma_closing_quote_bounds(body@, first + 1);
    }
    if !has_ascii_at(body, first_close + 1, ",\"invoked_function_arn\":") {
        return None;
    }
    let second = first_close + 1 + FUNCTION_ARN_LABEL_LEN;
    if second >= len || body[second] != QUOTE {
        return None;
    }
    let second_close = match find_closing_quote(body, second + 1) {
        Some(at) => at,
        None => {
            return None;
        },
    };
    proof {
        lemma_closing_quote_bounds(body@, second + 1);
    }
    if len - second_close != 2 || body[len - 1] != CLOSING_BRACE {
        return None;
    }
    Some(
        (
            deadline_ms,
            slice_subrange(body, first, first_close + 1),
            slice_subrange(body, second, len - 1),
        ),
    )
}

/// Takes the JSON object of a record apart into its deadline and the JSON tokens of its two
/// strings, where `body` is such an object.
pub fn unframe<'a>(body: &'a [u8]) -> (parts: Option<(u64, &'a [u8], &'a [u8])>)
    ensures
        match parts {
            Some((deadline_ms, request_id_json, arn_json)) => frames(
                body@,
                deadline_ms,
                request_id_json@,
                arn_json@,
            ),
            None => forall|deadline_ms: u64, request_id_json: Seq<u8>, arn_json: Seq<u8>|
                !frames(body@, deadline_ms, request_id_json, arn_json),
        },
{
    let parts = read_parts(body);
    proof {
        match parts {
            Some((deadline_ms, request_id_json, arn_json)) => {
                lemma_unframed(body@, deadline_ms, request_id_json@, arn_json@);
            },
            None => {
                assert forall|d: u64, x: Seq<u8>, y: Seq<u8>| !frames(body@, d, x, y) by {
                    lemma_unframed(body@, d, x, y);
                }
            },
        }
    }
    parts
}

} // verus!
