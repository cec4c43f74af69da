//! ASCII text as bytes.

use vstd::prelude::*;

verus! {

/// ASCII text as the bytes that encode it.
pub open spec fn ascii_bytes(text: Seq<char>) -> Seq<u8> {
    Seq::new(text.len(), |i: int| text[i] as u8)
}

/// Appends ASCII text to `out` as bytes.
pub(crate) fn push_ascii(out: &mut Vec<u8>, text: &str)
    requires
        text.is_ascii(),
    ensures
        final(out)@ == old(out)@ + ascii_bytes(text@),
{
    broadcast use vstd::string::is_ascii_spec_bytes;

    let bytes = text.as_bytes();
    let mut i: usize = 0;
    while i < bytes.len()
        invariant
            i <= bytes@.len(),
            bytes@ == ascii_bytes(text@),
            out@ == old(out)@ + ascii_bytes(text@).subrange(0, i as int),
        decreases bytes.len() - i,
    {
        out.push(bytes[i]);
        i = i + 1;
    }
    assert(ascii_bytes(text@).subrange(0, i as int) == ascii_bytes(text@));
}

/// Whether the bytes of the ASCII text `text` stand in `bytes` at index `at`.
pub(crate) fn has_ascii_at(bytes: &[u8], at: usize, text: &str) -> (found: bool)
    requires
        text.is_ascii(),
    ensures
        found == (at + text@.len() <= bytes@.len() && bytes@.subrange(
            at as int,
            at + text@.len(),
        ) == ascii_bytes(text@)),
{
    broadcast use vstd::string::is_ascii_spec_bytes;

    let sought = text.as_bytes();
    assert(sought@ == ascii_bytes(text@));
    let len = bytes.len();
    if at > len || sought.len() > len - at {
        return false;
    }
    let ghost window = bytes@.subrange(at as int, at + text@.len());
    let mut i: usize = 0;
    while i < sought.len()
        invariant
            i <= sought@.len(),
            at + sought@.len() <= len == bytes@.len(),
            sought@ == ascii_bytes(text@),
            window == bytes@.subrange(at as int, at + text@.len()),
            forall|k: int| 0 <= k < i ==> window[k] == sought@[k],
        decreases sought.len() - i,
    {
        if bytes[at + i] != sought[i] {
            assert(window[i as int] != sought@[i as int]);
            return false;
        }
        i = i + 1;
    }
    assert(window =~= sought@);
    true
}

} // verus!
