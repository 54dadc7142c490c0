//! Text carried in decrypted fields: the bytes before the first NUL, which
//! must be valid UTF-8.
use vstd::prelude::*;
use vstd::utf8::{decode_utf8, valid_utf8};

verus! {

/// Relies on std::str::from_utf8: `Ok` exactly on valid UTF-8, holding the
/// decoded characters.
#[verifier::external_body]
fn utf8_decode(b: &[u8]) -> (r: Option<String>)
    ensures
        r is Some <==> valid_utf8(b@),
        r matches Some(s) ==> s@ == decode_utf8(b@),
{
    match std::str::from_utf8(b) {
        Ok(s) => Some(s.to_string()),
        Err(_) => None,
    }
}

/// Index of the first zero byte of `s` at or after `i`, or its length.
pub open spec fn nul_from(s: Seq<u8>, i: int) -> int
    decreases s.len() - i,
{
    if i < 0 || i >= s.len() {
        s.len() as int
    } else if s[i] == 0 {
        i
    } else {
        nul_from(s, i + 1)
    }
}

/// The text part of a field: its bytes before the first zero byte.
pub open spec fn text_part(s: Seq<u8>) -> Seq<u8> {
    s.take(nul_from(s, 0))
}

proof fn lemma_nul_from_bounds(s: Seq<u8>, i: int)
    requires
        0 <= i <= s.len(),
    ensures
        i <= nul_from(s, i) <= s.len(),
    decreases s.len() - i,
{
    if i < s.len() && s[i] != 0 {
        lemma_nul_from_bounds(s, i + 1);
    }
}

/// Decodes the text part of a field; `None` where it is not valid UTF-8.
pub fn field_text(s: &[u8]) -> (r: Option<String>)
    ensures
        r is Some <==> valid_utf8(text_part(s@)),
        r matches Some(t) ==> t@ == decode_utf8(text_part(s@)),
{
    let mut i: usize = 0;
    while i < s.len() && s[i] != 0
        invariant
            0 <= i <= s@.len(),
            nul_from(s@, 0) == nul_from(s@, i as int),
        decreases s@.len() - i,
    {
        i = i + 1;
    }
    proof {
        lemma_nul_from_bounds(s@, i as int);
    }
    let t = vstd::slice::slice_subrange(s, 0, i);
    assert(t@ =~= text_part(s@));
    utf8_decode(t)
}

} // verus!
