//! Resource requests: the inner request's decoding, the file path it names
//! and the encoded reply.
use vstd::prelude::*;
use vstd::bytes::{spec_u32_from_le_bytes, spec_u64_from_le_bytes, u64_from_le_bytes};
use vstd::string::*;
use vstd::utf8::{decode_utf8, valid_utf8};

use crate::messages::ProtocolError;

verus! {

#[verifier::external_type_specification]
#[verifier::external_body]
pub struct ExDecodeError(bincode::error::DecodeError);

#[verifier::external_type_specification]
#[verifier::external_body]
pub struct ExEncodeError(bincode::error::EncodeError);

/// The length prefix of the string in an encoded request: the
/// little-endian 64-bit integer at bytes 4 to 12.
pub open spec fn string_len_prefix(b: Seq<u8>) -> int {
    spec_u64_from_le_bytes(b.subrange(4, 12)) as int
}

/// What bincode's legacy configuration (little endian, fixed-width integers)
/// decodes from the front of `b` as `(u32, String)`: a little-endian 32-bit
/// id, a little-endian 64-bit length, then that many bytes of UTF-8; with
/// the number of bytes read. `None` where it fails.
pub open spec fn legacy_request(b: Seq<u8>) -> Option<(u32, Seq<char>, int)> {
    if b.len() < 12 {
        None
    } else {
        let n = string_len_prefix(b);
        let text = b.subrange(12, 12 + n);
        if n > b.len() - 12 || !valid_utf8(text) {
            None
        } else {
            Some((spec_u32_from_le_bytes(b.subrange(0, 4)), decode_utf8(text), 12 + n))
        }
    }
}

/// Relies on bincode::decode_from_slice with `config::legacy()` for
/// `(u32, String)`. bincode allocates the string's buffer at the length read
/// from the input before reading it, so a length prefix beyond the bytes
/// present is excluded.
#[verifier::external_body]
fn decode_legacy_request(b: &[u8]) -> (r: Result<(u32, String, usize), bincode::error::DecodeError>)
    requires
        b@.len() >= 12 ==> string_len_prefix(b@) <= b@.len() - 12,
    ensures
        match r {
            Ok((id, s, n)) => legacy_request(b@) == Some((id, s@, n as int)),
            Err(_) => legacy_request(b@) is None,
        },
{
    match bincode::decode_from_slice::<(u32, String), _>(b, bincode::config::legacy()) {
        Ok(((id, s), n)) => Ok((id, s, n)),
        Err(e) => Err(e),
    }
}

/// Little-endian bytes of a 32-bit integer.
pub open spec fn le32(x: u32) -> Seq<u8> {
    seq![
        (x & 0xff) as u8,
        ((x >> 8u32) & 0xff) as u8,
        ((x >> 16u32) & 0xff) as u8,
        ((x >> 24u32) & 0xff) as u8,
    ]
}

/// Relies on bincode::encode_to_vec with `config::legacy()` for `(u32, u32)`:
/// each integer as four little-endian bytes, in order; the vector writer
/// never fails.
#[verifier::external_body]
fn encode_legacy_pair(a: u32, b: u32) -> (r: Result<Vec<u8>, bincode::error::EncodeError>)
    ensures
        r is Ok,
        r matches Ok(v) ==> v@ == le32(a) + le32(b),
{
    bincode::encode_to_vec((a, b), bincode::config::legacy())
}

/// Tag at the head of every resource reply.
pub const RESOURCE_TAG: u32 = 1;

/// A resource request decoded: its numeric id and the resource's hash.
pub struct ResourceRequest {
    pub nation: u32,
    pub srchash: String,
}

/// Whether a resource name stays inside the resource directory: it holds
/// no path separator.
pub open spec fn name_ok(s: Seq<char>) -> bool {
    forall|i: int| 0 <= i < s.len() ==> #[trigger] s[i] != '/' && s[i] != '\\'
}

/// Decodes the inner request of a resource message; the encoding must take
/// up the whole payload.
pub fn decode_resource_request(payload: &[u8]) -> (r: Result<ResourceRequest, ProtocolError>)
    ensures
        match legacy_request(payload@) {
            None => r == Err::<ResourceRequest, ProtocolError>(ProtocolError::MalformedRequest),
            Some((id, s, n)) => if n != payload@.len() {
                r == Err::<ResourceRequest, ProtocolError>(ProtocolError::TrailingData)
            } else {
                r matches Ok(q) && q.nation == id && q.srchash@ == s
            },
        },
{
    if payload.len() >= 12 {
        let n = u64_from_le_bytes(vstd::slice::slice_subrange(payload, 4, 12));
        if n > (payload.len() - 12) as u64 {
            return Err(ProtocolError::MalformedRequest);
        }
    }
    match decode_legacy_request(payload) {
        Err(_) => Err(ProtocolError::MalformedRequest),
        Ok((nation, srchash, n)) => {
            if n != payload.len() {
                Err(ProtocolError::TrailingData)
            } else {
                Ok(ResourceRequest { nation, srchash })
            }
        },
    }
}

/// Whether `name` holds no path separator.
pub fn resource_name_ok(name: &str) -> (r: bool)
    ensures
        r == name_ok(name@),
{
    let n = name.unicode_len();
    let mut i: usize = 0;
    while i < n
        invariant
            0 <= i <= n,
            n == name@.len(),
            forall|j: int| 0 <= j < i ==> #[trigger] name@[j] != '/' && name@[j] != '\\',
        decreases n - i,
    {
        let c = name.get_char(i);
        if c == '/' || c == '\\' {
            return false;
        }
        i = i + 1;
    }
    true
}

/// The path of the resource file for `hash`:
/// `<dir>/resources/esym/<hash>.esym`.
pub fn resource_path(dir: &str, hash: &str) -> (r: String)
    ensures
        r@ == dir@ + "/resources/esym/"@ + hash@ + ".esym"@,
{
    let mut p = String::from_str(dir);
    p.append("/resources/esym/");
    p.append(hash);
    p.append(".esym");
    p
}

/// The reply to a resource request: the tag, the byte length, then the raw
/// bytes. Fails only where the length does not fit in 32 bits.
pub fn resource_reply(data: &[u8]) -> (r: Result<Vec<u8>, ProtocolError>)
    ensures
        data@.len() > u32::MAX ==> r == Err::<Vec<u8>, ProtocolError>(
            ProtocolError::ResourceTooLarge,
        ),
        data@.len() <= u32::MAX ==> (r matches Ok(v) && v@ == le32(RESOURCE_TAG) + le32(
            data@.len() as u32,
        ) + data@),
{
    if data.len() > 0xffff_ffffusize {
        return Err(ProtocolError::ResourceTooLarge);
    }
    let len = data.len() as u32;
    match encode_legacy_pair(RESOURCE_TAG, len) {
        Err(_) => Err(ProtocolError::EncodeFailed),
        Ok(mut v) => {
            let ghost head = v@;
            let mut i: usize = 0;
            while i < data.len()
                invariant
                    0 <= i <= data@.len(),
                    v@ == head + data@.take(i as int),
                decreases data@.len() - i,
            {
                v.push(data[i]);
                i = i + 1;
                assert(data@.take(i as int) =~= data@.take(i - 1).push(data@[i - 1]));
            }
            assert(data@.take(data@.len() as int) =~= data@);
            Ok(v)
        },
    }
}

} // verus!
