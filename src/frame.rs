//! Zero-free framing of whole messages with consistent-overhead byte
//! stuffing, so that a zero byte can end each frame on a byte stream.
use vstd::prelude::*;
use crate::de::from_bytes;
use crate::error::Error;
use crate::ser::to_vec;
use crate::value::{decode, encode, Shape, Value};

verus! {

/// What unstuffing the frame `frame` gives, if it is well formed.
pub uninterp spec fn cobs_decoded(frame: Seq<u8>) -> Option<Seq<u8>>;

/// The stuffed form of `data`, without a terminating zero.
pub uninterp spec fn cobs_encoded(data: Seq<u8>) -> Seq<u8>;

/// Relies on `cobs::decode_in_place`: on success the first `n` bytes of the
/// buffer hold the unstuffed message, and `n` is at most the buffer's length.
/// It fails exactly on frames it cannot unstuff. It never panics: every index
/// it writes lies at or behind the one it reads.
#[verifier::external_body]
fn cobs_decode_in_place(buf: &mut [u8]) -> (r: Result<usize, ()>)
    ensures
        final(buf)@.len() == old(buf)@.len(),
        r is Ok <==> cobs_decoded(old(buf)@) is Some,
        r matches Ok(n) ==> n <= old(buf)@.len() && final(buf)@.take(n as int) == cobs_decoded(
            old(buf)@,
        )->Some_0,
{
    cobs::decode_in_place(buf)
}

/// Relies on `cobs::encode_vec`: the stuffed form of the bytes, which depends
/// on them alone. Its source writes only non-zero bytes (data bytes that are
/// not zero, and run codes from 1 to 255) and never grows the vector past
/// `max_encoding_length`.
#[verifier::external_body]
fn cobs_encode(data: &[u8]) -> (r: Vec<u8>)
    ensures
        r@ == cobs_encoded(data@),
        forall|i: int| 0 <= i < r@.len() ==> r@[i] != 0,
        r@.len() <= data@.len() + data@.len() / 254 + 1,
{
    cobs::encode_vec(data)
}

/// Encodes `v` and stuffs it into a frame that ends with one zero byte, its
/// only zero byte.
pub fn to_vec_cobs(v: &Value) -> (r: Vec<u8>)
    ensures
        r@ == cobs_encoded(encode(v@)).push(0),
        r@.len() <= encode(v@).len() + encode(v@).len() / 254 + 2,
        r@.last() == 0,
        forall|i: int| 0 <= i < r@.len() - 1 ==> r@[i] != 0,
{
    let raw = to_vec(v);
    let mut out = cobs_encode(raw.as_slice());
    out.push(0);
    out
}

/// Unstuffs the frame in `s` in place, then decodes one value of the shape
/// `sh` from the message.
pub fn from_bytes_cobs(sh: &Shape, s: &mut [u8]) -> (r: Result<Value, Error>)
    ensures
        match cobs_decoded(old(s)@) {
            None => r == Err::<Value, Error>(Error::DeserializeBadEncoding),
            Some(msg) => match decode(*sh, msg) {
                Ok((v, _)) => r matches Ok(x) && x@ == v,
                Err(e) => r == Err::<Value, Error>(e),
            },
        },
{
    let sz = match cobs_decode_in_place(s) {
        Ok(n) => n,
        Err(_) => return Err(Error::DeserializeBadEncoding),
    };
    let (used, _unused) = s.split_at_mut(sz);
    from_bytes(sh, used)
}

/// Unstuffs the frame in `s` in place, decodes one value of the shape `sh`
/// from the message, and hands back the part of the buffer past the message.
pub fn take_from_bytes_cobs<'a>(sh: &Shape, s: &'a mut [u8]) -> (r: Result<(Value, &'a mut [u8]), Error>)
    ensures
        match cobs_decoded(old(s)@) {
            None => r matches Err(e) && e == Error::DeserializeBadEncoding,
            Some(msg) => match decode(*sh, msg) {
                Ok((v, _)) => r matches Ok((x, rest)) && x@ == v && rest@.len() == old(s)@.len() - msg.len(),
                Err(e) => r matches Err(f) && f == e,
            },
        },
{
    let sz = match cobs_decode_in_place(s) {
        Ok(n) => n,
        Err(_) => return Err(Error::DeserializeBadEncoding),
    };
    let (used, unused) = s.split_at_mut(sz);
    match from_bytes(sh, used) {
        Ok(v) => Ok((v, unused)),
        Err(e) => Err(e),
    }
}

} // verus!
