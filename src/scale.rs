//! The SCALE form of an optional `u64`, as parity-scale-codec writes it.
use vstd::prelude::*;

verus! {

/// The decoding error of parity-scale-codec.
#[verifier::external_type_specification]
#[verifier::external_body]
pub struct ExScaleError(parity_scale_codec::Error);

/// The eight bytes of `x`, least significant first.
pub open spec fn le_bytes(x: u64) -> Seq<u8> {
    seq![
        (x & 0xff) as u8,
        ((x >> 8u64) & 0xff) as u8,
        ((x >> 16u64) & 0xff) as u8,
        ((x >> 24u64) & 0xff) as u8,
        ((x >> 32u64) & 0xff) as u8,
        ((x >> 40u64) & 0xff) as u8,
        ((x >> 48u64) & 0xff) as u8,
        ((x >> 56u64) & 0xff) as u8,
    ]
}

/// The number whose eight bytes, least significant first, start `b`.
pub open spec fn from_le(b: Seq<u8>) -> u64 {
    (b[0] as u64) | ((b[1] as u64) << 8u64) | ((b[2] as u64) << 16u64) | ((b[3] as u64) << 24u64)
        | ((b[4] as u64) << 32u64) | ((b[5] as u64) << 40u64) | ((b[6] as u64) << 48u64) | ((
    b[7] as u64) << 56u64)
}

/// The bytes of an optional `u64`: a tag byte, 0 for none and 1 for some,
/// then the number's eight bytes.
pub open spec fn option_u64_bytes(v: Option<u64>) -> Seq<u8> {
    match v {
        None => seq![0u8],
        Some(x) => seq![1u8] + le_bytes(x),
    }
}

/// What reading an optional `u64` from the start of `b` gives, with the
/// number of bytes read; `None` where `b` does not start with one.
pub open spec fn option_u64_parse(b: Seq<u8>) -> Option<(Option<u64>, nat)> {
    if b.len() >= 1 && b[0] == 0 {
        Some((None, 1))
    } else if b.len() >= 9 && b[0] == 1 {
        Some((Some(from_le(b.subrange(1, 9))), 9))
    } else {
        None
    }
}

/// Reading back the bytes of a number gives the number.
pub proof fn lemma_from_le_bytes(x: u64)
    ensures
        from_le(le_bytes(x)) == x,
{
    let b = le_bytes(x);
    assert(b[0] == (x & 0xff) as u8);
    assert(b[1] == ((x >> 8u64) & 0xff) as u8);
    assert(b[2] == ((x >> 16u64) & 0xff) as u8);
    assert(b[3] == ((x >> 24u64) & 0xff) as u8);
    assert(b[4] == ((x >> 32u64) & 0xff) as u8);
    assert(b[5] == ((x >> 40u64) & 0xff) as u8);
    assert(b[6] == ((x >> 48u64) & 0xff) as u8);
    assert(b[7] == ((x >> 56u64) & 0xff) as u8);
    assert(((x & 0xff) as u8 as u64) | ((((x >> 8u64) & 0xff) as u8 as u64) << 8u64) | ((((x
        >> 16u64) & 0xff) as u8 as u64) << 16u64) | ((((x >> 24u64) & 0xff) as u8 as u64)
        << 24u64) | ((((x >> 32u64) & 0xff) as u8 as u64) << 32u64) | ((((x >> 40u64) & 0xff)
        as u8 as u64) << 40u64) | ((((x >> 48u64) & 0xff) as u8 as u64) << 48u64) | ((((x
        >> 56u64) & 0xff) as u8 as u64) << 56u64) == x) by (bit_vector);
}

/// Relies on `parity_scale_codec::Encode::encode` for `Option<u64>`: a tag
/// byte, 0 for `None` and 1 for `Some`, then `u64::to_le_bytes` of the number.
#[verifier::external_body]
pub(crate) fn scale_encode_option_u64(v: &Option<u64>) -> (r: Vec<u8>)
    ensures
        r@ == option_u64_bytes(*v),
{
    parity_scale_codec::Encode::encode(v)
}

/// Relies on `parity_scale_codec::Decode::decode` for `Option<u64>` reading
/// from a byte slice: tag 0 gives `None`, tag 1 followed by eight bytes gives
/// `Some(u64::from_le_bytes(..))`, anything else is an error. Returns the
/// decoded value and the number of bytes left unread.
#[verifier::external_body]
pub(crate) fn scale_decode_option_u64(input: &[u8]) -> (r: Result<
    (Option<u64>, usize),
    parity_scale_codec::Error,
>)
    ensures
        match r {
            Ok((v, left)) => left <= input@.len() && option_u64_parse(input@) == Some(
                (v, (input@.len() - left) as nat),
            ),
            Err(_) => option_u64_parse(input@) is None,
        },
{
    let mut rest = input;
    match <Option<u64> as parity_scale_codec::Decode>::decode(&mut rest) {
        Ok(v) => Ok((v, rest.len())),
        Err(e) => Err(e),
    }
}

} // verus!
