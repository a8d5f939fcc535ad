//! Bech32m text encoding of identifiers, through the `bech32` crate.

use vstd::prelude::*;

verus! {

/// The Bech32m string that `bech32::encode::<Bech32m>` produces for payload
/// bytes under a human-readable part read by `Hrp::parse` (the part must be
/// read before it can be handed over), or `None` where either refuses
/// (invalid part, too long).
pub uninterp spec fn bech32m_encoding(hrp: Seq<char>, data: Seq<u8>) -> Option<Seq<char>>;

/// What `bech32::decode` returns for a string: the human-readable part and
/// the payload bytes, or `None` where it refuses the string.
pub uninterp spec fn bech32_decoding(s: Seq<char>) -> Option<(Seq<char>, Seq<u8>)>;

/// A human-readable part that `bech32` keeps unchanged: 1 to 83 printable
/// ASCII characters, none of them upper case.
pub open spec fn lowercase_hrp(h: Seq<char>) -> bool {
    &&& 1 <= h.len() <= 83
    &&& forall|i: int| 0 <= i < h.len() ==> 33 <= #[trigger] (h[i] as u32) <= 126 && !(65 <= (
        h[i] as u32) <= 90)
}

/// Encodes `data` with `bech32::encode::<Bech32m>` under the human-readable
/// part `hrp` (parsed with `Hrp::parse`). The contract ties the result to
/// [`bech32m_encoding`]; the error text is `bech32`'s own.
#[verifier::external_body]
pub(crate) fn bech32m_encode(hrp: &str, data: &[u8]) -> (r: core::result::Result<String, String>)
    ensures
        (r is Ok) == (bech32m_encoding(hrp@, data@) is Some),
        r matches Ok(s) ==> bech32m_encoding(hrp@, data@) == Some(s@),
{
    let hrp = match bech32::Hrp::parse(hrp) {
        Ok(h) => h,
        Err(e) => return Err(e.to_string()),
    };
    match bech32::encode::<bech32::Bech32m>(hrp, data) {
        Ok(s) => Ok(s),
        Err(e) => Err(e.to_string()),
    }
}

/// The two parts of a decoded Bech32 string.
pub struct Bech32Parts {
    /// Human-readable part.
    pub hrp: String,
    /// Payload bytes.
    pub data: Vec<u8>,
}

/// Decodes a Bech32 or Bech32m string with `bech32::decode`, returning the
/// human-readable part (`Hrp::as_str`) and the payload. The contract ties the
/// result to [`bech32_decoding`] and states the documented round trip: a
/// string that `bech32m_encode` produced for a lower-case part decodes to
/// that part and payload.
#[verifier::external_body]
pub(crate) fn bech32_decode(s: &str) -> (r: core::result::Result<Bech32Parts, String>)
    ensures
        (r is Ok) == (bech32_decoding(s@) is Some),
        r matches Ok(p) ==> bech32_decoding(s@) == Some((p.hrp@, p.data@)),
        forall|h: Seq<char>, d: Seq<u8>|
            #![trigger bech32m_encoding(h, d)]
            (r matches Ok(p) && p.hrp@ == h && p.data@ == d) || !(lowercase_hrp(h)
                && bech32m_encoding(h, d) == Some(s@)),
{
    match bech32::decode(s) {
        Ok((hrp, data)) => Ok(Bech32Parts { hrp: hrp.as_str().to_string(), data }),
        Err(e) => Err(e.to_string()),
    }
}

} // verus!
