use vstd::prelude::*;
use hmac::Mac;

verus! {

/// The HMAC-SHA-256 tag of a message under a key. The algorithm takes pages
/// to state, so the result only carries a name here; it is a function of the
/// key and the message alone, the same in every process.
pub uninterp spec fn mac_of(key: Seq<u8>, msg: Seq<u8>) -> Seq<u8>;

/// Relies on hmac::Hmac<sha2::Sha256>: the tag is 32 bytes, determined by
/// key and message alone; HMAC accepts keys of any length, so
/// new_from_slice cannot fail.
#[verifier::external_body]
pub(crate) fn hmac_sha256(key: &Vec<u8>, msg: &Vec<u8>) -> (r: Vec<u8>)
    ensures
        r@ == mac_of(key@, msg@),
        r@.len() == 32,
{
    let mut m = <hmac::Hmac<sha2::Sha256> as hmac::KeyInit>::new_from_slice(key.as_slice())
        .expect("HMAC accepts keys of any length");
    m.update(msg.as_slice());
    m.finalize().into_bytes().to_vec()
}

} // verus!
