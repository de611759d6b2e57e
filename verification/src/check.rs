//! Verifying a downloaded object against its recorded checksum: hash the
//! content, encode the digest, compare with the record.

use vstd::prelude::*;

use md5::Digest;
use base64::Engine;

use crate::meta::Meta;
use crate::strutil::str_eq;

verus! {

/// What the MD5 digest of given bytes is: a function of the bytes alone,
/// computed by the md5 crate.
pub uninterp spec fn md5_of(data: Seq<u8>) -> Seq<u8>;

/// What the standard base64 encoding (padded) of given bytes is: a
/// function of the bytes alone, computed by the base64 crate.
pub uninterp spec fn base64_of(data: Seq<u8>) -> Seq<char>;

/// Relies on the md5 crate's `Md5::digest`: the 16-byte MD5 digest of the
/// input, depending on the input bytes alone.
#[verifier::external_body]
fn md5_digest(data: &Vec<u8>) -> (r: Vec<u8>)
    ensures
        r@ == md5_of(data@),
        r@.len() == 16,
{
    md5::Md5::digest(data.as_slice()).to_vec()
}

/// Relies on the base64 crate's `STANDARD.encode`: the padded standard
/// base64 rendering of the input, four characters per three input bytes,
/// depending on the input bytes alone.
#[verifier::external_body]
fn base64_encode(data: &Vec<u8>) -> (r: String)
    ensures
        r@ == base64_of(data@),
        r@.len() == 4 * ((data@.len() + 2) / 3),
{
    base64::engine::general_purpose::STANDARD.encode(data.as_slice())
}

/// Whether the content bytes of an object hash to its recorded checksum:
/// the base64 rendering of the MD5 digest of `data` equals the record's
/// hash field.
pub fn check_md5_sum(data: &Vec<u8>, meta: &Meta) -> (r: bool)
    ensures
        r == (base64_of(md5_of(data@)) == meta.md5_hash@),
{
    let digest = md5_digest(data);
    let encoded = base64_encode(&digest);
    str_eq(encoded.as_str(), meta.md5_hash.as_str())
}

} // verus!
