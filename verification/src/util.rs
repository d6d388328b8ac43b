//! Utilities beside the extraction core: content hashing of uploaded
//! files and the worker-pool sizing query.

use vstd::prelude::*;

verus! {

/// The lowercase hexadecimal BLAKE3 digest of a byte sequence; a
/// function of the bytes alone.
pub uninterp spec fn blake3_hex(bytes: Seq<u8>) -> Seq<char>;

/// Relies on blake3::hash and on blake3::Hash's hexadecimal display:
/// the digest depends on the input bytes alone and prints as 64
/// (two per digest byte) lowercase hexadecimal characters.
#[verifier::external_body]
fn blake3_hex_string(bytes: &Vec<u8>) -> (r: String)
    ensures
        r@ == blake3_hex(bytes@),
        r@.len() == 64,
{
    blake3::hash(bytes).to_string()
}

/// The content digest of one uploaded file's bytes.
pub fn hash_file(bytes: Vec<u8>) -> (r: String)
    ensures
        r@ == blake3_hex(bytes@),
        r@.len() == 64,
{
    blake3_hex_string(&bytes)
}

/// Relies on num_cpus::get, whose documentation promises a result of
/// at least 1.
#[verifier::external_body]
fn available_cpus() -> (r: usize)
    ensures
        r >= 1,
{
    num_cpus::get()
}

/// The number of processing cores available for sizing a worker pool.
pub fn core_nums() -> (r: usize)
    ensures
        r >= 1,
{
    available_cpus()
}

} // verus!
