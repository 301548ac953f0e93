//! streaming content hashing: an object's name is the blake3 digest of the
//! bytes it holds, fed in chunks as they are read

use crate::api::err::{Error, ErrorView, Result};
use crate::store::cas::{blake3_hex, is_lower_hex};
use vstd::prelude::*;

verus! {

#[verifier::external_type_specification]
#[verifier::external_body]
pub struct ExHasher(blake3::Hasher);

/// the bytes a `blake3::Hasher` has been fed since it was made, in order
pub uninterp spec fn hasher_input(h: blake3::Hasher) -> Seq<u8>;

/// `blake3::Hasher::new()`: a hasher for the regular hash function that
/// has been fed nothing yet.
#[verifier::external_body]
fn hasher_new() -> (h: blake3::Hasher)
    ensures
        hasher_input(h) == Seq::<u8>::empty(),
{
    blake3::Hasher::new()
}

/// `blake3::Hasher::update`: appends `chunk` to the bytes the hasher has
/// been fed. Its documentation shows that updating with pieces and then
/// finalizing gives the hash of the pieces joined; that is what the name
/// `hasher_input` carries to `hasher_hex`.
#[verifier::external_body]
fn hasher_update(h: &mut blake3::Hasher, chunk: &[u8])
    ensures
        hasher_input(*final(h)) == hasher_input(*old(h)) + chunk@,
{
    h.update(chunk);
}

/// `Hasher::finalize().to_hex()`: the hash of every byte fed so far, the
/// same as `blake3::hash` of those bytes, as 64 lowercase hexadecimal
/// digits. Finalizing leaves the hasher as it was.
#[verifier::external_body]
fn hasher_hex(h: &blake3::Hasher) -> (s: String)
    ensures
        s@ == blake3_hex(hasher_input(*h)),
        s@.len() == 64,
        forall|i: int| 0 <= i < s@.len() ==> is_lower_hex(#[trigger] s@[i]),
{
    h.finalize().to_hex().to_string()
}

/// a running content hash; what it has been fed is `fed()`
pub struct Digest {
    hasher: blake3::Hasher,
}

impl Digest {
    pub closed spec fn fed(&self) -> Seq<u8> {
        hasher_input(self.hasher)
    }

    pub fn new() -> (d: Digest)
        ensures
            d.fed() == Seq::<u8>::empty(),
    {
        Digest { hasher: hasher_new() }
    }

    /// feed the next chunk of the content
    pub fn update(&mut self, chunk: &[u8])
        ensures
            final(self).fed() == old(self).fed() + chunk@,
    {
        hasher_update(&mut self.hasher, chunk);
    }

    /// the content's name: the digest of everything fed, in lowercase hex
    pub fn hex(&self) -> (h: String)
        ensures
            h@ == blake3_hex(self.fed()),
            h@.len() == 64,
            forall|i: int| 0 <= i < h@.len() ==> is_lower_hex(#[trigger] h@[i]),
    {
        hasher_hex(&self.hasher)
    }

    /// compare the content against the hash its name claims; a mismatch
    /// is corruption or tampering, reported under the claimed hash
    pub fn check(&self, hash: &str) -> (r: Result<()>)
        ensures
            r is Ok <==> blake3_hex(self.fed()) == hash@,
            r matches Err(e) ==> e@ == (ErrorView::Corrupt { hash: hash@ }),
    {
        let got = self.hex();
        if crate::text::str_eq(got.as_str(), hash) {
            Ok(())
        } else {
            Err(Error::Corrupt { hash: String::from_str(hash) })
        }
    }
}

} // verus!
